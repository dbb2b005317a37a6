//! What can be relied on when units come out of the dag.
use crate::alerts::{ForkingNotificationView, SignedUnitView};
use crate::crypto::{HashOf, Hasher, Keychain, SignatureOf};
use crate::dag;
use crate::dag::order;
use crate::dag::order::OrderView;
use crate::dag::unit::DagUnitView;
use crate::dag::validation;
use crate::dag::{DagResultView, DagView};
use crate::data::Data;
use crate::reconstruction::laws;
use crate::reconstruction::parents;
use crate::reconstruction::parents::ResultView;
use crate::reconstruction::ReconstructedView;
use crate::units;
use crate::units::store::StoreView;
use crate::units::validator::Validator as UnitValidator;
use crate::units::UnitView;
use vstd::prelude::*;

verus! {

/// The units that wait are different, and none of them has been placed.
pub open spec fn order_coherent<V>(state: OrderView<V>) -> bool {
    &&& forall|i: int, j: int|
        0 <= i < j < state.waiting.len() ==> (#[trigger] state.waiting[i]).unit.hash != (
        #[trigger] state.waiting[j]).unit.hash
    &&& forall|i: int|
        0 <= i < state.waiting.len() ==> !state.placed.contains(
            (#[trigger] state.waiting[i]).unit.hash,
        )
}

/// What comes out of the order: units from a given stock, different ones that had not been placed,
/// parents before children.
pub open spec fn well_placed<V>(
    stock: Set<ReconstructedView<V>>,
    placed: Set<V>,
    units: Seq<ReconstructedView<V>>,
) -> bool {
    &&& order::parents_first(placed, units)
    &&& forall|k: int|
        0 <= k < units.len() ==> stock.contains(#[trigger] units[k]) && !placed.contains(
            units[k].unit.hash,
        )
    &&& forall|j: int, k: int|
        0 <= j < k < units.len() ==> (#[trigger] units[j]).unit.hash != (
        #[trigger] units[k]).unit.hash
}

/// The units that wait are from a given stock.
pub open spec fn from_stock<V>(state: OrderView<V>, stock: Set<ReconstructedView<V>>) -> bool {
    forall|i: int| 0 <= i < state.waiting.len() ==> stock.contains(#[trigger] state.waiting[i])
}

/// The placed units are those that were, and those that have come out.
pub open spec fn placed_exactly<V>(
    before: Set<V>,
    after: Set<V>,
    units: Seq<ReconstructedView<V>>,
) -> bool {
    forall|hash: V| #[trigger]
        after.contains(hash) <==> before.contains(hash) || exists|j: int|
            0 <= j < units.len() && (#[trigger] units[j]).unit.hash == hash
}

proof fn lemma_settled_coherent<V>(state: OrderView<V>, stock: Set<ReconstructedView<V>>)
    requires
        order_coherent(state),
        from_stock(state, stock),
    ensures
        order_coherent(order::settled(state).0),
        from_stock(order::settled(state).0, stock),
        well_placed(stock, state.placed, order::settled(state).1),
        placed_exactly(state.placed, order::settled(state).0.placed, order::settled(state).1),
    decreases state.waiting.len(),
{
    let (after, units) = order::settled(state);
    if exists|i: int| order::is_first_ready(state.placed, state.waiting, i) {
        let i = choose|i: int| order::is_first_ready(state.placed, state.waiting, i);
        let unit = state.waiting[i];
        let next = OrderView {
            placed: state.placed.insert(unit.unit.hash),
            waiting: state.waiting.remove(i),
        };
        assert forall|a: int| 0 <= a < next.waiting.len() implies #[trigger] next.waiting[a]
            == state.waiting[if a < i { a } else { a + 1 }] by {}
        assert(order_coherent(next));
        lemma_settled_coherent(next, stock);
        let rest = order::settled(next).1;
        assert(units =~= seq![unit] + rest);
        assert forall|k: int| 0 <= k < units.len() implies stock.contains(#[trigger] units[k])
            && !state.placed.contains(units[k].unit.hash) by {
            if k > 0 {
                assert(units[k] == rest[k - 1]);
            }
        }
        assert forall|j: int, k: int| 0 <= j < k < units.len() implies (
        #[trigger] units[j]).unit.hash != (#[trigger] units[k]).unit.hash by {
            assert(units[k] == rest[k - 1]);
            assert(!next.placed.contains(rest[k - 1].unit.hash));
            if j > 0 {
                assert(units[j] == rest[j - 1]);
            }
        }
        assert forall|k: int, p: int|
            #![trigger units[k].parents[p]]
            0 <= k < units.len() && 0 <= p < units[k].parents.len() implies (
        units[k].parents[p] matches Some(parent) ==> state.placed.contains(parent) || exists|j: int|
            0 <= j < k && (#[trigger] units[j]).unit.hash == parent) by {
            if let Some(parent) = units[k].parents[p] {
                if k > 0 {
                    assert(rest[k - 1].parents[p] == Some(parent));
                    if next.placed.contains(parent) {
                        if !state.placed.contains(parent) {
                            assert(units[0].unit.hash == parent);
                        }
                    } else {
                        let j = choose|j: int|
                            0 <= j < k - 1 && (#[trigger] rest[j]).unit.hash == parent;
                        assert(units[j + 1].unit.hash == parent);
                    }
                } else {
                    assert(unit.parents[p] == Some(parent));
                }
            }
        }
        assert forall|hash: V| #[trigger]
            after.placed.contains(hash) <==> state.placed.contains(hash) || exists|j: int|
                0 <= j < units.len() && (#[trigger] units[j]).unit.hash == hash by {
            if hash == unit.unit.hash {
                assert(units[0].unit.hash == hash);
                assert(next.placed.contains(hash));
            }
            if exists|j: int| 0 <= j < rest.len() && (#[trigger] rest[j]).unit.hash == hash {
                let j = choose|j: int| 0 <= j < rest.len() && (#[trigger] rest[j]).unit.hash == hash;
                assert(units[j + 1].unit.hash == hash);
            }
            if exists|j: int| 0 <= j < units.len() && (#[trigger] units[j]).unit.hash == hash {
                let j = choose|j: int|
                    0 <= j < units.len() && (#[trigger] units[j]).unit.hash == hash;
                if j > 0 {
                    assert(rest[j - 1].unit.hash == hash);
                }
            }
        }
    }
}

proof fn lemma_added_coherent<V>(
    state: OrderView<V>,
    unit: ReconstructedView<V>,
    stock: Set<ReconstructedView<V>>,
)
    requires
        order_coherent(state),
        from_stock(state, stock),
        state.knows(unit.unit.hash) || stock.contains(unit),
    ensures
        order_coherent(order::added(state, unit).0),
        from_stock(order::added(state, unit).0, stock),
        well_placed(stock, state.placed, order::added(state, unit).1),
        placed_exactly(state.placed, order::added(state, unit).0.placed, order::added(state, unit).1),
{
    if !state.knows(unit.unit.hash) {
        let start = OrderView { waiting: state.waiting.push(unit), ..state };
        assert forall|i: int, j: int| 0 <= i < j < start.waiting.len() implies (
        #[trigger] start.waiting[i]).unit.hash != (#[trigger] start.waiting[j]).unit.hash by {
            assert(start.waiting[i] == state.waiting[i]);
            if j < state.waiting.len() {
                assert(start.waiting[j] == state.waiting[j]);
            }
        }
        lemma_settled_coherent(start, stock);
    }
}

/// What comes out one after another is well placed as a whole.
proof fn lemma_placed_together<V>(
    stock: Set<ReconstructedView<V>>,
    start: Set<V>,
    middle: Set<V>,
    first: Seq<ReconstructedView<V>>,
    end: Set<V>,
    second: Seq<ReconstructedView<V>>,
)
    requires
        well_placed(stock, start, first),
        placed_exactly(start, middle, first),
        well_placed(stock, middle, second),
        placed_exactly(middle, end, second),
    ensures
        well_placed(stock, start, first + second),
        placed_exactly(start, end, first + second),
{
    let units = first + second;
    let n = first.len() as int;
    assert forall|k: int| 0 <= k < units.len() implies stock.contains(#[trigger] units[k])
        && !start.contains(units[k].unit.hash) by {
        if k < n {
            assert(units[k] == first[k]);
        } else {
            assert(units[k] == second[k - n]);
            assert(!middle.contains(second[k - n].unit.hash));
        }
    }
    assert forall|j: int, k: int| 0 <= j < k < units.len() implies (#[trigger] units[j]).unit.hash
        != (#[trigger] units[k]).unit.hash by {
        if k < n {
            assert(units[j] == first[j] && units[k] == first[k]);
        } else {
            assert(units[k] == second[k - n]);
            if j < n {
                assert(units[j] == first[j]);
                assert(middle.contains(first[j].unit.hash));
            } else {
                assert(units[j] == second[j - n]);
            }
        }
    }
    assert forall|k: int, p: int|
        #![trigger units[k].parents[p]]
        0 <= k < units.len() && 0 <= p < units[k].parents.len() implies (
    units[k].parents[p] matches Some(parent) ==> start.contains(parent) || exists|j: int|
        0 <= j < k && (#[trigger] units[j]).unit.hash == parent) by {
        if let Some(parent) = units[k].parents[p] {
            if k < n {
                assert(first[k].parents[p] == Some(parent));
                if !start.contains(parent) {
                    let j = choose|j: int| 0 <= j < k && (#[trigger] first[j]).unit.hash == parent;
                    assert(units[j].unit.hash == parent);
                }
            } else {
                assert(second[k - n].parents[p] == Some(parent));
                if middle.contains(parent) {
                    if !start.contains(parent) {
                        let j = choose|j: int|
                            0 <= j < first.len() && (#[trigger] first[j]).unit.hash == parent;
                        assert(units[j].unit.hash == parent);
                    }
                } else {
                    let j = choose|j: int|
                        0 <= j < k - n && (#[trigger] second[j]).unit.hash == parent;
                    assert(units[j + n].unit.hash == parent);
                }
            }
        }
    }
    assert forall|hash: V| #[trigger]
        end.contains(hash) <==> start.contains(hash) || exists|j: int|
            0 <= j < units.len() && (#[trigger] units[j]).unit.hash == hash by {
        if end.contains(hash) {
            if middle.contains(hash) {
                if !start.contains(hash) {
                    let j = choose|j: int|
                        0 <= j < first.len() && (#[trigger] first[j]).unit.hash == hash;
                    assert(units[j].unit.hash == hash);
                }
            } else {
                let j = choose|j: int|
                    0 <= j < second.len() && (#[trigger] second[j]).unit.hash == hash;
                assert(units[j + n].unit.hash == hash);
            }
        }
        if start.contains(hash) {
            assert(middle.contains(hash));
        }
        if exists|j: int| 0 <= j < units.len() && (#[trigger] units[j]).unit.hash == hash {
            let j = choose|j: int| 0 <= j < units.len() && (#[trigger] units[j]).unit.hash == hash;
            if j < n {
                assert(first[j].unit.hash == hash);
                assert(middle.contains(hash));
            } else {
                assert(second[j - n].unit.hash == hash);
            }
        }
    }
}

pub proof fn lemma_all_added_coherent<V>(
    state: OrderView<V>,
    units: Seq<ReconstructedView<V>>,
    stock: Set<ReconstructedView<V>>,
)
    requires
        order_coherent(state),
        from_stock(state, stock),
        forall|i: int|
            0 <= i < units.len() ==> state.placed.contains((#[trigger] units[i]).unit.hash)
                || stock.contains(units[i]),
    ensures
        order_coherent(order::all_added(state, units).0),
        from_stock(order::all_added(state, units).0, stock),
        well_placed(stock, state.placed, order::all_added(state, units).1),
        placed_exactly(
            state.placed,
            order::all_added(state, units).0.placed,
            order::all_added(state, units).1,
        ),
    decreases units.len(),
{
    if units.len() > 0 {
        let rest = units.drop_last();
        assert forall|i: int| 0 <= i < rest.len() implies state.placed.contains(
            (#[trigger] rest[i]).unit.hash,
        ) || stock.contains(rest[i]) by {
            assert(units[i] == rest[i]);
        }
        lemma_all_added_coherent(state, rest, stock);
        let (middle, first) = order::all_added(state, rest);
        let last = units.last();
        assert(units[units.len() - 1] == last);
        if state.placed.contains(last.unit.hash) {
            assert(middle.placed.contains(last.unit.hash));
        }
        lemma_added_coherent(middle, last, stock);
        let (after, second) = order::added(middle, last);
        lemma_placed_together(stock, state.placed, middle.placed, first, after.placed, second);
    }
}

/// A kept signed unit that belongs to the given unit.
pub open spec fn belongs<H: Hasher, D: Data, S: Data>(
    signed: Map<HashOf<H>, SignedUnitView<HashOf<H>, D::V, S::V>>,
    unit: UnitView<HashOf<H>>,
) -> bool {
    signed.contains_key(unit.hash) && signed[unit.hash].signable.pre_unit == unit.pre_unit
}

/// The state of a dag makes sense: signed units are kept under their hashes, all the units in the
/// process have their signed units or have been placed, the units that wait are different and have
/// their signed units, and their parents match their control hashes.
pub open spec fn coherent<H: Hasher, D: Data, S: Data>(
    state: DagView<HashOf<H>, D::V, S::V>,
) -> bool {
    &&& forall|hash: HashOf<H>| #[trigger]
        state.signed.contains_key(hash) ==> units::unit_hash::<H, D>(state.signed[hash].signable)
            == hash
    &&& laws::keyed(state.reconstruction)
    &&& forall|hash: HashOf<H>| #[trigger]
        state.reconstruction.reconstructing.contains_key(hash) ==> {
            ||| belongs::<H, D, S>(
                state.signed,
                state.reconstruction.reconstructing[hash].unit(),
            )
            ||| state.order.placed.contains(hash)
        }
    &&& order_coherent(state.order)
    &&& forall|i: int|
        0 <= i < state.order.waiting.len() ==> {
            &&& belongs::<H, D, S>(state.signed, (#[trigger] state.order.waiting[i]).unit)
            &&& laws::correctly_reconstructed::<H>(state.order.waiting[i])
        }
}

/// The units that may come out: they have their signed units, and their parents match.
pub open spec fn stock<H: Hasher, D: Data, S: Data>(
    signed: Map<HashOf<H>, SignedUnitView<HashOf<H>, D::V, S::V>>,
) -> Set<ReconstructedView<HashOf<H>>> {
    Set::new(
        |unit: ReconstructedView<HashOf<H>>|
            belongs::<H, D, S>(signed, unit.unit) && laws::correctly_reconstructed::<H>(unit),
    )
}

/// Placed units with signed units of their own all get them back.
proof fn lemma_reunited<V, D, S>(
    signed: Map<V, SignedUnitView<V, D, S>>,
    units: Seq<ReconstructedView<V>>,
)
    requires
        forall|k: int|
            0 <= k < units.len() ==> signed.contains_key((#[trigger] units[k]).unit.hash),
        forall|j: int, k: int|
            0 <= j < k < units.len() ==> (#[trigger] units[j]).unit.hash != (
            #[trigger] units[k]).unit.hash,
    ensures
        ({
            let (after, result) = dag::reunited(signed, units);
            &&& result.len() == units.len()
            &&& forall|k: int|
                0 <= k < units.len() ==> #[trigger] result[k] == (DagUnitView {
                    unit: signed[units[k].unit.hash],
                    parents: units[k].parents,
                })
            &&& forall|hash: V| #[trigger]
                after.contains_key(hash) <==> signed.contains_key(hash) && forall|k: int|
                    0 <= k < units.len() ==> (#[trigger] units[k]).unit.hash != hash
            &&& forall|hash: V| #[trigger]
                after.contains_key(hash) ==> after[hash] == signed[hash]
        }),
    decreases units.len(),
{
    if units.len() > 0 {
        let rest = units.drop_last();
        assert forall|k: int| 0 <= k < rest.len() implies signed.contains_key(
            (#[trigger] rest[k]).unit.hash,
        ) by {
            assert(units[k] == rest[k]);
        }
        assert forall|j: int, k: int| 0 <= j < k < rest.len() implies (
        #[trigger] rest[j]).unit.hash != (#[trigger] rest[k]).unit.hash by {
            assert(units[j] == rest[j] && units[k] == rest[k]);
        }
        lemma_reunited(signed, rest);
        let (middle, first) = dag::reunited(signed, rest);
        let (after, result) = dag::reunited(signed, units);
        let last = units.last();
        let n = rest.len() as int;
        assert(units[n] == last);
        assert(middle.contains_key(last.unit.hash)) by {
            assert forall|k: int| 0 <= k < rest.len() implies (#[trigger] rest[k]).unit.hash
                != last.unit.hash by {
                assert(units[k] == rest[k]);
            }
        }
        assert forall|k: int| 0 <= k < units.len() implies #[trigger] result[k] == (DagUnitView {
            unit: signed[units[k].unit.hash],
            parents: units[k].parents,
        }) by {
            if k < n {
                assert(result[k] == first[k]);
                assert(units[k] == rest[k]);
            }
        }
        assert forall|hash: V| #[trigger]
            after.contains_key(hash) <==> signed.contains_key(hash) && forall|k: int|
                0 <= k < units.len() ==> (#[trigger] units[k]).unit.hash != hash by {
            if after.contains_key(hash) {
                assert(middle.contains_key(hash));
                assert forall|k: int| 0 <= k < units.len() implies (#[trigger] units[k]).unit.hash
                    != hash by {
                    if k < n {
                        assert(units[k] == rest[k]);
                    }
                }
            }
            if signed.contains_key(hash) && forall|k: int|
                0 <= k < units.len() ==> (#[trigger] units[k]).unit.hash != hash {
                assert forall|k: int| 0 <= k < rest.len() implies (#[trigger] rest[k]).unit.hash
                    != hash by {
                    assert(units[k] == rest[k]);
                }
                assert(units[n].unit.hash != hash);
            }
        }
    }
}

/// The hash of a unit that comes out of the dag.
pub open spec fn hash_of<H: Hasher, D: Data, S: Data>(
    unit: DagUnitView<HashOf<H>, D::V, S::V>,
) -> HashOf<H> {
    units::unit_hash::<H, D>(unit.unit.signable)
}

/// Units that come out of the dag, given what had been placed before: each behind all its parents,
/// with the parents that its control hash was made of, and none of them twice or placed before.
pub open spec fn correct_output<H: Hasher, D: Data, S: Data>(
    placed: Set<HashOf<H>>,
    units: Seq<DagUnitView<HashOf<H>, D::V, S::V>>,
) -> bool {
    &&& forall|k: int, i: int|
        #![trigger units[k].parents[i]]
        0 <= k < units.len() && 0 <= i < units[k].parents.len() ==> (
        units[k].parents[i] matches Some(parent) ==> placed.contains(parent) || exists|j: int|
            0 <= j < k && hash_of::<H, D, S>(#[trigger] units[j]) == parent)
    &&& forall|k: int|
        0 <= k < units.len() ==> laws::correctly_reconstructed::<H>(
            ReconstructedView {
                unit: UnitView {
                    pre_unit: (#[trigger] units[k]).unit.signable.pre_unit,
                    hash: hash_of::<H, D, S>(units[k]),
                },
                parents: units[k].parents,
            },
        )
    &&& forall|k: int|
        0 <= k < units.len() ==> !placed.contains(hash_of::<H, D, S>(#[trigger] units[k]))
    &&& forall|j: int, k: int|
        0 <= j < k < units.len() ==> hash_of::<H, D, S>(#[trigger] units[j]) != hash_of::<H, D, S>(
            #[trigger] units[k],
        )
}

/// The placed units are those that were, and those that have come out.
pub open spec fn placed_with<H: Hasher, D: Data, S: Data>(
    before: Set<HashOf<H>>,
    after: Set<HashOf<H>>,
    units: Seq<DagUnitView<HashOf<H>, D::V, S::V>>,
) -> bool {
    forall|hash: HashOf<H>| #[trigger]
        after.contains(hash) <==> before.contains(hash) || exists|k: int|
            0 <= k < units.len() && hash_of::<H, D, S>(#[trigger] units[k]) == hash
}

/// What comes out in two steps is correct as a whole.
pub proof fn lemma_output_together<H: Hasher, D: Data, S: Data>(
    start: Set<HashOf<H>>,
    middle: Set<HashOf<H>>,
    first: Seq<DagUnitView<HashOf<H>, D::V, S::V>>,
    end: Set<HashOf<H>>,
    second: Seq<DagUnitView<HashOf<H>, D::V, S::V>>,
)
    requires
        correct_output::<H, D, S>(start, first),
        placed_with::<H, D, S>(start, middle, first),
        correct_output::<H, D, S>(middle, second),
        placed_with::<H, D, S>(middle, end, second),
    ensures
        correct_output::<H, D, S>(start, first + second),
        placed_with::<H, D, S>(start, end, first + second),
{
    let units = first + second;
    let n = first.len() as int;
    assert forall|k: int| 0 <= k < units.len() implies #[trigger] units[k] == (if k < n {
        first[k]
    } else {
        second[k - n]
    }) by {}
    assert forall|k: int| 0 <= k < units.len() implies !start.contains(
        hash_of::<H, D, S>(#[trigger] units[k]),
    ) by {
        if k >= n {
            assert(!middle.contains(hash_of::<H, D, S>(second[k - n])));
        }
    }
    assert forall|j: int, k: int| 0 <= j < k < units.len() implies hash_of::<H, D, S>(
        #[trigger] units[j],
    ) != hash_of::<H, D, S>(#[trigger] units[k]) by {
        if k >= n && j < n {
            assert(!middle.contains(hash_of::<H, D, S>(second[k - n])));
            assert(middle.contains(hash_of::<H, D, S>(first[j])));
        }
    }
    assert forall|k: int, i: int|
        #![trigger units[k].parents[i]]
        0 <= k < units.len() && 0 <= i < units[k].parents.len() implies (
    units[k].parents[i] matches Some(parent) ==> start.contains(parent) || exists|j: int|
        0 <= j < k && hash_of::<H, D, S>(#[trigger] units[j]) == parent) by {
        if let Some(parent) = units[k].parents[i] {
            if k < n {
                assert(first[k].parents[i] == Some(parent));
                if !start.contains(parent) {
                    let j = choose|j: int|
                        0 <= j < k && hash_of::<H, D, S>(#[trigger] first[j]) == parent;
                    assert(hash_of::<H, D, S>(units[j]) == parent);
                }
            } else {
                assert(second[k - n].parents[i] == Some(parent));
                if middle.contains(parent) {
                    if !start.contains(parent) {
                        let j = choose|j: int|
                            0 <= j < n && hash_of::<H, D, S>(#[trigger] first[j]) == parent;
                        assert(hash_of::<H, D, S>(units[j]) == parent);
                    }
                } else {
                    let j = choose|j: int|
                        0 <= j < k - n && hash_of::<H, D, S>(#[trigger] second[j]) == parent;
                    assert(hash_of::<H, D, S>(units[j + n]) == parent);
                }
            }
        }
    }
    assert forall|hash: HashOf<H>| #[trigger]
        end.contains(hash) <==> start.contains(hash) || exists|k: int|
            0 <= k < units.len() && hash_of::<H, D, S>(#[trigger] units[k]) == hash by {
        if end.contains(hash) {
            if middle.contains(hash) {
                if !start.contains(hash) {
                    let j = choose|j: int|
                        0 <= j < n && hash_of::<H, D, S>(#[trigger] first[j]) == hash;
                    assert(hash_of::<H, D, S>(units[j]) == hash);
                }
            } else {
                let j = choose|j: int|
                    0 <= j < second.len() && hash_of::<H, D, S>(#[trigger] second[j]) == hash;
                assert(hash_of::<H, D, S>(units[j + n]) == hash);
            }
        }
        if start.contains(hash) {
            assert(middle.contains(hash));
        }
        if exists|k: int| 0 <= k < units.len() && hash_of::<H, D, S>(#[trigger] units[k]) == hash {
            let k = choose|k: int|
                0 <= k < units.len() && hash_of::<H, D, S>(#[trigger] units[k]) == hash;
            if k < n {
                assert(hash_of::<H, D, S>(first[k]) == hash);
                assert(middle.contains(hash));
            } else {
                assert(hash_of::<H, D, S>(second[k - n]) == hash);
            }
        }
    }
}

/// Where nothing comes out, nothing is wrong.
pub proof fn lemma_no_output<H: Hasher, D: Data, S: Data>(placed: Set<HashOf<H>>)
    ensures
        correct_output::<H, D, S>(placed, seq![]),
        placed_with::<H, D, S>(placed, placed, seq![]),
{
}

/// Whatever is reconstructed from a coherent state comes out correctly.
proof fn lemma_ordered<H: Hasher, D: Data, S: Data>(
    state: DagView<HashOf<H>, D::V, S::V>,
    result: ResultView<HashOf<H>>,
)
    requires
        coherent::<H, D, S>(state),
        laws::all_correct::<H>(result),
        forall|k: int|
            0 <= k < result.units.len() ==> {
                ||| belongs::<H, D, S>(state.signed, (#[trigger] result.units[k]).unit)
                ||| state.order.placed.contains(result.units[k].unit.hash)
            },
    ensures
        coherent::<H, D, S>(dag::ordered(state, result).0),
        correct_output::<H, D, S>(state.order.placed, dag::ordered(state, result).1.units),
        placed_with::<H, D, S>(
            state.order.placed,
            dag::ordered(state, result).0.order.placed,
            dag::ordered(state, result).1.units,
        ),
{
    let available = stock::<H, D, S>(state.signed);
    assert forall|k: int| 0 <= k < result.units.len() implies state.order.placed.contains(
        (#[trigger] result.units[k]).unit.hash,
    ) || available.contains(result.units[k]) by {
        assert(laws::correctly_reconstructed::<H>(result.units[k]));
    }
    lemma_all_added_coherent(state.order, result.units, available);
    let (after_order, placed) = order::all_added(state.order, result.units);
    assert forall|k: int| 0 <= k < placed.len() implies state.signed.contains_key(
        (#[trigger] placed[k]).unit.hash,
    ) by {
        assert(available.contains(placed[k]));
    }
    lemma_reunited(state.signed, placed);
    let (after_signed, units) = dag::reunited(state.signed, placed);
    let after = dag::ordered(state, result).0;
    assert forall|k: int| 0 <= k < units.len() implies hash_of::<H, D, S>(#[trigger] units[k])
        == placed[k].unit.hash && units[k].unit.signable.pre_unit == placed[k].unit.pre_unit
        && units[k].parents == placed[k].parents by {
        assert(available.contains(placed[k]));
        assert(state.signed.contains_key(placed[k].unit.hash));
    }
    assert forall|k: int, i: int|
        #![trigger units[k].parents[i]]
        0 <= k < units.len() && 0 <= i < units[k].parents.len() implies (
    units[k].parents[i] matches Some(parent) ==> state.order.placed.contains(parent) || exists|
        j: int,
    |
        0 <= j < k && hash_of::<H, D, S>(#[trigger] units[j]) == parent) by {
        if let Some(parent) = units[k].parents[i] {
            assert(placed[k].parents[i] == Some(parent));
            if !state.order.placed.contains(parent) {
                let j = choose|j: int| 0 <= j < k && (#[trigger] placed[j]).unit.hash == parent;
                assert(hash_of::<H, D, S>(units[j]) == parent);
            }
        }
    }
    assert forall|k: int| 0 <= k < units.len() implies laws::correctly_reconstructed::<H>(
        ReconstructedView {
            unit: UnitView {
                pre_unit: (#[trigger] units[k]).unit.signable.pre_unit,
                hash: hash_of::<H, D, S>(units[k]),
            },
            parents: units[k].parents,
        },
    ) by {
        let found = placed[k];
        assert(available.contains(found));
        assert(found == ReconstructedView {
            unit: UnitView {
                pre_unit: units[k].unit.signable.pre_unit,
                hash: hash_of::<H, D, S>(units[k]),
            },
            parents: units[k].parents,
        });
    }
    assert forall|i: int| 0 <= i < after.order.waiting.len() implies {
        &&& belongs::<H, D, S>(after.signed, (#[trigger] after.order.waiting[i]).unit)
        &&& laws::correctly_reconstructed::<H>(after.order.waiting[i])
    } by {
        let unit = after.order.waiting[i];
        assert(available.contains(unit));
        assert(!after.order.placed.contains(unit.unit.hash));
        assert forall|k: int| 0 <= k < placed.len() implies (#[trigger] placed[k]).unit.hash
            != unit.unit.hash by {
            assert(after.order.placed.contains(placed[k].unit.hash));
        }
        assert(after.signed.contains_key(unit.unit.hash));
    }
    assert forall|hash: HashOf<H>| #[trigger]
        after.reconstruction.reconstructing.contains_key(hash) implies {
        ||| belongs::<H, D, S>(after.signed, after.reconstruction.reconstructing[hash].unit())
        ||| after.order.placed.contains(hash)
    } by {
        assert(state.reconstruction.reconstructing.contains_key(hash));
        if !after.order.placed.contains(hash) {
            assert(!state.order.placed.contains(hash));
            assert forall|k: int| 0 <= k < placed.len() implies (#[trigger] placed[k]).unit.hash
                != hash by {
                assert(after.order.placed.contains(placed[k].unit.hash));
            }
            assert(after.signed.contains_key(hash));
        }
    }
    assert forall|hash: HashOf<H>| #[trigger]
        after.order.placed.contains(hash) <==> state.order.placed.contains(hash) || exists|k: int|
            0 <= k < units.len() && hash_of::<H, D, S>(#[trigger] units[k]) == hash by {
        if after.order.placed.contains(hash) && !state.order.placed.contains(hash) {
            let k = choose|k: int| 0 <= k < placed.len() && (#[trigger] placed[k]).unit.hash == hash;
            assert(hash_of::<H, D, S>(units[k]) == hash);
        }
        if exists|k: int| 0 <= k < units.len() && hash_of::<H, D, S>(#[trigger] units[k]) == hash {
            let k = choose|k: int|
                0 <= k < units.len() && hash_of::<H, D, S>(#[trigger] units[k]) == hash;
            assert(after.order.placed.contains(placed[k].unit.hash));
        }
    }
    assert forall|k: int| 0 <= k < units.len() implies !state.order.placed.contains(
        hash_of::<H, D, S>(#[trigger] units[k]),
    ) by {
        assert(!state.order.placed.contains(placed[k].unit.hash));
    }
    assert forall|j: int, k: int| 0 <= j < k < units.len() implies hash_of::<H, D, S>(
        #[trigger] units[j],
    ) != hash_of::<H, D, S>(#[trigger] units[k]) by {
        assert(placed[j].unit.hash != placed[k].unit.hash);
    }
}

/// No other unit with the same hash is being processed.
pub open spec fn no_collision<H: Hasher, D: Data, S: Data>(
    state: DagView<HashOf<H>, D::V, S::V>,
    unit: SignedUnitView<HashOf<H>, D::V, S::V>,
) -> bool {
    let hash = units::unit_hash::<H, D>(unit.signable);
    &&& state.signed.contains_key(hash) ==> state.signed[hash].signable == unit.signable
    &&& state.reconstruction.reconstructing.contains_key(hash)
        ==> state.reconstruction.reconstructing[hash].unit().pre_unit == unit.signable.pre_unit
}

/// A unit that is passed on leaves the state coherent, and what comes out is correct.
proof fn lemma_passed_on<H: Hasher, D: Data, S: Data>(
    state: DagView<HashOf<H>, D::V, S::V>,
    unit: SignedUnitView<HashOf<H>, D::V, S::V>,
)
    requires
        coherent::<H, D, S>(state),
        no_collision::<H, D, S>(state, unit),
    ensures
        coherent::<H, D, S>(dag::passed_on::<H, D, S>(state, unit).0),
        correct_output::<H, D, S>(
            state.order.placed,
            dag::passed_on::<H, D, S>(state, unit).1.units,
        ),
        placed_with::<H, D, S>(
            state.order.placed,
            dag::passed_on::<H, D, S>(state, unit).0.order.placed,
            dag::passed_on::<H, D, S>(state, unit).1.units,
        ),
{
    let hash = units::unit_hash::<H, D>(unit.signable);
    let bare = UnitView { pre_unit: unit.signable.pre_unit, hash };
    laws::lemma_unit_added::<H>(state.reconstruction, bare);
    laws::law_reconstructed_units_match::<H>(state.reconstruction, bare, hash, seq![]);
    let (reconstruction, result) = parents::unit_added::<H>(state.reconstruction, bare);
    let middle = DagView { reconstruction, signed: state.signed.insert(hash, unit), ..state };
    assert forall|u: UnitView<HashOf<H>>|
        belongs::<H, D, S>(state.signed, u) implies #[trigger] belongs::<H, D, S>(
        middle.signed,
        u,
    ) by {}
    assert forall|h: HashOf<H>| #[trigger]
        middle.reconstruction.reconstructing.contains_key(h) implies {
        ||| belongs::<H, D, S>(middle.signed, middle.reconstruction.reconstructing[h].unit())
        ||| middle.order.placed.contains(h)
    } by {
        let found = middle.reconstruction.reconstructing[h].unit();
        assert(laws::in_process(state.reconstruction, bare, found));
        if found != bare {
            assert(state.reconstruction.reconstructing.contains_key(found.hash));
            assert(belongs::<H, D, S>(state.signed, found) || state.order.placed.contains(h));
        }
    }
    assert forall|k: int| 0 <= k < result.units.len() implies {
        ||| belongs::<H, D, S>(middle.signed, (#[trigger] result.units[k]).unit)
        ||| middle.order.placed.contains(result.units[k].unit.hash)
    } by {
        let found = result.units[k].unit;
        if found != bare {
            assert(state.reconstruction.reconstructing.contains_key(found.hash));
            assert(belongs::<H, D, S>(state.signed, found) || state.order.placed.contains(
                found.hash,
            ));
        }
    }
    assert(coherent::<H, D, S>(middle));
    lemma_ordered::<H, D, S>(middle, result);
}

pub proof fn lemma_cleaned<H: Hasher, D: Data, S: Data>(
    state: DagView<HashOf<H>, D::V, S::V>,
    units: Seq<DagUnitView<HashOf<H>, D::V, S::V>>,
)
    ensures
        ({
            let after = dag::cleaned::<H, D, S>(state, units);
            &&& after.reconstruction == state.reconstruction
            &&& after.order == state.order
            &&& after.signed == state.signed
        }),
    decreases units.len(),
{
    if units.len() > 0 {
        lemma_cleaned::<H, D, S>(state, units.drop_last());
    }
}

/// A new dag is coherent.
pub proof fn law_fresh_dag_coherent<H: Hasher, D: Data, S: Data>()
    ensures
        coherent::<H, D, S>(DagView::<HashOf<H>, D::V, S::V>::fresh()),
{
}

/// The dag stays coherent when a unit is no longer being processed.
pub proof fn law_finished_stays_coherent<H: Hasher, D: Data, S: Data>(
    state: DagView<HashOf<H>, D::V, S::V>,
    hash: HashOf<H>,
)
    requires
        coherent::<H, D, S>(state),
    ensures
        coherent::<H, D, S>(
            DagView { validator: validation::finished(state.validator, hash), ..state },
        ),
{
}

/// Adding a unit keeps the dag coherent, and the units come out in the correct order: each behind
/// all its parents, with the parents that its control hash was made of, and never twice. The one
/// exception is a unit that has the hash of a different unit that is still being processed.
pub proof fn law_units_in_order<H: Hasher, D: Data, K: Keychain>(
    unit_validator: &UnitValidator<K>,
    state: DagView<HashOf<H>, D::V, SignatureOf<K>>,
    store: StoreView<HashOf<H>, DagUnitView<HashOf<H>, D::V, SignatureOf<K>>>,
    unit: SignedUnitView<HashOf<H>, D::V, SignatureOf<K>>,
)
    requires
        coherent::<H, D, K::Signature>(state),
        no_collision::<H, D, K::Signature>(state, unit),
    ensures
        coherent::<H, D, K::Signature>(
            dag::unit_added::<H, D, K>(unit_validator, state, store, unit).0,
        ),
        correct_output::<H, D, K::Signature>(
            state.order.placed,
            dag::unit_added::<H, D, K>(unit_validator, state, store, unit).1.units,
        ),
        placed_with::<H, D, K::Signature>(
            state.order.placed,
            dag::unit_added::<H, D, K>(unit_validator, state, store, unit).0.order.placed,
            dag::unit_added::<H, D, K>(unit_validator, state, store, unit).1.units,
        ),
{
    let (validator, error) = validation::validated::<H, D, K>(
        unit_validator,
        state.validator,
        store,
        unit,
    );
    let checked = DagView { validator, ..state };
    assert(coherent::<H, D, K::Signature>(checked));
    let (after, result) = dag::unit_processed::<H, D, K>(unit_validator, state, store, unit);
    if error is None {
        lemma_passed_on::<H, D, K::Signature>(checked, unit);
    } else {
        lemma_no_output::<H, D, K::Signature>(state.order.placed);
    }
    lemma_cleaned::<H, D, K::Signature>(after, result.units);
}

/// Adding the explicit list of the parents of a unit, once the parents have been dealt with, keeps
/// the dag coherent, and what comes out is in the correct order.
pub proof fn law_explicit_parents_in_order<H: Hasher, D: Data, S: Data>(
    state: DagView<HashOf<H>, D::V, S::V>,
    hash: HashOf<H>,
    list: Seq<HashOf<H>>,
)
    requires
        coherent::<H, D, S>(state),
    ensures
        ({
            let (reconstruction, result) = parents::parents_added::<H>(
                state.reconstruction,
                hash,
                list,
            );
            let (after, output) = dag::ordered(DagView { reconstruction, ..state }, result);
            &&& coherent::<H, D, S>(after)
            &&& correct_output::<H, D, S>(state.order.placed, output.units)
            &&& placed_with::<H, D, S>(state.order.placed, after.order.placed, output.units)
        }),
{
    let (reconstruction, result) = parents::parents_added::<H>(state.reconstruction, hash, list);
    laws::law_reconstructed_units_match::<H>(
        state.reconstruction,
        arbitrary(),
        hash,
        list,
    );
    let middle = DagView { reconstruction, ..state };
    assert(coherent::<H, D, S>(middle)) by {
        assert forall|h: HashOf<H>| #[trigger]
            middle.reconstruction.reconstructing.contains_key(h) implies {
            ||| belongs::<H, D, S>(middle.signed, middle.reconstruction.reconstructing[h].unit())
            ||| middle.order.placed.contains(h)
        } by {
            assert(state.reconstruction.reconstructing.contains_key(h));
        }
        assert forall|h: HashOf<H>| #[trigger]
            middle.reconstruction.reconstructing.contains_key(
                h,
            ) implies middle.reconstruction.reconstructing[h].unit().hash == h by {
            assert(state.reconstruction.reconstructing.contains_key(h));
        }
    }
    assert forall|k: int| 0 <= k < result.units.len() implies {
        ||| belongs::<H, D, S>(middle.signed, (#[trigger] result.units[k]).unit)
        ||| middle.order.placed.contains(result.units[k].unit.hash)
    } by {
        assert(state.reconstruction.reconstructing.contains_key(hash));
    }
    lemma_ordered::<H, D, S>(middle, result);
}

/// None of the units that somebody committed to has, when its turn comes, the hash of a different
/// unit that is still being processed.
pub open spec fn committed_apart<H: Hasher, D: Data, K: Keychain>(
    unit_validator: &UnitValidator<K>,
    state: DagView<HashOf<H>, D::V, SignatureOf<K>>,
    store: StoreView<HashOf<H>, DagUnitView<HashOf<H>, D::V, SignatureOf<K>>>,
    units: Seq<SignedUnitView<HashOf<H>, D::V, SignatureOf<K>>>,
) -> bool {
    forall|k: int|
        0 <= k < units.len() ==> no_collision::<H, D, K::Signature>(
            dag::committed_processed::<H, D, K>(unit_validator, state, store, units.take(k)).0,
            #[trigger] units[k],
        )
}

/// None of the units of a notification has, when its turn comes, the hash of a different unit that
/// is still being processed.
pub open spec fn notified_apart<H: Hasher, D: Data, K: Keychain>(
    unit_validator: &UnitValidator<K>,
    state: DagView<HashOf<H>, D::V, SignatureOf<K>>,
    store: StoreView<HashOf<H>, DagUnitView<HashOf<H>, D::V, SignatureOf<K>>>,
    notification: ForkingNotificationView<HashOf<H>, D::V, SignatureOf<K>>,
) -> bool {
    match notification {
        ForkingNotificationView::Forker(fork) => {
            let middle = dag::unit_added::<H, D, K>(unit_validator, state, store, fork.0).0;
            &&& no_collision::<H, D, K::Signature>(state, fork.0)
            &&& no_collision::<H, D, K::Signature>(middle, fork.1)
        },
        ForkingNotificationView::Units(units) => committed_apart::<H, D, K>(
            unit_validator,
            state,
            store,
            units,
        ),
    }
}

/// None of the parents in a response has, when its turn comes, the hash of a different unit that is
/// still being processed.
pub open spec fn parents_apart<H: Hasher, D: Data, K: Keychain>(
    unit_validator: &UnitValidator<K>,
    state: DagView<HashOf<H>, D::V, SignatureOf<K>>,
    store: StoreView<HashOf<H>, DagUnitView<HashOf<H>, D::V, SignatureOf<K>>>,
    units: Seq<SignedUnitView<HashOf<H>, D::V, SignatureOf<K>>>,
) -> bool {
    forall|k: int|
        0 <= k < units.len() ==> no_collision::<H, D, K::Signature>(
            dag::parents_processed::<H, D, K>(unit_validator, state, store, units.take(k)).state,
            #[trigger] units[k],
        )
}

proof fn lemma_committed_in_order<H: Hasher, D: Data, K: Keychain>(
    unit_validator: &UnitValidator<K>,
    state: DagView<HashOf<H>, D::V, SignatureOf<K>>,
    store: StoreView<HashOf<H>, DagUnitView<HashOf<H>, D::V, SignatureOf<K>>>,
    units: Seq<SignedUnitView<HashOf<H>, D::V, SignatureOf<K>>>,
)
    requires
        coherent::<H, D, K::Signature>(state),
        committed_apart::<H, D, K>(unit_validator, state, store, units),
    ensures
        ({
            let (after, result) = dag::committed_processed::<H, D, K>(
                unit_validator,
                state,
                store,
                units,
            );
            &&& coherent::<H, D, K::Signature>(after)
            &&& correct_output::<H, D, K::Signature>(state.order.placed, result.units)
            &&& placed_with::<H, D, K::Signature>(
                state.order.placed,
                after.order.placed,
                result.units,
            )
        }),
    decreases units.len(),
{
    lemma_no_output::<H, D, K::Signature>(state.order.placed);
    if units.len() > 0 {
        let rest = units.drop_last();
        let n = rest.len() as int;
        assert forall|k: int| 0 <= k < rest.len() implies no_collision::<H, D, K::Signature>(
            dag::committed_processed::<H, D, K>(unit_validator, state, store, rest.take(k)).0,
            #[trigger] rest[k],
        ) by {
            assert(rest.take(k) =~= units.take(k));
            assert(units[k] == rest[k]);
        }
        lemma_committed_in_order::<H, D, K>(unit_validator, state, store, rest);
        assert(rest =~= units.take(n));
        assert(units[n] == units.last());
        let (before, so_far) = dag::committed_processed::<H, D, K>(
            unit_validator,
            state,
            store,
            rest,
        );
        let (validator, error) = validation::committed_validated::<H, D, K>(
            unit_validator,
            before.validator,
            store,
            units.last(),
        );
        let checked = DagView { validator, ..before };
        assert(coherent::<H, D, K::Signature>(checked));
        let (after, more) = match error {
            None => dag::passed_on::<H, D, K::Signature>(checked, units.last()),
            Some(error) => (checked, dag::error_result(error)),
        };
        if error is None {
            lemma_passed_on::<H, D, K::Signature>(checked, units.last());
        } else {
            lemma_no_output::<H, D, K::Signature>(before.order.placed);
        }
        lemma_output_together::<H, D, K::Signature>(
            state.order.placed,
            before.order.placed,
            so_far.units,
            after.order.placed,
            more.units,
        );
    }
}

/// Processing a notification of the alerter keeps the dag coherent, and the units come out in the
/// correct order and never twice. The one exception is a unit that has the hash of a different unit
/// that is still being processed.
pub proof fn law_notification_in_order<H: Hasher, D: Data, K: Keychain>(
    unit_validator: &UnitValidator<K>,
    state: DagView<HashOf<H>, D::V, SignatureOf<K>>,
    store: StoreView<HashOf<H>, DagUnitView<HashOf<H>, D::V, SignatureOf<K>>>,
    notification: ForkingNotificationView<HashOf<H>, D::V, SignatureOf<K>>,
)
    requires
        coherent::<H, D, K::Signature>(state),
        notified_apart::<H, D, K>(unit_validator, state, store, notification),
    ensures
        ({
            let (after, result) = dag::notification_processed::<H, D, K>(
                unit_validator,
                state,
                store,
                notification,
            );
            &&& coherent::<H, D, K::Signature>(after)
            &&& correct_output::<H, D, K::Signature>(state.order.placed, result.units)
            &&& placed_with::<H, D, K::Signature>(
                state.order.placed,
                after.order.placed,
                result.units,
            )
        }),
{
    match notification {
        ForkingNotificationView::Forker(fork) => {
            law_units_in_order::<H, D, K>(unit_validator, state, store, fork.0);
            let (middle, first) = dag::unit_added::<H, D, K>(
                unit_validator,
                state,
                store,
                fork.0,
            );
            law_units_in_order::<H, D, K>(unit_validator, middle, store, fork.1);
            let (after, second) = dag::unit_added::<H, D, K>(
                unit_validator,
                middle,
                store,
                fork.1,
            );
            lemma_output_together::<H, D, K::Signature>(
                state.order.placed,
                middle.order.placed,
                first.units,
                after.order.placed,
                second.units,
            );
            lemma_cleaned::<H, D, K::Signature>(after, first.and(second).units);
        },
        ForkingNotificationView::Units(units) => {
            lemma_committed_in_order::<H, D, K>(unit_validator, state, store, units);
            let (after, result) = dag::committed_processed::<H, D, K>(
                unit_validator,
                state,
                store,
                units,
            );
            lemma_cleaned::<H, D, K::Signature>(after, result.units);
        },
    }
}

/// The parents in a response leave the state coherent, and what comes out is correct.
pub proof fn lemma_parents_processed<H: Hasher, D: Data, K: Keychain>(
    unit_validator: &UnitValidator<K>,
    state: DagView<HashOf<H>, D::V, SignatureOf<K>>,
    store: StoreView<HashOf<H>, DagUnitView<HashOf<H>, D::V, SignatureOf<K>>>,
    units: Seq<SignedUnitView<HashOf<H>, D::V, SignatureOf<K>>>,
)
    requires
        coherent::<H, D, K::Signature>(state),
        parents_apart::<H, D, K>(unit_validator, state, store, units),
    ensures
        ({
            let progress = dag::parents_processed::<H, D, K>(unit_validator, state, store, units);
            &&& coherent::<H, D, K::Signature>(progress.state)
            &&& correct_output::<H, D, K::Signature>(state.order.placed, progress.result.units)
            &&& placed_with::<H, D, K::Signature>(
                state.order.placed,
                progress.state.order.placed,
                progress.result.units,
            )
        }),
    decreases units.len(),
{
    lemma_no_output::<H, D, K::Signature>(state.order.placed);
    if units.len() > 0 {
        let rest = units.drop_last();
        let n = rest.len() as int;
        assert forall|k: int| 0 <= k < rest.len() implies no_collision::<H, D, K::Signature>(
            dag::parents_processed::<H, D, K>(unit_validator, state, store, rest.take(k)).state,
            #[trigger] rest[k],
        ) by {
            assert(rest.take(k) =~= units.take(k));
            assert(units[k] == rest[k]);
        }
        lemma_parents_processed::<H, D, K>(unit_validator, state, store, rest);
        assert(rest =~= units.take(n));
        assert(units[n] == units.last());
        let so_far = dag::parents_processed::<H, D, K>(unit_validator, state, store, rest);
        if !so_far.stopped {
            let (validator, error) = validation::validated::<H, D, K>(
                unit_validator,
                so_far.state.validator,
                store,
                units.last(),
            );
            let checked = DagView { validator, ..so_far.state };
            assert(coherent::<H, D, K::Signature>(checked));
            if error is None {
                lemma_passed_on::<H, D, K::Signature>(checked, units.last());
                let (after, more) = dag::passed_on::<H, D, K::Signature>(checked, units.last());
                lemma_output_together::<H, D, K::Signature>(
                    state.order.placed,
                    so_far.state.order.placed,
                    so_far.result.units,
                    after.order.placed,
                    more.units,
                );
            } else if let Some(validation::ErrorView::NewForker(alert)) = error {
                assert(so_far.result.and(DagResultView::alert(alert)).units
                    =~= so_far.result.units);
            }
        }
    }
}

/// Adding the parents of a unit keeps the dag coherent, and the units come out in the correct order
/// and never twice. The one exception is a unit that has the hash of a different unit that is still
/// being processed.
pub proof fn law_parents_in_order<H: Hasher, D: Data, K: Keychain>(
    unit_validator: &UnitValidator<K>,
    state: DagView<HashOf<H>, D::V, SignatureOf<K>>,
    store: StoreView<HashOf<H>, DagUnitView<HashOf<H>, D::V, SignatureOf<K>>>,
    hash: HashOf<H>,
    units: Seq<SignedUnitView<HashOf<H>, D::V, SignatureOf<K>>>,
)
    requires
        coherent::<H, D, K::Signature>(state),
        parents_apart::<H, D, K>(unit_validator, state, store, units),
    ensures
        ({
            let (after, result) = dag::parents_added::<H, D, K>(
                unit_validator,
                state,
                store,
                hash,
                units,
            );
            &&& coherent::<H, D, K::Signature>(after)
            &&& correct_output::<H, D, K::Signature>(state.order.placed, result.units)
            &&& placed_with::<H, D, K::Signature>(
                state.order.placed,
                after.order.placed,
                result.units,
            )
        }),
{
    lemma_parents_processed::<H, D, K>(unit_validator, state, store, units);
    let progress = dag::parents_processed::<H, D, K>(unit_validator, state, store, units);
    if !progress.stopped {
        let (after, more) = match dag::explicit_parents(
            progress.state.reconstruction,
            hash,
            progress.hashes,
        ) {
            Some(list) => {
                let (reconstruction, result) = parents::parents_added::<H>(
                    progress.state.reconstruction,
                    hash,
                    list,
                );
                law_explicit_parents_in_order::<H, D, K::Signature>(progress.state, hash, list);
                dag::ordered(DagView { reconstruction, ..progress.state }, result)
            },
            None => {
                lemma_no_output::<H, D, K::Signature>(progress.state.order.placed);
                (progress.state, DagResultView::nothing())
            },
        };
        lemma_output_together::<H, D, K::Signature>(
            state.order.placed,
            progress.state.order.placed,
            progress.result.units,
            after.order.placed,
            more.units,
        );
        lemma_cleaned::<H, D, K::Signature>(after, progress.result.and(more).units);
    }
}

/// All the signed units that are kept have passed the checks.
pub open spec fn all_checked<H: Hasher, D: Data, K: Keychain>(
    unit_validator: &UnitValidator<K>,
    signed: Map<HashOf<H>, SignedUnitView<HashOf<H>, D::V, SignatureOf<K>>>,
) -> bool {
    forall|hash: HashOf<H>| #[trigger]
        signed.contains_key(hash) ==> unit_validator.verdict::<H, D>(signed[hash]) is None
}

/// All the units that come out have passed the checks.
pub open spec fn checked_output<H: Hasher, D: Data, K: Keychain>(
    unit_validator: &UnitValidator<K>,
    units: Seq<DagUnitView<HashOf<H>, D::V, SignatureOf<K>>>,
) -> bool {
    forall|k: int|
        0 <= k < units.len() ==> unit_validator.verdict::<H, D>((#[trigger] units[k]).unit) is None
}

/// Placed units get back signed units from among those that were kept.
pub proof fn lemma_reunited_from<V, D, S>(
    signed: Map<V, SignedUnitView<V, D, S>>,
    units: Seq<ReconstructedView<V>>,
    good: Set<SignedUnitView<V, D, S>>,
)
    requires
        forall|hash: V| #[trigger] signed.contains_key(hash) ==> good.contains(signed[hash]),
    ensures
        forall|hash: V| #[trigger]
            dag::reunited(signed, units).0.contains_key(hash) ==> good.contains(
                dag::reunited(signed, units).0[hash],
            ),
        forall|k: int|
            0 <= k < dag::reunited(signed, units).1.len() ==> good.contains(
                (#[trigger] dag::reunited(signed, units).1[k]).unit,
            ),
    decreases units.len(),
{
    if units.len() > 0 {
        lemma_reunited_from(signed, units.drop_last(), good);
        let (before, first) = dag::reunited(signed, units.drop_last());
        let (after, result) = dag::reunited(signed, units);
        assert forall|k: int| 0 <= k < result.len() implies good.contains(
            (#[trigger] result[k]).unit,
        ) by {
            if k < first.len() {
                assert(result[k] == first[k]);
            } else {
                assert(before.contains_key(units.last().unit.hash));
            }
        }
    }
}

proof fn lemma_reunited_checked<H: Hasher, D: Data, K: Keychain>(
    unit_validator: &UnitValidator<K>,
    signed: Map<HashOf<H>, SignedUnitView<HashOf<H>, D::V, SignatureOf<K>>>,
    units: Seq<ReconstructedView<HashOf<H>>>,
)
    requires
        all_checked::<H, D, K>(unit_validator, signed),
    ensures
        all_checked::<H, D, K>(unit_validator, dag::reunited(signed, units).0),
        checked_output::<H, D, K>(unit_validator, dag::reunited(signed, units).1),
{
    let good = Set::new(
        |unit: SignedUnitView<HashOf<H>, D::V, SignatureOf<K>>|
            unit_validator.verdict::<H, D>(unit) is None,
    );
    lemma_reunited_from(signed, units, good);
    let (after, result) = dag::reunited(signed, units);
    assert forall|hash: HashOf<H>| #[trigger]
        after.contains_key(hash) implies unit_validator.verdict::<H, D>(after[hash]) is None by {
        assert(good.contains(after[hash]));
    }
    assert forall|k: int| 0 <= k < result.len() implies unit_validator.verdict::<H, D>(
        (#[trigger] result[k]).unit,
    ) is None by {
        assert(good.contains(result[k].unit));
    }
}

proof fn lemma_passed_on_checked<H: Hasher, D: Data, K: Keychain>(
    unit_validator: &UnitValidator<K>,
    state: DagView<HashOf<H>, D::V, SignatureOf<K>>,
    unit: SignedUnitView<HashOf<H>, D::V, SignatureOf<K>>,
)
    requires
        all_checked::<H, D, K>(unit_validator, state.signed),
        unit_validator.verdict::<H, D>(unit) is None,
    ensures
        ({
            let (after, result) = dag::passed_on::<H, D, K::Signature>(state, unit);
            &&& all_checked::<H, D, K>(unit_validator, after.signed)
            &&& checked_output::<H, D, K>(unit_validator, result.units)
        }),
{
    let hash = units::unit_hash::<H, D>(unit.signable);
    let reconstructed = parents::unit_added::<H>(
        state.reconstruction,
        UnitView { pre_unit: unit.signable.pre_unit, hash },
    ).1;
    let signed = state.signed.insert(hash, unit);
    assert(all_checked::<H, D, K>(unit_validator, signed));
    lemma_reunited_checked::<H, D, K>(
        unit_validator,
        signed,
        order::all_added(state.order, reconstructed.units).1,
    );
}

/// The units that come out of the dag, or are kept in it, are from among those that were kept and
/// the one that is added, if it passes the checks.
pub proof fn lemma_unit_added_from<H: Hasher, D: Data, K: Keychain>(
    unit_validator: &UnitValidator<K>,
    state: DagView<HashOf<H>, D::V, SignatureOf<K>>,
    store: StoreView<HashOf<H>, DagUnitView<HashOf<H>, D::V, SignatureOf<K>>>,
    unit: SignedUnitView<HashOf<H>, D::V, SignatureOf<K>>,
    good: Set<SignedUnitView<HashOf<H>, D::V, SignatureOf<K>>>,
)
    requires
        forall|hash: HashOf<H>| #[trigger]
            state.signed.contains_key(hash) ==> good.contains(state.signed[hash]),
        unit_validator.verdict::<H, D>(unit) is None ==> good.contains(unit),
    ensures
        ({
            let (after, result) = dag::unit_added::<H, D, K>(unit_validator, state, store, unit);
            &&& forall|hash: HashOf<H>| #[trigger]
                after.signed.contains_key(hash) ==> good.contains(after.signed[hash])
            &&& forall|k: int|
                0 <= k < result.units.len() ==> good.contains((#[trigger] result.units[k]).unit)
        }),
{
    let (after, result) = dag::unit_processed::<H, D, K>(unit_validator, state, store, unit);
    let hash = units::unit_hash::<H, D>(unit.signable);
    let reconstructed = parents::unit_added::<H>(
        state.reconstruction,
        UnitView { pre_unit: unit.signable.pre_unit, hash },
    ).1;
    if validation::validated::<H, D, K>(unit_validator, state.validator, store, unit).1 is None {
        lemma_reunited_from(
            state.signed.insert(hash, unit),
            order::all_added(state.order, reconstructed.units).1,
            good,
        );
    }
    lemma_cleaned::<H, D, K::Signature>(after, result.units);
}

/// No unit comes out of the dag, or is kept in it, that has not passed the checks.
pub proof fn law_only_checked_units<H: Hasher, D: Data, K: Keychain>(
    unit_validator: &UnitValidator<K>,
    state: DagView<HashOf<H>, D::V, SignatureOf<K>>,
    store: StoreView<HashOf<H>, DagUnitView<HashOf<H>, D::V, SignatureOf<K>>>,
    unit: SignedUnitView<HashOf<H>, D::V, SignatureOf<K>>,
)
    requires
        all_checked::<H, D, K>(unit_validator, state.signed),
    ensures
        ({
            let (after, result) = dag::unit_added::<H, D, K>(unit_validator, state, store, unit);
            &&& all_checked::<H, D, K>(unit_validator, after.signed)
            &&& checked_output::<H, D, K>(unit_validator, result.units)
        }),
{
    let (validator, error) = validation::validated::<H, D, K>(
        unit_validator,
        state.validator,
        store,
        unit,
    );
    let checked = DagView { validator, ..state };
    let (after, result) = dag::unit_processed::<H, D, K>(unit_validator, state, store, unit);
    if error is None {
        lemma_passed_on_checked::<H, D, K>(unit_validator, checked, unit);
    }
    lemma_cleaned::<H, D, K::Signature>(after, result.units);
}

proof fn lemma_committed_checked<H: Hasher, D: Data, K: Keychain>(
    unit_validator: &UnitValidator<K>,
    state: DagView<HashOf<H>, D::V, SignatureOf<K>>,
    store: StoreView<HashOf<H>, DagUnitView<HashOf<H>, D::V, SignatureOf<K>>>,
    units: Seq<SignedUnitView<HashOf<H>, D::V, SignatureOf<K>>>,
)
    requires
        all_checked::<H, D, K>(unit_validator, state.signed),
    ensures
        ({
            let (after, result) = dag::committed_processed::<H, D, K>(
                unit_validator,
                state,
                store,
                units,
            );
            &&& all_checked::<H, D, K>(unit_validator, after.signed)
            &&& checked_output::<H, D, K>(unit_validator, result.units)
        }),
    decreases units.len(),
{
    if units.len() > 0 {
        let rest = units.drop_last();
        lemma_committed_checked::<H, D, K>(unit_validator, state, store, rest);
        let (before, so_far) = dag::committed_processed::<H, D, K>(
            unit_validator,
            state,
            store,
            rest,
        );
        let (validator, error) = validation::committed_validated::<H, D, K>(
            unit_validator,
            before.validator,
            store,
            units.last(),
        );
        if error is None {
            lemma_passed_on_checked::<H, D, K>(
                unit_validator,
                DagView { validator, ..before },
                units.last(),
            );
        }
    }
}

/// No unit that a notification brings comes out of the dag, or is kept in it, that has not passed
/// the checks.
pub proof fn law_only_checked_units_of_notification<H: Hasher, D: Data, K: Keychain>(
    unit_validator: &UnitValidator<K>,
    state: DagView<HashOf<H>, D::V, SignatureOf<K>>,
    store: StoreView<HashOf<H>, DagUnitView<HashOf<H>, D::V, SignatureOf<K>>>,
    notification: ForkingNotificationView<HashOf<H>, D::V, SignatureOf<K>>,
)
    requires
        all_checked::<H, D, K>(unit_validator, state.signed),
    ensures
        ({
            let (after, result) = dag::notification_processed::<H, D, K>(
                unit_validator,
                state,
                store,
                notification,
            );
            &&& all_checked::<H, D, K>(unit_validator, after.signed)
            &&& checked_output::<H, D, K>(unit_validator, result.units)
        }),
{
    match notification {
        ForkingNotificationView::Forker(fork) => {
            law_only_checked_units::<H, D, K>(unit_validator, state, store, fork.0);
            let (middle, first) = dag::unit_added::<H, D, K>(unit_validator, state, store, fork.0);
            law_only_checked_units::<H, D, K>(unit_validator, middle, store, fork.1);
            let (after, second) = dag::unit_added::<H, D, K>(
                unit_validator,
                middle,
                store,
                fork.1,
            );
            lemma_cleaned::<H, D, K::Signature>(after, first.and(second).units);
        },
        ForkingNotificationView::Units(units) => {
            lemma_committed_checked::<H, D, K>(unit_validator, state, store, units);
            let (after, result) = dag::committed_processed::<H, D, K>(
                unit_validator,
                state,
                store,
                units,
            );
            lemma_cleaned::<H, D, K::Signature>(after, result.units);
        },
    }
}

proof fn lemma_parents_checked<H: Hasher, D: Data, K: Keychain>(
    unit_validator: &UnitValidator<K>,
    state: DagView<HashOf<H>, D::V, SignatureOf<K>>,
    store: StoreView<HashOf<H>, DagUnitView<HashOf<H>, D::V, SignatureOf<K>>>,
    units: Seq<SignedUnitView<HashOf<H>, D::V, SignatureOf<K>>>,
)
    requires
        all_checked::<H, D, K>(unit_validator, state.signed),
    ensures
        ({
            let progress = dag::parents_processed::<H, D, K>(unit_validator, state, store, units);
            &&& all_checked::<H, D, K>(unit_validator, progress.state.signed)
            &&& checked_output::<H, D, K>(unit_validator, progress.result.units)
        }),
    decreases units.len(),
{
    if units.len() > 0 {
        let rest = units.drop_last();
        lemma_parents_checked::<H, D, K>(unit_validator, state, store, rest);
        let so_far = dag::parents_processed::<H, D, K>(unit_validator, state, store, rest);
        if !so_far.stopped {
            let (validator, error) = validation::validated::<H, D, K>(
                unit_validator,
                so_far.state.validator,
                store,
                units.last(),
            );
            if error is None {
                lemma_passed_on_checked::<H, D, K>(
                    unit_validator,
                    DagView { validator, ..so_far.state },
                    units.last(),
                );
            }
        }
    }
}

/// No parent in a response comes out of the dag, or is kept in it, that has not passed the checks,
/// nor does anything that depends on it.
pub proof fn law_only_checked_parents<H: Hasher, D: Data, K: Keychain>(
    unit_validator: &UnitValidator<K>,
    state: DagView<HashOf<H>, D::V, SignatureOf<K>>,
    store: StoreView<HashOf<H>, DagUnitView<HashOf<H>, D::V, SignatureOf<K>>>,
    hash: HashOf<H>,
    units: Seq<SignedUnitView<HashOf<H>, D::V, SignatureOf<K>>>,
)
    requires
        all_checked::<H, D, K>(unit_validator, state.signed),
    ensures
        ({
            let (after, result) = dag::parents_added::<H, D, K>(
                unit_validator,
                state,
                store,
                hash,
                units,
            );
            &&& all_checked::<H, D, K>(unit_validator, after.signed)
            &&& checked_output::<H, D, K>(unit_validator, result.units)
        }),
{
    lemma_parents_checked::<H, D, K>(unit_validator, state, store, units);
    let progress = dag::parents_processed::<H, D, K>(unit_validator, state, store, units);
    if !progress.stopped {
        let (after, more) = match dag::explicit_parents(
            progress.state.reconstruction,
            hash,
            progress.hashes,
        ) {
            Some(list) => {
                let (reconstruction, result) = parents::parents_added::<H>(
                    progress.state.reconstruction,
                    hash,
                    list,
                );
                lemma_reunited_checked::<H, D, K>(
                    unit_validator,
                    progress.state.signed,
                    order::all_added(progress.state.order, result.units).1,
                );
                dag::ordered(DagView { reconstruction, ..progress.state }, result)
            },
            None => (progress.state, DagResultView::nothing()),
        };
        lemma_cleaned::<H, D, K::Signature>(after, progress.result.and(more).units);
    }
}

/// Signed units are kept under their hashes.
pub open spec fn signed_under_hashes<H: Hasher, D: Data, S: Data>(
    signed: Map<HashOf<H>, SignedUnitView<HashOf<H>, D::V, S::V>>,
) -> bool {
    forall|hash: HashOf<H>| #[trigger]
        signed.contains_key(hash) ==> units::unit_hash::<H, D>(signed[hash].signable) == hash
}

/// A unit is on its way: it is kept for reconstruction and order, or has come out.
pub open spec fn on_its_way<H: Hasher, D: Data, S: Data>(
    state: DagView<HashOf<H>, D::V, S::V>,
    units: Seq<DagUnitView<HashOf<H>, D::V, S::V>>,
    hash: HashOf<H>,
) -> bool {
    state.signed.contains_key(hash) || exists|k: int|
        0 <= k < units.len() && hash_of::<H, D, S>(#[trigger] units[k]) == hash
}

proof fn lemma_nothing_forgotten<H: Hasher, D: Data, S: Data>(
    signed: Map<HashOf<H>, SignedUnitView<HashOf<H>, D::V, S::V>>,
    units: Seq<ReconstructedView<HashOf<H>>>,
)
    requires
        signed_under_hashes::<H, D, S>(signed),
    ensures
        ({
            let (after, result) = dag::reunited(signed, units);
            &&& signed_under_hashes::<H, D, S>(after)
            &&& forall|hash: HashOf<H>|
                signed.contains_key(hash) ==> #[trigger] after.contains_key(hash) || exists|k: int|
                    0 <= k < result.len() && hash_of::<H, D, S>(#[trigger] result[k]) == hash
        }),
    decreases units.len(),
{
    let (after, result) = dag::reunited(signed, units);
    if units.len() > 0 {
        let rest = units.drop_last();
        lemma_nothing_forgotten::<H, D, S>(signed, rest);
        let (middle, first) = dag::reunited(signed, rest);
        let last = units.last().unit.hash;
        assert forall|hash: HashOf<H>| signed.contains_key(hash) implies #[trigger] after.contains_key(
            hash,
        ) || exists|k: int|
            0 <= k < result.len() && hash_of::<H, D, S>(#[trigger] result[k]) == hash by {
            if middle.contains_key(hash) {
                if hash == last {
                    assert(hash_of::<H, D, S>(result[first.len() as int]) == hash);
                }
            } else {
                let k = choose|k: int|
                    0 <= k < first.len() && hash_of::<H, D, S>(#[trigger] first[k]) == hash;
                assert(result[k] == first[k]);
            }
        }
    }
}

proof fn lemma_passed_on_its_way<H: Hasher, D: Data, S: Data>(
    state: DagView<HashOf<H>, D::V, S::V>,
    unit: SignedUnitView<HashOf<H>, D::V, S::V>,
)
    requires
        signed_under_hashes::<H, D, S>(state.signed),
    ensures
        ({
            let (after, result) = dag::passed_on::<H, D, S>(state, unit);
            &&& signed_under_hashes::<H, D, S>(after.signed)
            &&& on_its_way::<H, D, S>(
                after,
                result.units,
                units::unit_hash::<H, D>(unit.signable),
            )
            &&& forall|hash: HashOf<H>|
                state.signed.contains_key(hash) ==> #[trigger] on_its_way::<H, D, S>(
                    after,
                    result.units,
                    hash,
                )
            &&& after.validator == state.validator
            &&& result.alerts.len() == 0
        }),
{
    let hash = units::unit_hash::<H, D>(unit.signable);
    let bare = UnitView { pre_unit: unit.signable.pre_unit, hash };
    let result = parents::unit_added::<H>(state.reconstruction, bare).1;
    let placed = order::all_added(state.order, result.units).1;
    lemma_nothing_forgotten::<H, D, S>(state.signed.insert(hash, unit), placed);
    let signed = dag::reunited(state.signed.insert(hash, unit), placed).0;
    assert(signed.contains_key(hash) || !signed.contains_key(hash));
}

/// What remains of the units in process once some units have come out.
proof fn lemma_cleaned_processing<H: Hasher, D: Data, S: Data>(
    state: DagView<HashOf<H>, D::V, S::V>,
    units: Seq<DagUnitView<HashOf<H>, D::V, S::V>>,
)
    ensures
        ({
            let after = dag::cleaned::<H, D, S>(state, units);
            &&& after.validator.forkers == state.validator.forkers
            &&& forall|hash: HashOf<H>| #[trigger]
                after.validator.processing.by_hash.contains_key(hash)
                    <==> state.validator.processing.by_hash.contains_key(hash) && !exists|k: int|
                    0 <= k < units.len() && hash_of::<H, D, S>(#[trigger] units[k]) == hash
        }),
    decreases units.len(),
{
    if units.len() > 0 {
        let rest = units.drop_last();
        lemma_cleaned_processing::<H, D, S>(state, rest);
        let middle = dag::cleaned::<H, D, S>(state, rest);
        let after = dag::cleaned::<H, D, S>(state, units);
        let last = hash_of::<H, D, S>(units.last());
        assert(units[units.len() - 1] == units.last());
        assert forall|hash: HashOf<H>| #[trigger]
            after.validator.processing.by_hash.contains_key(hash)
                <==> state.validator.processing.by_hash.contains_key(hash) && !exists|k: int|
                0 <= k < units.len() && hash_of::<H, D, S>(#[trigger] units[k]) == hash by {
            assert(after.validator.processing.by_hash.contains_key(hash)
                <==> middle.validator.processing.by_hash.contains_key(hash) && hash != last);
            if exists|k: int| 0 <= k < rest.len() && hash_of::<H, D, S>(#[trigger] rest[k]) == hash {
                let k = choose|k: int|
                    0 <= k < rest.len() && hash_of::<H, D, S>(#[trigger] rest[k]) == hash;
                assert(units[k] == rest[k]);
            }
            if exists|k: int| 0 <= k < units.len() && hash_of::<H, D, S>(#[trigger] units[k])
                == hash {
                let k = choose|k: int|
                    0 <= k < units.len() && hash_of::<H, D, S>(#[trigger] units[k]) == hash;
                if k < rest.len() {
                    assert(units[k] == rest[k]);
                }
            }
        }
    }
}

/// A valid unit that is not known, not by a known forker and not at coordinates where something is
/// known is on its way once it is added, and so is everything that was before; no alert is raised.
/// What comes out is no longer being processed.
pub proof fn law_new_unit_on_its_way<H: Hasher, D: Data, K: Keychain>(
    unit_validator: &UnitValidator<K>,
    state: DagView<HashOf<H>, D::V, SignatureOf<K>>,
    store: StoreView<HashOf<H>, DagUnitView<HashOf<H>, D::V, SignatureOf<K>>>,
    unit: SignedUnitView<HashOf<H>, D::V, SignatureOf<K>>,
)
    requires
        signed_under_hashes::<H, D, K::Signature>(state.signed),
        unit_validator.verdict::<H, D>(unit) is None,
        !store.by_hash.contains_key(units::unit_hash::<H, D>(unit.signable)),
        !state.validator.processing.by_hash.contains_key(units::unit_hash::<H, D>(unit.signable)),
        !state.validator.forkers.contains(unit.signable.pre_unit.coord.creator),
        store.canonical_unit(unit.signable.pre_unit.coord) is None,
        state.validator.processing.canonical_unit(unit.signable.pre_unit.coord) is None,
    ensures
        ({
            let (after, result) = dag::unit_added::<H, D, K>(unit_validator, state, store, unit);
            let hash = units::unit_hash::<H, D>(unit.signable);
            &&& on_its_way::<H, D, K::Signature>(after, result.units, hash)
            &&& forall|other: HashOf<H>|
                state.signed.contains_key(other) ==> #[trigger] on_its_way::<H, D, K::Signature>(
                    after,
                    result.units,
                    other,
                )
            &&& result.alerts.len() == 0
            &&& signed_under_hashes::<H, D, K::Signature>(after.signed)
            &&& after.validator.forkers == state.validator.forkers
            &&& forall|other: HashOf<H>| #[trigger]
                after.validator.processing.by_hash.contains_key(other) <==> (
                state.validator.processing.by_hash.contains_key(other) || other == hash)
                    && !exists|k: int|
                    0 <= k < result.units.len() && hash_of::<H, D, K::Signature>(
                        #[trigger] result.units[k],
                    ) == other
        }),
{
    let (validator, error) = validation::validated::<H, D, K>(
        unit_validator,
        state.validator,
        store,
        unit,
    );
    let checked = DagView { validator, ..state };
    assert(error is None);
    lemma_passed_on_its_way::<H, D, K::Signature>(checked, unit);
    let (after, result) = dag::passed_on::<H, D, K::Signature>(checked, unit);
    lemma_cleaned::<H, D, K::Signature>(after, result.units);
    lemma_cleaned_processing::<H, D, K::Signature>(after, result.units);
    let end = dag::unit_added::<H, D, K>(unit_validator, state, store, unit).0;
    assert forall|other: HashOf<H>|
        state.signed.contains_key(other) implies #[trigger] on_its_way::<H, D, K::Signature>(
        end,
        result.units,
        other,
    ) by {
        assert(on_its_way::<H, D, K::Signature>(after, result.units, other));
    }
}

/// A unit that is not passed on leaves the dag as it is, but for the forkers; nothing comes out and
/// nothing is asked for. An alert is raised exactly if the unit reveals a forker.
pub proof fn law_refused_unit_leaves_nothing<H: Hasher, D: Data, K: Keychain>(
    unit_validator: &UnitValidator<K>,
    state: DagView<HashOf<H>, D::V, SignatureOf<K>>,
    store: StoreView<HashOf<H>, DagUnitView<HashOf<H>, D::V, SignatureOf<K>>>,
    unit: SignedUnitView<HashOf<H>, D::V, SignatureOf<K>>,
)
    requires
        validation::validated::<H, D, K>(unit_validator, state.validator, store, unit).1 is Some,
    ensures
        ({
            let (after, result) = dag::unit_added::<H, D, K>(unit_validator, state, store, unit);
            let error = validation::validated::<H, D, K>(
                unit_validator,
                state.validator,
                store,
                unit,
            ).1;
            &&& after.reconstruction == state.reconstruction
            &&& after.order == state.order
            &&& after.signed == state.signed
            &&& after.validator.processing == state.validator.processing
            &&& result.units.len() == 0
            &&& result.requests.len() == 0
            &&& error matches Some(validation::ErrorView::NewForker(alert)) ==> result.alerts
                == seq![alert]
            &&& !(error->0 is NewForker) ==> result.alerts.len() == 0 && after == state
        }),
{
}

/// A fork is dealt with as its two units are, one after the other.
pub proof fn law_fork_as_its_units<H: Hasher, D: Data, K: Keychain>(
    unit_validator: &UnitValidator<K>,
    state: DagView<HashOf<H>, D::V, SignatureOf<K>>,
    store: StoreView<HashOf<H>, DagUnitView<HashOf<H>, D::V, SignatureOf<K>>>,
    first: SignedUnitView<HashOf<H>, D::V, SignatureOf<K>>,
    second: SignedUnitView<HashOf<H>, D::V, SignatureOf<K>>,
)
    ensures
        ({
            let (after, result) = dag::notification_processed::<H, D, K>(
                unit_validator,
                state,
                store,
                ForkingNotificationView::Forker((first, second)),
            );
            let (middle, one) = dag::unit_added::<H, D, K>(unit_validator, state, store, first);
            let (end, other) = dag::unit_added::<H, D, K>(unit_validator, middle, store, second);
            &&& result.units == one.units + other.units
            &&& result.requests == one.requests + other.requests
            &&& result.alerts == one.alerts + other.alerts
            &&& after.reconstruction == end.reconstruction
            &&& after.order == end.order
            &&& after.signed == end.signed
            &&& after.validator.forkers == end.validator.forkers
        }),
{
    let (middle, one) = dag::unit_added::<H, D, K>(unit_validator, state, store, first);
    let (end, other) = dag::unit_added::<H, D, K>(unit_validator, middle, store, second);
    lemma_cleaned::<H, D, K::Signature>(end, one.and(other).units);
    lemma_cleaned_processing::<H, D, K::Signature>(end, one.and(other).units);
}

proof fn lemma_committed_on_their_way<H: Hasher, D: Data, K: Keychain>(
    unit_validator: &UnitValidator<K>,
    state: DagView<HashOf<H>, D::V, SignatureOf<K>>,
    store: StoreView<HashOf<H>, DagUnitView<HashOf<H>, D::V, SignatureOf<K>>>,
    units: Seq<SignedUnitView<HashOf<H>, D::V, SignatureOf<K>>>,
)
    requires
        signed_under_hashes::<H, D, K::Signature>(state.signed),
    ensures
        ({
            let (after, result) = dag::committed_processed::<H, D, K>(
                unit_validator,
                state,
                store,
                units,
            );
            &&& signed_under_hashes::<H, D, K::Signature>(after.signed)
            &&& result.alerts.len() == 0
            &&& after.validator.forkers == state.validator.forkers
            &&& forall|hash: HashOf<H>|
                state.signed.contains_key(hash) ==> #[trigger] on_its_way::<H, D, K::Signature>(
                    after,
                    result.units,
                    hash,
                )
            &&& forall|hash: HashOf<H>| #[trigger]
                after.validator.processing.by_hash.contains_key(hash)
                    && !state.validator.processing.by_hash.contains_key(hash) ==> on_its_way::<
                    H,
                    D,
                    K::Signature,
                >(after, result.units, hash)
            &&& forall|k: int|
                0 <= k < units.len() && unit_validator.verdict::<H, D>(#[trigger] units[k]) is None
                    ==> {
                    let hash = units::unit_hash::<H, D>(units[k].signable);
                    store.by_hash.contains_key(hash)
                        || after.validator.processing.by_hash.contains_key(hash)
                }
        }),
    decreases units.len(),
{
    if units.len() > 0 {
        let rest = units.drop_last();
        let last = units.last();
        lemma_committed_on_their_way::<H, D, K>(unit_validator, state, store, rest);
        let (before, so_far) = dag::committed_processed::<H, D, K>(
            unit_validator,
            state,
            store,
            rest,
        );
        let (validator, error) = validation::committed_validated::<H, D, K>(
            unit_validator,
            before.validator,
            store,
            last,
        );
        let checked = DagView { validator, ..before };
        lemma_passed_on_its_way::<H, D, K::Signature>(checked, last);
        let (after, result) = dag::committed_processed::<H, D, K>(
            unit_validator,
            state,
            store,
            units,
        );
        let hash = units::unit_hash::<H, D>(last.signable);
        assert forall|h: HashOf<H>|
            on_its_way::<H, D, K::Signature>(before, so_far.units, h) implies #[trigger] on_its_way::<
            H,
            D,
            K::Signature,
        >(after, result.units, h) by {
            if !before.signed.contains_key(h) {
                let k = choose|k: int|
                    0 <= k < so_far.units.len() && hash_of::<H, D, K::Signature>(
                        #[trigger] so_far.units[k],
                    ) == h;
                assert(result.units[k] == so_far.units[k]);
            } else if error is None {
                let (end, more) = dag::passed_on::<H, D, K::Signature>(checked, last);
                assert(on_its_way::<H, D, K::Signature>(end, more.units, h));
                if !end.signed.contains_key(h) {
                    let k = choose|k: int|
                        0 <= k < more.units.len() && hash_of::<H, D, K::Signature>(
                            #[trigger] more.units[k],
                        ) == h;
                    assert(result.units[so_far.units.len() + k] == more.units[k]);
                }
            }
        }
        if error is None {
            let (end, more) = dag::passed_on::<H, D, K::Signature>(checked, last);
            assert(on_its_way::<H, D, K::Signature>(end, more.units, hash));
            if !end.signed.contains_key(hash) {
                let k = choose|k: int|
                    0 <= k < more.units.len() && hash_of::<H, D, K::Signature>(
                        #[trigger] more.units[k],
                    ) == hash;
                assert(result.units[so_far.units.len() + k] == more.units[k]);
            }
            assert(on_its_way::<H, D, K::Signature>(after, result.units, hash));
        }
        assert forall|h: HashOf<H>| state.signed.contains_key(h) implies #[trigger] on_its_way::<
            H,
            D,
            K::Signature,
        >(after, result.units, h) by {
            assert(on_its_way::<H, D, K::Signature>(before, so_far.units, h));
        }
        assert forall|h: HashOf<H>| #[trigger]
            after.validator.processing.by_hash.contains_key(h)
                && !state.validator.processing.by_hash.contains_key(h) implies on_its_way::<
            H,
            D,
            K::Signature,
        >(after, result.units, h) by {
            if h != hash || error is Some {
                assert(before.validator.processing.by_hash.contains_key(h));
                assert(on_its_way::<H, D, K::Signature>(before, so_far.units, h));
            }
        }
        assert forall|k: int|
            0 <= k < units.len() && unit_validator.verdict::<H, D>(
                #[trigger] units[k],
            ) is None implies {
            let h = units::unit_hash::<H, D>(units[k].signable);
            store.by_hash.contains_key(h) || after.validator.processing.by_hash.contains_key(h)
        } by {
            if k < rest.len() {
                assert(units[k] == rest[k]);
            }
        }
    }
}

/// All the valid units that somebody committed to are on their way, whoever created them and whatever
/// else is known at their coordinates, unless they are in the store or were being processed already.
/// No alert is raised.
pub proof fn law_committed_units_on_their_way<H: Hasher, D: Data, K: Keychain>(
    unit_validator: &UnitValidator<K>,
    state: DagView<HashOf<H>, D::V, SignatureOf<K>>,
    store: StoreView<HashOf<H>, DagUnitView<HashOf<H>, D::V, SignatureOf<K>>>,
    units: Seq<SignedUnitView<HashOf<H>, D::V, SignatureOf<K>>>,
)
    requires
        signed_under_hashes::<H, D, K::Signature>(state.signed),
    ensures
        ({
            let (after, result) = dag::notification_processed::<H, D, K>(
                unit_validator,
                state,
                store,
                ForkingNotificationView::Units(units),
            );
            &&& result.alerts.len() == 0
            &&& after.validator.forkers == state.validator.forkers
            &&& forall|k: int|
                0 <= k < units.len() && unit_validator.verdict::<H, D>(#[trigger] units[k]) is None
                    ==> {
                    let hash = units::unit_hash::<H, D>(units[k].signable);
                    ||| store.by_hash.contains_key(hash)
                    ||| state.validator.processing.by_hash.contains_key(hash)
                    ||| on_its_way::<H, D, K::Signature>(after, result.units, hash)
                }
        }),
{
    lemma_committed_on_their_way::<H, D, K>(unit_validator, state, store, units);
    let (middle, result) = dag::committed_processed::<H, D, K>(
        unit_validator,
        state,
        store,
        units,
    );
    lemma_cleaned::<H, D, K::Signature>(middle, result.units);
    lemma_cleaned_processing::<H, D, K::Signature>(middle, result.units);
    let after = dag::cleaned::<H, D, K::Signature>(middle, result.units);
    assert forall|k: int|
        0 <= k < units.len() && unit_validator.verdict::<H, D>(
            #[trigger] units[k],
        ) is None implies {
        let hash = units::unit_hash::<H, D>(units[k].signable);
        ||| store.by_hash.contains_key(hash)
        ||| state.validator.processing.by_hash.contains_key(hash)
        ||| on_its_way::<H, D, K::Signature>(after, result.units, hash)
    } by {
        let hash = units::unit_hash::<H, D>(units[k].signable);
        if middle.validator.processing.by_hash.contains_key(hash)
            && !state.validator.processing.by_hash.contains_key(hash) {
            assert(on_its_way::<H, D, K::Signature>(middle, result.units, hash));
        }
    }
}

/// Nothing that waits in the order is ever ready: so it is at the start, and whatever comes in.
pub proof fn law_order_stays_idle<H: Hasher, D: Data, K: Keychain>(
    unit_validator: &UnitValidator<K>,
    state: DagView<HashOf<H>, D::V, SignatureOf<K>>,
    store: StoreView<HashOf<H>, DagUnitView<HashOf<H>, D::V, SignatureOf<K>>>,
    unit: SignedUnitView<HashOf<H>, D::V, SignatureOf<K>>,
    hash: HashOf<H>,
    units: Seq<SignedUnitView<HashOf<H>, D::V, SignatureOf<K>>>,
)
    requires
        order::idle(state.order),
    ensures
        order::idle(DagView::<HashOf<H>, D::V, SignatureOf<K>>::fresh().order),
        order::idle(dag::unit_added::<H, D, K>(unit_validator, state, store, unit).0.order),
        order::idle(dag::parents_added::<H, D, K>(unit_validator, state, store, hash, units).0.order),
        order::idle(
            dag::notification_processed::<H, D, K>(
                unit_validator,
                state,
                store,
                ForkingNotificationView::Units(units),
            ).0.order,
        ),
{
    lemma_idle_kept::<H, D, K>(unit_validator, state, store, units);
    lemma_idle_parents::<H, D, K>(unit_validator, state, store, units);
    let one = dag::unit_processed::<H, D, K>(unit_validator, state, store, unit);
    lemma_idle_unit::<H, D, K>(unit_validator, state, store, unit);
    lemma_cleaned::<H, D, K::Signature>(one.0, one.1.units);
    let many = dag::committed_processed::<H, D, K>(unit_validator, state, store, units);
    lemma_cleaned::<H, D, K::Signature>(many.0, many.1.units);
    let progress = dag::parents_processed::<H, D, K>(unit_validator, state, store, units);
    if !progress.stopped {
        let (after, more) = match dag::explicit_parents(
            progress.state.reconstruction,
            hash,
            progress.hashes,
        ) {
            Some(list) => {
                let (reconstruction, result) = parents::parents_added::<H>(
                    progress.state.reconstruction,
                    hash,
                    list,
                );
                order::lemma_all_added(progress.state.order, result.units);
                dag::ordered(DagView { reconstruction, ..progress.state }, result)
            },
            None => (progress.state, DagResultView::nothing()),
        };
        lemma_cleaned::<H, D, K::Signature>(after, progress.result.and(more).units);
    }
}

proof fn lemma_idle_passed_on<H: Hasher, D: Data, S: Data>(
    state: DagView<HashOf<H>, D::V, S::V>,
    unit: SignedUnitView<HashOf<H>, D::V, S::V>,
)
    requires
        order::idle(state.order),
    ensures
        order::idle(dag::passed_on::<H, D, S>(state, unit).0.order),
{
    let bare = UnitView {
        pre_unit: unit.signable.pre_unit,
        hash: units::unit_hash::<H, D>(unit.signable),
    };
    let result = parents::unit_added::<H>(state.reconstruction, bare).1;
    order::lemma_all_added(state.order, result.units);
}

proof fn lemma_idle_unit<H: Hasher, D: Data, K: Keychain>(
    unit_validator: &UnitValidator<K>,
    state: DagView<HashOf<H>, D::V, SignatureOf<K>>,
    store: StoreView<HashOf<H>, DagUnitView<HashOf<H>, D::V, SignatureOf<K>>>,
    unit: SignedUnitView<HashOf<H>, D::V, SignatureOf<K>>,
)
    requires
        order::idle(state.order),
    ensures
        order::idle(dag::unit_processed::<H, D, K>(unit_validator, state, store, unit).0.order),
{
    let validator = validation::validated::<H, D, K>(
        unit_validator,
        state.validator,
        store,
        unit,
    ).0;
    lemma_idle_passed_on::<H, D, K::Signature>(DagView { validator, ..state }, unit);
}

proof fn lemma_idle_kept<H: Hasher, D: Data, K: Keychain>(
    unit_validator: &UnitValidator<K>,
    state: DagView<HashOf<H>, D::V, SignatureOf<K>>,
    store: StoreView<HashOf<H>, DagUnitView<HashOf<H>, D::V, SignatureOf<K>>>,
    units: Seq<SignedUnitView<HashOf<H>, D::V, SignatureOf<K>>>,
)
    requires
        order::idle(state.order),
    ensures
        order::idle(
            dag::committed_processed::<H, D, K>(unit_validator, state, store, units).0.order,
        ),
    decreases units.len(),
{
    if units.len() > 0 {
        let rest = units.drop_last();
        lemma_idle_kept::<H, D, K>(unit_validator, state, store, rest);
        let before = dag::committed_processed::<H, D, K>(unit_validator, state, store, rest).0;
        let validator = validation::committed_validated::<H, D, K>(
            unit_validator,
            before.validator,
            store,
            units.last(),
        ).0;
        lemma_idle_passed_on::<H, D, K::Signature>(DagView { validator, ..before }, units.last());
    }
}

proof fn lemma_idle_parents<H: Hasher, D: Data, K: Keychain>(
    unit_validator: &UnitValidator<K>,
    state: DagView<HashOf<H>, D::V, SignatureOf<K>>,
    store: StoreView<HashOf<H>, DagUnitView<HashOf<H>, D::V, SignatureOf<K>>>,
    units: Seq<SignedUnitView<HashOf<H>, D::V, SignatureOf<K>>>,
)
    requires
        order::idle(state.order),
    ensures
        order::idle(
            dag::parents_processed::<H, D, K>(unit_validator, state, store, units).state.order,
        ),
    decreases units.len(),
{
    if units.len() > 0 {
        let rest = units.drop_last();
        lemma_idle_parents::<H, D, K>(unit_validator, state, store, rest);
        let so_far = dag::parents_processed::<H, D, K>(unit_validator, state, store, rest);
        let validator = validation::validated::<H, D, K>(
            unit_validator,
            so_far.state.validator,
            store,
            units.last(),
        ).0;
        lemma_idle_passed_on::<H, D, K::Signature>(
            DagView { validator, ..so_far.state },
            units.last(),
        );
    }
}

/// What comes out of the dag for a unit is no longer being processed, and all else that was still
/// is.
pub proof fn law_returned_not_processed<H: Hasher, D: Data, K: Keychain>(
    unit_validator: &UnitValidator<K>,
    state: DagView<HashOf<H>, D::V, SignatureOf<K>>,
    store: StoreView<HashOf<H>, DagUnitView<HashOf<H>, D::V, SignatureOf<K>>>,
    unit: SignedUnitView<HashOf<H>, D::V, SignatureOf<K>>,
    hash: HashOf<H>,
)
    ensures
        ({
            let (after, result) = dag::unit_added::<H, D, K>(unit_validator, state, store, unit);
            let returned = exists|k: int|
                0 <= k < result.units.len() && hash_of::<H, D, K::Signature>(
                    #[trigger] result.units[k],
                ) == hash;
            &&& returned ==> !after.validator.processing.by_hash.contains_key(hash)
            &&& !returned && state.validator.processing.by_hash.contains_key(hash)
                ==> after.validator.processing.by_hash.contains_key(hash)
        }),
{
    let (middle, result) = dag::unit_processed::<H, D, K>(unit_validator, state, store, unit);
    let (validator, error) = validation::validated::<H, D, K>(
        unit_validator,
        state.validator,
        store,
        unit,
    );
    let checked = DagView { validator, ..state };
    assert(dag::passed_on::<H, D, K::Signature>(checked, unit).0.validator == validator);
    assert(middle.validator == validator);
    lemma_cleaned_processing::<H, D, K::Signature>(middle, result.units);
    let after = dag::unit_added::<H, D, K>(unit_validator, state, store, unit).0;
    assert(dag::unit_added::<H, D, K>(unit_validator, state, store, unit).1 == result);
    if state.validator.processing.by_hash.contains_key(hash) {
        assert(validator.processing.by_hash.contains_key(hash));
    }
    if exists|k: int|
        0 <= k < result.units.len() && hash_of::<H, D, K::Signature>(#[trigger] result.units[k])
            == hash {
        assert(!after.validator.processing.by_hash.contains_key(hash));
    }
    assert(after.validator.processing.by_hash.contains_key(hash)
        <==> middle.validator.processing.by_hash.contains_key(hash) && !exists|k: int|
        0 <= k < result.units.len() && hash_of::<H, D, K::Signature>(#[trigger] result.units[k])
            == hash);
}

/// What comes out of the dag for a notification about forks is no longer being processed.
pub proof fn law_notified_not_processed<H: Hasher, D: Data, K: Keychain>(
    unit_validator: &UnitValidator<K>,
    state: DagView<HashOf<H>, D::V, SignatureOf<K>>,
    store: StoreView<HashOf<H>, DagUnitView<HashOf<H>, D::V, SignatureOf<K>>>,
    notification: ForkingNotificationView<HashOf<H>, D::V, SignatureOf<K>>,
    k: int,
)
    requires
        0 <= k < dag::notification_processed::<H, D, K>(
            unit_validator,
            state,
            store,
            notification,
        ).1.units.len(),
    ensures
        ({
            let (after, result) = dag::notification_processed::<H, D, K>(
                unit_validator,
                state,
                store,
                notification,
            );
            !after.validator.processing.by_hash.contains_key(
                hash_of::<H, D, K::Signature>(result.units[k]),
            )
        }),
{
    let (after, result) = dag::notification_processed::<H, D, K>(
        unit_validator,
        state,
        store,
        notification,
    );
    let end = match notification {
        ForkingNotificationView::Forker(fork) => {
            let first = dag::unit_added::<H, D, K>(unit_validator, state, store, fork.0).0;
            dag::unit_added::<H, D, K>(unit_validator, first, store, fork.1).0
        },
        ForkingNotificationView::Units(units) => dag::committed_processed::<H, D, K>(
            unit_validator,
            state,
            store,
            units,
        ).0,
    };
    lemma_cleaned_processing::<H, D, K::Signature>(end, result.units);
    let hash = hash_of::<H, D, K::Signature>(result.units[k]);
    assert(after.validator.processing.by_hash.contains_key(hash)
        <==> end.validator.processing.by_hash.contains_key(hash) && !exists|i: int|
        0 <= i < result.units.len() && hash_of::<H, D, K::Signature>(#[trigger] result.units[i])
            == hash);
}

} // verus!
