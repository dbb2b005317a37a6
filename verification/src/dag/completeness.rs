//! All the units come out of the dag, whatever the order in which they come.
use crate::alerts::SignedUnitView;
use crate::crypto::{HashOf, Hasher, Keychain, SignatureOf};
use crate::dag;
use crate::dag::laws;
use crate::dag::order;
use crate::dag::order::OrderView;
use crate::dag::unit::DagUnitView;
use crate::dag::validation;
use crate::dag::validation::ValidatorView;
use crate::dag::{DagResultView, DagView};
use crate::data::Data;
use crate::nodes::NodeIndex;
use crate::reconstruction::completeness;
use crate::reconstruction::parents;
use crate::reconstruction::parents::ReconstructionView;
use crate::reconstruction::progress;
use crate::reconstruction::ReconstructedView;
use crate::units;
use crate::units::store::StoreView;
use crate::units::validator::Validator as UnitValidator;
use crate::units::{UnitCoord, UnitView};
use vstd::prelude::*;

verus! {

/// A unit without its data and its signature.
pub open spec fn bare<H: Hasher, D: Data, S: Data>(
    unit: SignedUnitView<HashOf<H>, D::V, S::V>,
) -> UnitView<HashOf<H>> {
    UnitView {
        pre_unit: unit.signable.pre_unit,
        hash: units::unit_hash::<H, D>(unit.signable),
    }
}

/// Units without their data and their signatures.
pub open spec fn all_bare<H: Hasher, D: Data, S: Data>(
    units: Seq<SignedUnitView<HashOf<H>, D::V, S::V>>,
) -> Seq<UnitView<HashOf<H>>> {
    Seq::new(units.len(), |i: int| bare::<H, D, S>(units[i]))
}

/// Units are added one after another. What the store holds may change in between.
pub open spec fn all_added<H: Hasher, D: Data, K: Keychain>(
    unit_validator: &UnitValidator<K>,
    state: DagView<HashOf<H>, D::V, SignatureOf<K>>,
    stores: Seq<StoreView<HashOf<H>, DagUnitView<HashOf<H>, D::V, SignatureOf<K>>>>,
    units: Seq<SignedUnitView<HashOf<H>, D::V, SignatureOf<K>>>,
) -> (
    DagView<HashOf<H>, D::V, SignatureOf<K>>,
    DagResultView<HashOf<H>, D::V, SignatureOf<K>>,
)
    decreases units.len(),
{
    if units.len() == 0 {
        (state, DagResultView::nothing())
    } else {
        let (before, result) = all_added::<H, D, K>(
            unit_validator,
            state,
            stores,
            units.drop_last(),
        );
        let (after, more) = dag::unit_added::<H, D, K>(
            unit_validator,
            before,
            stores[units.len() - 1],
            units.last(),
        );
        (after, result.and(more))
    }
}

/// Nothing speaks against a unit: it passes the checks, and neither it nor another unit at its
/// coordinate is in the store.
pub open spec fn welcome<H: Hasher, D: Data, K: Keychain>(
    unit_validator: &UnitValidator<K>,
    store: StoreView<HashOf<H>, DagUnitView<HashOf<H>, D::V, SignatureOf<K>>>,
    unit: SignedUnitView<HashOf<H>, D::V, SignatureOf<K>>,
) -> bool {
    &&& unit_validator.verdict::<H, D>(unit) is None
    &&& !store.by_hash.contains_key(units::unit_hash::<H, D>(unit.signable))
    &&& store.canonical_unit(unit.signable.coord()) is None
}

/// Whether a unit has come out.
pub open spec fn returned<V, D, S>(
    out: Seq<DagUnitView<V, D, S>>,
    unit: SignedUnitView<V, D, S>,
) -> bool {
    exists|k: int| 0 <= k < out.len() && (#[trigger] out[k]).unit == unit
}

/// Each of the units comes out exactly once, and nothing else does.
pub open spec fn each_once<H: Hasher, D: Data, S: Data>(
    units: Seq<SignedUnitView<HashOf<H>, D::V, S::V>>,
    out: Seq<DagUnitView<HashOf<H>, D::V, S::V>>,
) -> bool {
    &&& forall|i: int| 0 <= i < units.len() ==> returned(out, #[trigger] units[i])
    &&& forall|found: DagUnitView<HashOf<H>, D::V, S::V>| #[trigger]
        out.contains(found) ==> units.contains(found.unit)
    &&& forall|j: int, k: int|
        0 <= j < k < out.len() ==> laws::hash_of::<H, D, S>(#[trigger] out[j]) != laws::hash_of::<
            H,
            D,
            S,
        >(#[trigger] out[k])
}

/// Nobody is known as a forker, and only some of the first `n` units are being processed.
spec fn no_forkers<H: Hasher, D: Data, K: Keychain>(
    validator: ValidatorView<HashOf<H>, D::V, SignatureOf<K>>,
    bares: Seq<UnitView<HashOf<H>>>,
    n: int,
) -> bool {
    &&& forall|creator: NodeIndex| !#[trigger] validator.forkers.contains(creator)
    &&& forall|hash: HashOf<H>| #[trigger]
        validator.processing.by_hash.contains_key(hash) ==> exists|i: int|
            0 <= i < n && (#[trigger] bares[i]).hash == hash
    &&& forall|coord: UnitCoord| #[trigger]
        validator.processing.canonical.contains_key(coord) ==> exists|i: int|
            0 <= i < n && (#[trigger] bares[i]).coord() == coord
}

proof fn lemma_cleaned_forkers<H: Hasher, D: Data, K: Keychain>(
    state: DagView<HashOf<H>, D::V, SignatureOf<K>>,
    units: Seq<DagUnitView<HashOf<H>, D::V, SignatureOf<K>>>,
    bares: Seq<UnitView<HashOf<H>>>,
    n: int,
)
    requires
        no_forkers::<H, D, K>(state.validator, bares, n),
    ensures
        no_forkers::<H, D, K>(
            dag::cleaned::<H, D, K::Signature>(state, units).validator,
            bares,
            n,
        ),
    decreases units.len(),
{
    if units.len() > 0 {
        lemma_cleaned_forkers::<H, D, K>(state, units.drop_last(), bares, n);
        let before = dag::cleaned::<H, D, K::Signature>(state, units.drop_last()).validator;
        let after = dag::cleaned::<H, D, K::Signature>(state, units).validator;
        assert forall|hash: HashOf<H>| #[trigger]
            after.processing.by_hash.contains_key(
                hash,
            ) implies before.processing.by_hash.contains_key(hash) by {}
        assert forall|coord: UnitCoord| #[trigger]
            after.processing.canonical.contains_key(
                coord,
            ) implies before.processing.canonical.contains_key(coord) by {}
    }
}

/// The first `n` units.
spec fn first_units<V, D, S>(units: Seq<SignedUnitView<V, D, S>>, n: int) -> Set<
    SignedUnitView<V, D, S>,
> {
    Set::new(|unit: SignedUnitView<V, D, S>| units.take(n).contains(unit))
}

/// What holds once the first `n` units have been added.
spec fn under_way<H: Hasher, D: Data, K: Keychain>(
    units: Seq<SignedUnitView<HashOf<H>, D::V, SignatureOf<K>>>,
    n: int,
    state: DagView<HashOf<H>, D::V, SignatureOf<K>>,
    result: DagResultView<HashOf<H>, D::V, SignatureOf<K>>,
) -> bool {
    let bares = all_bare::<H, D, K::Signature>(units);
    let (reconstruction, reconstructed) = completeness::all_added::<H>(
        ReconstructionView::fresh(),
        bares.take(n),
    );
    &&& laws::coherent::<H, D, K::Signature>(state)
    &&& laws::correct_output::<H, D, K::Signature>(Set::empty(), result.units)
    &&& laws::placed_with::<H, D, K::Signature>(Set::empty(), state.order.placed, result.units)
    &&& state.reconstruction == reconstruction
    &&& state.order == order::all_added(OrderView::fresh(), reconstructed.units).0
    &&& result.requests == reconstructed.requests
    &&& result.alerts.len() == 0
    &&& no_forkers::<H, D, K>(state.validator, bares, n)
    &&& forall|hash: HashOf<H>| #[trigger]
        state.signed.contains_key(hash) ==> first_units(units, n).contains(state.signed[hash])
    &&& forall|k: int|
        0 <= k < result.units.len() ==> first_units(units, n).contains(
            (#[trigger] result.units[k]).unit,
        )
}

proof fn lemma_one_under_way<H: Hasher, D: Data, K: Keychain>(
    unit_validator: &UnitValidator<K>,
    store: StoreView<HashOf<H>, DagUnitView<HashOf<H>, D::V, SignatureOf<K>>>,
    units: Seq<SignedUnitView<HashOf<H>, D::V, SignatureOf<K>>>,
    n: int,
    state: DagView<HashOf<H>, D::V, SignatureOf<K>>,
    result: DagResultView<HashOf<H>, D::V, SignatureOf<K>>,
)
    requires
        completeness::agreeing::<H>(all_bare::<H, D, K::Signature>(units)),
        0 <= n < units.len(),
        welcome::<H, D, K>(unit_validator, store, units[n]),
        under_way::<H, D, K>(units, n, state, result),
    ensures
        ({
            let (after, more) = dag::unit_added::<H, D, K>(unit_validator, state, store, units[n]);
            under_way::<H, D, K>(units, n + 1, after, result.and(more))
        }),
{
    let bares = all_bare::<H, D, K::Signature>(units);
    let unit = units[n];
    let hash = units::unit_hash::<H, D>(unit.signable);
    assert(bares[n] == bare::<H, D, K::Signature>(unit));
    completeness::lemma_not_in_process::<H>(bares, n);
    // the unit is passed on
    let (validator, error) = validation::validated::<H, D, K>(
        unit_validator,
        state.validator,
        store,
        unit,
    );
    assert(!state.validator.processing.by_hash.contains_key(hash)) by {
        if state.validator.processing.by_hash.contains_key(hash) {
            let i = choose|i: int| 0 <= i < n && (#[trigger] bares[i]).hash == hash;
            assert(bares[i].hash != bares[n].hash);
        }
    }
    assert(!state.validator.processing.canonical.contains_key(unit.signable.coord())) by {
        if state.validator.processing.canonical.contains_key(unit.signable.coord()) {
            let i = choose|i: int|
                0 <= i < n && (#[trigger] bares[i]).coord() == unit.signable.coord();
            assert(bares[i].coord() != bares[n].coord());
        }
    }
    assert(!state.validator.forkers.contains(unit.signable.creator()));
    assert(error is None);
    let checked = DagView { validator, ..state };
    assert(no_forkers::<H, D, K>(validator, bares, n + 1)) by {
        assert forall|h: HashOf<H>| #[trigger]
            validator.processing.by_hash.contains_key(h) implies exists|i: int|
            0 <= i < n + 1 && (#[trigger] bares[i]).hash == h by {
            if h == hash {
                assert(bares[n].hash == h);
            } else {
                assert(state.validator.processing.by_hash.contains_key(h));
                let i = choose|i: int| 0 <= i < n && (#[trigger] bares[i]).hash == h;
                assert(bares[i].hash == h);
            }
        }
        assert forall|coord: UnitCoord| #[trigger]
            validator.processing.canonical.contains_key(coord) implies exists|i: int|
            0 <= i < n + 1 && (#[trigger] bares[i]).coord() == coord by {
            if coord == unit.signable.coord() {
                assert(bares[n].coord() == coord);
            } else {
                assert(state.validator.processing.canonical.contains_key(coord));
                let i = choose|i: int| 0 <= i < n && (#[trigger] bares[i]).coord() == coord;
                assert(bares[i].coord() == coord);
            }
        }
    }
    // no other unit has its hash
    assert(laws::no_collision::<H, D, K::Signature>(state, unit)) by {
        if state.signed.contains_key(hash) {
            let other = state.signed[hash];
            assert(first_units(units, n).contains(other));
            let i = choose|i: int| 0 <= i < units.take(n).len() && units.take(n)[i] == other;
            assert(units[i] == other);
            assert(bares[i].hash == hash);
            assert(bares[i].hash != bares[n].hash);
        }
    }
    laws::law_units_in_order::<H, D, K>(unit_validator, state, store, unit);
    let (after, more) = dag::unit_added::<H, D, K>(unit_validator, state, store, unit);
    let (passed, _) = dag::passed_on::<H, D, K::Signature>(checked, unit);
    assert(after == dag::cleaned::<H, D, K::Signature>(passed, more.units));
    laws::lemma_cleaned::<H, D, K::Signature>(passed, more.units);
    lemma_cleaned_forkers::<H, D, K>(passed, more.units, bares, n + 1);
    laws::lemma_output_together::<H, D, K::Signature>(
        Set::empty(),
        state.order.placed,
        result.units,
        after.order.placed,
        more.units,
    );
    // reconstruction and order are those of the units alone
    let fresh = ReconstructionView::<HashOf<H>>::fresh();
    let next = bares.take(n + 1);
    assert(next.drop_last() =~= bares.take(n));
    assert(next.last() == bares[n]);
    let so_far = completeness::all_added::<H>(fresh, bares.take(n)).1;
    let found = parents::unit_added::<H>(state.reconstruction, bares[n]).1;
    assert(completeness::all_added::<H>(fresh, next).1 == so_far.and(found));
    order::lemma_all_added_together(OrderView::fresh(), so_far.units, found.units);
    assert(result.and(more).requests =~= so_far.and(found).requests);
    assert(result.and(more).alerts =~= seq![]);
    // the signed units are those that were added
    let good = first_units(units, n + 1);
    assert forall|other: SignedUnitView<HashOf<H>, D::V, SignatureOf<K>>|
        first_units(units, n).contains(other) implies #[trigger] good.contains(other) by {
        let i = choose|i: int| 0 <= i < units.take(n).len() && units.take(n)[i] == other;
        assert(units.take(n + 1)[i] == other);
    }
    assert(good.contains(unit)) by {
        assert(units.take(n + 1)[n] == unit);
    }
    let signed = state.signed.insert(hash, unit);
    let placed = order::all_added(state.order, found.units).1;
    laws::lemma_reunited_from(signed, placed, good);
    assert(more.units == dag::reunited(signed, placed).1);
    assert(after.signed == dag::reunited(signed, placed).0);
    let both = result.and(more);
    assert forall|k: int| 0 <= k < both.units.len() implies good.contains(
        (#[trigger] both.units[k]).unit,
    ) by {
        if k < result.units.len() {
            assert(both.units[k] == result.units[k]);
        } else {
            assert(both.units[k] == more.units[k - result.units.len()]);
        }
    }
}

proof fn lemma_under_way<H: Hasher, D: Data, K: Keychain>(
    unit_validator: &UnitValidator<K>,
    stores: Seq<StoreView<HashOf<H>, DagUnitView<HashOf<H>, D::V, SignatureOf<K>>>>,
    units: Seq<SignedUnitView<HashOf<H>, D::V, SignatureOf<K>>>,
    n: int,
)
    requires
        completeness::agreeing::<H>(all_bare::<H, D, K::Signature>(units)),
        0 <= n <= units.len(),
        forall|i: int|
            0 <= i < units.len() ==> welcome::<H, D, K>(
                unit_validator,
                stores[i],
                #[trigger] units[i],
            ),
    ensures
        ({
            let (after, result) = all_added::<H, D, K>(
                unit_validator,
                DagView::fresh(),
                stores,
                units.take(n),
            );
            under_way::<H, D, K>(units, n, after, result)
        }),
    decreases n,
{
    let fresh = DagView::<HashOf<H>, D::V, SignatureOf<K>>::fresh();
    if n > 0 {
        lemma_under_way::<H, D, K>(unit_validator, stores, units, n - 1);
        let (before, so_far) = all_added::<H, D, K>(
            unit_validator,
            fresh,
            stores,
            units.take(n - 1),
        );
        assert(units.take(n).drop_last() =~= units.take(n - 1));
        assert(units.take(n).last() == units[n - 1]);
        lemma_one_under_way::<H, D, K>(
            unit_validator,
            stores[n - 1],
            units,
            n - 1,
            before,
            so_far,
        );
    } else {
        assert(units.take(0) =~= seq![]);
        assert(all_bare::<H, D, K::Signature>(units).take(0) =~= seq![]);
        laws::law_fresh_dag_coherent::<H, D, K::Signature>();
        laws::lemma_no_output::<H, D, K::Signature>(Set::empty());
    }
}

/// A part of the units, given by their hashes, that holds all the parents of its units.
pub open spec fn closed_part<V>(units: Seq<UnitView<V>>, part: Set<V>) -> bool {
    forall|i: int|
        0 <= i < units.len() && part.contains((#[trigger] units[i]).hash) && units[i].round() > 0
            ==> {
            &&& units[i].parents().len() > 0
            &&& forall|coord: UnitCoord| #[trigger]
                progress::is_parent_coord(units[i], coord) ==> stands_at(units, part, coord)
        }
}

/// A unit of the given part stands at the coordinate.
pub open spec fn stands_at<V>(units: Seq<UnitView<V>>, part: Set<V>, coord: UnitCoord) -> bool {
    exists|j: int|
        0 <= j < units.len() && (#[trigger] units[j]).coord() == coord && part.contains(
            units[j].hash,
        )
}

/// A unit of a closed part does not wait in its round if those of the rounds before do not.
proof fn lemma_none_waits<H: Hasher>(
    bares: Seq<UnitView<HashOf<H>>>,
    part: Set<HashOf<H>>,
    out: Seq<ReconstructedView<HashOf<H>>>,
    state: OrderView<HashOf<H>>,
    i: int,
    round: int,
)
    requires
        completeness::agreeing::<H>(bares),
        closed_part(bares, part),
        forall|j: int|
            0 <= j < bares.len() && part.contains((#[trigger] bares[j]).hash)
                ==> completeness::returned(out, bares[j]),
        forall|found: ReconstructedView<HashOf<H>>| #[trigger]
            out.contains(found) ==> bares.contains(found.unit),
        forall|j: int, k: int|
            0 <= j < k < out.len() ==> (#[trigger] out[j]).unit.hash != (
            #[trigger] out[k]).unit.hash,
        forall|k: int|
            0 <= k < out.len() ==> progress::with_known_parents::<H>(
                completeness::by_coords(bares),
                #[trigger] out[k],
            ),
        forall|k: int| 0 <= k < out.len() ==> state.knows((#[trigger] out[k]).unit.hash),
        forall|j: int| 0 <= j < state.waiting.len() ==> out.contains(#[trigger] state.waiting[j]),
        order::idle(state),
        0 <= i < state.waiting.len(),
        part.contains(state.waiting[i].unit.hash),
    ensures
        state.waiting[i].unit.round() != round,
    decreases round,
{
    let waiting = state.waiting[i];
    if waiting.unit.round() == round {
        let k = choose|k: int| 0 <= k < out.len() && out[k] == waiting;
        assert(progress::with_known_parents::<H>(completeness::by_coords(bares), out[k]));
        completeness::lemma_by_coords(bares);
        assert(out.contains(waiting));
        let w = choose|w: int| 0 <= w < bares.len() && bares[w] == waiting.unit;
        assert(completeness::parents_agree::<H>(bares, bares[w]));
        assert(order::ready(state.placed, waiting)) by {
            assert forall|p: int| 0 <= p < waiting.parents.len() implies (
            #[trigger] waiting.parents[p] matches Some(parent) ==> state.placed.contains(
                parent,
            )) by {
                if let Some(parent) = waiting.parents[p] {
                    let coord = progress::parent_coord(waiting.unit, p);
                    assert(progress::is_parent_coord(bares[w], coord));
                    assert(stands_at(bares, part, coord));
                    let j = choose|j: int|
                        0 <= j < bares.len() && (#[trigger] bares[j]).coord() == coord
                            && part.contains(bares[j].hash);
                    assert(parent == bares[j].hash);
                    assert(completeness::returned(out, bares[j]));
                    let m = choose|m: int|
                        0 <= m < out.len() && (#[trigger] out[m]).unit == bares[j];
                    assert(state.knows(out[m].unit.hash));
                    if !state.placed.contains(parent) {
                        let q = choose|q: int|
                            0 <= q < state.waiting.len() && (#[trigger] state.waiting[q]).unit.hash
                                == parent;
                        let other = state.waiting[q];
                        assert(out.contains(other));
                        let r = choose|r: int| 0 <= r < out.len() && out[r] == other;
                        if r < m {
                            assert(out[r].unit.hash != out[m].unit.hash);
                        } else if m < r {
                            assert(out[m].unit.hash != out[r].unit.hash);
                        }
                        assert(other.unit == bares[j]);
                        assert(other.unit.round() == round - 1);
                        lemma_none_waits::<H>(bares, part, out, state, q, round - 1);
                    }
                }
            }
        }
    }
}

/// Units whose ancestors have all come leave the dag, whatever else has come: if units at different
/// coordinates, whose control hashes were made of one another, are added to a new dag, in whatever
/// order, and nothing speaks against them, then every unit of a part of them that holds all the
/// parents of its units comes out, and is placed. No unit comes out twice, and each comes out behind
/// all its parents. No list of parents is requested, and no alert is made.
pub proof fn law_founded_units_returned<H: Hasher, D: Data, K: Keychain>(
    unit_validator: &UnitValidator<K>,
    stores: Seq<StoreView<HashOf<H>, DagUnitView<HashOf<H>, D::V, SignatureOf<K>>>>,
    units: Seq<SignedUnitView<HashOf<H>, D::V, SignatureOf<K>>>,
    part: Set<HashOf<H>>,
)
    requires
        completeness::agreeing::<H>(all_bare::<H, D, K::Signature>(units)),
        closed_part(all_bare::<H, D, K::Signature>(units), part),
        forall|i: int|
            0 <= i < units.len() ==> welcome::<H, D, K>(
                unit_validator,
                stores[i],
                #[trigger] units[i],
            ),
    ensures
        ({
            let (after, result) = all_added::<H, D, K>(
                unit_validator,
                DagView::fresh(),
                stores,
                units,
            );
            &&& forall|i: int|
                0 <= i < units.len() && part.contains(
                    units::unit_hash::<H, D>((#[trigger] units[i]).signable),
                ) ==> {
                    &&& returned(result.units, units[i])
                    &&& after.order.placed.contains(units::unit_hash::<H, D>(units[i].signable))
                }
            &&& forall|found: DagUnitView<HashOf<H>, D::V, SignatureOf<K>>| #[trigger]
                result.units.contains(found) ==> units.contains(found.unit)
            &&& laws::correct_output::<H, D, K::Signature>(Set::empty(), result.units)
            &&& forall|k: int|
                0 <= k < result.requests.len() ==> !(#[trigger] result.requests[k] is ParentsOf)
            &&& result.alerts.len() == 0
        }),
{
    let bares = all_bare::<H, D, K::Signature>(units);
    let n = units.len() as int;
    assert(units.take(n) =~= units);
    assert(bares.take(n) =~= bares);
    lemma_under_way::<H, D, K>(unit_validator, stores, units, n);
    let (after, result) = all_added::<H, D, K>(unit_validator, DagView::fresh(), stores, units);
    completeness::law_units_with_parents_returned::<H>(bares);
    completeness::lemma_by_coords(bares);
    let out = completeness::all_added::<H>(ReconstructionView::fresh(), bares).1.units;
    let start = OrderView::<HashOf<H>>::fresh();
    let stock = Set::new(|unit: ReconstructedView<HashOf<H>>| out.contains(unit));
    assert forall|k: int| 0 <= k < out.len() implies start.placed.contains(
        (#[trigger] out[k]).unit.hash,
    ) || stock.contains(out[k]) by {}
    laws::lemma_all_added_coherent(start, out, stock);
    order::lemma_all_added(start, out);
    assert forall|j: int| 0 <= j < after.order.waiting.len() implies out.contains(
        #[trigger] after.order.waiting[j],
    ) by {
        assert(stock.contains(after.order.waiting[j]));
    }
    assert forall|j: int|
        0 <= j < bares.len() && part.contains((#[trigger] bares[j]).hash) implies
    completeness::returned(out, bares[j]) by {
        if bares[j].round() > 0 {
            assert forall|coord: UnitCoord| #[trigger]
                progress::is_parent_coord(bares[j], coord) implies completeness::by_coords(
                bares,
            ).contains_key(coord) by {
                assert(stands_at(bares, part, coord));
                let m = choose|m: int|
                    0 <= m < bares.len() && (#[trigger] bares[m]).coord() == coord
                        && part.contains(bares[m].hash);
                assert(bares[m].coord() == coord);
            }
        }
        assert(completeness::has_all_parents(bares, bares[j]));
    }
    assert forall|i: int|
        0 <= i < units.len() && part.contains(
            units::unit_hash::<H, D>((#[trigger] units[i]).signable),
        ) implies {
        &&& returned(result.units, units[i])
        &&& after.order.placed.contains(units::unit_hash::<H, D>(units[i].signable))
    } by {
        let hash = units::unit_hash::<H, D>(units[i].signable);
        assert(bares[i].hash == hash);
        assert(completeness::returned(out, bares[i]));
        let m = choose|m: int| 0 <= m < out.len() && (#[trigger] out[m]).unit == bares[i];
        assert(after.order.knows(out[m].unit.hash));
        if !after.order.placed.contains(hash) {
            let q = choose|q: int|
                0 <= q < after.order.waiting.len() && (
                #[trigger] after.order.waiting[q]).unit.hash == hash;
            lemma_none_waits::<H>(
                bares,
                part,
                out,
                after.order,
                q,
                after.order.waiting[q].unit.round() as int,
            );
        }
        let k = choose|k: int|
            0 <= k < result.units.len() && laws::hash_of::<H, D, K::Signature>(
                #[trigger] result.units[k],
            ) == hash;
        assert(first_units(units, n).contains(result.units[k].unit));
        let j = choose|j: int| 0 <= j < units.len() && units[j] == result.units[k].unit;
        assert(bares[j].hash == bares[i].hash);
        if j < i {
            assert(bares[j].hash != bares[i].hash);
        } else if i < j {
            assert(bares[i].hash != bares[j].hash);
        }
        assert(result.units[k].unit == units[i]);
    }
    assert forall|found: DagUnitView<HashOf<H>, D::V, SignatureOf<K>>| #[trigger]
        result.units.contains(found) implies units.contains(found.unit) by {
        let k = choose|k: int| 0 <= k < result.units.len() && result.units[k] == found;
        assert(first_units(units, n).contains(result.units[k].unit));
    }
}

/// All the units come out of the dag reconstructed and in the correct order: if units at different
/// coordinates and with all their parents are added to a new dag, in whatever order, and nothing
/// speaks against them, then each of them comes out exactly once and behind all its parents; no list
/// of parents is requested, no alert is made, and in the end all of them are placed.
pub proof fn law_all_units_returned<H: Hasher, D: Data, K: Keychain>(
    unit_validator: &UnitValidator<K>,
    stores: Seq<StoreView<HashOf<H>, DagUnitView<HashOf<H>, D::V, SignatureOf<K>>>>,
    units: Seq<SignedUnitView<HashOf<H>, D::V, SignatureOf<K>>>,
)
    requires
        completeness::complete::<H>(all_bare::<H, D, K::Signature>(units)),
        forall|i: int|
            0 <= i < units.len() ==> welcome::<H, D, K>(
                unit_validator,
                stores[i],
                #[trigger] units[i],
            ),
    ensures
        ({
            let (after, result) = all_added::<H, D, K>(
                unit_validator,
                DagView::fresh(),
                stores,
                units,
            );
            &&& each_once::<H, D, K::Signature>(units, result.units)
            &&& laws::correct_output::<H, D, K::Signature>(Set::empty(), result.units)
            &&& forall|i: int|
                0 <= i < units.len() ==> after.order.placed.contains(
                    units::unit_hash::<H, D>((#[trigger] units[i]).signable),
                )
            &&& forall|k: int|
                0 <= k < result.requests.len() ==> !(#[trigger] result.requests[k] is ParentsOf)
            &&& result.alerts.len() == 0
        }),
{
    let bares = all_bare::<H, D, K::Signature>(units);
    let part = Set::new(|hash: HashOf<H>| true);
    assert(closed_part(bares, part)) by {
        completeness::lemma_by_coords(bares);
        assert forall|i: int|
            0 <= i < bares.len() && part.contains((#[trigger] bares[i]).hash) && bares[i].round()
                > 0 implies {
            &&& bares[i].parents().len() > 0
            &&& forall|coord: UnitCoord| #[trigger]
                progress::is_parent_coord(bares[i], coord) ==> stands_at(bares, part, coord)
        } by {
            assert(completeness::has_all_parents(bares, bares[i]));
            assert forall|coord: UnitCoord| #[trigger]
                progress::is_parent_coord(bares[i], coord) implies stands_at(
                bares,
                part,
                coord,
            ) by {
                assert(completeness::by_coords(bares).contains_key(coord));
                let j = choose|j: int|
                    0 <= j < bares.len() && (#[trigger] bares[j]).coord() == coord;
                assert(part.contains(bares[j].hash));
            }
        }
    }
    law_founded_units_returned::<H, D, K>(unit_validator, stores, units, part);
}

} // verus!
