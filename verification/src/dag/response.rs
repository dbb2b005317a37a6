//! What can be relied on when the parents of a unit come in.
use crate::alerts::SignedUnitView;
use crate::crypto::{HashOf, Hasher, Keychain, SignatureOf};
use crate::dag;
use crate::dag::laws;
use crate::dag::laws::{coherent, no_collision, parents_apart};
use crate::dag::order;
use crate::dag::order::OrderView;
use crate::dag::unit::DagUnitView;
use crate::dag::validation;
use crate::dag::validation::ValidatorView;
use crate::dag::{DagResultView, DagView, ParentsProgress};
use crate::data::Data;
use crate::nodes;
use crate::nodes::{NodeIndex, Round};
use crate::reconstruction::laws as reconstruction_laws;
use crate::reconstruction::parents;
use crate::reconstruction::parents::{ReconstructingView, ReconstructionView};
use crate::reconstruction::ReconstructedView;
use crate::units;
use crate::units::store::StoreView;
use crate::units::validator::Validator as UnitValidator;
use crate::units::{UnitCoord, UnitView};
use vstd::prelude::*;

verus! {

/// Whether a unit waits for an explicit list of its parents.
pub open spec fn waits_for_list<V>(state: ReconstructionView<V>, unit: UnitView<V>) -> bool {
    state.reconstructing.contains_key(unit.hash) && state.reconstructing[unit.hash]
        == ReconstructingView::WaitingForParents(unit)
}

/// None of the units has the given hash.
pub open spec fn none_with_hash<V>(units: Seq<ReconstructedView<V>>, hash: V) -> bool {
    forall|k: int| 0 <= k < units.len() ==> (#[trigger] units[k]).unit.hash != hash
}

proof fn lemma_none_together<V>(
    first: Seq<ReconstructedView<V>>,
    second: Seq<ReconstructedView<V>>,
    hash: V,
)
    requires
        none_with_hash(first, hash),
        none_with_hash(second, hash),
    ensures
        none_with_hash(first + second, hash),
{
    let both = first + second;
    assert forall|k: int| 0 <= k < both.len() implies (#[trigger] both[k]).unit.hash != hash by {
        if k < first.len() {
            assert(both[k] == first[k]);
        } else {
            assert(both[k] == second[k - first.len()]);
        }
    }
}

proof fn lemma_known_leaves_alone<H: Hasher>(
    state: ReconstructionView<HashOf<H>>,
    child: HashOf<H>,
    parent_id: NodeIndex,
    parent_hash: HashOf<H>,
    unit: UnitView<HashOf<H>>,
)
    requires
        reconstruction_laws::keyed(state),
        waits_for_list(state, unit),
    ensures
        ({
            let (after, result) = parents::parent_known::<H>(
                state,
                child,
                parent_id,
                parent_hash,
            );
            &&& reconstruction_laws::keyed(after)
            &&& waits_for_list(after, unit)
            &&& none_with_hash(result.units, unit.hash)
        }),
{
}

proof fn lemma_all_leave_alone<H: Hasher>(
    state: ReconstructionView<HashOf<H>>,
    children: Seq<HashOf<H>>,
    parent_id: NodeIndex,
    parent_hash: HashOf<H>,
    unit: UnitView<HashOf<H>>,
)
    requires
        reconstruction_laws::keyed(state),
        waits_for_list(state, unit),
    ensures
        ({
            let (after, result) = parents::parent_known_to_all::<H>(
                state,
                children,
                parent_id,
                parent_hash,
            );
            &&& reconstruction_laws::keyed(after)
            &&& waits_for_list(after, unit)
            &&& none_with_hash(result.units, unit.hash)
        }),
    decreases children.len(),
{
    if children.len() > 0 {
        let rest = children.drop_last();
        lemma_all_leave_alone::<H>(state, rest, parent_id, parent_hash, unit);
        let (middle, first) = parents::parent_known_to_all::<H>(
            state,
            rest,
            parent_id,
            parent_hash,
        );
        lemma_known_leaves_alone::<H>(middle, children.last(), parent_id, parent_hash, unit);
        let more = parents::parent_known::<H>(middle, children.last(), parent_id, parent_hash).1;
        lemma_none_together(first.units, more.units, unit.hash);
    }
}

proof fn lemma_sought_leaves_alone<H: Hasher>(
    state: ReconstructionView<HashOf<H>>,
    hash: HashOf<H>,
    coords: Seq<UnitCoord>,
    unit: UnitView<HashOf<H>>,
)
    requires
        reconstruction_laws::keyed(state),
        waits_for_list(state, unit),
    ensures
        ({
            let (after, result) = parents::parents_sought::<H>(state, hash, coords);
            &&& reconstruction_laws::keyed(after)
            &&& waits_for_list(after, unit)
            &&& none_with_hash(result.units, unit.hash)
        }),
    decreases coords.len(),
{
    if coords.len() > 0 {
        let rest = coords.drop_last();
        lemma_sought_leaves_alone::<H>(state, hash, rest, unit);
        let (middle, first) = parents::parents_sought::<H>(state, hash, rest);
        let coord = coords.last();
        if middle.by_coord.contains_key(coord) {
            let parent = middle.by_coord[coord];
            lemma_known_leaves_alone::<H>(middle, hash, coord.creator, parent, unit);
            let more = parents::parent_known::<H>(middle, hash, coord.creator, parent).1;
            lemma_none_together(first.units, more.units, unit.hash);
        } else {
            assert(first.units + Seq::<ReconstructedView<HashOf<H>>>::empty() =~= first.units);
        }
    }
}

/// A unit that waits for an explicit list of its parents goes on waiting, whatever other unit is
/// added: only the list takes it out of the process.
pub proof fn law_waits_for_the_list<H: Hasher>(
    state: ReconstructionView<HashOf<H>>,
    added: UnitView<HashOf<H>>,
    unit: UnitView<HashOf<H>>,
)
    requires
        reconstruction_laws::keyed(state),
        waits_for_list(state, unit),
        added.hash != unit.hash,
    ensures
        ({
            let (after, result) = parents::unit_added::<H>(state, added);
            &&& waits_for_list(after, unit)
            &&& none_with_hash(result.units, unit.hash)
        }),
{
    if !state.reconstructing.contains_key(added.hash) {
        let known = state.with_coord(added.coord(), added.hash).without_waiting(added.coord());
        let children = state.children(added.coord());
        lemma_all_leave_alone::<H>(known, children, added.creator(), added.hash, unit);
        let (told, first) = parents::parent_known_to_all::<H>(
            known,
            children,
            added.creator(),
            added.hash,
        );
        if added.round() == 0 {
            let initial = ReconstructedView {
                unit: added,
                parents: nodes::empty::<HashOf<H>>(added.n_members()),
            };
            lemma_none_together(first.units, seq![initial], unit.hash);
        } else {
            let started = ReconstructingView::Reconstructing(
                added,
                nodes::empty(added.n_members()),
            );
            let start = told.with_reconstructing(added.hash, started);
            assert(reconstruction_laws::keyed(start));
            let coords = parents::parent_coords(added);
            lemma_sought_leaves_alone::<H>(start, added.hash, coords, unit);
            let more = parents::parents_sought::<H>(start, added.hash, coords).1;
            lemma_none_together(first.units, more.units, unit.hash);
        }
    }
}

/// The signature of a unit that does not come out is kept.
proof fn lemma_signature_kept<V, D, S>(
    signed: Map<V, SignedUnitView<V, D, S>>,
    units: Seq<ReconstructedView<V>>,
    hash: V,
)
    requires
        signed.contains_key(hash),
        none_with_hash(units, hash),
    ensures
        dag::reunited(signed, units).0.contains_key(hash),
        dag::reunited(signed, units).0[hash] == signed[hash],
    decreases units.len(),
{
    if units.len() > 0 {
        let rest = units.drop_last();
        assert forall|k: int| 0 <= k < rest.len() implies (#[trigger] rest[k]).unit.hash != hash by {
            assert(units[k] == rest[k]);
        }
        lemma_signature_kept(signed, rest, hash);
        assert(units[units.len() - 1].unit.hash != hash);
    }
}

/// A unit that comes out gets its signature back.
proof fn lemma_signature_given_back<V, D, S>(
    signed: Map<V, SignedUnitView<V, D, S>>,
    units: Seq<ReconstructedView<V>>,
    j: int,
)
    requires
        0 <= j < units.len(),
        signed.contains_key(units[j].unit.hash),
        none_with_hash(units.take(j), units[j].unit.hash),
    ensures
        dag::reunited(signed, units).1.contains(
            DagUnitView { unit: signed[units[j].unit.hash], parents: units[j].parents },
        ),
    decreases units.len(),
{
    let rest = units.drop_last();
    let (middle, first) = dag::reunited(signed, rest);
    let all = dag::reunited(signed, units).1;
    let found = DagUnitView { unit: signed[units[j].unit.hash], parents: units[j].parents };
    if j == units.len() - 1 {
        assert(units.take(j) =~= rest);
        lemma_signature_kept(signed, rest, units[j].unit.hash);
        assert(all[first.len() as int] == found);
    } else {
        assert(rest.take(j) =~= units.take(j));
        assert(rest[j] == units[j]);
        lemma_signature_given_back(signed, rest, j);
        let k = choose|k: int| 0 <= k < first.len() && first[k] == found;
        assert(all[k] == found);
    }
}

/// A unit is in the process, waits for a list, is not in the order yet and has its signature.
pub open spec fn awaits_parents<H: Hasher, D: Data, S: Data>(
    state: DagView<HashOf<H>, D::V, S::V>,
    unit: UnitView<HashOf<H>>,
    signed: SignedUnitView<HashOf<H>, D::V, S::V>,
) -> bool {
    &&& waits_for_list(state.reconstruction, unit)
    &&& !state.order.knows(unit.hash)
    &&& state.signed.contains_key(unit.hash)
    &&& state.signed[unit.hash] == signed
}

/// Units of other hashes do not make a unit known to the order.
proof fn lemma_others_ordered<V>(state: OrderView<V>, units: Seq<ReconstructedView<V>>, hash: V)
    requires
        laws::order_coherent(state),
        !state.knows(hash),
        none_with_hash(units, hash),
    ensures
        !order::all_added(state, units).0.knows(hash),
        none_with_hash(order::all_added(state, units).1, hash),
{
    let others = Set::new(|unit: ReconstructedView<V>| unit.unit.hash != hash);
    assert forall|i: int| 0 <= i < state.waiting.len() implies others.contains(
        #[trigger] state.waiting[i],
    ) by {}
    laws::lemma_all_added_coherent(state, units, others);
    let (after, placed) = order::all_added(state, units);
    assert forall|k: int| 0 <= k < placed.len() implies (#[trigger] placed[k]).unit.hash
        != hash by {
        assert(others.contains(placed[k]));
    }
    if after.knows(hash) {
        if after.placed.contains(hash) {
            assert(state.placed.contains(hash));
        } else {
            let i = choose|i: int|
                0 <= i < after.waiting.len() && (#[trigger] after.waiting[i]).unit.hash == hash;
            assert(others.contains(after.waiting[i]));
        }
    }
}

/// A unit that awaits its parents still does so once another unit has been passed on.
proof fn lemma_still_awaits<H: Hasher, D: Data, S: Data>(
    state: DagView<HashOf<H>, D::V, S::V>,
    other: SignedUnitView<HashOf<H>, D::V, S::V>,
    unit: UnitView<HashOf<H>>,
    signed: SignedUnitView<HashOf<H>, D::V, S::V>,
)
    requires
        coherent::<H, D, S>(state),
        order::idle(state.order),
        awaits_parents::<H, D, S>(state, unit, signed),
        units::unit_hash::<H, D>(other.signable) != unit.hash,
    ensures
        awaits_parents::<H, D, S>(dag::passed_on::<H, D, S>(state, other).0, unit, signed),
        order::idle(dag::passed_on::<H, D, S>(state, other).0.order),
{
    let hash = units::unit_hash::<H, D>(other.signable);
    let bare = UnitView { pre_unit: other.signable.pre_unit, hash };
    law_waits_for_the_list::<H>(state.reconstruction, bare, unit);
    let result = parents::unit_added::<H>(state.reconstruction, bare).1;
    lemma_others_ordered(state.order, result.units, unit.hash);
    order::lemma_all_added(state.order, result.units);
    let placed = order::all_added(state.order, result.units).1;
    lemma_signature_kept(state.signed.insert(hash, other), placed, unit.hash);
}

/// Nothing speaks against a unit when it is checked: it is known already, or its creator is a known
/// forker, or nothing is known at its coordinates.
pub open spec fn unopposed<H: Hasher, D: Data, K: Keychain>(
    state: ValidatorView<HashOf<H>, D::V, SignatureOf<K>>,
    store: StoreView<HashOf<H>, DagUnitView<HashOf<H>, D::V, SignatureOf<K>>>,
    unit: SignedUnitView<HashOf<H>, D::V, SignatureOf<K>>,
) -> bool {
    let hash = units::unit_hash::<H, D>(unit.signable);
    let coord = unit.signable.coord();
    ||| store.by_hash.contains_key(hash)
    ||| state.processing.by_hash.contains_key(hash)
    ||| state.forkers.contains(unit.signable.creator())
    ||| store.canonical_unit(coord) is None && !state.processing.canonical.contains_key(coord)
}

/// The units of a response are at the coordinates of the parents of a unit, one at each of them.
pub open spec fn at_parents_coords<V, D, S>(
    unit: UnitView<V>,
    units: Seq<SignedUnitView<V, D, S>>,
) -> bool {
    let mask = unit.pre_unit.control_hash.parents_mask;
    &&& forall|k: int|
        0 <= k < units.len() ==> {
            let coord = (#[trigger] units[k]).signable.pre_unit.coord;
            &&& coord.round + 1 == unit.pre_unit.coord.round
            &&& coord.creator.0 < mask.len()
            &&& mask[coord.creator.0 as int]
        }
    &&& forall|j: int, k: int|
        0 <= j < k < units.len() ==> (#[trigger] units[j]).signable.pre_unit.coord != (
        #[trigger] units[k]).signable.pre_unit.coord
    &&& forall|i: int|
        #![trigger mask[i]]
        0 <= i < mask.len() && mask[i] ==> exists|k: int|
            0 <= k < units.len() && (#[trigger] units[k]).signable.pre_unit.coord.creator.0 == i
}

/// The hashes of the units of a response, each at the place of its creator.
pub open spec fn hashes_by_creator<H: Hasher, D: Data, S: Data>(
    n_members: nat,
    units: Seq<SignedUnitView<HashOf<H>, D::V, S::V>>,
    parents: Seq<Option<HashOf<H>>>,
) -> bool {
    &&& parents.len() == n_members
    &&& forall|k: int|
        0 <= k < units.len() ==> {
            let creator = (#[trigger] units[k]).signable.pre_unit.coord.creator.0 as int;
            creator < n_members && parents[creator] == Some(
                units::unit_hash::<H, D>(units[k].signable),
            )
        }
    &&& forall|i: int|
        0 <= i < n_members && #[trigger] parents[i] is Some ==> exists|k: int|
            0 <= k < units.len() && (#[trigger] units[k]).signable.pre_unit.coord.creator.0 == i
}

/// All that is needed for the parents in a response to be dealt with.
pub open spec fn proper_response<H: Hasher, D: Data, K: Keychain>(
    unit_validator: &UnitValidator<K>,
    state: DagView<HashOf<H>, D::V, SignatureOf<K>>,
    store: StoreView<HashOf<H>, DagUnitView<HashOf<H>, D::V, SignatureOf<K>>>,
    units: Seq<SignedUnitView<HashOf<H>, D::V, SignatureOf<K>>>,
) -> bool {
    forall|k: int|
        0 <= k < units.len() ==> {
            &&& unit_validator.verdict::<H, D>(#[trigger] units[k]) is None
            &&& unopposed::<H, D, K>(state.validator, store, units[k])
        }
}

/// A valid unit that nothing speaks against is passed on, or left alone because it is known or by a
/// forker; nothing speaks against a unit at other coordinates then if nothing did before.
proof fn lemma_unopposed<H: Hasher, D: Data, K: Keychain>(
    unit_validator: &UnitValidator<K>,
    state: ValidatorView<HashOf<H>, D::V, SignatureOf<K>>,
    store: StoreView<HashOf<H>, DagUnitView<HashOf<H>, D::V, SignatureOf<K>>>,
    unit: SignedUnitView<HashOf<H>, D::V, SignatureOf<K>>,
)
    requires
        unit_validator.verdict::<H, D>(unit) is None,
        unopposed::<H, D, K>(state, store, unit),
    ensures
        ({
            let (after, error) = validation::validated::<H, D, K>(
                unit_validator,
                state,
                store,
                unit,
            );
            &&& error is Some ==> (error->0 is Duplicate || error->0 is Uncommitted)
            &&& forall|other: SignedUnitView<HashOf<H>, D::V, SignatureOf<K>>|
                other.signable.pre_unit.coord != unit.signable.pre_unit.coord && unopposed::<
                    H,
                    D,
                    K,
                >(state, store, other) ==> #[trigger] unopposed::<H, D, K>(after, store, other)
        }),
{
}

/// The first units of a response have been dealt with, nothing speaks against the others, and the
/// unit whose parents they are still awaits them.
spec fn dealt_with<H: Hasher, D: Data, K: Keychain>(
    progress: ParentsProgress<HashOf<H>, D::V, SignatureOf<K>>,
    store: StoreView<HashOf<H>, DagUnitView<HashOf<H>, D::V, SignatureOf<K>>>,
    units: Seq<SignedUnitView<HashOf<H>, D::V, SignatureOf<K>>>,
    n: int,
    unit: UnitView<HashOf<H>>,
    signed: SignedUnitView<HashOf<H>, D::V, SignatureOf<K>>,
) -> bool {
    &&& !progress.stopped
    &&& order::idle(progress.state.order)
    &&& awaits_parents::<H, D, K::Signature>(progress.state, unit, signed)
    &&& progress.result.alerts.len() == 0
    &&& forall|k: int|
        0 <= k < n ==> {
            let coord = (#[trigger] units[k]).signable.coord();
            progress.hashes.contains_key(coord) && progress.hashes[coord] == units::unit_hash::<
                H,
                D,
            >(units[k].signable)
        }
    &&& forall|k: int|
        n <= k < units.len() ==> unopposed::<H, D, K>(
            progress.state.validator,
            store,
            #[trigger] units[k],
        )
}

/// What is known of the hashes and of the other units once one more unit has been dealt with.
proof fn lemma_others_unopposed<H: Hasher, D: Data, K: Keychain>(
    unit_validator: &UnitValidator<K>,
    so_far: ParentsProgress<HashOf<H>, D::V, SignatureOf<K>>,
    store: StoreView<HashOf<H>, DagUnitView<HashOf<H>, D::V, SignatureOf<K>>>,
    units: Seq<SignedUnitView<HashOf<H>, D::V, SignatureOf<K>>>,
    m: int,
    unit: UnitView<HashOf<H>>,
    signed: SignedUnitView<HashOf<H>, D::V, SignatureOf<K>>,
    hashes: Map<UnitCoord, HashOf<H>>,
)
    requires
        0 <= m < units.len(),
        dealt_with::<H, D, K>(so_far, store, units, m, unit, signed),
        unit_validator.verdict::<H, D>(units[m]) is None,
        forall|j: int, k: int|
            0 <= j < k < units.len() ==> (#[trigger] units[j]).signable.pre_unit.coord != (
            #[trigger] units[k]).signable.pre_unit.coord,
        hashes == so_far.hashes.insert(
            units[m].signable.coord(),
            units::unit_hash::<H, D>(units[m].signable),
        ),
    ensures
        forall|k: int|
            0 <= k < m + 1 ==> {
                let coord = (#[trigger] units[k]).signable.coord();
                hashes.contains_key(coord) && hashes[coord] == units::unit_hash::<H, D>(
                    units[k].signable,
                )
            },
        forall|k: int|
            m + 1 <= k < units.len() ==> unopposed::<H, D, K>(
                validation::validated::<H, D, K>(
                    unit_validator,
                    so_far.state.validator,
                    store,
                    units[m],
                ).0,
                store,
                #[trigger] units[k],
            ),
        ({
            let error = validation::validated::<H, D, K>(
                unit_validator,
                so_far.state.validator,
                store,
                units[m],
            ).1;
            error is Some ==> (error->0 is Duplicate || error->0 is Uncommitted)
        }),
{
    assert(unopposed::<H, D, K>(so_far.state.validator, store, units[m]));
    lemma_unopposed::<H, D, K>(unit_validator, so_far.state.validator, store, units[m]);
    assert forall|k: int| 0 <= k < m + 1 implies {
        let coord = (#[trigger] units[k]).signable.coord();
        hashes.contains_key(coord) && hashes[coord] == units::unit_hash::<H, D>(units[k].signable)
    } by {
        if k < m {
            assert(units[k].signable.pre_unit.coord != units[m].signable.pre_unit.coord);
        }
    }
    assert forall|k: int| m + 1 <= k < units.len() implies unopposed::<H, D, K>(
        validation::validated::<H, D, K>(
            unit_validator,
            so_far.state.validator,
            store,
            units[m],
        ).0,
        store,
        #[trigger] units[k],
    ) by {
        assert(unopposed::<H, D, K>(so_far.state.validator, store, units[k]));
        assert(units[m].signable.pre_unit.coord != units[k].signable.pre_unit.coord);
    }
}

/// One more unit of a response is dealt with.
proof fn lemma_one_more_dealt_with<H: Hasher, D: Data, K: Keychain>(
    unit_validator: &UnitValidator<K>,
    state: DagView<HashOf<H>, D::V, SignatureOf<K>>,
    store: StoreView<HashOf<H>, DagUnitView<HashOf<H>, D::V, SignatureOf<K>>>,
    units: Seq<SignedUnitView<HashOf<H>, D::V, SignatureOf<K>>>,
    m: int,
    unit: UnitView<HashOf<H>>,
    signed: SignedUnitView<HashOf<H>, D::V, SignatureOf<K>>,
)
    requires
        0 <= m < units.len(),
        ({
            let so_far = dag::parents_processed::<H, D, K>(
                unit_validator,
                state,
                store,
                units.take(m),
            );
            &&& dealt_with::<H, D, K>(so_far, store, units, m, unit, signed)
            &&& coherent::<H, D, K::Signature>(so_far.state)
        }),
        units::unit_hash::<H, D>(units[m].signable) != unit.hash,
        unit_validator.verdict::<H, D>(units[m]) is None,
        forall|j: int, k: int|
            0 <= j < k < units.len() ==> (#[trigger] units[j]).signable.pre_unit.coord != (
            #[trigger] units[k]).signable.pre_unit.coord,
    ensures
        dealt_with::<H, D, K>(
            dag::parents_processed::<H, D, K>(unit_validator, state, store, units.take(m + 1)),
            store,
            units,
            m + 1,
            unit,
            signed,
        ),
{
    let now = units.take(m + 1);
    assert(now.drop_last() =~= units.take(m));
    assert(now.last() == units[m]);
    let so_far = dag::parents_processed::<H, D, K>(unit_validator, state, store, units.take(m));
    let next = units[m];
    let hashes = so_far.hashes.insert(
        next.signable.coord(),
        units::unit_hash::<H, D>(next.signable),
    );
    lemma_others_unopposed::<H, D, K>(
        unit_validator,
        so_far,
        store,
        units,
        m,
        unit,
        signed,
        hashes,
    );
    let (validator, error) = validation::validated::<H, D, K>(
        unit_validator,
        so_far.state.validator,
        store,
        next,
    );
    let checked = DagView { validator, ..so_far.state };
    let progress = dag::parents_processed::<H, D, K>(unit_validator, state, store, now);
    if error is None {
        assert(coherent::<H, D, K::Signature>(checked));
        lemma_still_awaits::<H, D, K::Signature>(checked, next, unit, signed);
        let (after, more) = dag::passed_on::<H, D, K::Signature>(checked, next);
        assert(after.validator == validator);
        assert(so_far.result.and(more).alerts.len() == 0);
        assert(progress == ParentsProgress {
            state: after,
            result: so_far.result.and(more),
            hashes,
            stopped: false,
        });
    } else {
        assert(progress == ParentsProgress { state: checked, hashes, ..so_far });
    }
}

proof fn lemma_response_dealt_with<H: Hasher, D: Data, K: Keychain>(
    unit_validator: &UnitValidator<K>,
    state: DagView<HashOf<H>, D::V, SignatureOf<K>>,
    store: StoreView<HashOf<H>, DagUnitView<HashOf<H>, D::V, SignatureOf<K>>>,
    units: Seq<SignedUnitView<HashOf<H>, D::V, SignatureOf<K>>>,
    n: int,
    unit: UnitView<HashOf<H>>,
    signed: SignedUnitView<HashOf<H>, D::V, SignatureOf<K>>,
)
    requires
        0 <= n <= units.len(),
        coherent::<H, D, K::Signature>(state),
        order::idle(state.order),
        parents_apart::<H, D, K>(unit_validator, state, store, units),
        awaits_parents::<H, D, K::Signature>(state, unit, signed),
        at_parents_coords(unit, units),
        proper_response::<H, D, K>(unit_validator, state, store, units),
    ensures
        dealt_with::<H, D, K>(
            dag::parents_processed::<H, D, K>(unit_validator, state, store, units.take(n)),
            store,
            units,
            n,
            unit,
            signed,
        ),
    decreases n,
{
    if n > 0 {
        let m = n - 1;
        lemma_response_dealt_with::<H, D, K>(
            unit_validator,
            state,
            store,
            units,
            m,
            unit,
            signed,
        );
        let before = units.take(m);
        assert forall|k: int| 0 <= k < before.len() implies no_collision::<H, D, K::Signature>(
            dag::parents_processed::<H, D, K>(unit_validator, state, store, before.take(k)).state,
            #[trigger] before[k],
        ) by {
            assert(before.take(k) =~= units.take(k));
            assert(units[k] == before[k]);
        }
        laws::lemma_parents_processed::<H, D, K>(unit_validator, state, store, before);
        let so_far = dag::parents_processed::<H, D, K>(unit_validator, state, store, before);
        let next = units[m];
        assert(no_collision::<H, D, K::Signature>(so_far.state, next));
        assert(units::unit_hash::<H, D>(next.signable) != unit.hash) by {
            if units::unit_hash::<H, D>(next.signable) == unit.hash {
                assert(unit.pre_unit == next.signable.pre_unit);
            }
        }
        lemma_one_more_dealt_with::<H, D, K>(
            unit_validator,
            state,
            store,
            units,
            m,
            unit,
            signed,
        );
    } else {
        assert(units.take(n) =~= seq![]);
    }
}

/// The place of a member among the members of a subset is the number of those before it.
proof fn lemma_place(mask: Seq<bool>, i: int)
    requires
        mask.len() <= usize::MAX,
        0 <= i < mask.len(),
        mask[i],
    ensures
        nodes::elements(mask.take(i)).len() < nodes::elements(mask).len(),
        nodes::elements(mask)[nodes::elements(mask.take(i)).len() as int].0 == i,
    decreases mask.len(),
{
    let rest = mask.drop_last();
    if i == mask.len() - 1 {
        assert(mask.take(i) =~= rest);
    } else {
        assert(rest[i] == mask[i]);
        assert(rest.take(i) =~= mask.take(i));
        lemma_place(rest, i);
    }
}

/// The parents of a unit that a response lists.
proof fn lemma_listed<H: Hasher, D: Data, S: Data>(
    unit: UnitView<HashOf<H>>,
    units: Seq<SignedUnitView<HashOf<H>, D::V, S::V>>,
    hashes: Map<UnitCoord, HashOf<H>>,
    list: Seq<HashOf<H>>,
    parents: Seq<Option<HashOf<H>>>,
)
    requires
        unit.round() > 0,
        unit.n_members() <= usize::MAX,
        at_parents_coords(unit, units),
        hashes_by_creator::<H, D, S>(unit.n_members(), units, parents),
        forall|k: int|
            0 <= k < units.len() ==> {
                let coord = (#[trigger] units[k]).signable.coord();
                hashes.contains_key(coord) && hashes[coord] == units::unit_hash::<H, D>(
                    units[k].signable,
                )
            },
        list == parents::parent_coords(unit).map_values(|coord: UnitCoord| hashes[coord]),
    ensures
        parents::listed_parents(unit.pre_unit.control_hash.parents_mask, list) == parents,
        forall|i: int|
            0 <= i < parents::parent_coords(unit).len() ==> hashes.contains_key(
                #[trigger] parents::parent_coords(unit)[i],
            ),
{
    let mask = unit.pre_unit.control_hash.parents_mask;
    let coords = parents::parent_coords(unit);
    let listed = parents::listed_parents(mask, list);
    nodes::lemma_elements(mask);
    assert forall|i: int| 0 <= i < mask.len() implies #[trigger] listed[i] == parents[i] by {
        if mask[i] {
            lemma_place(mask, i);
            let place = nodes::elements(mask.take(i)).len() as int;
            let k = choose|k: int|
                0 <= k < units.len() && (#[trigger] units[k]).signable.pre_unit.coord.creator.0
                    == i;
            let coord = units[k].signable.pre_unit.coord;
            assert(coords[place].creator.0 == i);
            assert(coords[place].round == (unit.round() - 1) as Round);
            assert(coords[place] == coord);
            assert(list[place] == hashes[coord]);
        } else {
            if parents[i] is Some {
                let k = choose|k: int|
                    0 <= k < units.len() && (#[trigger] units[k]).signable.pre_unit.coord.creator.0
                        == i;
                assert(mask[units[k].signable.pre_unit.coord.creator.0 as int]);
            }
        }
    }
    assert(listed =~= parents);
    assert forall|i: int| 0 <= i < coords.len() implies hashes.contains_key(
        #[trigger] coords[i],
    ) by {
        let creator = nodes::elements(mask)[i];
        assert(nodes::elements(mask).contains(creator));
        assert(nodes::has(mask, creator));
        assert(mask[creator.0 as int]);
        let k = choose|k: int|
            0 <= k < units.len() && (#[trigger] units[k]).signable.pre_unit.coord.creator.0
                == creator.0;
        assert(coords[i] == units[k].signable.pre_unit.coord);
    }
}

/// A unit that is new to the order waits for a parent that is not placed, or is among those that
/// come out, before any other of its hash.
proof fn lemma_new_to_order<V>(state: OrderView<V>, unit: ReconstructedView<V>)
    requires
        laws::order_coherent(state),
        order::idle(state),
        !state.knows(unit.unit.hash),
    ensures
        ({
            let (after, placed) = order::all_added(state, seq![unit]);
            &&& after.knows(unit.unit.hash)
            &&& order::ready(after.placed, unit) ==> exists|j: int|
                0 <= j < placed.len() && #[trigger] placed[j] == unit && none_with_hash(
                    placed.take(j),
                    unit.unit.hash,
                )
        }),
{
    let hash = unit.unit.hash;
    let one = seq![unit];
    let allowed = Set::new(|other: ReconstructedView<V>| other.unit.hash != hash || other == unit);
    assert forall|i: int| 0 <= i < state.waiting.len() implies allowed.contains(
        #[trigger] state.waiting[i],
    ) by {}
    assert forall|i: int| 0 <= i < one.len() implies allowed.contains(#[trigger] one[i]) by {}
    laws::lemma_all_added_coherent(state, one, allowed);
    order::lemma_all_added(state, one);
    let (after, placed) = order::all_added(state, one);
    assert(one[0].unit.hash == hash);
    assert(after.knows(hash));
    if order::ready(after.placed, unit) {
        if !after.placed.contains(hash) {
            let i = choose|i: int|
                0 <= i < after.waiting.len() && (#[trigger] after.waiting[i]).unit.hash == hash;
            assert(allowed.contains(after.waiting[i]));
            assert(!order::ready(after.placed, after.waiting[i]));
        }
        assert(!state.placed.contains(hash));
        let j = choose|j: int| 0 <= j < placed.len() && (#[trigger] placed[j]).unit.hash == hash;
        assert(allowed.contains(placed[j]));
        assert(placed[j] == unit);
        let front = placed.take(j);
        assert forall|k: int| 0 <= k < front.len() implies (#[trigger] front[k]).unit.hash
            != hash by {
            assert(front[k] == placed[k]);
        }
    }
}

/// A unit waits for an explicit list of its parents. A response has exactly one unit at each of the
/// coordinates of its parents; all of them are valid and nothing speaks against them, and their
/// hashes combine to the unit's control hash. Then the unit has its parents: it is no longer in the
/// process of reconstruction but in the order, and as soon as all these parents have been placed, it
/// comes out, with them.
pub proof fn law_listed_parents_suffice<H: Hasher, D: Data, K: Keychain>(
    unit_validator: &UnitValidator<K>,
    state: DagView<HashOf<H>, D::V, SignatureOf<K>>,
    store: StoreView<HashOf<H>, DagUnitView<HashOf<H>, D::V, SignatureOf<K>>>,
    unit: UnitView<HashOf<H>>,
    signed: SignedUnitView<HashOf<H>, D::V, SignatureOf<K>>,
    units: Seq<SignedUnitView<HashOf<H>, D::V, SignatureOf<K>>>,
    parents: Seq<Option<HashOf<H>>>,
)
    requires
        coherent::<H, D, K::Signature>(state),
        order::idle(state.order),
        parents_apart::<H, D, K>(unit_validator, state, store, units),
        awaits_parents::<H, D, K::Signature>(state, unit, signed),
        unit.pre_unit.coord.round > 0,
        unit.pre_unit.control_hash.parents_mask.len() <= usize::MAX,
        at_parents_coords(unit, units),
        proper_response::<H, D, K>(unit_validator, state, store, units),
        hashes_by_creator::<H, D, K::Signature>(
            unit.pre_unit.control_hash.parents_mask.len(),
            units,
            parents,
        ),
        units::combined_hash::<H>(parents) == unit.pre_unit.control_hash.combined_hash,
    ensures
        ({
            let (after, result) = dag::parents_added::<H, D, K>(
                unit_validator,
                state,
                store,
                unit.hash,
                units,
            );
            let all_placed = forall|i: int|
                0 <= i < parents.len() && #[trigger] parents[i] is Some
                    ==> after.order.placed.contains(parents[i]->0);
            &&& !after.reconstruction.reconstructing.contains_key(unit.hash)
            &&& after.order.knows(unit.hash)
            &&& result.alerts.len() == 0
            &&& all_placed ==> result.units.contains(DagUnitView { unit: signed, parents })
        }),
{
    let hash = unit.hash;
    let n = units.len() as int;
    assert(units.take(n) =~= units);
    lemma_response_dealt_with::<H, D, K>(unit_validator, state, store, units, n, unit, signed);
    laws::lemma_parents_processed::<H, D, K>(unit_validator, state, store, units);
    let progress = dag::parents_processed::<H, D, K>(unit_validator, state, store, units);
    let coords = parents::parent_coords(unit);
    let list = coords.map_values(|coord: UnitCoord| progress.hashes[coord]);
    lemma_listed::<H, D, K::Signature>(unit, units, progress.hashes, list, parents);
    assert(dag::explicit_parents(progress.state.reconstruction, hash, progress.hashes) == Some(
        list,
    ));
    let found = ReconstructedView { unit, parents };
    let (reconstruction, reconstructed) = parents::parents_added::<H>(
        progress.state.reconstruction,
        hash,
        list,
    );
    assert(reconstructed.units =~= seq![found]);
    let start = DagView { reconstruction, ..progress.state };
    let (middle, more) = dag::ordered(start, reconstructed);
    lemma_new_to_order(progress.state.order, found);
    let placed = order::all_added(progress.state.order, seq![found]).1;
    let result = progress.result.and(more);
    laws::lemma_cleaned::<H, D, K::Signature>(middle, result.units);
    let after = dag::cleaned::<H, D, K::Signature>(middle, result.units);
    assert(dag::parents_added::<H, D, K>(unit_validator, state, store, hash, units) == (
        after,
        result,
    ));
    if forall|i: int|
        0 <= i < parents.len() && #[trigger] parents[i] is Some ==> after.order.placed.contains(
            parents[i]->0,
        ) {
        assert(order::ready(after.order.placed, found));
        let j = choose|j: int|
            0 <= j < placed.len() && #[trigger] placed[j] == found && none_with_hash(
                placed.take(j),
                hash,
            );
        lemma_signature_given_back(progress.state.signed, placed, j);
        let out = DagUnitView { unit: signed, parents };
        let k = choose|k: int| 0 <= k < more.units.len() && more.units[k] == out;
        assert(result.units[progress.result.units.len() + k] == out);
    }
}

/// A unit is in the process, at whatever stage, is not in the order yet and has its signature.
pub open spec fn under_reconstruction<H: Hasher, D: Data, S: Data>(
    state: DagView<HashOf<H>, D::V, S::V>,
    unit: UnitView<HashOf<H>>,
    signed: SignedUnitView<HashOf<H>, D::V, S::V>,
) -> bool {
    &&& state.reconstruction.reconstructing.contains_key(unit.hash)
    &&& state.reconstruction.reconstructing[unit.hash].unit() == unit
    &&& !state.order.knows(unit.hash)
    &&& state.signed.contains_key(unit.hash)
    &&& state.signed[unit.hash] == signed
}

/// Units that are valid and known already.
pub open spec fn all_known<H: Hasher, D: Data, K: Keychain>(
    unit_validator: &UnitValidator<K>,
    state: DagView<HashOf<H>, D::V, SignatureOf<K>>,
    store: StoreView<HashOf<H>, DagUnitView<HashOf<H>, D::V, SignatureOf<K>>>,
    units: Seq<SignedUnitView<HashOf<H>, D::V, SignatureOf<K>>>,
) -> bool {
    forall|k: int|
        0 <= k < units.len() ==> {
            let hash = units::unit_hash::<H, D>((#[trigger] units[k]).signable);
            &&& unit_validator.verdict::<H, D>(units[k]) is None
            &&& store.by_hash.contains_key(hash)
                || state.validator.processing.by_hash.contains_key(hash)
        }
}

proof fn lemma_known_dealt_with<H: Hasher, D: Data, K: Keychain>(
    unit_validator: &UnitValidator<K>,
    state: DagView<HashOf<H>, D::V, SignatureOf<K>>,
    store: StoreView<HashOf<H>, DagUnitView<HashOf<H>, D::V, SignatureOf<K>>>,
    units: Seq<SignedUnitView<HashOf<H>, D::V, SignatureOf<K>>>,
    n: int,
)
    requires
        0 <= n <= units.len(),
        all_known::<H, D, K>(unit_validator, state, store, units),
        forall|j: int, k: int|
            0 <= j < k < units.len() ==> (#[trigger] units[j]).signable.pre_unit.coord != (
            #[trigger] units[k]).signable.pre_unit.coord,
    ensures
        ({
            let progress = dag::parents_processed::<H, D, K>(
                unit_validator,
                state,
                store,
                units.take(n),
            );
            &&& !progress.stopped
            &&& progress.state == state
            &&& progress.result == DagResultView::<HashOf<H>, D::V, SignatureOf<K>>::nothing()
            &&& forall|k: int|
                0 <= k < n ==> {
                    let coord = (#[trigger] units[k]).signable.coord();
                    progress.hashes.contains_key(coord) && progress.hashes[coord]
                        == units::unit_hash::<H, D>(units[k].signable)
                }
        }),
    decreases n,
{
    let now = units.take(n);
    if n > 0 {
        let m = n - 1;
        lemma_known_dealt_with::<H, D, K>(unit_validator, state, store, units, m);
        assert(now.drop_last() =~= units.take(m));
        assert(now.last() == units[m]);
        let progress = dag::parents_processed::<H, D, K>(unit_validator, state, store, now);
        assert forall|k: int| 0 <= k < n implies {
            let coord = (#[trigger] units[k]).signable.coord();
            progress.hashes.contains_key(coord) && progress.hashes[coord] == units::unit_hash::<
                H,
                D,
            >(units[k].signable)
        } by {
            if k < m {
                assert(units[k].signable.pre_unit.coord != units[m].signable.pre_unit.coord);
            }
        }
    } else {
        assert(now =~= seq![]);
    }
}

/// The parents of a unit in reconstruction are listed in a response, one at each of their
/// coordinates; all of them are valid and known already, and their hashes combine to the unit's
/// control hash. Then the unit is no longer in reconstruction but in the order, and it comes out at
/// once, with these parents, if all of them have been placed.
pub proof fn law_known_listed_parents_suffice<H: Hasher, D: Data, K: Keychain>(
    unit_validator: &UnitValidator<K>,
    state: DagView<HashOf<H>, D::V, SignatureOf<K>>,
    store: StoreView<HashOf<H>, DagUnitView<HashOf<H>, D::V, SignatureOf<K>>>,
    unit: UnitView<HashOf<H>>,
    signed: SignedUnitView<HashOf<H>, D::V, SignatureOf<K>>,
    units: Seq<SignedUnitView<HashOf<H>, D::V, SignatureOf<K>>>,
    parents: Seq<Option<HashOf<H>>>,
)
    requires
        laws::order_coherent(state.order),
        order::idle(state.order),
        under_reconstruction::<H, D, K::Signature>(state, unit, signed),
        unit.pre_unit.coord.round > 0,
        unit.pre_unit.control_hash.parents_mask.len() <= usize::MAX,
        at_parents_coords(unit, units),
        all_known::<H, D, K>(unit_validator, state, store, units),
        hashes_by_creator::<H, D, K::Signature>(
            unit.pre_unit.control_hash.parents_mask.len(),
            units,
            parents,
        ),
        units::combined_hash::<H>(parents) == unit.pre_unit.control_hash.combined_hash,
    ensures
        ({
            let (after, result) = dag::parents_added::<H, D, K>(
                unit_validator,
                state,
                store,
                unit.hash,
                units,
            );
            let all_placed = forall|i: int|
                0 <= i < parents.len() && #[trigger] parents[i] is Some
                    ==> after.order.placed.contains(parents[i]->0);
            &&& !after.reconstruction.reconstructing.contains_key(unit.hash)
            &&& after.order.knows(unit.hash)
            &&& forall|hash: HashOf<H>| #[trigger]
                state.order.placed.contains(hash) ==> after.order.placed.contains(hash)
            &&& result.alerts.len() == 0
            &&& all_placed ==> result.units.contains(DagUnitView { unit: signed, parents })
        }),
{
    let hash = unit.hash;
    let n = units.len() as int;
    assert(units.take(n) =~= units);
    lemma_known_dealt_with::<H, D, K>(unit_validator, state, store, units, n);
    let progress = dag::parents_processed::<H, D, K>(unit_validator, state, store, units);
    let coords = parents::parent_coords(unit);
    let list = coords.map_values(|coord: UnitCoord| progress.hashes[coord]);
    lemma_listed::<H, D, K::Signature>(unit, units, progress.hashes, list, parents);
    assert(dag::explicit_parents(state.reconstruction, hash, progress.hashes) == Some(list));
    let found = ReconstructedView { unit, parents };
    let (reconstruction, reconstructed) = parents::parents_added::<H>(
        state.reconstruction,
        hash,
        list,
    );
    assert(reconstructed.units =~= seq![found]);
    let (middle, more) = dag::ordered(DagView { reconstruction, ..state }, reconstructed);
    lemma_new_to_order(state.order, found);
    lemma_placed_stays(state.order, seq![found]);
    let placed = order::all_added(state.order, seq![found]).1;
    let result = progress.result.and(more);
    assert(result.units =~= more.units);
    laws::lemma_cleaned::<H, D, K::Signature>(middle, result.units);
    let after = dag::cleaned::<H, D, K::Signature>(middle, result.units);
    assert(dag::parents_added::<H, D, K>(unit_validator, state, store, hash, units) == (
        after,
        result,
    ));
    if forall|i: int|
        0 <= i < parents.len() && #[trigger] parents[i] is Some ==> after.order.placed.contains(
            parents[i]->0,
        ) {
        assert(order::ready(after.order.placed, found));
        let j = choose|j: int|
            0 <= j < placed.len() && #[trigger] placed[j] == found && none_with_hash(
                placed.take(j),
                hash,
            );
        lemma_signature_given_back(state.signed, placed, j);
    }
}

/// Placed units stay placed.
proof fn lemma_placed_stays<V>(state: OrderView<V>, units: Seq<ReconstructedView<V>>)
    requires
        laws::order_coherent(state),
    ensures
        forall|hash: V| #[trigger]
            state.placed.contains(hash) ==> order::all_added(state, units).0.placed.contains(hash),
{
    let anything = Set::new(|unit: ReconstructedView<V>| true);
    laws::lemma_all_added_coherent(state, units, anything);
}

} // verus!
