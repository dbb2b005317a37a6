//! What can be relied on when the parents of units are reconstructed.
use crate::crypto::{HashOf, Hasher};
use crate::nodes;
use crate::nodes::{NodeIndex, Round};
use crate::reconstruction;
use crate::reconstruction::parents;
use crate::reconstruction::parents::{
    ReconstructingView, ReconstructionView, RequestView, ResultView,
};
use crate::reconstruction::ReconstructedView;
use crate::units::{UnitCoord, UnitView};
use vstd::prelude::*;

verus! {

/// The parents that a unit was given are its parents: they match its control hash, or it is an
/// initial unit and has none.
pub open spec fn correctly_reconstructed<H: Hasher>(unit: ReconstructedView<HashOf<H>>) -> bool {
    ||| reconstruction::parents_match::<H>(unit.unit, unit.parents)
    ||| unit.unit.round() == 0 && unit.parents == nodes::empty::<HashOf<H>>(unit.unit.n_members())
}

/// All the units of a result are correctly reconstructed.
pub open spec fn all_correct<H: Hasher>(result: ResultView<HashOf<H>>) -> bool {
    forall|i: int|
        0 <= i < result.units.len() ==> #[trigger] correctly_reconstructed::<H>(result.units[i])
}

proof fn lemma_known_correct<H: Hasher>(
    state: ReconstructionView<HashOf<H>>,
    children: Seq<HashOf<H>>,
    parent_id: NodeIndex,
    parent_hash: HashOf<H>,
)
    ensures
        all_correct::<H>(
            parents::parent_known_to_all::<H>(state, children, parent_id, parent_hash).1,
        ),
    decreases children.len(),
{
    if children.len() > 0 {
        lemma_known_correct::<H>(state, children.drop_last(), parent_id, parent_hash);
    }
}

proof fn lemma_sought_correct<H: Hasher>(
    state: ReconstructionView<HashOf<H>>,
    hash: HashOf<H>,
    coords: Seq<UnitCoord>,
)
    ensures
        all_correct::<H>(parents::parents_sought::<H>(state, hash, coords).1),
    decreases coords.len(),
{
    if coords.len() > 0 {
        lemma_sought_correct::<H>(state, hash, coords.drop_last());
    }
}

/// Whatever is added, the units that come out are correctly reconstructed.
pub proof fn law_reconstructed_units_match<H: Hasher>(
    state: ReconstructionView<HashOf<H>>,
    unit: UnitView<HashOf<H>>,
    hash: HashOf<H>,
    parent_hashes: Seq<HashOf<H>>,
)
    ensures
        all_correct::<H>(parents::unit_added::<H>(state, unit).1),
        all_correct::<H>(parents::parents_added::<H>(state, hash, parent_hashes).1),
{
    let known = state.with_coord(unit.coord(), unit.hash).without_waiting(unit.coord());
    let children = state.children(unit.coord());
    lemma_known_correct::<H>(known, children, unit.creator(), unit.hash);
    let told = parents::parent_known_to_all::<H>(known, children, unit.creator(), unit.hash).0;
    let started = ReconstructingView::Reconstructing(unit, nodes::empty(unit.n_members()));
    lemma_sought_correct::<H>(
        told.with_reconstructing(unit.hash, started),
        unit.hash,
        parents::parent_coords(unit),
    );
}

/// Every unit in the process is kept under its hash.
pub open spec fn keyed<V>(state: ReconstructionView<V>) -> bool {
    forall|hash: V| #[trigger]
        state.reconstructing.contains_key(hash) ==> state.reconstructing[hash].unit().hash == hash
}

/// A unit with the given hash comes out.
pub open spec fn came_out<V>(units: Seq<ReconstructedView<V>>, hash: V) -> bool {
    exists|k: int| 0 <= k < units.len() && (#[trigger] units[k]).unit.hash == hash
}

/// The units in the process stay the same, some may have left and come out, and those that come out
/// were in the process.
pub open spec fn only_leaves<V>(
    before: ReconstructionView<V>,
    after: ReconstructionView<V>,
    units: Seq<ReconstructedView<V>>,
) -> bool {
    &&& forall|hash: V| #[trigger]
        after.reconstructing.contains_key(hash) ==> before.reconstructing.contains_key(hash)
            && after.reconstructing[hash].unit() == before.reconstructing[hash].unit()
    &&& forall|k: int|
        0 <= k < units.len() ==> before.reconstructing.contains_key(
            (#[trigger] units[k]).unit.hash,
        ) && before.reconstructing[units[k].unit.hash].unit() == units[k].unit
    &&& forall|hash: V| #[trigger]
        before.reconstructing.contains_key(hash) && !after.reconstructing.contains_key(hash)
            ==> came_out(units, hash)
}

proof fn lemma_known_leaves<H: Hasher>(
    state: ReconstructionView<HashOf<H>>,
    children: Seq<HashOf<H>>,
    parent_id: NodeIndex,
    parent_hash: HashOf<H>,
)
    requires
        keyed(state),
    ensures
        ({
            let (after, result) = parents::parent_known_to_all::<H>(
                state,
                children,
                parent_id,
                parent_hash,
            );
            &&& keyed(after)
            &&& only_leaves(state, after, result.units)
        }),
    decreases children.len(),
{
    if children.len() > 0 {
        let rest = children.drop_last();
        lemma_known_leaves::<H>(state, rest, parent_id, parent_hash);
        let (middle, so_far) = parents::parent_known_to_all::<H>(
            state,
            rest,
            parent_id,
            parent_hash,
        );
        let (after, result) = parents::parent_known_to_all::<H>(
            state,
            children,
            parent_id,
            parent_hash,
        );
        let more = parents::parent_known::<H>(middle, children.last(), parent_id, parent_hash).1;
        lemma_one_leaves::<H>(middle, children.last(), parent_id, parent_hash);
        lemma_leaves_together(state, middle, so_far.units, after, more.units);
    }
}

proof fn lemma_one_leaves<H: Hasher>(
    state: ReconstructionView<HashOf<H>>,
    child: HashOf<H>,
    parent_id: NodeIndex,
    parent_hash: HashOf<H>,
)
    requires
        keyed(state),
    ensures
        ({
            let (after, result) = parents::parent_known::<H>(state, child, parent_id, parent_hash);
            &&& keyed(after)
            &&& only_leaves(state, after, result.units)
        }),
{
    let (after, result) = parents::parent_known::<H>(state, child, parent_id, parent_hash);
    assert forall|hash: HashOf<H>| #[trigger]
        state.reconstructing.contains_key(hash) && !after.reconstructing.contains_key(
            hash,
        ) implies came_out(result.units, hash) by {
        assert(result.units[0].unit.hash == hash);
    }
}

proof fn lemma_leaves_together<V>(
    before: ReconstructionView<V>,
    middle: ReconstructionView<V>,
    first: Seq<ReconstructedView<V>>,
    after: ReconstructionView<V>,
    second: Seq<ReconstructedView<V>>,
)
    requires
        only_leaves(before, middle, first),
        only_leaves(middle, after, second),
    ensures
        only_leaves(before, after, first + second),
{
    let units = first + second;
    assert forall|k: int| 0 <= k < units.len() implies before.reconstructing.contains_key(
        (#[trigger] units[k]).unit.hash,
    ) && before.reconstructing[units[k].unit.hash].unit() == units[k].unit by {
        if k < first.len() {
            assert(units[k] == first[k]);
        } else {
            assert(units[k] == second[k - first.len()]);
        }
    }
    assert forall|hash: V| #[trigger]
        before.reconstructing.contains_key(hash) && !after.reconstructing.contains_key(
            hash,
        ) implies came_out(units, hash) by {
        if middle.reconstructing.contains_key(hash) {
            let k = choose|k: int|
                0 <= k < second.len() && (#[trigger] second[k]).unit.hash == hash;
            assert(units[k + first.len()].unit.hash == hash);
        } else {
            let k = choose|k: int| 0 <= k < first.len() && (#[trigger] first[k]).unit.hash == hash;
            assert(units[k].unit.hash == hash);
        }
    }
}

proof fn lemma_sought_leaves<H: Hasher>(
    state: ReconstructionView<HashOf<H>>,
    hash: HashOf<H>,
    coords: Seq<UnitCoord>,
)
    requires
        keyed(state),
    ensures
        ({
            let (after, result) = parents::parents_sought::<H>(state, hash, coords);
            &&& keyed(after)
            &&& only_leaves(state, after, result.units)
        }),
    decreases coords.len(),
{
    if coords.len() > 0 {
        let rest = coords.drop_last();
        lemma_sought_leaves::<H>(state, hash, rest);
        let (middle, so_far) = parents::parents_sought::<H>(state, hash, rest);
        let (after, result) = parents::parents_sought::<H>(state, hash, coords);
        let coord = coords.last();
        if middle.by_coord.contains_key(coord) {
            lemma_one_leaves::<H>(middle, hash, coord.creator, middle.by_coord[coord]);
            let more = parents::parent_known::<H>(
                middle,
                hash,
                coord.creator,
                middle.by_coord[coord],
            ).1;
            lemma_leaves_together(state, middle, so_far.units, after, more.units);
        } else {
            let none: Seq<ReconstructedView<HashOf<H>>> = seq![];
            assert(only_leaves(middle, after, none));
            lemma_leaves_together(state, middle, so_far.units, after, none);
        }
    }
}

/// The unit with the given hash that is in the process, or the given one.
pub open spec fn in_process<V>(
    state: ReconstructionView<V>,
    unit: UnitView<V>,
    found: UnitView<V>,
) -> bool {
    ||| found == unit
    ||| state.reconstructing.contains_key(found.hash) && state.reconstructing[found.hash].unit()
        == found
}

pub proof fn lemma_unit_added<H: Hasher>(
    state: ReconstructionView<HashOf<H>>,
    unit: UnitView<HashOf<H>>,
)
    requires
        keyed(state),
    ensures
        ({
            let (after, result) = parents::unit_added::<H>(state, unit);
            &&& keyed(after)
            &&& forall|hash: HashOf<H>| #[trigger]
                after.reconstructing.contains_key(hash) ==> in_process(
                    state,
                    unit,
                    after.reconstructing[hash].unit(),
                )
            &&& forall|k: int|
                0 <= k < result.units.len() ==> in_process(
                    state,
                    unit,
                    (#[trigger] result.units[k]).unit,
                )
            &&& forall|hash: HashOf<H>|
                (state.reconstructing.contains_key(hash) || hash == unit.hash)
                    && !#[trigger] after.reconstructing.contains_key(hash) ==> came_out(
                    result.units,
                    hash,
                )
        }),
{
    if !state.reconstructing.contains_key(unit.hash) {
        let known = state.with_coord(unit.coord(), unit.hash).without_waiting(unit.coord());
        let children = state.children(unit.coord());
        lemma_known_leaves::<H>(known, children, unit.creator(), unit.hash);
        let (told, first) = parents::parent_known_to_all::<H>(
            known,
            children,
            unit.creator(),
            unit.hash,
        );
        let (after, result) = parents::unit_added::<H>(state, unit);
        assert forall|hash: HashOf<H>| state.reconstructing.contains_key(hash)
            && !#[trigger] told.reconstructing.contains_key(hash) implies came_out(
            result.units,
            hash,
        ) by {
            assert(known.reconstructing.contains_key(hash));
            let k = choose|k: int|
                0 <= k < first.units.len() && (#[trigger] first.units[k]).unit.hash == hash;
            assert(result.units[k].unit.hash == hash);
        }
        if unit.round() == 0 {
            assert(result.units[first.units.len() as int].unit.hash == unit.hash);
            assert forall|k: int| 0 <= k < result.units.len() implies in_process(
                state,
                unit,
                (#[trigger] result.units[k]).unit,
            ) by {
                if k < first.units.len() {
                    assert(result.units[k] == first.units[k]);
                }
            }
        } else {
            let started = told.with_reconstructing(
                unit.hash,
                ReconstructingView::Reconstructing(unit, nodes::empty(unit.n_members())),
            );
            lemma_sought_leaves::<H>(started, unit.hash, parents::parent_coords(unit));
            let more = parents::parents_sought::<H>(
                started,
                unit.hash,
                parents::parent_coords(unit),
            ).1;
            assert forall|k: int| 0 <= k < result.units.len() implies in_process(
                state,
                unit,
                (#[trigger] result.units[k]).unit,
            ) by {
                if k < first.units.len() {
                    assert(result.units[k] == first.units[k]);
                } else {
                    let u = more.units[k - first.units.len()];
                    assert(result.units[k] == u);
                    assert(started.reconstructing.contains_key(u.unit.hash));
                }
            }
            assert forall|hash: HashOf<H>| #[trigger]
                after.reconstructing.contains_key(hash) implies in_process(
                state,
                unit,
                after.reconstructing[hash].unit(),
            ) by {
                assert(started.reconstructing.contains_key(hash));
            }
            assert forall|hash: HashOf<H>|
                (state.reconstructing.contains_key(hash) || hash == unit.hash)
                    && !#[trigger] after.reconstructing.contains_key(hash) implies came_out(
                result.units,
                hash,
            ) by {
                if started.reconstructing.contains_key(hash) {
                    let k = choose|k: int|
                        0 <= k < more.units.len() && (#[trigger] more.units[k]).unit.hash == hash;
                    assert(result.units[k + first.units.len()].unit.hash == hash);
                } else {
                    assert(!told.reconstructing.contains_key(hash));
                }
            }
        }
    }
}

/// Adding a unit that is already being reconstructed does nothing.
pub proof fn law_duplicate_ignored<H: Hasher>(
    state: ReconstructionView<HashOf<H>>,
    unit: UnitView<HashOf<H>>,
)
    requires
        state.reconstructing.contains_key(unit.hash),
    ensures
        parents::unit_added::<H>(state, unit) == (state, ResultView::<HashOf<H>>::nothing()),
{
}

/// An initial unit comes out at once, behind the units that it completes, and nothing is requested
/// for it.
pub proof fn law_initial_unit_at_once<H: Hasher>(
    state: ReconstructionView<HashOf<H>>,
    unit: UnitView<HashOf<H>>,
)
    requires
        unit.round() == 0,
        !state.reconstructing.contains_key(unit.hash),
    ensures
        parents::unit_added::<H>(state, unit).1.units.len() > 0,
        parents::unit_added::<H>(state, unit).1.units.last() == (ReconstructedView {
            unit,
            parents: nodes::empty::<HashOf<H>>(unit.n_members()),
        }),
{
}

/// Telling units of a parent changes nothing but the units that were told.
proof fn lemma_known_elsewhere<H: Hasher>(
    state: ReconstructionView<HashOf<H>>,
    children: Seq<HashOf<H>>,
    parent_id: NodeIndex,
    parent_hash: HashOf<H>,
)
    ensures
        ({
            let after = parents::parent_known_to_all::<H>(
                state,
                children,
                parent_id,
                parent_hash,
            ).0;
            &&& after.by_coord == state.by_coord
            &&& after.waiting == state.waiting
            &&& forall|hash: HashOf<H>|
                #![trigger after.reconstructing.contains_key(hash)]
                #![trigger after.reconstructing[hash]]
                {
                    &&& after.reconstructing.contains_key(hash)
                        ==> state.reconstructing.contains_key(hash)
                    &&& !children.contains(hash) ==> after.reconstructing.contains_key(hash)
                        == state.reconstructing.contains_key(hash) && after.reconstructing[hash]
                        == state.reconstructing[hash]
                }
        }),
    decreases children.len(),
{
    if children.len() > 0 {
        let rest = children.drop_last();
        lemma_known_elsewhere::<H>(state, rest, parent_id, parent_hash);
        let before = parents::parent_known_to_all::<H>(state, rest, parent_id, parent_hash).0;
        let after = parents::parent_known_to_all::<H>(state, children, parent_id, parent_hash).0;
        assert(after == parents::parent_known::<H>(
            before,
            children.last(),
            parent_id,
            parent_hash,
        ).0);
        assert(children.contains(children.last()));
        assert forall|hash: HashOf<H>|
            #![trigger after.reconstructing.contains_key(hash)]
            #![trigger after.reconstructing[hash]]
            {
                &&& after.reconstructing.contains_key(hash)
                    ==> state.reconstructing.contains_key(hash)
                &&& !children.contains(hash) ==> after.reconstructing.contains_key(hash)
                    == state.reconstructing.contains_key(hash) && after.reconstructing[hash]
                    == state.reconstructing[hash]
            } by {
            assert(before.reconstructing.contains_key(hash)
                ==> state.reconstructing.contains_key(hash));
            if !children.contains(hash) {
                if rest.contains(hash) {
                    let i = choose|i: int| 0 <= i < rest.len() && rest[i] == hash;
                    assert(children[i] == hash);
                }
                assert(hash != children.last());
            }
        }
    }
}

/// The first `k` parents of a unit, with the hashes that are known at their coordinates.
pub open spec fn first_parents<V>(
    by_coord: Map<UnitCoord, V>,
    unit: UnitView<V>,
    k: int,
) -> Seq<Option<V>>
    decreases k,
{
    if k <= 0 {
        nodes::empty(unit.n_members())
    } else {
        first_parents(by_coord, unit, k - 1).update(
            unit.parents()[k - 1].0 as int,
            Some(by_coord[parents::parent_coords(unit)[k - 1]]),
        )
    }
}

/// The parents of a unit, if the units known first at their coordinates are meant.
pub open spec fn known_parents<V>(by_coord: Map<UnitCoord, V>, unit: UnitView<V>) -> Seq<
    Option<V>,
> {
    Seq::new(
        unit.n_members(),
        |i: int|
            if nodes::has(unit.pre_unit.control_hash.parents_mask, NodeIndex(i as usize)) {
                Some(
                    by_coord[UnitCoord {
                        round: (unit.round() - 1) as Round,
                        creator: NodeIndex(i as usize),
                    }],
                )
            } else {
                None
            },
    )
}

proof fn lemma_first_parents<V>(by_coord: Map<UnitCoord, V>, unit: UnitView<V>, k: int)
    requires
        0 <= k <= unit.parents().len(),
        unit.n_members() <= usize::MAX,
    ensures
        first_parents(by_coord, unit, k).len() == unit.n_members(),
        nodes::present(first_parents(by_coord, unit, k)).len() == k,
        forall|i: int|
            0 <= i < unit.n_members() ==> #[trigger] first_parents(by_coord, unit, k)[i] == (
            if exists|j: int| 0 <= j < k && (#[trigger] unit.parents()[j]).0 == i {
                Some(
                    by_coord[UnitCoord {
                        round: (unit.round() - 1) as Round,
                        creator: NodeIndex(i as usize),
                    }],
                )
            } else {
                None
            }),
    decreases k,
{
    let mask = unit.pre_unit.control_hash.parents_mask;
    nodes::lemma_elements(mask);
    if k == 0 {
        nodes::lemma_empty_present::<V>(unit.n_members());
    } else {
        lemma_first_parents(by_coord, unit, k - 1);
        let before = first_parents(by_coord, unit, k - 1);
        let p = unit.parents()[k - 1];
        let v = by_coord[parents::parent_coords(unit)[k - 1]];
        assert(before[p.0 as int] is None) by {
            if exists|j: int| 0 <= j < k - 1 && (#[trigger] unit.parents()[j]).0 == p.0 {
                let j = choose|j: int| 0 <= j < k - 1 && (#[trigger] unit.parents()[j]).0 == p.0;
                assert(unit.parents()[j].0 < unit.parents()[k - 1].0);
            }
        }
        nodes::lemma_present_update(before, p.0 as int, v);
        let after = first_parents(by_coord, unit, k);
        assert forall|i: int| 0 <= i < unit.n_members() implies #[trigger] after[i] == (if exists|
            j: int,
        |
            0 <= j < k && (#[trigger] unit.parents()[j]).0 == i {
            Some(
                by_coord[UnitCoord {
                    round: (unit.round() - 1) as Round,
                    creator: NodeIndex(i as usize),
                }],
            )
        } else {
            None
        }) by {
            if i == p.0 {
                assert(unit.parents()[k - 1].0 == i);
            } else {
                assert(after[i] == before[i]);
                if exists|j: int| 0 <= j < k - 1 && (#[trigger] unit.parents()[j]).0 == i {
                    let j = choose|j: int| 0 <= j < k - 1 && (#[trigger] unit.parents()[j]).0 == i;
                    assert(0 <= j < k);
                }
            }
        }
    }
}

proof fn lemma_known_parents<V>(by_coord: Map<UnitCoord, V>, unit: UnitView<V>)
    requires
        unit.n_members() <= usize::MAX,
    ensures
        first_parents(by_coord, unit, unit.parents().len() as int) == known_parents(by_coord, unit),
{
    let mask = unit.pre_unit.control_hash.parents_mask;
    let k = unit.parents().len() as int;
    nodes::lemma_elements(mask);
    lemma_first_parents(by_coord, unit, k);
    let first = first_parents(by_coord, unit, k);
    assert forall|i: int| 0 <= i < unit.n_members() implies #[trigger] first[i] == known_parents(
        by_coord,
        unit,
    )[i] by {
        let index = NodeIndex(i as usize);
        if nodes::has(mask, index) {
            assert(unit.parents().contains(index));
            let j = choose|j: int| 0 <= j < unit.parents().len() && unit.parents()[j] == index;
            assert(unit.parents()[j].0 == i);
        } else {
            assert(!unit.parents().contains(index));
            if exists|j: int| 0 <= j < k && (#[trigger] unit.parents()[j]).0 == i {
                let j = choose|j: int| 0 <= j < k && (#[trigger] unit.parents()[j]).0 == i;
                assert(unit.parents()[j] == index);
            }
        }
    }
    assert(first =~= known_parents(by_coord, unit));
}

/// While not all the parents are known, a unit collects them.
proof fn lemma_sought_in_order<H: Hasher>(
    state: ReconstructionView<HashOf<H>>,
    unit: UnitView<HashOf<H>>,
    k: int,
)
    requires
        0 <= k < unit.parents().len(),
        unit.n_members() <= usize::MAX,
        state.reconstructing.contains_key(unit.hash),
        state.reconstructing[unit.hash] == ReconstructingView::Reconstructing(
            unit,
            nodes::empty::<HashOf<H>>(unit.n_members()),
        ),
        forall|i: int|
            0 <= i < unit.parents().len() ==> state.by_coord.contains_key(
                #[trigger] parents::parent_coords(unit)[i],
            ),
    ensures
        ({
            let (after, result) = parents::parents_sought::<H>(
                state,
                unit.hash,
                parents::parent_coords(unit).take(k),
            );
            &&& result == ResultView::<HashOf<H>>::nothing()
            &&& after.by_coord == state.by_coord
            &&& after.reconstructing.contains_key(unit.hash)
            &&& after.reconstructing[unit.hash] == ReconstructingView::Reconstructing(
                unit,
                first_parents(state.by_coord, unit, k),
            )
        }),
    decreases k,
{
    let coords = parents::parent_coords(unit);
    if k > 0 {
        lemma_sought_in_order::<H>(state, unit, k - 1);
        assert(coords.take(k).drop_last() =~= coords.take(k - 1));
        assert(coords.take(k).last() == coords[k - 1]);
        lemma_first_parents(state.by_coord, unit, k);
        assert(ResultView::<HashOf<H>>::nothing().and(ResultView::nothing()) =~= ResultView::<
            HashOf<H>,
        >::nothing());
    }
}

/// A unit whose parents are all known already comes out at once if the units known first at their
/// coordinates match its control hash; otherwise the list of its parents is requested.
pub proof fn law_known_parents_at_once<H: Hasher>(
    state: ReconstructionView<HashOf<H>>,
    unit: UnitView<HashOf<H>>,
)
    requires
        unit.round() > 0,
        unit.parents().len() > 0,
        unit.n_members() <= usize::MAX,
        !state.reconstructing.contains_key(unit.hash),
        forall|i: int|
            0 <= i < unit.parents().len() ==> state.by_coord.contains_key(
                #[trigger] parents::parent_coords(unit)[i],
            ),
    ensures
        ({
            let found = known_parents(state.by_coord, unit);
            let (after, result) = parents::unit_added::<H>(state, unit);
            if reconstruction::parents_match::<H>(unit, found) {
                &&& !after.reconstructing.contains_key(unit.hash)
                &&& result.units.len() > 0
                &&& result.units.last() == (ReconstructedView { unit, parents: found })
            } else {
                &&& after.reconstructing.contains_key(unit.hash)
                &&& after.reconstructing[unit.hash] == ReconstructingView::WaitingForParents(unit)
                &&& result.requests.len() > 0
                &&& result.requests.last() == RequestView::ParentsOf(unit.hash)
            }
        }),
{
    let coords = parents::parent_coords(unit);
    let known = state.with_coord(unit.coord(), unit.hash).without_waiting(unit.coord());
    let children = state.children(unit.coord());
    lemma_known_elsewhere::<H>(known, children, unit.creator(), unit.hash);
    let told = parents::parent_known_to_all::<H>(known, children, unit.creator(), unit.hash).0;
    let started = told.with_reconstructing(
        unit.hash,
        ReconstructingView::Reconstructing(unit, nodes::empty(unit.n_members())),
    );
    let k = unit.parents().len() as int;
    assert forall|i: int| 0 <= i < unit.parents().len() implies started.by_coord.contains_key(
        #[trigger] coords[i],
    ) && started.by_coord[coords[i]] == state.by_coord[coords[i]] by {
        assert(state.by_coord.contains_key(coords[i]));
        assert(coords[i] != unit.coord());
    }
    lemma_sought_in_order::<H>(started, unit, k - 1);
    assert(coords.take(k) =~= coords);
    assert(coords.drop_last() =~= coords.take(k - 1));
    lemma_first_parents(started.by_coord, unit, k);
    lemma_known_parents(started.by_coord, unit);
    assert(known_parents(started.by_coord, unit) =~= known_parents(state.by_coord, unit)) by {
        nodes::lemma_elements(unit.pre_unit.control_hash.parents_mask);
        assert forall|i: int| 0 <= i < unit.n_members() implies #[trigger] known_parents(
            started.by_coord,
            unit,
        )[i] == known_parents(state.by_coord, unit)[i] by {
            let index = NodeIndex(i as usize);
            if nodes::has(unit.pre_unit.control_hash.parents_mask, index) {
                assert(unit.parents().contains(index));
                let j = choose|j: int| 0 <= j < unit.parents().len() && unit.parents()[j] == index;
                assert(coords[j].creator == index);
            }
        }
    }
}

proof fn lemma_sought_requests<H: Hasher>(
    state: ReconstructionView<HashOf<H>>,
    hash: HashOf<H>,
    coords: Seq<UnitCoord>,
)
    ensures
        ({
            let (after, result) = parents::parents_sought::<H>(state, hash, coords);
            &&& after.by_coord == state.by_coord
            &&& forall|i: int|
                0 <= i < coords.len() && !state.by_coord.contains_key(#[trigger] coords[i]) ==> {
                    &&& result.requests.contains(RequestView::Coord(coords[i]))
                    &&& after.children(coords[i]).contains(hash)
                }
        }),
    decreases coords.len(),
{
    if coords.len() > 0 {
        let rest = coords.drop_last();
        lemma_sought_requests::<H>(state, hash, rest);
        let (before, so_far) = parents::parents_sought::<H>(state, hash, rest);
        let (after, result) = parents::parents_sought::<H>(state, hash, coords);
        let coord = coords.last();
        assert forall|i: int|
            0 <= i < coords.len() && !state.by_coord.contains_key(#[trigger] coords[i]) implies {
            &&& result.requests.contains(RequestView::Coord(coords[i]))
            &&& after.children(coords[i]).contains(hash)
        } by {
            if i < rest.len() {
                assert(rest[i] == coords[i]);
                let wanted = RequestView::<HashOf<H>>::Coord(coords[i]);
                let j = choose|j: int| 0 <= j < so_far.requests.len() && so_far.requests[j]
                    == wanted;
                assert(result.requests[j] == wanted);
                let old_children = before.children(coords[i]);
                let m = choose|m: int| 0 <= m < old_children.len() && old_children[m] == hash;
                assert(after.children(coords[i])[m] == hash);
            } else {
                let old_children = before.children(coord);
                assert(after == before.with_waiting(coord, hash));
                assert(after.children(coord)[old_children.len() as int] == hash);
                assert(result.requests[so_far.requests.len() as int] == RequestView::<
                    HashOf<H>,
                >::Coord(coord));
            }
        }
    }
}

/// Every parent of a new unit that is not known at its coordinates is requested, and the unit
/// waits for it.
pub proof fn law_missing_parents_requested<H: Hasher>(
    state: ReconstructionView<HashOf<H>>,
    unit: UnitView<HashOf<H>>,
    i: int,
)
    requires
        unit.round() > 0,
        !state.reconstructing.contains_key(unit.hash),
        0 <= i < unit.parents().len(),
        !state.by_coord.contains_key(parents::parent_coords(unit)[i]),
    ensures
        ({
            let coord = parents::parent_coords(unit)[i];
            let (after, result) = parents::unit_added::<H>(state, unit);
            &&& result.requests.contains(RequestView::Coord(coord))
            &&& after.children(coord).contains(unit.hash)
        }),
{
    let coords = parents::parent_coords(unit);
    let known = state.with_coord(unit.coord(), unit.hash).without_waiting(unit.coord());
    let children = state.children(unit.coord());
    lemma_known_elsewhere::<H>(known, children, unit.creator(), unit.hash);
    let (told, first) = parents::parent_known_to_all::<H>(
        known,
        children,
        unit.creator(),
        unit.hash,
    );
    let started = told.with_reconstructing(
        unit.hash,
        ReconstructingView::Reconstructing(unit, nodes::empty(unit.n_members())),
    );
    assert(coords[i] != unit.coord());
    lemma_sought_requests::<H>(started, unit.hash, coords);
    let (after, more) = parents::parents_sought::<H>(started, unit.hash, coords);
    let wanted = RequestView::<HashOf<H>>::Coord(coords[i]);
    let j = choose|j: int| 0 <= j < more.requests.len() && more.requests[j] == wanted;
    assert(parents::unit_added::<H>(state, unit).1.requests[first.requests.len() + j] == wanted);
}

/// The waiting unit that learns of its last parent comes out, if the parents match.
proof fn lemma_last_parent<H: Hasher>(
    state: ReconstructionView<HashOf<H>>,
    children: Seq<HashOf<H>>,
    c: int,
    parent_id: NodeIndex,
    parent_hash: HashOf<H>,
    found: ReconstructedView<HashOf<H>>,
)
    requires
        0 <= c < children.len(),
        forall|d: int| 0 <= d < children.len() && d != c ==> #[trigger] children[d] != children[c],
        state.reconstructing.contains_key(children[c]),
        parents::with_parent::<H>(state.reconstructing[children[c]], parent_id, parent_hash)
            == parents::SingleParentView::<HashOf<H>>::Reconstructed(found),
    ensures
        parents::parent_known_to_all::<H>(
            state,
            children,
            parent_id,
            parent_hash,
        ).1.units.contains(found),
    decreases children.len(),
{
    let rest = children.drop_last();
    let (before, so_far) = parents::parent_known_to_all::<H>(state, rest, parent_id, parent_hash);
    let result = parents::parent_known_to_all::<H>(state, children, parent_id, parent_hash).1;
    if c == children.len() - 1 {
        lemma_known_elsewhere::<H>(state, rest, parent_id, parent_hash);
        if rest.contains(children[c]) {
            let d = choose|d: int| 0 <= d < rest.len() && rest[d] == children[c];
            assert(children[d] == children[c]);
        }
        assert(before.reconstructing[children[c]] == state.reconstructing[children[c]]);
        assert(result.units[so_far.units.len() as int] == found);
    } else {
        assert(rest[c] == children[c]);
        assert forall|d: int| 0 <= d < rest.len() && d != c implies #[trigger] rest[d]
            != rest[c] by {
            assert(children[d] != children[c]);
        }
        lemma_last_parent::<H>(state, rest, c, parent_id, parent_hash, found);
        let j = choose|j: int| 0 <= j < so_far.units.len() && so_far.units[j] == found;
        assert(result.units[j] == found);
    }
}

/// When the last missing parent of a waiting unit is added, the waiting unit comes out, provided
/// that the parents match its control hash.
pub proof fn law_last_parent_completes<H: Hasher>(
    state: ReconstructionView<HashOf<H>>,
    child: UnitView<HashOf<H>>,
    collected: Seq<Option<HashOf<H>>>,
    parent: UnitView<HashOf<H>>,
    c: int,
)
    requires
        !state.reconstructing.contains_key(parent.hash),
        0 <= c < state.children(parent.coord()).len(),
        state.children(parent.coord())[c] == child.hash,
        forall|d: int|
            0 <= d < state.children(parent.coord()).len() && d != c ==> #[trigger] state.children(
                parent.coord(),
            )[d] != child.hash,
        state.reconstructing.contains_key(child.hash),
        state.reconstructing[child.hash] == ReconstructingView::Reconstructing(child, collected),
        parent.creator().0 < collected.len(),
        collected[parent.creator().0 as int] is None,
        nodes::present(collected).len() + 1 == child.parents().len(),
        reconstruction::parents_match::<H>(
            child,
            collected.update(parent.creator().0 as int, Some(parent.hash)),
        ),
    ensures
        parents::unit_added::<H>(state, parent).1.units.contains(
            ReconstructedView {
                unit: child,
                parents: collected.update(parent.creator().0 as int, Some(parent.hash)),
            },
        ),
{
    let found = ReconstructedView {
        unit: child,
        parents: collected.update(parent.creator().0 as int, Some(parent.hash)),
    };
    let known = state.with_coord(parent.coord(), parent.hash).without_waiting(parent.coord());
    let children = state.children(parent.coord());
    nodes::lemma_present_update(collected, parent.creator().0 as int, parent.hash);
    lemma_last_parent::<H>(known, children, c, parent.creator(), parent.hash, found);
    let first = parents::parent_known_to_all::<H>(
        known,
        children,
        parent.creator(),
        parent.hash,
    ).1;
    let j = choose|j: int| 0 <= j < first.units.len() && first.units[j] == found;
    assert(parents::unit_added::<H>(state, parent).1.units[j] == found);
}

} // verus!
