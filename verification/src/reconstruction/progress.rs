//! Nothing gets stuck while the parents of units are reconstructed.
use crate::crypto::{HashOf, Hasher};
use crate::nodes;
use crate::nodes::{NodeIndex, Round};
use crate::reconstruction;
use crate::reconstruction::parents;
use crate::reconstruction::parents::{
    ReconstructingView, ReconstructionView, RequestView, ResultView, SingleParentView,
};
use crate::reconstruction::ReconstructedView;
use crate::units::{UnitCoord, UnitView};
use vstd::prelude::*;

verus! {

/// Where the parent of a unit by some member stands.
pub open spec fn parent_coord<V>(unit: UnitView<V>, i: int) -> UnitCoord {
    UnitCoord { round: (unit.round() - 1) as Round, creator: NodeIndex(i as usize) }
}

/// Whether a unit has a parent at some coordinate.
pub open spec fn is_parent_coord<V>(unit: UnitView<V>, coord: UnitCoord) -> bool {
    &&& unit.round() > 0
    &&& coord.round == unit.round() - 1
    &&& nodes::has(unit.pre_unit.control_hash.parents_mask, coord.creator)
}

/// The parents of a unit that are known by their coordinates.
pub open spec fn gathered<V>(by_coord: Map<UnitCoord, V>, unit: UnitView<V>) -> Seq<Option<V>> {
    Seq::new(
        unit.n_members(),
        |i: int|
            if unit.pre_unit.control_hash.parents_mask[i] && by_coord.contains_key(
                parent_coord(unit, i),
            ) {
                Some(by_coord[parent_coord(unit, i)])
            } else {
                None
            },
    )
}

/// Whether all the parents of a unit are known by their coordinates.
pub open spec fn all_known<V>(by_coord: Map<UnitCoord, V>, unit: UnitView<V>) -> bool {
    forall|coord: UnitCoord| #[trigger]
        is_parent_coord(unit, coord) ==> by_coord.contains_key(coord)
}

/// A unit in the process is on track. As long as its parents are collected, those at known
/// coordinates have been collected and no others, the unit waits for all the others, and there are
/// some unless it has no parents at all. If its explicit list of parents is needed, all of their
/// coordinates are known.
pub open spec fn unit_on_track<V>(state: ReconstructionView<V>, hash: V) -> bool {
    let unit = state.reconstructing[hash].unit();
    &&& unit.hash == hash
    &&& unit.round() > 0
    &&& unit.n_members() <= usize::MAX
    &&& match state.reconstructing[hash] {
        ReconstructingView::Reconstructing(_, collected) => {
            &&& collected == gathered(state.by_coord, unit)
            &&& forall|coord: UnitCoord| #[trigger]
                is_parent_coord(unit, coord) && !state.by_coord.contains_key(coord)
                    ==> state.children(coord).contains(hash)
            &&& unit.parents().len() > 0 ==> !all_known(state.by_coord, unit)
        },
        ReconstructingView::WaitingForParents(_) => all_known(state.by_coord, unit),
    }
}

/// All the units in the process are on track, nobody waits for a known coordinate, and a unit in
/// the process waits only for parents of its own.
pub open spec fn on_track<V>(state: ReconstructionView<V>) -> bool {
    &&& forall|hash: V| #[trigger]
        state.reconstructing.contains_key(hash) ==> unit_on_track(state, hash)
    &&& forall|coord: UnitCoord| #[trigger]
        state.waiting.contains_key(coord) ==> !state.by_coord.contains_key(coord)
    &&& forall|coord: UnitCoord, hash: V| #[trigger]
        state.children(coord).contains(hash) && state.reconstructing.contains_key(hash)
            ==> is_parent_coord(state.reconstructing[hash].unit(), coord)
}

/// No unit waits twice for the same coordinate.
pub open spec fn waits_once<V>(state: ReconstructionView<V>) -> bool {
    forall|coord: UnitCoord| #[trigger] state.children(coord).no_duplicates()
}

/// Whatever waits under the hash of a unit that is not in the process waits for parents of that
/// very unit. This says that no different unit had the same hash.
pub open spec fn fits<V>(state: ReconstructionView<V>, unit: UnitView<V>) -> bool {
    &&& unit.n_members() <= usize::MAX
    &&& unit.round() > 0 && !state.reconstructing.contains_key(unit.hash) ==> forall|
        coord: UnitCoord,
    | #[trigger]
        state.children(coord).contains(unit.hash) ==> is_parent_coord(unit, coord)
}

/// Nothing waits under a hash.
pub open spec fn nothing_waits<V>(state: ReconstructionView<V>, hash: V) -> bool {
    forall|coord: UnitCoord| !(#[trigger] state.children(coord)).contains(hash)
}

/// The coordinates that are requested, in order.
pub open spec fn coord_requests<V>(requests: Seq<RequestView<V>>) -> Seq<UnitCoord>
    decreases requests.len(),
{
    if requests.len() == 0 {
        seq![]
    } else {
        let rest = coord_requests(requests.drop_last());
        match requests.last() {
            RequestView::Coord(coord) => rest.push(coord),
            RequestView::ParentsOf(_) => rest,
        }
    }
}

/// The coordinates of the parents of a unit that are not known, in the order of the members.
pub open spec fn missing<V>(by_coord: Map<UnitCoord, V>, coords: Seq<UnitCoord>) -> Seq<UnitCoord> {
    coords.filter(|coord: UnitCoord| !by_coord.contains_key(coord))
}

pub proof fn lemma_requests_together<V>(first: Seq<RequestView<V>>, second: Seq<RequestView<V>>)
    ensures
        coord_requests(first + second) == coord_requests(first) + coord_requests(second),
    decreases second.len(),
{
    let both = first + second;
    if second.len() == 0 {
        assert(both =~= first);
        assert(coord_requests(first) + coord_requests(second) =~= coord_requests(first));
    } else {
        assert(both.drop_last() =~= first + second.drop_last());
        assert(both.last() == second.last());
        lemma_requests_together(first, second.drop_last());
        assert(coord_requests(both) =~= coord_requests(first) + coord_requests(second));
    }
}

/// A part of a subset has fewer elements, unless it is the whole.
proof fn lemma_fewer_elements(part: Seq<bool>, whole: Seq<bool>)
    requires
        part.len() == whole.len(),
        forall|i: int| 0 <= i < part.len() && #[trigger] part[i] ==> whole[i],
    ensures
        nodes::elements(part).len() <= nodes::elements(whole).len(),
        nodes::elements(part).len() == nodes::elements(whole).len() ==> part == whole,
    decreases part.len(),
{
    if part.len() > 0 {
        let a = part.drop_last();
        let b = whole.drop_last();
        assert forall|i: int| 0 <= i < a.len() && #[trigger] a[i] implies b[i] by {
            assert(part[i]);
        }
        lemma_fewer_elements(a, b);
        let n = part.len() - 1;
        assert(part[n] ==> whole[n]);
        assert(part =~= a.push(part[n]));
        assert(whole =~= b.push(whole[n]));
    } else {
        assert(part =~= whole);
    }
}

/// A parent is collected for each member that the control hash names exactly when there are as many.
proof fn lemma_complete<V>(unit: UnitView<V>, collected: Seq<Option<V>>)
    requires
        collected.len() == unit.n_members(),
        forall|i: int|
            0 <= i < collected.len() && #[trigger] collected[i] is Some
                ==> unit.pre_unit.control_hash.parents_mask[i],
    ensures
        nodes::present(collected).len() == unit.parents().len() <==> nodes::mask(collected)
            == unit.pre_unit.control_hash.parents_mask,
{
    let part = nodes::mask(collected);
    let whole = unit.pre_unit.control_hash.parents_mask;
    nodes::lemma_mask_elements(collected);
    assert forall|i: int| 0 <= i < part.len() && #[trigger] part[i] implies whole[i] by {
        assert(collected[i] is Some);
    }
    lemma_fewer_elements(part, whole);
}

/// All the parents are gathered exactly when they are as many as the control hash names.
pub proof fn lemma_gathered<V>(by_coord: Map<UnitCoord, V>, unit: UnitView<V>)
    requires
        unit.round() > 0,
        unit.n_members() <= usize::MAX,
    ensures
        nodes::present(gathered(by_coord, unit)).len() == unit.parents().len() <==> all_known(
            by_coord,
            unit,
        ),
{
    let found = gathered(by_coord, unit);
    let whole = unit.pre_unit.control_hash.parents_mask;
    lemma_complete(unit, found);
    if all_known(by_coord, unit) {
        assert forall|i: int| 0 <= i < whole.len() implies nodes::mask(found)[i] == whole[i] by {
            if whole[i] {
                assert(is_parent_coord(unit, parent_coord(unit, i)));
            }
        }
        assert(nodes::mask(found) =~= whole);
    }
    if nodes::mask(found) == whole {
        assert forall|coord: UnitCoord| #[trigger]
            is_parent_coord(unit, coord) implies by_coord.contains_key(coord) by {
            let i = coord.creator.0 as int;
            assert(nodes::mask(found)[i]);
            assert(found[i] is Some);
            assert(parent_coord(unit, i) == coord);
        }
    }
}

/// The coordinates of the parents of a unit, in the order of the members.
pub proof fn lemma_parent_coords<V>(unit: UnitView<V>)
    requires
        unit.round() > 0,
        unit.n_members() <= usize::MAX,
    ensures
        parents::parent_coords(unit).len() == unit.parents().len(),
        forall|coord: UnitCoord|
            parents::parent_coords(unit).contains(coord) <==> #[trigger] is_parent_coord(
                unit,
                coord,
            ),
        forall|i: int|
            0 <= i < unit.parents().len() ==> is_parent_coord(
                unit,
                #[trigger] parents::parent_coords(unit)[i],
            ),
        forall|i: int, j: int|
            0 <= i < j < unit.parents().len() ==> (#[trigger] parents::parent_coords(
                unit,
            )[i]).creator.0 < (#[trigger] parents::parent_coords(unit)[j]).creator.0,
{
    let coords = parents::parent_coords(unit);
    nodes::lemma_elements(unit.pre_unit.control_hash.parents_mask);
    assert forall|i: int| 0 <= i < unit.parents().len() implies is_parent_coord(
        unit,
        #[trigger] coords[i],
    ) by {
        assert(unit.parents().contains(unit.parents()[i]));
    }
    assert forall|coord: UnitCoord|
        coords.contains(coord) <==> #[trigger] is_parent_coord(unit, coord) by {
        if is_parent_coord(unit, coord) {
            assert(unit.parents().contains(coord.creator));
            let i = choose|i: int| 0 <= i < unit.parents().len() && unit.parents()[i]
                == coord.creator;
            assert(coords[i] == coord);
        }
        if coords.contains(coord) {
            let i = choose|i: int| 0 <= i < coords.len() && coords[i] == coord;
            assert(is_parent_coord(unit, coords[i]));
        }
    }
}

/// What is left of a unit in the process once it has learned of a parent.
spec fn informed<H: Hasher>(
    unit: ReconstructingView<HashOf<H>>,
    parent_id: NodeIndex,
    parent_hash: HashOf<H>,
) -> Option<ReconstructingView<HashOf<H>>> {
    match parents::with_parent::<H>(unit, parent_id, parent_hash) {
        SingleParentView::Reconstructed(_) => None,
        SingleParentView::InProgress(unit) => Some(unit),
        SingleParentView::RequestParents(unit) => Some(unit),
    }
}

/// Learning of the same parent again makes no difference.
proof fn lemma_informed_again<H: Hasher>(
    unit: ReconstructingView<HashOf<H>>,
    parent_id: NodeIndex,
    parent_hash: HashOf<H>,
)
    requires
        unit matches ReconstructingView::Reconstructing(_, collected) ==> parent_id.0
            < collected.len(),
    ensures
        informed::<H>(unit, parent_id, parent_hash) matches Some(left) ==> parents::with_parent::<
            H,
        >(left, parent_id, parent_hash) == SingleParentView::<HashOf<H>>::InProgress(left)
            && left.unit() == unit.unit(),
{
    if let ReconstructingView::Reconstructing(_, collected) = unit {
        let more = collected.update(parent_id.0 as int, Some(parent_hash));
        assert(more.update(parent_id.0 as int, Some(parent_hash)) =~= more);
    }
}

/// What happens when several units learn of the same parent.
spec fn all_informed<H: Hasher>(
    state: ReconstructionView<HashOf<H>>,
    children: Seq<HashOf<H>>,
    parent_id: NodeIndex,
    parent_hash: HashOf<H>,
    after: ReconstructionView<HashOf<H>>,
    result: ResultView<HashOf<H>>,
) -> bool {
    &&& after.by_coord == state.by_coord
    &&& after.waiting == state.waiting
    &&& forall|hash: HashOf<H>| #[trigger]
        after.reconstructing.contains_key(hash) <==> state.reconstructing.contains_key(hash) && (
        children.contains(hash) ==> informed::<H>(
            state.reconstructing[hash],
            parent_id,
            parent_hash,
        ) is Some)
    &&& forall|hash: HashOf<H>| #[trigger]
        after.reconstructing.contains_key(hash) ==> after.reconstructing[hash] == (
        if children.contains(hash) {
            informed::<H>(state.reconstructing[hash], parent_id, parent_hash)->0
        } else {
            state.reconstructing[hash]
        })
    &&& forall|k: int|
        0 <= k < result.units.len() ==> {
            let hash = (#[trigger] result.units[k]).unit.hash;
            &&& children.contains(hash)
            &&& state.reconstructing.contains_key(hash)
            &&& parents::with_parent::<H>(state.reconstructing[hash], parent_id, parent_hash)
                == SingleParentView::<HashOf<H>>::Reconstructed(result.units[k])
        }
    &&& forall|j: int, k: int|
        0 <= j < k < result.units.len() ==> (#[trigger] result.units[j]).unit.hash != (
        #[trigger] result.units[k]).unit.hash
    &&& forall|hash: HashOf<H>| #[trigger]
        state.reconstructing.contains_key(hash) && !after.reconstructing.contains_key(hash)
            ==> exists|k: int|
            0 <= k < result.units.len() && (#[trigger] result.units[k]).unit.hash == hash
    &&& forall|k: int|
        0 <= k < result.requests.len() ==> (#[trigger] result.requests[k] matches RequestView::ParentsOf(
            hash,
        ) && {
            &&& children.contains(hash)
            &&& state.reconstructing.contains_key(hash)
            &&& parents::with_parent::<H>(
                state.reconstructing[hash],
                parent_id,
                parent_hash,
            ) is RequestParents
        })
}

proof fn lemma_all_informed<H: Hasher>(
    state: ReconstructionView<HashOf<H>>,
    children: Seq<HashOf<H>>,
    parent_id: NodeIndex,
    parent_hash: HashOf<H>,
)
    requires
        forall|hash: HashOf<H>| #[trigger]
            state.reconstructing.contains_key(hash) ==> state.reconstructing[hash].unit().hash
                == hash,
        forall|hash: HashOf<H>| #[trigger]
            state.reconstructing.contains_key(hash) && children.contains(hash) ==> (
            state.reconstructing[hash] matches ReconstructingView::Reconstructing(_, collected)
                ==> parent_id.0 < collected.len()),
    ensures
        ({
            let (after, result) = parents::parent_known_to_all::<H>(
                state,
                children,
                parent_id,
                parent_hash,
            );
            all_informed::<H>(state, children, parent_id, parent_hash, after, result)
        }),
    decreases children.len(),
{
    if children.len() > 0 {
        let rest = children.drop_last();
        let last = children.last();
        assert(children[children.len() - 1] == last);
        assert(children.contains(last));
        assert forall|hash: HashOf<H>| #[trigger]
            children.contains(hash) <==> rest.contains(hash) || hash == last by {
            if rest.contains(hash) {
                let i = choose|i: int| 0 <= i < rest.len() && rest[i] == hash;
                assert(children[i] == hash);
            }
            if children.contains(hash) && hash != last {
                let i = choose|i: int| 0 <= i < children.len() && children[i] == hash;
                assert(rest[i] == hash);
            }
        }
        lemma_all_informed::<H>(state, rest, parent_id, parent_hash);
        let (middle, first) = parents::parent_known_to_all::<H>(
            state,
            rest,
            parent_id,
            parent_hash,
        );
        let (after, result) = parents::parent_known_to_all::<H>(
            state,
            children,
            parent_id,
            parent_hash,
        );
        let more = parents::parent_known::<H>(middle, last, parent_id, parent_hash).1;
        assert(result == first.and(more));
        if state.reconstructing.contains_key(last) {
            lemma_informed_again::<H>(state.reconstructing[last], parent_id, parent_hash);
        }
        assert forall|k: int| 0 <= k < result.units.len() implies #[trigger] result.units[k] == (
        if k < first.units.len() {
            first.units[k]
        } else {
            more.units[k - first.units.len()]
        }) by {}
        assert forall|k: int| 0 <= k < result.requests.len() implies #[trigger] result.requests[k]
            == (if k < first.requests.len() {
            first.requests[k]
        } else {
            more.requests[k - first.requests.len()]
        }) by {}
        assert forall|hash: HashOf<H>| #[trigger]
            state.reconstructing.contains_key(hash) && !after.reconstructing.contains_key(
                hash,
            ) implies exists|k: int|
            0 <= k < result.units.len() && (#[trigger] result.units[k]).unit.hash == hash by {
            if middle.reconstructing.contains_key(hash) {
                assert(hash == last);
                assert(result.units[first.units.len() as int].unit.hash == hash);
            } else {
                let k = choose|k: int|
                    0 <= k < first.units.len() && (#[trigger] first.units[k]).unit.hash == hash;
                assert(result.units[k].unit.hash == hash);
            }
        }
        assert forall|j: int, k: int| 0 <= j < k < result.units.len() implies (
        #[trigger] result.units[j]).unit.hash != (#[trigger] result.units[k]).unit.hash by {
            if k >= first.units.len() {
                assert(middle.reconstructing.contains_key(last));
                assert(result.units[k].unit.hash == last);
                if first.units[j].unit.hash == last {
                    assert(informed::<H>(
                        state.reconstructing[last],
                        parent_id,
                        parent_hash,
                    ) is None);
                }
            }
        }
    }
}

/// A unit came out with all its parents: those known by their coordinates, and none if it is an
/// initial unit.
pub open spec fn with_known_parents<H: Hasher>(
    by_coord: Map<UnitCoord, HashOf<H>>,
    found: ReconstructedView<HashOf<H>>,
) -> bool {
    if found.unit.round() == 0 {
        found.parents == nodes::empty::<HashOf<H>>(found.unit.n_members())
    } else {
        &&& found.unit.parents().len() > 0
        &&& all_known(by_coord, found.unit)
        &&& found.parents == gathered(by_coord, found.unit)
        &&& reconstruction::parents_match::<H>(found.unit, found.parents)
    }
}

/// The units that come out are different units that were in the process and have left it, with all
/// their parents, and those are all that have left.
pub open spec fn have_left<H: Hasher>(
    before: Map<HashOf<H>, UnitView<HashOf<H>>>,
    after: ReconstructionView<HashOf<H>>,
    units: Seq<ReconstructedView<HashOf<H>>>,
) -> bool {
    &&& forall|k: int|
        0 <= k < units.len() ==> {
            let hash = (#[trigger] units[k]).unit.hash;
            &&& before.contains_key(hash)
            &&& before[hash] == units[k].unit
            &&& !after.reconstructing.contains_key(hash)
            &&& with_known_parents::<H>(after.by_coord, units[k])
        }
    &&& forall|j: int, k: int|
        0 <= j < k < units.len() ==> (#[trigger] units[j]).unit.hash != (
        #[trigger] units[k]).unit.hash
    &&& forall|hash: HashOf<H>| #[trigger]
        before.contains_key(hash) && !after.reconstructing.contains_key(hash) ==> exists|k: int|
            0 <= k < units.len() && (#[trigger] units[k]).unit.hash == hash
    &&& forall|hash: HashOf<H>| #[trigger]
        after.reconstructing.contains_key(hash) ==> before.contains_key(hash)
            && after.reconstructing[hash].unit() == before[hash]
}

/// A list of parents is requested only for units in the process whose known parents do not match.
pub open spec fn lists_needed<H: Hasher>(
    after: ReconstructionView<HashOf<H>>,
    requests: Seq<RequestView<HashOf<H>>>,
) -> bool {
    forall|k: int|
        0 <= k < requests.len() ==> (#[trigger] requests[k] matches RequestView::ParentsOf(hash)
            ==> {
            let unit = after.reconstructing[hash].unit();
            &&& after.reconstructing.contains_key(hash)
            &&& after.reconstructing[hash] is WaitingForParents
            &&& !reconstruction::parents_match::<H>(unit, gathered(after.by_coord, unit))
        })
}

/// A unit newly needs its list of parents only if its known parents do not match.
pub open spec fn lists_for_mismatches<H: Hasher>(
    before: ReconstructionView<HashOf<H>>,
    after: ReconstructionView<HashOf<H>>,
) -> bool {
    forall|hash: HashOf<H>| #[trigger]
        after.reconstructing.contains_key(hash) && after.reconstructing[hash] is WaitingForParents
            ==> {
            let unit = after.reconstructing[hash].unit();
            ||| before.reconstructing.contains_key(hash)
                && before.reconstructing[hash] is WaitingForParents
            ||| !reconstruction::parents_match::<H>(unit, gathered(after.by_coord, unit))
        }
}

/// The units in the process, by their hashes.
pub open spec fn in_process<V>(state: ReconstructionView<V>) -> Map<V, UnitView<V>> {
    Map::new(
        |hash: V| state.reconstructing.contains_key(hash),
        |hash: V| state.reconstructing[hash].unit(),
    )
}

/// The units in the process stay on track when they learn of a unit that they waited for.
proof fn lemma_told<H: Hasher>(
    state: ReconstructionView<HashOf<H>>,
    unit: UnitView<HashOf<H>>,
)
    requires
        on_track(state),
    ensures
        ({
            let known = state.with_coord(unit.coord(), unit.hash).without_waiting(unit.coord());
            let (told, result) = parents::parent_known_to_all::<H>(
                known,
                state.children(unit.coord()),
                unit.creator(),
                unit.hash,
            );
            &&& on_track(told)
            &&& told.by_coord == state.with_coord(unit.coord(), unit.hash).by_coord
            &&& told.waiting == state.waiting.remove(unit.coord())
            &&& have_left::<H>(in_process(state), told, result.units)
            &&& lists_needed::<H>(told, result.requests)
            &&& lists_for_mismatches::<H>(state, told)
            &&& forall|k: int|
                0 <= k < result.requests.len() ==> #[trigger] result.requests[k] is ParentsOf
        }),
{
    let coord = unit.coord();
    let known = state.with_coord(coord, unit.hash).without_waiting(coord);
    let children = state.children(coord);
    let (told, result) = parents::parent_known_to_all::<H>(
        known,
        children,
        unit.creator(),
        unit.hash,
    );
    let before = in_process(state);
    if state.by_coord.contains_key(coord) {
        assert(!state.waiting.contains_key(coord));
        assert(known =~= state);
        assert(told == known);
        assert(state.waiting.remove(coord) =~= state.waiting);
    } else {
        assert forall|hash: HashOf<H>| #[trigger]
            known.reconstructing.contains_key(hash) && children.contains(hash) implies (
        known.reconstructing[hash] matches ReconstructingView::Reconstructing(_, collected)
            ==> unit.creator().0 < collected.len()) by {
            assert(unit_on_track(state, hash));
            assert(is_parent_coord(state.reconstructing[hash].unit(), coord));
        }
        assert forall|hash: HashOf<H>| #[trigger]
            known.reconstructing.contains_key(
                hash,
            ) implies known.reconstructing[hash].unit().hash == hash by {
            assert(unit_on_track(state, hash));
        }
        lemma_all_informed::<H>(known, children, unit.creator(), unit.hash);
        // what the units know after they were told
        assert forall|hash: HashOf<H>| #[trigger]
            state.reconstructing.contains_key(hash) implies {
            let old_view = state.reconstructing[hash];
            let u = old_view.unit();
            if children.contains(hash) {
                &&& old_view matches ReconstructingView::Reconstructing(_, collected)
                &&& collected.update(unit.creator().0 as int, Some(unit.hash)) == gathered(
                    told.by_coord,
                    u,
                )
                &&& nodes::present(gathered(told.by_coord, u)).len() == u.parents().len()
                    <==> all_known(told.by_coord, u)
            } else {
                &&& !is_parent_coord(u, coord) || old_view is WaitingForParents
                &&& gathered(told.by_coord, u) == gathered(state.by_coord, u)
                    || old_view is WaitingForParents
            }
        } by {
            assert(unit_on_track(state, hash));
            let u = state.reconstructing[hash].unit();
            if children.contains(hash) {
                assert(is_parent_coord(u, coord));
                lemma_gathered(told.by_coord, u);
                if let ReconstructingView::Reconstructing(_, collected) =
                    state.reconstructing[hash] {
                    let more = collected.update(unit.creator().0 as int, Some(unit.hash));
                    assert forall|i: int| 0 <= i < more.len() implies more[i] == gathered(
                        told.by_coord,
                        u,
                    )[i] by {
                        if i == unit.creator().0 {
                            assert(parent_coord(u, i) == coord);
                        } else {
                            assert(parent_coord(u, i).creator.0 == i);
                            assert(parent_coord(u, i) != coord);
                        }
                    }
                    assert(more =~= gathered(told.by_coord, u));
                }
            } else if state.reconstructing[hash] is Reconstructing {
                assert(!is_parent_coord(u, coord));
                assert forall|i: int| 0 <= i < u.n_members() implies gathered(
                    told.by_coord,
                    u,
                )[i] == gathered(state.by_coord, u)[i] by {
                    if u.pre_unit.control_hash.parents_mask[i] {
                        assert(is_parent_coord(u, parent_coord(u, i)));
                    }
                }
                assert(gathered(told.by_coord, u) =~= gathered(state.by_coord, u));
            }
        }
        assert forall|hash: HashOf<H>| #[trigger]
            told.reconstructing.contains_key(hash) implies unit_on_track(told, hash) by {
            assert(state.reconstructing.contains_key(hash));
            assert(unit_on_track(state, hash));
            let u = state.reconstructing[hash].unit();
            assert forall|c: UnitCoord| #[trigger]
                is_parent_coord(u, c) && !told.by_coord.contains_key(c)
                    && state.reconstructing[hash] is Reconstructing implies told.children(
                c,
            ).contains(hash) by {
                assert(c != coord);
                assert(state.children(c).contains(hash));
                assert(told.children(c) == state.children(c));
            }
            if !children.contains(hash) {
                if state.reconstructing[hash] is Reconstructing && u.parents().len() > 0 {
                    assert(!all_known(state.by_coord, u));
                    let c = choose|c: UnitCoord|
                        is_parent_coord(u, c) && !state.by_coord.contains_key(c);
                    assert(is_parent_coord(u, c) && !told.by_coord.contains_key(c));
                }
            }
        }
        assert forall|c: UnitCoord, hash: HashOf<H>| #[trigger]
            told.children(c).contains(hash) && told.reconstructing.contains_key(
                hash,
            ) implies is_parent_coord(told.reconstructing[hash].unit(), c) by {
            assert(c != coord);
            assert(told.children(c) == state.children(c));
            assert(state.reconstructing.contains_key(hash));
        }
        assert(have_left::<H>(before, told, result.units)) by {
            assert forall|k: int| 0 <= k < result.units.len() implies {
                let hash = (#[trigger] result.units[k]).unit.hash;
                &&& before.contains_key(hash)
                &&& before[hash] == result.units[k].unit
                &&& !told.reconstructing.contains_key(hash)
                &&& with_known_parents::<H>(told.by_coord, result.units[k])
            } by {
                let hash = result.units[k].unit.hash;
                assert(state.reconstructing.contains_key(hash));
                assert(unit_on_track(state, hash));
                assert(is_parent_coord(result.units[k].unit, coord));
                lemma_parent_coords(result.units[k].unit);
                assert(parents::parent_coords(result.units[k].unit).contains(coord));
            }
            assert forall|hash: HashOf<H>| #[trigger]
                before.contains_key(hash) && !told.reconstructing.contains_key(
                    hash,
                ) implies exists|k: int|
                0 <= k < result.units.len() && (#[trigger] result.units[k]).unit.hash == hash by {
                assert(known.reconstructing.contains_key(hash));
            }
            assert forall|hash: HashOf<H>| #[trigger]
                told.reconstructing.contains_key(hash) implies before.contains_key(hash)
                && told.reconstructing[hash].unit() == before[hash] by {
                assert(known.reconstructing.contains_key(hash));
            }
        }
        assert forall|hash: HashOf<H>| #[trigger]
            told.reconstructing.contains_key(hash)
                && told.reconstructing[hash] is WaitingForParents implies {
            let u = told.reconstructing[hash].unit();
            ||| state.reconstructing.contains_key(hash)
                && state.reconstructing[hash] is WaitingForParents
            ||| !reconstruction::parents_match::<H>(u, gathered(told.by_coord, u))
        } by {
            assert(state.reconstructing.contains_key(hash));
        }
        assert forall|k: int| 0 <= k < result.requests.len() implies (
        #[trigger] result.requests[k] matches RequestView::ParentsOf(hash) ==> {
            let u = told.reconstructing[hash].unit();
            &&& told.reconstructing.contains_key(hash)
            &&& told.reconstructing[hash] is WaitingForParents
            &&& !reconstruction::parents_match::<H>(u, gathered(told.by_coord, u))
        }) by {
            if let RequestView::ParentsOf(hash) = result.requests[k] {
                assert(state.reconstructing.contains_key(hash));
                assert(told.reconstructing.contains_key(hash));
            }
        }
    }
}

/// The known parents of a unit by the members before the given one.
spec fn gathered_below<V>(by_coord: Map<UnitCoord, V>, unit: UnitView<V>, bound: int) -> Seq<
    Option<V>,
> {
    Seq::new(
        unit.n_members(),
        |i: int|
            if i < bound {
                gathered(by_coord, unit)[i]
            } else {
                None
            },
    )
}

/// The first member that has not been looked at once the first `k` parents have been.
spec fn reached<V>(unit: UnitView<V>, k: int) -> int {
    if k < unit.parents().len() {
        unit.parents()[k].0 as int
    } else {
        unit.n_members() as int
    }
}

/// Looking at one more parent.
proof fn lemma_reached<V>(by_coord: Map<UnitCoord, V>, unit: UnitView<V>, k: int)
    requires
        0 <= k < unit.parents().len(),
        unit.round() > 0,
        unit.n_members() <= usize::MAX,
    ensures
        ({
            let p = unit.parents()[k].0 as int;
            let coord = parents::parent_coords(unit)[k];
            let before = gathered_below(by_coord, unit, reached(unit, k));
            let after = gathered_below(by_coord, unit, reached(unit, k + 1));
            &&& p < unit.n_members()
            &&& coord == parent_coord(unit, p)
            &&& by_coord.contains_key(coord) ==> before.update(p, Some(by_coord[coord])) == after
            &&& !by_coord.contains_key(coord) ==> before == after
            &&& nodes::present(after).len() == unit.parents().len() <==> k + 1
                == unit.parents().len() && all_known(by_coord, unit)
        }),
{
    let whole = unit.pre_unit.control_hash.parents_mask;
    nodes::lemma_elements(whole);
    let list = unit.parents();
    let p = list[k].0 as int;
    let coord = parents::parent_coords(unit)[k];
    assert(list.contains(list[k]));
    assert(nodes::has(whole, list[k]));
    let before = gathered_below(by_coord, unit, reached(unit, k));
    let after = gathered_below(by_coord, unit, reached(unit, k + 1));
    let expected = if by_coord.contains_key(coord) {
        before.update(p, Some(by_coord[coord]))
    } else {
        before
    };
    assert(p < reached(unit, k + 1)) by {
        if k + 1 < list.len() {
            assert(list[k].0 < list[k + 1].0);
        }
    }
    assert forall|i: int| 0 <= i < after.len() implies after[i] == expected[i] by {
        if p < i < reached(unit, k + 1) && whole[i] {
            let member = NodeIndex(i as usize);
            assert(nodes::has(whole, member));
            assert(list.contains(member));
            let j = choose|j: int| 0 <= j < list.len() && list[j] == member;
            if j <= k {
                if j < k {
                    assert(list[j].0 < list[k].0);
                }
            } else {
                if k + 1 < j {
                    assert(list[k + 1].0 < list[j].0);
                }
            }
        }
    }
    assert(after =~= expected);
    lemma_complete(unit, after);
    lemma_gathered(by_coord, unit);
    if k + 1 == list.len() {
        assert(after =~= gathered(by_coord, unit));
    } else if nodes::mask(after) == whole {
        let i = list[k + 1].0 as int;
        assert(list.contains(list[k + 1]));
        assert(nodes::has(whole, list[k + 1]));
        assert(nodes::mask(after)[i]);
        assert(after[i] is Some);
    }
}

/// The coordinates that are requested.
spec fn requests_for<V>(coords: Seq<UnitCoord>) -> Seq<RequestView<V>> {
    coords.map_values(|coord: UnitCoord| RequestView::Coord(coord))
}

/// Where a unit waits once it has looked for its first `k` parents.
spec fn waits_for_missing<V>(
    before: ReconstructionView<V>,
    after: ReconstructionView<V>,
    unit: UnitView<V>,
    k: int,
) -> bool {
    &&& forall|coord: UnitCoord|
        #![trigger after.children(coord)]
        #![trigger after.waiting.contains_key(coord)]
        {
            let sought = !before.by_coord.contains_key(coord) && parents::parent_coords(unit).take(
                k,
            ).contains(coord);
            &&& after.children(coord) == (if sought {
                before.children(coord).push(unit.hash)
            } else {
                before.children(coord)
            })
            &&& after.waiting.contains_key(coord) <==> before.waiting.contains_key(coord) || sought
        }
}

/// A new unit looks for its first `k` parents.
proof fn lemma_sought<H: Hasher>(
    started: ReconstructionView<HashOf<H>>,
    unit: UnitView<HashOf<H>>,
    k: int,
)
    requires
        unit.round() > 0,
        unit.n_members() <= usize::MAX,
        0 <= k <= unit.parents().len(),
        started.reconstructing.contains_key(unit.hash),
        started.reconstructing[unit.hash] == ReconstructingView::Reconstructing(
            unit,
            nodes::empty::<HashOf<H>>(unit.n_members()),
        ),
    ensures
        ({
            let coords = parents::parent_coords(unit).take(k);
            let (after, result) = parents::parents_sought::<H>(started, unit.hash, coords);
            let known = gathered(started.by_coord, unit);
            let wanted = requests_for::<HashOf<H>>(missing(started.by_coord, coords));
            &&& after.by_coord == started.by_coord
            &&& forall|hash: HashOf<H>|
                hash != unit.hash ==> (#[trigger] after.reconstructing.contains_key(hash)
                    == started.reconstructing.contains_key(hash) && after.reconstructing[hash]
                    == started.reconstructing[hash])
            &&& waits_for_missing(started, after, unit, k)
            &&& if k > 0 && k == unit.parents().len() && all_known(started.by_coord, unit) {
                if reconstruction::parents_match::<H>(unit, known) {
                    &&& !after.reconstructing.contains_key(unit.hash)
                    &&& result.units == seq![ReconstructedView { unit, parents: known }]
                    &&& result.requests == Seq::<RequestView<HashOf<H>>>::empty()
                } else {
                    &&& after.reconstructing.contains_key(unit.hash)
                    &&& after.reconstructing[unit.hash]
                        == ReconstructingView::WaitingForParents(unit)
                    &&& result.units == Seq::<ReconstructedView<HashOf<H>>>::empty()
                    &&& result.requests == seq![RequestView::ParentsOf(unit.hash)]
                }
            } else {
                &&& after.reconstructing.contains_key(unit.hash)
                &&& after.reconstructing[unit.hash] == ReconstructingView::Reconstructing(
                    unit,
                    gathered_below(started.by_coord, unit, reached(unit, k)),
                )
                &&& result.units == Seq::<ReconstructedView<HashOf<H>>>::empty()
                &&& result.requests == wanted
            }
        }),
    decreases k,
{
    reveal(Seq::filter);
    let all = parents::parent_coords(unit);
    let coords = all.take(k);
    let whole = unit.pre_unit.control_hash.parents_mask;
    nodes::lemma_elements(whole);
    lemma_parent_coords(unit);
    if k == 0 {
        let (after, result) = parents::parents_sought::<H>(started, unit.hash, coords);
        let nothing = gathered_below(started.by_coord, unit, reached(unit, 0));
        assert forall|i: int| 0 <= i < nothing.len() implies nothing[i] is None by {
            if i < reached(unit, 0) && whole[i] {
                let member = NodeIndex(i as usize);
                assert(nodes::has(whole, member));
                assert(unit.parents().contains(member));
                let j = choose|j: int| 0 <= j < unit.parents().len() && unit.parents()[j] == member;
                if j > 0 {
                    assert(unit.parents()[0].0 < unit.parents()[j].0);
                }
            }
        }
        assert(nothing =~= nodes::empty::<HashOf<H>>(unit.n_members()));
        assert(missing(started.by_coord, coords) =~= seq![]);
        assert(result.requests =~= requests_for::<HashOf<H>>(missing(started.by_coord, coords)));
    } else {
        let rest = all.take(k - 1);
        assert(coords.drop_last() =~= rest);
        let coord = all[k - 1];
        assert(coords.last() == coord);
        lemma_sought::<H>(started, unit, k - 1);
        lemma_reached(started.by_coord, unit, k - 1);
        let (before, so_far) = parents::parents_sought::<H>(started, unit.hash, rest);
        let (after, result) = parents::parents_sought::<H>(started, unit.hash, coords);
        let old_wanted = requests_for::<HashOf<H>>(missing(started.by_coord, rest));
        assert(!rest.contains(coord)) by {
            if rest.contains(coord) {
                let j = choose|j: int| 0 <= j < rest.len() && rest[j] == coord;
                assert(all[j].creator.0 < all[k - 1].creator.0);
            }
        }
        assert forall|c: UnitCoord| #[trigger]
            coords.contains(c) <==> rest.contains(c) || c == coord by {
            if rest.contains(c) {
                let j = choose|j: int| 0 <= j < rest.len() && rest[j] == c;
                assert(coords[j] == c);
            }
            if c == coord {
                assert(coords[k - 1] == c);
            }
            if coords.contains(c) && c != coord {
                let j = choose|j: int| 0 <= j < coords.len() && coords[j] == c;
                assert(rest[j] == c);
            }
        }
        if started.by_coord.contains_key(coord) {
            assert(missing(started.by_coord, coords) == missing(started.by_coord, rest));
            let more = parents::parent_known::<H>(
                before,
                unit.hash,
                coord.creator,
                before.by_coord[coord],
            ).1;
            assert(result == so_far.and(more));
            assert(after.waiting == before.waiting);
            if k == unit.parents().len() && all_known(started.by_coord, unit) {
                assert(gathered_below(started.by_coord, unit, reached(unit, k)) =~= gathered(
                    started.by_coord,
                    unit,
                ));
                assert(missing(started.by_coord, rest) =~= seq![]) by {
                    lemma_none_missing(started.by_coord, unit, k - 1);
                }
                assert(so_far.requests =~= seq![]);
                assert(result.units =~= more.units);
                assert(result.requests =~= more.requests);
            } else {
                assert(result.units =~= seq![]);
                assert(result.requests =~= old_wanted);
            }
        } else {
            assert(missing(started.by_coord, coords) == missing(started.by_coord, rest).push(
                coord,
            ));
            assert(after == before.with_waiting(coord, unit.hash));
            assert(result.units =~= seq![]);
            assert(result.requests =~= requests_for::<HashOf<H>>(
                missing(started.by_coord, coords),
            ));
            assert(is_parent_coord(unit, coord));
            assert(!all_known(started.by_coord, unit));
        }
    }
}

/// If all the parents are known, none of them is missing.
proof fn lemma_none_missing<V>(by_coord: Map<UnitCoord, V>, unit: UnitView<V>, k: int)
    requires
        0 <= k <= unit.parents().len(),
        unit.round() > 0,
        unit.n_members() <= usize::MAX,
        all_known(by_coord, unit),
    ensures
        missing(by_coord, parents::parent_coords(unit).take(k)).len() == 0,
    decreases k,
{
    reveal(Seq::filter);
    if k > 0 {
        lemma_parent_coords(unit);
        let coords = parents::parent_coords(unit);
        assert(coords.take(k).drop_last() =~= coords.take(k - 1));
        lemma_none_missing(by_coord, unit, k - 1);
        assert(is_parent_coord(unit, coords[k - 1]));
    }
}

/// What happens when a unit that is not in the process is added to a state that is on track.
pub open spec fn well_added<H: Hasher>(
    state: ReconstructionView<HashOf<H>>,
    unit: UnitView<HashOf<H>>,
    after: ReconstructionView<HashOf<H>>,
    result: ResultView<HashOf<H>>,
) -> bool {
    &&& on_track(after)
    &&& after.by_coord == state.with_coord(unit.coord(), unit.hash).by_coord
    &&& have_left::<H>(in_process(state).insert(unit.hash, unit), after, result.units)
    &&& lists_needed::<H>(after, result.requests)
    &&& lists_for_mismatches::<H>(state, after)
    &&& forall|coord: UnitCoord, hash: HashOf<H>| #[trigger]
        after.children(coord).contains(hash) ==> state.children(coord).contains(hash) || hash
            == unit.hash && is_parent_coord(unit, coord)
    &&& waits_once(state) && nothing_waits(state, unit.hash) ==> waits_once(after)
}

proof fn lemma_waiting<V>(
    told: ReconstructionView<V>,
    after: ReconstructionView<V>,
    unit: UnitView<V>,
)
    requires
        on_track(told),
        unit.round() > 0,
        unit.n_members() <= usize::MAX,
        forall|coord: UnitCoord| #[trigger]
            told.children(coord).contains(unit.hash) ==> is_parent_coord(unit, coord),
        after.by_coord == told.by_coord,
        waits_for_missing(told, after, unit, unit.parents().len() as int),
    ensures
        forall|coord: UnitCoord, hash: V| #[trigger]
            after.children(coord).contains(hash) ==> told.children(coord).contains(hash) || hash
                == unit.hash && is_parent_coord(unit, coord),
        forall|coord: UnitCoord, hash: V| #[trigger]
            told.children(coord).contains(hash) ==> after.children(coord).contains(hash),
        forall|coord: UnitCoord| #[trigger]
            is_parent_coord(unit, coord) && !told.by_coord.contains_key(coord) ==> after.children(
                coord,
            ).contains(unit.hash),
        forall|coord: UnitCoord| #[trigger]
            after.waiting.contains_key(coord) ==> !after.by_coord.contains_key(coord),
        waits_once(told) && nothing_waits(told, unit.hash) ==> waits_once(after),
{
    let coords = parents::parent_coords(unit);
    lemma_parent_coords(unit);
    assert(coords.take(unit.parents().len() as int) =~= coords);
    assert forall|coord: UnitCoord, hash: V| #[trigger]
        after.children(coord).contains(hash) implies told.children(coord).contains(hash) || hash
        == unit.hash && is_parent_coord(unit, coord) by {
        let list = after.children(coord);
        let i = choose|i: int| 0 <= i < list.len() && list[i] == hash;
        if i < told.children(coord).len() {
            assert(told.children(coord)[i] == hash);
        } else {
            assert(coords.contains(coord));
            assert(is_parent_coord(unit, coord));
        }
    }
    assert forall|coord: UnitCoord, hash: V| #[trigger]
        told.children(coord).contains(hash) implies after.children(coord).contains(hash) by {
        let list = told.children(coord);
        let i = choose|i: int| 0 <= i < list.len() && list[i] == hash;
        assert(after.children(coord)[i] == hash);
    }
    assert forall|coord: UnitCoord| #[trigger]
        is_parent_coord(unit, coord) && !told.by_coord.contains_key(coord) implies after.children(
        coord,
    ).contains(unit.hash) by {
        assert(coords.contains(coord));
        let n = told.children(coord).len() as int;
        assert(after.children(coord)[n] == unit.hash);
    }
    if waits_once(told) && nothing_waits(told, unit.hash) {
        assert forall|coord: UnitCoord| #[trigger] after.children(coord).no_duplicates() by {
            assert(told.children(coord).no_duplicates());
            let old_list = told.children(coord);
            assert(!old_list.contains(unit.hash));
            let list = after.children(coord);
            assert forall|i: int, j: int| 0 <= i < list.len() && 0 <= j < list.len() && i
                != j implies list[i] != list[j] by {
                if i < old_list.len() {
                    assert(old_list[i] == list[i]);
                    assert(old_list.contains(list[i]));
                }
                if j < old_list.len() {
                    assert(old_list[j] == list[j]);
                    assert(old_list.contains(list[j]));
                }
            }
        }
    }
}

/// A unit that is not in the process is added.
pub proof fn lemma_added<H: Hasher>(
    state: ReconstructionView<HashOf<H>>,
    unit: UnitView<HashOf<H>>,
)
    requires
        on_track(state),
        fits(state, unit),
        !state.reconstructing.contains_key(unit.hash),
    ensures
        well_added::<H>(
            state,
            unit,
            parents::unit_added::<H>(state, unit).0,
            parents::unit_added::<H>(state, unit).1,
        ),
{
    let (after, result) = parents::unit_added::<H>(state, unit);
    let before = in_process(state).insert(unit.hash, unit);
    let coord = unit.coord();
    lemma_told::<H>(state, unit);
    let known = state.with_coord(coord, unit.hash).without_waiting(coord);
    let (told, first) = parents::parent_known_to_all::<H>(
        known,
        state.children(coord),
        unit.creator(),
        unit.hash,
    );
    assert(!told.reconstructing.contains_key(unit.hash)) by {
        if told.reconstructing.contains_key(unit.hash) {
            assert(in_process(state).contains_key(unit.hash));
        }
    }
    assert forall|c: UnitCoord|
        #![trigger told.children(c)]
        told.children(c) == (if c == coord {
            seq![]
        } else {
            state.children(c)
        }) by {}
    assert(waits_once(state) ==> waits_once(told)) by {
        if waits_once(state) {
            assert forall|c: UnitCoord| #[trigger] told.children(c).no_duplicates() by {
                assert(state.children(c).no_duplicates());
            }
        }
    }
    assert(nothing_waits(state, unit.hash) ==> nothing_waits(told, unit.hash)) by {
        if nothing_waits(state, unit.hash) {
            assert forall|c: UnitCoord| !(#[trigger] told.children(c)).contains(unit.hash) by {
                assert(!state.children(c).contains(unit.hash));
            }
        }
    }
    if unit.round() == 0 {
        let initial = ReconstructedView { unit, parents: nodes::empty(unit.n_members()) };
        assert(result.units =~= first.units.push(initial));
        assert(result.requests =~= first.requests);
        lemma_one_more::<H>(in_process(state), told, first.units, initial);
    } else {
        let started = told.with_reconstructing(
            unit.hash,
            ReconstructingView::Reconstructing(unit, nodes::empty(unit.n_members())),
        );
        let coords = parents::parent_coords(unit);
        let n = unit.parents().len() as int;
        lemma_parent_coords(unit);
        assert(coords.take(n) =~= coords);
        lemma_sought::<H>(started, unit, n);
        let more = parents::parents_sought::<H>(started, unit.hash, coords).1;
        assert(result == first.and(more));
        assert(waits_for_missing(told, after, unit, n)) by {
            assert forall|c: UnitCoord|
                #![trigger after.children(c)]
                #![trigger after.waiting.contains_key(c)]
                {
                    let sought = !told.by_coord.contains_key(c) && coords.take(n).contains(c);
                    &&& after.children(c) == (if sought {
                        told.children(c).push(unit.hash)
                    } else {
                        told.children(c)
                    })
                    &&& after.waiting.contains_key(c) <==> told.waiting.contains_key(c) || sought
                } by {
                assert(started.children(c) == told.children(c));
            }
        }
        assert forall|c: UnitCoord| #[trigger]
            told.children(c).contains(unit.hash) implies is_parent_coord(unit, c) by {
            assert(state.children(c).contains(unit.hash));
        }
        lemma_waiting(told, after, unit);
        assert(gathered_below(started.by_coord, unit, reached(unit, n)) =~= gathered(
            started.by_coord,
            unit,
        ));
        assert forall|hash: HashOf<H>| #[trigger]
            after.reconstructing.contains_key(hash) implies unit_on_track(after, hash) by {
            if hash != unit.hash {
                assert(told.reconstructing.contains_key(hash));
                assert(unit_on_track(told, hash));
                assert(after.reconstructing[hash] == told.reconstructing[hash]);
            }
        }
        assert forall|c: UnitCoord, hash: HashOf<H>| #[trigger]
            after.children(c).contains(hash) && after.reconstructing.contains_key(
                hash,
            ) implies is_parent_coord(after.reconstructing[hash].unit(), c) by {
            if hash != unit.hash {
                assert(told.reconstructing.contains_key(hash));
                assert(told.children(c).contains(hash));
            }
        }
        assert(on_track(after));
        assert forall|c: UnitCoord, hash: HashOf<H>| #[trigger]
            after.children(c).contains(hash) implies state.children(c).contains(hash) || hash
            == unit.hash && is_parent_coord(unit, c) by {
            if told.children(c).contains(hash) {
                assert(state.children(c).contains(hash));
            }
        }
        if more.units.len() > 0 {
            let found = ReconstructedView { unit, parents: gathered(after.by_coord, unit) };
            assert(result.units =~= first.units.push(found));
            lemma_one_more::<H>(in_process(state), told, first.units, found);
            assert forall|hash: HashOf<H>| #[trigger]
                after.reconstructing.contains_key(hash)
                    == told.reconstructing.contains_key(hash) by {}
            assert(have_left::<H>(before, after, result.units)) by {
                assert forall|hash: HashOf<H>| #[trigger]
                    after.reconstructing.contains_key(hash) implies before.contains_key(hash)
                    && after.reconstructing[hash].unit() == before[hash] by {
                    assert(told.reconstructing.contains_key(hash));
                }
                assert forall|k: int| 0 <= k < result.units.len() implies {
                    let hash = (#[trigger] result.units[k]).unit.hash;
                    &&& before.contains_key(hash)
                    &&& before[hash] == result.units[k].unit
                    &&& !after.reconstructing.contains_key(hash)
                    &&& with_known_parents::<H>(after.by_coord, result.units[k])
                } by {
                    assert(!told.reconstructing.contains_key(result.units[k].unit.hash));
                }
                assert forall|hash: HashOf<H>| #[trigger]
                    before.contains_key(hash) && !after.reconstructing.contains_key(
                        hash,
                    ) implies exists|k: int|
                    0 <= k < result.units.len() && (#[trigger] result.units[k]).unit.hash
                        == hash by {
                    assert(!told.reconstructing.contains_key(hash));
                }
            }
        } else {
            assert(result.units =~= first.units);
            assert(have_left::<H>(before, after, result.units)) by {
                assert forall|hash: HashOf<H>| #[trigger]
                    after.reconstructing.contains_key(hash) implies before.contains_key(hash)
                    && after.reconstructing[hash].unit() == before[hash] by {
                    if hash != unit.hash {
                        assert(told.reconstructing.contains_key(hash));
                    }
                }
                assert forall|k: int| 0 <= k < result.units.len() implies {
                    let hash = (#[trigger] result.units[k]).unit.hash;
                    &&& before.contains_key(hash)
                    &&& before[hash] == result.units[k].unit
                    &&& !after.reconstructing.contains_key(hash)
                    &&& with_known_parents::<H>(after.by_coord, result.units[k])
                } by {
                    let hash = first.units[k].unit.hash;
                    assert(in_process(state).contains_key(hash));
                    assert(!told.reconstructing.contains_key(hash));
                }
                assert forall|hash: HashOf<H>| #[trigger]
                    before.contains_key(hash) && !after.reconstructing.contains_key(
                        hash,
                    ) implies exists|k: int|
                    0 <= k < result.units.len() && (#[trigger] result.units[k]).unit.hash
                        == hash by {
                    assert(hash != unit.hash);
                    assert(in_process(state).contains_key(hash));
                    assert(!told.reconstructing.contains_key(hash));
                }
            }
        }
        assert forall|hash: HashOf<H>| #[trigger]
            after.reconstructing.contains_key(hash)
                && after.reconstructing[hash] is WaitingForParents implies {
            let u = after.reconstructing[hash].unit();
            ||| state.reconstructing.contains_key(hash)
                && state.reconstructing[hash] is WaitingForParents
            ||| !reconstruction::parents_match::<H>(u, gathered(after.by_coord, u))
        } by {
            if hash != unit.hash {
                assert(told.reconstructing.contains_key(hash));
            }
        }
        assert forall|k: int| 0 <= k < result.requests.len() implies (
        #[trigger] result.requests[k] matches RequestView::ParentsOf(hash) ==> {
            let u = after.reconstructing[hash].unit();
            &&& after.reconstructing.contains_key(hash)
            &&& after.reconstructing[hash] is WaitingForParents
            &&& !reconstruction::parents_match::<H>(u, gathered(after.by_coord, u))
        }) by {
            if k < first.requests.len() {
                assert(result.requests[k] == first.requests[k]);
                if let RequestView::ParentsOf(hash) = first.requests[k] {
                    assert(told.reconstructing.contains_key(hash));
                    assert(after.reconstructing.contains_key(hash));
                }
            } else {
                assert(result.requests[k] == more.requests[k - first.requests.len()]);
            }
        }
    }
}

/// One more unit comes out, which was not in the process.
proof fn lemma_one_more<H: Hasher>(
    before: Map<HashOf<H>, UnitView<HashOf<H>>>,
    after: ReconstructionView<HashOf<H>>,
    units: Seq<ReconstructedView<HashOf<H>>>,
    found: ReconstructedView<HashOf<H>>,
)
    requires
        have_left::<H>(before, after, units),
        !before.contains_key(found.unit.hash),
        !after.reconstructing.contains_key(found.unit.hash),
        with_known_parents::<H>(after.by_coord, found),
    ensures
        have_left::<H>(before.insert(found.unit.hash, found.unit), after, units.push(found)),
{
    let more = units.push(found);
    let all = before.insert(found.unit.hash, found.unit);
    assert forall|k: int| 0 <= k < more.len() implies {
        let hash = (#[trigger] more[k]).unit.hash;
        &&& all.contains_key(hash)
        &&& all[hash] == more[k].unit
        &&& !after.reconstructing.contains_key(hash)
        &&& with_known_parents::<H>(after.by_coord, more[k])
    } by {
        if k < units.len() {
            assert(more[k] == units[k]);
        }
    }
    assert forall|j: int, k: int| 0 <= j < k < more.len() implies (#[trigger] more[j]).unit.hash
        != (#[trigger] more[k]).unit.hash by {
        assert(more[j] == units[j]);
        if k < units.len() {
            assert(more[k] == units[k]);
        }
    }
    assert forall|hash: HashOf<H>| #[trigger]
        all.contains_key(hash) && !after.reconstructing.contains_key(hash) implies exists|k: int|
        0 <= k < more.len() && (#[trigger] more[k]).unit.hash == hash by {
        if hash == found.unit.hash {
            assert(more[units.len() as int].unit.hash == hash);
        } else {
            assert(before.contains_key(hash));
            let k = choose|k: int|
                0 <= k < units.len() && (#[trigger] units[k]).unit.hash == hash;
            assert(more[k].unit.hash == hash);
        }
    }
}

/// Nothing gets stuck: a new reconstruction is on track, and it stays so whatever is added, a unit
/// or an explicit list of parents. The one exception is a unit with the hash of a different unit
/// that was there before. Nor does a unit wait twice for the same parent, unless it is added again
/// after it was reconstructed from an explicit list while it waited.
pub proof fn law_nothing_stuck<H: Hasher>(
    state: ReconstructionView<HashOf<H>>,
    unit: UnitView<HashOf<H>>,
    hash: HashOf<H>,
    parent_hashes: Seq<HashOf<H>>,
)
    requires
        on_track(state),
        fits(state, unit),
    ensures
        on_track(ReconstructionView::<HashOf<H>>::fresh()),
        waits_once(ReconstructionView::<HashOf<H>>::fresh()),
        on_track(parents::unit_added::<H>(state, unit).0),
        on_track(parents::parents_added::<H>(state, hash, parent_hashes).0),
        waits_once(state) && (state.reconstructing.contains_key(unit.hash) || nothing_waits(
            state,
            unit.hash,
        )) ==> waits_once(parents::unit_added::<H>(state, unit).0),
        waits_once(state) ==> waits_once(
            parents::parents_added::<H>(state, hash, parent_hashes).0,
        ),
{
    if !state.reconstructing.contains_key(unit.hash) {
        lemma_added::<H>(state, unit);
    }
    lemma_parents_added::<H>(state, hash, parent_hashes);
}

/// An explicit list of parents is added.
pub proof fn lemma_parents_added<H: Hasher>(
    state: ReconstructionView<HashOf<H>>,
    hash: HashOf<H>,
    parent_hashes: Seq<HashOf<H>>,
)
    requires
        on_track(state),
    ensures
        ({
            let after = parents::parents_added::<H>(state, hash, parent_hashes).0;
            &&& on_track(after)
            &&& after.by_coord == state.by_coord
            &&& forall|coord: UnitCoord| #[trigger] after.children(coord) == state.children(coord)
        }),
{
    let after = parents::parents_added::<H>(state, hash, parent_hashes).0;
    assert forall|h: HashOf<H>| #[trigger]
        after.reconstructing.contains_key(h) implies unit_on_track(after, h) by {
        assert(state.reconstructing.contains_key(h));
        assert(unit_on_track(state, h));
    }
    assert forall|coord: UnitCoord, h: HashOf<H>| #[trigger]
        after.children(coord).contains(h) && after.reconstructing.contains_key(
            h,
        ) implies is_parent_coord(after.reconstructing[h].unit(), coord) by {
        assert(state.reconstructing.contains_key(h));
        assert(state.children(coord).contains(h));
    }
}

} // verus!
