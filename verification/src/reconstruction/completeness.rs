//! All the units get reconstructed, whatever the order in which they come.
use crate::crypto::{HashOf, Hasher};
use crate::nodes;
use crate::nodes::NodeIndex;
use crate::reconstruction;
use crate::reconstruction::laws;
use crate::reconstruction::parents;
use crate::reconstruction::parents::{
    ReconstructingView, ReconstructionView, RequestView, ResultView,
};
use crate::reconstruction::progress;
use crate::reconstruction::ReconstructedView;
use crate::units::{UnitCoord, UnitView};
use vstd::prelude::*;

verus! {

/// Units are added one after another.
pub open spec fn all_added<H: Hasher>(
    state: ReconstructionView<HashOf<H>>,
    units: Seq<UnitView<HashOf<H>>>,
) -> (ReconstructionView<HashOf<H>>, ResultView<HashOf<H>>)
    decreases units.len(),
{
    if units.len() == 0 {
        (state, ResultView::nothing())
    } else {
        let (before, result) = all_added::<H>(state, units.drop_last());
        let (after, more) = parents::unit_added::<H>(before, units.last());
        (after, result.and(more))
    }
}

/// The hashes of units by their coordinates.
pub open spec fn by_coords<V>(units: Seq<UnitView<V>>) -> Map<UnitCoord, V>
    decreases units.len(),
{
    if units.len() == 0 {
        Map::empty()
    } else {
        by_coords(units.drop_last()).insert(units.last().coord(), units.last().hash)
    }
}

/// Different units at different coordinates.
pub open spec fn all_different<V>(units: Seq<UnitView<V>>) -> bool {
    &&& forall|i: int, j: int|
        0 <= i < j < units.len() ==> (#[trigger] units[i]).hash != (#[trigger] units[j]).hash
    &&& forall|i: int, j: int|
        0 <= i < j < units.len() ==> (#[trigger] units[i]).coord() != (#[trigger] units[j]).coord()
}

/// If all the parents of a unit are among the given units, its control hash was made of them.
pub open spec fn parents_agree<H: Hasher>(
    units: Seq<UnitView<HashOf<H>>>,
    unit: UnitView<HashOf<H>>,
) -> bool {
    let known = by_coords(units);
    &&& unit.n_members() <= usize::MAX
    &&& unit.round() > 0 && progress::all_known(known, unit) ==> reconstruction::parents_match::<H>(
        unit,
        progress::gathered(known, unit),
    )
}

/// Different units at different coordinates, whose control hashes were made of one another.
pub open spec fn agreeing<H: Hasher>(units: Seq<UnitView<HashOf<H>>>) -> bool {
    &&& all_different(units)
    &&& forall|i: int| 0 <= i < units.len() ==> parents_agree::<H>(units, #[trigger] units[i])
}

/// Whether all the parents of a unit are among the given units. There have to be some unless the
/// unit is an initial one.
pub open spec fn has_all_parents<V>(units: Seq<UnitView<V>>, unit: UnitView<V>) -> bool {
    unit.round() == 0 || unit.parents().len() > 0 && progress::all_known(by_coords(units), unit)
}

/// Different units at different coordinates, with all their parents, of which their control hashes
/// were made.
pub open spec fn complete<H: Hasher>(units: Seq<UnitView<HashOf<H>>>) -> bool {
    &&& agreeing::<H>(units)
    &&& forall|i: int| 0 <= i < units.len() ==> has_all_parents(units, #[trigger] units[i])
}

/// Whether a unit has come out.
pub open spec fn returned<V>(out: Seq<ReconstructedView<V>>, unit: UnitView<V>) -> bool {
    exists|k: int| 0 <= k < out.len() && (#[trigger] out[k]).unit == unit
}

/// Each of the units comes out exactly once, and nothing else does.
pub open spec fn each_once<V>(units: Seq<UnitView<V>>, out: Seq<ReconstructedView<V>>) -> bool {
    &&& forall|i: int|
        0 <= i < units.len() ==> returned(out, #[trigger] units[i])
    &&& forall|found: ReconstructedView<V>| #[trigger]
        out.contains(found) ==> units.contains(found.unit)
    &&& forall|j: int, k: int|
        0 <= j < k < out.len() ==> (#[trigger] out[j]).unit.hash != (#[trigger] out[k]).unit.hash
}

/// The known coordinates are those of the units, with the hashes of the units there.
pub proof fn lemma_by_coords<V>(units: Seq<UnitView<V>>)
    ensures
        forall|coord: UnitCoord| #[trigger]
            by_coords(units).contains_key(coord) <==> exists|i: int|
                0 <= i < units.len() && (#[trigger] units[i]).coord() == coord,
        all_different(units) ==> forall|i: int|
            0 <= i < units.len() ==> by_coords(units)[(#[trigger] units[i]).coord()]
                == units[i].hash,
    decreases units.len(),
{
    if units.len() > 0 {
        let rest = units.drop_last();
        lemma_by_coords(rest);
        let n = rest.len() as int;
        assert(units[n] == units.last());
        assert forall|coord: UnitCoord| #[trigger]
            by_coords(units).contains_key(coord) <==> exists|i: int|
                0 <= i < units.len() && (#[trigger] units[i]).coord() == coord by {
            if by_coords(rest).contains_key(coord) {
                let i = choose|i: int| 0 <= i < rest.len() && (#[trigger] rest[i]).coord() == coord;
                assert(units[i].coord() == coord);
            }
            if coord == units.last().coord() {
                assert(units[n].coord() == coord);
            }
            if exists|i: int| 0 <= i < units.len() && (#[trigger] units[i]).coord() == coord {
                let i = choose|i: int|
                    0 <= i < units.len() && (#[trigger] units[i]).coord() == coord;
                if i < n {
                    assert(rest[i].coord() == coord);
                }
            }
        }
        if all_different(units) {
            assert forall|i: int, j: int| 0 <= i < j < rest.len() implies (
            #[trigger] rest[i]).hash != (#[trigger] rest[j]).hash by {
                assert(units[i] == rest[i] && units[j] == rest[j]);
            }
            assert forall|i: int, j: int| 0 <= i < j < rest.len() implies (
            #[trigger] rest[i]).coord() != (#[trigger] rest[j]).coord() by {
                assert(units[i] == rest[i] && units[j] == rest[j]);
            }
            assert(all_different(rest));
            assert forall|i: int| 0 <= i < units.len() implies by_coords(
                units,
            )[(#[trigger] units[i]).coord()] == units[i].hash by {
                if i < n {
                    assert(units[i] == rest[i]);
                    assert(units[i].coord() != units[n].coord());
                }
            }
        }
    }
}

/// A unit all of whose parents are among the first units has the same parents among all of them.
proof fn lemma_same_parents<V>(all: Seq<UnitView<V>>, n: int, unit: UnitView<V>)
    requires
        0 <= n <= all.len(),
        all_different(all),
        unit.round() > 0,
        unit.n_members() <= usize::MAX,
        progress::all_known(by_coords(all.take(n)), unit),
    ensures
        progress::gathered(by_coords(all.take(n)), unit) == progress::gathered(
            by_coords(all),
            unit,
        ),
{
    let some = all.take(n);
    lemma_by_coords(all);
    lemma_by_coords(some);
    assert(all_different(some)) by {
        assert forall|i: int, j: int| 0 <= i < j < some.len() implies (#[trigger] some[i]).hash
            != (#[trigger] some[j]).hash by {
            assert(all[i] == some[i] && all[j] == some[j]);
        }
        assert forall|i: int, j: int| 0 <= i < j < some.len() implies (#[trigger] some[i]).coord()
            != (#[trigger] some[j]).coord() by {
            assert(all[i] == some[i] && all[j] == some[j]);
        }
    }
    let a = progress::gathered(by_coords(some), unit);
    let b = progress::gathered(by_coords(all), unit);
    assert forall|i: int| 0 <= i < unit.n_members() implies a[i] == b[i] by {
        if unit.pre_unit.control_hash.parents_mask[i] {
            let coord = progress::parent_coord(unit, i);
            assert(progress::is_parent_coord(unit, coord));
            assert(by_coords(some).contains_key(coord));
            let j = choose|j: int| 0 <= j < some.len() && (#[trigger] some[j]).coord() == coord;
            assert(all[j] == some[j]);
            assert(by_coords(all)[all[j].coord()] == all[j].hash);
            assert(by_coords(some)[some[j].coord()] == some[j].hash);
        }
    }
    assert(a =~= b);
}

/// Whether a unit is one of the first `n`.
spec fn among<V>(all: Seq<UnitView<V>>, n: int, unit: UnitView<V>) -> bool {
    exists|i: int| 0 <= i < n && #[trigger] all[i] == unit
}

/// What holds once the first `n` units have been added.
spec fn under_way<H: Hasher>(
    all: Seq<UnitView<HashOf<H>>>,
    n: int,
    state: ReconstructionView<HashOf<H>>,
    result: ResultView<HashOf<H>>,
) -> bool {
    let units = all.take(n);
    &&& progress::on_track(state)
    &&& state.by_coord == by_coords(units)
    &&& forall|coord: UnitCoord, hash: HashOf<H>| #[trigger]
        state.children(coord).contains(hash) ==> exists|i: int|
            0 <= i < n && (#[trigger] all[i]).hash == hash
    &&& forall|hash: HashOf<H>| #[trigger]
        state.reconstructing.contains_key(hash) ==> state.reconstructing[hash] is Reconstructing
            && among(all, n, state.reconstructing[hash].unit())
    &&& forall|i: int|
        0 <= i < n ==> state.reconstructing.contains_key((#[trigger] all[i]).hash) || returned(
            result.units,
            all[i],
        )
    &&& forall|k: int|
        0 <= k < result.units.len() ==> {
            &&& !state.reconstructing.contains_key((#[trigger] result.units[k]).unit.hash)
            &&& progress::with_known_parents::<H>(by_coords(all), result.units[k])
            &&& among(all, n, result.units[k].unit)
        }
    &&& forall|j: int, k: int|
        0 <= j < k < result.units.len() ==> (#[trigger] result.units[j]).unit.hash != (
        #[trigger] result.units[k]).unit.hash
    &&& forall|k: int| 0 <= k < result.requests.len() ==> #[trigger] result.requests[k] is Coord
}

proof fn lemma_one_under_way<H: Hasher>(
    all: Seq<UnitView<HashOf<H>>>,
    n: int,
    state: ReconstructionView<HashOf<H>>,
    result: ResultView<HashOf<H>>,
)
    requires
        agreeing::<H>(all),
        0 <= n < all.len(),
        under_way::<H>(all, n, state, result),
    ensures
        ({
            let (after, more) = parents::unit_added::<H>(state, all[n]);
            under_way::<H>(all, n + 1, after, result.and(more))
        }),
{
    let unit = all[n];
    let units = all.take(n);
    let next = all.take(n + 1);
    assert(parents_agree::<H>(all, unit));
    let (after, more) = parents::unit_added::<H>(state, unit);
    let both = result.and(more);
    assert(!state.reconstructing.contains_key(unit.hash)) by {
        if state.reconstructing.contains_key(unit.hash) {
            assert(progress::unit_on_track(state, unit.hash));
            let i = choose|i: int|
                0 <= i < n && #[trigger] all[i] == state.reconstructing[unit.hash].unit();
            assert(all[i].hash != all[n].hash);
        }
    }
    assert(progress::fits(state, unit)) by {
        assert forall|coord: UnitCoord| #[trigger]
            state.children(coord).contains(
                unit.hash,
            ) implies progress::is_parent_coord(unit, coord) by {
            let i = choose|i: int| 0 <= i < n && (#[trigger] all[i]).hash == unit.hash;
            assert(all[i].hash != all[n].hash);
        }
    }
    progress::lemma_added::<H>(state, unit);
    let before = progress::in_process(state).insert(unit.hash, unit);
    assert(next.drop_last() =~= units);
    assert(next.last() == unit);
    lemma_by_coords(units);
    assert(!state.by_coord.contains_key(unit.coord())) by {
        if state.by_coord.contains_key(unit.coord()) {
            let i = choose|i: int|
                0 <= i < units.len() && (#[trigger] units[i]).coord() == unit.coord();
            assert(all[i] == units[i]);
            assert(all[i].coord() != all[n].coord());
        }
    }
    assert(after.by_coord =~= by_coords(next));
    // the parents of every unit among all the units match
    assert forall|found: UnitView<HashOf<H>>, i: int|
        #![trigger all[i], progress::all_known(after.by_coord, found)]
        0 <= i <= n && all[i] == found && found.round() > 0 && progress::all_known(
            after.by_coord,
            found,
        ) implies progress::gathered(after.by_coord, found) == progress::gathered(
        by_coords(all),
        found,
    ) && reconstruction::parents_match::<H>(
        found,
        progress::gathered(after.by_coord, found),
    ) && progress::all_known(by_coords(all), found) by {
        assert(parents_agree::<H>(all, all[i]));
        lemma_same_parents(all, n + 1, found);
        assert(progress::all_known(by_coords(all), found)) by {
            lemma_by_coords(all);
            lemma_by_coords(next);
            assert forall|coord: UnitCoord| #[trigger]
                progress::is_parent_coord(found, coord) implies by_coords(all).contains_key(
                coord,
            ) by {
                assert(by_coords(next).contains_key(coord));
                let j = choose|j: int| 0 <= j < next.len() && (#[trigger] next[j]).coord() == coord;
                assert(all[j].coord() == coord);
            }
        }
    }
    assert forall|hash: HashOf<H>| #[trigger] before.contains_key(hash) implies among(
        all,
        n + 1,
        before[hash],
    ) by {
        if hash == unit.hash {
            assert(all[n] == unit);
        } else {
            assert(state.reconstructing.contains_key(hash));
            assert(among(all, n, before[hash]));
        }
    }
    assert forall|hash: HashOf<H>| #[trigger]
        after.reconstructing.contains_key(hash) implies after.reconstructing[hash] is Reconstructing
        && among(all, n + 1, after.reconstructing[hash].unit()) by {
        assert(before.contains_key(hash));
        let i = choose|i: int| 0 <= i < n + 1 && #[trigger] all[i] == before[hash];
        assert(all[i] == after.reconstructing[hash].unit());
        assert(progress::unit_on_track(after, hash));
        if after.reconstructing[hash] is WaitingForParents {
            let found = after.reconstructing[hash].unit();
            assert(progress::all_known(after.by_coord, found));
        }
    }
    assert forall|k: int| 0 <= k < both.units.len() implies #[trigger] both.units[k] == (if k
        < result.units.len() {
        result.units[k]
    } else {
        more.units[k - result.units.len()]
    }) by {}
    assert forall|k: int| 0 <= k < both.units.len() implies {
        &&& !after.reconstructing.contains_key((#[trigger] both.units[k]).unit.hash)
        &&& progress::with_known_parents::<H>(by_coords(all), both.units[k])
        &&& among(all, n + 1, both.units[k].unit)
    } by {
        let found = both.units[k].unit;
        if k < result.units.len() {
            let i = choose|i: int| 0 <= i < n && #[trigger] all[i] == result.units[k].unit;
            assert(all[i] == found);
            if after.reconstructing.contains_key(found.hash) {
                assert(before.contains_key(found.hash));
                assert(all[i].hash != all[n].hash);
                assert(state.reconstructing.contains_key(found.hash));
            }
        } else {
            let w = more.units[k - result.units.len()];
            assert(w == both.units[k]);
            assert(before.contains_key(found.hash));
            let i = choose|i: int| 0 <= i < n + 1 && #[trigger] all[i] == before[found.hash];
            assert(all[i] == found);
            if found.round() > 0 {
                assert(progress::all_known(after.by_coord, found));
            }
        }
    }
    assert forall|j: int, k: int| 0 <= j < k < both.units.len() implies (
    #[trigger] both.units[j]).unit.hash != (#[trigger] both.units[k]).unit.hash by {
        if k >= result.units.len() && j < result.units.len() {
            let w = more.units[k - result.units.len()];
            assert(before.contains_key(w.unit.hash));
            let i = choose|i: int| 0 <= i < n && #[trigger] all[i] == result.units[j].unit;
            assert(all[i].hash != all[n].hash);
            assert(!state.reconstructing.contains_key(result.units[j].unit.hash));
        }
    }
    assert forall|i: int| 0 <= i < n + 1 implies after.reconstructing.contains_key(
        (#[trigger] all[i]).hash,
    ) || returned(both.units, all[i]) by {
        let hash = all[i].hash;
        if !after.reconstructing.contains_key(hash) {
            if i == n || state.reconstructing.contains_key(hash) {
                assert(before.contains_key(hash));
                let k = choose|k: int|
                    0 <= k < more.units.len() && (#[trigger] more.units[k]).unit.hash == hash;
                assert(both.units[k + result.units.len()] == more.units[k]);
                let j = choose|j: int| 0 <= j < n + 1 && #[trigger] all[j] == before[hash];
                assert(all[j] == more.units[k].unit);
                if j < i {
                    assert(all[j].hash != all[i].hash);
                } else if i < j {
                    assert(all[i].hash != all[j].hash);
                }
            } else {
                let k = choose|k: int|
                    0 <= k < result.units.len() && (#[trigger] result.units[k]).unit == all[i];
                assert(both.units[k].unit == all[i]);
            }
        }
    }
    assert forall|coord: UnitCoord, hash: HashOf<H>| #[trigger]
        after.children(coord).contains(hash) implies exists|i: int|
        0 <= i < n + 1 && (#[trigger] all[i]).hash == hash by {
        if state.children(coord).contains(hash) {
            let i = choose|i: int| 0 <= i < n && (#[trigger] all[i]).hash == hash;
            assert(all[i].hash == hash);
        } else {
            assert(all[n].hash == hash);
        }
    }
    assert forall|k: int| 0 <= k < both.requests.len() implies #[trigger] both.requests[k] is Coord by {
        if k < result.requests.len() {
            assert(both.requests[k] == result.requests[k]);
        } else {
            let request = more.requests[k - result.requests.len()];
            assert(both.requests[k] == request);
            if let RequestView::ParentsOf(hash) = request {
                assert(after.reconstructing.contains_key(hash));
                assert(after.reconstructing[hash] is Reconstructing);
            }
        }
    }
}

proof fn lemma_under_way<H: Hasher>(all: Seq<UnitView<HashOf<H>>>, n: int)
    requires
        agreeing::<H>(all),
        0 <= n <= all.len(),
    ensures
        ({
            let (after, result) = all_added::<H>(ReconstructionView::fresh(), all.take(n));
            under_way::<H>(all, n, after, result)
        }),
    decreases n,
{
    let fresh = ReconstructionView::<HashOf<H>>::fresh();
    if n > 0 {
        lemma_under_way::<H>(all, n - 1);
        let (before, so_far) = all_added::<H>(fresh, all.take(n - 1));
        assert(all.take(n).drop_last() =~= all.take(n - 1));
        assert(all.take(n).last() == all[n - 1]);
        lemma_one_under_way::<H>(all, n - 1, before, so_far);
    } else {
        assert(all.take(0) =~= seq![]);
        assert(fresh.by_coord =~= by_coords(all.take(0)));
    }
}

/// A unit that has not been added yet is not in the process.
pub proof fn lemma_not_in_process<H: Hasher>(all: Seq<UnitView<HashOf<H>>>, n: int)
    requires
        agreeing::<H>(all),
        0 <= n < all.len(),
    ensures
        !all_added::<H>(
            ReconstructionView::fresh(),
            all.take(n),
        ).0.reconstructing.contains_key(all[n].hash),
{
    lemma_under_way::<H>(all, n);
    let state = all_added::<H>(ReconstructionView::fresh(), all.take(n)).0;
    if state.reconstructing.contains_key(all[n].hash) {
        assert(progress::unit_on_track(state, all[n].hash));
        assert(among(all, n, state.reconstructing[all[n].hash].unit()));
        let i = choose|i: int|
            0 <= i < n && #[trigger] all[i] == state.reconstructing[all[n].hash].unit();
        assert(all[i].hash != all[n].hash);
    }
}

/// If units at different coordinates, whose control hashes were made of one another, are added to a
/// new reconstruction, in whatever order, then those of them come out that have all their parents
/// among them, each exactly once and with its parents. No list of parents is requested.
pub proof fn law_units_with_parents_returned<H: Hasher>(units: Seq<UnitView<HashOf<H>>>)
    requires
        agreeing::<H>(units),
    ensures
        ({
            let (after, result) = all_added::<H>(ReconstructionView::fresh(), units);
            &&& forall|i: int|
                0 <= i < units.len() ==> (returned(result.units, #[trigger] units[i])
                    <==> has_all_parents(units, units[i]))
            &&& forall|found: ReconstructedView<HashOf<H>>| #[trigger]
                result.units.contains(found) ==> units.contains(found.unit)
            &&& forall|j: int, k: int|
                0 <= j < k < result.units.len() ==> (#[trigger] result.units[j]).unit.hash != (
                #[trigger] result.units[k]).unit.hash
            &&& forall|k: int|
                0 <= k < result.units.len() ==> progress::with_known_parents::<H>(
                    by_coords(units),
                    #[trigger] result.units[k],
                )
            &&& forall|k: int|
                0 <= k < result.requests.len() ==> !(#[trigger] result.requests[k] is ParentsOf)
        }),
{
    let n = units.len() as int;
    assert(units.take(n) =~= units);
    lemma_under_way::<H>(units, n);
    let (after, result) = all_added::<H>(ReconstructionView::fresh(), units);
    assert forall|i: int| 0 <= i < units.len() implies (returned(
        result.units,
        #[trigger] units[i],
    ) <==> has_all_parents(units, units[i])) by {
        let hash = units[i].hash;
        if after.reconstructing.contains_key(hash) {
            assert(progress::unit_on_track(after, hash));
            assert(among(units, n, after.reconstructing[hash].unit()));
            let j = choose|j: int|
                0 <= j < n && #[trigger] units[j] == after.reconstructing[hash].unit();
            if j < i {
                assert(units[j].hash != units[i].hash);
            } else if i < j {
                assert(units[i].hash != units[j].hash);
            }
            if returned(result.units, units[i]) {
                let k = choose|k: int|
                    0 <= k < result.units.len() && (#[trigger] result.units[k]).unit == units[i];
                assert(!after.reconstructing.contains_key(result.units[k].unit.hash));
            }
        } else {
            assert(returned(result.units, units[i]));
            let k = choose|k: int|
                0 <= k < result.units.len() && (#[trigger] result.units[k]).unit == units[i];
            assert(progress::with_known_parents::<H>(by_coords(units), result.units[k]));
        }
    }
    assert forall|found: ReconstructedView<HashOf<H>>| #[trigger]
        result.units.contains(found) implies units.contains(found.unit) by {
        let k = choose|k: int| 0 <= k < result.units.len() && result.units[k] == found;
        assert(!after.reconstructing.contains_key(result.units[k].unit.hash));
    }
}

/// All the units come back reconstructed: if units at different coordinates and with all their
/// parents are added to a new reconstruction, in whatever order, then each of them comes out exactly
/// once, with its parents; no list of parents is requested, and nothing is left in the process.
pub proof fn law_all_units_returned<H: Hasher>(units: Seq<UnitView<HashOf<H>>>)
    requires
        complete::<H>(units),
    ensures
        ({
            let (after, result) = all_added::<H>(ReconstructionView::fresh(), units);
            &&& each_once(units, result.units)
            &&& forall|k: int|
                0 <= k < result.units.len() ==> progress::with_known_parents::<H>(
                    by_coords(units),
                    #[trigger] result.units[k],
                )
            &&& forall|k: int|
                0 <= k < result.requests.len() ==> !(#[trigger] result.requests[k] is ParentsOf)
            &&& forall|hash: HashOf<H>| !#[trigger] after.reconstructing.contains_key(hash)
        }),
{
    let n = units.len() as int;
    assert(units.take(n) =~= units);
    lemma_under_way::<H>(units, n);
    law_units_with_parents_returned::<H>(units);
    let (after, result) = all_added::<H>(ReconstructionView::fresh(), units);
    assert forall|hash: HashOf<H>| !#[trigger] after.reconstructing.contains_key(hash) by {
        if after.reconstructing.contains_key(hash) {
            assert(progress::unit_on_track(after, hash));
            assert(among(units, n, after.reconstructing[hash].unit()));
            let i = choose|i: int|
                0 <= i < n && #[trigger] units[i] == after.reconstructing[hash].unit();
            assert(has_all_parents(units, units[i]));
        }
    }
}

/// What can be done to a reconstruction.
pub enum Call<V> {
    /// A unit is added.
    Unit(UnitView<V>),
    /// An explicit list of the parents of a unit is added.
    Parents(V, Seq<V>),
}

/// What a call does.
pub open spec fn called<H: Hasher>(
    state: ReconstructionView<HashOf<H>>,
    call: Call<HashOf<H>>,
) -> (ReconstructionView<HashOf<H>>, ResultView<HashOf<H>>) {
    match call {
        Call::Unit(unit) => parents::unit_added::<H>(state, unit),
        Call::Parents(hash, parent_hashes) => parents::parents_added::<H>(
            state,
            hash,
            parent_hashes,
        ),
    }
}

/// A new reconstruction after some calls, and all that came out.
pub open spec fn all_called<H: Hasher>(calls: Seq<Call<HashOf<H>>>) -> (
    ReconstructionView<HashOf<H>>,
    ResultView<HashOf<H>>,
)
    decreases calls.len(),
{
    if calls.len() == 0 {
        (ReconstructionView::fresh(), ResultView::nothing())
    } else {
        let (before, result) = all_called::<H>(calls.drop_last());
        let (after, more) = called::<H>(before, calls.last());
        (after, result.and(more))
    }
}

/// Whether a unit was added.
pub open spec fn was_added<V>(calls: Seq<Call<V>>, unit: UnitView<V>) -> bool {
    calls.contains(Call::Unit(unit))
}

/// Whether some unit at the given coordinate was added.
pub open spec fn was_added_at<V>(calls: Seq<Call<V>>, coord: UnitCoord) -> bool {
    exists|i: int|
        0 <= i < calls.len() && (#[trigger] calls[i] matches Call::Unit(unit) && unit.coord()
            == coord)
}

/// Different units that were added have different hashes, and the sizes of their committees can be
/// counted.
pub open spec fn hashes_tell_apart<V>(calls: Seq<Call<V>>) -> bool {
    &&& forall|unit: UnitView<V>| #[trigger]
        was_added(calls, unit) ==> unit.n_members() <= usize::MAX
    &&& forall|unit: UnitView<V>, other: UnitView<V>|
        #![trigger was_added(calls, unit), was_added(calls, other)]
        was_added(calls, unit) && was_added(calls, other) && unit.hash == other.hash ==> unit
            == other
}

proof fn lemma_calls<V>(calls: Seq<Call<V>>)
    requires
        calls.len() > 0,
    ensures
        forall|unit: UnitView<V>| #[trigger]
            was_added(calls, unit) <==> was_added(calls.drop_last(), unit) || calls.last()
                == Call::Unit(unit),
        forall|coord: UnitCoord| #[trigger]
            was_added_at(calls, coord) <==> was_added_at(calls.drop_last(), coord) || (
            calls.last() matches Call::Unit(unit) && unit.coord() == coord),
        hashes_tell_apart(calls) ==> hashes_tell_apart(calls.drop_last()),
{
    let rest = calls.drop_last();
    let n = rest.len() as int;
    assert(calls[n] == calls.last());
    assert forall|unit: UnitView<V>| #[trigger]
        was_added(calls, unit) <==> was_added(rest, unit) || calls.last() == Call::Unit(unit) by {
        if was_added(rest, unit) {
            let i = choose|i: int| 0 <= i < rest.len() && rest[i] == Call::Unit(unit);
            assert(calls[i] == Call::Unit(unit));
        }
        if was_added(calls, unit) {
            let i = choose|i: int| 0 <= i < calls.len() && calls[i] == Call::Unit(unit);
            if i < n {
                assert(rest[i] == Call::Unit(unit));
            }
        }
    }
    assert forall|coord: UnitCoord| #[trigger]
        was_added_at(calls, coord) <==> was_added_at(rest, coord) || (calls.last() matches Call::Unit(
        unit,
    ) && unit.coord() == coord) by {
        if was_added_at(rest, coord) {
            let i = choose|i: int|
                0 <= i < rest.len() && (#[trigger] rest[i] matches Call::Unit(unit) && unit.coord()
                    == coord);
            assert(calls[i] == rest[i]);
        }
        if was_added_at(calls, coord) {
            let i = choose|i: int|
                0 <= i < calls.len() && (#[trigger] calls[i] matches Call::Unit(unit)
                    && unit.coord() == coord);
            if i < n {
                assert(calls[i] == rest[i]);
            }
        }
    }
    if hashes_tell_apart(calls) {
        assert forall|unit: UnitView<V>, other: UnitView<V>|
            #![trigger was_added(rest, unit), was_added(rest, other)]
            was_added(rest, unit) && was_added(rest, other) && unit.hash
                == other.hash implies unit == other by {
            assert(was_added(calls, unit) && was_added(calls, other));
        }
        assert forall|unit: UnitView<V>| #[trigger]
            was_added(rest, unit) implies unit.n_members() <= usize::MAX by {
            assert(was_added(calls, unit));
        }
    }
}

/// What holds after some calls.
spec fn on_record<H: Hasher>(
    calls: Seq<Call<HashOf<H>>>,
    state: ReconstructionView<HashOf<H>>,
) -> bool {
    &&& progress::on_track(state)
    &&& forall|coord: UnitCoord| #[trigger]
        state.by_coord.contains_key(coord) <==> was_added_at(calls, coord)
    &&& forall|coord: UnitCoord, hash: HashOf<H>| #[trigger]
        state.children(coord).contains(hash) ==> exists|unit: UnitView<HashOf<H>>| #[trigger]
            was_added(calls, unit) && unit.hash == hash && progress::is_parent_coord(unit, coord)
    &&& forall|hash: HashOf<H>| #[trigger]
        state.reconstructing.contains_key(hash) ==> was_added(
            calls,
            state.reconstructing[hash].unit(),
        )
    &&& forall|hash: HashOf<H>| #[trigger]
        state.reconstructing.contains_key(hash) ==> (
        state.reconstructing[hash] matches ReconstructingView::WaitingForParents(unit)
            ==> !reconstruction::parents_match::<H>(
            unit,
            progress::gathered(state.by_coord, unit),
        ))
}

/// Units that become known at other coordinates make no difference.
proof fn lemma_gathered_stays<V>(
    before: Map<UnitCoord, V>,
    after: Map<UnitCoord, V>,
    unit: UnitView<V>,
)
    requires
        unit.round() > 0,
        unit.n_members() <= usize::MAX,
        progress::all_known(before, unit),
        forall|coord: UnitCoord| #[trigger]
            before.contains_key(coord) ==> after.contains_key(coord) && after[coord]
                == before[coord],
    ensures
        progress::gathered(after, unit) == progress::gathered(before, unit),
{
    let a = progress::gathered(after, unit);
    let b = progress::gathered(before, unit);
    assert forall|i: int| 0 <= i < unit.n_members() implies a[i] == b[i] by {
        if unit.pre_unit.control_hash.parents_mask[i] {
            assert(progress::is_parent_coord(unit, progress::parent_coord(unit, i)));
        }
    }
    assert(a =~= b);
}

/// The last of the calls finds a state that it fits.
proof fn lemma_fits<H: Hasher>(
    calls: Seq<Call<HashOf<H>>>,
    state: ReconstructionView<HashOf<H>>,
    unit: UnitView<HashOf<H>>,
)
    requires
        on_record::<H>(calls, state),
        hashes_tell_apart(calls.push(Call::Unit(unit))),
    ensures
        progress::fits(state, unit),
        state.reconstructing.contains_key(unit.hash) ==> was_added(calls, unit),
{
    let more = calls.push(Call::Unit(unit));
    assert(more.drop_last() =~= calls);
    lemma_calls(more);
    assert(was_added(more, unit));
    assert forall|coord: UnitCoord| #[trigger]
        state.children(coord).contains(unit.hash) implies progress::is_parent_coord(unit, coord) by {
        let other = choose|other: UnitView<HashOf<H>>| #[trigger]
            was_added(calls, other) && other.hash == unit.hash && progress::is_parent_coord(
                other,
                coord,
            );
        assert(was_added(more, other));
    }
    if state.reconstructing.contains_key(unit.hash) {
        assert(progress::unit_on_track(state, unit.hash));
        assert(was_added(more, state.reconstructing[unit.hash].unit()));
    }
}

proof fn lemma_on_record<H: Hasher>(calls: Seq<Call<HashOf<H>>>)
    requires
        hashes_tell_apart(calls),
    ensures
        on_record::<H>(calls, all_called::<H>(calls).0),
    decreases calls.len(),
{
    if calls.len() == 0 {
        assert forall|coord: UnitCoord| !#[trigger] was_added_at(calls, coord) by {}
    } else {
        let rest = calls.drop_last();
        lemma_calls(calls);
        lemma_on_record::<H>(rest);
        let before = all_called::<H>(rest).0;
        let after = all_called::<H>(calls).0;
        match calls.last() {
            Call::Unit(unit) => {
                assert(calls =~= rest.push(Call::Unit(unit)));
                lemma_fits::<H>(rest, before, unit);
                if before.reconstructing.contains_key(unit.hash) {
                    assert(was_added(rest, unit));
                    let i = choose|i: int| 0 <= i < rest.len() && rest[i] == Call::Unit(unit);
                    assert(rest[i] matches Call::Unit(u) && u.coord() == unit.coord());
                    assert(was_added_at(rest, unit.coord()));
                } else {
                    progress::lemma_added::<H>(before, unit);
                }
                assert forall|coord: UnitCoord, hash: HashOf<H>| #[trigger]
                    after.children(coord).contains(hash) implies exists|u: UnitView<HashOf<H>>|
                 #[trigger]
                    was_added(calls, u) && u.hash == hash && progress::is_parent_coord(
                        u,
                        coord,
                    ) by {
                    if before.children(coord).contains(hash) {
                        let u = choose|u: UnitView<HashOf<H>>| #[trigger]
                            was_added(rest, u) && u.hash == hash && progress::is_parent_coord(
                                u,
                                coord,
                            );
                        assert(was_added(calls, u));
                    } else {
                        assert(was_added(calls, unit));
                    }
                }
                assert forall|hash: HashOf<H>| #[trigger]
                    after.reconstructing.contains_key(hash) implies was_added(
                    calls,
                    after.reconstructing[hash].unit(),
                ) by {
                    if hash != unit.hash || before.reconstructing.contains_key(unit.hash) {
                        assert(before.reconstructing.contains_key(hash));
                        assert(was_added(rest, before.reconstructing[hash].unit()));
                    }
                }
                assert forall|coord: UnitCoord| #[trigger]
                    after.by_coord.contains_key(coord) <==> was_added_at(calls, coord) by {
                    assert(before.by_coord.contains_key(coord) <==> was_added_at(rest, coord));
                }
                assert forall|hash: HashOf<H>| #[trigger]
                    after.reconstructing.contains_key(hash) implies (
                after.reconstructing[hash] matches ReconstructingView::WaitingForParents(u)
                    ==> !reconstruction::parents_match::<H>(
                    u,
                    progress::gathered(after.by_coord, u),
                )) by {
                    if let ReconstructingView::WaitingForParents(u) = after.reconstructing[hash] {
                        if before.reconstructing.contains_key(hash)
                            && before.reconstructing[hash] is WaitingForParents {
                            assert(progress::unit_on_track(before, hash));
                            lemma_gathered_stays(before.by_coord, after.by_coord, u);
                        }
                    }
                }
            },
            Call::Parents(hash, parent_hashes) => {
                progress::lemma_parents_added::<H>(before, hash, parent_hashes);
                assert forall|coord: UnitCoord, h: HashOf<H>| #[trigger]
                    after.children(coord).contains(h) implies exists|u: UnitView<HashOf<H>>|
                 #[trigger]
                    was_added(calls, u) && u.hash == h && progress::is_parent_coord(u, coord) by {
                    assert(before.children(coord).contains(h));
                    let u = choose|u: UnitView<HashOf<H>>| #[trigger]
                        was_added(rest, u) && u.hash == h && progress::is_parent_coord(u, coord);
                    assert(was_added(calls, u));
                }
                assert forall|h: HashOf<H>| #[trigger]
                    after.reconstructing.contains_key(h) implies was_added(
                    calls,
                    after.reconstructing[h].unit(),
                ) by {
                    assert(before.reconstructing.contains_key(h));
                }
                assert forall|coord: UnitCoord| #[trigger]
                    after.by_coord.contains_key(coord) <==> was_added_at(calls, coord) by {
                    assert(before.by_coord.contains_key(coord) <==> was_added_at(rest, coord));
                }
            },
        }
    }
}

/// Whatever was called before, the units that come out when a unit is added are units that were
/// added. An initial unit has no parents; any other has a parent exactly for each member that its
/// control hash names, and they match the control hash.
pub proof fn law_reconstructed_as_added<H: Hasher>(
    calls: Seq<Call<HashOf<H>>>,
    unit: UnitView<HashOf<H>>,
    k: int,
)
    requires
        hashes_tell_apart(calls.push(Call::Unit(unit))),
        0 <= k < parents::unit_added::<H>(all_called::<H>(calls).0, unit).1.units.len(),
    ensures
        ({
            let found = parents::unit_added::<H>(all_called::<H>(calls).0, unit).1.units[k];
            &&& was_added(calls.push(Call::Unit(unit)), found.unit)
            &&& found.unit.round() == 0 ==> found.parents == nodes::empty::<HashOf<H>>(
                found.unit.n_members(),
            )
            &&& found.unit.round() > 0 ==> nodes::mask(found.parents)
                == found.unit.pre_unit.control_hash.parents_mask
                && reconstruction::parents_match::<H>(found.unit, found.parents)
        }),
{
    let more = calls.push(Call::Unit(unit));
    assert(more.drop_last() =~= calls);
    lemma_calls(more);
    lemma_on_record::<H>(calls);
    let state = all_called::<H>(calls).0;
    lemma_fits::<H>(calls, state, unit);
    progress::lemma_added::<H>(state, unit);
    let (after, result) = parents::unit_added::<H>(state, unit);
    let found = result.units[k];
    let hash = found.unit.hash;
    assert(progress::in_process(state).insert(unit.hash, unit).contains_key(hash));
    assert(was_added(more, found.unit)) by {
        if hash != unit.hash {
            assert(state.reconstructing.contains_key(hash));
        }
    }
    if found.unit.round() > 0 {
        let mask = found.unit.pre_unit.control_hash.parents_mask;
        assert forall|i: int| 0 <= i < mask.len() implies nodes::mask(found.parents)[i]
            == mask[i] by {
            if mask[i] {
                assert(progress::is_parent_coord(
                    found.unit,
                    progress::parent_coord(found.unit, i),
                ));
            }
        }
        assert(nodes::mask(found.parents) =~= mask);
    }
}

/// The units in the process are kept under their hashes.
proof fn lemma_hashed<H: Hasher>(calls: Seq<Call<HashOf<H>>>)
    ensures
        laws::keyed(all_called::<H>(calls).0),
    decreases calls.len(),
{
    if calls.len() > 0 {
        lemma_hashed::<H>(calls.drop_last());
        lemma_call_leaves::<H>(all_called::<H>(calls.drop_last()).0, calls.last());
    }
}

/// Whatever leaves the process comes out.
proof fn lemma_call_leaves<H: Hasher>(
    state: ReconstructionView<HashOf<H>>,
    call: Call<HashOf<H>>,
)
    requires
        laws::keyed(state),
    ensures
        ({
            let (after, result) = called::<H>(state, call);
            &&& laws::keyed(after)
            &&& forall|hash: HashOf<H>|
                (state.reconstructing.contains_key(hash) || (call matches Call::Unit(unit)
                    && unit.hash == hash)) && !#[trigger] after.reconstructing.contains_key(hash)
                    ==> laws::came_out(result.units, hash)
        }),
{
    match call {
        Call::Unit(unit) => {
            laws::lemma_unit_added::<H>(state, unit);
        },
        Call::Parents(hash, parent_hashes) => {
            let (after, result) = called::<H>(state, call);
            assert forall|h: HashOf<H>|
                state.reconstructing.contains_key(h) && !#[trigger] after.reconstructing.contains_key(
                    h,
                ) implies laws::came_out(result.units, h) by {
                assert(result.units[0].unit.hash == h);
            }
            assert forall|h: HashOf<H>| #[trigger]
                after.reconstructing.contains_key(h) implies after.reconstructing[h].unit().hash
                == h by {
                assert(state.reconstructing.contains_key(h));
            }
        },
    }
}

/// A unit that was added is in the process until it comes out.
proof fn lemma_in_process_or_out<H: Hasher>(
    calls: Seq<Call<HashOf<H>>>,
    unit: UnitView<HashOf<H>>,
)
    requires
        was_added(calls, unit),
        unit.round() > 0,
    ensures
        all_called::<H>(calls).0.reconstructing.contains_key(unit.hash) || laws::came_out(
            all_called::<H>(calls).1.units,
            unit.hash,
        ),
    decreases calls.len(),
{
    let rest = calls.drop_last();
    lemma_calls(calls);
    let (before, so_far) = all_called::<H>(rest);
    let (after, result) = all_called::<H>(calls);
    let more = called::<H>(before, calls.last()).1;
    assert(result == so_far.and(more));
    lemma_hashed::<H>(rest);
    lemma_call_leaves::<H>(before, calls.last());
    if was_added(rest, unit) {
        lemma_in_process_or_out::<H>(rest, unit);
        if laws::came_out(so_far.units, unit.hash) {
            let k = choose|k: int|
                0 <= k < so_far.units.len() && (#[trigger] so_far.units[k]).unit.hash == unit.hash;
            assert(result.units[k].unit.hash == unit.hash);
        } else if !after.reconstructing.contains_key(unit.hash) {
            assert(laws::came_out(more.units, unit.hash));
        }
    }
    if laws::came_out(more.units, unit.hash) {
        let k = choose|k: int|
            0 <= k < more.units.len() && (#[trigger] more.units[k]).unit.hash == unit.hash;
        assert(result.units[k + so_far.units.len()].unit.hash == unit.hash);
    }
}

/// Adding a unit again that was added before and has not come out yet does nothing at all, whatever
/// else was called.
pub proof fn law_added_again_ignored<H: Hasher>(
    calls: Seq<Call<HashOf<H>>>,
    unit: UnitView<HashOf<H>>,
)
    requires
        was_added(calls, unit),
        unit.round() > 0,
        !laws::came_out(all_called::<H>(calls).1.units, unit.hash),
    ensures
        parents::unit_added::<H>(all_called::<H>(calls).0, unit) == (
            all_called::<H>(calls).0,
            ResultView::<HashOf<H>>::nothing(),
        ),
{
    lemma_in_process_or_out::<H>(calls, unit);
}

/// Whatever else was called, a unit has come out as soon as it and units at the coordinates of all
/// its parents were added, in whatever order, if those known first there match its control hash.
pub proof fn law_complete_unit_out<H: Hasher>(
    calls: Seq<Call<HashOf<H>>>,
    unit: UnitView<HashOf<H>>,
)
    requires
        hashes_tell_apart(calls),
        was_added(calls, unit),
        unit.round() > 0,
        unit.parents().len() > 0,
        forall|coord: UnitCoord| #[trigger]
            progress::is_parent_coord(unit, coord) ==> was_added_at(calls, coord),
        reconstruction::parents_match::<H>(
            unit,
            progress::gathered(all_called::<H>(calls).0.by_coord, unit),
        ),
    ensures
        laws::came_out(all_called::<H>(calls).1.units, unit.hash),
{
    lemma_on_record::<H>(calls);
    lemma_in_process_or_out::<H>(calls, unit);
    let state = all_called::<H>(calls).0;
    if state.reconstructing.contains_key(unit.hash) {
        assert(progress::unit_on_track(state, unit.hash));
        assert(was_added(calls, state.reconstructing[unit.hash].unit()));
        assert(progress::all_known(state.by_coord, unit)) by {
            assert forall|coord: UnitCoord| #[trigger]
                progress::is_parent_coord(unit, coord) implies state.by_coord.contains_key(
                coord,
            ) by {
                assert(was_added_at(calls, coord));
            }
        }
    }
}

/// The requests that come with known parents are for lists of parents.
proof fn lemma_no_coords_known<H: Hasher>(
    state: ReconstructionView<HashOf<H>>,
    children: Seq<HashOf<H>>,
    parent_id: NodeIndex,
    parent_hash: HashOf<H>,
)
    ensures
        progress::coord_requests(
            parents::parent_known_to_all::<H>(
                state,
                children,
                parent_id,
                parent_hash,
            ).1.requests,
        ).len() == 0,
    decreases children.len(),
{
    if children.len() > 0 {
        let rest = children.drop_last();
        lemma_no_coords_known::<H>(state, rest, parent_id, parent_hash);
        let (middle, first) = parents::parent_known_to_all::<H>(
            state,
            rest,
            parent_id,
            parent_hash,
        );
        let more = parents::parent_known::<H>(middle, children.last(), parent_id, parent_hash).1;
        progress::lemma_requests_together(first.requests, more.requests);
        lemma_no_coords::<H>(middle, children.last(), parent_id, parent_hash);
    }
}

proof fn lemma_no_coords<H: Hasher>(
    state: ReconstructionView<HashOf<H>>,
    child: HashOf<H>,
    parent_id: NodeIndex,
    parent_hash: HashOf<H>,
)
    ensures
        progress::coord_requests(
            parents::parent_known::<H>(state, child, parent_id, parent_hash).1.requests,
        ).len() == 0,
{
    reveal_with_fuel(progress::coord_requests, 2);
}

/// A unit that looks for its parents requests exactly those that are missing.
proof fn lemma_missing_requested<H: Hasher>(
    state: ReconstructionView<HashOf<H>>,
    hash: HashOf<H>,
    coords: Seq<UnitCoord>,
)
    ensures
        parents::parents_sought::<H>(state, hash, coords).0.by_coord == state.by_coord,
        progress::coord_requests(
            parents::parents_sought::<H>(state, hash, coords).1.requests,
        ) == progress::missing(state.by_coord, coords),
    decreases coords.len(),
{
    reveal(Seq::filter);
    reveal_with_fuel(progress::coord_requests, 2);
    if coords.len() > 0 {
        let rest = coords.drop_last();
        lemma_missing_requested::<H>(state, hash, rest);
        let (middle, first) = parents::parents_sought::<H>(state, hash, rest);
        let result = parents::parents_sought::<H>(state, hash, coords).1;
        let coord = coords.last();
        if state.by_coord.contains_key(coord) {
            let more = parents::parent_known::<H>(
                middle,
                hash,
                coord.creator,
                middle.by_coord[coord],
            ).1;
            progress::lemma_requests_together(first.requests, more.requests);
            lemma_no_coords::<H>(middle, hash, coord.creator, middle.by_coord[coord]);
            assert(result == first.and(more));
            assert(progress::coord_requests(result.requests) =~= progress::coord_requests(
                first.requests,
            ));
        } else {
            let wanted: Seq<RequestView<HashOf<H>>> = seq![RequestView::Coord(coord)];
            progress::lemma_requests_together(first.requests, wanted);
            assert(wanted.drop_last() =~= seq![]);
            assert(progress::coord_requests(wanted) =~= seq![coord]);
            assert(result.requests == first.requests + wanted);
            assert(progress::coord_requests(result.requests) =~= progress::coord_requests(
                first.requests,
            ).push(coord));
        }
    }
}

/// The coordinates of the parents of a unit at which no unit was ever added, in the order of the
/// members.
pub open spec fn never_added<V>(calls: Seq<Call<V>>, unit: UnitView<V>) -> Seq<UnitCoord> {
    parents::parent_coords(unit).filter(|coord: UnitCoord| !was_added_at(calls, coord))
}

/// Whatever was called before, a unit that is not in the process and not an initial one requests
/// exactly the coordinates of those of its parents at which no unit was ever added, in the order of
/// the members and each once. If there is one, the unit does not come out.
pub proof fn law_exact_requests<H: Hasher>(
    calls: Seq<Call<HashOf<H>>>,
    unit: UnitView<HashOf<H>>,
)
    requires
        hashes_tell_apart(calls.push(Call::Unit(unit))),
        unit.round() > 0,
        !all_called::<H>(calls).0.reconstructing.contains_key(unit.hash),
    ensures
        ({
            let (after, result) = parents::unit_added::<H>(all_called::<H>(calls).0, unit);
            let wanted = progress::coord_requests(result.requests);
            &&& wanted == never_added(calls, unit)
            &&& forall|i: int, j: int|
                0 <= i < j < wanted.len() ==> (#[trigger] wanted[i]).creator.0 < (
                #[trigger] wanted[j]).creator.0
            &&& wanted.len() > 0 ==> !laws::came_out(result.units, unit.hash)
        }),
{
    let more = calls.push(Call::Unit(unit));
    assert(more.drop_last() =~= calls);
    lemma_calls(more);
    lemma_on_record::<H>(calls);
    let state = all_called::<H>(calls).0;
    lemma_fits::<H>(calls, state, unit);
    assert(was_added(more, unit));
    progress::lemma_added::<H>(state, unit);
    progress::lemma_parent_coords(unit);
    let coord = unit.coord();
    let coords = parents::parent_coords(unit);
    let known = state.with_coord(coord, unit.hash).without_waiting(coord);
    let children = state.children(coord);
    let (told, first) = parents::parent_known_to_all::<H>(
        known,
        children,
        unit.creator(),
        unit.hash,
    );
    lemma_no_coords_known::<H>(known, children, unit.creator(), unit.hash);
    lemma_told_by_coord::<H>(known, children, unit.creator(), unit.hash);
    let started = told.with_reconstructing(
        unit.hash,
        ReconstructingView::Reconstructing(unit, nodes::empty(unit.n_members())),
    );
    lemma_missing_requested::<H>(started, unit.hash, coords);
    let sought = parents::parents_sought::<H>(started, unit.hash, coords).1;
    let (after, result) = parents::unit_added::<H>(state, unit);
    assert(result == first.and(sought));
    progress::lemma_requests_together(first.requests, sought.requests);
    let wanted = progress::coord_requests(result.requests);
    assert(wanted =~= progress::missing(started.by_coord, coords));
    lemma_same_filter(
        coords,
        |c: UnitCoord| !started.by_coord.contains_key(c),
        |c: UnitCoord| !was_added_at(calls, c),
    );
    lemma_filter_ascending(coords, |c: UnitCoord| !was_added_at(calls, c));
    if wanted.len() > 0 && laws::came_out(result.units, unit.hash) {
        let k = choose|k: int|
            0 <= k < result.units.len() && (#[trigger] result.units[k]).unit.hash == unit.hash;
        assert(progress::with_known_parents::<H>(after.by_coord, result.units[k]));
        lemma_filtered(coords, |c: UnitCoord| !was_added_at(calls, c));
        let c = wanted[0];
        assert(never_added(calls, unit).contains(c));
        assert(progress::is_parent_coord(unit, c));
        assert(after.by_coord.contains_key(c));
    }
}

proof fn lemma_told_by_coord<H: Hasher>(
    state: ReconstructionView<HashOf<H>>,
    children: Seq<HashOf<H>>,
    parent_id: NodeIndex,
    parent_hash: HashOf<H>,
)
    ensures
        parents::parent_known_to_all::<H>(state, children, parent_id, parent_hash).0.by_coord
            == state.by_coord,
    decreases children.len(),
{
    if children.len() > 0 {
        lemma_told_by_coord::<H>(state, children.drop_last(), parent_id, parent_hash);
    }
}

proof fn lemma_same_filter(
    coords: Seq<UnitCoord>,
    first: spec_fn(UnitCoord) -> bool,
    second: spec_fn(UnitCoord) -> bool,
)
    requires
        forall|i: int| 0 <= i < coords.len() ==> first(#[trigger] coords[i]) == second(coords[i]),
    ensures
        coords.filter(first) == coords.filter(second),
    decreases coords.len(),
{
    reveal(Seq::filter);
    if coords.len() > 0 {
        let rest = coords.drop_last();
        assert forall|i: int| 0 <= i < rest.len() implies first(#[trigger] rest[i]) == second(
            rest[i],
        ) by {
            assert(coords[i] == rest[i]);
        }
        lemma_same_filter(rest, first, second);
        assert(coords[coords.len() - 1] == coords.last());
    }
}

proof fn lemma_filtered(coords: Seq<UnitCoord>, wanted: spec_fn(UnitCoord) -> bool)
    ensures
        forall|i: int|
            0 <= i < coords.filter(wanted).len() ==> coords.contains(
                #[trigger] coords.filter(wanted)[i],
            ) && wanted(coords.filter(wanted)[i]),
    decreases coords.len(),
{
    reveal(Seq::filter);
    if coords.len() > 0 {
        let rest = coords.drop_last();
        lemma_filtered(rest, wanted);
        assert forall|i: int| 0 <= i < coords.filter(wanted).len() implies coords.contains(
            #[trigger] coords.filter(wanted)[i],
        ) && wanted(coords.filter(wanted)[i]) by {
            let c = coords.filter(wanted)[i];
            if i < rest.filter(wanted).len() {
                assert(c == rest.filter(wanted)[i]);
                let j = choose|j: int| 0 <= j < rest.len() && rest[j] == c;
                assert(coords[j] == c);
            } else {
                assert(coords[coords.len() - 1] == c);
            }
        }
    }
}

proof fn lemma_filter_ascending(coords: Seq<UnitCoord>, wanted: spec_fn(UnitCoord) -> bool)
    requires
        forall|i: int, j: int|
            0 <= i < j < coords.len() ==> (#[trigger] coords[i]).creator.0 < (
            #[trigger] coords[j]).creator.0,
    ensures
        forall|i: int, j: int|
            0 <= i < j < coords.filter(wanted).len() ==> (#[trigger] coords.filter(
                wanted,
            )[i]).creator.0 < (#[trigger] coords.filter(wanted)[j]).creator.0,
    decreases coords.len(),
{
    reveal(Seq::filter);
    if coords.len() > 0 {
        let rest = coords.drop_last();
        assert forall|i: int, j: int| 0 <= i < j < rest.len() implies (
        #[trigger] rest[i]).creator.0 < (#[trigger] rest[j]).creator.0 by {
            assert(coords[i] == rest[i] && coords[j] == rest[j]);
        }
        lemma_filter_ascending(rest, wanted);
        lemma_filtered(rest, wanted);
        let kept = coords.filter(wanted);
        let fewer = rest.filter(wanted);
        assert forall|i: int, j: int| 0 <= i < j < kept.len() implies (
        #[trigger] kept[i]).creator.0 < (#[trigger] kept[j]).creator.0 by {
            assert(kept[i] == fewer[i]);
            if j < fewer.len() {
                assert(kept[j] == fewer[j]);
            } else {
                assert(kept[j] == coords[coords.len() - 1]);
                let m = choose|m: int| 0 <= m < rest.len() && rest[m] == fewer[i];
                assert(coords[m] == fewer[i]);
            }
        }
    }
}

} // verus!
