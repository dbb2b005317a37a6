//! Putting units into an order in which parents come before their children.
use crate::collections::VecSet;
use crate::crypto::{HashOf, Hasher};
use crate::data::Data;
use crate::nodes::NodeIndex;
use crate::reconstruction::{ReconstructedUnit, ReconstructedView};
use vstd::prelude::*;

verus! {

/// Whether all the parents of a unit have been placed.
pub open spec fn ready<V>(placed: Set<V>, unit: ReconstructedView<V>) -> bool {
    forall|i: int|
        0 <= i < unit.parents.len() ==> (#[trigger] unit.parents[i] matches Some(parent)
            ==> placed.contains(parent))
}

/// The first of the waiting units that is ready.
pub open spec fn is_first_ready<V>(
    placed: Set<V>,
    waiting: Seq<ReconstructedView<V>>,
    i: int,
) -> bool {
    &&& 0 <= i < waiting.len()
    &&& ready(placed, waiting[i])
    &&& forall|j: int| 0 <= j < i ==> !ready(placed, #[trigger] waiting[j])
}

/// The model of the order: the hashes of the units that have been placed, and the units that wait
/// for their parents.
#[verifier::ext_equal]
#[verifier::reject_recursive_types(V)]
pub struct OrderView<V> {
    pub placed: Set<V>,
    pub waiting: Seq<ReconstructedView<V>>,
}

impl<V> OrderView<V> {
    pub open spec fn fresh() -> Self {
        OrderView { placed: Set::empty(), waiting: seq![] }
    }

    /// Whether a unit was placed or waits.
    pub open spec fn knows(self, hash: V) -> bool {
        ||| self.placed.contains(hash)
        ||| exists|i: int| 0 <= i < self.waiting.len() && (#[trigger] self.waiting[i]).unit.hash == hash
    }
}

/// As long as some waiting unit is ready, the first such unit is placed.
pub open spec fn settled<V>(state: OrderView<V>) -> (OrderView<V>, Seq<ReconstructedView<V>>)
    decreases state.waiting.len(),
{
    if exists|i: int| is_first_ready(state.placed, state.waiting, i) {
        let i = choose|i: int| is_first_ready(state.placed, state.waiting, i);
        let unit = state.waiting[i];
        if 0 <= i < state.waiting.len() {
            let (after, placed) = settled(
                OrderView {
                    placed: state.placed.insert(unit.unit.hash),
                    waiting: state.waiting.remove(i),
                },
            );
            (after, seq![unit] + placed)
        } else {
            (state, seq![])
        }
    } else {
        (state, seq![])
    }
}

/// A unit is added: everything that becomes ready is placed, in order. A unit that is known already
/// changes nothing.
pub open spec fn added<V>(state: OrderView<V>, unit: ReconstructedView<V>) -> (
    OrderView<V>,
    Seq<ReconstructedView<V>>,
) {
    if state.knows(unit.unit.hash) {
        (state, seq![])
    } else {
        settled(OrderView { waiting: state.waiting.push(unit), ..state })
    }
}

/// Several units are added, one after another.
pub open spec fn all_added<V>(state: OrderView<V>, units: Seq<ReconstructedView<V>>) -> (
    OrderView<V>,
    Seq<ReconstructedView<V>>,
)
    decreases units.len(),
{
    if units.len() == 0 {
        (state, seq![])
    } else {
        let (state, placed) = all_added(state, units.drop_last());
        let (state, more) = added(state, units.last());
        (state, placed + more)
    }
}

/// Places units once their parents are.
pub struct Order<H: Hasher> {
    placed: VecSet<H::Hash>,
    waiting: Vec<ReconstructedUnit<H>>,
}

impl<H: Hasher> DeepView for Order<H> {
    type V = OrderView<HashOf<H>>;

    closed spec fn deep_view(&self) -> OrderView<HashOf<H>> {
        OrderView { placed: self.placed.deep_view(), waiting: self.waiting.deep_view() }
    }
}

impl<H: Hasher> Order<H> {
    pub fn new() -> (result: Self)
        ensures
            result.deep_view() == OrderView::<HashOf<H>>::fresh(),
    {
        let result = Order { placed: VecSet::new(), waiting: Vec::new() };
        proof {
            assert(result.deep_view() =~= OrderView::<HashOf<H>>::fresh());
        }
        result
    }

    fn is_ready(&self, unit: &ReconstructedUnit<H>) -> (result: bool)
        ensures
            result == ready(self.deep_view().placed, unit.deep_view()),
    {
        let n: usize = unit.parents().size().0;
        let ghost parents = unit.deep_view().parents;
        for i in 0..n
            invariant
                n == parents.len(),
                parents == unit.deep_view().parents,
                forall|j: int|
                    0 <= j < i ==> (#[trigger] parents[j] matches Some(parent)
                        ==> self.placed.deep_view().contains(parent)),
        {
            if let Some(parent) = unit.parents().get(NodeIndex(i)) {
                if !self.placed.contains(parent) {
                    proof {
                        assert(parents[i as int] == Some(parent.deep_view()));
                    }
                    return false;
                }
            }
        }
        true
    }

    fn first_ready(&self) -> (result: Option<usize>)
        ensures
            match result {
                Some(i) => is_first_ready(
                    self.deep_view().placed,
                    self.deep_view().waiting,
                    i as int,
                ),
                None => forall|i: int|
                    0 <= i < self.deep_view().waiting.len() ==> !ready(
                        self.deep_view().placed,
                        #[trigger] self.deep_view().waiting[i],
                    ),
            },
    {
        let n: usize = self.waiting.len();
        let ghost waiting = self.deep_view().waiting;
        for i in 0..n
            invariant
                n == waiting.len(),
                waiting == self.waiting.deep_view(),
                forall|j: int|
                    0 <= j < i ==> !ready(self.placed.deep_view(), #[trigger] waiting[j]),
        {
            if self.is_ready(&self.waiting[i]) {
                return Some(i);
            }
        }
        None
    }

    fn is_known(&self, hash: &H::Hash) -> (result: bool)
        ensures
            result == self.deep_view().knows(hash.deep_view()),
    {
        if self.placed.contains(hash) {
            return true;
        }
        let n: usize = self.waiting.len();
        let ghost waiting = self.deep_view().waiting;
        for i in 0..n
            invariant
                n == waiting.len(),
                waiting == self.waiting.deep_view(),
                forall|j: int| 0 <= j < i ==> (#[trigger] waiting[j]).unit.hash != hash.deep_view(),
        {
            if self.waiting[i].hash().equals(hash) {
                proof {
                    assert(self.deep_view().waiting[i as int].unit.hash == hash.deep_view());
                }
                return true;
            }
        }
        false
    }

    /// Adds a unit and returns what is placed, parents before their children.
    pub fn add_unit(&mut self, unit: ReconstructedUnit<H>) -> (placed: Vec<ReconstructedUnit<H>>)
        ensures
            (final(self).deep_view(), placed.deep_view()) == added(
                old(self).deep_view(),
                unit.deep_view(),
            ),
    {
        let ghost view = unit.deep_view();
        let ghost before = self.deep_view();
        let mut placed: Vec<ReconstructedUnit<H>> = Vec::new();
        if self.is_known(&unit.hash()) {
            proof {
                assert(placed.deep_view() =~= seq![]);
            }
            return placed;
        }
        self.waiting.push(unit);
        let ghost start = OrderView { waiting: before.waiting.push(view), ..before };
        proof {
            assert(self.deep_view() =~= start);
            assert(placed.deep_view() + settled(start).1 =~= settled(start).1);
        }
        let mut next: Option<usize> = self.first_ready();
        while next.is_some()
            invariant
                settled(start).0 == settled(self.deep_view()).0,
                settled(start).1 == placed.deep_view() + settled(self.deep_view()).1,
                match next {
                    Some(i) => is_first_ready(
                        self.deep_view().placed,
                        self.deep_view().waiting,
                        i as int,
                    ),
                    None => forall|i: int|
                        0 <= i < self.deep_view().waiting.len() ==> !ready(
                            self.deep_view().placed,
                            #[trigger] self.deep_view().waiting[i],
                        ),
                },
            decreases self.deep_view().waiting.len(),
        {
            if let Some(i) = next {
                let ghost state = self.deep_view();
                let ghost so_far = placed.deep_view();
                let unit: ReconstructedUnit<H> = self.waiting.remove(i);
                let ghost v = unit.deep_view();
                let _ = self.placed.insert(unit.hash());
                placed.push(unit);
                proof {
                    let chosen = choose|j: int| is_first_ready(state.placed, state.waiting, j);
                    assert(is_first_ready(state.placed, state.waiting, i as int));
                    assert(chosen == i) by {
                        if chosen < i {
                            assert(!ready(state.placed, state.waiting[chosen]));
                        }
                        if i < chosen {
                            assert(!ready(state.placed, state.waiting[i as int]));
                        }
                    }
                    assert(v == state.waiting[i as int]);
                    assert(self.deep_view() =~= OrderView {
                        placed: state.placed.insert(v.unit.hash),
                        waiting: state.waiting.remove(i as int),
                    });
                    assert(placed.deep_view() =~= so_far.push(v));
                    assert(so_far + (seq![v] + settled(self.deep_view()).1)
                        =~= placed.deep_view() + settled(self.deep_view()).1);
                }
            }
            next = self.first_ready();
        }
        proof {
            let state = self.deep_view();
            assert(!exists|i: int| is_first_ready(state.placed, state.waiting, i)) by {
                if exists|i: int| is_first_ready(state.placed, state.waiting, i) {
                    let i = choose|i: int| is_first_ready(state.placed, state.waiting, i);
                    assert(!ready(state.placed, state.waiting[i]));
                }
            }
            assert(placed.deep_view() + seq![] =~= placed.deep_view());
        }
        placed
    }
}

/// Every unit stands behind all its parents, unless they were placed before.
pub open spec fn parents_first<V>(placed: Set<V>, units: Seq<ReconstructedView<V>>) -> bool {
    forall|k: int, i: int|
        #![trigger units[k].parents[i]]
        0 <= k < units.len() && 0 <= i < units[k].parents.len() ==> (
        units[k].parents[i] matches Some(parent) ==> placed.contains(parent) || exists|j: int|
            0 <= j < k && (#[trigger] units[j]).unit.hash == parent)
}

proof fn lemma_settled<V>(state: OrderView<V>)
    ensures
        parents_first(state.placed, settled(state).1),
        forall|i: int|
            0 <= i < settled(state).0.waiting.len() ==> !ready(
                settled(state).0.placed,
                #[trigger] settled(state).0.waiting[i],
            ),
        settled(state).1.to_multiset().add(settled(state).0.waiting.to_multiset())
            =~= state.waiting.to_multiset(),
        forall|hash: V| #[trigger]
            settled(state).0.placed.contains(hash) <==> state.placed.contains(hash) || exists|j: int|
                0 <= j < settled(state).1.len() && (#[trigger] settled(state).1[j]).unit.hash
                    == hash,
    decreases state.waiting.len(),
{
    broadcast use vstd::seq_lib::group_to_multiset_ensures;

    let (after, units) = settled(state);
    if exists|i: int| is_first_ready(state.placed, state.waiting, i) {
        let i = choose|i: int| is_first_ready(state.placed, state.waiting, i);
        let unit = state.waiting[i];
        let next = OrderView {
            placed: state.placed.insert(unit.unit.hash),
            waiting: state.waiting.remove(i),
        };
        lemma_settled(next);
        let rest = settled(next).1;
        assert(units =~= seq![unit] + rest);
        assert forall|k: int, p: int|
            #![trigger units[k].parents[p]]
            0 <= k < units.len() && 0 <= p < units[k].parents.len() implies (
        units[k].parents[p] matches Some(parent) ==> state.placed.contains(parent) || exists|j: int|
            0 <= j < k && (#[trigger] units[j]).unit.hash == parent) by {
            if let Some(parent) = units[k].parents[p] {
                if k > 0 {
                    assert(rest[k - 1].parents[p] == Some(parent));
                    if next.placed.contains(parent) {
                        if !state.placed.contains(parent) {
                            assert(units[0].unit.hash == parent);
                        }
                    } else {
                        let j = choose|j: int|
                            0 <= j < k - 1 && (#[trigger] rest[j]).unit.hash == parent;
                        assert(units[j + 1].unit.hash == parent);
                    }
                } else {
                    assert(unit.parents[p] == Some(parent));
                }
            }
        }
        assert forall|hash: V| #[trigger]
            after.placed.contains(hash) <==> state.placed.contains(hash) || exists|j: int|
                0 <= j < units.len() && (#[trigger] units[j]).unit.hash == hash by {
            if hash == unit.unit.hash {
                assert(units[0].unit.hash == hash);
                assert(next.placed.contains(hash));
            }
            if exists|j: int| 0 <= j < rest.len() && (#[trigger] rest[j]).unit.hash == hash {
                let j = choose|j: int| 0 <= j < rest.len() && (#[trigger] rest[j]).unit.hash == hash;
                assert(units[j + 1].unit.hash == hash);
            }
            if exists|j: int| 0 <= j < units.len() && (#[trigger] units[j]).unit.hash == hash {
                let j = choose|j: int|
                    0 <= j < units.len() && (#[trigger] units[j]).unit.hash == hash;
                if j > 0 {
                    assert(rest[j - 1].unit.hash == hash);
                }
            }
        }
        assert(state.waiting.to_multiset() =~= next.waiting.to_multiset().insert(unit)) by {
            state.waiting.to_multiset_ensures();
        }
        assert(units.to_multiset() =~= rest.to_multiset().insert(unit)) by {
            vstd::seq_lib::lemma_multiset_commutative(seq![unit], rest);
            seq![unit].to_multiset_ensures();
            assert(seq![unit] =~= Seq::<ReconstructedView<V>>::empty().push(unit));
            Seq::<ReconstructedView<V>>::empty().to_multiset_ensures();
        }
    } else {
        assert forall|i: int| 0 <= i < state.waiting.len() implies !ready(
            state.placed,
            #[trigger] state.waiting[i],
        ) by {
            lemma_none_ready(state, i);
        }
        units.to_multiset_ensures();
    }
}

proof fn lemma_none_ready<V>(state: OrderView<V>, i: int)
    requires
        0 <= i < state.waiting.len(),
        !exists|j: int| is_first_ready(state.placed, state.waiting, j),
    ensures
        !ready(state.placed, state.waiting[i]),
    decreases i,
{
    if ready(state.placed, state.waiting[i]) {
        assert forall|j: int| 0 <= j < i implies !ready(
            state.placed,
            #[trigger] state.waiting[j],
        ) by {
            lemma_none_ready(state, j);
        }
        assert(is_first_ready(state.placed, state.waiting, i));
    }
}

/// Units come out behind all their parents.
pub proof fn law_parents_come_first<V>(state: OrderView<V>, unit: ReconstructedView<V>)
    ensures
        parents_first(state.placed, added(state, unit).1),
{
    lemma_settled(OrderView { waiting: state.waiting.push(unit), ..state });
}

/// Nothing is held back: no unit that stays waiting has all its parents placed.
pub proof fn law_nothing_held_back<V>(state: OrderView<V>, unit: ReconstructedView<V>)
    requires
        !state.knows(unit.unit.hash),
    ensures
        forall|i: int|
            0 <= i < added(state, unit).0.waiting.len() ==> !ready(
                added(state, unit).0.placed,
                #[trigger] added(state, unit).0.waiting[i],
            ),
{
    lemma_settled(OrderView { waiting: state.waiting.push(unit), ..state });
}

/// Nothing is lost and nothing comes out twice: what comes out and what stays is what waited and
/// what was added.
pub proof fn law_nothing_lost<V>(state: OrderView<V>, unit: ReconstructedView<V>)
    requires
        !state.knows(unit.unit.hash),
    ensures
        added(state, unit).1.to_multiset().add(added(state, unit).0.waiting.to_multiset())
            == state.waiting.push(unit).to_multiset(),
{
    lemma_settled(OrderView { waiting: state.waiting.push(unit), ..state });
}

/// A unit all of whose parents are placed comes out at once.
pub proof fn law_ready_unit_at_once<V>(state: OrderView<V>, unit: ReconstructedView<V>)
    requires
        !state.knows(unit.unit.hash),
        ready(state.placed, unit),
    ensures
        added(state, unit).1.contains(unit),
{
    broadcast use vstd::seq_lib::group_to_multiset_ensures;

    let start = OrderView { waiting: state.waiting.push(unit), ..state };
    lemma_settled(start);
    let (after, units) = settled(start);
    assert(start.waiting[start.waiting.len() - 1] == unit);
    assert(start.waiting.contains(unit));
    start.waiting.to_multiset_ensures();
    units.to_multiset_ensures();
    after.waiting.to_multiset_ensures();
    assert(start.waiting.to_multiset().count(unit) > 0);
    if !units.contains(unit) {
        assert(units.to_multiset().count(unit) == 0);
        assert(after.waiting.to_multiset().count(unit) > 0);
        assert(after.waiting.contains(unit));
        let i = choose|i: int| 0 <= i < after.waiting.len() && after.waiting[i] == unit;
        assert(!ready(after.placed, after.waiting[i]));
        assert(ready(after.placed, unit)) by {
            assert forall|p: int| 0 <= p < unit.parents.len() implies (
            #[trigger] unit.parents[p] matches Some(parent) ==> after.placed.contains(parent)) by {
                if let Some(parent) = unit.parents[p] {
                    assert(state.placed.contains(parent));
                    assert(after.placed.contains(parent));
                }
            }
        }
    }
}

/// Nothing that waits is ready.
pub open spec fn idle<V>(state: OrderView<V>) -> bool {
    forall|i: int|
        0 <= i < state.waiting.len() ==> !ready(state.placed, #[trigger] state.waiting[i])
}

/// What was known stays known.
proof fn lemma_settled_knows<V>(state: OrderView<V>, hash: V)
    requires
        state.knows(hash),
    ensures
        settled(state).0.knows(hash),
    decreases state.waiting.len(),
{
    if exists|i: int| is_first_ready(state.placed, state.waiting, i) {
        let i = choose|i: int| is_first_ready(state.placed, state.waiting, i);
        let next = OrderView {
            placed: state.placed.insert(state.waiting[i].unit.hash),
            waiting: state.waiting.remove(i),
        };
        assert(next.knows(hash)) by {
            if !next.placed.contains(hash) {
                let j = choose|j: int|
                    0 <= j < state.waiting.len() && (#[trigger] state.waiting[j]).unit.hash == hash;
                assert(next.waiting[if j < i {
                    j
                } else {
                    j - 1
                }].unit.hash == hash);
            }
        }
        lemma_settled_knows(next, hash);
    }
}

/// Every unit that was added is known from then on, and nothing that waits is ready.
pub proof fn lemma_all_added<V>(state: OrderView<V>, units: Seq<ReconstructedView<V>>)
    requires
        idle(state),
    ensures
        idle(all_added(state, units).0),
        forall|hash: V| #[trigger]
            state.knows(hash) ==> all_added(state, units).0.knows(hash),
        forall|i: int|
            0 <= i < units.len() ==> all_added(state, units).0.knows(
                (#[trigger] units[i]).unit.hash,
            ),
    decreases units.len(),
{
    if units.len() > 0 {
        let rest = units.drop_last();
        let last = units.last();
        lemma_all_added(state, rest);
        let middle = all_added(state, rest).0;
        let after = all_added(state, units).0;
        assert(after == added(middle, last).0);
        let start = OrderView { waiting: middle.waiting.push(last), ..middle };
        lemma_settled(start);
        assert forall|hash: V| #[trigger] middle.knows(hash) implies after.knows(hash) by {
            if !middle.knows(last.unit.hash) {
                assert(start.knows(hash)) by {
                    if !middle.placed.contains(hash) {
                        let j = choose|j: int|
                            0 <= j < middle.waiting.len() && (
                            #[trigger] middle.waiting[j]).unit.hash == hash;
                        assert(start.waiting[j].unit.hash == hash);
                    }
                }
                lemma_settled_knows(start, hash);
            }
        }
        assert(after.knows(last.unit.hash)) by {
            if !middle.knows(last.unit.hash) {
                assert(start.waiting[middle.waiting.len() as int].unit.hash == last.unit.hash);
                lemma_settled_knows(start, last.unit.hash);
            }
        }
        assert forall|i: int| 0 <= i < units.len() implies after.knows(
            (#[trigger] units[i]).unit.hash,
        ) by {
            if i < rest.len() {
                assert(rest[i] == units[i]);
                assert(middle.knows(rest[i].unit.hash));
            }
        }
    }
}

/// Adding units in two steps is the same as adding them at once.
pub proof fn lemma_all_added_together<V>(
    state: OrderView<V>,
    first: Seq<ReconstructedView<V>>,
    second: Seq<ReconstructedView<V>>,
)
    ensures
        all_added(state, first + second).0 == all_added(all_added(state, first).0, second).0,
    decreases second.len(),
{
    let both = first + second;
    if second.len() == 0 {
        assert(both =~= first);
    } else {
        assert(both.drop_last() =~= first + second.drop_last());
        assert(both.last() == second.last());
        lemma_all_added_together(state, first, second.drop_last());
    }
}

} // verus!
