//! A clean, synchronized shutdown of components that depend on each other.
use crate::data::Data;
use vstd::prelude::*;

verus! {

/// A step of a shutdown. That a step fails is no reason not to go on with the next one.
pub enum Step<N> {
    /// Wait until an offspring is ready to exit.
    AwaitOffspring(N),
    /// Let the parent know that we and all below us are ready to exit.
    NotifyParent,
    /// Wait for the permission of the parent.
    AwaitParent,
    /// Let an offspring know that exiting is now safe.
    NotifyOffspring(N),
}

impl<N: DeepView> DeepView for Step<N> {
    type V = Step<N::V>;

    open spec fn deep_view(&self) -> Step<N::V> {
        match self {
            Step::AwaitOffspring(name) => Step::AwaitOffspring(name.deep_view()),
            Step::NotifyParent => Step::NotifyParent,
            Step::AwaitParent => Step::AwaitParent,
            Step::NotifyOffspring(name) => Step::NotifyOffspring(name.deep_view()),
        }
    }
}

/// The steps of a shutdown: first all the offspring get ready, then we wait for our turn, and only
/// then everyone below us may exit.
pub open spec fn shutdown<N>(has_parent: bool, offspring: Seq<N>) -> Seq<Step<N>> {
    offspring.map_values(|name: N| Step::AwaitOffspring(name)) + (if has_parent {
        seq![Step::NotifyParent, Step::AwaitParent]
    } else {
        seq![]
    }) + offspring.map_values(|name: N| Step::NotifyOffspring(name))
}

/// The offspring, with one more at the end unless it is there already.
pub open spec fn with_offspring<N>(offspring: Seq<N>, name: N) -> Seq<N> {
    if offspring.contains(name) {
        offspring
    } else {
        offspring.push(name)
    }
}

/// Struct that knows the offspring and the parent of a component and enables a clean/synchronized
/// shutdown
pub struct Terminator<N: Data> {
    component_name: N,
    has_parent: bool,
    offspring: Vec<N>,
}

impl<N: Data> Terminator<N> {
    /// The name of the component.
    pub closed spec fn name(&self) -> N::V {
        self.component_name.deep_view()
    }

    /// Whether we depend on a parent.
    pub closed spec fn has_parent(&self) -> bool {
        self.has_parent
    }

    /// The names of those that depend on us.
    pub closed spec fn offspring(&self) -> Seq<N::V> {
        self.offspring.deep_view()
    }

    pub fn new(has_parent: bool, component_name: N) -> (result: Self)
        ensures
            result.name() == component_name.deep_view(),
            result.has_parent() == has_parent,
            result.offspring() == Seq::<N::V>::empty(),
    {
        let result = Terminator { component_name, has_parent, offspring: Vec::new() };
        proof {
            assert(result.offspring() =~= Seq::<N::V>::empty());
        }
        result
    }

    pub fn component_name(&self) -> (name: &N)
        ensures
            name.deep_view() == self.name(),
    {
        &self.component_name
    }

    /// Add a connection to an offspring component/task
    pub fn add_offspring_connection(&mut self, name: N)
        ensures
            final(self).name() == old(self).name(),
            final(self).has_parent() == old(self).has_parent(),
            final(self).offspring() == with_offspring(old(self).offspring(), name.deep_view()),
    {
        let ghost before = self.offspring();
        let ghost view = name.deep_view();
        let n: usize = self.offspring.len();
        for i in 0..n
            invariant
                n == self.offspring@.len(),
                before == self.offspring(),
                view == name.deep_view(),
                *self == *old(self),
                forall|j: int| 0 <= j < i ==> #[trigger] before[j] != view,
        {
            if self.offspring[i].equals(&name) {
                proof {
                    assert(before[i as int] == view);
                    assert(before.contains(view));
                }
                return ;
            }
        }
        proof {
            assert(!before.contains(view));
        }
        self.offspring.push(name);
        proof {
            assert(self.offspring() =~= before.push(view));
        }
    }

    /// The steps of a synchronized shutdown, in order.
    pub fn terminate_sync(&self) -> (steps: Vec<Step<N>>)
        ensures
            steps.deep_view() == shutdown(self.has_parent(), self.offspring()),
    {
        let ghost names = self.offspring();
        let ghost waits = names.map_values(|name: N::V| Step::AwaitOffspring(name));
        let mut steps: Vec<Step<N>> = Vec::new();
        let n: usize = self.offspring.len();
        proof {
            assert(steps.deep_view() =~= waits.take(0));
        }
        // Make sure that all descendants are ready and won't be communicating with others
        for i in 0..n
            invariant
                n == self.offspring@.len(),
                names == self.offspring(),
                waits == names.map_values(|name: N::V| Step::AwaitOffspring(name)),
                steps.deep_view() == waits.take(i as int),
        {
            let ghost before = steps.deep_view();
            steps.push(Step::AwaitOffspring(self.offspring[i].copy()));
            proof {
                assert(steps.deep_view() =~= before.push(waits[i as int]));
                assert(steps.deep_view() =~= waits.take(i + 1));
            }
        }
        proof {
            assert(waits.take(n as int) =~= waits);
        }
        // Notify parent that our subtree is ready for graceful exit
        // and wait for signal that all other components are ready
        if self.has_parent {
            steps.push(Step::NotifyParent);
            steps.push(Step::AwaitParent);
        }
        let ghost start = steps.deep_view();
        let ghost permits = names.map_values(|name: N::V| Step::NotifyOffspring(name));
        proof {
            assert(start =~= waits + (if self.has_parent {
                seq![Step::NotifyParent, Step::AwaitParent]
            } else {
                seq![]
            }));
            assert(steps.deep_view() =~= start + permits.take(0));
        }
        // Notify descendants that exiting is now safe
        for i in 0..n
            invariant
                n == self.offspring@.len(),
                names == self.offspring(),
                permits == names.map_values(|name: N::V| Step::NotifyOffspring(name)),
                steps.deep_view() == start + permits.take(i as int),
        {
            let ghost before = steps.deep_view();
            steps.push(Step::NotifyOffspring(self.offspring[i].copy()));
            proof {
                assert(steps.deep_view() =~= before.push(permits[i as int]));
                assert(steps.deep_view() =~= start + permits.take(i + 1));
            }
        }
        proof {
            assert(permits.take(n as int) =~= permits);
        }
        steps
    }
}

/// No offspring may exit before all of them, and the parent if there is one, have been waited for;
/// and the parent hears from us only when all the offspring are ready.
pub proof fn law_exit_after_everyone_is_ready<N>(
    has_parent: bool,
    offspring: Seq<N>,
    earlier: int,
    later: int,
)
    requires
        0 <= earlier < shutdown(has_parent, offspring).len(),
        0 <= later < shutdown(has_parent, offspring).len(),
    ensures
        ({
            let steps = shutdown(has_parent, offspring);
            &&& steps[earlier] is AwaitOffspring && !(steps[later] is AwaitOffspring) ==> earlier
                < later
            &&& steps[earlier] is AwaitParent && steps[later] is NotifyOffspring ==> earlier < later
            &&& steps[earlier] is NotifyParent && steps[later] is AwaitParent ==> earlier < later
        }),
{
}

/// Everyone below us is waited for, and gets to know when exiting is safe.
pub proof fn law_no_offspring_forgotten<N>(has_parent: bool, offspring: Seq<N>, i: int)
    requires
        0 <= i < offspring.len(),
    ensures
        shutdown(has_parent, offspring).contains(Step::AwaitOffspring(offspring[i])),
        shutdown(has_parent, offspring).contains(Step::NotifyOffspring(offspring[i])),
{
    let steps = shutdown(has_parent, offspring);
    assert(steps[i] == Step::AwaitOffspring(offspring[i]));
    let j = i + offspring.len() + (if has_parent {
        2int
    } else {
        0
    });
    assert(steps[j] == Step::NotifyOffspring(offspring[i]));
}

/// The parent, if there is one, hears from us and is waited for; nothing else is done in a shutdown
/// but that and what is done about the offspring.
pub proof fn law_parent_involved<N>(has_parent: bool, offspring: Seq<N>)
    ensures
        ({
            let steps = shutdown(has_parent, offspring);
            &&& steps.contains(Step::NotifyParent) <==> has_parent
            &&& steps.contains(Step::AwaitParent) <==> has_parent
            &&& steps.len() == 2 * offspring.len() + (if has_parent {
                2int
            } else {
                0
            })
        }),
{
    let steps = shutdown(has_parent, offspring);
    let n = offspring.len() as int;
    if has_parent {
        assert(steps[n] == Step::<N>::NotifyParent);
        assert(steps[n + 1] == Step::<N>::AwaitParent);
    }
}

/// A new offspring is the last one, one that is there already is not added again, and nobody is
/// dropped.
pub proof fn law_offspring_added_once<N>(offspring: Seq<N>, name: N)
    ensures
        ({
            let after = with_offspring(offspring, name);
            &&& after.contains(name)
            &&& offspring.contains(name) ==> after == offspring
            &&& !offspring.contains(name) ==> after.len() == offspring.len() + 1
            &&& forall|i: int|
                0 <= i < offspring.len() ==> #[trigger] after[i] == offspring[i]
            &&& offspring.no_duplicates() ==> after.no_duplicates()
        }),
{
    let after = with_offspring(offspring, name);
    if !offspring.contains(name) {
        assert(after[offspring.len() as int] == name);
    }
}

} // verus!
