//! A queue of tasks that are to be performed at some time.
use crate::duration::{Duration, LONGEST};
use std::time::Instant;
use vstd::prelude::*;

verus! {

/// A moment, as the number of nanoseconds since the queue was made.
pub type Moment = u128;

/// The last moment that a clock can show: the longest time after the queue was made.
pub const LAST_MOMENT: u128 = LONGEST;

/// `std::time::Instant::elapsed`, in nanoseconds: how long ago a reading of the clock was. A
/// duration is a number of seconds in 64 bits and of nanoseconds below a second; nothing else is
/// known of it.
#[verifier::external_body]
fn elapsed(start: &Instant) -> (moment: Moment)
    ensures
        moment <= LAST_MOMENT,
{
    start.elapsed().as_nanos()
}

/// The moment some time after another one.
pub open spec fn after(now: Moment, delay: Duration) -> Moment {
    (now + delay@) as Moment
}

/// A task with the time for which it is scheduled.
pub struct ScheduledTask<T> {
    task: T,
    scheduled_time: Moment,
}

impl<T: DeepView> DeepView for ScheduledTask<T> {
    type V = (T::V, Moment);

    closed spec fn deep_view(&self) -> (T::V, Moment) {
        (self.task.deep_view(), self.scheduled_time)
    }
}

/// Whether the `i`-th task is scheduled before all the others, and before the later ones of those
/// that are scheduled for the same time.
pub open spec fn is_first<V>(tasks: Seq<(V, Moment)>, i: int) -> bool {
    &&& 0 <= i < tasks.len()
    &&& forall|j: int| 0 <= j < i ==> tasks[i].1 < (#[trigger] tasks[j]).1
    &&& forall|j: int| i < j < tasks.len() ==> tasks[i].1 <= (#[trigger] tasks[j]).1
}

/// What is taken out of a queue at some moment: the most overdue task, or nothing if no task is
/// due yet.
pub open spec fn taken<V>(
    before: Seq<(V, Moment)>,
    after: Seq<(V, Moment)>,
    now: Moment,
    task: Option<V>,
) -> bool {
    match task {
        Some(task) => exists|i: int|
            #![trigger before[i]]
            {
                &&& is_first(before, i)
                &&& before[i].1 <= now
                &&& before[i].0 == task
                &&& after == before.remove(i)
            },
        None => after == before && forall|i: int|
            0 <= i < before.len() ==> (#[trigger] before[i]).1 > now,
    }
}

/// Implements a queue allowing for scheduling tasks for some time in the future.
///
/// Note that this queue is passive - nothing will happen until you call `pop_due_task`.
pub struct TaskQueue<T> {
    queue: Vec<ScheduledTask<T>>,
    start: Instant,
}

impl<T: DeepView> DeepView for TaskQueue<T> {
    type V = Seq<(T::V, Moment)>;

    closed spec fn deep_view(&self) -> Seq<(T::V, Moment)> {
        self.queue.deep_view()
    }
}

impl<T: DeepView> TaskQueue<T> {
    /// Creates an empty queue.
    pub fn new() -> (queue: Self)
        ensures
            queue.deep_view() == Seq::<(T::V, Moment)>::empty(),
    {
        let queue = TaskQueue { queue: Vec::new(), start: Instant::now() };
        proof {
            assert(queue.deep_view() =~= Seq::<(T::V, Moment)>::empty());
        }
        queue
    }

    /// The current moment.
    pub fn now(&self) -> (moment: Moment)
        ensures
            moment <= LAST_MOMENT,
    {
        elapsed(&self.start)
    }

    /// Schedules `task` for as soon as possible.
    pub fn schedule_now(&mut self, task: T)
        ensures
            exists|now: Moment|
                now <= LAST_MOMENT && final(self).deep_view() == #[trigger] old(self).deep_view().push((task.deep_view(), now)),
    {
        let now: Moment = self.now();
        self.schedule(task, now);
    }

    /// Schedules `task` for execution after `delay`.
    pub fn schedule_in(&mut self, task: T, delay: Duration)
        ensures
            exists|now: Moment|
                now <= LAST_MOMENT && final(self).deep_view() == old(self).deep_view().push(
                    (task.deep_view(), #[trigger] after(now, delay)),
                ),
    {
        let now: Moment = self.now();
        let scheduled_time: Moment = now + delay.as_nanos();
        proof {
            assert(scheduled_time == after(now, delay));
        }
        self.schedule(task, scheduled_time);
    }

    /// Schedules `task` for execution at `scheduled_time`.
    pub fn schedule(&mut self, task: T, scheduled_time: Moment)
        ensures
            final(self).deep_view() == old(self).deep_view().push(
                (task.deep_view(), scheduled_time),
            ),
    {
        let ghost view = task.deep_view();
        self.queue.push(ScheduledTask { task, scheduled_time });
        proof {
            assert(self.deep_view() =~= old(self).deep_view().push((view, scheduled_time)));
        }
    }

    /// Returns `Some(task)` if `task` is the most overdue task at the given moment, and `None` if
    /// there are no overdue tasks then.
    pub fn pop_due_task_at(&mut self, now: Moment) -> (task: Option<T>)
        ensures
            taken(old(self).deep_view(), final(self).deep_view(), now, task.deep_view()),
    {
        let n: usize = self.queue.len();
        if n == 0 {
            return None;
        }
        let mut first: usize = 0;
        let ghost tasks = self.deep_view();
        for i in 1..n
            invariant
                n == self.queue@.len(),
                tasks == self.deep_view(),
                first < i,
                i <= n,
                forall|j: int| 0 <= j < first ==> tasks[first as int].1 < (#[trigger] tasks[j]).1,
                forall|j: int| first < j < i ==> tasks[first as int].1 <= (#[trigger] tasks[j]).1,
        {
            if self.queue[i].scheduled_time < self.queue[first].scheduled_time {
                proof {
                    assert(tasks[i as int].1 == self.queue@[i as int].scheduled_time);
                    assert(tasks[first as int].1 == self.queue@[first as int].scheduled_time);
                }
                first = i;
            }
        }
        proof {
            assert(is_first(tasks, first as int));
            assert(tasks[first as int].1 == self.queue@[first as int].scheduled_time);
        }
        if self.queue[first].scheduled_time <= now {
            let due: ScheduledTask<T> = self.queue.remove(first);
            proof {
                assert(self.deep_view() =~= tasks.remove(first as int));
                assert(tasks[first as int] == due.deep_view());
            }
            Some(due.task)
        } else {
            None
        }
    }

    /// Returns `Some(task)` if `task` is the most overdue task, and `None` if there are no overdue
    /// tasks.
    pub fn pop_due_task(&mut self) -> (task: Option<T>)
        ensures
            exists|now: Moment|
                now <= LAST_MOMENT && #[trigger] taken(
                    old(self).deep_view(),
                    final(self).deep_view(),
                    now,
                    task.deep_view(),
                ),
    {
        let now: Moment = self.now();
        self.pop_due_task_at(now)
    }

    /// How many tasks there are.
    pub fn len(&self) -> (n: usize)
        ensures
            n == self.deep_view().len(),
    {
        self.queue.len()
    }

    /// The `i`-th task, in the order in which they were scheduled.
    pub fn task(&self, i: usize) -> (task: &T)
        requires
            i < self.deep_view().len(),
        ensures
            task.deep_view() == self.deep_view()[i as int].0,
    {
        &self.queue[i].task
    }
}

/// No task that stays behind is more overdue than the one taken.
pub proof fn law_most_overdue_first<V>(
    before: Seq<(V, Moment)>,
    after: Seq<(V, Moment)>,
    now: Moment,
    task: V,
)
    requires
        taken(before, after, now, Some(task)),
    ensures
        exists|time: Moment|
            {
                &&& time <= now
                &&& #[trigger] before.contains((task, time))
                &&& forall|j: int| 0 <= j < after.len() ==> time <= (#[trigger] after[j]).1
            },
{
    let i = choose|i: int|
        #![trigger before[i]]
        {
            &&& is_first(before, i)
            &&& before[i].1 <= now
            &&& before[i].0 == task
            &&& after == before.remove(i)
        };
    let time = before[i].1;
    assert(before[i] == (task, time));
    assert(before.contains((task, time)));
    assert forall|j: int| 0 <= j < after.len() implies time <= (#[trigger] after[j]).1 by {
        if j < i {
            assert(after[j] == before[j]);
        } else {
            assert(after[j] == before[j + 1]);
        }
    }
}

/// A task that is due is not kept back: something is taken.
pub proof fn law_due_task_taken<V>(
    before: Seq<(V, Moment)>,
    after: Seq<(V, Moment)>,
    now: Moment,
    task: Option<V>,
    i: int,
)
    requires
        taken(before, after, now, task),
        0 <= i < before.len(),
        before[i].1 <= now,
    ensures
        task is Some,
        after.len() == before.len() - 1,
{
    assert(before[i].1 <= now);
}

} // verus!
