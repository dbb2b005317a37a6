//! A report on how the dissemination is doing.
use crate::collections::VecSet;
use crate::crypto::{HashOf, Hasher};
use crate::data::{show_variant, Data, Encoding};
use crate::member::{DisseminationTask, RepeatableTask, RepeatableView, TaskView};
use crate::reconstruction::parents::{
    Request as ReconstructionRequest, RequestView as ReconstructionRequestView,
};
use crate::task_queue::{Moment, TaskQueue};
use crate::text;
use crate::text::{append_decimal, join};
use crate::units::{UncheckedSignedUnit, UnitCoord};
use vstd::prelude::*;
use vstd::string::StringExecFns;

verus! {

/// From how many repetitions on a task counts as pending for a long time.
pub const LONG_TIME: usize = 5;

/// How many of the tasks that are pending for a long time are described.
pub const ITEMS_PRINT_LIMIT: usize = 10;

/// How a task is described.
pub open spec fn task_text<H: Hasher, D: Data, S: Data>(
    task: TaskView<HashOf<H>, D::V, S::V>,
) -> Seq<char> {
    match task {
        TaskView::Request(ReconstructionRequestView::Coord(coord)) => "Request(Coord("@
            + UnitCoord::shown(coord) + "))"@,
        TaskView::Request(ReconstructionRequestView::ParentsOf(hash)) => "Request(ParentsOf("@
            + H::Hash::shown(hash) + "))"@,
        TaskView::Broadcast(unit) => "Broadcast"@ + "("@ + UncheckedSignedUnit::<H, D, S>::shown(unit)
            + ")"@,
    }
}

/// How a repeatable task is described.
pub open spec fn repeatable_text<H: Hasher, D: Data, S: Data>(
    task: RepeatableView<HashOf<H>, D::V, S::V>,
) -> Seq<char> {
    "RepeatableTask("@ + task_text::<H, D, S>(task.task) + ", counter "@ + text::decimal(
        task.counter as nat,
    ) + ")"@
}

/// How many tasks ask for units.
pub open spec fn coord_requests<V, D, S>(tasks: Seq<(RepeatableView<V, D, S>, Moment)>) -> nat
    decreases tasks.len(),
{
    if tasks.len() == 0 {
        0
    } else {
        coord_requests(tasks.drop_last()) + (match tasks.last().0.task {
            TaskView::Request(ReconstructionRequestView::Coord(_)) => 1nat,
            _ => 0nat,
        })
    }
}

/// How many tasks ask for the parents of units.
pub open spec fn parent_requests<V, D, S>(tasks: Seq<(RepeatableView<V, D, S>, Moment)>) -> nat
    decreases tasks.len(),
{
    if tasks.len() == 0 {
        0
    } else {
        parent_requests(tasks.drop_last()) + (match tasks.last().0.task {
            TaskView::Request(ReconstructionRequestView::ParentsOf(_)) => 1nat,
            _ => 0nat,
        })
    }
}

/// How many tasks broadcast units.
pub open spec fn broadcasts<V, D, S>(tasks: Seq<(RepeatableView<V, D, S>, Moment)>) -> nat
    decreases tasks.len(),
{
    if tasks.len() == 0 {
        0
    } else {
        broadcasts(tasks.drop_last()) + (match tasks.last().0.task {
            TaskView::Broadcast(_) => 1nat,
            _ => 0nat,
        })
    }
}

/// The descriptions of the tasks that are pending for a long time.
pub open spec fn long_pending<H: Hasher, D: Data, S: Data>(
    tasks: Seq<(RepeatableView<HashOf<H>, D::V, S::V>, Moment)>,
) -> Seq<Seq<char>>
    decreases tasks.len(),
{
    if tasks.len() == 0 {
        seq![]
    } else {
        let before = long_pending::<H, D, S>(tasks.drop_last());
        if tasks.last().0.counter >= LONG_TIME {
            before.push(repeatable_text::<H, D, S>(tasks.last().0))
        } else {
            before
        }
    }
}

/// A label and a number, unless the number is zero.
pub open spec fn if_any(label: Seq<char>, n: nat) -> Seq<char> {
    if n == 0 {
        seq![]
    } else {
        label + text::decimal(n)
    }
}

/// What is said about tasks that are pending for a long time.
pub open spec fn pending_text(texts: Seq<Seq<char>>) -> Seq<char> {
    if texts.len() == 0 {
        seq![]
    } else {
        "; pending tasks with counter >= 5 - "@ + text::joined(
            texts.take(
                if texts.len() < ITEMS_PRINT_LIMIT {
                    texts.len() as int
                } else {
                    ITEMS_PRINT_LIMIT as int
                },
            ),
            ", "@,
        ) + (if texts.len() >= ITEMS_PRINT_LIMIT {
            " and "@ + text::decimal((texts.len() - ITEMS_PRINT_LIMIT) as nat) + " more"@
        } else {
            seq![]
        })
    }
}

/// The whole report.
pub open spec fn report<H: Hasher, D: Data, S: Data>(
    tasks: Seq<(RepeatableView<HashOf<H>, D::V, S::V>, Moment)>,
    coords: nat,
    parents: nat,
) -> Seq<char> {
    "Member status report: task queue content: CoordRequest - "@ + text::decimal(
        coord_requests(tasks),
    ) + ", ParentsRequest - "@ + text::decimal(parent_requests(tasks)) + ", UnitBroadcast - "@
        + text::decimal(broadcasts(tasks)) + if_any("; not_resolved_coords.len() - "@, coords)
        + if_any("; not_resolved_parents.len() - "@, parents) + pending_text(
        long_pending::<H, D, S>(tasks),
    ) + "."@
}

impl<H: Hasher, D: Data, S: Data> RepeatableTask<H, D, S> {
    /// Describes the task.
    pub fn text(&self) -> (out: String)
        ensures
            out@ == repeatable_text::<H, D, S>(self.deep_view()),
    {
        let mut out: String = String::new();
        out.append("RepeatableTask(");
        match &self.task {
            DisseminationTask::Request(ReconstructionRequest::Coord(coord)) => {
                out.append("Request(Coord(");
                coord.show(&mut out);
                out.append("))");
            },
            DisseminationTask::Request(ReconstructionRequest::ParentsOf(hash)) => {
                out.append("Request(ParentsOf(");
                hash.show(&mut out);
                out.append("))");
            },
            DisseminationTask::Broadcast(unit) => {
                show_variant(&mut out, "Broadcast", unit);
            },
        }
        out.append(", counter ");
        append_decimal(&mut out, self.counter as u64);
        out.append(")");
        proof {
            assert(out@ =~= repeatable_text::<H, D, S>(self.deep_view()));
        }
        out
    }
}

/// What is known of how the dissemination is doing.
pub struct MemberStatus<'a, H: Hasher, D: Data, S: Data> {
    task_queue: &'a TaskQueue<RepeatableTask<H, D, S>>,
    not_resolved_parents: &'a VecSet<H::Hash>,
    not_resolved_coords: &'a VecSet<UnitCoord>,
}

impl<'a, H: Hasher, D: Data, S: Data> MemberStatus<'a, H, D, S> {
    /// The tasks with their times.
    pub closed spec fn tasks(&self) -> Seq<(RepeatableView<HashOf<H>, D::V, S::V>, Moment)> {
        self.task_queue.deep_view()
    }

    /// The units whose parents are needed.
    pub closed spec fn parents(&self) -> Set<HashOf<H>> {
        self.not_resolved_parents.deep_view()
    }

    /// The coordinates whose units are needed.
    pub closed spec fn coords(&self) -> Set<UnitCoord> {
        self.not_resolved_coords.deep_view()
    }

    pub fn new(
        task_queue: &'a TaskQueue<RepeatableTask<H, D, S>>,
        not_resolved_parents: &'a VecSet<H::Hash>,
        not_resolved_coords: &'a VecSet<UnitCoord>,
    ) -> (result: Self)
        ensures
            result.tasks() == task_queue.deep_view(),
            result.parents() == not_resolved_parents.deep_view(),
            result.coords() == not_resolved_coords.deep_view(),
    {
        MemberStatus { task_queue, not_resolved_parents, not_resolved_coords }
    }

    /// Counts the tasks of each kind, and describes those that are pending for a long time.
    fn count(&self) -> (result: (usize, usize, usize, Vec<String>))
        ensures
            result.0 == coord_requests(self.tasks()),
            result.1 == parent_requests(self.tasks()),
            result.2 == broadcasts(self.tasks()),
            result.3.deep_view() == long_pending::<H, D, S>(self.tasks()),
    {
        let ghost tasks = self.tasks();
        let n: usize = self.task_queue.len();
        let mut count_coord_request: usize = 0;
        let mut count_parents_request: usize = 0;
        let mut count_rebroadcast: usize = 0;
        let mut pending: Vec<String> = Vec::new();
        proof {
            assert(tasks.take(0) =~= seq![]);
            assert(pending.deep_view() =~= seq![]);
        }
        for i in 0..n
            invariant
                n == tasks.len(),
                tasks == self.tasks(),
                count_coord_request <= i,
                count_parents_request <= i,
                count_rebroadcast <= i,
                count_coord_request == coord_requests(tasks.take(i as int)),
                count_parents_request == parent_requests(tasks.take(i as int)),
                count_rebroadcast == broadcasts(tasks.take(i as int)),
                pending.deep_view() == long_pending::<H, D, S>(tasks.take(i as int)),
        {
            let ghost before = pending.deep_view();
            let task: &RepeatableTask<H, D, S> = self.task_queue.task(i);
            proof {
                assert(tasks.take(i + 1).drop_last() =~= tasks.take(i as int));
                assert(tasks.take(i + 1).last() == tasks[i as int]);
            }
            match &task.task {
                DisseminationTask::Request(ReconstructionRequest::Coord(_)) => {
                    count_coord_request = count_coord_request + 1;
                },
                DisseminationTask::Request(ReconstructionRequest::ParentsOf(_)) => {
                    count_parents_request = count_parents_request + 1;
                },
                DisseminationTask::Broadcast(_) => {
                    count_rebroadcast = count_rebroadcast + 1;
                },
            }
            if task.counter >= LONG_TIME {
                let described: String = task.text();
                let ghost added = described@;
                pending.push(described);
                proof {
                    assert(pending.deep_view() =~= before.push(added));
                }
            }
        }
        proof {
            assert(tasks.take(n as int) =~= tasks);
        }
        (count_coord_request, count_parents_request, count_rebroadcast, pending)
    }

    /// The whole report.
    pub fn text(&self) -> (out: String)
        ensures
            out@ == report::<H, D, S>(
                self.tasks(),
                self.coords().len(),
                self.parents().len(),
            ),
    {
        let (count_coord_request, count_parents_request, count_rebroadcast, pending): (
            usize,
            usize,
            usize,
            Vec<String>,
        ) = self.count();
        let coords: usize = self.not_resolved_coords.len();
        let parents: usize = self.not_resolved_parents.len();
        let mut out: String = String::new();
        out.append("Member status report: task queue content: CoordRequest - ");
        append_decimal(&mut out, count_coord_request as u64);
        out.append(", ParentsRequest - ");
        append_decimal(&mut out, count_parents_request as u64);
        out.append(", UnitBroadcast - ");
        append_decimal(&mut out, count_rebroadcast as u64);
        append_if_any(&mut out, "; not_resolved_coords.len() - ", coords);
        append_if_any(&mut out, "; not_resolved_parents.len() - ", parents);
        append_pending(&mut out, pending);
        out.append(".");
        proof {
            assert(out@ =~= report::<H, D, S>(self.tasks(), coords as nat, parents as nat));
        }
        out
    }
}

fn append_if_any(out: &mut String, label: &str, n: usize)
    ensures
        final(out)@ == old(out)@ + if_any(label@, n as nat),
{
    if n > 0 {
        out.append(label);
        append_decimal(out, n as u64);
    }
    proof {
        assert(out@ =~= old(out)@ + if_any(label@, n as nat));
    }
}

fn append_pending(out: &mut String, pending: Vec<String>)
    ensures
        final(out)@ == old(out)@ + pending_text(pending.deep_view()),
{
    let ghost texts = pending.deep_view();
    let mut pending: Vec<String> = pending;
    let n: usize = pending.len();
    if n > 0 {
        out.append("; pending tasks with counter >= 5 - ");
        if n >= ITEMS_PRINT_LIMIT {
            pending.truncate(ITEMS_PRINT_LIMIT);
            proof {
                assert(pending.deep_view() =~= texts.take(ITEMS_PRINT_LIMIT as int));
            }
            out.append(join(&pending, ", ").as_str());
            out.append(" and ");
            append_decimal(out, (n - ITEMS_PRINT_LIMIT) as u64);
            out.append(" more");
        } else {
            proof {
                assert(texts =~= texts.take(texts.len() as int));
            }
            out.append(join(&pending, ", ").as_str());
        }
    }
    proof {
        assert(out@ =~= old(out)@ + pending_text(texts));
    }
}

/// The tasks are counted by what they do: every task is of one kind, and is counted there.
pub proof fn law_tasks_counted<V, D, S>(tasks: Seq<(RepeatableView<V, D, S>, Moment)>)
    ensures
        coord_requests(tasks) == tasks.filter(
            |task: (RepeatableView<V, D, S>, Moment)|
                task.0.task is Request && task.0.task->Request_0 is Coord,
        ).len(),
        parent_requests(tasks) == tasks.filter(
            |task: (RepeatableView<V, D, S>, Moment)|
                task.0.task is Request && task.0.task->Request_0 is ParentsOf,
        ).len(),
        broadcasts(tasks) == tasks.filter(
            |task: (RepeatableView<V, D, S>, Moment)| task.0.task is Broadcast,
        ).len(),
        coord_requests(tasks) + parent_requests(tasks) + broadcasts(tasks) == tasks.len(),
    decreases tasks.len(),
{
    reveal(Seq::filter);
    if tasks.len() > 0 {
        law_tasks_counted(tasks.drop_last());
    }
}

/// Exactly the tasks that have been performed for a long time are pending for long.
pub proof fn law_long_pending_listed<H: Hasher, D: Data, S: Data>(
    tasks: Seq<(RepeatableView<HashOf<H>, D::V, S::V>, Moment)>,
)
    ensures
        ({
            let old_ones = tasks.filter(
                |task: (RepeatableView<HashOf<H>, D::V, S::V>, Moment)|
                    task.0.counter >= LONG_TIME,
            );
            &&& long_pending::<H, D, S>(tasks).len() == old_ones.len()
            &&& forall|k: int|
                0 <= k < old_ones.len() ==> long_pending::<H, D, S>(tasks)[k]
                    == repeatable_text::<H, D, S>((#[trigger] old_ones[k]).0)
        }),
    decreases tasks.len(),
{
    reveal(Seq::filter);
    if tasks.len() > 0 {
        law_long_pending_listed::<H, D, S>(tasks.drop_last());
    }
}

} // verus!
