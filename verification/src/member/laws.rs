//! What can be relied on when units are disseminated.
use crate::alerts::{Recipient, SignedUnitView};
use crate::dissemination::{RequestView as RunwayRequestView, UnitMessageView};
use crate::duration;
use crate::duration::{Duration, LONGEST};
use crate::member;
use crate::member::delays::Delays;
use crate::member::{ActionView, MemberView, NotificationView, RepeatableView, TaskView};
use crate::nodes::{NodeIndex, Round};
use crate::reconstruction::parents::RequestView as ReconstructionRequestView;
use crate::runway::NotificationOutView;
use crate::task_queue;
use crate::task_queue::Moment;
use crate::units::UnitCoord;
use vstd::prelude::*;

verus! {

/// The others are all the members but us, each once.
pub proof fn law_others_are_the_rest(n_members: nat, own_id: NodeIndex)
    requires
        n_members <= usize::MAX,
    ensures
        ({
            let peers = member::others(n_members, own_id);
            &&& peers.no_duplicates()
            &&& forall|recipient: Recipient| #[trigger]
                peers.contains(recipient) <==> (recipient matches Recipient::Node(node) && node
                    != own_id && node.0 < n_members)
            &&& peers.len() == (if own_id.0 < n_members {
                n_members - 1
            } else {
                n_members as int
            })
        }),
    decreases n_members,
{
    let peers = member::others(n_members, own_id);
    if n_members > 0 {
        let m = (n_members - 1) as nat;
        law_others_are_the_rest(m, own_id);
        let before = member::others(m, own_id);
        let last = Recipient::Node(NodeIndex(m as usize));
        if m != own_id.0 {
            assert(!before.contains(last));
            assert forall|i: int, j: int|
                0 <= i < peers.len() && 0 <= j < peers.len() && i != j implies peers[i]
                != peers[j] by {
                if i < before.len() {
                    assert(before.contains(before[i]));
                }
                if j < before.len() {
                    assert(before.contains(before[j]));
                }
            }
            assert forall|recipient: Recipient| #[trigger]
                peers.contains(recipient) <==> (recipient matches Recipient::Node(node) && node
                    != own_id && node.0 < n_members) by {
                if peers.contains(recipient) {
                    let i = choose|i: int| 0 <= i < peers.len() && peers[i] == recipient;
                    if i < before.len() {
                        assert(before.contains(recipient));
                    }
                }
                if before.contains(recipient) {
                    let i = choose|i: int| 0 <= i < before.len() && before[i] == recipient;
                    assert(peers[i] == recipient);
                }
                if recipient == last {
                    assert(peers[before.len() as int] == last);
                }
                if recipient matches Recipient::Node(node) && node != own_id && node.0 < n_members {
                    assert(recipient == last || before.contains(recipient));
                }
            }
        } else {
            assert forall|recipient: Recipient| #[trigger]
                peers.contains(recipient) <==> (recipient matches Recipient::Node(node) && node
                    != own_id && node.0 < n_members) by {
                assert(before.contains(recipient) == peers.contains(recipient));
            }
        }
    }
}

/// A request goes to as many of the others as the schedule says, or to all of them if there are
/// fewer; never to us and never twice to the same member.
pub proof fn law_request_recipients<V, D, S, C: Delays>(
    delays: C,
    n_members: nat,
    own_id: NodeIndex,
    request: ReconstructionRequestView<V>,
    counter: usize,
    recipients: Seq<Recipient>,
)
    requires
        n_members <= usize::MAX,
        member::possible_recipients::<V, D, S, C>(
            delays,
            member::others(n_members, own_id),
            TaskView::Request(request),
            counter,
            recipients,
        ),
    ensures
        recipients.no_duplicates(),
        !recipients.contains(Recipient::Node(own_id)),
        !recipients.contains(Recipient::Everyone),
        ({
            let amount = match request {
                ReconstructionRequestView::Coord(_) => delays.coord_recipients(counter),
                ReconstructionRequestView::ParentsOf(_) => delays.parent_recipients(counter),
            };
            let available = member::others(n_members, own_id).len();
            recipients.len() == (if amount < available {
                amount as nat
            } else {
                available
            })
        }),
{
    let peers = member::others(n_members, own_id);
    law_others_are_the_rest(n_members, own_id);
    let amount = match request {
        ReconstructionRequestView::Coord(_) => delays.coord_recipients(counter),
        ReconstructionRequestView::ParentsOf(_) => delays.parent_recipients(counter),
    };
    let places = choose|places: Seq<int>| #[trigger]
        member::picked(peers, amount, recipients, places);
    assert forall|i: int, j: int|
        0 <= i < recipients.len() && 0 <= j < recipients.len() && i != j implies recipients[i]
        != recipients[j] by {
        assert(places[i] != places[j]);
        assert(peers[places[i]] != peers[places[j]]);
    }
    assert forall|recipient: Recipient| recipients.contains(recipient) implies peers.contains(
        recipient,
    ) by {
        let i = choose|i: int| 0 <= i < recipients.len() && recipients[i] == recipient;
        assert(peers[places[i]] == recipient);
    }
}

/// Once something is no longer needed, nobody is asked for it any more.
pub proof fn law_resolved_not_asked_for<V, D, S>(
    state: MemberView<V, D, S>,
    request: ReconstructionRequestView<V>,
)
    ensures
        !member::valid_still(member::resolved(state, request), TaskView::Request(request)),
{
}

/// What is needed is asked for: the task is there, and it is worth performing. Asking for it again
/// changes nothing.
pub proof fn law_needed_is_asked_for<V, D, S>(
    state: MemberView<V, D, S>,
    request: ReconstructionRequestView<V>,
    moment: Moment,
    later: Moment,
)
    ensures
        ({
            let (after, news) = member::requested(state, request, moment);
            &&& member::valid_still(after, TaskView::Request(request))
            &&& news ==> after.tasks.len() == state.tasks.len() + 1
            &&& member::requested(after, request, later) == (after, false)
        }),
{
}

/// Once a later unit of some creator has been discovered, the earlier ones are no longer broadcast,
/// and the later one is.
pub proof fn law_only_latest_broadcast<V, D, S>(
    state: MemberView<V, D, S>,
    unit: SignedUnitView<V, D, S>,
    later: SignedUnitView<V, D, S>,
    moment: Moment,
)
    requires
        later.signable.creator() == unit.signable.creator(),
        later.signable.round() > unit.signable.round(),
        later.signable.creator().0 < state.top_units.len(),
        member::valid_still(state, TaskView::Broadcast(unit)),
    ensures
        ({
            let after = member::unit_discovered(state, later, moment);
            &&& !member::valid_still(after, TaskView::Broadcast(unit))
            &&& member::valid_still(after, TaskView::Broadcast(later))
        }),
{
}

/// Whether one of the tasks is to ask for something.
pub open spec fn to_be_requested<V, D, S>(
    tasks: Seq<(RepeatableView<V, D, S>, Moment)>,
    request: ReconstructionRequestView<V>,
) -> bool {
    exists|i: int|
        0 <= i < tasks.len() && (#[trigger] tasks[i]).0.task == TaskView::<V, D, S>::Request(
            request,
        )
}

/// Whether one of the tasks is to broadcast a unit with these coordinates.
pub open spec fn to_be_broadcast<V, D, S>(
    tasks: Seq<(RepeatableView<V, D, S>, Moment)>,
    creator: int,
    round: Round,
) -> bool {
    exists|i: int|
        0 <= i < tasks.len() && ((#[trigger] tasks[i]).0.task matches TaskView::Broadcast(unit)
            && unit.signable.pre_unit.coord.creator.0 == creator
            && unit.signable.pre_unit.coord.round == round)
}

/// Whatever is unresolved is still to be asked for, and a latest unit of every creator with a known
/// one is still to be broadcast.
pub open spec fn pursued<V, D, S>(state: MemberView<V, D, S>) -> bool {
    &&& forall|coord: UnitCoord| #[trigger]
        state.not_resolved_coords.contains(coord) ==> to_be_requested(
            state.tasks,
            ReconstructionRequestView::Coord(coord),
        )
    &&& forall|hash: V| #[trigger]
        state.not_resolved_parents.contains(hash) ==> to_be_requested(
            state.tasks,
            ReconstructionRequestView::ParentsOf(hash),
        )
    &&& forall|creator: int|
        0 <= creator < state.top_units.len() ==> ((#[trigger] state.top_units[creator]) matches Some(
            round,
        ) ==> to_be_broadcast(state.tasks, creator, round))
}

/// More tasks pursue whatever fewer of them do.
proof fn lemma_more_tasks<V, D, S>(
    before: Seq<(RepeatableView<V, D, S>, Moment)>,
    task: (RepeatableView<V, D, S>, Moment),
)
    ensures
        forall|request: ReconstructionRequestView<V>|
            to_be_requested(before, request) ==> #[trigger] to_be_requested(
                before.push(task),
                request,
            ),
        forall|creator: int, round: Round|
            to_be_broadcast(before, creator, round) ==> #[trigger] to_be_broadcast(
                before.push(task),
                creator,
                round,
            ),
        task.0.task matches TaskView::Request(request) ==> to_be_requested(
            before.push(task),
            request,
        ),
        task.0.task matches TaskView::Broadcast(unit) ==> to_be_broadcast(
            before.push(task),
            unit.signable.pre_unit.coord.creator.0 as int,
            unit.signable.pre_unit.coord.round,
        ),
{
    let all = before.push(task);
    assert(all[before.len() as int] == task);
    assert forall|request: ReconstructionRequestView<V>|
        to_be_requested(before, request) implies #[trigger] to_be_requested(all, request) by {
        let i = choose|i: int|
            0 <= i < before.len() && (#[trigger] before[i]).0.task == TaskView::<V, D, S>::Request(
                request,
            );
        assert(all[i] == before[i]);
    }
    assert forall|creator: int, round: Round|
        to_be_broadcast(before, creator, round) implies #[trigger] to_be_broadcast(
        all,
        creator,
        round,
    ) by {
        let i = choose|i: int|
            0 <= i < before.len() && ((#[trigger] before[i]).0.task matches TaskView::Broadcast(
                unit,
            ) && unit.signable.pre_unit.coord.creator.0 == creator
                && unit.signable.pre_unit.coord.round == round);
        assert(all[i] == before[i]);
    }
}

/// A member who has just started pursues everything that there is: nothing.
pub proof fn law_pursued_from_the_start<V, D, S>(n_members: nat)
    ensures
        pursued(MemberView::<V, D, S>::fresh(n_members)),
{
}

/// When something is needed, it is pursued from then on, and so is all that was before.
pub proof fn law_requested_pursued<V, D, S>(
    state: MemberView<V, D, S>,
    request: ReconstructionRequestView<V>,
    moment: Moment,
)
    requires
        pursued(state),
    ensures
        ({
            let after = member::requested(state, request, moment).0;
            &&& pursued(after)
            &&& to_be_requested(after.tasks, request)
            &&& after.top_units == state.top_units
            &&& forall|coord: UnitCoord| #[trigger]
                after.not_resolved_coords.contains(coord) <==> state.not_resolved_coords.contains(
                    coord,
                ) || request == ReconstructionRequestView::<V>::Coord(coord)
            &&& forall|hash: V| #[trigger]
                after.not_resolved_parents.contains(hash) <==> state.not_resolved_parents.contains(
                    hash,
                ) || request == ReconstructionRequestView::<V>::ParentsOf(hash)
        }),
{
    let task = (RepeatableView { task: TaskView::<V, D, S>::Request(request), counter: 0 }, moment);
    lemma_more_tasks(state.tasks, task);
    match request {
        ReconstructionRequestView::Coord(coord) => {
            assert(state.not_resolved_coords.contains(coord)
                || !state.not_resolved_coords.contains(coord));
        },
        ReconstructionRequestView::ParentsOf(hash) => {
            assert(state.not_resolved_parents.contains(hash)
                || !state.not_resolved_parents.contains(hash));
        },
    }
}

/// A request that is news is made at once, for the first time; all the other tasks stay as they are.
pub proof fn law_requested_at_once<V, D, S>(
    state: MemberView<V, D, S>,
    request: ReconstructionRequestView<V>,
    moment: Moment,
)
    ensures
        ({
            let (after, news) = member::requested(state, request, moment);
            &&& news <==> match request {
                ReconstructionRequestView::Coord(coord) => !state.not_resolved_coords.contains(
                    coord,
                ),
                ReconstructionRequestView::ParentsOf(hash) => !state.not_resolved_parents.contains(
                    hash,
                ),
            }
            &&& !news ==> after == state
            &&& news ==> {
                let (task, when) = after.tasks.last();
                &&& after.tasks.len() == state.tasks.len() + 1
                &&& after.tasks.drop_last() == state.tasks
                &&& task.task == TaskView::<V, D, S>::Request(request)
                &&& task.counter == 0
                &&& when == moment
            }
        }),
{
    assert(member::requested(state, request, moment).1 ==> member::requested(
        state,
        request,
        moment,
    ).0.tasks.drop_last() =~= state.tasks);
}

/// When a unit is discovered, a latest unit of its creator is broadcast from then on, and all that
/// was pursued still is. A unit of a later round than any known one of its creator is itself to be
/// broadcast, and no other discovery changes anything.
pub proof fn law_discovered_pursued<V, D, S>(
    state: MemberView<V, D, S>,
    unit: SignedUnitView<V, D, S>,
    moment: Moment,
)
    requires
        pursued(state),
        unit.signable.pre_unit.coord.creator.0 < state.top_units.len(),
    ensures
        ({
            let after = member::unit_discovered(state, unit, moment);
            let creator = unit.signable.pre_unit.coord.creator.0 as int;
            let round = unit.signable.pre_unit.coord.round;
            let news = match state.top_units[creator] {
                Some(known) => known < round,
                None => true,
            };
            &&& pursued(after)
            &&& after.top_units.len() == state.top_units.len()
            &&& after.top_units[creator] matches Some(latest)
            &&& latest >= round
            &&& to_be_broadcast(after.tasks, creator, latest)
            &&& !news ==> after == state
            &&& news ==> {
                let (task, when) = after.tasks.last();
                &&& latest == round
                &&& after.tasks.drop_last() == state.tasks
                &&& task.task == TaskView::<V, D, S>::Broadcast(unit)
                &&& task.counter == 0
                &&& when == moment
            }
            &&& forall|other: int|
                0 <= other < state.top_units.len() && other != creator
                    ==> #[trigger] after.top_units[other] == state.top_units[other]
            &&& after.not_resolved_coords == state.not_resolved_coords
            &&& after.not_resolved_parents == state.not_resolved_parents
        }),
{
    let after = member::unit_discovered(state, unit, moment);
    let task = (RepeatableView { task: TaskView::<V, D, S>::Broadcast(unit), counter: 0 }, moment);
    let creator = unit.signable.pre_unit.coord.creator.0 as int;
    lemma_more_tasks(state.tasks, task);
    if member::is_newest(state, unit) {
        assert(after.tasks == state.tasks.push(task));
        assert(after.tasks.drop_last() =~= state.tasks);
        assert forall|other: int|
            0 <= other < after.top_units.len() implies ((
        #[trigger] after.top_units[other]) matches Some(round) ==> to_be_broadcast(
            after.tasks,
            other,
            round,
        )) by {
            if other != creator {
                assert(after.top_units[other] == state.top_units[other]);
            }
        }
    } else {
        assert(state.top_units[creator] is Some);
    }
}

/// The same, whenever the unit is discovered.
pub proof fn law_any_discovery_pursued<V, D, S, C: Delays>(
    schedule: C,
    before: MemberView<V, D, S>,
    unit: SignedUnitView<V, D, S>,
    after: MemberView<V, D, S>,
)
    requires
        pursued(before),
        unit.signable.pre_unit.coord.creator.0 < before.top_units.len(),
        member::discovered(schedule, before, unit, after),
    ensures
        pursued(after),
        after.top_units.len() == before.top_units.len(),
        ({
            let creator = unit.signable.pre_unit.coord.creator.0 as int;
            after.top_units[creator] matches Some(latest) && latest
                >= unit.signable.pre_unit.coord.round && to_be_broadcast(
                after.tasks,
                creator,
                latest,
            )
        }),
{
    law_discovered_pursued(before, unit, 0);
    if member::is_newest(before, unit) {
        let (now, delay) = choose|now: Moment, delay: Duration|
            {
                &&& now <= task_queue::LAST_MOMENT
                &&& member::possible_delay(schedule, TaskView::Broadcast(unit), 0, delay)
                &&& after == member::unit_discovered(
                    before,
                    unit,
                    #[trigger] task_queue::after(now, delay),
                )
            };
        law_discovered_pursued(before, unit, task_queue::after(now, delay));
    }
}

/// Resolving something gives up that alone: it is no longer needed, everything else is, and it is
/// still pursued.
pub proof fn law_resolved_pursued<V, D, S>(
    state: MemberView<V, D, S>,
    request: ReconstructionRequestView<V>,
)
    requires
        pursued(state),
    ensures
        ({
            let after = member::resolved(state, request);
            &&& pursued(after)
            &&& after.tasks == state.tasks
            &&& after.top_units == state.top_units
            &&& forall|coord: UnitCoord| #[trigger]
                after.not_resolved_coords.contains(coord) <==> state.not_resolved_coords.contains(
                    coord,
                ) && request != ReconstructionRequestView::<V>::Coord(coord)
            &&& forall|hash: V| #[trigger]
                after.not_resolved_parents.contains(hash) <==> state.not_resolved_parents.contains(
                    hash,
                ) && request != ReconstructionRequestView::<V>::ParentsOf(hash)
        }),
{
    let after = member::resolved(state, request);
    assert forall|coord: UnitCoord| #[trigger]
        after.not_resolved_coords.contains(coord) implies to_be_requested(
        after.tasks,
        ReconstructionRequestView::Coord(coord),
    ) by {
        assert(state.not_resolved_coords.contains(coord));
    }
    assert forall|hash: V| #[trigger]
        after.not_resolved_parents.contains(hash) implies to_be_requested(
        after.tasks,
        ReconstructionRequestView::ParentsOf(hash),
    ) by {
        assert(state.not_resolved_parents.contains(hash));
    }
}

/// Whether a task is about something that is unresolved, or a unit that is a latest one.
pub open spec fn wanted<V, D, S>(state: MemberView<V, D, S>, task: TaskView<V, D, S>) -> bool {
    match task {
        TaskView::Request(ReconstructionRequestView::Coord(coord)) => {
            state.not_resolved_coords.contains(coord)
        },
        TaskView::Request(ReconstructionRequestView::ParentsOf(hash)) => {
            state.not_resolved_parents.contains(hash)
        },
        TaskView::Broadcast(unit) => {
            let creator = unit.signable.pre_unit.coord.creator.0 as int;
            creator < state.top_units.len() && state.top_units[creator] == Some(
                unit.signable.pre_unit.coord.round,
            )
        },
    }
}

/// Among the tasks, a wanted one is pursued: what it pursues is still pursued when it is taken out
/// and put back behind the others.
proof fn lemma_put_back<V, D, S>(
    before: Seq<(RepeatableView<V, D, S>, Moment)>,
    i: int,
    again: (RepeatableView<V, D, S>, Moment),
)
    requires
        0 <= i < before.len(),
        again.0.task == before[i].0.task,
    ensures
        forall|request: ReconstructionRequestView<V>|
            to_be_requested(before, request) ==> #[trigger] to_be_requested(
                before.remove(i).push(again),
                request,
            ),
        forall|creator: int, round: Round|
            to_be_broadcast(before, creator, round) ==> #[trigger] to_be_broadcast(
                before.remove(i).push(again),
                creator,
                round,
            ),
        forall|request: ReconstructionRequestView<V>|
            to_be_requested(before, request) && before[i].0.task != TaskView::<V, D, S>::Request(
                request,
            ) ==> #[trigger] to_be_requested(before.remove(i), request),
        forall|creator: int, round: Round|
            to_be_broadcast(before, creator, round) && !(before[i].0.task matches TaskView::Broadcast(
                unit,
            ) && unit.signable.pre_unit.coord.creator.0 == creator
                && unit.signable.pre_unit.coord.round == round) ==> #[trigger] to_be_broadcast(
                before.remove(i),
                creator,
                round,
            ),
{
    let rest = before.remove(i);
    lemma_more_tasks(rest, again);
    assert forall|request: ReconstructionRequestView<V>|
        to_be_requested(before, request) && before[i].0.task != TaskView::<V, D, S>::Request(
            request,
        ) implies #[trigger] to_be_requested(rest, request) by {
        let j = choose|j: int|
            0 <= j < before.len() && (#[trigger] before[j]).0.task == TaskView::<V, D, S>::Request(
                request,
            );
        let k = if j < i {
            j
        } else {
            j - 1
        };
        assert(rest[k] == before[j]);
    }
    assert forall|creator: int, round: Round|
        to_be_broadcast(before, creator, round) && !(before[i].0.task matches TaskView::Broadcast(
            unit,
        ) && unit.signable.pre_unit.coord.creator.0 == creator
            && unit.signable.pre_unit.coord.round == round) implies #[trigger] to_be_broadcast(
        rest,
        creator,
        round,
    ) by {
        let j = choose|j: int|
            0 <= j < before.len() && ((#[trigger] before[j]).0.task matches TaskView::Broadcast(
                unit,
            ) && unit.signable.pre_unit.coord.creator.0 == creator
                && unit.signable.pre_unit.coord.round == round);
        let k = if j < i {
            j
        } else {
            j - 1
        };
        assert(rest[k] == before[j]);
    }
    assert forall|request: ReconstructionRequestView<V>|
        to_be_requested(before, request) implies #[trigger] to_be_requested(
        rest.push(again),
        request,
    ) by {
        if before[i].0.task != TaskView::<V, D, S>::Request(request) {
            assert(to_be_requested(rest, request));
        }
    }
    assert forall|creator: int, round: Round|
        to_be_broadcast(before, creator, round) implies #[trigger] to_be_broadcast(
        rest.push(again),
        creator,
        round,
    ) by {
        if !(before[i].0.task matches TaskView::Broadcast(unit)
            && unit.signable.pre_unit.coord.creator.0 == creator
            && unit.signable.pre_unit.coord.round == round) {
            assert(to_be_broadcast(rest, creator, round));
        }
    }
}

/// Performing a task that is due gives up nothing: what is unresolved stays so and is still to be
/// asked for, and the latest units are still to be broadcast.
pub proof fn law_triggered_pursued<V, D, S, C: Delays>(
    delays: C,
    own_id: NodeIndex,
    peers: Seq<Recipient>,
    before: MemberView<V, D, S>,
    after: MemberView<V, D, S>,
    actions: Option<Seq<ActionView<V, D, S>>>,
)
    requires
        pursued(before),
        member::some_task_triggered(delays, own_id, peers, before, after, actions),
    ensures
        pursued(after),
        after.not_resolved_coords == before.not_resolved_coords,
        after.not_resolved_parents == before.not_resolved_parents,
        after.top_units == before.top_units,
{
    let (now, due, rest, recipients, delay, later) = choose|
        now: Moment,
        due: Option<RepeatableView<V, D, S>>,
        rest: Seq<(RepeatableView<V, D, S>, Moment)>,
        recipients: Seq<Recipient>,
        delay: Duration,
        later: Moment,
    |
        #[trigger] member::task_triggered(
            delays,
            own_id,
            peers,
            before,
            after,
            actions,
            now,
            due,
            rest,
            recipients,
            delay,
            later,
        );
    if let Some(task) = due {
        let i = choose|i: int|
            #![trigger before.tasks[i]]
            {
                &&& task_queue::is_first(before.tasks, i)
                &&& before.tasks[i].1 <= now
                &&& before.tasks[i].0 == task
                &&& rest == before.tasks.remove(i)
            };
        let again = (
            RepeatableView { counter: member::next_count(task.counter), ..task },
            task_queue::after(later, delay),
        );
        lemma_put_back(before.tasks, i, again);
        if wanted(before, task.task) {
            assert(after.tasks == rest.push(again));
        } else {
            assert(after.tasks == rest);
        }
    }
}

/// A task that is due is the most overdue one; it is taken out of the queue. If it is wanted, its
/// message goes to each of the recipients, and it is back in the queue, performed once more and
/// later by its delay; if it is not, nothing is sent and it is gone. The other tasks keep their
/// places.
pub proof fn law_performed_again<V, D, S, C: Delays>(
    delays: C,
    own_id: NodeIndex,
    peers: Seq<Recipient>,
    before: MemberView<V, D, S>,
    after: MemberView<V, D, S>,
    actions: Option<Seq<ActionView<V, D, S>>>,
    now: Moment,
    task: RepeatableView<V, D, S>,
    rest: Seq<(RepeatableView<V, D, S>, Moment)>,
    recipients: Seq<Recipient>,
    delay: Duration,
    later: Moment,
)
    requires
        delay@ <= LONGEST,
        member::task_triggered(
            delays,
            own_id,
            peers,
            before,
            after,
            actions,
            now,
            Some(task),
            rest,
            recipients,
            delay,
            later,
        ),
    ensures
        exists|i: int|
            {
                &&& 0 <= i < before.tasks.len()
                &&& (#[trigger] before.tasks[i]).0 == task
                &&& before.tasks[i].1 <= now
                &&& rest == before.tasks.remove(i)
                &&& forall|j: int|
                    0 <= j < before.tasks.len() ==> before.tasks[i].1 <= (
                    #[trigger] before.tasks[j]).1
            },
        !wanted(before, task.task) ==> after.tasks == rest && actions == Some(
            Seq::<ActionView<V, D, S>>::empty(),
        ),
        wanted(before, task.task) ==> {
            let (again, when) = after.tasks.last();
            &&& after.tasks.len() == rest.len() + 1
            &&& after.tasks.drop_last() == rest
            &&& again.task == task.task
            &&& task.counter < usize::MAX ==> again.counter == task.counter + 1
            &&& task.counter == usize::MAX ==> again.counter == usize::MAX
            &&& when == later + delay@
            &&& actions matches Some(sending)
            &&& sending.len() == recipients.len()
            &&& forall|k: int|
                0 <= k < sending.len() ==> #[trigger] sending[k] == ActionView::Send(
                    match task.task {
                        TaskView::Request(ReconstructionRequestView::Coord(coord)) => {
                            UnitMessageView::<V, D, S>::RequestCoord(own_id, coord)
                        },
                        TaskView::Request(ReconstructionRequestView::ParentsOf(hash)) => {
                            UnitMessageView::RequestParents(own_id, hash)
                        },
                        TaskView::Broadcast(unit) => UnitMessageView::NewUnit(unit),
                    },
                    recipients[k],
                )
        },
{
    let i = choose|i: int|
        #![trigger before.tasks[i]]
        {
            &&& task_queue::is_first(before.tasks, i)
            &&& before.tasks[i].1 <= now
            &&& before.tasks[i].0 == task
            &&& rest == before.tasks.remove(i)
        };
    assert(before.tasks[i].0 == task);
    if wanted(before, task.task) {
        assert(after.tasks.drop_last() =~= rest);
    }
}

/// How long a wanted task is put off, and whom it goes to: requests follow their own schedules, each
/// its own, units go to everyone and wait for a number of milliseconds within the interval.
pub proof fn law_performed_on_schedule<V, D, S, C: Delays>(
    delays: C,
    own_id: NodeIndex,
    peers: Seq<Recipient>,
    before: MemberView<V, D, S>,
    after: MemberView<V, D, S>,
    actions: Option<Seq<ActionView<V, D, S>>>,
    now: Moment,
    task: RepeatableView<V, D, S>,
    rest: Seq<(RepeatableView<V, D, S>, Moment)>,
    recipients: Seq<Recipient>,
    delay: Duration,
    later: Moment,
)
    requires
        wanted(before, task.task),
        member::task_triggered(
            delays,
            own_id,
            peers,
            before,
            after,
            actions,
            now,
            Some(task),
            rest,
            recipients,
            delay,
            later,
        ),
    ensures
        task.task matches TaskView::Request(request) ==> {
            let (wait, amount) = match request {
                ReconstructionRequestView::Coord(_) => (
                    delays.coord_delay(task.counter),
                    delays.coord_recipients(task.counter),
                ),
                ReconstructionRequestView::ParentsOf(_) => (
                    delays.parent_delay(task.counter),
                    delays.parent_recipients(task.counter),
                ),
            };
            &&& delay == wait
            &&& recipients.len() == (if amount < peers.len() {
                amount as nat
            } else {
                peers.len()
            })
            &&& forall|k: int|
                0 <= k < recipients.len() ==> peers.contains(#[trigger] recipients[k])
        },
        task.task is Broadcast ==> {
            &&& recipients == seq![Recipient::Everyone]
            &&& exists|millis: nat|
                {
                    &&& duration::whole_millis(delays.rebroadcast_min()) <= millis
                    &&& millis < duration::whole_millis(delays.rebroadcast_max())
                    &&& delay@ == #[trigger] duration::low_millis(millis)
                        * duration::NANOS_IN_MILLI
                }
        },
{
    if let TaskView::Request(request) = task.task {
        let amount = match request {
            ReconstructionRequestView::Coord(_) => delays.coord_recipients(task.counter),
            ReconstructionRequestView::ParentsOf(_) => delays.parent_recipients(task.counter),
        };
        let places = choose|places: Seq<int>| #[trigger]
            member::picked(peers, amount, recipients, places);
        assert forall|k: int| 0 <= k < recipients.len() implies peers.contains(
            #[trigger] recipients[k],
        ) by {
            assert(peers[places[k]] == recipients[k]);
        }
    } else {
        let millis = choose|millis: nat| #[trigger]
            member::rebroadcast_millis(delays, millis) && delay@ == duration::low_millis(millis)
                * duration::NANOS_IN_MILLI;
        assert(delay@ == duration::low_millis(millis) * duration::NANOS_IN_MILLI);
    }
}

/// Whether all the tasks are for later than some moment.
pub open spec fn nothing_due<V, D, S>(
    tasks: Seq<(RepeatableView<V, D, S>, Moment)>,
    now: Moment,
) -> bool {
    forall|i: int| 0 <= i < tasks.len() ==> (#[trigger] tasks[i]).1 > now
}

/// If nothing is due, nothing happens.
pub proof fn law_nothing_due_nothing_done<V, D, S, C: Delays>(
    delays: C,
    own_id: NodeIndex,
    peers: Seq<Recipient>,
    before: MemberView<V, D, S>,
    after: MemberView<V, D, S>,
    actions: Option<Seq<ActionView<V, D, S>>>,
)
    requires
        member::some_task_triggered(delays, own_id, peers, before, after, actions),
    ensures
        actions is None ==> after == before,
        before.tasks.len() == 0 ==> actions is None,
        actions is None ==> exists|now: Moment|
            now <= task_queue::LAST_MOMENT && #[trigger] nothing_due(before.tasks, now),
{
    let (now, due, rest, recipients, delay, later) = choose|
        now: Moment,
        due: Option<RepeatableView<V, D, S>>,
        rest: Seq<(RepeatableView<V, D, S>, Moment)>,
        recipients: Seq<Recipient>,
        delay: Duration,
        later: Moment,
    |
        #[trigger] member::task_triggered(
            delays,
            own_id,
            peers,
            before,
            after,
            actions,
            now,
            due,
            rest,
            recipients,
            delay,
            later,
        );
    if due is None {
        assert(nothing_due(before.tasks, now));
    }
}

/// Whatever the runway lets us know, all that was pursued still is, and what it needs is pursued as
/// well: a request is made until it is resolved, a new unit is broadcast unless a later one of its
/// creator is. Our own units and messages go out at once and change nothing.
pub proof fn law_notified_pursued<V, D, S, C: Delays>(
    schedule: C,
    before: MemberView<V, D, S>,
    message: NotificationView<V, D, S>,
    after: MemberView<V, D, S>,
    actions: Seq<ActionView<V, D, S>>,
)
    requires
        pursued(before),
        message matches NotificationView::NewAnyUnit(unit)
            ==> unit.signable.pre_unit.coord.creator.0 < before.top_units.len(),
        member::notified(schedule, before, message, after, actions),
    ensures
        pursued(after),
        match message {
            NotificationView::NewSelfUnit(unit) => after == before && actions == seq![
                ActionView::Send(UnitMessageView::NewUnit(unit), Recipient::Everyone),
            ],
            NotificationView::NewAnyUnit(unit) => {
                let creator = unit.signable.pre_unit.coord.creator.0 as int;
                &&& actions.len() == 0
                &&& after.top_units[creator] matches Some(latest)
                &&& latest >= unit.signable.pre_unit.coord.round
                &&& to_be_broadcast(after.tasks, creator, latest)
            },
            NotificationView::Request(request) => {
                &&& to_be_requested(after.tasks, request)
                &&& wanted(after, TaskView::Request(request))
                &&& actions.contains(ActionView::TriggerTasks) <==> !wanted(
                    before,
                    TaskView::Request(request),
                )
                &&& forall|k: int|
                    0 <= k < actions.len() ==> #[trigger] actions[k]
                        == ActionView::<V, D, S>::TriggerTasks
            },
            NotificationView::Message(message, recipient) => after == before && actions == seq![
                ActionView::Send(message, recipient),
            ],
        },
{
    match message {
        NotificationView::NewAnyUnit(unit) => {
            law_any_discovery_pursued(schedule, before, unit, after);
        },
        NotificationView::Request(request) => {
            let now = choose|now: Moment|
                {
                    let (state, news) = #[trigger] member::requested(before, request, now);
                    &&& now <= task_queue::LAST_MOMENT
                    &&& after == state
                    &&& actions == member::triggering::<V, D, S>(news)
                };
            law_requested_pursued(before, request, now);
            if member::requested(before, request, now).1 {
                assert(actions[0] == ActionView::<V, D, S>::TriggerTasks);
            }
        },
        _ => {},
    }
}

/// Every notification of the runway is dealt with as what it is: units as units, requests for units
/// and for parents as such, everything else as a message to those whom it is for.
pub proof fn law_notifications_keep_their_meaning<V, D, S>(
    notification: NotificationOutView<V, D, S>,
)
    ensures
        ({
            let meaning = member::from_runway(notification);
            &&& notification is NewSelfUnit <==> meaning is NewSelfUnit
            &&& notification matches NotificationOutView::NewSelfUnit(unit) ==> meaning
                == NotificationView::<V, D, S>::NewSelfUnit(unit)
            &&& notification is NewAnyUnit <==> meaning is NewAnyUnit
            &&& notification matches NotificationOutView::NewAnyUnit(unit) ==> meaning
                == NotificationView::<V, D, S>::NewAnyUnit(unit)
            &&& meaning is Request ==> notification is Request
            &&& notification matches NotificationOutView::Request(RunwayRequestView::Coord(coord))
                ==> meaning == NotificationView::<V, D, S>::Request(
                ReconstructionRequestView::Coord(coord),
            )
            &&& notification matches NotificationOutView::Request(RunwayRequestView::Parents(hash))
                ==> meaning == NotificationView::<V, D, S>::Request(
                ReconstructionRequestView::ParentsOf(hash),
            )
            &&& notification matches NotificationOutView::Response(_, node) ==> (
            meaning matches NotificationView::Message(_, recipient) && recipient
                == Recipient::Node(node))
            &&& notification matches NotificationOutView::Request(
                RunwayRequestView::NewestUnit(node, salt),
            ) ==> meaning == NotificationView::<V, D, S>::Message(
                UnitMessageView::RequestNewest(node, salt),
                Recipient::Everyone,
            )
        }),
{
}

/// No two notifications of the runway mean the same.
pub proof fn law_notifications_told_apart<V, D, S>(
    one: NotificationOutView<V, D, S>,
    other: NotificationOutView<V, D, S>,
)
    requires
        one != other,
    ensures
        member::from_runway(one) != member::from_runway(other),
{
}

} // verus!
