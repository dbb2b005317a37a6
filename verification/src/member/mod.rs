//! Disseminating our units, and asking the other members for the units that we need.
use crate::alerts::{Recipient, SignedUnitView};
use crate::collections::VecSet;
use crate::crypto::{HashOf, Hasher};
use crate::data::Data;
use crate::dissemination::{
    Request as RunwayRequest, RequestView as RunwayRequestView, Response, ResponseView,
    UnitMessage, UnitMessageView,
};
use crate::duration;
use crate::duration::Duration;
use crate::member::delays::Delays;
use crate::member::status::MemberStatus;
use crate::nodes;
use crate::nodes::{NodeCount, NodeIndex, NodeMap, Round};
use crate::reconstruction::parents::{
    Request as ReconstructionRequest, RequestView as ReconstructionRequestView,
};
use crate::runway::{NotificationOutView, RunwayNotificationOut};
use crate::task_queue;
use crate::task_queue::{Moment, TaskQueue};
use crate::units::{UncheckedSignedUnit, UnitCoord};
use rand::seq::SliceRandom;
use rand::Rng;
use vstd::prelude::*;

pub mod delays;
pub mod finalization;
pub mod laws;
pub mod service;
pub mod status;

verus! {

/// What is done again and again until it is no longer needed.
pub enum DisseminationTask<H: Hasher, D: Data, S: Data> {
    /// Ask some members for something.
    Request(ReconstructionRequest<H>),
    /// Send a unit to everyone.
    Broadcast(UncheckedSignedUnit<H, D, S>),
}

/// The model of a task.
pub enum TaskView<V, D, S> {
    Request(ReconstructionRequestView<V>),
    Broadcast(SignedUnitView<V, D, S>),
}

impl<H: Hasher, D: Data, S: Data> DeepView for DisseminationTask<H, D, S> {
    type V = TaskView<HashOf<H>, D::V, S::V>;

    open spec fn deep_view(&self) -> TaskView<HashOf<H>, D::V, S::V> {
        match self {
            DisseminationTask::Request(request) => TaskView::Request(request.deep_view()),
            DisseminationTask::Broadcast(unit) => TaskView::Broadcast(unit.deep_view()),
        }
    }
}

/// A task, and how often it has been performed.
pub struct RepeatableTask<H: Hasher, D: Data, S: Data> {
    pub task: DisseminationTask<H, D, S>,
    pub counter: usize,
}

/// The model of a repeatable task.
pub struct RepeatableView<V, D, S> {
    pub task: TaskView<V, D, S>,
    pub counter: usize,
}

impl<H: Hasher, D: Data, S: Data> DeepView for RepeatableTask<H, D, S> {
    type V = RepeatableView<HashOf<H>, D::V, S::V>;

    open spec fn deep_view(&self) -> RepeatableView<HashOf<H>, D::V, S::V> {
        RepeatableView { task: self.task.deep_view(), counter: self.counter }
    }
}

impl<H: Hasher, D: Data, S: Data> RepeatableTask<H, D, S> {
    pub fn new(task: DisseminationTask<H, D, S>) -> (result: Self)
        ensures
            result.deep_view() == (RepeatableView { task: task.deep_view(), counter: 0 }),
    {
        RepeatableTask { task, counter: 0 }
    }
}

/// How often a task has been performed once it has been performed again.
pub open spec fn next_count(counter: usize) -> usize {
    if counter < usize::MAX {
        (counter + 1) as usize
    } else {
        counter
    }
}

/// What is to be done about a task now.
pub enum TaskDetails<H: Hasher, D: Data, S: Data> {
    /// Nothing, ever again.
    Cancel,
    /// Send the message to each of the recipients, and come back after some time.
    Perform { message: UnitMessage<H, D, S>, recipients: Vec<Recipient>, reschedule: Duration },
}

/// What the runway lets us know.
pub enum Notification<H: Hasher, D: Data, S: Data> {
    /// There is a new unit of our own.
    NewSelfUnit(UncheckedSignedUnit<H, D, S>),
    /// There is a new unit of anybody.
    NewAnyUnit(UncheckedSignedUnit<H, D, S>),
    /// Something is needed.
    Request(ReconstructionRequest<H>),
    /// A message is to be sent.
    Message(UnitMessage<H, D, S>, Recipient),
}

/// The model of a notification.
pub enum NotificationView<V, D, S> {
    NewSelfUnit(SignedUnitView<V, D, S>),
    NewAnyUnit(SignedUnitView<V, D, S>),
    Request(ReconstructionRequestView<V>),
    Message(UnitMessageView<V, D, S>, Recipient),
}

impl<H: Hasher, D: Data, S: Data> DeepView for Notification<H, D, S> {
    type V = NotificationView<HashOf<H>, D::V, S::V>;

    open spec fn deep_view(&self) -> NotificationView<HashOf<H>, D::V, S::V> {
        match self {
            Notification::NewSelfUnit(unit) => NotificationView::NewSelfUnit(unit.deep_view()),
            Notification::NewAnyUnit(unit) => NotificationView::NewAnyUnit(unit.deep_view()),
            Notification::Request(request) => NotificationView::Request(request.deep_view()),
            Notification::Message(message, recipient) => NotificationView::Message(
                message.deep_view(),
                *recipient,
            ),
        }
    }
}

/// What a notification of the runway means for the dissemination.
pub open spec fn from_runway<V, D, S>(
    notification: NotificationOutView<V, D, S>,
) -> NotificationView<V, D, S> {
    match notification {
        NotificationOutView::NewSelfUnit(unit) => NotificationView::NewSelfUnit(unit),
        NotificationOutView::NewAnyUnit(unit) => NotificationView::NewAnyUnit(unit),
        NotificationOutView::Request(RunwayRequestView::Coord(coord)) => NotificationView::Request(
            ReconstructionRequestView::Coord(coord),
        ),
        NotificationOutView::Request(RunwayRequestView::Parents(hash)) => NotificationView::Request(
            ReconstructionRequestView::ParentsOf(hash),
        ),
        NotificationOutView::Request(RunwayRequestView::NewestUnit(node, salt)) => {
            NotificationView::Message(
                UnitMessageView::RequestNewest(node, salt),
                Recipient::Everyone,
            )
        },
        NotificationOutView::Response(ResponseView::Coord(unit), node) => NotificationView::Message(
            UnitMessageView::ResponseCoord(unit),
            Recipient::Node(node),
        ),
        NotificationOutView::Response(ResponseView::Parents(hash, parents), node) => {
            NotificationView::Message(
                UnitMessageView::ResponseParents(hash, parents),
                Recipient::Node(node),
            )
        },
        NotificationOutView::Response(ResponseView::NewestUnit(response), node) => {
            NotificationView::Message(
                UnitMessageView::ResponseNewest(response),
                Recipient::Node(node),
            )
        },
    }
}

impl<H: Hasher, D: Data, S: Data> Notification<H, D, S> {
    /// What a notification of the runway means for the dissemination.
    pub fn from_runway(notification: RunwayNotificationOut<H, D, S>) -> (result: Self)
        ensures
            result.deep_view() == from_runway(notification.deep_view()),
    {
        match notification {
            RunwayNotificationOut::NewSelfUnit(unit) => Notification::NewSelfUnit(unit),
            RunwayNotificationOut::NewAnyUnit(unit) => Notification::NewAnyUnit(unit),
            RunwayNotificationOut::Request(RunwayRequest::Coord(coord)) => Notification::Request(
                ReconstructionRequest::Coord(coord),
            ),
            RunwayNotificationOut::Request(RunwayRequest::Parents(hash)) => Notification::Request(
                ReconstructionRequest::ParentsOf(hash),
            ),
            RunwayNotificationOut::Request(RunwayRequest::NewestUnit(node, salt)) => {
                Notification::Message(UnitMessage::RequestNewest(node, salt), Recipient::Everyone)
            },
            RunwayNotificationOut::Response(Response::Coord(unit), node) => Notification::Message(
                UnitMessage::ResponseCoord(unit),
                Recipient::Node(node),
            ),
            RunwayNotificationOut::Response(Response::Parents(hash, parents), node) => {
                Notification::Message(
                    UnitMessage::ResponseParents(hash, parents),
                    Recipient::Node(node),
                )
            },
            RunwayNotificationOut::Response(Response::NewestUnit(response), node) => {
                Notification::Message(
                    UnitMessage::ResponseNewest(response),
                    Recipient::Node(node),
                )
            },
        }
    }
}

/// What the surroundings have to do.
pub enum Action<H: Hasher, D: Data, S: Data> {
    /// Send a message over the network.
    Send(UnitMessage<H, D, S>, Recipient),
    /// Perform the tasks that are due, without waiting for the next tick.
    TriggerTasks,
}

/// The model of an action.
pub enum ActionView<V, D, S> {
    Send(UnitMessageView<V, D, S>, Recipient),
    TriggerTasks,
}

impl<H: Hasher, D: Data, S: Data> DeepView for Action<H, D, S> {
    type V = ActionView<HashOf<H>, D::V, S::V>;

    open spec fn deep_view(&self) -> ActionView<HashOf<H>, D::V, S::V> {
        match self {
            Action::Send(message, recipient) => ActionView::Send(message.deep_view(), *recipient),
            Action::TriggerTasks => ActionView::TriggerTasks,
        }
    }
}

/// A message is sent to each of the recipients.
pub open spec fn sent<V, D, S>(
    message: UnitMessageView<V, D, S>,
    recipients: Seq<Recipient>,
) -> Seq<ActionView<V, D, S>> {
    recipients.map_values(|recipient: Recipient| ActionView::Send(message, recipient))
}

/// All the members but one, in the order of their indices.
pub open spec fn others(n_members: nat, own_id: NodeIndex) -> Seq<Recipient>
    decreases n_members,
{
    if n_members == 0 {
        seq![]
    } else {
        let before = others((n_members - 1) as nat, own_id);
        if n_members - 1 == own_id.0 {
            before
        } else {
            before.push(Recipient::Node(NodeIndex((n_members - 1) as usize)))
        }
    }
}

/// The picked items are at different places of the list, and as many as were asked for or all.
pub open spec fn picked(
    items: Seq<Recipient>,
    amount: usize,
    result: Seq<Recipient>,
    places: Seq<int>,
) -> bool {
    &&& result.len() == (if amount < items.len() {
        amount as nat
    } else {
        items.len()
    })
    &&& places.len() == result.len()
    &&& places.no_duplicates()
    &&& forall|i: int|
        0 <= i < result.len() ==> {
            &&& 0 <= #[trigger] places[i] < items.len()
            &&& result[i] == items[places[i]]
        }
}

/// `rand::seq::SliceRandom::choose_multiple`, with the generator of the thread: the given number of
/// items, or all if there are fewer, from different places of the list. Which ones they are, and in
/// what order they come, is left to chance.
#[verifier::external_body]
fn choose_multiple(items: &Vec<Recipient>, amount: usize) -> (result: Vec<Recipient>)
    ensures
        exists|places: Seq<int>| #[trigger] picked(items@, amount, result@, places),
{
    items.choose_multiple(&mut rand::thread_rng(), amount).cloned().collect()
}

/// `rand::Rng::gen_range`, with the generator of the thread: some number that is not below the first
/// one but below the second one. It panics if there is none.
#[verifier::external_body]
fn gen_range(low: u128, high: u128) -> (result: u128)
    requires
        low < high,
    ensures
        low <= result < high,
{
    rand::thread_rng().gen_range(low..high)
}

/// The model of a member: the tasks with their times, what is needed and the latest rounds.
#[verifier::ext_equal]
#[verifier::reject_recursive_types(V)]
pub struct MemberView<V, D, S> {
    pub tasks: Seq<(RepeatableView<V, D, S>, Moment)>,
    pub not_resolved_parents: Set<V>,
    pub not_resolved_coords: Set<UnitCoord>,
    /// The round of the latest unit of each creator.
    pub top_units: Seq<Option<Round>>,
}

impl<V, D, S> MemberView<V, D, S> {
    pub open spec fn fresh(n_members: nat) -> Self {
        MemberView {
            tasks: seq![],
            not_resolved_parents: Set::empty(),
            not_resolved_coords: Set::empty(),
            top_units: nodes::empty(n_members),
        }
    }
}

/// Whether a unit is later than all the known ones of its creator.
pub open spec fn is_newest<V, D, S>(
    state: MemberView<V, D, S>,
    unit: SignedUnitView<V, D, S>,
) -> bool {
    match nodes::at(state.top_units, unit.signable.creator()) {
        Some(round) => round < unit.signable.round(),
        None => true,
    }
}

/// A newer unit of some creator is to be broadcast, at the given moment for the first time; others
/// are ignored.
pub open spec fn unit_discovered<V, D, S>(
    state: MemberView<V, D, S>,
    unit: SignedUnitView<V, D, S>,
    moment: Moment,
) -> MemberView<V, D, S> {
    if is_newest(state, unit) {
        MemberView {
            tasks: state.tasks.push(
                (RepeatableView { task: TaskView::Broadcast(unit), counter: 0 }, moment),
            ),
            top_units: state.top_units.update(
                unit.signable.creator().0 as int,
                Some(unit.signable.round()),
            ),
            ..state
        }
    } else {
        state
    }
}

/// A unit is discovered at some time: if it is the latest of its creator, it is broadcast after one
/// of the possible delays; otherwise nothing changes.
pub open spec fn discovered<V, D, S, C: Delays>(
    schedule: C,
    before: MemberView<V, D, S>,
    unit: SignedUnitView<V, D, S>,
    after: MemberView<V, D, S>,
) -> bool {
    if is_newest(before, unit) {
        exists|now: Moment, delay: Duration|
            {
                &&& now <= task_queue::LAST_MOMENT
                &&& possible_delay(schedule, TaskView::Broadcast(unit), 0, delay)
                &&& after == unit_discovered(
                    before,
                    unit,
                    #[trigger] task_queue::after(now, delay),
                )
            }
    } else {
        after == before
    }
}

/// Something is needed; says whether that is news. If it is, it is to be asked for from the given
/// moment on.
pub open spec fn requested<V, D, S>(
    state: MemberView<V, D, S>,
    request: ReconstructionRequestView<V>,
    moment: Moment,
) -> (MemberView<V, D, S>, bool) {
    let task = (RepeatableView { task: TaskView::Request(request), counter: 0 }, moment);
    match request {
        ReconstructionRequestView::Coord(coord) => if state.not_resolved_coords.contains(coord) {
            (state, false)
        } else {
            (
                MemberView {
                    not_resolved_coords: state.not_resolved_coords.insert(coord),
                    tasks: state.tasks.push(task),
                    ..state
                },
                true,
            )
        },
        ReconstructionRequestView::ParentsOf(hash) => if state.not_resolved_parents.contains(hash) {
            (state, false)
        } else {
            (
                MemberView {
                    not_resolved_parents: state.not_resolved_parents.insert(hash),
                    tasks: state.tasks.push(task),
                    ..state
                },
                true,
            )
        },
    }
}

/// Something is no longer needed.
pub open spec fn resolved<V, D, S>(
    state: MemberView<V, D, S>,
    request: ReconstructionRequestView<V>,
) -> MemberView<V, D, S> {
    match request {
        ReconstructionRequestView::Coord(coord) => MemberView {
            not_resolved_coords: state.not_resolved_coords.remove(coord),
            ..state
        },
        ReconstructionRequestView::ParentsOf(hash) => MemberView {
            not_resolved_parents: state.not_resolved_parents.remove(hash),
            ..state
        },
    }
}

/// Whether a task is still worth performing: the request is not resolved, or the unit is the latest
/// of its creator.
pub open spec fn valid_still<V, D, S>(state: MemberView<V, D, S>, task: TaskView<V, D, S>) -> bool {
    match task {
        TaskView::Request(ReconstructionRequestView::Coord(coord)) => {
            state.not_resolved_coords.contains(coord)
        },
        TaskView::Request(ReconstructionRequestView::ParentsOf(hash)) => {
            state.not_resolved_parents.contains(hash)
        },
        TaskView::Broadcast(unit) => {
            nodes::at(state.top_units, unit.signable.creator()) == Some(unit.signable.round())
        },
    }
}

/// The message that a task sends.
pub open spec fn task_message<V, D, S>(own_id: NodeIndex, task: TaskView<V, D, S>) -> UnitMessageView<
    V,
    D,
    S,
> {
    match task {
        TaskView::Request(ReconstructionRequestView::Coord(coord)) => UnitMessageView::RequestCoord(
            own_id,
            coord,
        ),
        TaskView::Request(ReconstructionRequestView::ParentsOf(hash)) => {
            UnitMessageView::RequestParents(own_id, hash)
        },
        TaskView::Broadcast(unit) => UnitMessageView::NewUnit(unit),
    }
}

/// Whether these may be the recipients of a task that has been performed some times: units are for
/// everyone, requests for some of the others.
pub open spec fn possible_recipients<V, D, S, C: Delays>(
    delays: C,
    peers: Seq<Recipient>,
    task: TaskView<V, D, S>,
    counter: usize,
    recipients: Seq<Recipient>,
) -> bool {
    match task {
        TaskView::Request(ReconstructionRequestView::Coord(_)) => exists|places: Seq<int>|
            #[trigger] picked(peers, delays.coord_recipients(counter), recipients, places),
        TaskView::Request(ReconstructionRequestView::ParentsOf(_)) => exists|places: Seq<int>|
            #[trigger] picked(peers, delays.parent_recipients(counter), recipients, places),
        TaskView::Broadcast(_) => recipients == seq![Recipient::Everyone],
    }
}

/// Whether units are put off for one of these numbers of milliseconds.
pub open spec fn rebroadcast_millis<C: Delays>(delays: C, millis: nat) -> bool {
    duration::whole_millis(delays.rebroadcast_min()) <= millis < duration::whole_millis(
        delays.rebroadcast_max(),
    )
}

/// Whether this may be the delay of a task that has been performed some times: requests have their
/// schedules, units wait for a random number of milliseconds.
pub open spec fn possible_delay<V, D, S, C: Delays>(
    delays: C,
    task: TaskView<V, D, S>,
    counter: usize,
    delay: Duration,
) -> bool {
    match task {
        TaskView::Request(ReconstructionRequestView::Coord(_)) => delay == delays.coord_delay(
            counter,
        ),
        TaskView::Request(ReconstructionRequestView::ParentsOf(_)) => delay == delays.parent_delay(
            counter,
        ),
        TaskView::Broadcast(_) => exists|millis: nat| #[trigger]
            rebroadcast_millis(delays, millis) && delay@ == duration::low_millis(millis)
                * duration::NANOS_IN_MILLI,
    }
}

/// A due task is performed with the given recipients, and put off until the given moment.
pub open spec fn performed<V, D, S>(
    own_id: NodeIndex,
    state: MemberView<V, D, S>,
    task: RepeatableView<V, D, S>,
    recipients: Seq<Recipient>,
    moment: Moment,
) -> (MemberView<V, D, S>, Seq<ActionView<V, D, S>>) {
    if valid_still(state, task.task) {
        (
            MemberView {
                tasks: state.tasks.push(
                    (RepeatableView { counter: next_count(task.counter), ..task }, moment),
                ),
                ..state
            },
            sent(task_message(own_id, task.task), recipients),
        )
    } else {
        (state, seq![])
    }
}

/// One task that is due is dealt with, if there is one.
pub open spec fn task_triggered<V, D, S, C: Delays>(
    delays: C,
    own_id: NodeIndex,
    peers: Seq<Recipient>,
    before: MemberView<V, D, S>,
    after: MemberView<V, D, S>,
    actions: Option<Seq<ActionView<V, D, S>>>,
    now: Moment,
    due: Option<RepeatableView<V, D, S>>,
    rest: Seq<(RepeatableView<V, D, S>, Moment)>,
    recipients: Seq<Recipient>,
    delay: Duration,
    later: Moment,
) -> bool {
    &&& now <= task_queue::LAST_MOMENT
    &&& task_queue::taken(before.tasks, rest, now, due)
    &&& match due {
        None => after == before && actions is None,
        Some(task) => {
            let state = MemberView { tasks: rest, ..before };
            let (expected, sending) = performed(
                own_id,
                state,
                task,
                recipients,
                task_queue::after(later, delay),
            );
            &&& valid_still(state, task.task) ==> possible_recipients(
                delays,
                peers,
                task.task,
                task.counter,
                recipients,
            ) && possible_delay(delays, task.task, task.counter, delay)
            &&& later <= task_queue::LAST_MOMENT
            &&& after == expected
            &&& actions == Some(sending)
        },
    }
}

/// One task that is due is dealt with, if there is one, at whatever time and whomever chance picks.
pub open spec fn some_task_triggered<V, D, S, C: Delays>(
    delays: C,
    own_id: NodeIndex,
    peers: Seq<Recipient>,
    before: MemberView<V, D, S>,
    after: MemberView<V, D, S>,
    actions: Option<Seq<ActionView<V, D, S>>>,
) -> bool {
    exists|
        now: Moment,
        due: Option<RepeatableView<V, D, S>>,
        rest: Seq<(RepeatableView<V, D, S>, Moment)>,
        recipients: Seq<Recipient>,
        delay: Duration,
        later: Moment,
    |
        #[trigger] task_triggered(
            delays,
            own_id,
            peers,
            before,
            after,
            actions,
            now,
            due,
            rest,
            recipients,
            delay,
            later,
        )
}

/// Whether none of the tasks is a broadcast.
pub open spec fn no_broadcasts<V, D, S>(tasks: Seq<(RepeatableView<V, D, S>, Moment)>) -> bool {
    forall|i: int| 0 <= i < tasks.len() ==> !((#[trigger] tasks[i]).0.task is Broadcast)
}

/// Disseminates units. Whatever has to be sent is returned, in order.
pub struct Member<H: Hasher, D: Data, S: Data, C: Delays> {
    own_id: NodeIndex,
    delays: C,
    task_queue: TaskQueue<RepeatableTask<H, D, S>>,
    not_resolved_parents: VecSet<H::Hash>,
    not_resolved_coords: VecSet<UnitCoord>,
    peers: Vec<Recipient>,
    top_units: NodeMap<Round>,
}

impl<H: Hasher, D: Data, S: Data, C: Delays> DeepView for Member<H, D, S, C> {
    type V = MemberView<HashOf<H>, D::V, S::V>;

    closed spec fn deep_view(&self) -> MemberView<HashOf<H>, D::V, S::V> {
        MemberView {
            tasks: self.task_queue.deep_view(),
            not_resolved_parents: self.not_resolved_parents.deep_view(),
            not_resolved_coords: self.not_resolved_coords.deep_view(),
            top_units: self.top_units.deep_view(),
        }
    }
}

/// What a notification of the runway leads to: our own units are sent at once, units that are new
/// get broadcast later on, what is needed is asked for, and messages are passed on.
pub open spec fn notified<V, D, S, C: Delays>(
    schedule: C,
    before: MemberView<V, D, S>,
    message: NotificationView<V, D, S>,
    after: MemberView<V, D, S>,
    actions: Seq<ActionView<V, D, S>>,
) -> bool {
    match message {
        NotificationView::NewSelfUnit(unit) => {
            &&& after == before
            &&& actions == seq![
                ActionView::Send(UnitMessageView::NewUnit(unit), Recipient::Everyone),
            ]
        },
        NotificationView::NewAnyUnit(unit) => {
            &&& actions == triggering::<V, D, S>(false)
            &&& discovered(schedule, before, unit, after)
        },
        NotificationView::Request(request) => exists|now: Moment|
            {
                let (state, news) = #[trigger] requested(before, request, now);
                &&& now <= task_queue::LAST_MOMENT
                &&& after == state
                &&& actions == triggering::<V, D, S>(news)
            },
        NotificationView::Message(message, recipient) => {
            &&& after == before
            &&& actions == seq![ActionView::Send(message, recipient)]
        },
    }
}

impl<H: Hasher, D: Data, S: Data, C: Delays> Member<H, D, S, C> {
    /// Who we are.
    pub closed spec fn owner(&self) -> NodeIndex {
        self.own_id
    }

    /// How long tasks are put off.
    pub closed spec fn schedule(&self) -> C {
        self.delays
    }

    /// The other members.
    pub closed spec fn peers(&self) -> Seq<Recipient> {
        self.peers@
    }

    /// The parts that never change.
    pub open spec fn same_setup(&self, other: &Self) -> bool {
        &&& self.owner() == other.owner()
        &&& self.schedule() == other.schedule()
        &&& self.peers() == other.peers()
        &&& self.deep_view().top_units.len() == other.deep_view().top_units.len()
    }

    /// There is a time that broadcasts can be put off for.
    pub open spec fn can_broadcast(&self) -> bool {
        duration::whole_millis(self.schedule().rebroadcast_min()) < duration::whole_millis(
            self.schedule().rebroadcast_max(),
        )
    }

    /// A unit can be discovered: if it is the latest of its creator, that creator is a member, and
    /// there is a time that its broadcast can be put off for.
    pub open spec fn admits(&self, unit: SignedUnitView<HashOf<H>, D::V, S::V>) -> bool {
        is_newest(self.deep_view(), unit) ==> self.can_broadcast() && unit.signable.creator().0
            < self.deep_view().top_units.len()
    }

    /// There are broadcasts only if there is a time that they can be put off for.
    pub open spec fn wf(&self) -> bool {
        self.can_broadcast() || no_broadcasts(self.deep_view().tasks)
    }

    pub fn new(own_id: NodeIndex, n_members: NodeCount, delays: C) -> (result: Self)
        ensures
            result.wf(),
            result.owner() == own_id,
            result.schedule() == delays,
            result.peers() == others(n_members.0 as nat, own_id),
            result.deep_view() == MemberView::<HashOf<H>, D::V, S::V>::fresh(n_members.0 as nat),
    {
        let mut peers: Vec<Recipient> = Vec::new();
        let n: usize = n_members.0;
        for i in 0..n
            invariant
                peers@ == others(i as nat, own_id),
        {
            let ghost before = peers@;
            if i != own_id.0 {
                peers.push(Recipient::Node(NodeIndex(i)));
            }
            proof {
                assert(others((i + 1) as nat, own_id) == if i == own_id.0 {
                    before
                } else {
                    before.push(Recipient::Node(NodeIndex(i)))
                });
            }
        }
        Member {
            own_id,
            delays,
            task_queue: TaskQueue::new(),
            not_resolved_parents: VecSet::new(),
            not_resolved_coords: VecSet::new(),
            peers,
            top_units: NodeMap::with_size(n_members),
        }
    }

    pub fn index(&self) -> (index: NodeIndex)
        ensures
            index == self.owner(),
    {
        self.own_id
    }

    /// A message is to be sent to each of the recipients.
    fn send_unit_message(message: &UnitMessage<H, D, S>, recipients: &Vec<Recipient>) -> (actions:
        Vec<Action<H, D, S>>)
        ensures
            actions.deep_view() == sent(message.deep_view(), recipients@),
    {
        let ghost expected = sent(message.deep_view(), recipients@);
        let mut actions: Vec<Action<H, D, S>> = Vec::new();
        let n: usize = recipients.len();
        proof {
            assert(actions.deep_view() =~= expected.take(0));
        }
        for i in 0..n
            invariant
                n == recipients@.len(),
                expected == sent(message.deep_view(), recipients@),
                actions.deep_view() == expected.take(i as int),
        {
            let ghost before = actions.deep_view();
            actions.push(Action::Send(message.copy(), recipients[i]));
            proof {
                assert(actions.deep_view() =~= before.push(expected[i as int]));
                assert(actions.deep_view() =~= expected.take(i + 1));
            }
        }
        proof {
            assert(expected.take(n as int) =~= expected);
        }
        actions
    }

    /// Our own units are sent to everyone at once.
    pub fn on_create(u: UncheckedSignedUnit<H, D, S>) -> (actions: Vec<Action<H, D, S>>)
        ensures
            actions.deep_view() == seq![
                ActionView::Send(UnitMessageView::NewUnit(u.deep_view()), Recipient::Everyone),
            ],
    {
        let ghost view = u.deep_view();
        let mut recipients: Vec<Recipient> = Vec::new();
        recipients.push(Recipient::Everyone);
        let actions: Vec<Action<H, D, S>> = Self::send_unit_message(
            &UnitMessage::NewUnit(u),
            &recipients,
        );
        proof {
            assert(actions.deep_view() =~= seq![
                ActionView::Send(UnitMessageView::NewUnit(view), Recipient::Everyone),
            ]);
        }
        actions
    }

    /// Whether a unit is later than all the known ones of its creator.
    fn newest(&self, unit: &UncheckedSignedUnit<H, D, S>) -> (result: bool)
        ensures
            result == is_newest(self.deep_view(), unit.deep_view()),
    {
        match self.top_units.get(unit.as_signable().creator()) {
            Some(round) => *round < unit.as_signable().round(),
            None => true,
        }
    }

    /// A unit has been discovered; if it is the latest of its creator, it is broadcast at the given
    /// moment for the first time.
    pub fn on_unit_discovered_at(&mut self, new_unit: UncheckedSignedUnit<H, D, S>, moment: Moment)
        requires
            old(self).wf(),
            old(self).admits(new_unit.deep_view()),
        ensures
            final(self).wf(),
            final(self).same_setup(old(self)),
            final(self).deep_view() == unit_discovered(
                old(self).deep_view(),
                new_unit.deep_view(),
                moment,
            ),
    {
        if self.newest(&new_unit) {
            let creator: NodeIndex = new_unit.as_signable().creator();
            let round: Round = new_unit.as_signable().round();
            self.top_units.insert(creator, round);
            let task: RepeatableTask<H, D, S> = RepeatableTask::new(
                DisseminationTask::Broadcast(new_unit),
            );
            self.task_queue.schedule(task, moment);
        }
    }

    /// Whether a unit can be discovered.
    pub fn can_discover(&self, unit: &UncheckedSignedUnit<H, D, S>) -> (result: bool)
        ensures
            result == self.admits(unit.deep_view()),
    {
        !self.newest(unit) || self.delays.unit_rebroadcast_interval_min().as_millis()
            < self.delays.unit_rebroadcast_interval_max().as_millis() && unit.as_signable().creator().0
            < self.top_units.size().0
    }

    /// A unit has been discovered; if it is the latest of its creator, it is broadcast after a
    /// random delay.
    pub fn on_unit_discovered(&mut self, new_unit: UncheckedSignedUnit<H, D, S>)
        requires
            old(self).wf(),
            old(self).admits(new_unit.deep_view()),
        ensures
            final(self).wf(),
            final(self).same_setup(old(self)),
            discovered(
                old(self).schedule(),
                old(self).deep_view(),
                new_unit.deep_view(),
                final(self).deep_view(),
            ),
    {
        if self.newest(&new_unit) {
            let delay: Duration = self.rebroadcast_delay();
            let now: Moment = self.task_queue.now();
            let moment: Moment = now + delay.as_nanos();
            proof {
                assert(moment == task_queue::after(now, delay));
            }
            self.on_unit_discovered_at(new_unit, moment);
        }
    }

    /// Something is needed; if that is news, it is to be asked for from the given moment on.
    pub fn on_request_at(&mut self, request: ReconstructionRequest<H>, moment: Moment) -> (news: bool)
        requires
            old(self).wf(),
        ensures
            final(self).wf(),
            final(self).same_setup(old(self)),
            (final(self).deep_view(), news) == requested(
                old(self).deep_view(),
                request.deep_view(),
                moment,
            ),
    {
        let ghost before = self.deep_view();
        let news: bool = match &request {
            ReconstructionRequest::Coord(coord) => self.not_resolved_coords.insert(*coord),
            ReconstructionRequest::ParentsOf(hash) => self.not_resolved_parents.insert(
                hash.copy(),
            ),
        };
        if !news {
            proof {
                assert(self.deep_view() =~= before);
            }
            return false;
        }
        let task: RepeatableTask<H, D, S> = RepeatableTask::new(
            DisseminationTask::Request(request),
        );
        self.task_queue.schedule(task, moment);
        true
    }

    /// The unit at some coordinates is needed.
    pub fn on_request_coord(&mut self, coord: UnitCoord) -> (actions: Vec<Action<H, D, S>>)
        requires
            old(self).wf(),
        ensures
            final(self).wf(),
            final(self).same_setup(old(self)),
            exists|now: Moment|
                {
                    let (state, news) = #[trigger] requested(
                        old(self).deep_view(),
                        ReconstructionRequestView::Coord(coord),
                        now,
                    );
                    &&& now <= task_queue::LAST_MOMENT
                    &&& final(self).deep_view() == state
                    &&& actions.deep_view() == triggering::<HashOf<H>, D::V, S::V>(news)
                },
    {
        let now: Moment = self.task_queue.now();
        let news: bool = self.on_request_at(ReconstructionRequest::Coord(coord), now);
        Self::trigger_if(news)
    }

    /// The parents of some unit are needed.
    pub fn on_request_parents(&mut self, u_hash: H::Hash) -> (actions: Vec<Action<H, D, S>>)
        requires
            old(self).wf(),
        ensures
            final(self).wf(),
            final(self).same_setup(old(self)),
            exists|now: Moment|
                {
                    let (state, news) = #[trigger] requested(
                        old(self).deep_view(),
                        ReconstructionRequestView::ParentsOf(u_hash.deep_view()),
                        now,
                    );
                    &&& now <= task_queue::LAST_MOMENT
                    &&& final(self).deep_view() == state
                    &&& actions.deep_view() == triggering::<HashOf<H>, D::V, S::V>(news)
                },
    {
        let now: Moment = self.task_queue.now();
        let news: bool = self.on_request_at(ReconstructionRequest::ParentsOf(u_hash), now);
        Self::trigger_if(news)
    }

    fn trigger_if(news: bool) -> (actions: Vec<Action<H, D, S>>)
        ensures
            actions.deep_view() == triggering::<HashOf<H>, D::V, S::V>(news),
    {
        let mut actions: Vec<Action<H, D, S>> = Vec::new();
        if news {
            actions.push(Action::TriggerTasks);
        }
        proof {
            assert(actions.deep_view() =~= triggering::<HashOf<H>, D::V, S::V>(news));
        }
        actions
    }

    /// Something is no longer needed.
    pub fn on_resolved_request(&mut self, request: &ReconstructionRequest<H>)
        requires
            old(self).wf(),
        ensures
            final(self).wf(),
            final(self).same_setup(old(self)),
            final(self).deep_view() == resolved(old(self).deep_view(), request.deep_view()),
    {
        match request {
            ReconstructionRequest::Coord(coord) => {
                let _ = self.not_resolved_coords.remove(coord);
            },
            ReconstructionRequest::ParentsOf(u_hash) => {
                let _ = self.not_resolved_parents.remove(u_hash);
            },
        }
    }

    /// Some of the other members.
    pub fn random_peers(&self, n: usize) -> (recipients: Vec<Recipient>)
        ensures
            exists|places: Seq<int>| #[trigger] picked(self.peers(), n, recipients@, places),
    {
        let recipients: Vec<Recipient> = choose_multiple(&self.peers, n);
        proof {
            let places = choose|places: Seq<int>| #[trigger]
                picked(self.peers@, n, recipients@, places);
            assert(picked(self.peers(), n, recipients@, places));
        }
        recipients
    }

    /// Given a task and the number of times it was performed, returns `Cancel` if the task is no
    /// longer active, and `Perform { message, recipients, reschedule }` if the task is to send
    /// `message` to `recipients` and it should be rescheduled after `reschedule`.
    pub fn task_details(&self, task: &DisseminationTask<H, D, S>, counter: usize) -> (details:
        TaskDetails<H, D, S>)
        requires
            self.can_broadcast() || !(task.deep_view() is Broadcast),
        ensures
            match details {
                TaskDetails::Cancel => !valid_still(self.deep_view(), task.deep_view()),
                TaskDetails::Perform { message, recipients, reschedule } => {
                    &&& valid_still(self.deep_view(), task.deep_view())
                    &&& message.deep_view() == task_message(self.owner(), task.deep_view())
                    &&& possible_recipients(
                        self.schedule(),
                        self.peers(),
                        task.deep_view(),
                        counter,
                        recipients@,
                    )
                    &&& possible_delay(self.schedule(), task.deep_view(), counter, reschedule)
                },
            },
    {
        if self.still_valid(task) {
            TaskDetails::Perform {
                message: self.message(task),
                recipients: self.recipients(task, counter),
                reschedule: self.delay(task, counter),
            }
        } else {
            TaskDetails::Cancel
        }
    }

    /// The message that a task sends.
    pub fn message(&self, task: &DisseminationTask<H, D, S>) -> (message: UnitMessage<H, D, S>)
        ensures
            message.deep_view() == task_message(self.owner(), task.deep_view()),
    {
        match task {
            DisseminationTask::Request(ReconstructionRequest::Coord(coord)) => {
                UnitMessage::RequestCoord(self.own_id, *coord)
            },
            DisseminationTask::Request(ReconstructionRequest::ParentsOf(hash)) => {
                UnitMessage::RequestParents(self.own_id, hash.copy())
            },
            DisseminationTask::Broadcast(unit) => UnitMessage::NewUnit(unit.copy()),
        }
    }

    /// Whom a task sends its message to.
    pub fn recipients(&self, task: &DisseminationTask<H, D, S>, counter: usize) -> (recipients: Vec<
        Recipient,
    >)
        ensures
            possible_recipients(
                self.schedule(),
                self.peers(),
                task.deep_view(),
                counter,
                recipients@,
            ),
    {
        match task {
            DisseminationTask::Request(ReconstructionRequest::Coord(_)) => {
                self.random_peers(self.delays.coord_request_recipients(counter))
            },
            DisseminationTask::Request(ReconstructionRequest::ParentsOf(_)) => {
                self.random_peers(self.delays.parent_request_recipients(counter))
            },
            DisseminationTask::Broadcast(_) => {
                let mut recipients: Vec<Recipient> = Vec::new();
                recipients.push(Recipient::Everyone);
                proof {
                    assert(recipients@ =~= seq![Recipient::Everyone]);
                }
                recipients
            },
        }
    }

    /// Whether a task is still worth performing.
    pub fn still_valid(&self, task: &DisseminationTask<H, D, S>) -> (result: bool)
        ensures
            result == valid_still(self.deep_view(), task.deep_view()),
    {
        match task {
            DisseminationTask::Request(ReconstructionRequest::Coord(coord)) => {
                self.not_resolved_coords.contains(coord)
            },
            DisseminationTask::Request(ReconstructionRequest::ParentsOf(hash)) => {
                self.not_resolved_parents.contains(hash)
            },
            DisseminationTask::Broadcast(unit) => {
                match self.top_units.get(unit.as_signable().creator()) {
                    Some(round) => *round == unit.as_signable().round(),
                    None => false,
                }
            },
        }
    }

    /// A random number of milliseconds between `unit_rebroadcast_interval_min` and
    /// `unit_rebroadcast_interval_max`.
    fn rebroadcast_delay(&self) -> (delay: Duration)
        requires
            self.can_broadcast(),
        ensures
            exists|millis: nat| #[trigger]
                rebroadcast_millis(self.schedule(), millis) && delay@ == duration::low_millis(
                    millis,
                ) * duration::NANOS_IN_MILLI,
    {
        let millis: u128 = gen_range(
            self.delays.unit_rebroadcast_interval_min().as_millis(),
            self.delays.unit_rebroadcast_interval_max().as_millis(),
        );
        let low: u128 = millis % 0x1_0000_0000_0000_0000;
        proof {
            assert(rebroadcast_millis(self.schedule(), millis as nat));
        }
        Duration::from_millis(low as u64)
    }

    /// How long a task that has been performed some times is put off.
    ///
    /// Requests use the configurable schedules. A broadcast picks a random delay between
    /// `unit_rebroadcast_interval_min` and `unit_rebroadcast_interval_max`.
    pub fn delay(&self, task: &DisseminationTask<H, D, S>, counter: usize) -> (delay: Duration)
        requires
            self.can_broadcast() || !(task.deep_view() is Broadcast),
        ensures
            possible_delay(self.schedule(), task.deep_view(), counter, delay),
    {
        match task {
            DisseminationTask::Broadcast(_) => self.rebroadcast_delay(),
            DisseminationTask::Request(ReconstructionRequest::Coord(_)) => {
                self.delays.coord_request_delay(counter)
            },
            DisseminationTask::Request(ReconstructionRequest::ParentsOf(_)) => {
                self.delays.parent_request_delay(counter)
            },
        }
    }

    /// Performs a due task, with the given recipients; it is put off until the given moment.
    pub fn perform(
        &mut self,
        task: RepeatableTask<H, D, S>,
        recipients: &Vec<Recipient>,
        moment: Moment,
    ) -> (actions: Vec<Action<H, D, S>>)
        requires
            old(self).wf(),
            old(self).can_broadcast() || !(task.deep_view().task is Broadcast),
        ensures
            final(self).wf(),
            final(self).same_setup(old(self)),
            (final(self).deep_view(), actions.deep_view()) == performed(
                old(self).owner(),
                old(self).deep_view(),
                task.deep_view(),
                recipients@,
                moment,
            ),
    {
        if !self.still_valid(&task.task) {
            let actions: Vec<Action<H, D, S>> = Vec::new();
            proof {
                assert(actions.deep_view() =~= seq![]);
            }
            return actions;
        }
        let actions: Vec<Action<H, D, S>> = Self::send_unit_message(
            &self.message(&task.task),
            recipients,
        );
        let mut task: RepeatableTask<H, D, S> = task;
        if task.counter < usize::MAX {
            task.counter = task.counter + 1;
        }
        self.task_queue.schedule(task, moment);
        actions
    }

    /// Deals with one task that is due; `None` if none is.
    pub fn trigger_task(&mut self) -> (actions: Option<Vec<Action<H, D, S>>>)
        requires
            old(self).wf(),
        ensures
            final(self).wf(),
            final(self).same_setup(old(self)),
            some_task_triggered(
                old(self).schedule(),
                old(self).owner(),
                old(self).peers(),
                old(self).deep_view(),
                final(self).deep_view(),
                actions.deep_view(),
            ),
    {
        let ghost before = self.deep_view();
        let ghost schedule = self.schedule();
        let ghost owner = self.owner();
        let ghost peers = self.peers();
        let now: Moment = self.task_queue.now();
        let popped: Option<RepeatableTask<H, D, S>> = self.task_queue.pop_due_task_at(now);
        let ghost rest = self.deep_view().tasks;
        let task: RepeatableTask<H, D, S> = match popped {
            Some(task) => task,
            None => {
                let actions: Option<Vec<Action<H, D, S>>> = None;
                proof {
                    assert(task_triggered(
                        schedule,
                        owner,
                        peers,
                        before,
                        self.deep_view(),
                        actions.deep_view(),
                        now,
                        None,
                        rest,
                        seq![],
                        arbitrary(),
                        now,
                    ));
                }
                return actions;
            },
        };
        let ghost due = task.deep_view();
        proof {
            let i = choose|i: int|
                #![trigger before.tasks[i]]
                {
                    &&& task_queue::is_first(before.tasks, i)
                    &&& before.tasks[i].1 <= now
                    &&& before.tasks[i].0 == due
                    &&& rest == before.tasks.remove(i)
                };
            if !self.can_broadcast() {
                assert(!(before.tasks[i].0.task is Broadcast));
                assert forall|j: int| 0 <= j < rest.len() implies !(
                (#[trigger] rest[j]).0.task is Broadcast) by {
                    if j < i {
                        assert(rest[j] == before.tasks[j]);
                    } else {
                        assert(rest[j] == before.tasks[j + 1]);
                    }
                }
            }
        }
        let ghost middle = self.deep_view();
        match self.task_details(&task.task, task.counter) {
            TaskDetails::Cancel => {
                let sending: Vec<Action<H, D, S>> = Vec::new();
                let actions: Option<Vec<Action<H, D, S>>> = Some(sending);
                proof {
                    assert(sending.deep_view() =~= seq![]);
                    assert(task_triggered(
                        schedule,
                        owner,
                        peers,
                        before,
                        self.deep_view(),
                        actions.deep_view(),
                        now,
                        Some(due),
                        rest,
                        seq![],
                        arbitrary(),
                        now,
                    ));
                }
                actions
            },
            TaskDetails::Perform { message: _, recipients, reschedule } => {
                let later: Moment = self.task_queue.now();
                let moment: Moment = later + reschedule.as_nanos();
                proof {
                    assert(moment == task_queue::after(later, reschedule));
                }
                let actions: Option<Vec<Action<H, D, S>>> = Some(
                    self.perform(task, &recipients, moment),
                );
                proof {
                    assert(task_triggered(
                        schedule,
                        owner,
                        peers,
                        before,
                        self.deep_view(),
                        actions.deep_view(),
                        now,
                        Some(due),
                        rest,
                        recipients@,
                        reschedule,
                        later,
                    ));
                }
                actions
            },
        }
    }

    /// What is known of how the dissemination is doing.
    pub fn status(&self) -> (status: MemberStatus<'_, H, D, S>)
        ensures
            status.tasks() == self.deep_view().tasks,
            status.parents() == self.deep_view().not_resolved_parents,
            status.coords() == self.deep_view().not_resolved_coords,
    {
        MemberStatus::new(&self.task_queue, &self.not_resolved_parents, &self.not_resolved_coords)
    }

    /// The runway lets us know something.
    pub fn on_unit_message_from_units(&mut self, message: Notification<H, D, S>) -> (actions: Vec<
        Action<H, D, S>,
    >)
        requires
            old(self).wf(),
            message.deep_view() matches NotificationView::NewAnyUnit(unit) ==> old(self).admits(
                unit,
            ),
        ensures
            final(self).wf(),
            final(self).same_setup(old(self)),
            notified(
                old(self).schedule(),
                old(self).deep_view(),
                message.deep_view(),
                final(self).deep_view(),
                actions.deep_view(),
            ),
    {
        match message {
            Notification::NewSelfUnit(u) => Self::on_create(u),
            Notification::NewAnyUnit(u) => {
                self.on_unit_discovered(u);
                Self::trigger_if(false)
            },
            Notification::Request(ReconstructionRequest::Coord(coord)) => self.on_request_coord(
                coord,
            ),
            Notification::Request(ReconstructionRequest::ParentsOf(u_hash)) => {
                self.on_request_parents(u_hash)
            },
            Notification::Message(message, recipient) => {
                let mut recipients: Vec<Recipient> = Vec::new();
                recipients.push(recipient);
                let actions: Vec<Action<H, D, S>> = Self::send_unit_message(&message, &recipients);
                proof {
                    assert(actions.deep_view() =~= seq![
                        ActionView::Send(message.deep_view(), recipient),
                    ]);
                }
                actions
            },
        }
    }
}

/// The tasks that are due are performed at once if there is a reason for it.
pub open spec fn triggering<V, D, S>(news: bool) -> Seq<ActionView<V, D, S>> {
    if news {
        seq![ActionView::TriggerTasks]
    } else {
        seq![]
    }
}

} // verus!
