//! Disseminating units and asking for them.
use aleph_bft::alerts::Recipient;
use aleph_bft::crypto::Hasher;
use aleph_bft::data::Data;
use aleph_bft::dissemination::UnitMessage;
use aleph_bft::duration::Duration;
use aleph_bft::member::delays::{ConstantDelays, Delays};
use aleph_bft::member::finalization::{
    FinalizationHandler, FinalizationHandlerAdapter, KeptData, OrderedUnit,
};
use aleph_bft::member::service::{Decision, Event, MemberService};
use aleph_bft::member::{Action, DisseminationTask, Member, Notification, RepeatableTask};
use aleph_bft::mock::hasher::Hasher64;
use aleph_bft::mock::threshold::{prepare_keychains, TestMultiKeychain};
use aleph_bft::mock::verbose::VerboseSignature;
use aleph_bft::nodes::{NodeCount, NodeIndex, NodeMap, Round};
use aleph_bft::reconstruction::parents::Request as ReconstructionRequest;
use aleph_bft::runway::RunwayNotificationIn;
use aleph_bft::signed::Signed;
use aleph_bft::units::{ControlHash, FullUnit, PreUnit, UncheckedSignedUnit, UnitCoord};

type TestMember<C> = Member<Hasher64, u32, VerboseSignature, C>;

/// A schedule that starts somewhere and moves with the counter.
struct MovingDelays {
    first_delay: u64,
    first_recipients: usize,
}

impl Delays for MovingDelays {
    fn coord_delay(&self, counter: usize) -> Duration {
        self.coord_request_delay(counter)
    }

    fn parent_delay(&self, counter: usize) -> Duration {
        self.parent_request_delay(counter)
    }

    fn coord_recipients(&self, counter: usize) -> usize {
        self.coord_request_recipients(counter)
    }

    fn parent_recipients(&self, counter: usize) -> usize {
        self.parent_request_recipients(counter)
    }

    fn rebroadcast_min(&self) -> Duration {
        self.unit_rebroadcast_interval_min()
    }

    fn rebroadcast_max(&self) -> Duration {
        self.unit_rebroadcast_interval_max()
    }

    fn coord_request_delay(&self, counter: usize) -> Duration {
        Duration::from_millis(self.first_delay + counter as u64)
    }

    fn parent_request_delay(&self, counter: usize) -> Duration {
        Duration::from_millis(self.first_delay + counter as u64)
    }

    fn coord_request_recipients(&self, counter: usize) -> usize {
        self.first_recipients - counter
    }

    fn parent_request_recipients(&self, counter: usize) -> usize {
        self.first_recipients - counter
    }

    fn unit_rebroadcast_interval_min(&self) -> Duration {
        Duration::from_millis(15000)
    }

    fn unit_rebroadcast_interval_max(&self) -> Duration {
        Duration::from_millis(20000)
    }
}

fn moving() -> MovingDelays {
    MovingDelays {
        first_delay: 123,
        first_recipients: 10,
    }
}

fn constant(request_recipients: usize) -> ConstantDelays {
    ConstantDelays {
        request_delay: Duration::from_millis(50),
        request_recipients,
        rebroadcast_interval_min: Duration::from_millis(15000),
        rebroadcast_interval_max: Duration::from_millis(20000),
    }
}

fn coord_task() -> DisseminationTask<Hasher64, u32, VerboseSignature> {
    DisseminationTask::Request(ReconstructionRequest::Coord(UnitCoord::new(1, NodeIndex(3))))
}

fn parents_task() -> DisseminationTask<Hasher64, u32, VerboseSignature> {
    DisseminationTask::Request(ReconstructionRequest::ParentsOf(Hasher64::hash(&vec![0x0])))
}

fn signed_unit(
    keychains: &[TestMultiKeychain],
    creator: NodeIndex,
    round: Round,
) -> UncheckedSignedUnit<Hasher64, u32, VerboseSignature> {
    let control_hash = ControlHash::new(&NodeMap::with_size(NodeCount(keychains.len())));
    let unit = FullUnit::new(PreUnit::new(creator, round, control_hash), Some(7), 0);
    Signed::sign(unit, &keychains[creator.0]).into_unchecked()
}

fn unique(recipients: &[Recipient]) -> bool {
    recipients
        .iter()
        .enumerate()
        .all(|(i, recipient)| !recipients[..i].contains(recipient))
}

#[test]
fn delay_for_coord_request() {
    let member = TestMember::new(NodeIndex(7), NodeCount(20), moving());
    let delay = member.delay(&coord_task(), 10);
    assert_eq!(delay, Duration::from_millis(133));
}

#[test]
fn delay_for_parent_request() {
    let member = TestMember::new(NodeIndex(7), NodeCount(20), moving());
    let delay = member.delay(&parents_task(), 10);
    assert_eq!(delay, Duration::from_millis(133));
}

#[test]
fn recipients_for_coord_request() {
    let node_ix = NodeIndex(7);
    let member = TestMember::new(node_ix, NodeCount(20), moving());
    let recipients = member.recipients(&coord_task(), 3);
    assert_eq!(recipients.len(), 7);
    assert!(unique(&recipients));
    assert!(!recipients.contains(&Recipient::Node(node_ix)));
}

#[test]
fn recipients_for_parent_request() {
    let node_ix = NodeIndex(7);
    let member = TestMember::new(node_ix, NodeCount(20), moving());
    let recipients = member.recipients(&parents_task(), 3);
    assert_eq!(recipients.len(), 7);
    assert!(unique(&recipients));
    assert!(!recipients.contains(&Recipient::Node(node_ix)));
}

#[test]
fn at_most_n_members_recipients_for_coord_request() {
    let member = TestMember::new(NodeIndex(7), NodeCount(20), constant(30));
    let recipients = member.recipients(&coord_task(), 10);
    assert_eq!(recipients.len(), 20 - 1);
}

#[test]
fn no_recipients_for_coord_request_in_one_node_setup() {
    let member = TestMember::new(NodeIndex(0), NodeCount(1), constant(30));
    let recipients = member.recipients(&coord_task(), 10);
    assert_eq!(recipients, vec![]);
}

#[test]
fn recipients_are_not_always_the_same() {
    let member = TestMember::new(NodeIndex(0), NodeCount(100), constant(10));
    let first = member.recipients(&coord_task(), 0);
    assert!((0..50).any(|_| member.recipients(&coord_task(), 0) != first));
}

#[test]
fn broadcasts_go_to_everyone_after_a_while() {
    let keychains = prepare_keychains(NodeCount(4));
    let member = TestMember::new(NodeIndex(0), NodeCount(4), constant(3));
    let task = DisseminationTask::Broadcast(signed_unit(&keychains, NodeIndex(1), 2));
    assert_eq!(member.recipients(&task, 0), vec![Recipient::Everyone]);
    let delays: Vec<Duration> = (0..50).map(|_| member.delay(&task, 0)).collect();
    assert!(delays.iter().all(|delay| (15000..20000).contains(&delay.as_millis())));
    assert!(delays.iter().all(|delay| delay.as_nanos() % 1_000_000 == 0));
    assert!(delays.iter().any(|delay| *delay != delays[0]));
}

#[test]
fn asks_for_what_is_needed_until_it_is_resolved() {
    let mut member = TestMember::new(NodeIndex(0), NodeCount(4), constant(2));
    let coord = UnitCoord::new(5, NodeIndex(2));
    let actions = member.on_request_coord(coord);
    assert!(matches!(actions[..], [Action::TriggerTasks]));
    // asking for it a second time changes nothing
    assert!(member.on_request_coord(coord).is_empty());
    let actions = member.trigger_task().expect("a task is due");
    assert_eq!(actions.len(), 2);
    let mut asked = Vec::new();
    for action in actions {
        match action {
            Action::Send(UnitMessage::RequestCoord(asking, requested), recipient) => {
                assert_eq!(asking, NodeIndex(0));
                assert_eq!(requested, coord);
                asked.push(recipient);
            }
            _ => panic!("The action is not a request."),
        }
    }
    assert!(unique(&asked));
    let task = DisseminationTask::Request(ReconstructionRequest::Coord(coord));
    assert!(member.still_valid(&task));
    member.on_resolved_request(&ReconstructionRequest::Coord(coord));
    assert!(!member.still_valid(&task));
    assert!(member
        .perform(RepeatableTask::new(task), &vec![Recipient::Node(NodeIndex(1))], 0)
        .is_empty());
}

#[test]
fn asks_for_parents() {
    let mut member = TestMember::new(NodeIndex(1), NodeCount(4), constant(1));
    let hash = Hasher64::hash(&vec![0x0]);
    assert_eq!(member.on_request_parents(hash).len(), 1);
    assert!(member.on_request_parents(hash).is_empty());
    match &member.trigger_task().expect("a task is due")[..] {
        [Action::Send(UnitMessage::RequestParents(asking, requested), _)] => {
            assert_eq!(*asking, NodeIndex(1));
            assert_eq!(*requested, hash);
        }
        _ => panic!("The action is not a request."),
    }
    assert!(member.trigger_task().is_none());
}

#[test]
fn only_the_latest_unit_of_a_creator_is_broadcast_again() {
    let keychains = prepare_keychains(NodeCount(4));
    let mut member = TestMember::new(NodeIndex(0), NodeCount(4), constant(2));
    let older = signed_unit(&keychains, NodeIndex(1), 2);
    let newer = signed_unit(&keychains, NodeIndex(1), 3);
    member.on_unit_discovered(older.copy());
    assert!(member.still_valid(&DisseminationTask::Broadcast(older.copy())));
    member.on_unit_discovered(newer.copy());
    assert!(!member.still_valid(&DisseminationTask::Broadcast(older)));
    assert!(member.still_valid(&DisseminationTask::Broadcast(newer)));
}

#[test]
fn own_units_are_sent_at_once() {
    let keychains = prepare_keychains(NodeCount(4));
    let mut member = TestMember::new(NodeIndex(0), NodeCount(4), constant(2));
    let unit = signed_unit(&keychains, NodeIndex(0), 0);
    let actions = member.on_unit_message_from_units(Notification::NewSelfUnit(unit.copy()));
    match &actions[..] {
        [Action::Send(UnitMessage::NewUnit(sent), recipient)] => {
            assert!(sent.equals(&unit));
            assert_eq!(*recipient, Recipient::Everyone);
        }
        _ => panic!("The unit is not sent."),
    }
}

#[test]
fn status_of_an_idle_member() {
    let member = TestMember::new(NodeIndex(0), NodeCount(4), constant(2));
    let text = member.status().text();
    assert!(text.starts_with("Member status report: "), "{}", text);
    let mut member = member;
    member.on_request_coord(UnitCoord::new(5, NodeIndex(2)));
    assert_ne!(member.status().text(), text);
}

#[test]
fn member_deals_with_events_until_it_exits() {
    let keychains = prepare_keychains(NodeCount(4));
    let member = TestMember::new(NodeIndex(0), NodeCount(4), constant(2));
    let mut service = MemberService::new(member);
    let coord = UnitCoord::new(5, NodeIndex(2));
    let request = Notification::Request(ReconstructionRequest::Coord(coord));
    assert!(matches!(
        service.on_event(Event::Notification(Some(request))),
        Decision::Act(actions) if matches!(actions[..], [Action::TriggerTasks])
    ));
    assert_eq!(service.trigger_task().map(|actions| actions.len()), Some(2));
    assert!(service.trigger_task().is_none());
    assert_eq!(
        service.status().text(),
        "Member status report: task queue content: CoordRequest - 1, ParentsRequest - 0, UnitBroadcast - 0; not_resolved_coords.len() - 1."
    );
    assert!(matches!(service.on_event(Event::Done(true)), Decision::Wait));
    let resolved = ReconstructionRequest::Coord(coord);
    assert!(matches!(
        service.on_event(Event::Resolved(Some(resolved))),
        Decision::Act(actions) if actions.is_empty()
    ));
    assert_eq!(
        service.status().text(),
        "Member status report: task queue content: CoordRequest - 1, ParentsRequest - 0, UnitBroadcast - 0."
    );
    let unit = signed_unit(&keychains, NodeIndex(1), 0);
    match service.on_event(Event::Message(Some(UnitMessage::NewUnit(unit.copy())))) {
        Decision::Forward(RunwayNotificationIn::NewUnit(forwarded)) => {
            assert!(forwarded.equals(&unit))
        }
        _ => panic!("The message is not passed on."),
    }
    assert!(matches!(
        service.on_event(Event::Tick),
        Decision::Act(actions) if matches!(actions[..], [Action::TriggerTasks])
    ));
    assert!(matches!(service.on_event(Event::StatusTick), Decision::Report));
    assert!(matches!(service.on_event(Event::Notification(None)), Decision::Stop));
    assert!(matches!(service.on_event(Event::Resolved(None)), Decision::Stop));
    assert!(matches!(service.on_event(Event::Message(None)), Decision::Stop));
    assert!(matches!(service.on_event(Event::Done(false)), Decision::Terminate));
    assert!(matches!(service.on_event(Event::Exit), Decision::Terminate));
}

#[test]
fn tasks_that_are_pending_for_long_are_described() {
    let mut task: RepeatableTask<Hasher64, u32, VerboseSignature> = RepeatableTask::new(coord_task());
    assert_eq!(
        task.text(),
        "RepeatableTask(Request(Coord(UnitCoord { round: 1, creator: NodeIndex(3) })), counter 0)"
    );
    task.counter = 12;
    assert_eq!(
        task.text(),
        "RepeatableTask(Request(Coord(UnitCoord { round: 1, creator: NodeIndex(3) })), counter 12)"
    );
    let task: RepeatableTask<Hasher64, u32, VerboseSignature> = RepeatableTask::new(parents_task());
    assert_eq!(
        task.text(),
        format!(
            "RepeatableTask(Request(ParentsOf({:?})), counter 0)",
            Hasher64::hash(&vec![0x0])
        )
    );
    let keychains = prepare_keychains(NodeCount(4));
    let unit = signed_unit(&keychains, NodeIndex(1), 2);
    let hash = unit.as_signable().hash();
    let combined = unit.as_signable().as_pre_unit().control_hash().combined_hash();
    let text = format!(
        "RepeatableTask(Broadcast(UncheckedSigned {{ signable: FullUnit {{ pre_unit: PreUnit {{ coord: UnitCoord {{ round: 2, creator: NodeIndex(1) }}, control_hash: ControlHash {{ parents_mask: NodeSubset(0000), combined_hash: {:?} }} }}, data: Some(7), session_id: 0, hash: RwLock {{ data: Some({:?}) }} }}, signature: VerboseSignature {{ msg: {:?}, index: NodeIndex(1) }} }}), counter 0)",
        combined, hash, hash
    );
    assert_eq!(RepeatableTask::new(DisseminationTask::Broadcast(unit)).text(), text);
}

fn ordered(data: Option<u32>, round: Round) -> OrderedUnit<u32, Hasher64> {
    OrderedUnit {
        data,
        parents: vec![],
        hash: [0; 8],
        creator: NodeIndex(0),
        round,
    }
}

#[test]
fn data_is_finalized_in_order() {
    let mut adapter: FinalizationHandlerAdapter<KeptData<u32>, u32, Hasher64> =
        FinalizationHandlerAdapter::from(KeptData::new());
    adapter.batch_finalized(vec![ordered(Some(3), 0), ordered(None, 1), ordered(Some(1), 2)]);
    adapter.batch_finalized(vec![ordered(Some(2), 3)]);
    let mut handler = adapter.into_inner();
    assert_eq!(*handler.data(), vec![3, 1, 2]);
    handler.data_finalized(9);
    assert_eq!(*handler.data(), vec![3, 1, 2, 9]);
}

#[test]
fn requests_may_wait_for_less_than_a_millisecond() {
    let delays = ConstantDelays {
        request_delay: Duration::new(0, 250_000),
        ..constant(2)
    };
    let member = TestMember::new(NodeIndex(0), NodeCount(4), delays);
    assert_eq!(member.delay(&coord_task(), 0).as_nanos(), 250_000);
    assert_eq!(member.delay(&parents_task(), 7).as_nanos(), 250_000);
}

#[test]
fn broadcasts_wait_for_whole_milliseconds() {
    let keychains = prepare_keychains(NodeCount(4));
    let task = DisseminationTask::Broadcast(signed_unit(&keychains, NodeIndex(1), 2));
    let delays = ConstantDelays {
        rebroadcast_interval_min: Duration::new(0, 1_999_999),
        rebroadcast_interval_max: Duration::new(0, 2_000_001),
        ..constant(2)
    };
    let member = TestMember::new(NodeIndex(0), NodeCount(4), delays);
    assert_eq!(member.delay(&task, 0), Duration::from_millis(1));
    let delays = ConstantDelays {
        rebroadcast_interval_min: Duration::new(0, 1_000_000),
        rebroadcast_interval_max: Duration::new(0, 1_999_999),
        ..constant(2)
    };
    let member = TestMember::new(NodeIndex(0), NodeCount(4), delays);
    assert!(!member.can_discover(&signed_unit(&keychains, NodeIndex(1), 2)));
}

#[test]
fn units_that_are_not_the_latest_need_no_time_for_a_broadcast() {
    let keychains = prepare_keychains(NodeCount(4));
    let delays = ConstantDelays {
        rebroadcast_interval_min: Duration::from_millis(20000),
        rebroadcast_interval_max: Duration::from_millis(20000),
        ..constant(2)
    };
    let member = TestMember::new(NodeIndex(0), NodeCount(4), delays);
    let unit = signed_unit(&keychains, NodeIndex(1), 2);
    assert!(!member.can_discover(&unit));
    let mut member = TestMember::new(NodeIndex(0), NodeCount(4), constant(2));
    assert!(member.can_discover(&unit));
    member.on_unit_discovered(unit.copy());
    assert!(member.still_valid(&DisseminationTask::Broadcast(unit.copy())));
    // a unit that is known already is not news
    member.on_unit_discovered(signed_unit(&keychains, NodeIndex(1), 1));
    assert!(member.still_valid(&DisseminationTask::Broadcast(unit)));
    let larger = prepare_keychains(NodeCount(5));
    assert!(!member.can_discover(&signed_unit(&larger, NodeIndex(4), 0)));
}
