//! Handling units that come in.
use aleph_bft::alerts::ForkingNotification;
use aleph_bft::collections::VecSet;
use aleph_bft::dag::unit::DagUnit;
use aleph_bft::data::Data;
use aleph_bft::dissemination::{Request, Response, UnitMessage};
use aleph_bft::extension::{handle_batch, handle_batches};
use aleph_bft::mock::hasher::Hasher64;
use aleph_bft::mock::threshold::{prepare_keychains, TestMultiKeychain};
use aleph_bft::mock::verbose::VerboseSignature;
use aleph_bft::nodes::{NodeCount, NodeIndex, NodeMap, Round, SessionId};
use aleph_bft::runway::packer::{pack, Decision as PackerDecision, Event as PackerEvent, Packer};
use aleph_bft::runway::provider::Provider;
use aleph_bft::runway::service::{Decision, Event, RunwayService};
use aleph_bft::runway::session::{has_to_stop, initial_unit_collection, trivial_start, Ended};
use aleph_bft::runway::status::RunwayStatus;
use aleph_bft::runway::{Action, Runway, RunwayNotificationIn, RunwayNotificationOut};
use aleph_bft::signed::Signed;
use aleph_bft::units::validator::Validator;
use aleph_bft::units::{ControlHash, FullUnit, PreUnit, SignedUnit, UnitCoord};

type TestRunway<'a> = Runway<'a, Hasher64, u32, TestMultiKeychain>;
type TestAction = Action<Hasher64, u32, VerboseSignature>;

const N_MEMBERS: NodeCount = NodeCount(4);
const SESSION_ID: SessionId = 43;

fn initial_preunit(n_members: NodeCount, node_id: NodeIndex) -> PreUnit<Hasher64> {
    PreUnit::new(node_id, 0, ControlHash::new(&NodeMap::with_size(n_members)))
}

fn preunit_to_full_unit(
    preunit: PreUnit<Hasher64>,
    session_id: SessionId,
) -> FullUnit<Hasher64, u32> {
    FullUnit::new(preunit, Some(rand::random()), session_id)
}

fn random_initial_units(
    n_members: NodeCount,
    session_id: SessionId,
) -> Vec<FullUnit<Hasher64, u32>> {
    n_members
        .members()
        .into_iter()
        .map(|node_id| preunit_to_full_unit(initial_preunit(n_members, node_id), session_id))
        .collect()
}

fn random_unit_with_parents(
    creator: NodeIndex,
    parents: &[FullUnit<Hasher64, u32>],
) -> FullUnit<Hasher64, u32> {
    let representative_parent = parents.last().expect("there are parents");
    let n_members = representative_parent.as_pre_unit().n_members();
    let session_id = representative_parent.session_id();
    let round = representative_parent.round() + 1;
    let mut parent_map = NodeMap::with_size(n_members);
    for parent in parents {
        parent_map.insert(parent.creator(), parent.hash());
    }
    let control_hash = ControlHash::new(&parent_map);
    preunit_to_full_unit(PreUnit::new(creator, round, control_hash), session_id)
}

fn random_full_parent_units_up_to(
    round: Round,
    n_members: NodeCount,
    session_id: SessionId,
) -> Vec<Vec<FullUnit<Hasher64, u32>>> {
    let mut result = vec![random_initial_units(n_members, session_id)];
    for _ in 0..round {
        let units = n_members
            .members()
            .into_iter()
            .map(|node_id| {
                random_unit_with_parents(node_id, result.last().expect("previous round present"))
            })
            .collect();
        result.push(units);
    }
    result
}

fn sign(
    unit: FullUnit<Hasher64, u32>,
    keychains: &[TestMultiKeychain],
) -> SignedUnit<Hasher64, u32, VerboseSignature> {
    let creator = unit.creator();
    Signed::sign(unit, &keychains[creator.0])
}

fn runway(keychain: &TestMultiKeychain) -> TestRunway<'_> {
    let validator = Validator::new(
        SESSION_ID,
        keychain,
        2137,
        N_MEMBERS,
        N_MEMBERS.consensus_threshold(),
    );
    Runway::new(keychain, validator)
}

fn saved(actions: Vec<TestAction>) -> Vec<DagUnit<Hasher64, u32, VerboseSignature>> {
    actions
        .into_iter()
        .filter_map(|action| match action {
            Action::Save(unit) => Some(unit),
            _ => None,
        })
        .collect()
}

fn requested_coords(actions: &[TestAction]) -> Vec<UnitCoord> {
    actions
        .iter()
        .filter_map(|action| match action {
            Action::Notify(RunwayNotificationOut::Request(Request::Coord(coord))) => Some(*coord),
            _ => None,
        })
        .collect()
}

#[test]
fn formats_missing_coords() {
    let format_missing_coords = RunwayStatus::<Hasher64>::format_missing_coords;
    assert_eq!(format_missing_coords(&vec![]), "");
    assert_eq!(format_missing_coords(&vec![(0, 13)]), "{Creator 0: 13}");
    assert_eq!(
        format_missing_coords(&vec![(0, 1), (0, 2)]),
        "{Creator 0: 1, 2}"
    );
    assert_eq!(
        format_missing_coords(&vec![(0, 1), (0, 2), (0, 3)]),
        "{Creator 0: [1-3]}"
    );
    assert_eq!(
        format_missing_coords(&vec![
            (0, 1),
            (0, 3),
            (0, 4),
            (0, 5),
            (0, 6),
            (0, 9),
            (0, 10),
            (0, 12)
        ]),
        "{Creator 0: 1, [3-6], 9, 10, 12}"
    );
    assert_eq!(
        format_missing_coords(&vec![(1, 3), (0, 1), (1, 1), (3, 0)]),
        "{Creator 0: 1}, {Creator 1: 1, 3}, {Creator 3: 0}"
    );
}

#[test]
fn reports_its_status() {
    let mut missing_coords = VecSet::new();
    let mut missing_parents = VecSet::new();
    let report = |coords: &VecSet<UnitCoord>, parents: &VecSet<[u8; 8]>, top: Round| {
        RunwayStatus::<Hasher64> {
            missing_coords: coords,
            missing_parents: parents,
            dag_top_round: top,
            store_top_round: 10,
        }
        .text()
    };
    assert_eq!(
        report(&missing_coords, &missing_parents, 12),
        "Runway status report: healthy."
    );
    assert_eq!(
        report(&missing_coords, &missing_parents, 13),
        "Runway status report: behind by 3 rounds."
    );
    missing_coords.insert(UnitCoord::new(11, NodeIndex(2)));
    assert_eq!(
        report(&missing_coords, &missing_parents, 12),
        "Runway status report: syncing - missing 1 unit(s); missing coords - {Creator 2: 11}."
    );
    missing_parents.insert([1, 2, 3, 4, 5, 6, 7, 255]);
    assert_eq!(
        report(&missing_coords, &missing_parents, 20),
        "Runway status report: syncing - missing 1 unit(s) and behind by 10 rounds; \
         missing coords - {Creator 2: 11}; missing parents - {[1, 2, 3, 4, 5, 6, 7, 255]}."
    );
}

#[test]
fn units_are_saved_before_anything_else() {
    let keychains = prepare_keychains(N_MEMBERS);
    let mut this = runway(&keychains[0]);
    let units = random_full_parent_units_up_to(0, N_MEMBERS, SESSION_ID).swap_remove(0);
    for unit in units {
        let unit = sign(unit, &keychains);
        let own = unit.as_signable().creator() == NodeIndex(0);
        let hash = unit.as_signable().hash();
        let actions = this.on_unit_received(unit.copy().into_unchecked());
        assert_eq!(actions.len(), 1);
        let dag_unit = saved(actions).pop().expect("the unit is to be saved");
        assert_eq!(dag_unit.hash(), hash);
        assert!(this.store().unit(&hash).is_none());
        let actions = this.on_unit_backup_saved(dag_unit);
        assert!(this.store().unit(&hash).is_some());
        match &actions[..] {
            [Action::OfferParent(parent), Action::Notify(RunwayNotificationOut::NewAnyUnit(any)), rest @ ..] =>
            {
                assert_eq!(parent.hash(), hash);
                assert_eq!(any.as_signable().hash(), hash);
                match rest {
                    [Action::Notify(RunwayNotificationOut::NewSelfUnit(sent)), Action::AddToOrder(ordered)] =>
                    {
                        assert!(own);
                        assert_eq!(sent.as_signable().hash(), hash);
                        assert_eq!(ordered.hash(), hash);
                    }
                    [Action::AddToOrder(ordered)] => {
                        assert!(!own);
                        assert_eq!(ordered.hash(), hash);
                    }
                    _ => panic!("The unit is not put in order."),
                }
            }
            _ => panic!("The unit is not announced."),
        }
    }
    assert_eq!(this.store().size(), 4);
}

#[test]
fn missing_parents_are_asked_for_once_and_resolved() {
    let keychains = prepare_keychains(N_MEMBERS);
    let mut this = runway(&keychains[0]);
    let units = random_full_parent_units_up_to(1, N_MEMBERS, SESSION_ID);
    let child = sign(units[1][1].copy(), &keychains);
    let actions = this.on_unit_received(child.into_unchecked());
    let coords: Vec<_> = (0..4).map(|i| UnitCoord::new(0, NodeIndex(i))).collect();
    assert_eq!(requested_coords(&actions), coords);
    let other_child = sign(units[1][2].copy(), &keychains);
    assert!(this.on_unit_received(other_child.into_unchecked()).is_empty());
    let mut ready = Vec::new();
    for (i, unit) in units[0].iter().enumerate() {
        let unit = sign(unit.copy(), &keychains).into_unchecked();
        let actions = this.on_unit_message(RunwayNotificationIn::Response(Response::Coord(unit)));
        let mut units = saved(actions);
        assert_eq!(units.len(), if i == 3 { 3 } else { 1 });
        ready.append(&mut units);
    }
    for unit in ready {
        let coord = unit.coord();
        let actions = this.on_unit_backup_saved(unit);
        let resolved = matches!(&actions[0], Action::Resolve(Request::Coord(c)) if *c == coord);
        assert_eq!(resolved, coord.round() == 0);
    }
    assert_eq!(this.store().size(), 6);
}

#[test]
fn alerts_are_raised_on_forks() {
    let keychains = prepare_keychains(N_MEMBERS);
    let mut this = runway(&keychains[0]);
    let first = random_full_parent_units_up_to(1, N_MEMBERS, SESSION_ID)[1][3].copy();
    let second = random_full_parent_units_up_to(1, N_MEMBERS, SESSION_ID)[1][3].copy();
    let first = sign(first, &keychains).into_unchecked();
    let second = sign(second, &keychains).into_unchecked();
    let actions = this.on_forking_notification(ForkingNotification::Forker((first, second)));
    assert!(actions.iter().any(|action| matches!(action, Action::Alert(_))));
}

#[test]
fn requests_are_answered_if_there_is_an_answer() {
    let keychains = prepare_keychains(N_MEMBERS);
    let mut this = runway(&keychains[0]);
    let coord = UnitCoord::new(3, NodeIndex(1));
    let request = RunwayNotificationIn::Request(Request::Coord(coord), NodeIndex(2));
    match &this.on_unit_message(request)[..] {
        [Action::Answer(Request::Coord(asked), node)] => {
            assert_eq!(*asked, coord);
            assert_eq!(*node, NodeIndex(2));
        }
        _ => panic!("The request is not looked at."),
    }
    assert!(TestRunway::on_answer(None, NodeIndex(2)).is_empty());
    let unit = random_full_parent_units_up_to(0, N_MEMBERS, SESSION_ID)[0][1].copy();
    let unit = sign(unit, &keychains).into_unchecked();
    match &TestRunway::on_answer(Some(Response::Coord(unit.copy())), NodeIndex(2))[..] {
        [Action::Notify(RunwayNotificationOut::Response(Response::Coord(sent), node))] => {
            assert!(sent.equals(&unit));
            assert_eq!(*node, NodeIndex(2));
        }
        _ => panic!("The answer is not sent."),
    }
}

#[test]
fn messages_are_sorted() {
    let coord = UnitCoord::new(3, NodeIndex(1));
    let message: UnitMessage<Hasher64, u32, VerboseSignature> =
        UnitMessage::RequestCoord(NodeIndex(2), coord);
    match RunwayNotificationIn::try_from(message) {
        Ok(RunwayNotificationIn::Request(Request::Coord(asked), node)) => {
            assert_eq!(asked, coord);
            assert_eq!(node, NodeIndex(2));
        }
        _ => panic!("The message is not a request."),
    }
    let message: UnitMessage<Hasher64, u32, VerboseSignature> =
        UnitMessage::RequestParents(NodeIndex(2), [4; 8]);
    assert!(matches!(
        RunwayNotificationIn::try_from(message),
        Ok(RunwayNotificationIn::Request(Request::Parents([4, ..]), NodeIndex(2)))
    ));
}

#[test]
fn runway_starts_with_the_backup_and_stops_in_order() {
    let keychains = prepare_keychains(N_MEMBERS);
    let mut this = RunwayService::new(runway(&keychains[0]));
    let units = random_full_parent_units_up_to(1, N_MEMBERS, SESSION_ID);
    let backup: Vec<_> = units[0]
        .iter()
        .map(|unit| sign(unit.copy(), &keychains).into_unchecked())
        .collect();
    let ready = match this.on_event(Event::Loaded(Some(backup))) {
        Decision::Act(actions) => saved(actions),
        _ => panic!("The backup is not dealt with."),
    };
    assert_eq!(ready.len(), 4);
    assert!(matches!(this.on_event(Event::Done(true)), Decision::Wait));
    for unit in ready {
        match this.on_event(Event::Saved(Some(unit))) {
            Decision::Act(actions) => assert!(!actions.is_empty()),
            _ => panic!("The unit is not announced."),
        }
        assert!(matches!(this.on_event(Event::Done(true)), Decision::Wait));
    }
    let created = sign(units[1][0].copy(), &keychains);
    match this.on_event(Event::Created(Some(created))) {
        Decision::Act(actions) => assert_eq!(saved(actions).len(), 1),
        _ => panic!("The unit is not saved."),
    }
    assert!(matches!(this.on_event(Event::StatusTick), Decision::Report));
    assert_eq!(this.status().text(), "Runway status report: healthy.");
    assert!(matches!(this.on_event(Event::Saved(None)), Decision::Act(_)));
    assert!(matches!(this.on_event(Event::Created(None)), Decision::Stop));
    assert!(matches!(this.on_event(Event::Notification(None)), Decision::Stop));
    assert!(matches!(this.on_event(Event::Message(None)), Decision::Stop));
    assert!(matches!(this.on_event(Event::Done(false)), Decision::Terminate));
    let mut this = RunwayService::new(runway(&keychains[0]));
    assert!(matches!(this.on_event(Event::Loaded(None)), Decision::Stop));
    assert!(matches!(this.on_event(Event::Exit), Decision::Terminate));
}

#[test]
fn only_what_is_done_once_may_end_on_its_own() {
    for ended in [
        Ended::Runway,
        Ended::Alerter,
        Ended::Creator,
        Ended::BackupSaver,
        Ended::Session,
    ] {
        assert!(has_to_stop(ended));
    }
    assert!(!has_to_stop(Ended::StartingRound));
    assert!(!has_to_stop(Ended::BackupLoading));
    assert_eq!(trivial_start(), 0);
}

#[test]
fn everyone_is_asked_for_our_newest_unit() {
    let keychains = prepare_keychains(N_MEMBERS);
    let validator = Validator::new(
        SESSION_ID,
        &keychains[2],
        2137,
        N_MEMBERS,
        N_MEMBERS.consensus_threshold(),
    );
    let (io, notification): (_, RunwayNotificationOut<Hasher64, u32, VerboseSignature>) =
        initial_unit_collection(&keychains[2], &validator, N_MEMBERS.consensus_threshold());
    match notification {
        RunwayNotificationOut::Request(Request::NewestUnit(node, salt)) => {
            assert_eq!(node, NodeIndex(2));
            assert_eq!(salt, io.salt());
        }
        _ => panic!("Nobody is asked."),
    }
}

#[test]
fn data_is_packed_into_units() {
    let keychains = prepare_keychains(N_MEMBERS);
    let pre_unit = || initial_preunit(N_MEMBERS, NodeIndex(1));
    let expected = pack(&keychains[1], SESSION_ID, pre_unit(), 77u32).into_unchecked();
    assert_eq!(*expected.as_signable().data(), Some(77));
    assert_eq!(expected.as_signable().session_id(), SESSION_ID);
    assert!(expected.copy().check(&keychains[0]).is_ok());

    let mut packer = Packer::new(&keychains[1], SESSION_ID);
    let event: PackerEvent<Hasher64, u32> = PackerEvent::PreUnit(Some(pre_unit()));
    assert!(matches!(packer.on_event(event), PackerDecision::AwaitData));
    match packer.on_event(PackerEvent::Data(77u32)) {
        PackerDecision::Send(unit) => assert!(unit.into_unchecked().equals(&expected)),
        _ => panic!("The unit is not sent."),
    }
    let event: PackerEvent<Hasher64, u32> = PackerEvent::Sent(true);
    assert!(matches!(packer.on_event(event), PackerDecision::AwaitPreUnit));
    let event: PackerEvent<Hasher64, u32> = PackerEvent::PreUnit(None);
    assert!(matches!(packer.on_event(event), PackerDecision::Stop));

    let mut provider = Provider::new(&keychains[1], SESSION_ID);
    let event: PackerEvent<Hasher64, u32> = PackerEvent::Data(77);
    assert!(matches!(provider.on_event(event), PackerDecision::AwaitPreUnit));
    match provider.on_event(PackerEvent::PreUnit(Some(pre_unit()))) {
        PackerDecision::Send(unit) => assert!(unit.into_unchecked().equals(&expected)),
        _ => panic!("The unit is not sent."),
    }
    // a unit that could not be sent does not stop it
    let event: PackerEvent<Hasher64, u32> = PackerEvent::Sent(false);
    assert!(matches!(provider.on_event(event), PackerDecision::AwaitData));
    let event: PackerEvent<Hasher64, u32> = PackerEvent::PreUnit(None);
    assert!(matches!(provider.on_event(event), PackerDecision::Stop));
}

#[test]
fn batches_are_reported_in_order() {
    let keychains = prepare_keychains(N_MEMBERS);
    let units = random_full_parent_units_up_to(1, N_MEMBERS, SESSION_ID);
    let parents: Vec<_> = units[0].iter().map(|unit| unit.hash()).collect();
    let parent_map = NodeMap::from_vec(parents.iter().map(|hash| Some(*hash)).collect());
    let batch = || {
        vec![
            DagUnit::new(sign(units[0][2].copy(), &keychains), NodeMap::with_size(N_MEMBERS)),
            DagUnit::new(sign(units[1][3].copy(), &keychains), parent_map.copy()),
        ]
    };
    let reported = handle_batch(batch());
    assert_eq!(reported.len(), 2);
    assert_eq!(reported[0].creator, NodeIndex(2));
    assert_eq!(reported[0].round, 0);
    assert!(reported[0].parents.is_empty());
    assert_eq!(reported[1].hash, units[1][3].hash());
    assert_eq!(reported[1].data, *units[1][3].data());
    assert_eq!(reported[1].parents, parents);
    let reported = handle_batches(vec![batch(), vec![], batch()]);
    let lengths: Vec<_> = reported.iter().map(|batch| batch.len()).collect();
    assert_eq!(lengths, vec![2, 0, 2]);
}
