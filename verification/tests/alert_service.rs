//! The flow of alerts, and starting it again from a backup.
use aleph_bft::alerts::handler::Handler;
use aleph_bft::alerts::service::{Action, Decision, Event, SavedItem, Service};
use aleph_bft::alerts::{
    Alert, AlertConfig, AlertMessage, ForkProof, ForkingNotification, Recipient,
};
use aleph_bft::backup::injector::{AlertData, BackupInjector, BackupItem, Step};
use aleph_bft::data::Data;
use aleph_bft::duration::Duration;
use aleph_bft::mock::hasher::{Hash64, Hasher64};
use aleph_bft::mock::threshold::{prepare_keychains, TestMultiKeychain};
use aleph_bft::mock::verbose::{VerbosePartialMultisignature, VerboseSignature};
use aleph_bft::nodes::{NodeCount, NodeIndex, NodeMap, Round, SessionId};
use aleph_bft::rmc::Message as RmcMessage;
use aleph_bft::signed::{Indexed, Multisigned, PartiallyMultisigned, Signed, UncheckedSigned};
use aleph_bft::units::{ControlHash, FullUnit, PreUnit, SignedUnit, UncheckedSignedUnit};

const N_MEMBERS: NodeCount = NodeCount(4);
const SESSION_ID: SessionId = 0;
const OWN: NodeIndex = NodeIndex(0);
const FORKER: NodeIndex = NodeIndex(3);

type TestAlert = Alert<Hasher64, u32, VerboseSignature>;
type TestService = Service<Hasher64, u32, TestMultiKeychain>;
type TestUnit = UncheckedSignedUnit<Hasher64, u32, VerboseSignature>;
type TestItem = BackupItem<Hasher64, u32, VerboseSignature, VerbosePartialMultisignature>;
type TestInjector = BackupInjector<Hasher64, u32, TestMultiKeychain>;

fn initial_preunit(n_members: NodeCount, node_id: NodeIndex) -> PreUnit<Hasher64> {
    PreUnit::new(node_id, 0, ControlHash::new(&NodeMap::with_size(n_members)))
}

fn preunit_to_full_unit(
    preunit: PreUnit<Hasher64>,
    session_id: SessionId,
) -> FullUnit<Hasher64, u32> {
    FullUnit::new(preunit, Some(rand::random()), session_id)
}

fn random_initial_units(
    n_members: NodeCount,
    session_id: SessionId,
) -> Vec<FullUnit<Hasher64, u32>> {
    n_members
        .members()
        .into_iter()
        .map(|node_id| preunit_to_full_unit(initial_preunit(n_members, node_id), session_id))
        .collect()
}

fn random_unit_with_parents(
    creator: NodeIndex,
    parents: &[FullUnit<Hasher64, u32>],
) -> FullUnit<Hasher64, u32> {
    let representative_parent = parents.last().expect("there are parents");
    let n_members = representative_parent.as_pre_unit().n_members();
    let session_id = representative_parent.session_id();
    let round = representative_parent.round() + 1;
    let mut parent_map = NodeMap::with_size(n_members);
    for parent in parents {
        parent_map.insert(parent.creator(), parent.hash());
    }
    let control_hash = ControlHash::new(&parent_map);
    preunit_to_full_unit(PreUnit::new(creator, round, control_hash), session_id)
}

fn random_full_parent_units_up_to(
    round: Round,
    n_members: NodeCount,
    session_id: SessionId,
) -> Vec<Vec<FullUnit<Hasher64, u32>>> {
    let mut result = vec![random_initial_units(n_members, session_id)];
    for _ in 0..round {
        let units = n_members
            .members()
            .into_iter()
            .map(|node_id| {
                random_unit_with_parents(node_id, result.last().expect("previous round present"))
            })
            .collect();
        result.push(units);
    }
    result
}

fn sign(
    unit: FullUnit<Hasher64, u32>,
    keychains: &[TestMultiKeychain],
) -> SignedUnit<Hasher64, u32, VerboseSignature> {
    let creator = unit.creator();
    Signed::sign(unit, &keychains[creator.0])
}

fn fork(keychains: &[TestMultiKeychain]) -> ForkProof<Hasher64, u32, VerboseSignature> {
    let unit = |data| -> TestUnit {
        let pre_unit = initial_preunit(N_MEMBERS, FORKER);
        sign(FullUnit::new(pre_unit, Some(data), SESSION_ID), keychains).into_unchecked()
    };
    (unit(0), unit(1))
}

fn alert(keychains: &[TestMultiKeychain], sender: NodeIndex, legit: Vec<TestUnit>) -> TestAlert {
    Alert::new(sender, fork(keychains), legit)
}

fn multisigned(
    keychains: &[TestMultiKeychain],
    hash: Hash64,
) -> Multisigned<Hash64, VerbosePartialMultisignature> {
    let signature = |i: usize| -> Signed<Indexed<Hash64>, VerboseSignature> {
        Signed::sign_with_index(hash, &keychains[i])
    };
    let mut partial = PartiallyMultisigned::sign(signature(0), &keychains[0]);
    for i in 1..N_MEMBERS.0 {
        partial = partial.add_signature(signature(i), &keychains[0]);
    }
    match partial {
        PartiallyMultisigned::Complete(multisigned) => multisigned,
        PartiallyMultisigned::Incomplete(_) => unreachable!(),
    }
}

fn service(keychains: &[TestMultiKeychain]) -> TestService {
    let config = AlertConfig {
        n_members: N_MEMBERS,
        session_id: SESSION_ID,
    };
    let keychain = prepare_keychains(NodeCount(keychains.len())).swap_remove(OWN.0);
    Service::new(Handler::new(keychain, config))
}

#[test]
fn own_alerts_are_saved_then_sent_and_multicast() {
    let keychains = prepare_keychains(N_MEMBERS);
    let mut this = service(&keychains);
    let alert = alert(&keychains, OWN, vec![]);
    let hash = alert.hash();
    let mut actions = TestService::save_first(SavedItem::OwnAlert(alert.copy()));
    assert_eq!(actions.len(), 1);
    let saved = match actions.pop() {
        Some(Action::Save(item)) => item,
        _ => panic!("The alert is not saved."),
    };
    match &this.handle_response_from_backup(saved)[..] {
        [Action::Send(AlertMessage::ForkAlert(sent), Recipient::Everyone), Action::StartRmc(started)] =>
        {
            assert!(sent.as_signable().equals(&alert));
            assert!(sent.copy().check(&keychains[1]).is_ok());
            assert_eq!(*started, hash);
        }
        _ => panic!("The alert is not sent."),
    }
}

#[test]
fn alerts_from_the_network_are_multicast_and_reported() {
    let keychains = prepare_keychains(N_MEMBERS);
    let mut this = service(&keychains);
    let first = alert(&keychains, NodeIndex(1), vec![]);
    let hash = first.hash();
    let signed = Signed::sign(first, &keychains[1]).into_unchecked();
    match &this.handle_message_from_network(AlertMessage::ForkAlert(signed.copy()))[..] {
        [Action::StartRmc(started), Action::Notify(ForkingNotification::Forker(_))] => {
            assert_eq!(*started, hash);
        }
        _ => panic!("The forker is not reported."),
    }
    // the forker is known by now
    let second = alert(&keychains, NodeIndex(2), vec![]);
    let second = Signed::sign(second, &keychains[2]).into_unchecked();
    assert!(matches!(
        this.handle_message_from_network(AlertMessage::ForkAlert(second))[..],
        [Action::StartRmc(_)]
    ));
    // somebody asks for the alert
    let asked = AlertMessage::AlertRequest(NodeIndex(2), hash);
    let mut actions = this.handle_message_from_network(asked);
    match actions.pop() {
        Some(Action::Save(SavedItem::NetworkAlert(alert, recipient))) => {
            assert!(alert.equals(&signed));
            assert_eq!(recipient, Recipient::Node(NodeIndex(2)));
            assert!(matches!(
                this.handle_response_from_backup(SavedItem::NetworkAlert(alert, recipient))[..],
                [Action::Send(AlertMessage::ForkAlert(_), Recipient::Node(NodeIndex(2)))]
            ));
        }
        _ => panic!("The alert is not handed out."),
    }
    // and the multicast comes to an end
    let item = SavedItem::MultiSignature(multisigned(&keychains, hash));
    assert!(matches!(
        this.handle_response_from_backup(item)[..],
        [Action::Notify(ForkingNotification::Units(_))]
    ));
}

#[test]
fn messages_about_unknown_alerts_make_us_ask() {
    let keychains = prepare_keychains(N_MEMBERS);
    let mut this = service(&keychains);
    let hash = [9; 8];
    let signed: Signed<Indexed<Hash64>, VerboseSignature> =
        Signed::sign_with_index(hash, &keychains[1]);
    let message = RmcMessage::SignedHash(signed.into_unchecked());
    match &this.handle_message_from_network(AlertMessage::RmcMessage(NodeIndex(1), message.copy()))[..] {
        [Action::Send(AlertMessage::AlertRequest(asking, asked), Recipient::Node(NodeIndex(1)))] => {
            assert_eq!(*asking, OWN);
            assert_eq!(*asked, hash);
        }
        _ => panic!("The alert is not asked for."),
    }
    assert!(matches!(
        this.rmc_message_to_network(message),
        Action::Send(AlertMessage::RmcMessage(OWN, RmcMessage::SignedHash(_)), Recipient::Everyone)
    ));
}

#[test]
fn alert_service_deals_with_events_until_it_exits() {
    let keychains = prepare_keychains(N_MEMBERS);
    let mut this = service(&keychains);
    let own = alert(&keychains, OWN, vec![]);
    let hash = own.hash();
    let item = match this.on_event(Event::Alert(Some(own))) {
        Decision::Act(mut actions) => match actions.pop() {
            Some(Action::Save(item)) => item,
            _ => panic!("The alert is not saved."),
        },
        _ => panic!("The alert is ignored."),
    };
    assert!(matches!(this.on_event(Event::Done(true)), Decision::Wait));
    assert!(matches!(
        this.on_event(Event::Saved(Some(item))),
        Decision::Act(actions) if actions.len() == 2
    ));
    let multisigned = multisigned(&keychains, hash);
    assert!(matches!(
        this.on_event(Event::Multisigned(multisigned)),
        Decision::Act(actions) if matches!(actions[..], [Action::Save(SavedItem::MultiSignature(_))])
    ));
    let asked = AlertMessage::AlertRequest(NodeIndex(2), hash);
    assert!(matches!(
        this.on_event(Event::Message(Some(asked))),
        Decision::Act(actions) if matches!(actions[..], [Action::Save(SavedItem::NetworkAlert(_, _))])
    ));
    let signed: Signed<Indexed<Hash64>, VerboseSignature> =
        Signed::sign_with_index(hash, &keychains[0]);
    let message = RmcMessage::SignedHash(signed.into_unchecked());
    assert!(matches!(
        this.on_event(Event::RmcMessage(Some(message))),
        Decision::Act(actions) if matches!(actions[..], [Action::Send(_, Recipient::Everyone)])
    ));
    assert!(matches!(this.on_event(Event::Message(None)), Decision::Stop));
    assert!(matches!(this.on_event(Event::Alert(None)), Decision::Stop));
    assert!(matches!(this.on_event(Event::RmcMessage(None)), Decision::Stop));
    assert!(matches!(this.on_event(Event::Saved(None)), Decision::Stop));
    assert!(matches!(this.on_event(Event::Done(false)), Decision::Terminate));
    assert!(matches!(this.on_event(Event::Done(true)), Decision::Terminate));
    assert!(matches!(service(&keychains).on_event(Event::Exit), Decision::Terminate));
}

fn inject(items: Vec<TestItem>) -> Option<(Vec<Step<Hasher64, u32, VerboseSignature>>, usize, usize)> {
    let keychain = prepare_keychains(N_MEMBERS).swap_remove(OWN.0);
    let mut steps = Vec::new();
    TestInjector::new(SESSION_ID, keychain)
        .get_initial_state(items, &mut steps)
        .map(|state| {
            assert_eq!(state.task_delay, Duration::from_millis(500));
            (steps, state.forking_notifications.len(), state.tasks.len())
        })
}

fn units(rounds: Round) -> Vec<TestItem> {
    let keychains = prepare_keychains(N_MEMBERS);
    random_full_parent_units_up_to(rounds, N_MEMBERS, SESSION_ID)
        .into_iter()
        .flatten()
        .map(|unit| BackupItem::Unit(sign(unit, &keychains).into_unchecked()))
        .collect()
}

#[test]
fn backup_of_units_is_injected_in_order() {
    let (steps, notifications, tasks) = inject(units(2)).expect("the backup is correct");
    assert_eq!(steps.len(), 12);
    assert!(steps.iter().all(|step| matches!(step, Step::AddUnit(_, false))));
    assert_eq!(notifications, 0);
    assert_eq!(tasks, 0);
}

#[test]
fn backup_that_does_not_fit_is_not_injected() {
    let mut items = units(2);
    items.remove(2);
    assert!(inject(items).is_none());
    let keychains = prepare_keychains(N_MEMBERS);
    let other_session = random_full_parent_units_up_to(0, N_MEMBERS, SESSION_ID + 1)[0][1].copy();
    let other_session = sign(other_session, &keychains).into_unchecked();
    assert!(inject(vec![BackupItem::Unit(other_session)]).is_none());
    let mut twice = units(0);
    twice.append(&mut units(0));
    assert!(inject(twice).is_none());
}

#[test]
fn alerts_are_taken_up_again() {
    let keychains = prepare_keychains(N_MEMBERS);
    let network = alert(&keychains, NodeIndex(1), vec![]);
    let network = Signed::sign(network, &keychains[1]).into_unchecked();
    let network = BackupItem::AlertData(AlertData::NetworkAlert(network));
    let (steps, notifications, tasks) = inject(vec![network]).expect("the backup is correct");
    assert!(matches!(steps[..], [Step::MarkForker(FORKER)]));
    // we have not raised our own alert yet
    assert_eq!(notifications, 1);
    assert_eq!(tasks, 1);

    let own = alert(&keychains, OWN, vec![]);
    let own = Signed::sign(own, &keychains[0]).into_unchecked();
    let own = BackupItem::AlertData(AlertData::OwnAlert(own));
    let (steps, notifications, tasks) = inject(vec![own]).expect("the backup is correct");
    assert!(matches!(steps[..], [Step::MarkForker(FORKER)]));
    assert_eq!(notifications, 0);
    assert_eq!(tasks, 1);
}

#[test]
fn alerts_of_others_are_not_our_own() {
    let keychains = prepare_keychains(N_MEMBERS);
    let injector = TestInjector::new(SESSION_ID, prepare_keychains(N_MEMBERS).swap_remove(OWN.0));
    let own = Signed::sign(alert(&keychains, OWN, vec![]), &keychains[0]).into_unchecked();
    let own = BackupItem::AlertData(AlertData::OwnAlert(own));
    let other = alert(&keychains, NodeIndex(1), vec![]);
    let wrongly_signed = UncheckedSigned::new(other.copy(), VerboseSignature::new(vec![], NodeIndex(1)));
    let other = Signed::sign(other, &keychains[1]).into_unchecked();
    let network = BackupItem::AlertData(AlertData::NetworkAlert(other.copy()));
    let wrongly_signed = BackupItem::AlertData(AlertData::OwnAlert(wrongly_signed));
    assert!(injector.can_restore(&vec![]));
    assert!(injector.can_restore(&units(1)));
    assert!(injector.can_restore(&vec![own, network, wrongly_signed]));
    let claimed = BackupItem::AlertData(AlertData::OwnAlert(other));
    let mut items = units(0);
    items.push(claimed);
    assert!(!injector.can_restore(&items));
}

#[test]
fn no_second_alert_after_our_own() {
    let keychains = prepare_keychains(N_MEMBERS);
    let own = Signed::sign(alert(&keychains, OWN, vec![]), &keychains[0]).into_unchecked();
    let other = alert(&keychains, NodeIndex(1), vec![]);
    let other = Signed::sign(other, &keychains[1]).into_unchecked();
    let items = vec![
        BackupItem::AlertData(AlertData::NetworkAlert(other)),
        BackupItem::AlertData(AlertData::OwnAlert(own)),
    ];
    let (_, notifications, tasks) = inject(items).expect("the backup is correct");
    assert_eq!(notifications, 0);
    assert_eq!(tasks, 2);
}

#[test]
fn confirmed_alerts_commit_to_their_units() {
    let keychains = prepare_keychains(N_MEMBERS);
    let legit = vec![fork(&keychains).0];
    let network = alert(&keychains, NodeIndex(1), legit);
    let hash = network.hash();
    let network = Signed::sign(network, &keychains[1]).into_unchecked();
    let items = vec![
        BackupItem::AlertData(AlertData::NetworkAlert(network)),
        BackupItem::AlertData(AlertData::MultisignedHash(multisigned(&keychains, hash))),
    ];
    let (steps, notifications, tasks) = inject(items).expect("the backup is correct");
    assert!(matches!(
        steps[..],
        [Step::MarkForker(FORKER), Step::AddUnit(_, true)]
    ));
    assert_eq!(notifications, 1);
    assert_eq!(tasks, 0);
    // the multisignature of an alert that is not there
    let items = vec![BackupItem::AlertData(AlertData::MultisignedHash(multisigned(
        &keychains,
        [9; 8],
    )))];
    assert!(inject(items).is_none());
}
