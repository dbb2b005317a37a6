//! Alerts about forks.
use aleph_bft::alerts::handler::Handler;
use aleph_bft::alerts::{
    Alert, AlertConfig, AlertMessage, AlerterResponse, ForkProof, ForkingNotification, Recipient,
};
use aleph_bft::data::Data;
use aleph_bft::mock::hasher::{Hash64, Hasher64};
use aleph_bft::mock::threshold::{prepare_keychains, TestMultiKeychain};
use aleph_bft::mock::verbose::{VerbosePartialMultisignature, VerboseSignature};
use aleph_bft::nodes::{NodeCount, NodeIndex, NodeMap, Round};
use aleph_bft::rmc::Message as RmcMessage;
use aleph_bft::signed::{Indexed, PartiallyMultisigned, Signed, UncheckedSigned};
use aleph_bft::units::{ControlHash, FullUnit, PreUnit};

type TestForkProof = ForkProof<Hasher64, u32, VerboseSignature>;
type TestAlert = Alert<Hasher64, u32, VerboseSignature>;
type TestHandler = Handler<Hasher64, u32, TestMultiKeychain>;
type SignedAlert = UncheckedSigned<TestAlert, VerboseSignature>;
type Response = AlerterResponse<Hasher64, u32, VerboseSignature, VerbosePartialMultisignature>;
type SignedHash = Signed<Indexed<Hash64>, VerboseSignature>;

fn full_unit(
    n_members: NodeCount,
    node_id: NodeIndex,
    round: Round,
    variant: Option<u32>,
) -> FullUnit<Hasher64, u32> {
    FullUnit::new(
        PreUnit::new(
            node_id,
            round,
            ControlHash::new(&NodeMap::with_size(n_members)),
        ),
        variant,
        0,
    )
}

/// Fabricates proof of a fork by a particular node, given its private key.
fn make_fork_proof(
    node_id: NodeIndex,
    keychain: &TestMultiKeychain,
    round: Round,
    n_members: NodeCount,
) -> TestForkProof {
    let unit_0 = full_unit(n_members, node_id, round, Some(0));
    let unit_1 = full_unit(n_members, node_id, round, Some(1));
    let signed_unit_0 = Signed::sign(unit_0, keychain).into_unchecked();
    let signed_unit_1 = Signed::sign(unit_1, keychain).into_unchecked();
    (signed_unit_0, signed_unit_1)
}

fn handler(n_members: NodeCount, own_index: NodeIndex, session_id: u64) -> TestHandler {
    let keychain = prepare_keychains(n_members).swap_remove(own_index.0);
    Handler::new(
        keychain,
        AlertConfig {
            n_members,
            session_id,
        },
    )
}

fn is_forker_response(response: Option<Response>, fork_proof: &TestForkProof, hash: Hash64) -> bool {
    match response {
        Some(AlerterResponse::ForkResponse(Some(ForkingNotification::Forker(reported)), h)) => {
            reported.equals(fork_proof) && h == hash
        }
        _ => false,
    }
}

fn is_rmc_response(
    response: Option<Response>,
    expected: &RmcMessage<Hash64, VerboseSignature, VerbosePartialMultisignature>,
) -> bool {
    match response {
        Some(AlerterResponse::RmcMessage(message)) => message.equals(expected),
        _ => false,
    }
}

fn is_alert_response(response: Option<Response>, expected: &SignedAlert, to: Recipient) -> bool {
    match response {
        Some(AlerterResponse::ForkAlert(alert, recipient)) => {
            alert.equals(expected) && recipient == to
        }
        _ => false,
    }
}

#[test]
fn distributes_alert_from_units() {
    let n_members = NodeCount(7);
    let own_index = NodeIndex(0);
    let forker_index = NodeIndex(6);
    let keychains = prepare_keychains(n_members);
    let mut this = handler(n_members, own_index, 0);
    let fork_proof = make_fork_proof(forker_index, &keychains[forker_index.0], 0, n_members);
    let alert = Alert::new(own_index, fork_proof, vec![]);
    let signed_alert = Signed::sign(alert.copy(), &keychains[own_index.0]).into_unchecked();
    let alert_hash = alert.hash();
    let (message, recipient, hash) = this.on_own_alert(alert);
    match message {
        AlertMessage::ForkAlert(sent) => assert!(sent.equals(&signed_alert)),
        _ => panic!("The message is not an alert."),
    }
    assert_eq!(recipient, Recipient::Everyone);
    assert_eq!(hash, alert_hash);
}

#[test]
fn reacts_to_correctly_incoming_alert() {
    let n_members = NodeCount(7);
    let own_index = NodeIndex(1);
    let forker_index = NodeIndex(6);
    let keychains = prepare_keychains(n_members);
    let mut this = handler(n_members, own_index, 0);
    let fork_proof = make_fork_proof(forker_index, &keychains[forker_index.0], 0, n_members);
    let alert = Alert::new(own_index, fork_proof.copy(), vec![]);
    let alert_hash = alert.hash();
    let signed_alert = Signed::sign(alert, &keychains[own_index.0]).into_unchecked();
    match this.on_network_alert(signed_alert) {
        Some((Some(ForkingNotification::Forker(reported)), hash)) => {
            assert!(reported.equals(&fork_proof));
            assert_eq!(hash, alert_hash);
        }
        _ => panic!("The forker was not reported."),
    }
}

#[test]
fn asks_about_unknown_alert() {
    let n_members = NodeCount(7);
    let own_index = NodeIndex(0);
    let alerter_index = NodeIndex(1);
    let forker_index = NodeIndex(6);
    let keychains = prepare_keychains(n_members);
    let mut this = handler(n_members, own_index, 0);
    let fork_proof = make_fork_proof(forker_index, &keychains[forker_index.0], 0, n_members);
    let alert: TestAlert = Alert::new(alerter_index, fork_proof, vec![]);
    let alert_hash = alert.hash();
    let signed_alert_hash: SignedHash =
        Signed::sign_with_index(alert_hash, &keychains[alerter_index.0]);
    let message = AlertMessage::RmcMessage(
        alerter_index,
        RmcMessage::SignedHash(signed_alert_hash.into_unchecked()),
    );
    match this.on_message(message) {
        Some(AlerterResponse::AlertRequest(hash, recipient)) => {
            assert_eq!(hash, alert_hash);
            assert_eq!(recipient, Recipient::Node(alerter_index));
        }
        _ => panic!("The alert was not asked for."),
    }
}

#[test]
fn ignores_wrong_alert() {
    let n_members = NodeCount(7);
    let own_index = NodeIndex(0);
    let alerter_index = NodeIndex(1);
    let forker_index = NodeIndex(6);
    let keychains = prepare_keychains(n_members);
    let mut this = handler(n_members, own_index, 0);
    let valid_unit = Signed::sign(
        full_unit(n_members, alerter_index, 0, Some(0)),
        &keychains[alerter_index.0],
    )
    .into_unchecked();
    let wrong_fork_proof = (valid_unit.copy(), valid_unit);
    let wrong_alert = Alert::new(forker_index, wrong_fork_proof, vec![]);
    let signed_wrong_alert =
        Signed::sign(wrong_alert, &keychains[forker_index.0]).into_unchecked();
    assert!(this
        .on_message(AlertMessage::ForkAlert(signed_wrong_alert))
        .is_none());
}

#[test]
fn responds_to_alert_queries() {
    let n_members = NodeCount(7);
    let own_index = NodeIndex(0);
    let forker_index = NodeIndex(6);
    let keychains = prepare_keychains(n_members);
    let mut this = handler(n_members, own_index, 0);
    let alert = Alert::new(
        own_index,
        make_fork_proof(forker_index, &keychains[forker_index.0], 0, n_members),
        vec![],
    );
    let alert_hash = alert.hash();
    let signed_alert = Signed::sign(alert, &keychains[own_index.0]).into_unchecked();
    this.on_message(AlertMessage::ForkAlert(signed_alert.copy()));
    for i in 1..n_members.0 {
        let node_id = NodeIndex(i);
        assert!(is_alert_response(
            this.on_message(AlertMessage::AlertRequest(node_id, alert_hash)),
            &signed_alert,
            Recipient::Node(node_id),
        ));
    }
}

#[test]
fn ignores_queries_for_unknown_alerts() {
    let mut this = handler(NodeCount(7), NodeIndex(0), 0);
    assert!(this
        .on_message(AlertMessage::AlertRequest(NodeIndex(3), [7; 8]))
        .is_none());
}

fn alert_of_double_committer(n_members: NodeCount, signers: usize) {
    let own_index = NodeIndex(0);
    let other_honest_node = NodeIndex(1);
    let double_committer = NodeIndex(5);
    let forker_index = NodeIndex(6);
    let keychains = prepare_keychains(n_members);
    let mut this = handler(n_members, own_index, 0);
    let fork_proof = make_fork_proof(forker_index, &keychains[forker_index.0], 0, n_members);
    let empty_alert = Alert::new(double_committer, fork_proof.copy(), vec![]);
    let empty_alert_hash = empty_alert.hash();
    let signed_empty_alert =
        Signed::sign(empty_alert, &keychains[double_committer.0]).into_unchecked();
    assert!(is_forker_response(
        this.on_message(AlertMessage::ForkAlert(signed_empty_alert)),
        &fork_proof,
        empty_alert_hash,
    ));
    let signed_empty_alert_hash: SignedHash =
        Signed::sign_with_index(empty_alert_hash, &keychains[double_committer.0]);
    let multisigned_empty_alert_hash = PartiallyMultisigned::sign(
        signed_empty_alert_hash
            .into_unchecked()
            .check(&keychains[double_committer.0])
            .ok()
            .expect("the signature is correct"),
        &keychains[double_committer.0],
    );
    let message = RmcMessage::MultisignedHash(multisigned_empty_alert_hash.into_unchecked());
    assert!(is_rmc_response(
        this.on_message(AlertMessage::RmcMessage(other_honest_node, message.copy())),
        &message,
    ));
    let forker_unit = fork_proof.0.copy();
    let nonempty_alert = Alert::new(double_committer, fork_proof, vec![forker_unit]);
    let nonempty_alert_hash = nonempty_alert.hash();
    let signed_nonempty_alert =
        Signed::sign(nonempty_alert, &keychains[double_committer.0]).into_unchecked();
    let signed_nonempty_alert_hash: SignedHash =
        Signed::sign_with_index(nonempty_alert_hash, &keychains[double_committer.0]);
    let mut multisigned_nonempty_alert_hash = PartiallyMultisigned::sign(
        signed_nonempty_alert_hash
            .into_unchecked()
            .check(&keychains[double_committer.0])
            .ok()
            .expect("the signature is correct"),
        &keychains[double_committer.0],
    );
    for i in 1..signers {
        let node_id = NodeIndex(i);
        let signed_nonempty_alert_hash: SignedHash =
            Signed::sign_with_index(nonempty_alert_hash, &keychains[node_id.0]);
        multisigned_nonempty_alert_hash = multisigned_nonempty_alert_hash.add_signature(
            signed_nonempty_alert_hash
                .into_unchecked()
                .check(&keychains[double_committer.0])
                .ok()
                .expect("the signature is correct"),
            &keychains[double_committer.0],
        );
    }
    let message = RmcMessage::MultisignedHash(multisigned_nonempty_alert_hash.into_unchecked());
    assert!(this
        .on_message(AlertMessage::ForkAlert(signed_nonempty_alert))
        .is_none());
    assert!(is_rmc_response(
        this.on_message(AlertMessage::RmcMessage(other_honest_node, message.copy())),
        &message,
    ));
}

#[test]
fn notifies_only_about_multisigned_alert() {
    let n_members = NodeCount(7);
    alert_of_double_committer(n_members, n_members.0 - 2);
}

#[test]
fn ignores_insufficiently_multisigned_alert() {
    alert_of_double_committer(NodeCount(7), 3);
}

#[test]
fn single_signatures_under_a_second_alert_are_dropped() {
    let n_members = NodeCount(7);
    let double_committer = NodeIndex(5);
    let keychains = prepare_keychains(n_members);
    let mut this = handler(n_members, NodeIndex(0), 0);
    let fork_proof = make_fork_proof(NodeIndex(6), &keychains[6], 0, n_members);
    let first = Alert::new(double_committer, fork_proof.copy(), vec![]);
    let second = Alert::new(double_committer, fork_proof.copy(), vec![fork_proof.0.copy()]);
    let second_hash = second.hash();
    this.on_message(AlertMessage::ForkAlert(
        Signed::sign(first, &keychains[double_committer.0]).into_unchecked(),
    ));
    this.on_message(AlertMessage::ForkAlert(
        Signed::sign(second, &keychains[double_committer.0]).into_unchecked(),
    ));
    let signed_hash: SignedHash = Signed::sign_with_index(second_hash, &keychains[1]);
    let message = RmcMessage::SignedHash(signed_hash.into_unchecked());
    assert!(this
        .on_message(AlertMessage::RmcMessage(NodeIndex(1), message))
        .is_none());
}

#[test]
fn who_is_forking_ok() {
    let n_members = NodeCount(7);
    let forker_index = NodeIndex(6);
    let keychains = prepare_keychains(n_members);
    let this = handler(n_members, NodeIndex(0), 0);
    let fork_proof = make_fork_proof(forker_index, &keychains[forker_index.0], 0, n_members);
    assert_eq!(this.who_is_forking(&fork_proof), Some(forker_index));
}

#[test]
fn order_of_units_in_a_proof_does_not_matter() {
    let n_members = NodeCount(7);
    let keychains = prepare_keychains(n_members);
    let this = handler(n_members, NodeIndex(0), 0);
    let (first, second) = make_fork_proof(NodeIndex(6), &keychains[6], 0, n_members);
    assert_eq!(
        this.who_is_forking(&(first.copy(), second.copy())),
        this.who_is_forking(&(second, first.copy()))
    );
    // one unit, twice, proves nothing
    assert_eq!(this.who_is_forking(&(first.copy(), first)), None);
}

#[test]
fn who_is_forking_wrong_session() {
    let n_members = NodeCount(7);
    let forker_index = NodeIndex(6);
    let keychains = prepare_keychains(n_members);
    let this = handler(n_members, NodeIndex(0), 1);
    let fork_proof = make_fork_proof(forker_index, &keychains[forker_index.0], 0, n_members);
    assert_eq!(this.who_is_forking(&fork_proof), None);
}

#[test]
fn who_is_forking_different_creators() {
    let n_members = NodeCount(7);
    let keychains = prepare_keychains(n_members);
    let this = handler(n_members, NodeIndex(0), 1);
    let fork_proof = {
        let unit_0 = full_unit(n_members, NodeIndex(6), 0, Some(0));
        let unit_1 = full_unit(n_members, NodeIndex(5), 0, Some(0));
        let signed_unit_0 = Signed::sign(unit_0, &keychains[6]).into_unchecked();
        let signed_unit_1 = Signed::sign(unit_1, &keychains[5]).into_unchecked();
        (signed_unit_0, signed_unit_1)
    };
    assert_eq!(this.who_is_forking(&fork_proof), None);
    let this = handler(n_members, NodeIndex(0), 0);
    assert_eq!(this.who_is_forking(&fork_proof), None);
}

#[test]
fn who_is_forking_different_rounds() {
    let n_members = NodeCount(7);
    let forker_index = NodeIndex(6);
    let keychains = prepare_keychains(n_members);
    let this = handler(n_members, NodeIndex(0), 0);
    let fork_proof = {
        let unit_0 = full_unit(n_members, forker_index, 0, Some(0));
        let unit_1 = full_unit(n_members, forker_index, 1, Some(0));
        let signed_unit_0 = Signed::sign(unit_0, &keychains[forker_index.0]).into_unchecked();
        let signed_unit_1 = Signed::sign(unit_1, &keychains[forker_index.0]).into_unchecked();
        (signed_unit_0, signed_unit_1)
    };
    assert_eq!(this.who_is_forking(&fork_proof), None);
}

#[test]
fn nobody_forks_with_a_signature_of_somebody_else() {
    let n_members = NodeCount(7);
    let keychains = prepare_keychains(n_members);
    let this = handler(n_members, NodeIndex(0), 0);
    let unit_0 = full_unit(n_members, NodeIndex(6), 0, Some(0));
    let unit_1 = full_unit(n_members, NodeIndex(6), 0, Some(1));
    let right = Signed::sign(unit_0, &keychains[6]).into_unchecked();
    let signature = VerboseSignature::new(vec![1, 2, 3], NodeIndex(6));
    let wrong = UncheckedSigned::new(unit_1, signature);
    assert_eq!(this.who_is_forking(&(right, wrong)), None);
}

#[test]
fn alert_confirmed_out_of_the_blue() {
    alert_confirmed(false, true);
}

#[test]
fn alert_confirmed_bad_commitment() {
    alert_confirmed(true, false);
}

#[test]
fn alert_confirmed_correct() {
    alert_confirmed(true, true);
}

fn alert_confirmed(make_known: bool, good_commitment: bool) {
    let n_members = NodeCount(7);
    let own_index = NodeIndex(1);
    let forker_index = NodeIndex(6);
    let keychains = prepare_keychains(n_members);
    let mut this = handler(n_members, own_index, 0);
    let fork_proof = if good_commitment {
        make_fork_proof(forker_index, &keychains[forker_index.0], 0, n_members)
    } else {
        let unit_0 = full_unit(n_members, forker_index, 0, Some(0));
        let unit_1 = full_unit(n_members, forker_index, 1, Some(1));
        let signed_unit_0 = Signed::sign(unit_0, &keychains[forker_index.0]).into_unchecked();
        let signed_unit_1 = Signed::sign(unit_1, &keychains[forker_index.0]).into_unchecked();
        (signed_unit_0, signed_unit_1)
    };
    let alert = Alert::new(own_index, fork_proof, vec![]);
    let alert_hash = alert.hash();
    let signed_alert = Signed::sign(alert, &keychains[own_index.0]).into_unchecked();
    if make_known {
        this.on_network_alert(signed_alert);
    }
    let signed_alert_hash: SignedHash =
        Signed::sign_with_index(alert_hash, &keychains[own_index.0]);
    let mut multisigned_alert_hash = PartiallyMultisigned::sign(
        signed_alert_hash
            .into_unchecked()
            .check(&keychains[forker_index.0])
            .ok()
            .expect("the signature is correct"),
        &keychains[own_index.0],
    );
    for i in 1..n_members.0 - 1 {
        let node_id = NodeIndex(i);
        let signed_alert_hash: SignedHash =
            Signed::sign_with_index(alert_hash, &keychains[node_id.0]);
        multisigned_alert_hash = multisigned_alert_hash.add_signature(
            signed_alert_hash
                .into_unchecked()
                .check(&keychains[forker_index.0])
                .ok()
                .expect("the signature is correct"),
            &keychains[forker_index.0],
        );
    }
    assert!(multisigned_alert_hash.is_complete());
    let multisigned_alert_hash = match multisigned_alert_hash {
        PartiallyMultisigned::Complete(multisigned) => multisigned,
        PartiallyMultisigned::Incomplete(_) => unreachable!(),
    };
    match this.alert_confirmed(multisigned_alert_hash) {
        Some(ForkingNotification::Units(units)) => {
            assert!(make_known && good_commitment);
            assert!(units.is_empty());
        }
        Some(_) => panic!("The notification is not about units."),
        None => assert!(!(make_known && good_commitment)),
    }
}

#[test]
fn handlers_start_without_the_end_in_sight() {
    let mut this = handler(NodeCount(7), NodeIndex(0), 0);
    assert!(!this.exiting);
    this.exiting = true;
    assert!(this.exiting);
}
