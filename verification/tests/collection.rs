//! Collecting our newest units from others.
use aleph_bft::data::Data;
use aleph_bft::mock::hasher::Hasher64;
use aleph_bft::mock::threshold::{prepare_keychains, TestMultiKeychain};
use aleph_bft::mock::verbose::VerboseSignature;
use aleph_bft::nodes::{NodeCount, NodeIndex, NodeMap, Round, SessionId};
use aleph_bft::runway::collection::{
    Collection, Decision, Error, Event, NewestUnitResponse, Salt, IO,
};
use aleph_bft::signed::{Signed, UncheckedSigned};
use aleph_bft::units::validator::{ValidationError, Validator};
use aleph_bft::units::{ControlHash, FullUnit, PreUnit, SignedUnit, UncheckedSignedUnit};

const N_MEMBERS: NodeCount = NodeCount(7);
const SESSION_ID: SessionId = 0;
const OWN: NodeIndex = NodeIndex(0);

type TestResponse = UncheckedSigned<NewestUnitResponse<Hasher64, u32, VerboseSignature>, VerboseSignature>;
type TestUnit = UncheckedSignedUnit<Hasher64, u32, VerboseSignature>;

fn initial_preunit(n_members: NodeCount, node_id: NodeIndex) -> PreUnit<Hasher64> {
    PreUnit::new(node_id, 0, ControlHash::new(&NodeMap::with_size(n_members)))
}

fn preunit_to_full_unit(
    preunit: PreUnit<Hasher64>,
    session_id: SessionId,
) -> FullUnit<Hasher64, u32> {
    FullUnit::new(preunit, Some(rand::random()), session_id)
}

fn random_initial_units(
    n_members: NodeCount,
    session_id: SessionId,
) -> Vec<FullUnit<Hasher64, u32>> {
    n_members
        .members()
        .into_iter()
        .map(|node_id| preunit_to_full_unit(initial_preunit(n_members, node_id), session_id))
        .collect()
}

fn random_unit_with_parents(
    creator: NodeIndex,
    parents: &[FullUnit<Hasher64, u32>],
) -> FullUnit<Hasher64, u32> {
    let representative_parent = parents.last().expect("there are parents");
    let n_members = representative_parent.as_pre_unit().n_members();
    let session_id = representative_parent.session_id();
    let round = representative_parent.round() + 1;
    let mut parent_map = NodeMap::with_size(n_members);
    for parent in parents {
        parent_map.insert(parent.creator(), parent.hash());
    }
    let control_hash = ControlHash::new(&parent_map);
    preunit_to_full_unit(PreUnit::new(creator, round, control_hash), session_id)
}

fn random_full_parent_units_up_to(
    round: Round,
    n_members: NodeCount,
    session_id: SessionId,
) -> Vec<Vec<FullUnit<Hasher64, u32>>> {
    let mut result = vec![random_initial_units(n_members, session_id)];
    for _ in 0..round {
        let units = n_members
            .members()
            .into_iter()
            .map(|node_id| {
                random_unit_with_parents(node_id, result.last().expect("previous round present"))
            })
            .collect();
        result.push(units);
    }
    result
}

fn sign(
    unit: FullUnit<Hasher64, u32>,
    keychains: &[TestMultiKeychain],
) -> SignedUnit<Hasher64, u32, VerboseSignature> {
    let creator = unit.creator();
    Signed::sign(unit, &keychains[creator.0])
}

fn validator(keychain: &TestMultiKeychain) -> Validator<'_, TestMultiKeychain> {
    Validator::new(
        SESSION_ID,
        keychain,
        100,
        N_MEMBERS,
        N_MEMBERS.consensus_threshold(),
    )
}

fn response(
    keychains: &[TestMultiKeychain],
    responder: NodeIndex,
    unit: Option<TestUnit>,
    salt: Salt,
) -> TestResponse {
    let response = NewestUnitResponse::new(OWN, responder, unit, salt);
    Signed::sign(response, &keychains[responder.0]).into_unchecked()
}

fn unit(keychains: &[TestMultiKeychain], creator: NodeIndex, round: Round) -> TestUnit {
    let units = random_full_parent_units_up_to(round, N_MEMBERS, SESSION_ID);
    sign(units[round as usize][creator.0].copy(), keychains).into_unchecked()
}

#[test]
fn starts_after_the_newest_unit_once_enough_have_answered() {
    let keychains = prepare_keychains(N_MEMBERS);
    let validator = validator(&keychains[0]);
    let threshold = N_MEMBERS.consensus_threshold();
    let mut collection = Collection::with_salt(&keychains[0], &validator, threshold, 17);
    assert_eq!(collection.salt(), 17);
    assert_eq!(collection.starting_round(), None);
    let rounds = [None, Some(3), Some(1), None];
    for (i, round) in rounds.into_iter().enumerate() {
        assert_eq!(collection.starting_round(), None);
        let unit = round.map(|round| unit(&keychains, OWN, round));
        let response = response(&keychains, NodeIndex(i + 1), unit, 17);
        assert!(collection.on_newest_response(response).is_ok());
    }
    assert_eq!(collection.starting_round(), Some(4));
}

#[test]
fn nobody_is_counted_twice() {
    let keychains = prepare_keychains(N_MEMBERS);
    let validator = validator(&keychains[0]);
    let mut collection = Collection::with_salt(&keychains[0], &validator, NodeCount(3), 17);
    for _ in 0..3 {
        let response = response(&keychains, NodeIndex(1), None, 17);
        assert!(collection.on_newest_response(response).is_ok());
    }
    assert_eq!(collection.starting_round(), None);
    let response = response(&keychains, NodeIndex(2), None, 17);
    assert!(collection.on_newest_response(response).is_ok());
    assert_eq!(collection.starting_round(), Some(0));
}

#[test]
fn order_of_responses_does_not_matter() {
    let keychains = prepare_keychains(N_MEMBERS);
    let validator = validator(&keychains[0]);
    let first = || response(&keychains, NodeIndex(1), Some(unit(&keychains, OWN, 2)), 17);
    let second = || response(&keychains, NodeIndex(2), Some(unit(&keychains, OWN, 1)), 17);
    let mut collection = Collection::with_salt(&keychains[0], &validator, NodeCount(3), 17);
    assert!(collection.on_newest_response(first()).is_ok());
    assert!(collection.on_newest_response(second()).is_ok());
    let mut other = Collection::with_salt(&keychains[0], &validator, NodeCount(3), 17);
    assert!(other.on_newest_response(second()).is_ok());
    assert!(other.on_newest_response(first()).is_ok());
    assert_eq!(collection.starting_round(), Some(3));
    assert_eq!(other.starting_round(), Some(3));
}

#[test]
fn wrong_responses_are_refused() {
    let keychains = prepare_keychains(N_MEMBERS);
    let validator = validator(&keychains[0]);
    let mut collection = Collection::with_salt(&keychains[0], &validator, NodeCount(2), 17);

    let wrong = NewestUnitResponse::<Hasher64, u32, _>::new(OWN, NodeIndex(1), None, 17);
    let wrong = UncheckedSigned::new(wrong, VerboseSignature::new(vec![], NodeIndex(1)));
    let error = collection.on_newest_response(wrong).expect_err("wrongly signed");
    assert!(matches!(error, Error::WrongSignature));
    assert_eq!(error.text(), "wrong signature");

    let wrong = response(&keychains, NodeIndex(1), None, 18);
    let error = collection.on_newest_response(wrong).expect_err("wrong salt");
    assert!(matches!(error, Error::SaltMismatch(17, 18)));
    assert_eq!(error.text(), "mismatched salt, expected 17, got 18");

    let foreign = unit(&keychains, NodeIndex(2), 0);
    let wrong = response(&keychains, NodeIndex(1), Some(foreign), 17);
    let error = collection.on_newest_response(wrong).expect_err("foreign unit");
    assert!(matches!(error, Error::ForeignUnit(NodeIndex(2))));
    assert_eq!(error.text(), "unit from node NodeIndex(2)");

    let other_session = random_full_parent_units_up_to(0, N_MEMBERS, SESSION_ID + 1)[0][0].copy();
    let text = other_session.debug();
    let other_session = sign(other_session, &keychains).into_unchecked();
    let wrong = response(&keychains, NodeIndex(1), Some(other_session), 17);
    let error = collection.on_newest_response(wrong).expect_err("wrong session");
    assert!(matches!(
        error,
        Error::InvalidUnit(ValidationError::WrongSession(_))
    ));
    assert_eq!(
        error.text(),
        format!("invalid unit: unit from wrong session: {}", text)
    );
    assert_eq!(collection.starting_round(), None);
}

#[test]
fn salts_differ() {
    let keychains = prepare_keychains(N_MEMBERS);
    let validator = validator(&keychains[0]);
    let (collection, salt) = Collection::new(&keychains[0], &validator, NodeCount(2));
    assert_eq!(collection.salt(), salt);
    assert!((0..50).any(|_| Collection::new(&keychains[0], &validator, NodeCount(2)).1 != salt));
}

#[test]
fn collection_waits_a_while_for_more() {
    let keychains = prepare_keychains(N_MEMBERS);
    let validator = validator(&keychains[0]);
    let collection = Collection::with_salt(&keychains[0], &validator, NodeCount(2), 17);
    let mut io = IO::new(collection);
    assert_eq!(io.salt(), 17);
    let wrong = response(&keychains, NodeIndex(1), None, 18);
    assert!(matches!(
        io.on_event(Event::Response(wrong)),
        Decision::Ignore(Error::SaltMismatch(17, 18))
    ));
    let first = response(&keychains, NodeIndex(1), Some(unit(&keychains, OWN, 2)), 17);
    let decision = io.on_event(Event::Response(first));
    let early = matches!(decision, Decision::Start(_));
    assert!(early || matches!(decision, Decision::Wait));
    if !early {
        let caught_up: Event<Hasher64, u32, VerboseSignature> = Event::CaughtUp;
        assert!(matches!(io.on_event(caught_up), Decision::Start(3)));
    }
    let closed: Event<Hasher64, u32, VerboseSignature> = Event::Closed;
    let collection = Collection::with_salt(&keychains[0], &validator, NodeCount(2), 17);
    assert!(matches!(IO::new(collection).on_event(closed), Decision::Stop));
}

#[test]
fn responses_keep_their_contents() {
    let keychains = prepare_keychains(N_MEMBERS);
    let unit = unit(&keychains, OWN, 0);
    let response = NewestUnitResponse::new(OWN, NodeIndex(3), Some(unit.copy()), 17);
    assert_eq!(response.requester(), OWN);
    assert!(response.included_unit().equals(&Some(unit.copy())));
    assert_eq!(response.included_data(), unit.as_signable().included_data());
    let encoded = response.encode();
    let (decoded, _) = NewestUnitResponse::<Hasher64, u32, VerboseSignature>::decode(&encoded, 0)
        .expect("should decode correctly");
    assert!(decoded.equals(&response));
}

fn last_unit(keychains: &[TestMultiKeychain]) -> TestUnit {
    let parents = random_initial_units(N_MEMBERS, SESSION_ID);
    let mut parent_map = NodeMap::with_size(N_MEMBERS);
    for parent in &parents {
        parent_map.insert(parent.creator(), parent.hash());
    }
    let pre_unit = PreUnit::new(OWN, Round::MAX, ControlHash::new(&parent_map));
    sign(preunit_to_full_unit(pre_unit, SESSION_ID), keychains).into_unchecked()
}

#[test]
fn only_a_correct_unit_of_the_last_round_cannot_be_processed() {
    let keychains = prepare_keychains(N_MEMBERS);
    let threshold = N_MEMBERS.consensus_threshold();
    let strict = validator(&keychains[0]);
    let mut collection = Collection::with_salt(&keychains[0], &strict, threshold, 17);
    let late = response(&keychains, NodeIndex(1), Some(last_unit(&keychains)), 17);
    assert!(collection.can_process(&late));
    assert!(matches!(
        collection.on_newest_response(late),
        Err(Error::InvalidUnit(ValidationError::RoundTooHigh(_)))
    ));
    let lenient = Validator::new(SESSION_ID, &keychains[0], Round::MAX, N_MEMBERS, threshold);
    let mut collection = Collection::with_salt(&keychains[0], &lenient, threshold, 17);
    let late = response(&keychains, NodeIndex(1), Some(last_unit(&keychains)), 17);
    assert!(!collection.can_process(&late));
    assert!(!IO::new(Collection::with_salt(&keychains[0], &lenient, threshold, 17)).can_process(&late));
    let salted = response(&keychains, NodeIndex(1), Some(last_unit(&keychains)), 18);
    assert!(collection.can_process(&salted));
    assert!(matches!(
        collection.on_newest_response(salted),
        Err(Error::SaltMismatch(17, 18))
    ));
    let early = response(&keychains, NodeIndex(1), Some(unit(&keychains, OWN, 2)), 17);
    assert!(collection.can_process(&early));
    assert!(collection.on_newest_response(early).is_ok());
}
