//! Checking units.
use aleph_bft::data::Data;
use aleph_bft::mock::hasher::Hasher64;
use aleph_bft::mock::threshold::{prepare_keychains, TestMultiKeychain};
use aleph_bft::mock::verbose::VerboseSignature;
use aleph_bft::nodes::{NodeCount, NodeIndex, NodeMap, Round, SessionId};
use aleph_bft::signed::{Signed, UncheckedSigned};
use aleph_bft::units::store::UnitStore;
use aleph_bft::units::validator::{ValidationError, Validator};
use aleph_bft::units::{ControlHash, FullUnit, PreUnit, SignedUnit, UncheckedSignedUnit, UnitCoord};

const N_MEMBERS: NodeCount = NodeCount(7);
const SESSION_ID: SessionId = 0;
const MAX_ROUND: Round = 2;

type TestError = ValidationError<Hasher64, u32, VerboseSignature>;

/// A value that shows itself as the given text.
struct Shown(String);

impl std::fmt::Debug for Shown {
    fn fmt(&self, f: &mut std::fmt::Formatter<'_>) -> std::fmt::Result {
        f.write_str(&self.0)
    }
}

#[allow(dead_code)]
#[derive(Debug)]
struct ShownUnitCoord {
    round: Round,
    creator: NodeIndex,
}

#[allow(dead_code)]
#[derive(Debug)]
struct ShownControlHash {
    parents_mask: Shown,
    combined_hash: [u8; 8],
}

#[allow(dead_code)]
#[derive(Debug)]
struct ShownPreUnit {
    coord: ShownUnitCoord,
    control_hash: ShownControlHash,
}

#[allow(dead_code)]
#[derive(Debug)]
struct ShownFullUnit {
    pre_unit: ShownPreUnit,
    data: Option<u32>,
    session_id: SessionId,
    hash: parking_lot::RwLock<Option<[u8; 8]>>,
}

#[allow(dead_code)]
#[derive(Debug)]
struct ShownVerboseSignature {
    msg: Vec<u8>,
    index: NodeIndex,
}

#[allow(dead_code)]
#[derive(Debug)]
struct ShownUncheckedSigned {
    signable: ShownFullUnit,
    signature: ShownVerboseSignature,
}

fn shown_pre_unit(unit: &PreUnit<Hasher64>) -> ShownPreUnit {
    let mask: String = (0..unit.n_members().0)
        .map(|i| if unit.control_hash().has_parent(NodeIndex(i)) { '1' } else { '0' })
        .collect();
    ShownPreUnit {
        coord: ShownUnitCoord {
            round: unit.round(),
            creator: unit.creator(),
        },
        control_hash: ShownControlHash {
            parents_mask: Shown(format!("NodeSubset({})", mask)),
            combined_hash: unit.control_hash().combined_hash(),
        },
    }
}

fn shown_full_unit(unit: &FullUnit<Hasher64, u32>) -> ShownFullUnit {
    ShownFullUnit {
        pre_unit: shown_pre_unit(unit.as_pre_unit()),
        data: *unit.data(),
        session_id: unit.session_id(),
        hash: parking_lot::RwLock::new(Some(unit.hash())),
    }
}

fn pre_unit_text(unit: &PreUnit<Hasher64>) -> String {
    format!("{:?}", shown_pre_unit(unit)).replace("Shown", "")
}

fn full_unit_text(unit: &FullUnit<Hasher64, u32>) -> String {
    format!("{:?}", shown_full_unit(unit)).replace("Shown", "")
}

fn initial_preunit(n_members: NodeCount, node_id: NodeIndex) -> PreUnit<Hasher64> {
    PreUnit::new(node_id, 0, ControlHash::new(&NodeMap::with_size(n_members)))
}

fn preunit_to_full_unit(
    preunit: PreUnit<Hasher64>,
    session_id: SessionId,
) -> FullUnit<Hasher64, u32> {
    FullUnit::new(preunit, Some(rand::random()), session_id)
}

fn random_initial_units(
    n_members: NodeCount,
    session_id: SessionId,
) -> Vec<FullUnit<Hasher64, u32>> {
    n_members
        .members()
        .into_iter()
        .map(|node_id| preunit_to_full_unit(initial_preunit(n_members, node_id), session_id))
        .collect()
}

fn random_unit_with_parents(
    creator: NodeIndex,
    parents: &[FullUnit<Hasher64, u32>],
) -> FullUnit<Hasher64, u32> {
    let representative_parent = parents.last().expect("there are parents");
    let n_members = representative_parent.as_pre_unit().n_members();
    let session_id = representative_parent.session_id();
    let round = representative_parent.round() + 1;
    let mut parent_map = NodeMap::with_size(n_members);
    for parent in parents {
        parent_map.insert(parent.creator(), parent.hash());
    }
    let control_hash = ControlHash::new(&parent_map);
    preunit_to_full_unit(PreUnit::new(creator, round, control_hash), session_id)
}

fn random_full_parent_units_up_to(
    round: Round,
    n_members: NodeCount,
    session_id: SessionId,
) -> Vec<Vec<FullUnit<Hasher64, u32>>> {
    let mut result = vec![random_initial_units(n_members, session_id)];
    for _ in 0..round {
        let units = n_members
            .members()
            .into_iter()
            .map(|node_id| {
                random_unit_with_parents(node_id, result.last().expect("previous round present"))
            })
            .collect();
        result.push(units);
    }
    result
}

fn sign(
    unit: FullUnit<Hasher64, u32>,
    keychains: &[TestMultiKeychain],
) -> SignedUnit<Hasher64, u32, VerboseSignature> {
    let creator = unit.creator();
    Signed::sign(unit, &keychains[creator.0])
}

fn check(
    keychains: &[TestMultiKeychain],
    unit: UncheckedSignedUnit<Hasher64, u32, VerboseSignature>,
) -> Result<SignedUnit<Hasher64, u32, VerboseSignature>, TestError> {
    Validator::new(
        SESSION_ID,
        &keychains[0],
        MAX_ROUND,
        N_MEMBERS,
        N_MEMBERS.consensus_threshold(),
    )
    .validate_unit(unit)
}

fn error(keychains: &[TestMultiKeychain], unit: FullUnit<Hasher64, u32>) -> TestError {
    let signed = sign(unit, keychains).into_unchecked();
    check(keychains, signed).err().expect("the unit is wrong")
}

#[test]
fn correct_units_are_accepted() {
    let keychains = prepare_keychains(N_MEMBERS);
    for units in random_full_parent_units_up_to(MAX_ROUND, N_MEMBERS, SESSION_ID) {
        for unit in units {
            let hash = unit.hash();
            let checked = check(&keychains, sign(unit, &keychains).into_unchecked());
            assert_eq!(checked.ok().expect("correct").as_signable().hash(), hash);
        }
    }
}

#[test]
fn wrongly_signed_units_are_refused() {
    let keychains = prepare_keychains(N_MEMBERS);
    let unit = random_initial_units(N_MEMBERS, SESSION_ID)[3].copy();
    let shown = ShownUncheckedSigned {
        signable: shown_full_unit(&unit),
        signature: ShownVerboseSignature {
            msg: vec![5, 6],
            index: NodeIndex(3),
        },
    };
    let text = format!("{:?}", shown).replace("Shown", "");
    let wrong = UncheckedSigned::new(unit, VerboseSignature::new(vec![5, 6], NodeIndex(3)));
    let error = check(&keychains, wrong).err().expect("the signature is wrong");
    assert!(matches!(error, ValidationError::WrongSignature(_)));
    assert_eq!(error.text(), format!("wrongly signed unit: {}", text));
}

#[test]
fn units_of_other_sessions_are_refused() {
    let keychains = prepare_keychains(N_MEMBERS);
    let unit = random_initial_units(N_MEMBERS, SESSION_ID + 12)[3].copy();
    let text = full_unit_text(&unit);
    let error = error(&keychains, unit);
    assert!(matches!(error, ValidationError::WrongSession(_)));
    assert_eq!(error.text(), format!("unit from wrong session: {}", text));
}

#[test]
fn units_of_high_rounds_are_refused() {
    let keychains = prepare_keychains(N_MEMBERS);
    let units = random_full_parent_units_up_to(MAX_ROUND + 1, N_MEMBERS, SESSION_ID);
    let error = error(&keychains, units[3][3].copy());
    assert!(matches!(error, ValidationError::RoundTooHigh(_)));
    assert_eq!(
        error.text(),
        format!("unit with too high round3: {}", full_unit_text(&units[3][3]))
    );
}

#[test]
fn units_by_nobody_are_refused() {
    let keychains = prepare_keychains(NodeCount(8));
    let unit = preunit_to_full_unit(initial_preunit(N_MEMBERS, NodeIndex(7)), SESSION_ID);
    let text = full_unit_text(&unit);
    let error = error(&keychains, unit);
    assert!(matches!(error, ValidationError::UnknownCreator(_)));
    assert_eq!(
        error.text(),
        format!("unit by nonexistent creator NodeIndex(7): {}", text)
    );
}

#[test]
fn units_for_another_committee_are_refused() {
    let keychains = prepare_keychains(N_MEMBERS);
    let unit = preunit_to_full_unit(initial_preunit(NodeCount(5), NodeIndex(3)), SESSION_ID);
    let text = pre_unit_text(unit.as_pre_unit());
    let error = error(&keychains, unit);
    assert!(matches!(error, ValidationError::WrongNumberOfMembers(_)));
    assert_eq!(
        error.text(),
        format!("wrong number of members implied by unit NodeCount(5): {}", text)
    );
}

#[test]
fn initial_units_with_parents_are_refused() {
    let keychains = prepare_keychains(N_MEMBERS);
    let mut parents = NodeMap::with_size(N_MEMBERS);
    parents.insert(NodeIndex(2), [0; 8]);
    let pre_unit = PreUnit::new(NodeIndex(3), 0, ControlHash::new(&parents));
    let text = pre_unit_text(&pre_unit);
    assert!(text.starts_with(
        "PreUnit { coord: UnitCoord { round: 0, creator: NodeIndex(3) }, control_hash: ControlHash { parents_mask: NodeSubset(0010000), combined_hash: ["
    ));
    let error = error(&keychains, preunit_to_full_unit(pre_unit, SESSION_ID));
    assert!(matches!(error, ValidationError::RoundZeroWithParents(_)));
    assert_eq!(error.text(), format!("zero round unit with parents: {}", text));
}

#[test]
fn units_with_too_few_parents_are_refused() {
    let keychains = prepare_keychains(N_MEMBERS);
    let parents = random_initial_units(N_MEMBERS, SESSION_ID);
    let few: Vec<_> = parents[..4].iter().map(|unit| unit.copy()).collect();
    let unit = random_unit_with_parents(NodeIndex(3), &few);
    let text = pre_unit_text(unit.as_pre_unit());
    let error = error(&keychains, unit);
    assert!(matches!(error, ValidationError::NotEnoughParents(_)));
    assert_eq!(
        error.text(),
        format!("nonzero round unit with only NodeCount(4) parents: {}", text)
    );
}

#[test]
fn units_without_their_predecessor_are_refused() {
    let keychains = prepare_keychains(N_MEMBERS);
    let parents = random_initial_units(N_MEMBERS, SESSION_ID);
    let others: Vec<_> = parents[..6].iter().map(|unit| unit.copy()).collect();
    let unit = random_unit_with_parents(NodeIndex(6), &others);
    let text = pre_unit_text(unit.as_pre_unit());
    let error = error(&keychains, unit);
    assert!(matches!(error, ValidationError::NotDescendantOfPreviousUnit(_)));
    assert_eq!(
        error.text(),
        format!(
            "nonzero round unit is not descendant of its creator's previous unit: {}",
            text
        )
    );
}

#[test]
fn first_unit_in_its_place_stays_canonical() {
    let keychains = prepare_keychains(N_MEMBERS);
    let mut store: UnitStore<SignedUnit<Hasher64, u32, VerboseSignature>> = UnitStore::new();
    let coord = UnitCoord::new(0, NodeIndex(3));
    let pre_unit = || initial_preunit(N_MEMBERS, NodeIndex(3));
    let first = sign(FullUnit::new(pre_unit(), Some(1), SESSION_ID), &keychains);
    let second = sign(FullUnit::new(pre_unit(), Some(2), SESSION_ID), &keychains);
    let first_hash = first.as_signable().hash();
    let second_hash = second.as_signable().hash();
    assert!(store.canonical_unit(coord).is_none());
    store.insert(first);
    store.insert(second);
    assert_eq!(store.size(), 2);
    assert_eq!(store.top_round(), 0);
    let canonical = store.canonical_unit(coord).expect("just inserted");
    assert_eq!(canonical.as_signable().hash(), first_hash);
    assert!(store.unit(&second_hash).is_some());
    assert_eq!(store.canonical_units(NodeIndex(3)).len(), 1);
    store.remove(&first_hash);
    assert!(store.unit(&first_hash).is_none());
    assert!(store.canonical_unit(coord).is_none());
}
