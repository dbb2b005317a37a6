//! Loading the backup of a session.
use aleph_bft::backup::loader::{BackupLoader as GenericBackupLoader, BackupResult, LoaderError};
use aleph_bft::codec_error::CodecError;
use aleph_bft::creation::creator::Creator;
use aleph_bft::data::Data;
use aleph_bft::mock::hasher::Hasher64;
use aleph_bft::mock::threshold::{prepare_keychains, TestMultiKeychain};
use aleph_bft::mock::verbose::VerboseSignature;
use aleph_bft::nodes::{NodeCount, NodeIndex, NodeMap, Round, SessionId};
use aleph_bft::runway::Runway;
use aleph_bft::signed::Signed;
use aleph_bft::units::validator::Validator;
use aleph_bft::units::{
    ControlHash, FullUnit, PreUnit, SignedUnit, UncheckedSignedUnit as GenericUncheckedSignedUnit,
};

type UncheckedSignedUnit = GenericUncheckedSignedUnit<Hasher64, u32, VerboseSignature>;
type BackupLoader<'a> = GenericBackupLoader<'a, Hasher64, u32, TestMultiKeychain>;

const SESSION_ID: SessionId = 43;
const NODE_ID: NodeIndex = NodeIndex(0);
const N_MEMBERS: NodeCount = NodeCount(4);
const MAX_ROUND: Round = 2137;

fn initial_preunit(n_members: NodeCount, node_id: NodeIndex) -> PreUnit<Hasher64> {
    PreUnit::new(node_id, 0, ControlHash::new(&NodeMap::with_size(n_members)))
}

fn preunit_to_full_unit(
    preunit: PreUnit<Hasher64>,
    session_id: SessionId,
) -> FullUnit<Hasher64, u32> {
    FullUnit::new(preunit, Some(rand::random()), session_id)
}

fn random_initial_units(
    n_members: NodeCount,
    session_id: SessionId,
) -> Vec<FullUnit<Hasher64, u32>> {
    n_members
        .members()
        .into_iter()
        .map(|node_id| preunit_to_full_unit(initial_preunit(n_members, node_id), session_id))
        .collect()
}

fn random_unit_with_parents(
    creator: NodeIndex,
    parents: &[FullUnit<Hasher64, u32>],
) -> FullUnit<Hasher64, u32> {
    let representative_parent = parents.last().expect("there are parents");
    let n_members = representative_parent.as_pre_unit().n_members();
    let session_id = representative_parent.session_id();
    let round = representative_parent.round() + 1;
    let mut parent_map = NodeMap::with_size(n_members);
    for parent in parents {
        parent_map.insert(parent.creator(), parent.hash());
    }
    let control_hash = ControlHash::new(&parent_map);
    preunit_to_full_unit(PreUnit::new(creator, round, control_hash), session_id)
}

fn random_full_parent_units_up_to(
    round: Round,
    n_members: NodeCount,
    session_id: SessionId,
) -> Vec<Vec<FullUnit<Hasher64, u32>>> {
    let mut result = vec![random_initial_units(n_members, session_id)];
    for _ in 0..round {
        let units = n_members
            .members()
            .into_iter()
            .map(|node_id| {
                random_unit_with_parents(node_id, result.last().expect("previous round present"))
            })
            .collect();
        result.push(units);
    }
    result
}

fn sign(
    unit: FullUnit<Hasher64, u32>,
    keychains: &[TestMultiKeychain],
) -> SignedUnit<Hasher64, u32, VerboseSignature> {
    let creator = unit.creator();
    Signed::sign(unit, &keychains[creator.0])
}

fn produce_units(rounds: Round, session_id: SessionId) -> Vec<Vec<UncheckedSignedUnit>> {
    let keychains = prepare_keychains(N_MEMBERS);
    random_full_parent_units_up_to(rounds, N_MEMBERS, session_id)
        .into_iter()
        .map(|round_units| {
            round_units
                .into_iter()
                .map(|unit| sign(unit, &keychains).into_unchecked())
                .collect()
        })
        .collect()
}

fn units_of_creator(
    units: Vec<Vec<UncheckedSignedUnit>>,
    creator: NodeIndex,
) -> Vec<UncheckedSignedUnit> {
    units
        .into_iter()
        .map(|units_per_round| units_per_round[creator.0].copy())
        .collect()
}

fn encode_all(items: &[UncheckedSignedUnit]) -> Vec<Vec<u8>> {
    items.iter().map(|u| u.encode()).collect()
}

fn prepare_loader(keychain: &TestMultiKeychain) -> BackupLoader<'_> {
    let validator = Validator::new(
        SESSION_ID,
        keychain,
        MAX_ROUND,
        N_MEMBERS,
        N_MEMBERS.consensus_threshold(),
    );
    let runway = Runway::new(keychain, validator);
    let creator = Creator::new(NODE_ID, N_MEMBERS);
    BackupLoader::new(runway, creator)
}

fn own_keychain() -> TestMultiKeychain {
    prepare_keychains(N_MEMBERS).swap_remove(NODE_ID.0)
}

#[test]
fn loads_nothing() {
    let keychain = own_keychain();
    let mut new_backup = Vec::new();
    let BackupResult {
        runway,
        creator,
        starting_round,
    } = prepare_loader(&keychain)
        .load_backup(&Vec::new(), &mut new_backup)
        .ok()
        .expect("should load correctly");
    assert_eq!(creator.current_round(), 0);
    assert_eq!(runway.store().size(), 0);
    assert_eq!(starting_round, 0);
    assert!(new_backup.is_empty());
}

#[test]
fn loads_some_units() {
    let current_round = 5;
    let items: Vec<_> = produce_units(current_round, SESSION_ID)
        .into_iter()
        .flatten()
        .collect();
    let encoded_items = encode_all(&items).into_iter().flatten().collect();
    let keychain = own_keychain();
    let mut new_backup = Vec::new();
    let BackupResult {
        runway,
        creator,
        starting_round,
    } = prepare_loader(&keychain)
        .load_backup(&encoded_items, &mut new_backup)
        .ok()
        .expect("should load correctly");
    assert_eq!(runway.store().size(), items.len());
    assert_eq!(creator.current_round(), current_round);
    assert_eq!(starting_round, current_round + 1);
    // what was loaded is saved again
    assert_eq!(new_backup.len(), items.len());
    for item in &items {
        assert!(new_backup.iter().any(|saved| saved.equals(item)));
    }
}

#[test]
fn loader_says_what_could_not_be_decoded() {
    let keychain = own_keychain();
    let items: Vec<_> = produce_units(0, SESSION_ID).into_iter().flatten().collect();
    let mut bytes = encode_all(&items).concat();
    let load = |bytes: &Vec<u8>| match prepare_loader(&keychain).load_backup(bytes, &mut Vec::new()) {
        Err(error) => error.text(),
        Ok(_) => panic!("the backup is corrupted"),
    };
    bytes.pop();
    let error = parity_scale_codec::Error::from("Not enough data to fill buffer")
        .chain("Could not decode `VerboseSignature::index`")
        .chain("Could not decode `UncheckedSigned::signature`");
    assert_eq!(
        load(&bytes),
        format!("received Codec error while decoding backup: {}", error)
    );
    let error = parity_scale_codec::Error::from("Not enough data to fill buffer")
        .chain("Could not decode `UnitCoord::round`")
        .chain("Could not decode `PreUnit::coord`")
        .chain("Could not decode `FullUnit::pre_unit`")
        .chain("Could not decode `UncheckedSigned::signable`");
    assert_eq!(
        load(&vec![7]),
        format!("received Codec error while decoding backup: {}", error)
    );
}

#[test]
fn loader_backup_with_corrupted_encoding_fails() {
    let current_round = 5;
    let items: Vec<_> = produce_units(current_round, SESSION_ID)
        .into_iter()
        .flatten()
        .collect();
    let mut item_encodings = encode_all(&items);
    let unit2_encoding_len = item_encodings[2].len();
    item_encodings[2].resize(unit2_encoding_len - 1, 0); // remove the last byte
    let encoded_items = item_encodings.into_iter().flatten().collect();
    let keychain = own_keychain();
    assert!(matches!(
        prepare_loader(&keychain).load_backup(&encoded_items, &mut Vec::new()),
        Err(LoaderError::Codec(_))
    ));
}

#[test]
fn loader_backup_with_missing_parent_fails() {
    let current_round = 5;
    let mut items: Vec<_> = produce_units(current_round, SESSION_ID)
        .into_iter()
        .flatten()
        .collect();
    items.remove(2); // it is a parent of all units of round 3
    let encoded_items = encode_all(&items).into_iter().flatten().collect();
    let keychain = own_keychain();
    assert!(matches!(
        prepare_loader(&keychain).load_backup(&encoded_items, &mut Vec::new()),
        Err(LoaderError::ReconstructionFailure(_, _))
    ));
}

#[test]
fn loader_backup_with_units_of_one_creator_fails() {
    let current_round = 5;
    let items = units_of_creator(
        produce_units(current_round, SESSION_ID),
        NodeIndex(NODE_ID.0 + 1),
    );
    let encoded_items = encode_all(&items).into_iter().flatten().collect();
    let keychain = own_keychain();
    assert!(matches!(
        prepare_loader(&keychain).load_backup(&encoded_items, &mut Vec::new()),
        Err(LoaderError::ReconstructionFailure(_, _))
    ));
}

#[test]
fn loader_backup_with_wrong_session_fails() {
    let current_round = 5;
    let items: Vec<_> = produce_units(current_round, SESSION_ID + 1)
        .into_iter()
        .flatten()
        .collect();
    let encoded_items = encode_all(&items).into_iter().flatten().collect();
    let keychain = own_keychain();
    assert!(matches!(
        prepare_loader(&keychain).load_backup(&encoded_items, &mut Vec::new()),
        Err(LoaderError::ReconstructionFailure(_, _))
    ));
}

#[test]
fn loader_errors_are_described() {
    assert_eq!(
        LoaderError::ReconstructionFailure(5, 3).text(),
        "there were 5 units saved, but only 3 got reconstructed"
    );
    assert_eq!(
        LoaderError::IORead("gone".to_string()).text(),
        "received IO error while reading from backup source: gone"
    );
    assert_eq!(
        LoaderError::IOWrite("full".to_string()).text(),
        "received IO error while writing to new backup: full"
    );
    assert_eq!(
        LoaderError::Codec(CodecError::new("root cause".to_string())).text(),
        "received Codec error while decoding backup: root cause"
    );
    assert_eq!(
        LoaderError::AlertsUnimplemented.text(),
        "attempted to load backup with forks, this is not yet implemented"
    );
}

#[test]
fn loader_notices_that_no_round_is_left() {
    let keychains = prepare_keychains(N_MEMBERS);
    let keychain = own_keychain();
    let items: Vec<_> = produce_units(1, SESSION_ID).into_iter().flatten().collect();
    let bytes: Vec<u8> = encode_all(&items).into_iter().flatten().collect();
    assert!(prepare_loader(&keychain).has_rounds_left(&bytes));
    let control_hash = ControlHash::new(&NodeMap::with_size(N_MEMBERS));
    let pre_unit = PreUnit::new(NODE_ID, Round::MAX, control_hash.copy());
    let last = sign(preunit_to_full_unit(pre_unit, SESSION_ID), &keychains);
    assert!(!prepare_loader(&keychain).has_rounds_left(&last.into_unchecked().encode()));
    let pre_unit = PreUnit::new(NodeIndex(NODE_ID.0 + 1), Round::MAX, control_hash);
    let other = sign(preunit_to_full_unit(pre_unit, SESSION_ID), &keychains);
    assert!(prepare_loader(&keychain).has_rounds_left(&other.into_unchecked().encode()));
    assert!(prepare_loader(&keychain).has_rounds_left(&vec![1]));
}
