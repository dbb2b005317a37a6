//! Reading and writing backups.
use aleph_bft::backup::saver::{BackupSaver, Decision, Event, SaverService};
use aleph_bft::codec_error::CodecError;
use aleph_bft::creation::creator::Creator;
use aleph_bft::dag::unit::DagUnit;
use aleph_bft::data::{decode_all, Data};
use aleph_bft::mock::hasher::Hasher64;
use aleph_bft::mock::threshold::{prepare_keychains, TestMultiKeychain};
use aleph_bft::mock::verbose::{VerbosePartialMultisignature, VerboseSignature};
use aleph_bft::nodes::{NodeCount, NodeIndex, NodeMap, Round, SessionId};
use aleph_bft::runway::backup::{
    announce, load, load_backup, starting_round, BackupItem, BackupReadError, BackupWriter, Loaded,
    LoadingError, SavedFor,
};
use aleph_bft::runway::loading::{Decision as LoadingDecision, Event as LoadingEvent, Loading};
use aleph_bft::runway::saving::{Decision as SavingDecision, Event as SavingEvent, Saving};
use aleph_bft::signed::Signed;
use aleph_bft::units::{
    FullUnit, PreUnit, UncheckedSignedUnit as GenericUncheckedSignedUnit, UnitCoord,
};

type UncheckedSignedUnit = GenericUncheckedSignedUnit<Hasher64, u32, VerboseSignature>;
type TestBackupItem = BackupItem<Hasher64, u32, VerboseSignature, VerbosePartialMultisignature>;
type TestUnit = DagUnit<Hasher64, u32, VerboseSignature>;

const SESSION_ID: SessionId = 43;
const NODE_ID: NodeIndex = NodeIndex(0);
const N_MEMBERS: NodeCount = NodeCount(4);

fn creator_set(n_members: NodeCount) -> Vec<Creator<Hasher64>> {
    (0..n_members.0)
        .map(|i| Creator::new(NodeIndex(i), n_members))
        .collect()
}

fn full_unit(pre_unit: PreUnit<Hasher64>, session_id: SessionId) -> FullUnit<Hasher64, u32> {
    FullUnit::new(pre_unit, Some(0), session_id)
}

fn sign(unit: FullUnit<Hasher64, u32>, keychain: &TestMultiKeychain) -> UncheckedSignedUnit {
    Signed::sign(unit, keychain).into_unchecked()
}

fn produce_units(rounds: usize, session_id: SessionId) -> Vec<Vec<UncheckedSignedUnit>> {
    let mut creators = creator_set(N_MEMBERS);
    let keychains = prepare_keychains(N_MEMBERS);
    let mut units_per_round = Vec::with_capacity(rounds);
    for round in 0..rounds {
        let full_units: Vec<_> = creators
            .iter()
            .map(|creator| {
                let (pre_unit, _) = creator
                    .create_unit(round as Round)
                    .expect("Creation should succeed.");
                full_unit(pre_unit, session_id)
            })
            .collect();
        for creator in creators.iter_mut() {
            for unit in &full_units {
                creator.add_unit(&unit.unit());
            }
        }
        let signed_units = full_units
            .into_iter()
            .zip(keychains.iter())
            .map(|(unit, keychain)| sign(unit, keychain))
            .collect();
        units_per_round.push(signed_units);
    }
    // units_per_round[i][j] is the unit produced in round i by creator j
    units_per_round
}

fn produce_items(rounds: usize, session_id: SessionId) -> Vec<TestBackupItem> {
    produce_units(rounds, session_id)
        .into_iter()
        .flatten()
        .map(BackupItem::Unit)
        .collect()
}

fn units_of_creator(
    units: Vec<Vec<UncheckedSignedUnit>>,
    creator: NodeIndex,
) -> Vec<UncheckedSignedUnit> {
    units
        .into_iter()
        .map(|units_per_round| units_per_round[creator.0].copy())
        .collect()
}

fn encode_all(items: &Vec<TestBackupItem>) -> Vec<Vec<u8>> {
    items.iter().map(|u| u.encode()).collect()
}

fn load_items(
    encoded_items: Vec<Vec<u8>>,
) -> Result<Loaded<Hasher64, u32, VerboseSignature, VerbosePartialMultisignature>, LoadingError> {
    load(&encoded_items.into_iter().flatten().collect(), NODE_ID, SESSION_ID)
}

fn check_loading(items: Vec<TestBackupItem>, collected: Option<Round>, start: Option<Round>) {
    match load_items(encode_all(&items)) {
        Ok(loaded) => {
            assert_eq!(starting_round(loaded.next_round, collected), start);
            assert!(loaded.items.equals(&items));
        }
        Err(_) => panic!("The backup could not be loaded."),
    }
}

#[test]
fn nothing_loaded_nothing_collected_succeeds() {
    check_loading(Vec::new(), Some(0), Some(0));
}

#[test]
fn something_loaded_nothing_collected_succeeds() {
    check_loading(produce_items(5, SESSION_ID), Some(0), Some(5));
}

#[test]
fn something_loaded_something_collected_succeeds() {
    check_loading(produce_items(5, SESSION_ID), Some(5), Some(5));
}

#[test]
fn nothing_loaded_something_collected_fails() {
    check_loading(Vec::new(), Some(1), None);
}

#[test]
fn loaded_smaller_then_collected_fails() {
    check_loading(produce_items(3, SESSION_ID), Some(4), None);
}

#[test]
fn dropped_collection_fails() {
    check_loading(produce_items(3, SESSION_ID), None, None);
}

#[test]
fn what_could_not_be_decoded_is_said() {
    let refusal = |bytes: Vec<u8>| match load_items(vec![bytes]) {
        Err(LoadingError::Read(error)) => error.text(),
        _ => panic!("the backup is corrupted"),
    };
    let error = parity_scale_codec::Error::from("Could not decode `BackupItem`, variant doesn't exist");
    assert_eq!(
        refusal(vec![2]),
        format!("received Codec error while decoding backup: {}", error)
    );
    let error = parity_scale_codec::Error::from("Not enough data to fill buffer")
        .chain("Could not decode `AlertData`, failed to read variant byte")
        .chain("Could not decode `BackupItem::AlertData.0`");
    assert_eq!(
        refusal(vec![1]),
        format!("received Codec error while decoding backup: {}", error)
    );
    let error = parity_scale_codec::Error::from("Not enough data to fill buffer")
        .chain("Could not decode `Alert::sender`")
        .chain("Could not decode `AlertData::NetworkAlert.0`")
        .chain("Could not decode `BackupItem::AlertData.0`");
    assert_eq!(
        refusal(vec![1, 1, 0]),
        format!("received Codec error while decoding backup: {}", error)
    );
    let error = parity_scale_codec::Error::from("Not enough data to fill buffer")
        .chain("Could not decode `UnitCoord::creator`")
        .chain("Could not decode `PreUnit::coord`")
        .chain("Could not decode `FullUnit::pre_unit`")
        .chain("Could not decode `UncheckedSigned::signable`")
        .chain("Could not decode `BackupItem::Unit.0`");
    assert_eq!(
        refusal(vec![0, 1, 0, 9]),
        format!("received Codec error while decoding backup: {}", error)
    );
}

#[test]
fn backup_backup_with_corrupted_encoding_fails() {
    let items = produce_items(5, SESSION_ID);
    let mut item_encodings = encode_all(&items);
    let unit2_encoding_len = item_encodings[2].len();
    item_encodings[2].resize(unit2_encoding_len - 1, 0); // remove the last byte
    assert!(matches!(
        load_items(item_encodings),
        Err(LoadingError::Read(BackupReadError::Codec(_)))
    ));
}

#[test]
fn backup_backup_with_missing_parent_fails() {
    let mut items = produce_items(5, SESSION_ID);
    items.remove(2); // it is a parent of all units of round 3
    match load_items(encode_all(&items)) {
        Err(LoadingError::Read(BackupReadError::InconsistentData(coord))) => {
            assert_eq!(coord, UnitCoord::new(1, NodeIndex(0)));
        }
        _ => panic!("The missing parent was not noticed."),
    }
}

#[test]
fn backup_with_duplicate_unit_succeeds() {
    let mut items = produce_items(5, SESSION_ID);
    let item2_duplicate = items[2].copy();
    items.insert(3, item2_duplicate);
    check_loading(items, Some(0), Some(5));
}

#[test]
fn backup_backup_with_units_of_one_creator_fails() {
    let units = units_of_creator(produce_units(5, SESSION_ID), NodeIndex(NODE_ID.0 + 1));
    let items: Vec<_> = units.into_iter().map(BackupItem::Unit).collect();
    assert!(matches!(
        load_items(encode_all(&items)),
        Err(LoadingError::Read(BackupReadError::InconsistentData(_)))
    ));
}

#[test]
fn backup_backup_with_wrong_session_fails() {
    let items = produce_items(5, SESSION_ID + 1);
    match load_items(encode_all(&items)) {
        Err(LoadingError::Read(BackupReadError::WrongSession(coord, expected, actual))) => {
            assert_eq!(coord, UnitCoord::new(0, NodeIndex(0)));
            assert_eq!(expected, SESSION_ID);
            assert_eq!(actual, SESSION_ID + 1);
        }
        _ => panic!("The wrong session was not noticed."),
    }
}

#[test]
fn own_unit_of_the_last_round_leaves_no_rounds() {
    let keychains = prepare_keychains(N_MEMBERS);
    let parents = NodeMap::with_size(NodeCount(0));
    let pre_unit = PreUnit::new(NODE_ID, Round::MAX, aleph_bft::units::ControlHash::new(&parents));
    let item = TestBackupItem::Unit(sign(full_unit(pre_unit, SESSION_ID), &keychains[0]));
    assert!(matches!(
        load_items(vec![item.encode()]),
        Err(LoadingError::NoRoundsLeft)
    ));
}

#[test]
fn written_items_are_read_again() {
    let items = produce_items(2, SESSION_ID);
    let bytes: Vec<u8> = items
        .iter()
        .flat_map(|item| BackupWriter::<Vec<u8>>::to_write(item))
        .collect();
    match load_backup(&bytes, SESSION_ID) {
        Ok(read) => assert!(read.equals(&items)),
        Err(_) => panic!("The backup could not be read."),
    }
}

#[test]
fn read_errors_are_described() {
    let coord = UnitCoord::new(3, NodeIndex(1));
    let error = CodecError::new("root cause".to_string()).chain("final type");
    assert_eq!(
        BackupReadError::Codec(error).text(),
        "received Codec error while decoding backup: final type:\n\troot cause\n"
    );
    assert_eq!(
        BackupReadError::InconsistentData(coord).text(),
        "inconsistent backup data. Unit from round 3 of creator NodeIndex(1) is missing a parent in backup."
    );
    assert_eq!(
        BackupReadError::WrongSession(coord, 10, 20).text(),
        "unit from round 3 of creator NodeIndex(1) has a wrong session id in backup. Expected: 10 got: 20"
    );
}

#[test]
fn saved_items_go_back_to_where_they_came_from() {
    let unit = produce_units(1, SESSION_ID).swap_remove(0).swap_remove(0);
    match announce(TestBackupItem::Unit(unit.copy())) {
        SavedFor::Runway(announced) => assert!(announced.equals(&unit)),
        SavedFor::Alerter(_) => panic!("A unit is not for the alerter."),
    }
}

fn loading() -> Loading<Hasher64, u32, VerboseSignature, VerbosePartialMultisignature> {
    Loading::new(NODE_ID, SESSION_ID)
}

#[test]
fn backup_is_handed_over_before_the_start() {
    let items = produce_items(5, SESSION_ID);
    let bytes: Vec<u8> = encode_all(&items).into_iter().flatten().collect();
    let mut this = loading();
    match this.on_event(LoadingEvent::Read(Some(bytes))) {
        LoadingDecision::HandOver(loaded) => assert!(loaded.equals(&items)),
        _ => panic!("The items are not handed over."),
    }
    assert!(matches!(
        this.on_event(LoadingEvent::HandedOver(true)),
        LoadingDecision::AwaitCollection
    ));
    assert!(matches!(
        this.on_event(LoadingEvent::Collected(Some(4))),
        LoadingDecision::Start(Some(5))
    ));
    assert!(matches!(
        this.on_event(LoadingEvent::Collected(Some(6))),
        LoadingDecision::Start(None)
    ));
    assert!(matches!(
        this.on_event(LoadingEvent::Collected(None)),
        LoadingDecision::Start(None)
    ));
    assert!(matches!(
        this.on_event(LoadingEvent::HandedOver(false)),
        LoadingDecision::Start(None)
    ));
}

#[test]
fn wrong_backups_are_not_started_from() {
    assert!(matches!(
        loading().on_event(LoadingEvent::Read(None)),
        LoadingDecision::Start(None)
    ));
    assert!(matches!(
        loading().on_event(LoadingEvent::Read(Some(vec![77]))),
        LoadingDecision::Fail(LoadingError::Read(BackupReadError::Codec(_)))
    ));
    assert!(matches!(
        loading().on_event(LoadingEvent::Collected(Some(0))),
        LoadingDecision::Start(None)
    ));
}

#[test]
fn items_are_announced_once_they_are_written() {
    let unit = produce_units(1, SESSION_ID).swap_remove(0).swap_remove(0);
    let item = || TestBackupItem::Unit(unit.copy());
    let mut this = Saving::new();
    match this.on_event(SavingEvent::Item(Some(item()))) {
        SavingDecision::Write(bytes) => assert_eq!(bytes, item().encode()),
        _ => panic!("The item is not written."),
    }
    match this.on_event(SavingEvent::Written(true)) {
        SavingDecision::Announce(SavedFor::Runway(saved)) => assert!(saved.equals(&unit)),
        _ => panic!("The item is not announced."),
    }
    assert!(matches!(this.on_event(SavingEvent::Announced(true)), SavingDecision::Wait));
    assert!(matches!(this.on_event(SavingEvent::Announced(false)), SavingDecision::Stop));
    assert!(matches!(this.on_event(SavingEvent::Item(None)), SavingDecision::Stop));
    this.on_event(SavingEvent::Item(Some(item())));
    assert!(matches!(this.on_event(SavingEvent::Written(false)), SavingDecision::Stop));
    assert!(matches!(this.on_event(SavingEvent::Exit), SavingDecision::Terminate));
}

#[test]
fn test_proper_relative_responses_ordering() {
    let node_count = NodeCount(5);
    let creators = creator_set(node_count);
    let keychains = prepare_keychains(node_count);
    let units: Vec<TestUnit> = node_count
        .members()
        .into_iter()
        .map(|id| {
            let (pre_unit, _) = creators[id.0].create_unit(0).unwrap();
            DagUnit::new(
                Signed::sign(full_unit(pre_unit, 0), &keychains[id.0]),
                NodeMap::with_size(node_count),
            )
        })
        .collect();
    let mut saver: SaverService<Hasher64, u32, VerboseSignature> =
        SaverService::new(BackupSaver::new());
    let mut backup = Vec::new();
    let mut announced = Vec::new();
    for unit in &units {
        let mut event = Event::Unit(unit.copy());
        loop {
            event = match saver.on_event(event) {
                Decision::Write(mut bytes) => {
                    backup.append(&mut bytes);
                    Event::Written(true)
                }
                Decision::Announce(unit) => {
                    announced.push(unit);
                    Event::Announced(true)
                }
                Decision::Wait => break,
                Decision::Stop | Decision::Terminate => panic!("The saver stopped."),
            };
        }
    }
    assert_eq!(units.len(), announced.len());
    for (unit, saved) in units.iter().zip(&announced) {
        assert!(unit.to_unchecked().equals(&saved.to_unchecked()));
    }
    let read: Vec<UncheckedSignedUnit> = decode_all(&backup).expect("the backup is correct");
    for (unit, saved) in units.iter().zip(&read) {
        assert!(unit.to_unchecked().equals(saved));
    }
    assert!(matches!(saver.on_event(Event::Exit), Decision::Terminate));
}

#[test]
fn saver_stops_when_something_goes_wrong() {
    let unit = produce_units(1, SESSION_ID).swap_remove(0).swap_remove(0);
    let keychains = prepare_keychains(N_MEMBERS);
    let dag_unit = || {
        let signed = unit.copy().check(&keychains[0]).ok().expect("signed correctly");
        DagUnit::new(signed, NodeMap::with_size(N_MEMBERS))
    };
    let service = || -> SaverService<Hasher64, u32, VerboseSignature> {
        SaverService::new(BackupSaver::new())
    };
    assert!(matches!(service().on_event(Event::Closed), Decision::Stop));
    let mut saver = service();
    assert!(matches!(saver.on_event(Event::Unit(dag_unit())), Decision::Write(_)));
    assert!(matches!(saver.on_event(Event::Written(false)), Decision::Stop));
    let mut saver = service();
    saver.on_event(Event::Unit(dag_unit()));
    saver.on_event(Event::Written(true));
    assert!(matches!(saver.on_event(Event::Announced(false)), Decision::Stop));
}
