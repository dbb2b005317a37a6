//! Units and their control hashes.
use aleph_bft::crypto::Hasher;
use aleph_bft::data::Data;
use aleph_bft::mock::hasher::Hasher64;
use aleph_bft::nodes::{NodeCount, NodeIndex, NodeMap, Round};
use aleph_bft::units::control_hash::{ControlHash as RoundedControlHash, Error};
use aleph_bft::units::{
    ControlHash, FullUnit as GenericFullUnit, PreUnit as GenericPreUnit, UnitCoord,
};
use parity_scale_codec::Encode;

type PreUnit = GenericPreUnit<Hasher64>;
type FullUnit = GenericFullUnit<Hasher64, u32>;

fn no_parents() -> ControlHash<Hasher64> {
    ControlHash::new(&NodeMap::from_vec(vec![]))
}

fn full_unit(data: Option<u32>) -> FullUnit {
    FullUnit::new(PreUnit::new(NodeIndex(5), 6, no_parents()), data, 8)
}

#[test]
fn test_full_unit_hash_is_correct() {
    let unit = full_unit(Some(7));
    let hash = Hasher64::hash(&Data::encode(&unit));
    assert_eq!(unit.hash(), hash);
    let unit = full_unit(None);
    let hash = Hasher64::hash(&Data::encode(&unit));
    assert_eq!(unit.hash(), hash);
}

#[test]
fn test_control_hash_codec() {
    let ch = ControlHash::<Hasher64>::new(&NodeMap::from_vec(vec![
        Some([0; 8]),
        None,
        Some([1; 8]),
    ]));
    let encoded = Data::encode(&ch);
    let (decoded, read) =
        ControlHash::<Hasher64>::decode(&encoded, 0).expect("should decode correctly");
    assert!(decoded.equals(&ch));
    assert_eq!(read, encoded.len());
}

#[test]
fn test_full_unit_codec() {
    for data in [Some(7), None] {
        let unit = full_unit(data);
        let encoded = Data::encode(&unit);
        let (decoded, read) = FullUnit::decode(&encoded, 0).expect("should decode correctly");
        assert!(decoded.equals(&unit));
        assert_eq!(read, encoded.len());
        assert_eq!(decoded.hash(), unit.hash());
    }
}

#[test]
fn full_unit_is_encoded_field_by_field() {
    let unit = full_unit(Some(7));
    // the round, the creator, the mask of parents, the combined hash, the data, the session
    let mask = parity_scale_codec::Compact(0u32);
    let combined_hash = unit.control_hash().combined_hash();
    let bytes = Encode::encode(&(6u16, 5u64, mask, combined_hash, Some(7u32), 8u64));
    assert_eq!(Data::encode(&unit), bytes);
}

#[test]
fn truncated_unit_is_not_decoded() {
    let mut encoded = Data::encode(&full_unit(Some(7)));
    encoded.pop();
    assert!(FullUnit::decode(&encoded, 0).is_none());
}

#[test]
fn unit_has_the_data_of_its_full_unit() {
    let full = full_unit(Some(7));
    assert_eq!(full.included_data(), vec![7]);
    assert_eq!(full_unit(None).included_data(), vec![]);
    let unit = full.unit();
    assert_eq!(unit.hash(), full.hash());
    assert_eq!(unit.coord(), UnitCoord::new(6, NodeIndex(5)));
    assert_eq!(unit.creator(), NodeIndex(5));
    assert_eq!(unit.round(), 6);
}

#[test]
fn control_hash_knows_its_parents() {
    let ch = ControlHash::<Hasher64>::new(&NodeMap::from_vec(vec![
        Some([0; 8]),
        None,
        Some([1; 8]),
    ]));
    assert_eq!(ch.n_members(), NodeCount(3));
    assert_eq!(ch.n_parents(), NodeCount(2));
    assert_eq!(ch.parents(), vec![NodeIndex(0), NodeIndex(2)]);
    assert!(ch.has_parent(NodeIndex(2)));
    assert!(!ch.has_parent(NodeIndex(1)));
}

fn parent_map(parents: Vec<Option<([u8; 8], Round)>>) -> NodeMap<([u8; 8], Round)> {
    NodeMap::from_vec(parents)
}

#[test]
fn given_control_hash_is_encoded_when_same_control_hash_is_decoded_then_results_are_the_same() {
    let ch = RoundedControlHash::<Hasher64>::new(&parent_map(vec![
        Some(([0; 8], 2)),
        None,
        Some(([1; 8], 2)),
    ]));
    let encoded = Data::encode(&ch);
    let (decoded, _) =
        RoundedControlHash::<Hasher64>::decode(&encoded, 0).expect("should decode correctly");
    assert!(decoded.equals(&ch));
}

#[test]
fn given_control_hash_then_basic_properties_are_correct() {
    let parents = parent_map(vec![
        Some(([0; 8], 2)),
        None,
        Some(([2; 8], 2)),
        Some(([3; 8], 2)),
        Some(([4; 8], 2)),
        Some(([5; 8], 2)),
        Some(([5; 8], 1)),
    ]);
    let ch = RoundedControlHash::<Hasher64>::new(&parents);
    assert_eq!(
        RoundedControlHash::<Hasher64>::create_control_hash(&parents),
        [119, 216, 234, 178, 169, 143, 117, 127]
    );

    assert_eq!(ch.n_parents(), NodeCount(6));
    assert_eq!(ch.n_members(), NodeCount(7));

    let parents = ch.parents();
    let expected_parents = vec![
        UnitCoord::new(2, NodeIndex(0)),
        UnitCoord::new(2, NodeIndex(2)),
        UnitCoord::new(2, NodeIndex(3)),
        UnitCoord::new(2, NodeIndex(4)),
        UnitCoord::new(2, NodeIndex(5)),
        UnitCoord::new(1, NodeIndex(6)),
    ];
    assert_eq!(parents, expected_parents);
}

#[test]
fn given_control_hash_when_validate_with_correct_unit_coord_then_validate_is_ok() {
    let ch = RoundedControlHash::<Hasher64>::new(&parent_map(vec![
        Some(([0; 8], 2)),
        None,
        Some(([2; 8], 2)),
        Some(([3; 8], 2)),
        Some(([4; 8], 2)),
        Some(([5; 8], 2)),
        Some(([5; 8], 1)),
    ]));
    assert!(ch.validate(UnitCoord::new(3, NodeIndex(2))).is_ok());
}

#[test]
fn given_control_hash_when_creator_parent_does_not_exist_then_err_is_returned_from_validate() {
    let ch = RoundedControlHash::<Hasher64>::new(&parent_map(vec![
        Some(([0; 8], 2)),
        None,
        Some(([2; 8], 2)),
        Some(([3; 8], 2)),
    ]));
    assert_eq!(
        ch.validate(UnitCoord::new(3, NodeIndex(1)))
            .expect_err("validate() should return error, returned Ok(()) instead"),
        Error::NotDescendantOfPreviousUnit(NodeIndex(1))
    );
}

#[test]
fn given_control_hash_when_creator_parent_exists_but_has_wrong_round_then_err_is_returned_from_validate(
) {
    let ch = RoundedControlHash::<Hasher64>::new(&parent_map(vec![
        Some(([0; 8], 2)),
        Some(([1; 8], 1)),
        Some(([2; 8], 2)),
        Some(([3; 8], 2)),
    ]));
    assert_eq!(
        ch.validate(UnitCoord::new(3, NodeIndex(1)))
            .expect_err("validate() should return error, returned Ok(()) instead"),
        Error::DescendantOfPreviousUnitButWrongRound(1)
    );
}

#[test]
fn given_control_hash_when_there_are_not_enough_previous_round_parents_then_err_is_returned_from_validate(
) {
    let ch = RoundedControlHash::<Hasher64>::new(&parent_map(vec![
        None,
        Some(([1; 8], 2)),
        Some(([2; 8], 2)),
        Some(([3; 8], 1)),
    ]));
    assert_eq!(
        ch.validate(UnitCoord::new(3, NodeIndex(1)))
            .expect_err("validate() should return error, returned Ok(()) instead"),
        Error::NotEnoughParentsForRound(2)
    );
}

#[test]
fn given_control_hash_when_there_are_parents_from_greater_rounds_then_err_is_returned_from_validate(
) {
    let ch = RoundedControlHash::<Hasher64>::new(&parent_map(vec![
        Some(([0; 8], 2)),
        Some(([1; 8], 2)),
        Some(([2; 8], 2)),
        Some(([3; 8], 3)),
    ]));
    assert_eq!(
        ch.validate(UnitCoord::new(3, NodeIndex(1)))
            .expect_err("validate() should return error, returned Ok(()) instead"),
        Error::ParentsHigherThanRound(2)
    );
}

#[test]
fn given_correct_control_hash_when_only_round_change_then_control_hash_does_not_match() {
    let all_parents_from_round_three = vec![
        Some(([193, 179, 113, 82, 221, 179, 199, 217], 3)),
        Some(([215, 1, 244, 177, 19, 155, 43, 208], 3)),
        Some(([12, 108, 24, 87, 75, 135, 37, 3], 3)),
        Some(([3, 221, 173, 235, 29, 224, 247, 233], 3)),
    ];

    let parents_from_round_three = parent_map(all_parents_from_round_three[0..3].to_vec());
    let control_hash_of_fourth_round_unit =
        RoundedControlHash::<Hasher64>::new(&parents_from_round_three);

    let mut parents_from_round_three_but_one_hash_replaced = parents_from_round_three.copy();
    parents_from_round_three_but_one_hash_replaced.insert(
        NodeIndex(2),
        ([234, 170, 183, 55, 61, 24, 31, 143], 3 as Round),
    );
    let borked_hash_of_fourth_round_unit =
        RoundedControlHash::<Hasher64>::new(&parents_from_round_three_but_one_hash_replaced);
    assert!(!borked_hash_of_fourth_round_unit.equals(&control_hash_of_fourth_round_unit));

    let mut parents_from_round_three_but_one_unit_replaced = parents_from_round_three.copy();
    parents_from_round_three_but_one_unit_replaced
        .insert(NodeIndex(2), all_parents_from_round_three[3].unwrap());
    let control_hash_of_fourth_round_unit_but_one_unit_replaced =
        RoundedControlHash::<Hasher64>::new(&parents_from_round_three_but_one_unit_replaced);
    assert!(!borked_hash_of_fourth_round_unit
        .equals(&control_hash_of_fourth_round_unit_but_one_unit_replaced));
    assert!(!control_hash_of_fourth_round_unit_but_one_unit_replaced
        .equals(&control_hash_of_fourth_round_unit));
}
