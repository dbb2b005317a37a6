//! Creating units.
use aleph_bft::creation::creator::Creator as GenericCreator;
use aleph_bft::mock::hasher::{Hash64, Hasher64};
use aleph_bft::nodes::{NodeCount, NodeIndex, Round, SessionId};
use aleph_bft::units::{FullUnit, PreUnit, Unit};
use std::collections::HashSet;

type Creator = GenericCreator<Hasher64>;

fn creator_set(n_members: NodeCount) -> Vec<Creator> {
    (0..n_members.0)
        .map(|i| Creator::new(NodeIndex(i), n_members))
        .collect()
}

fn create_units<'a, C: Iterator<Item = &'a Creator>>(
    creators: C,
    round: Round,
) -> Vec<(PreUnit<Hasher64>, Vec<Hash64>)> {
    creators
        .map(|c| c.create_unit(round).expect("Creation should succeed."))
        .collect()
}

fn preunit_to_unit(preunit: PreUnit<Hasher64>, session_id: SessionId) -> Unit<Hasher64> {
    let full_unit: FullUnit<Hasher64, u32> =
        FullUnit::new(preunit, Some(rand::random()), session_id);
    full_unit.unit()
}

fn add_units(creator: &mut Creator, units: &[Unit<Hasher64>]) {
    for unit in units {
        creator.add_unit(unit);
    }
}

#[test]
fn creates_initial_unit() {
    let n_members = NodeCount(7);
    let round = 0;
    let creator = Creator::new(NodeIndex(0), n_members);
    assert_eq!(creator.current_round(), round);
    let (preunit, parent_hashes) = creator
        .create_unit(round)
        .expect("Creation should succeed.");
    assert_eq!(preunit.round(), round);
    assert_eq!(parent_hashes.len(), 0);
}

#[test]
fn creates_unit_with_all_parents() {
    let n_members = NodeCount(7);
    let mut creators = creator_set(n_members);
    let new_units = create_units(creators.iter(), 0);
    let new_units: Vec<_> = new_units
        .into_iter()
        .map(|(pu, _)| preunit_to_unit(pu, 0))
        .collect();
    let expected_hashes: Vec<_> = new_units.iter().map(|u| u.hash()).collect();
    let creator = &mut creators[0];
    add_units(creator, &new_units);
    let round = 1;
    assert_eq!(creator.current_round(), 0);
    let (preunit, parent_hashes) = creator
        .create_unit(round)
        .expect("Creation should succeed.");
    assert_eq!(preunit.round(), round);
    assert_eq!(parent_hashes, expected_hashes);
}

fn create_unit_with_minimal_parents(n_members: NodeCount) {
    let n_parents = (n_members.0 * 2) / 3 + 1;
    let mut creators = creator_set(n_members);
    let new_units = create_units(creators.iter().take(n_parents), 0);
    let new_units: Vec<_> = new_units
        .into_iter()
        .map(|(pu, _)| preunit_to_unit(pu, 0))
        .collect();
    let expected_hashes: Vec<_> = new_units.iter().map(|u| u.hash()).collect();
    let creator = &mut creators[0];
    add_units(creator, &new_units);
    let round = 1;
    assert_eq!(creator.current_round(), 0);
    let (preunit, parent_hashes) = creator
        .create_unit(round)
        .expect("Creation should succeed.");
    assert_eq!(preunit.round(), round);
    assert_eq!(parent_hashes, expected_hashes);
}

#[test]
fn creates_unit_with_minimal_parents_4() {
    create_unit_with_minimal_parents(NodeCount(4));
}

#[test]
fn creates_unit_with_minimal_parents_5() {
    create_unit_with_minimal_parents(NodeCount(5));
}

#[test]
fn creates_unit_with_minimal_parents_6() {
    create_unit_with_minimal_parents(NodeCount(6));
}

#[test]
fn creates_unit_with_minimal_parents_7() {
    create_unit_with_minimal_parents(NodeCount(7));
}

fn dont_create_unit_below_parents_threshold(n_members: NodeCount) {
    let n_parents = (n_members.0 * 2) / 3;
    let mut creators = creator_set(n_members);
    let new_units = create_units(creators.iter().take(n_parents), 0);
    let new_units: Vec<_> = new_units
        .into_iter()
        .map(|(pu, _)| preunit_to_unit(pu, 0))
        .collect();
    let creator = &mut creators[0];
    add_units(creator, &new_units);
    let round = 1;
    assert_eq!(creator.current_round(), 0);
    assert!(creator.create_unit(round).is_none())
}

#[test]
fn cannot_create_unit_below_parents_threshold_4() {
    dont_create_unit_below_parents_threshold(NodeCount(4));
}

#[test]
fn cannot_create_unit_below_parents_threshold_5() {
    dont_create_unit_below_parents_threshold(NodeCount(5));
}

#[test]
fn cannot_create_unit_below_parents_threshold_6() {
    dont_create_unit_below_parents_threshold(NodeCount(6));
}

#[test]
fn cannot_create_unit_below_parents_threshold_7() {
    dont_create_unit_below_parents_threshold(NodeCount(7));
}

#[test]
fn creates_two_units_when_possible() {
    let n_members = NodeCount(7);
    let mut creators = creator_set(n_members);
    let mut expected_hashes_per_round = Vec::new();
    for round in 0..2 {
        let new_units = create_units(creators.iter().skip(1), round);
        let new_units: Vec<_> = new_units
            .into_iter()
            .map(|(pu, _)| preunit_to_unit(pu, 0))
            .collect();
        let expected_hashes: HashSet<_> = new_units.iter().map(|u| u.hash()).collect();
        for creator in creators.iter_mut() {
            add_units(creator, &new_units);
        }
        expected_hashes_per_round.push(expected_hashes);
    }
    let creator = &mut creators[0];
    assert_eq!(creator.current_round(), 1);
    for round in 0..3 {
        let (preunit, parent_hashes) = creator
            .create_unit(round)
            .expect("Creation should succeed.");
        assert_eq!(preunit.round(), round);
        let parent_hashes: HashSet<_> = parent_hashes.into_iter().collect();
        if round != 0 {
            assert_eq!(
                parent_hashes,
                expected_hashes_per_round[(round - 1) as usize]
            );
        }
        let unit = preunit_to_unit(preunit, 0);
        creator.add_unit(&unit);
        if round < 2 {
            expected_hashes_per_round[round as usize].insert(unit.hash());
        }
    }
}

#[test]
fn cannot_create_unit_without_predecessor() {
    let n_members = NodeCount(7);
    let mut creators = creator_set(n_members);
    let new_units = create_units(creators.iter().skip(1), 0);
    let new_units: Vec<_> = new_units
        .into_iter()
        .map(|(pu, _)| preunit_to_unit(pu, 0))
        .collect();
    let creator = &mut creators[0];
    add_units(creator, &new_units);
    let round = 1;
    assert!(creator.create_unit(round).is_none());
}

#[test]
fn what_could_be_created_still_can_be() {
    let n_members = NodeCount(4);
    let mut creators = creator_set(n_members);
    let units: Vec<_> = create_units(creators.iter(), 0)
        .into_iter()
        .map(|(pu, _)| preunit_to_unit(pu, 0))
        .collect();
    let creator = &mut creators[0];
    add_units(creator, &units[..3]);
    assert!(creator.create_unit(1).is_some());
    add_units(creator, &units[3..]);
    let (preunit, parent_hashes) = creator.create_unit(1).expect("Creation should succeed.");
    assert_eq!(parent_hashes.len(), 4);
    assert_eq!(preunit.n_parents(), n_members);
    assert!(creator.create_unit(0).is_some());
}

#[test]
fn first_candidate_of_a_creator_stays() {
    let n_members = NodeCount(4);
    let mut creators = creator_set(n_members);
    let first: Vec<_> = create_units(creators.iter(), 0)
        .into_iter()
        .map(|(pu, _)| preunit_to_unit(pu, 0))
        .collect();
    let second: Vec<_> = create_units(creators.iter(), 0)
        .into_iter()
        .map(|(pu, _)| preunit_to_unit(pu, 1))
        .collect();
    let expected_hashes: Vec<_> = first.iter().map(|u| u.hash()).collect();
    let creator = &mut creators[0];
    add_units(creator, &first);
    add_units(creator, &second);
    let (_, parent_hashes) = creator.create_unit(1).expect("Creation should succeed.");
    assert_eq!(parent_hashes, expected_hashes);
}
