//! Reconstructing the parents of units.
use aleph_bft::data::Data;
use aleph_bft::mock::hasher::{Hash64, Hasher64};
use aleph_bft::nodes::{NodeCount, NodeIndex, NodeMap, Round, SessionId};
use aleph_bft::reconstruction::parents::{Reconstruction, Request};
use aleph_bft::reconstruction::ReconstructedUnit;
use aleph_bft::units::{ControlHash, FullUnit, PreUnit, Unit, UnitCoord};
use rand::seq::SliceRandom;

fn initial_preunit(n_members: NodeCount, node_id: NodeIndex) -> PreUnit<Hasher64> {
    PreUnit::new(node_id, 0, ControlHash::new(&NodeMap::with_size(n_members)))
}

fn preunit_to_full_unit(
    preunit: PreUnit<Hasher64>,
    session_id: SessionId,
) -> FullUnit<Hasher64, u32> {
    FullUnit::new(preunit, Some(rand::random()), session_id)
}

fn random_initial_units(
    n_members: NodeCount,
    session_id: SessionId,
) -> Vec<FullUnit<Hasher64, u32>> {
    n_members
        .members()
        .into_iter()
        .map(|node_id| preunit_to_full_unit(initial_preunit(n_members, node_id), session_id))
        .collect()
}

fn random_unit_with_parents(
    creator: NodeIndex,
    parents: &[FullUnit<Hasher64, u32>],
) -> FullUnit<Hasher64, u32> {
    let representative_parent = parents.last().expect("there are parents");
    let n_members = representative_parent.as_pre_unit().n_members();
    let session_id = representative_parent.session_id();
    let round = representative_parent.round() + 1;
    let mut parent_map = NodeMap::with_size(n_members);
    for parent in parents {
        parent_map.insert(parent.creator(), parent.hash());
    }
    let control_hash = ControlHash::new(&parent_map);
    preunit_to_full_unit(PreUnit::new(creator, round, control_hash), session_id)
}

fn random_full_parent_units_up_to(
    round: Round,
    n_members: NodeCount,
    session_id: SessionId,
) -> Vec<Vec<FullUnit<Hasher64, u32>>> {
    let mut result = vec![random_initial_units(n_members, session_id)];
    for _ in 0..round {
        let units = n_members
            .members()
            .into_iter()
            .map(|node_id| {
                random_unit_with_parents(node_id, result.last().expect("previous round present"))
            })
            .collect();
        result.push(units);
    }
    result
}

fn coords(requests: &[Request<Hasher64>]) -> Vec<UnitCoord> {
    requests
        .iter()
        .filter_map(|request| match request {
            Request::Coord(coord) => Some(*coord),
            Request::ParentsOf(_) => None,
        })
        .collect()
}

fn parents_of(requests: &[Request<Hasher64>]) -> Vec<Hash64> {
    requests
        .iter()
        .filter_map(|request| match request {
            Request::Coord(_) => None,
            Request::ParentsOf(hash) => Some(*hash),
        })
        .collect()
}

#[test]
fn reconstructs_initial_units() {
    let mut reconstruction = Reconstruction::new();
    for unit in &random_full_parent_units_up_to(0, NodeCount(4), 43)[0] {
        let (mut reconstructed_units, requests) = reconstruction.add_unit(unit.unit()).into_parts();
        assert!(requests.is_empty());
        assert_eq!(reconstructed_units.len(), 1);
        let reconstructed_unit = reconstructed_units.pop().expect("just checked its there");
        assert!(reconstructed_unit.equals(&ReconstructedUnit::initial(unit.unit())));
        assert_eq!(reconstructed_unit.parents().item_count(), 0);
    }
}

#[test]
fn reconstructs_units_coming_in_order() {
    let mut reconstruction = Reconstruction::new();
    let dag = random_full_parent_units_up_to(7, NodeCount(4), 43);
    for units in &dag {
        for unit in units {
            let round = unit.round();
            let (mut reconstructed_units, requests) =
                reconstruction.add_unit(unit.unit()).into_parts();
            assert!(requests.is_empty());
            assert_eq!(reconstructed_units.len(), 1);
            let reconstructed_unit = reconstructed_units.pop().expect("just checked its there");
            match round {
                0 => {
                    assert!(reconstructed_unit.equals(&ReconstructedUnit::initial(unit.unit())));
                    assert_eq!(reconstructed_unit.parents().item_count(), 0);
                }
                round => {
                    assert_eq!(reconstructed_unit.parents().item_count(), 4);
                    let parents = dag
                        .get((round - 1) as usize)
                        .expect("the parents are there");
                    for (parent, reconstructed_parent) in
                        parents.iter().zip(reconstructed_unit.parents().values())
                    {
                        assert_eq!(parent.hash(), reconstructed_parent);
                    }
                }
            }
        }
    }
}

#[test]
fn requests_all_parents() {
    let mut reconstruction = Reconstruction::new();
    let dag = random_full_parent_units_up_to(1, NodeCount(4), 43);
    let unit = dag
        .get(1)
        .expect("just created")
        .last()
        .expect("we have a unit")
        .unit();
    let (reconstructed_units, requests) = reconstruction.add_unit(unit).into_parts();
    assert!(reconstructed_units.is_empty());
    assert_eq!(requests.len(), 4);
    let expected: Vec<UnitCoord> = (0..4).map(|i| UnitCoord::new(0, NodeIndex(i))).collect();
    assert_eq!(coords(&requests), expected);
}

#[test]
fn units_of_different_committees_do_not_disturb_each_other() {
    let mut reconstruction = Reconstruction::new();
    let small = random_full_parent_units_up_to(1, NodeCount(4), 43);
    let large = random_full_parent_units_up_to(1, NodeCount(7), 43);
    for unit in [&large[1][0], &small[1][0]] {
        let unit = unit.unit();
        assert!(reconstruction.can_add(&unit));
        let (reconstructed_units, _) = reconstruction.add_unit(unit).into_parts();
        assert!(reconstructed_units.is_empty());
    }
    // only the unit of the large committee waits for these creators
    for parent in &large[0][4..] {
        reconstruction.add_unit(parent.unit());
    }
    let mut reconstructed = Vec::new();
    for parent in &small[0] {
        let (reconstructed_units, _) = reconstruction.add_unit(parent.unit()).into_parts();
        reconstructed.extend(reconstructed_units.iter().map(|unit| unit.as_unit().hash()));
    }
    // the parents are of the small committee, so the large one needs an explicit list
    assert!(reconstructed.contains(&small[1][0].hash()));
    assert!(!reconstructed.contains(&large[1][0].hash()));
    let list: Vec<_> = large[0].iter().map(|parent| parent.hash()).collect();
    let (reconstructed_units, _) =
        reconstruction.add_parents(&large[1][0].hash(), list).into_parts();
    assert_eq!(reconstructed_units.len(), 1);
}

#[test]
fn no_room_for_another_unit_under_a_hash_that_still_waits() {
    let mut reconstruction = Reconstruction::new();
    let small = random_full_parent_units_up_to(1, NodeCount(4), 43);
    let large = random_full_parent_units_up_to(1, NodeCount(7), 43);
    let unit = large[1][0].unit();
    let hash = unit.hash();
    reconstruction.add_unit(unit);
    let list: Vec<_> = large[0].iter().map(|parent| parent.hash()).collect();
    let (reconstructed_units, _) = reconstruction.add_parents(&hash, list).into_parts();
    assert_eq!(reconstructed_units.len(), 1);
    // the unit itself may come once more, a smaller one with the same hash may not
    assert!(reconstruction.can_add(&large[1][0].unit()));
    assert!(reconstruction.can_add(&small[1][0].unit()));
    let pre_unit = small[1][0].as_pre_unit().copy();
    assert!(!reconstruction.can_add(&Unit::new(pre_unit, hash)));
}

#[test]
fn requests_single_parent() {
    let mut reconstruction = Reconstruction::new();
    let dag = random_full_parent_units_up_to(1, NodeCount(4), 43);
    for unit in dag.get(0).expect("just created").iter().skip(1) {
        reconstruction.add_unit(unit.unit());
    }
    let unit = dag
        .get(1)
        .expect("just created")
        .last()
        .expect("we have a unit")
        .unit();
    let (reconstructed_units, requests) = reconstruction.add_unit(unit).into_parts();
    assert!(reconstructed_units.is_empty());
    assert_eq!(requests.len(), 1);
    assert_eq!(coords(&requests), vec![UnitCoord::new(0, NodeIndex(0))]);
}

#[test]
fn reconstructs_units_coming_in_reverse_order() {
    let mut reconstruction = Reconstruction::new();
    let mut dag = random_full_parent_units_up_to(7, NodeCount(4), 43);
    dag.reverse();
    for unit in dag.get(0).expect("we have the top units") {
        let (reconstructed_units, requests) = reconstruction.add_unit(unit.unit()).into_parts();
        assert!(reconstructed_units.is_empty());
        assert_eq!(requests.len(), 4);
    }
    let mut total_reconstructed = 0;
    for mut units in dag.into_iter().skip(1) {
        let last_unit = units.pop().expect("we have the unit");
        for unit in units {
            let (reconstructed_units, _) = reconstruction.add_unit(unit.unit()).into_parts();
            total_reconstructed += reconstructed_units.len();
        }
        let (reconstructed_units, _) = reconstruction.add_unit(last_unit.unit()).into_parts();
        total_reconstructed += reconstructed_units.len();
        assert!(reconstructed_units.len() >= 4);
    }
    assert_eq!(total_reconstructed, 4 * 8);
}

#[test]
fn handles_bad_hash() {
    let mut reconstruction = Reconstruction::new();
    let dag = random_full_parent_units_up_to(0, NodeCount(4), 43);
    for unit in dag.get(0).expect("just created") {
        reconstruction.add_unit(unit.unit());
    }
    let other_dag = random_full_parent_units_up_to(1, NodeCount(4), 43);
    let unit = other_dag
        .get(1)
        .expect("just created")
        .last()
        .expect("we have a unit")
        .unit();
    let unit_hash = unit.hash();
    let (reconstructed_units, requests) = reconstruction.add_unit(unit).into_parts();
    assert!(reconstructed_units.is_empty());
    assert_eq!(requests.len(), 1);
    assert_eq!(parents_of(&requests), vec![unit_hash]);
    let parent_hashes: Vec<_> = other_dag
        .get(0)
        .expect("other dag has initial units")
        .iter()
        .map(|unit| unit.hash())
        .collect();
    let (mut reconstructed_units, requests) = reconstruction
        .add_parents(&unit_hash, parent_hashes.clone())
        .into_parts();
    assert!(requests.is_empty());
    assert_eq!(reconstructed_units.len(), 1);
    let reconstructed_unit = reconstructed_units.pop().expect("just checked its there");
    assert_eq!(reconstructed_unit.parents().item_count(), 4);
    assert_eq!(reconstructed_unit.parents().values(), parent_hashes);
}

#[test]
fn wrong_explicit_parents_are_ignored() {
    let mut reconstruction = Reconstruction::new();
    let dag = random_full_parent_units_up_to(0, NodeCount(4), 43);
    for unit in &dag[0] {
        reconstruction.add_unit(unit.unit());
    }
    let other_dag = random_full_parent_units_up_to(1, NodeCount(4), 43);
    let unit = other_dag[1][0].unit();
    let unit_hash = unit.hash();
    reconstruction.add_unit(unit);
    let wrong: Vec<Hash64> = dag[0].iter().map(|unit| unit.hash()).collect();
    let (units, requests) = reconstruction.add_parents(&unit_hash, wrong).into_parts();
    assert!(units.is_empty());
    assert!(requests.is_empty());
    let right: Vec<Hash64> = other_dag[0].iter().map(|unit| unit.hash()).collect();
    let (units, _) = reconstruction.add_parents(&unit_hash, right).into_parts();
    assert_eq!(units.len(), 1);
}

#[test]
fn duplicate_unit_is_ignored_while_it_waits() {
    let mut reconstruction = Reconstruction::new();
    let dag = random_full_parent_units_up_to(1, NodeCount(4), 43);
    let (_, requests) = reconstruction.add_unit(dag[1][0].unit()).into_parts();
    assert_eq!(requests.len(), 4);
    let (units, requests) = reconstruction.add_unit(dag[1][0].unit()).into_parts();
    assert!(units.is_empty());
    assert!(requests.is_empty());
}

#[test]
fn units_in_any_order_come_out_once_each() {
    let n_members = NodeCount(4);
    let dag = random_full_parent_units_up_to(5, n_members, 43);
    for _ in 0..10 {
        let mut reconstruction = Reconstruction::new();
        let mut units: Vec<_> = dag.iter().flatten().collect();
        units.shuffle(&mut rand::thread_rng());
        let mut seen = Vec::new();
        for unit in units {
            let (reconstructed_units, requests) =
                reconstruction.add_unit(unit.unit()).into_parts();
            assert!(parents_of(&requests).is_empty());
            for found in reconstructed_units {
                let expected = if found.round() == 0 {
                    Vec::new()
                } else {
                    dag[found.round() as usize - 1]
                        .iter()
                        .map(|parent| parent.hash())
                        .collect()
                };
                assert_eq!(found.parents().values(), expected);
                assert!(!seen.contains(&found.hash()));
                seen.push(found.hash());
            }
        }
        assert_eq!(seen.len(), 6 * n_members.0);
        assert!(dag.iter().flatten().all(|unit| seen.contains(&unit.hash())));
    }
}

#[test]
fn unit_with_known_parents_comes_out_whatever_else_waits() {
    let n_members = NodeCount(4);
    let mut reconstruction = Reconstruction::new();
    let dag = random_full_parent_units_up_to(2, n_members, 43);
    // these wait for units of the second round that never come
    for unit in &dag[2] {
        let (units, _) = reconstruction.add_unit(unit.unit()).into_parts();
        assert!(units.is_empty());
    }
    let (units, _) = reconstruction.add_unit(dag[1][3].unit()).into_parts();
    assert!(units.is_empty());
    for unit in &dag[0][..3] {
        let (units, _) = reconstruction.add_unit(unit.unit()).into_parts();
        assert_eq!(units.len(), 1);
    }
    let (units, _) = reconstruction.add_unit(dag[0][3].unit()).into_parts();
    let hashes: Vec<Hash64> = units.iter().map(|unit| unit.hash()).collect();
    assert_eq!(hashes, vec![dag[1][3].hash(), dag[0][3].hash()]);
}

#[test]
fn requests_are_exactly_the_missing_parents_in_order() {
    let n_members = NodeCount(7);
    let mut reconstruction = Reconstruction::new();
    let dag = random_full_parent_units_up_to(1, n_members, 43);
    for i in [5, 2] {
        reconstruction.add_unit(dag[0][i].unit());
    }
    let (units, requests) = reconstruction.add_unit(dag[1][0].unit()).into_parts();
    assert!(units.is_empty());
    let expected: Vec<UnitCoord> = [0, 1, 3, 4, 6]
        .into_iter()
        .map(|i| UnitCoord::new(0, NodeIndex(i)))
        .collect();
    assert_eq!(coords(&requests), expected);
    assert_eq!(requests.len(), 5);
}

#[test]
fn adding_a_waiting_unit_again_changes_nothing_later() {
    let n_members = NodeCount(4);
    let dag = random_full_parent_units_up_to(1, n_members, 43);
    let mut once = Reconstruction::new();
    let mut twice = Reconstruction::new();
    once.add_unit(dag[1][0].unit());
    twice.add_unit(dag[1][0].unit());
    twice.add_unit(dag[1][0].unit());
    for unit in &dag[0] {
        let (units, requests) = once.add_unit(unit.unit()).into_parts();
        let (other_units, other_requests) = twice.add_unit(unit.unit()).into_parts();
        assert_eq!(units.len(), other_units.len());
        assert!(units
            .iter()
            .zip(&other_units)
            .all(|(unit, other)| unit.equals(other)));
        assert_eq!(requests.len(), other_requests.len());
    }
}
