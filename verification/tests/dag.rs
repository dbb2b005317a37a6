//! Units coming out of the dag in order.
use aleph_bft::alerts::ForkingNotification;
use aleph_bft::dag::unit::DagUnit;
use aleph_bft::dag::Dag;
use aleph_bft::data::Data;
use aleph_bft::mock::hasher::Hasher64;
use aleph_bft::mock::threshold::{prepare_keychains, TestMultiKeychain};
use aleph_bft::mock::verbose::VerboseSignature;
use aleph_bft::nodes::{NodeCount, NodeIndex, NodeMap, Round, SessionId};
use aleph_bft::reconstruction::parents::Request;
use aleph_bft::signed::Signed;
use aleph_bft::units::store::UnitStore;
use aleph_bft::units::validator::Validator as UnitValidator;
use aleph_bft::units::{ControlHash, FullUnit, PreUnit, SignedUnit};
use rand::seq::SliceRandom;

fn initial_preunit(n_members: NodeCount, node_id: NodeIndex) -> PreUnit<Hasher64> {
    PreUnit::new(node_id, 0, ControlHash::new(&NodeMap::with_size(n_members)))
}

fn preunit_to_full_unit(
    preunit: PreUnit<Hasher64>,
    session_id: SessionId,
) -> FullUnit<Hasher64, u32> {
    FullUnit::new(preunit, Some(rand::random()), session_id)
}

fn random_initial_units(
    n_members: NodeCount,
    session_id: SessionId,
) -> Vec<FullUnit<Hasher64, u32>> {
    n_members
        .members()
        .into_iter()
        .map(|node_id| preunit_to_full_unit(initial_preunit(n_members, node_id), session_id))
        .collect()
}

fn random_unit_with_parents(
    creator: NodeIndex,
    parents: &[FullUnit<Hasher64, u32>],
) -> FullUnit<Hasher64, u32> {
    let representative_parent = parents.last().expect("there are parents");
    let n_members = representative_parent.as_pre_unit().n_members();
    let session_id = representative_parent.session_id();
    let round = representative_parent.round() + 1;
    let mut parent_map = NodeMap::with_size(n_members);
    for parent in parents {
        parent_map.insert(parent.creator(), parent.hash());
    }
    let control_hash = ControlHash::new(&parent_map);
    preunit_to_full_unit(PreUnit::new(creator, round, control_hash), session_id)
}

fn random_full_parent_units_up_to(
    round: Round,
    n_members: NodeCount,
    session_id: SessionId,
) -> Vec<Vec<FullUnit<Hasher64, u32>>> {
    let mut result = vec![random_initial_units(n_members, session_id)];
    for _ in 0..round {
        let units = n_members
            .members()
            .into_iter()
            .map(|node_id| {
                random_unit_with_parents(node_id, result.last().expect("previous round present"))
            })
            .collect();
        result.push(units);
    }
    result
}

fn sign(
    unit: FullUnit<Hasher64, u32>,
    keychains: &[TestMultiKeychain],
) -> SignedUnit<Hasher64, u32, VerboseSignature> {
    let creator = unit.creator();
    Signed::sign(unit, &keychains[creator.0])
}

type Store = UnitStore<DagUnit<Hasher64, u32, VerboseSignature>>;

fn validator(
    session_id: SessionId,
    keychain: &TestMultiKeychain,
    max_round: Round,
    node_count: NodeCount,
) -> UnitValidator<'_, TestMultiKeychain> {
    UnitValidator::new(
        session_id,
        keychain,
        max_round,
        node_count,
        node_count.consensus_threshold(),
    )
}

#[test]
fn accepts_initial_units() {
    let node_count = NodeCount(4);
    let node_id = NodeIndex(0);
    let session_id = 43;
    let max_round = 2137;
    let keychains = prepare_keychains(node_count);
    let store = Store::new();
    let mut dag = Dag::new(validator(session_id, &keychains[node_id.0], max_round, node_count));
    for unit in random_full_parent_units_up_to(0, node_count, session_id)
        .into_iter()
        .flatten()
        .map(|unit| sign(unit, &keychains))
    {
        let (units, requests, alerts) = dag.add_unit(unit.into_unchecked(), &store).into_parts();
        assert_eq!(units.len(), 1);
        assert!(requests.is_empty());
        assert!(alerts.is_empty());
    }
}

#[test]
fn accepts_units_in_order() {
    let node_count = NodeCount(4);
    let node_id = NodeIndex(0);
    let session_id = 43;
    let max_round = 2137;
    let keychains = prepare_keychains(node_count);
    let store = Store::new();
    let mut dag = Dag::new(validator(session_id, &keychains[node_id.0], max_round, node_count));
    for unit in random_full_parent_units_up_to(13, node_count, session_id)
        .into_iter()
        .flatten()
        .map(|unit| sign(unit, &keychains))
    {
        let (units, requests, alerts) = dag.add_unit(unit.into_unchecked(), &store).into_parts();
        assert_eq!(units.len(), 1);
        assert!(requests.is_empty());
        assert!(alerts.is_empty());
    }
}

#[test]
fn accepts_units_in_reverse_order() {
    let node_count = NodeCount(4);
    let node_id = NodeIndex(0);
    let session_id = 43;
    let max_round = 2137;
    let total_rounds = 13;
    let keychains = prepare_keychains(node_count);
    let store = Store::new();
    let mut dag = Dag::new(validator(session_id, &keychains[node_id.0], max_round, node_count));
    for unit in random_full_parent_units_up_to(total_rounds, node_count, session_id)
        .into_iter()
        .flatten()
        .rev()
        .map(|unit| sign(unit, &keychains))
    {
        let unit_round = unit.as_signable().round();
        let unit_creator = unit.as_signable().creator();
        let (units, requests, alerts) = dag.add_unit(unit.into_unchecked(), &store).into_parts();
        assert!(alerts.is_empty());
        match unit_round {
            0 => match unit_creator {
                NodeIndex(0) => {
                    assert_eq!(units.len(), (total_rounds * 4 + 1).into());
                    assert!(requests.is_empty());
                }
                _ => {
                    assert_eq!(units.len(), 1);
                    assert!(requests.is_empty());
                }
            },
            _ => {
                assert_eq!(requests.len(), 4);
                assert!(units.is_empty());
            }
        }
    }
}

#[test]
fn parents_come_out_before_children() {
    let node_count = NodeCount(4);
    let keychains = prepare_keychains(node_count);
    let store = Store::new();
    let mut dag = Dag::new(validator(43, &keychains[0], 2137, node_count));
    let mut seen = Vec::new();
    for unit in random_full_parent_units_up_to(6, node_count, 43)
        .into_iter()
        .flatten()
        .rev()
        .map(|unit| sign(unit, &keychains))
    {
        let (units, _, _) = dag.add_unit(unit.into_unchecked(), &store).into_parts();
        for unit in units {
            for parent in unit.parents().values() {
                assert!(seen.contains(&parent));
            }
            seen.push(unit.hash());
        }
    }
    assert_eq!(seen.len(), 7 * 4);
}

#[test]
fn alerts_on_fork() {
    let node_count = NodeCount(4);
    let node_id = NodeIndex(0);
    let session_id = 43;
    let max_round = 2137;
    let keychains = prepare_keychains(node_count);
    let mut store = Store::new();
    let mut dag = Dag::new(validator(session_id, &keychains[node_id.0], max_round, node_count));
    let forker_id = NodeIndex(3);
    let unit = random_full_parent_units_up_to(0, node_count, session_id)[0][forker_id.0].copy();
    let unit_hash = unit.hash();
    let unit = sign(unit, &keychains);
    let mut fork = random_full_parent_units_up_to(0, node_count, session_id)[0][forker_id.0].copy();
    // we might have randomly created an identical "fork"
    while fork.hash() == unit_hash {
        fork = random_full_parent_units_up_to(0, node_count, session_id)[0][forker_id.0].copy();
    }
    let fork = sign(fork, &keychains);
    let (mut units, requests, alerts) = dag.add_unit(unit.into_unchecked(), &store).into_parts();
    assert_eq!(units.len(), 1);
    assert!(requests.is_empty());
    assert!(alerts.is_empty());
    store.insert(units.pop().expect("just checked"));
    let (units, requests, alerts) = dag.add_unit(fork.into_unchecked(), &store).into_parts();
    assert!(units.is_empty());
    assert!(requests.is_empty());
    assert_eq!(alerts.len(), 1);
    assert_eq!(alerts[0].forker(), forker_id);
    assert_eq!(alerts[0].sender(), node_id);
    assert_eq!(alerts[0].legit_units().len(), 1);
}

#[test]
fn detects_fork_through_notification() {
    let node_count = NodeCount(7);
    let node_id = NodeIndex(0);
    let forker_id = NodeIndex(3);
    let session_id = 0;
    let max_round = 2137;
    let keychains = prepare_keychains(node_count);
    let store = Store::new();
    let mut dag = Dag::new(validator(session_id, &keychains[node_id.0], max_round, node_count));
    let unit = random_full_parent_units_up_to(2, node_count, session_id)[2][forker_id.0].copy();
    let unit = sign(unit, &keychains);
    let fork = random_full_parent_units_up_to(2, node_count, session_id)[2][forker_id.0].copy();
    let fork = sign(fork, &keychains);
    let (units, requests, alerts) = dag
        .process_forking_notification(
            ForkingNotification::Forker((unit.into_unchecked(), fork.into_unchecked())),
            &store,
        )
        .into_parts();
    // parents were not passed, so the correct unit does not yet get returned
    assert!(units.is_empty());
    assert_eq!(requests.len(), node_count.0);
    assert_eq!(alerts.len(), 1);
}

#[test]
fn accepts_committed() {
    let node_count = NodeCount(7);
    let node_id = NodeIndex(0);
    let forker_id = NodeIndex(3);
    let session_id = 0;
    let max_round = 2137;
    let produced_round = 4;
    let keychains = prepare_keychains(node_count);
    let store = Store::new();
    let mut dag = Dag::new(validator(session_id, &keychains[node_id.0], max_round, node_count));
    let units = random_full_parent_units_up_to(produced_round, node_count, session_id);
    let fork_parents: Vec<_> = units[2].iter().take(5).map(|unit| unit.copy()).collect();
    let fork = random_unit_with_parents(forker_id, &fork_parents);
    let fork = sign(fork, &keychains);
    let unit = sign(units[3][forker_id.0].copy(), &keychains);
    let (reconstructed_units, requests, alerts) = dag
        .process_forking_notification(
            ForkingNotification::Forker((unit.into_unchecked(), fork.copy().into_unchecked())),
            &store,
        )
        .into_parts();
    assert!(reconstructed_units.is_empty());
    assert_eq!(requests.len(), node_count.0);
    assert_eq!(alerts.len(), 1);
    // normally adding forker units should no longer work now, so trying to add all units only adds initial units of non-forkers
    let mut units_added = 0;
    for unit in units.iter().flatten().map(|unit| sign(unit.copy(), &keychains)) {
        let (units, _, alerts) = dag.add_unit(unit.into_unchecked(), &store).into_parts();
        units_added += units.len();
        assert!(alerts.is_empty());
    }
    assert_eq!(units_added, node_count.0 - 1);
    let committed_units = units
        .iter()
        .take(3)
        .map(|units| sign(units[forker_id.0].copy(), &keychains))
        .chain(Some(fork))
        .map(|unit| unit.into_unchecked())
        .collect();
    let (reconstructed_units, requests, alerts) = dag
        .process_forking_notification(ForkingNotification::Units(committed_units), &store)
        .into_parts();
    assert!(alerts.is_empty());
    // the non-fork unit was added first in the forking notif, so all units reconstruct successfully
    assert!(requests.is_empty());
    assert_eq!(reconstructed_units.len(), node_count.0 * 4 + 1);
}

#[test]
fn handles_explicit_parents() {
    let node_count = NodeCount(7);
    let node_id = NodeIndex(0);
    let forker_id = NodeIndex(3);
    let session_id = 0;
    let max_round = 2137;
    let produced_round = 4;
    let keychains = prepare_keychains(node_count);
    let store = Store::new();
    let mut dag = Dag::new(validator(session_id, &keychains[node_id.0], max_round, node_count));
    let units = random_full_parent_units_up_to(produced_round, node_count, session_id);
    let fork_parents: Vec<_> = units[2].iter().take(5).map(|unit| unit.copy()).collect();
    let fork = random_unit_with_parents(forker_id, &fork_parents);
    let fork = sign(fork, &keychains);
    let unit = sign(units[3][forker_id.0].copy(), &keychains);
    let (reconstructed_units, requests, alerts) = dag
        .process_forking_notification(
            // note the reverse order, to create parent requests later
            ForkingNotification::Forker((fork.copy().into_unchecked(), unit.into_unchecked())),
            &store,
        )
        .into_parts();
    assert!(reconstructed_units.is_empty());
    // the fork only has 5 parents
    assert_eq!(requests.len(), 5);
    assert_eq!(alerts.len(), 1);
    let mut units_added = 0;
    let mut all_requests = Vec::new();
    for unit in units.iter().flatten().map(|unit| sign(unit.copy(), &keychains)) {
        let (units, mut requests, alerts) = dag.add_unit(unit.into_unchecked(), &store).into_parts();
        units_added += units.len();
        all_requests.append(&mut requests);
        assert!(alerts.is_empty());
    }
    assert_eq!(units_added, node_count.0 - 1);
    let mut parent_requests: Vec<_> = all_requests
        .into_iter()
        .filter_map(|request| match request {
            Request::Coord(_) => None,
            Request::ParentsOf(hash) => Some(hash),
        })
        .collect();
    // all the round 4 non-forker units should be confused
    assert_eq!(parent_requests.len(), node_count.0 - 1);
    let committed_units = units
        .iter()
        .take(3)
        .map(|units| sign(units[forker_id.0].copy(), &keychains))
        .chain(Some(fork))
        .map(|unit| unit.into_unchecked())
        .collect();
    let (reconstructed_units, requests, alerts) = dag
        .process_forking_notification(ForkingNotification::Units(committed_units), &store)
        .into_parts();
    assert!(alerts.is_empty());
    // we already got the requests earlier, in parent_requests
    assert!(requests.is_empty());
    assert!(!reconstructed_units.is_empty());
    // gotta also commit to the correct unit, so that it can get imported
    let committed_units = units
        .iter()
        .take(4)
        .map(|units| sign(units[forker_id.0].copy(), &keychains).into_unchecked())
        .collect();
    let (reconstructed_units, requests, alerts) = dag
        .process_forking_notification(ForkingNotification::Units(committed_units), &store)
        .into_parts();
    assert!(alerts.is_empty());
    assert!(requests.is_empty());
    assert_eq!(reconstructed_units.len(), 1);
    let confused_unit = parent_requests.pop().expect("we chacked it's not empty");
    let parents = units[3]
        .iter()
        .map(|unit| sign(unit.copy(), &keychains).into_unchecked())
        .collect();
    let (reconstructed_units, requests, alerts) =
        dag.add_parents(&confused_unit, parents, &store).into_parts();
    assert!(alerts.is_empty());
    assert!(requests.is_empty());
    assert_eq!(reconstructed_units.len(), 1);
    assert_eq!(reconstructed_units[0].hash(), confused_unit);
}

#[test]
fn only_one_alert_for_each_forker() {
    let node_count = NodeCount(4);
    let keychains = prepare_keychains(node_count);
    let mut store = Store::new();
    let mut dag = Dag::new(validator(43, &keychains[0], 2137, node_count));
    let variant = |data| {
        let unit = FullUnit::new(initial_preunit(node_count, NodeIndex(3)), Some(data), 43);
        sign(unit, &keychains).into_unchecked()
    };
    let (mut units, _, _) = dag.add_unit(variant(0), &store).into_parts();
    store.insert(units.pop().expect("the unit is accepted"));
    let (_, _, alerts) = dag.add_unit(variant(1), &store).into_parts();
    assert_eq!(alerts.len(), 1);
    let (units, _, alerts) = dag.add_unit(variant(2), &store).into_parts();
    assert!(units.is_empty());
    assert!(alerts.is_empty());
}

#[test]
fn duplicates_and_wrong_units_give_nothing() {
    let node_count = NodeCount(4);
    let keychains = prepare_keychains(node_count);
    let mut store = Store::new();
    let mut dag = Dag::new(validator(43, &keychains[0], 2137, node_count));
    let unit = sign(random_full_parent_units_up_to(0, node_count, 43)[0][1].copy(), &keychains);
    let (mut units, _, _) = dag.add_unit(unit.copy().into_unchecked(), &store).into_parts();
    store.insert(units.pop().expect("the unit is accepted"));
    let (units, requests, alerts) = dag.add_unit(unit.into_unchecked(), &store).into_parts();
    assert!(units.is_empty() && requests.is_empty() && alerts.is_empty());
    let wrong_session =
        sign(random_full_parent_units_up_to(0, node_count, 44)[0][2].copy(), &keychains);
    let (units, requests, alerts) =
        dag.add_unit(wrong_session.into_unchecked(), &store).into_parts();
    assert!(units.is_empty() && requests.is_empty() && alerts.is_empty());
}

#[test]
fn units_in_any_order_leave_the_dag_once_each() {
    let node_count = NodeCount(4);
    let keychains = prepare_keychains(node_count);
    let produced = random_full_parent_units_up_to(5, node_count, 43);
    for _ in 0..5 {
        let store = Store::new();
        let mut dag = Dag::new(validator(43, &keychains[0], 2137, node_count));
        let mut units: Vec<_> = produced.iter().flatten().collect();
        units.shuffle(&mut rand::thread_rng());
        let mut seen = Vec::new();
        for unit in units {
            let unit = sign(unit.copy(), &keychains).into_unchecked();
            let (units, requests, alerts) = dag.add_unit(unit, &store).into_parts();
            assert!(alerts.is_empty());
            assert!(requests
                .iter()
                .all(|request| matches!(request, Request::Coord(_))));
            for unit in units {
                assert!(unit.parents().values().iter().all(|parent| seen.contains(parent)));
                assert!(!seen.contains(&unit.hash()));
                seen.push(unit.hash());
            }
        }
        assert_eq!(seen.len(), 6 * node_count.0);
    }
}

#[test]
fn units_with_all_their_ancestors_leave_the_dag() {
    let node_count = NodeCount(4);
    let keychains = prepare_keychains(node_count);
    let produced = random_full_parent_units_up_to(3, node_count, 43);
    let store = Store::new();
    let mut dag = Dag::new(validator(43, &keychains[0], 2137, node_count));
    let mut seen = Vec::new();
    // a unit of the second round never comes, so nothing after the third round can leave
    for unit in produced.iter().flatten().rev() {
        if unit.hash() == produced[1][2].hash() {
            continue;
        }
        let unit = sign(unit.copy(), &keychains).into_unchecked();
        let (units, _, _) = dag.add_unit(unit, &store).into_parts();
        seen.extend(units.iter().map(|unit| unit.hash()));
    }
    assert_eq!(seen.len(), 7);
    for unit in produced[0].iter().chain(&produced[1]) {
        assert_eq!(seen.contains(&unit.hash()), unit.hash() != produced[1][2].hash());
    }
}

#[test]
fn committed_units_leave_the_dag_in_order_and_once() {
    let node_count = NodeCount(4);
    let keychains = prepare_keychains(node_count);
    let produced = random_full_parent_units_up_to(3, node_count, 43);
    let store = Store::new();
    let mut dag = Dag::new(validator(43, &keychains[0], 2137, node_count));
    let committed: Vec<_> = produced
        .iter()
        .flatten()
        .rev()
        .map(|unit| sign(unit.copy(), &keychains).into_unchecked())
        .collect();
    let repeated = committed.iter().map(|unit| unit.copy()).collect();
    let (units, _, alerts) = dag
        .process_forking_notification(ForkingNotification::Units(committed), &store)
        .into_parts();
    assert!(alerts.is_empty());
    let mut seen = Vec::new();
    for unit in units {
        assert!(unit.parents().values().iter().all(|parent| seen.contains(parent)));
        assert!(!seen.contains(&unit.hash()));
        seen.push(unit.hash());
    }
    assert_eq!(seen.len(), 4 * node_count.0);
    // what has left already does not leave again
    let (units, _, _) = dag
        .process_forking_notification(ForkingNotification::Units(repeated), &store)
        .into_parts();
    assert!(units.is_empty());
}
