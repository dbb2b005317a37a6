//! What can be relied on when we start: what is collected from others, and what is read from a
//! backup.
use crate::crypto::{HashOf, Hasher, Keychain, Signable, SignatureOf};
use crate::data::Data;
use crate::nodes;
use crate::nodes::{NodeCount, NodeIndex, Round, SessionId};
use crate::runway::backup;
use crate::runway::backup::{BackupItemView, BackupReadError};
use crate::runway::collection;
use crate::runway::collection::{
    CollectionView, ErrorView, NewestUnitResponse, NewestUnitResponseView, Salt,
};
use crate::runway::loading;
use crate::signed::SignedView;
use crate::units::validator::Validator;
use crate::units::{FullUnitView, UnitCoord};
use vstd::prelude::*;

verus! {

/// A response is correct exactly if whoever claims to respond signed it, it carries the salt of the
/// collection, and its unit, if it has one, is valid and ours. Otherwise it is refused for the first
/// of these that fails.
pub proof fn law_correct_response<H: Hasher, D: Data, K: Keychain>(
    keychain: K,
    validator: &Validator<K>,
    salt: Salt,
    response: SignedView<NewestUnitResponseView<HashOf<H>, D::V, SignatureOf<K>>, SignatureOf<K>>,
)
    ensures
        ({
            let contents = response.signable;
            let verdict = collection::verdict::<H, D, K>(keychain, validator, salt, response);
            let by_responder = keychain.verifies(
                NewestUnitResponse::<H, D, K::Signature>::message_of(contents),
                response.signature,
                contents.responder,
            );
            let invalid = contents.unit is Some && validator.verdict::<H, D>(
                contents.unit->0,
            ) is Some;
            let foreign = contents.unit is Some
                && contents.unit->0.signable.pre_unit.coord.creator != keychain.node();
            &&& verdict is None <==> by_responder && contents.salt == salt && !invalid && !foreign
            &&& verdict matches Some(error) ==> match error {
                ErrorView::WrongSignature => !by_responder,
                ErrorView::SaltMismatch(expected, got) => {
                    by_responder && got != expected && expected == salt && got == contents.salt
                },
                ErrorView::InvalidUnit(e) => {
                    &&& by_responder
                    &&& contents.salt == salt
                    &&& invalid
                    &&& validator.verdict::<H, D>(contents.unit->0) == Some(e)
                },
                ErrorView::ForeignUnit(creator) => {
                    &&& by_responder
                    &&& contents.salt == salt
                    &&& !invalid
                    &&& foreign
                    &&& creator == contents.unit->0.signable.pre_unit.coord.creator
                },
            }
        }),
{
}

/// A response makes its responder, and nobody else, heard. The starting round becomes the one behind
/// its unit if that is later, and stays otherwise.
pub proof fn law_response_heard<V, D, S>(
    state: CollectionView,
    response: NewestUnitResponseView<V, D, S>,
)
    requires
        response.unit matches Some(unit) ==> unit.signable.pre_unit.coord.round < u16::MAX,
    ensures
        ({
            let after = collection::with_response(state, response);
            let behind = match response.unit {
                Some(unit) => unit.signable.pre_unit.coord.round + 1,
                None => 0,
            };
            &&& after.starting_round == (if behind > state.starting_round {
                behind
            } else {
                state.starting_round as int
            })
            &&& forall|node: NodeIndex| #[trigger]
                after.responders.contains(node) <==> state.responders.contains(node) || node
                    == response.responder
        }),
{
}

/// The collection is over exactly if, with ourselves, as many members as needed were heard; it then
/// gives the starting round.
pub proof fn law_start_when_enough_heard(state: CollectionView, needed: NodeCount)
    ensures
        collection::start(state, needed) is Some <==> state.responders.len() + 1 >= needed.0,
        collection::start(state, needed) matches Some(round) ==> round == state.starting_round,
{
}

/// We start from the round behind our last unit in the backup exactly if the others were heard and
/// know of no later unit of ours.
pub proof fn law_start_unless_behind(in_backup: Round, collected: Option<Round>)
    ensures
        ({
            let start = backup::start_from(in_backup, collected);
            &&& start is Some <==> (collected is Some && collected->0 <= in_backup)
            &&& start is Some ==> start == Some(in_backup)
        }),
{
}

/// There is one round to go on from: the least that is behind all our units.
pub proof fn law_one_next_round<V, D>(
    units: Seq<FullUnitView<V, D>>,
    index: NodeIndex,
    round: Round,
    other: Round,
)
    requires
        backup::is_next_round(units, index, round),
    ensures
        backup::is_next_round(units, index, other) <==> other == round,
        (forall|i: int|
            0 <= i < units.len() && (#[trigger] units[i]).pre_unit.coord.creator == index
                ==> units[i].pre_unit.coord.round < other) ==> round <= other,
{
    if round > 0 {
        let i = choose|i: int|
            0 <= i < units.len() && (#[trigger] units[i]).creator() == index && units[i].round()
                == round - 1;
        assert(units[i].pre_unit.coord.creator == index);
    }
    if backup::is_next_round(units, index, other) && other > 0 {
        let i = choose|i: int|
            0 <= i < units.len() && (#[trigger] units[i]).creator() == index && units[i].round()
                == other - 1;
        assert(units[i].round() < round);
    }
}

/// A unit of a backup is right exactly if it is of the session and each of the parents that it names
/// stands before it, at the coordinates of the previous round; a unit of round zero names none. If it
/// is not, the error shows its coordinates, and both sessions if it is of another one.
pub proof fn law_backup_unit_right<V, D>(
    session_id: SessionId,
    before: Seq<FullUnitView<V, D>>,
    unit: FullUnitView<V, D>,
)
    requires
        unit.pre_unit.control_hash.parents_mask.len() <= usize::MAX,
    ensures
        ({
            let error = backup::unit_error(session_id, before, unit);
            let coord = unit.pre_unit.coord;
            let mask = unit.pre_unit.control_hash.parents_mask;
            let parents_before = forall|i: int|
                0 <= i < mask.len() && #[trigger] mask[i] ==> coord.round > 0 && exists|j: int|
                    {
                        &&& 0 <= j < before.len()
                        &&& (#[trigger] before[j]).pre_unit.coord.round == coord.round - 1
                        &&& before[j].pre_unit.coord.creator.0 == i
                    };
            &&& error is None <==> unit.session_id == session_id && parents_before
            &&& unit.session_id != session_id ==> error == Some(
                BackupReadError::WrongSession(coord, session_id, unit.session_id),
            )
            &&& unit.session_id == session_id && !parents_before ==> error == Some(
                BackupReadError::InconsistentData(coord),
            )
        }),
{
    let coord = unit.pre_unit.coord;
    let mask = unit.pre_unit.control_hash.parents_mask;
    let parents = nodes::elements(mask);
    nodes::lemma_elements(mask);
    let parents_before = forall|i: int|
        0 <= i < mask.len() && #[trigger] mask[i] ==> coord.round > 0 && exists|j: int|
            {
                &&& 0 <= j < before.len()
                &&& (#[trigger] before[j]).pre_unit.coord.round == coord.round - 1
                &&& before[j].pre_unit.coord.creator.0 == i
            };
    if backup::parents_among(unit, before) {
        assert forall|i: int| 0 <= i < mask.len() && #[trigger] mask[i] implies coord.round > 0
            && exists|j: int|
            {
                &&& 0 <= j < before.len()
                &&& (#[trigger] before[j]).pre_unit.coord.round == coord.round - 1
                &&& before[j].pre_unit.coord.creator.0 == i
            } by {
            let creator = NodeIndex(i as usize);
            assert(nodes::has(mask, creator));
            assert(parents.contains(creator));
            let k = choose|k: int| 0 <= k < parents.len() && parents[k] == creator;
            let wanted = UnitCoord { round: (coord.round - 1) as Round, creator: parents[k] };
            assert(backup::has_coord(before, wanted));
            let j = choose|j: int| 0 <= j < before.len() && (#[trigger] before[j]).coord() == wanted;
            assert(before[j].pre_unit.coord.creator.0 == i);
        }
    }
    if parents_before {
        if coord.round == 0 && parents.len() > 0 {
            let creator = parents[0];
            assert(parents.contains(creator));
            assert(nodes::has(mask, creator));
            assert(mask[creator.0 as int]);
        }
        assert forall|k: int| 0 <= k < parents.len() implies backup::has_coord(
            before,
            UnitCoord { round: (coord.round - 1) as Round, creator: #[trigger] parents[k] },
        ) by {
            let creator = parents[k];
            assert(parents.contains(creator));
            assert(nodes::has(mask, creator));
            assert(mask[creator.0 as int]);
            let j = choose|j: int|
                {
                    &&& 0 <= j < before.len()
                    &&& (#[trigger] before[j]).pre_unit.coord.round == coord.round - 1
                    &&& before[j].pre_unit.coord.creator.0 == creator.0
                };
            assert(before[j].coord() == UnitCoord {
                round: (coord.round - 1) as Round,
                creator,
            });
        }
    }
}

/// The items of a backup that are units.
pub open spec fn only_units<V, D, S, P>(items: Seq<BackupItemView<V, D, S, P>>) -> Seq<
    BackupItemView<V, D, S, P>,
> {
    items.filter(|item: BackupItemView<V, D, S, P>| item is Unit)
}

/// The units among the items of a backup, with their signatures or without, are all of them and in
/// order.
pub proof fn law_all_units_of_backup<V, D, S, P>(items: Seq<BackupItemView<V, D, S, P>>)
    ensures
        ({
            let found = only_units(items);
            let signed = loading::signed_units_of(items);
            let bare = backup::units_of(items);
            &&& signed.len() == found.len()
            &&& bare.len() == found.len()
            &&& forall|k: int|
                0 <= k < found.len() ==> {
                    &&& #[trigger] found[k] == BackupItemView::<V, D, S, P>::Unit(signed[k])
                    &&& bare[k] == signed[k].signable
                }
        }),
    decreases items.len(),
{
    reveal(Seq::filter);
    if items.len() > 0 {
        law_all_units_of_backup(items.drop_last());
        let before = only_units(items.drop_last());
        let found = only_units(items);
        assert(found == (if items.last() is Unit {
            before.push(items.last())
        } else {
            before
        }));
    }
}

} // verus!
