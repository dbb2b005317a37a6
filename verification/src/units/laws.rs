//! What can be relied on of the hashes of units and of their parents.
use crate::crypto::{HashOf, Hasher};
use crate::data;
use crate::data::{Data, Encoding};
use crate::nodes;
use crate::nodes::{NodeMap, Round};
use crate::units;
use crate::units::control_hash;
use crate::units::control_hash::Error;
use crate::units::{FullUnit, FullUnitView, UnitCoord};
use vstd::prelude::*;

verus! {

/// Unless the encodings of two different units collide, the hash of a unit fixes all of it: its
/// creator, round, parents, data and session.
pub proof fn law_unit_hash_binds<H: Hasher, D: Data>(
    one: FullUnitView<HashOf<H>, D::V>,
    other: FullUnitView<HashOf<H>, D::V>,
)
    requires
        H::hashed(FullUnit::<H, D>::encoded(one)) == H::hashed(FullUnit::<H, D>::encoded(other))
            ==> FullUnit::<H, D>::encoded(one) == FullUnit::<H, D>::encoded(other),
        FullUnit::<H, D>::valid(one),
        FullUnit::<H, D>::valid(other),
    ensures
        units::unit_hash::<H, D>(one) == units::unit_hash::<H, D>(other) <==> one == other,
{
    data::law_encoding_injective::<FullUnit<H, D>>(one, other);
}

/// Unless the encodings of two different maps of parents collide, a control hash fixes all the
/// parents: who has one, and which it is.
pub proof fn law_control_hash_binds<H: Hasher>(
    one: Seq<Option<HashOf<H>>>,
    other: Seq<Option<HashOf<H>>>,
)
    requires
        H::hashed(NodeMap::<H::Hash>::encoded(one)) == H::hashed(NodeMap::<H::Hash>::encoded(other))
            ==> NodeMap::<H::Hash>::encoded(one) == NodeMap::<H::Hash>::encoded(other),
        NodeMap::<H::Hash>::valid(one),
        NodeMap::<H::Hash>::valid(other),
    ensures
        units::combined_hash::<H>(one) == units::combined_hash::<H>(other) <==> one == other,
        units::control_hash_of::<H>(one) == units::control_hash_of::<H>(other) <==> one == other,
{
    data::law_encoding_injective::<NodeMap<H::Hash>>(one, other);
}

/// The control hash of a unit names exactly the members with a parent.
pub proof fn law_control_hash_names_parents<H: Hasher>(parents: Seq<Option<HashOf<H>>>)
    ensures
        ({
            let mask = units::control_hash_of::<H>(parents).parents_mask;
            &&& mask.len() == parents.len()
            &&& forall|i: int|
                0 <= i < parents.len() ==> #[trigger] mask[i] == (parents[i] is Some)
        }),
{
}

/// Parents from different rounds are right for a unit at some coordinates exactly if the one by the
/// unit's creator is of the previous round, those of more than two thirds of the committee are, and
/// none is of a later one. If they are not, the error says what is wrong.
pub proof fn law_rounded_parents_right(parents: Seq<Option<Round>>, coord: UnitCoord)
    requires
        coord.round > 0,
    ensures
        ({
            let verdict = control_hash::verdict(parents, coord);
            let previous = (coord.round - 1) as Round;
            let i = coord.creator.0 as int;
            let own = i < parents.len() && parents[i] == Some(previous);
            let from_previous = parents.filter(|parent: Option<Round>| parent == Some(previous));
            let enough = 3 * from_previous.len() > 2 * parents.len();
            let later = exists|j: int|
                0 <= j < parents.len() && #[trigger] parents[j] is Some && parents[j]->0
                    >= coord.round;
            &&& verdict is Ok <==> own && enough && !later
            &&& verdict matches Err(error) ==> match error {
                Error::NotDescendantOfPreviousUnit(creator) => {
                    creator == coord.creator && (i >= parents.len() || parents[i] is None)
                },
                Error::DescendantOfPreviousUnitButWrongRound(round) => {
                    i < parents.len() && parents[i] == Some(round) && round != previous
                },
                Error::NotEnoughParentsForRound(round) => own && !enough && round == previous,
                Error::ParentsHigherThanRound(round) => own && enough && later && round == previous,
            }
        }),
{
    let previous = (coord.round - 1) as Round;
    nodes::law_threshold_two_thirds(parents.len());
    if control_hash::parents_after(parents, previous as int) {
        let j = choose|j: int|
            0 <= j < parents.len() && (#[trigger] parents[j] matches Some(r) && r > previous);
        assert(parents[j] is Some && parents[j]->0 >= coord.round);
    }
    if exists|j: int|
        0 <= j < parents.len() && #[trigger] parents[j] is Some && parents[j]->0 >= coord.round {
        let j = choose|j: int|
            0 <= j < parents.len() && #[trigger] parents[j] is Some && parents[j]->0
                >= coord.round;
        assert(parents[j] matches Some(r) && r > previous);
    }
}

/// The coordinates of the parents are those of the members with one, each at the round of the parent
/// and in the order of the members.
pub proof fn law_rounded_parents_coords(parents: Seq<Option<Round>>)
    requires
        parents.len() <= usize::MAX,
    ensures
        ({
            let coords = control_hash::parent_coords(parents);
            &&& coords.len() == nodes::held(parents)
            &&& forall|i: int|
                0 <= i < parents.len() ==> (#[trigger] parents[i] matches Some(round) ==> {
                    let coord = coords[nodes::held(parents.take(i)) as int];
                    coord.creator.0 == i && coord.round == round
                })
        }),
{
    nodes::law_listed_in_order(parents);
}

} // verus!
