//! Finding out which units are the parents of a unit.
use crate::crypto::{HashOf, Hasher};
use crate::data::Data;
use crate::nodes;
use crate::nodes::{NodeIndex, NodeMap, Round};
use crate::units;
use crate::units::{ControlHash, Unit, UnitCoord, UnitView};
use vstd::prelude::*;

pub mod completeness;
pub mod laws;
pub mod parents;
pub mod progress;

verus! {

/// The model of a unit with its parents.
#[verifier::ext_equal]
pub struct ReconstructedView<V> {
    pub unit: UnitView<V>,
    pub parents: Seq<Option<V>>,
}

/// Whether these parents are the ones that the control hash of the unit was made of.
pub open spec fn parents_match<H: Hasher>(
    unit: UnitView<HashOf<H>>,
    parents: Seq<Option<HashOf<H>>>,
) -> bool {
    units::combined_hash::<H>(parents) == unit.pre_unit.control_hash.combined_hash
}

/// A unit with its parents.
pub struct ReconstructedUnit<H: Hasher> {
    unit: Unit<H>,
    parents: NodeMap<H::Hash>,
}

impl<H: Hasher> DeepView for ReconstructedUnit<H> {
    type V = ReconstructedView<HashOf<H>>;

    closed spec fn deep_view(&self) -> ReconstructedView<HashOf<H>> {
        ReconstructedView { unit: self.unit.deep_view(), parents: self.parents.deep_view() }
    }
}

impl<H: Hasher> ReconstructedUnit<H> {
    /// A unit with these parents, or the unit back if its control hash says otherwise.
    pub fn with_parents(unit: Unit<H>, parents: NodeMap<H::Hash>) -> (result: Result<Self, Unit<H>>)
        ensures
            match result {
                Ok(reconstructed) => {
                    &&& parents_match::<H>(unit.deep_view(), parents.deep_view())
                    &&& reconstructed.deep_view() == (ReconstructedView {
                        unit: unit.deep_view(),
                        parents: parents.deep_view(),
                    })
                },
                Err(other) => {
                    &&& !parents_match::<H>(unit.deep_view(), parents.deep_view())
                    &&& other.deep_view() == unit.deep_view()
                },
            },
    {
        let hash: H::Hash = ControlHash::<H>::combine_hashes(&parents);
        if hash.equals(&unit.control_hash().combined_hash()) {
            Ok(ReconstructedUnit { unit, parents })
        } else {
            Err(unit)
        }
    }

    /// A unit without parents.
    pub fn initial(unit: Unit<H>) -> (result: Self)
        ensures
            result.deep_view() == (ReconstructedView {
                unit: unit.deep_view(),
                parents: nodes::empty::<HashOf<H>>(unit.deep_view().n_members()),
            }),
    {
        let n_members = unit.control_hash().n_members();
        ReconstructedUnit { unit, parents: NodeMap::with_size(n_members) }
    }

    pub fn as_unit(&self) -> (unit: &Unit<H>)
        ensures
            unit.deep_view() == self.deep_view().unit,
    {
        &self.unit
    }

    pub fn parents(&self) -> (parents: &NodeMap<H::Hash>)
        ensures
            parents.deep_view() == self.deep_view().parents,
    {
        &self.parents
    }

    pub fn creator(&self) -> (creator: NodeIndex)
        ensures
            creator == self.deep_view().unit.creator(),
    {
        self.unit.creator()
    }

    pub fn round(&self) -> (round: Round)
        ensures
            round == self.deep_view().unit.round(),
    {
        self.unit.round()
    }

    pub fn coord(&self) -> (coord: UnitCoord)
        ensures
            coord == self.deep_view().unit.coord(),
    {
        self.unit.coord()
    }

    pub fn hash(&self) -> (hash: H::Hash)
        ensures
            hash.deep_view() == self.deep_view().unit.hash,
    {
        self.unit.hash()
    }

    pub fn copy(&self) -> (other: Self)
        ensures
            other.deep_view() == self.deep_view(),
    {
        ReconstructedUnit { unit: self.unit.copy(), parents: self.parents.copy() }
    }

    pub fn equals(&self, other: &Self) -> (equal: bool)
        ensures
            equal == (self.deep_view() == other.deep_view()),
    {
        self.unit.equals(&other.unit) && self.parents.equals(&other.parents)
    }
}

} // verus!
