//! Units with their signatures and parents.
use crate::alerts::SignedUnitView;
use crate::crypto::{HashOf, Hasher};
use crate::data::Data;
use crate::nodes::{NodeIndex, NodeMap, Round};
use crate::units;
use crate::units::store::StoredUnit;
use crate::units::{SignedUnit, UncheckedSignedUnit, Unit, UnitCoord};
use vstd::prelude::*;

verus! {

/// The model of a unit in the dag.
#[verifier::ext_equal]
pub struct DagUnitView<V, D, S> {
    pub unit: SignedUnitView<V, D, S>,
    pub parents: Seq<Option<V>>,
}

/// A signed unit with the hashes of its parents.
pub struct DagUnit<H: Hasher, D: Data, S: Data> {
    unit: SignedUnit<H, D, S>,
    parents: NodeMap<H::Hash>,
}

impl<H: Hasher, D: Data, S: Data> DeepView for DagUnit<H, D, S> {
    type V = DagUnitView<HashOf<H>, D::V, S::V>;

    closed spec fn deep_view(&self) -> DagUnitView<HashOf<H>, D::V, S::V> {
        DagUnitView { unit: self.unit.deep_view(), parents: self.parents.deep_view() }
    }
}

impl<H: Hasher, D: Data, S: Data> DagUnit<H, D, S> {
    pub fn new(unit: SignedUnit<H, D, S>, parents: NodeMap<H::Hash>) -> (result: Self)
        ensures
            result.deep_view() == (DagUnitView {
                unit: unit.deep_view(),
                parents: parents.deep_view(),
            }),
    {
        DagUnit { unit, parents }
    }

    /// The unit and its signature, without the parents.
    pub fn unpack(self) -> (unit: SignedUnit<H, D, S>)
        ensures
            unit.deep_view() == self.deep_view().unit,
    {
        self.unit
    }

    pub fn as_signed(&self) -> (unit: &SignedUnit<H, D, S>)
        ensures
            unit.deep_view() == self.deep_view().unit,
    {
        &self.unit
    }

    /// A copy of the unit to be sent or saved.
    pub fn to_unchecked(&self) -> (unit: UncheckedSignedUnit<H, D, S>)
        ensures
            unit.deep_view() == self.deep_view().unit,
    {
        self.unit.copy().into_unchecked()
    }

    /// The unit without its data.
    pub fn unit(&self) -> (unit: Unit<H>)
        ensures
            unit.deep_view() == (units::UnitView {
                pre_unit: self.deep_view().unit.signable.pre_unit,
                hash: units::unit_hash::<H, D>(self.deep_view().unit.signable),
            }),
    {
        self.unit.as_signable().unit()
    }

    pub fn parents(&self) -> (parents: &NodeMap<H::Hash>)
        ensures
            parents.deep_view() == self.deep_view().parents,
    {
        &self.parents
    }

    pub fn creator(&self) -> (creator: NodeIndex)
        ensures
            creator == self.deep_view().unit.signable.creator(),
    {
        self.unit.as_signable().creator()
    }

    pub fn round(&self) -> (round: Round)
        ensures
            round == self.deep_view().unit.signable.round(),
    {
        self.unit.as_signable().round()
    }

    pub fn coord(&self) -> (coord: UnitCoord)
        ensures
            coord == self.deep_view().unit.signable.coord(),
    {
        self.unit.as_signable().coord()
    }

    pub fn hash(&self) -> (hash: H::Hash)
        ensures
            hash.deep_view() == units::unit_hash::<H, D>(self.deep_view().unit.signable),
    {
        self.unit.as_signable().hash()
    }

    pub fn copy(&self) -> (other: Self)
        ensures
            other.deep_view() == self.deep_view(),
    {
        DagUnit { unit: self.unit.copy(), parents: self.parents.copy() }
    }
}

impl<H: Hasher, D: Data, S: Data> StoredUnit for DagUnit<H, D, S> {
    type Hash = H::Hash;

    open spec fn hash_of(v: DagUnitView<HashOf<H>, D::V, S::V>) -> HashOf<H> {
        units::unit_hash::<H, D>(v.unit.signable)
    }

    open spec fn coord_of(v: DagUnitView<HashOf<H>, D::V, S::V>) -> UnitCoord {
        v.unit.signable.coord()
    }

    fn unit_hash(&self) -> (hash: H::Hash) {
        self.hash()
    }

    fn unit_coord(&self) -> (coord: UnitCoord) {
        self.coord()
    }

    fn duplicate(&self) -> (other: Self) {
        self.copy()
    }
}

} // verus!
