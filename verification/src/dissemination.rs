//! The messages that members exchange to disseminate units.
use crate::alerts::SignedUnitView;
use crate::crypto::{HashOf, Hasher};
use crate::data::Data;
use crate::nodes::NodeIndex;
use crate::reconstruction::parents::{
    Request as ReconstructionRequest, RequestView as ReconstructionRequestView,
};
use crate::runway::collection::{NewestUnitResponse, NewestUnitResponseView, Salt};
use crate::signed::{SignedView, UncheckedSigned};
use crate::units::{UncheckedSignedUnit, UnitCoord};
use vstd::prelude::*;

verus! {

/// A signed response about the newest unit.
pub type SignedNewestResponse<H, D, S> = UncheckedSigned<NewestUnitResponse<H, D, S>, S>;

/// The model of a signed response about the newest unit.
pub type NewestResponseView<V, D, S> = SignedView<NewestUnitResponseView<V, D, S>, S>;

/// What a member asks the others for.
pub enum Request<H: Hasher> {
    /// The unit at these coordinates.
    Coord(UnitCoord),
    /// The parents of the unit with this hash.
    Parents(H::Hash),
    /// The newest unit of a member, with the salt of the collection.
    NewestUnit(NodeIndex, Salt),
}

/// The model of a request.
pub enum RequestView<V> {
    Coord(UnitCoord),
    Parents(V),
    NewestUnit(NodeIndex, Salt),
}

impl<H: Hasher> DeepView for Request<H> {
    type V = RequestView<HashOf<H>>;

    open spec fn deep_view(&self) -> RequestView<HashOf<H>> {
        match self {
            Request::Coord(coord) => RequestView::Coord(*coord),
            Request::Parents(hash) => RequestView::Parents(hash.deep_view()),
            Request::NewestUnit(node, salt) => RequestView::NewestUnit(*node, *salt),
        }
    }
}

/// What reconstruction needs of what is asked for: our newest unit is none of it.
pub open spec fn needed_for_reconstruction<V>(request: RequestView<V>) -> Option<
    ReconstructionRequestView<V>,
> {
    match request {
        RequestView::Coord(coord) => Some(ReconstructionRequestView::Coord(coord)),
        RequestView::Parents(hash) => Some(ReconstructionRequestView::ParentsOf(hash)),
        RequestView::NewestUnit(_, _) => None,
    }
}

impl<H: Hasher> Request<H> {
    /// The request as reconstruction knows it, if it does.
    pub fn for_reconstruction(self) -> (result: Option<ReconstructionRequest<H>>)
        ensures
            result.deep_view() == needed_for_reconstruction(self.deep_view()),
    {
        match self {
            Request::Coord(coord) => Some(ReconstructionRequest::Coord(coord)),
            Request::Parents(hash) => Some(ReconstructionRequest::ParentsOf(hash)),
            Request::NewestUnit(_, _) => None,
        }
    }
}

/// What the others answer.
pub enum Response<H: Hasher, D: Data, S: Data> {
    Coord(UncheckedSignedUnit<H, D, S>),
    Parents(H::Hash, Vec<UncheckedSignedUnit<H, D, S>>),
    NewestUnit(SignedNewestResponse<H, D, S>),
}

/// The model of a response.
pub enum ResponseView<V, D, S> {
    Coord(SignedUnitView<V, D, S>),
    Parents(V, Seq<SignedUnitView<V, D, S>>),
    NewestUnit(NewestResponseView<V, D, S>),
}

impl<H: Hasher, D: Data, S: Data> DeepView for Response<H, D, S> {
    type V = ResponseView<HashOf<H>, D::V, S::V>;

    open spec fn deep_view(&self) -> ResponseView<HashOf<H>, D::V, S::V> {
        match self {
            Response::Coord(unit) => ResponseView::Coord(unit.deep_view()),
            Response::Parents(hash, parents) => ResponseView::Parents(
                hash.deep_view(),
                parents.deep_view(),
            ),
            Response::NewestUnit(response) => ResponseView::NewestUnit(response.deep_view()),
        }
    }
}

/// A message about units as it goes over the network.
pub enum UnitMessage<H: Hasher, D: Data, S: Data> {
    /// A unit that somebody disseminates.
    NewUnit(UncheckedSignedUnit<H, D, S>),
    /// Somebody asks for the unit at some coordinates.
    RequestCoord(NodeIndex, UnitCoord),
    /// The answer to a request for the unit at some coordinates.
    ResponseCoord(UncheckedSignedUnit<H, D, S>),
    /// Somebody asks for the parents of a unit.
    RequestParents(NodeIndex, H::Hash),
    /// The answer to a request for the parents of a unit.
    ResponseParents(H::Hash, Vec<UncheckedSignedUnit<H, D, S>>),
    /// Somebody asks for their own newest unit.
    RequestNewest(NodeIndex, Salt),
    /// The answer to a request for the newest unit.
    ResponseNewest(SignedNewestResponse<H, D, S>),
}

/// The model of a message about units.
pub enum UnitMessageView<V, D, S> {
    NewUnit(SignedUnitView<V, D, S>),
    RequestCoord(NodeIndex, UnitCoord),
    ResponseCoord(SignedUnitView<V, D, S>),
    RequestParents(NodeIndex, V),
    ResponseParents(V, Seq<SignedUnitView<V, D, S>>),
    RequestNewest(NodeIndex, Salt),
    ResponseNewest(NewestResponseView<V, D, S>),
}

impl<H: Hasher, D: Data, S: Data> DeepView for UnitMessage<H, D, S> {
    type V = UnitMessageView<HashOf<H>, D::V, S::V>;

    open spec fn deep_view(&self) -> UnitMessageView<HashOf<H>, D::V, S::V> {
        match self {
            UnitMessage::NewUnit(unit) => UnitMessageView::NewUnit(unit.deep_view()),
            UnitMessage::RequestCoord(node, coord) => UnitMessageView::RequestCoord(*node, *coord),
            UnitMessage::ResponseCoord(unit) => UnitMessageView::ResponseCoord(unit.deep_view()),
            UnitMessage::RequestParents(node, hash) => UnitMessageView::RequestParents(
                *node,
                hash.deep_view(),
            ),
            UnitMessage::ResponseParents(hash, parents) => UnitMessageView::ResponseParents(
                hash.deep_view(),
                parents.deep_view(),
            ),
            UnitMessage::RequestNewest(node, salt) => UnitMessageView::RequestNewest(*node, *salt),
            UnitMessage::ResponseNewest(response) => UnitMessageView::ResponseNewest(
                response.deep_view(),
            ),
        }
    }
}

impl<H: Hasher, D: Data, S: Data> UnitMessage<H, D, S> {
    pub fn copy(&self) -> (other: Self)
        ensures
            other.deep_view() == self.deep_view(),
    {
        match self {
            UnitMessage::NewUnit(unit) => UnitMessage::NewUnit(unit.copy()),
            UnitMessage::RequestCoord(node, coord) => UnitMessage::RequestCoord(*node, *coord),
            UnitMessage::ResponseCoord(unit) => UnitMessage::ResponseCoord(unit.copy()),
            UnitMessage::RequestParents(node, hash) => UnitMessage::RequestParents(
                *node,
                hash.copy(),
            ),
            UnitMessage::ResponseParents(hash, parents) => UnitMessage::ResponseParents(
                hash.copy(),
                parents.copy(),
            ),
            UnitMessage::RequestNewest(node, salt) => UnitMessage::RequestNewest(*node, *salt),
            UnitMessage::ResponseNewest(response) => UnitMessage::ResponseNewest(response.copy()),
        }
    }
}

} // verus!
