//! Reconstructing the parents of units from other units, or from an explicit list.
use crate::collections::{as_map, distinct_keys, VecMap};
use crate::crypto::{HashOf, Hasher};
use crate::data::Data;
use crate::nodes;
use crate::nodes::{NodeCount, NodeIndex, NodeMap, Round};
use crate::reconstruction;
use crate::reconstruction::{ReconstructedUnit, ReconstructedView};
use crate::units::{ControlHash, Unit, UnitCoord, UnitView};
use vstd::prelude::*;

verus! {

/// A unit in the process of reconstructing its parents.
pub enum ReconstructingUnit<H: Hasher> {
    /// We are trying to optimistically reconstruct the unit from potential parents we get.
    Reconstructing(Unit<H>, NodeMap<H::Hash>),
    /// We are waiting for receiving an explicit list of unit parents.
    WaitingForParents(Unit<H>),
}

/// The model of a unit in the process of reconstructing its parents.
pub enum ReconstructingView<V> {
    Reconstructing(UnitView<V>, Seq<Option<V>>),
    WaitingForParents(UnitView<V>),
}

impl<V> ReconstructingView<V> {
    pub open spec fn unit(self) -> UnitView<V> {
        match self {
            ReconstructingView::Reconstructing(unit, _) => unit,
            ReconstructingView::WaitingForParents(unit) => unit,
        }
    }

    /// The unit and the parents known so far are of a committee of this size.
    pub open spec fn for_committee(self, n: nat) -> bool {
        &&& self.unit().n_members() == n
        &&& self matches ReconstructingView::Reconstructing(_, parents) ==> parents.len() == n
    }
}

impl<H: Hasher> DeepView for ReconstructingUnit<H> {
    type V = ReconstructingView<HashOf<H>>;

    open spec fn deep_view(&self) -> ReconstructingView<HashOf<H>> {
        match self {
            ReconstructingUnit::Reconstructing(unit, parents) => {
                ReconstructingView::Reconstructing(unit.deep_view(), parents.deep_view())
            },
            ReconstructingUnit::WaitingForParents(unit) => {
                ReconstructingView::WaitingForParents(unit.deep_view())
            },
        }
    }
}

/// What becomes of a unit when one of its parents is known.
pub enum SingleParentReconstructionResult<H: Hasher> {
    Reconstructed(ReconstructedUnit<H>),
    InProgress(ReconstructingUnit<H>),
    RequestParents(ReconstructingUnit<H>),
}

/// The model of what becomes of a unit when one of its parents is known.
pub enum SingleParentView<V> {
    Reconstructed(ReconstructedView<V>),
    InProgress(ReconstructingView<V>),
    RequestParents(ReconstructingView<V>),
}

impl<H: Hasher> DeepView for SingleParentReconstructionResult<H> {
    type V = SingleParentView<HashOf<H>>;

    open spec fn deep_view(&self) -> SingleParentView<HashOf<H>> {
        match self {
            SingleParentReconstructionResult::Reconstructed(unit) => {
                SingleParentView::Reconstructed(unit.deep_view())
            },
            SingleParentReconstructionResult::InProgress(unit) => {
                SingleParentView::InProgress(unit.deep_view())
            },
            SingleParentReconstructionResult::RequestParents(unit) => {
                SingleParentView::RequestParents(unit.deep_view())
            },
        }
    }
}

/// The coordinates of the parents of a unit: all of them are of the previous round.
pub open spec fn parent_coords<V>(unit: UnitView<V>) -> Seq<UnitCoord> {
    unit.parents().map_values(
        |creator: NodeIndex| UnitCoord { round: (unit.round() - 1) as Round, creator },
    )
}

/// A unit with one more of its parents known. Once all of them are, they have to match the control
/// hash; if they do not, an explicit list of parents is needed.
pub open spec fn with_parent<H: Hasher>(
    unit: ReconstructingView<HashOf<H>>,
    parent_id: NodeIndex,
    parent_hash: HashOf<H>,
) -> SingleParentView<HashOf<H>> {
    match unit {
        ReconstructingView::Reconstructing(unit, parents) => {
            let parents = parents.update(parent_id.0 as int, Some(parent_hash));
            if nodes::present(parents).len() != unit.parents().len() {
                SingleParentView::InProgress(ReconstructingView::Reconstructing(unit, parents))
            } else if reconstruction::parents_match::<H>(unit, parents) {
                SingleParentView::Reconstructed(ReconstructedView { unit, parents })
            } else {
                SingleParentView::RequestParents(ReconstructingView::WaitingForParents(unit))
            }
        },
        ReconstructingView::WaitingForParents(_) => SingleParentView::InProgress(unit),
    }
}

/// The `i`-th member of a subset gets the hash whose place in the list is the number of members of
/// the subset before it.
pub open spec fn listed_parents<V>(mask: Seq<bool>, hashes: Seq<V>) -> Seq<Option<V>> {
    Seq::new(
        mask.len(),
        |i: int|
            if mask[i] && nodes::elements(mask.take(i)).len() < hashes.len() {
                Some(hashes[nodes::elements(mask.take(i)).len() as int])
            } else {
                None
            },
    )
}

impl<H: Hasher> ReconstructingUnit<H> {
    /// Produces a new reconstructing unit and a list of coordinates of parents we need for the
    /// reconstruction.
    fn new(unit: Unit<H>) -> (result: (Self, Vec<UnitCoord>))
        requires
            unit.deep_view().round() != 0,
        ensures
            result.0.deep_view() == ReconstructingView::Reconstructing(
                unit.deep_view(),
                nodes::empty::<HashOf<H>>(unit.deep_view().n_members()),
            ),
            result.1@ == parent_coords(unit.deep_view()),
            unit.deep_view().n_members() <= usize::MAX,
    {
        let n_members: NodeCount = unit.control_hash().n_members();
        let round: Round = unit.round();
        let parents: Vec<NodeIndex> = unit.control_hash().parents();
        let n: usize = parents.len();
        let mut coords: Vec<UnitCoord> = Vec::new();
        let ghost all = parent_coords(unit.deep_view());
        for i in 0..n
            invariant
                n == parents@.len(),
                round != 0,
                round == unit.deep_view().round(),
                parents@ == unit.deep_view().parents(),
                all == parent_coords(unit.deep_view()),
                coords@ == all.take(i as int),
        {
            coords.push(UnitCoord::new(round - 1, parents[i]));
            proof {
                assert(coords@ =~= all.take(i + 1));
            }
        }
        proof {
            assert(coords@ =~= all);
        }
        (ReconstructingUnit::Reconstructing(unit, NodeMap::with_size(n_members)), coords)
    }

    /// Notes down a parent.
    fn reconstruct_parent(self, parent_id: NodeIndex, parent_hash: H::Hash) -> (result:
        SingleParentReconstructionResult<H>)
        requires
            self.deep_view() matches ReconstructingView::Reconstructing(_, parents) ==> parent_id.0
                < parents.len(),
        ensures
            result.deep_view() == with_parent::<H>(
                self.deep_view(),
                parent_id,
                parent_hash.deep_view(),
            ),
    {
        match self {
            ReconstructingUnit::Reconstructing(unit, mut parents) => {
                parents.insert(parent_id, parent_hash);
                if parents.item_count() == unit.control_hash().n_parents().0 {
                    // We have enough parents, just need to check the control hash matches.
                    match ReconstructedUnit::with_parents(unit, parents) {
                        Ok(unit) => SingleParentReconstructionResult::Reconstructed(unit),
                        // If the control hash doesn't match we want to get an explicit list of parents.
                        Err(unit) => SingleParentReconstructionResult::RequestParents(
                            ReconstructingUnit::WaitingForParents(unit),
                        ),
                    }
                } else {
                    SingleParentReconstructionResult::InProgress(
                        ReconstructingUnit::Reconstructing(unit, parents),
                    )
                }
            },
            // If we are already waiting for explicit parents, ignore any resolved ones.
            ReconstructingUnit::WaitingForParents(unit) => {
                SingleParentReconstructionResult::InProgress(
                    ReconstructingUnit::WaitingForParents(unit),
                )
            },
        }
    }

    fn as_unit(&self) -> (unit: &Unit<H>)
        ensures
            unit.deep_view() == self.deep_view().unit(),
    {
        match self {
            ReconstructingUnit::Reconstructing(unit, _) => unit,
            ReconstructingUnit::WaitingForParents(unit) => unit,
        }
    }

    fn control_hash(&self) -> (control_hash: &ControlHash<H>)
        ensures
            control_hash.deep_view() == self.deep_view().unit().pre_unit.control_hash,
    {
        self.as_unit().control_hash()
    }

    /// Tries an explicit list of parents.
    fn with_parents(self, parent_hashes: Vec<H::Hash>) -> (result: Result<
        ReconstructedUnit<H>,
        Self,
    >)
        ensures
            ({
                let unit = self.deep_view().unit();
                let parents = listed_parents(
                    unit.pre_unit.control_hash.parents_mask,
                    parent_hashes.deep_view(),
                );
                match result {
                    Ok(reconstructed) => {
                        &&& reconstruction::parents_match::<H>(unit, parents)
                        &&& reconstructed.deep_view() == (ReconstructedView { unit, parents })
                    },
                    Err(other) => {
                        &&& !reconstruction::parents_match::<H>(unit, parents)
                        &&& other.deep_view() == self.deep_view()
                    },
                }
            }),
    {
        let ghost mask = self.deep_view().unit().pre_unit.control_hash.parents_mask;
        let ghost hashes = parent_hashes.deep_view();
        let n: usize = self.control_hash().n_members().0;
        let mut parents: NodeMap<H::Hash> = NodeMap::with_size(NodeCount(n));
        let mut used: usize = 0;
        for i in 0..n
            invariant
                n == mask.len(),
                mask == self.deep_view().unit().pre_unit.control_hash.parents_mask,
                hashes == parent_hashes.deep_view(),
                parents.deep_view().len() == n,
                used <= i,
                used <= hashes.len(),
                used == (if nodes::elements(mask.take(i as int)).len() < hashes.len() {
                    nodes::elements(mask.take(i as int)).len()
                } else {
                    hashes.len()
                }),
                forall|j: int|
                    0 <= j < i ==> #[trigger] parents.deep_view()[j] == listed_parents(
                        mask,
                        hashes,
                    )[j],
                forall|j: int| i <= j < n ==> #[trigger] parents.deep_view()[j] is None,
        {
            proof {
                assert(mask.take(i + 1).drop_last() =~= mask.take(i as int));
            }
            if self.control_hash().has_parent(NodeIndex(i)) && used < parent_hashes.len() {
                parents.insert(NodeIndex(i), parent_hashes[used].copy());
                used = used + 1;
            }
        }
        proof {
            assert(parents.deep_view() =~= listed_parents(mask, hashes));
        }
        match ReconstructedUnit::with_parents(self.as_unit().copy(), parents) {
            Ok(unit) => Ok(unit),
            Err(_) => Err(self),
        }
    }
}

/// What we need to request to reconstruct units.
pub enum Request<H: Hasher> {
    /// We need a unit at this coordinate.
    Coord(UnitCoord),
    /// We need the explicit list of parents for the unit identified by the hash.
    /// This should only happen in the presence of forks, when optimistic reconstruction failed.
    ParentsOf(H::Hash),
}

/// The model of a request.
pub enum RequestView<V> {
    Coord(UnitCoord),
    ParentsOf(V),
}

impl<H: Hasher> DeepView for Request<H> {
    type V = RequestView<HashOf<H>>;

    open spec fn deep_view(&self) -> RequestView<HashOf<H>> {
        match self {
            Request::Coord(coord) => RequestView::Coord(*coord),
            Request::ParentsOf(hash) => RequestView::ParentsOf(hash.deep_view()),
        }
    }
}

/// The model of the result of a reconstruction attempt.
#[verifier::ext_equal]
pub struct ResultView<V> {
    pub units: Seq<ReconstructedView<V>>,
    pub requests: Seq<RequestView<V>>,
}

impl<V> ResultView<V> {
    pub open spec fn nothing() -> Self {
        ResultView { units: seq![], requests: seq![] }
    }

    pub open spec fn and(self, other: Self) -> Self {
        ResultView { units: self.units + other.units, requests: self.requests + other.requests }
    }
}

/// The result of a reconstruction attempt. Might contain multiple reconstructed units,
/// as well as requests for some data that is needed for further reconstruction.
pub struct ReconstructionResult<H: Hasher> {
    reconstructed_units: Vec<ReconstructedUnit<H>>,
    requests: Vec<Request<H>>,
}

impl<H: Hasher> DeepView for ReconstructionResult<H> {
    type V = ResultView<HashOf<H>>;

    closed spec fn deep_view(&self) -> ResultView<HashOf<H>> {
        ResultView {
            units: self.reconstructed_units.deep_view(),
            requests: self.requests.deep_view(),
        }
    }
}

impl<H: Hasher> ReconstructionResult<H> {
    fn new() -> (result: Self)
        ensures
            result.deep_view() == ResultView::<HashOf<H>>::nothing(),
    {
        let result = ReconstructionResult { reconstructed_units: Vec::new(), requests: Vec::new() };
        proof {
            assert(result.deep_view() =~= ResultView::<HashOf<H>>::nothing());
        }
        result
    }

    fn reconstructed(unit: ReconstructedUnit<H>) -> (result: Self)
        ensures
            result.deep_view() == (ResultView {
                units: seq![unit.deep_view()],
                requests: seq![],
            }),
    {
        let mut result = Self::new();
        result.add_unit(unit);
        result
    }

    fn request(request: Request<H>) -> (result: Self)
        ensures
            result.deep_view() == (ResultView {
                units: seq![],
                requests: seq![request.deep_view()],
            }),
    {
        let mut result = Self::new();
        result.add_request(request);
        result
    }

    fn add_unit(&mut self, unit: ReconstructedUnit<H>)
        ensures
            final(self).deep_view() == old(self).deep_view().and(
                ResultView { units: seq![unit.deep_view()], requests: seq![] },
            ),
    {
        let ghost added = unit.deep_view();
        self.reconstructed_units.push(unit);
        proof {
            assert(self.deep_view() =~= old(self).deep_view().and(
                ResultView { units: seq![added], requests: seq![] },
            ));
        }
    }

    fn add_request(&mut self, request: Request<H>)
        ensures
            final(self).deep_view() == old(self).deep_view().and(
                ResultView { units: seq![], requests: seq![request.deep_view()] },
            ),
    {
        let ghost added = request.deep_view();
        self.requests.push(request);
        proof {
            assert(self.deep_view() =~= old(self).deep_view().and(
                ResultView { units: seq![], requests: seq![added] },
            ));
        }
    }

    fn accumulate(&mut self, other: ReconstructionResult<H>)
        ensures
            final(self).deep_view() == old(self).deep_view().and(other.deep_view()),
    {
        let ghost added = other.deep_view();
        let ReconstructionResult { mut reconstructed_units, mut requests } = other;
        self.reconstructed_units.append(&mut reconstructed_units);
        self.requests.append(&mut requests);
        proof {
            assert(self.deep_view() =~= old(self).deep_view().and(added));
        }
    }

    /// The reconstructed units and the requests.
    pub fn into_parts(self) -> (result: (Vec<ReconstructedUnit<H>>, Vec<Request<H>>))
        ensures
            result.0.deep_view() == self.deep_view().units,
            result.1.deep_view() == self.deep_view().requests,
    {
        (self.reconstructed_units, self.requests)
    }
}

/// The model of a reconstruction: the units in the process, the first known unit at each
/// coordinate and the units that wait for some coordinate.
#[verifier::ext_equal]
#[verifier::reject_recursive_types(V)]
pub struct ReconstructionView<V> {
    pub reconstructing: Map<V, ReconstructingView<V>>,
    pub by_coord: Map<UnitCoord, V>,
    pub waiting: Map<UnitCoord, Seq<V>>,
}

impl<V> ReconstructionView<V> {
    pub open spec fn fresh() -> Self {
        ReconstructionView {
            reconstructing: Map::empty(),
            by_coord: Map::empty(),
            waiting: Map::empty(),
        }
    }

    /// All the units in the process are of committees of this size.
    pub open spec fn for_committee(self, n: nat) -> bool {
        &&& forall|hash: V| #[trigger]
            self.reconstructing.contains_key(hash) ==> self.reconstructing[hash].for_committee(n)
        &&& forall|coord: UnitCoord| #[trigger]
            self.waiting.contains_key(coord) ==> coord.creator.0 < n
    }

    /// Whether a unit, if it is in the process and collects its parents, is of a committee that has
    /// this member.
    pub open spec fn has_place(self, hash: V, creator: NodeIndex) -> bool {
        self.reconstructing.contains_key(hash) ==> (
        self.reconstructing[hash] matches ReconstructingView::Reconstructing(_, parents)
            ==> creator.0 < parents.len())
    }

    /// Every waiting unit waits only for members of its own committee.
    pub open spec fn waits_for_members(self) -> bool {
        forall|coord: UnitCoord, k: int|
            self.waiting.contains_key(coord) && 0 <= k < self.waiting[coord].len()
                ==> self.has_place(#[trigger] self.waiting[coord][k], coord.creator)
    }

    /// Where the hash of a unit that is not in the process still waits, the unit could wait too.
    pub open spec fn has_room_for(self, unit: UnitView<V>) -> bool {
        unit.round() == 0 || self.reconstructing.contains_key(unit.hash) || forall|
            coord: UnitCoord,
            k: int,
        |
            self.waiting.contains_key(coord) && 0 <= k < self.waiting[coord].len()
                && #[trigger] self.waiting[coord][k] == unit.hash ==> coord.creator.0
                < unit.n_members()
    }

    pub open spec fn with_reconstructing(self, hash: V, unit: ReconstructingView<V>) -> Self {
        ReconstructionView { reconstructing: self.reconstructing.insert(hash, unit), ..self }
    }

    pub open spec fn without_reconstructing(self, hash: V) -> Self {
        ReconstructionView { reconstructing: self.reconstructing.remove(hash), ..self }
    }

    /// The first unit ever known at some coordinate is remembered.
    pub open spec fn with_coord(self, coord: UnitCoord, hash: V) -> Self {
        if self.by_coord.contains_key(coord) {
            self
        } else {
            ReconstructionView { by_coord: self.by_coord.insert(coord, hash), ..self }
        }
    }

    /// The units that wait for a coordinate.
    pub open spec fn children(self, coord: UnitCoord) -> Seq<V> {
        if self.waiting.contains_key(coord) {
            self.waiting[coord]
        } else {
            seq![]
        }
    }

    /// Nobody waits for a coordinate any more.
    pub open spec fn without_waiting(self, coord: UnitCoord) -> Self {
        ReconstructionView { waiting: self.waiting.remove(coord), ..self }
    }

    /// A unit waits for a coordinate, behind those that already do.
    pub open spec fn with_waiting(self, coord: UnitCoord, hash: V) -> Self {
        ReconstructionView {
            waiting: self.waiting.insert(coord, self.children(coord).push(hash)),
            ..self
        }
    }
}

/// A unit in the process learns of one of its parents. A unit that is not in the process any more
/// has been reconstructed from an explicit list of parents.
pub open spec fn parent_known<H: Hasher>(
    state: ReconstructionView<HashOf<H>>,
    child: HashOf<H>,
    parent_id: NodeIndex,
    parent_hash: HashOf<H>,
) -> (ReconstructionView<HashOf<H>>, ResultView<HashOf<H>>) {
    if !state.reconstructing.contains_key(child) {
        (state, ResultView::nothing())
    } else {
        match with_parent::<H>(state.reconstructing[child], parent_id, parent_hash) {
            SingleParentView::Reconstructed(unit) => (
                state.without_reconstructing(child),
                ResultView { units: seq![unit], requests: seq![] },
            ),
            SingleParentView::InProgress(unit) => (
                state.with_reconstructing(child, unit),
                ResultView::nothing(),
            ),
            SingleParentView::RequestParents(unit) => (
                state.with_reconstructing(child, unit),
                ResultView { units: seq![], requests: seq![RequestView::ParentsOf(unit.unit().hash)] },
            ),
        }
    }
}

/// Several units learn of the same parent, one after another.
pub open spec fn parent_known_to_all<H: Hasher>(
    state: ReconstructionView<HashOf<H>>,
    children: Seq<HashOf<H>>,
    parent_id: NodeIndex,
    parent_hash: HashOf<H>,
) -> (ReconstructionView<HashOf<H>>, ResultView<HashOf<H>>)
    decreases children.len(),
{
    if children.len() == 0 {
        (state, ResultView::nothing())
    } else {
        let (state, result) = parent_known_to_all::<H>(
            state,
            children.drop_last(),
            parent_id,
            parent_hash,
        );
        let (state, more) = parent_known::<H>(state, children.last(), parent_id, parent_hash);
        (state, result.and(more))
    }
}

/// A unit looks for its parents at some coordinates, in order; it waits for those that are not
/// known, and requests them.
pub open spec fn parents_sought<H: Hasher>(
    state: ReconstructionView<HashOf<H>>,
    hash: HashOf<H>,
    coords: Seq<UnitCoord>,
) -> (ReconstructionView<HashOf<H>>, ResultView<HashOf<H>>)
    decreases coords.len(),
{
    if coords.len() == 0 {
        (state, ResultView::nothing())
    } else {
        let (state, result) = parents_sought::<H>(state, hash, coords.drop_last());
        let coord = coords.last();
        let (state, more) = if state.by_coord.contains_key(coord) {
            parent_known::<H>(state, hash, coord.creator, state.by_coord[coord])
        } else {
            (
                state.with_waiting(coord, hash),
                ResultView { units: seq![], requests: seq![RequestView::Coord(coord)] },
            )
        };
        (state, result.and(more))
    }
}

/// A unit is added: the units that wait for its coordinates learn of it, then it looks for its own
/// parents. A unit that already is in the process changes nothing.
pub open spec fn unit_added<H: Hasher>(
    state: ReconstructionView<HashOf<H>>,
    unit: UnitView<HashOf<H>>,
) -> (ReconstructionView<HashOf<H>>, ResultView<HashOf<H>>) {
    if state.reconstructing.contains_key(unit.hash) {
        (state, ResultView::nothing())
    } else {
        let known = state.with_coord(unit.coord(), unit.hash).without_waiting(unit.coord());
        let (told, result) = parent_known_to_all::<H>(
            known,
            state.children(unit.coord()),
            unit.creator(),
            unit.hash,
        );
        if unit.round() == 0 {
            let initial = ReconstructedView { unit, parents: nodes::empty(unit.n_members()) };
            (told, result.and(ResultView { units: seq![initial], requests: seq![] }))
        } else {
            let started = ReconstructingView::Reconstructing(unit, nodes::empty(unit.n_members()));
            let (sought, more) = parents_sought::<H>(
                told.with_reconstructing(unit.hash, started),
                unit.hash,
                parent_coords(unit),
            );
            (sought, result.and(more))
        }
    }
}

/// An explicit list of parents is added: a unit in the process is reconstructed if the list matches
/// its control hash, otherwise nothing changes.
pub open spec fn parents_added<H: Hasher>(
    state: ReconstructionView<HashOf<H>>,
    hash: HashOf<H>,
    parent_hashes: Seq<HashOf<H>>,
) -> (ReconstructionView<HashOf<H>>, ResultView<HashOf<H>>) {
    let unit = state.reconstructing[hash].unit();
    let parents = listed_parents(unit.pre_unit.control_hash.parents_mask, parent_hashes);
    if state.reconstructing.contains_key(hash) && reconstruction::parents_match::<H>(unit, parents) {
        (
            state.without_reconstructing(hash),
            ResultView { units: seq![ReconstructedView { unit, parents }], requests: seq![] },
        )
    } else {
        (state, ResultView::nothing())
    }
}

/// Receives units with control hashes and reconstructs their parents.
pub struct Reconstruction<H: Hasher> {
    reconstructing_units: VecMap<H::Hash, ReconstructingUnit<H>>,
    units_by_coord: VecMap<UnitCoord, H::Hash>,
    waiting_for_coord: VecMap<UnitCoord, Vec<H::Hash>>,
}

impl<H: Hasher> DeepView for Reconstruction<H> {
    type V = ReconstructionView<HashOf<H>>;

    closed spec fn deep_view(&self) -> ReconstructionView<HashOf<H>> {
        ReconstructionView {
            reconstructing: self.reconstructing_units.deep_view(),
            by_coord: self.units_by_coord.deep_view(),
            waiting: self.waiting_for_coord.deep_view(),
        }
    }
}

impl<H: Hasher> Reconstruction<H> {
    /// A new parent reconstruction widget.
    pub fn new() -> (result: Self)
        ensures
            result.deep_view() == ReconstructionView::<HashOf<H>>::fresh(),
    {
        Reconstruction {
            reconstructing_units: VecMap::new(),
            units_by_coord: VecMap::new(),
            waiting_for_coord: VecMap::new(),
        }
    }

    fn reconstruct_parent(
        &mut self,
        child_hash: &H::Hash,
        parent_id: NodeIndex,
        parent_hash: &H::Hash,
    ) -> (result: ReconstructionResult<H>)
        requires
            old(self).deep_view().has_place(child_hash.deep_view(), parent_id),
        ensures
            (final(self).deep_view(), result.deep_view()) == parent_known::<H>(
                old(self).deep_view(),
                child_hash.deep_view(),
                parent_id,
                parent_hash.deep_view(),
            ),
    {
        let ghost before = self.deep_view();
        match self.reconstructing_units.remove(child_hash) {
            Some(child) => {
                proof {
                    assert(before.reconstructing.contains_key(child_hash.deep_view()));
                }
                match child.reconstruct_parent(parent_id, parent_hash.copy()) {
                    SingleParentReconstructionResult::Reconstructed(unit) => {
                        ReconstructionResult::reconstructed(unit)
                    },
                    SingleParentReconstructionResult::InProgress(unit) => {
                        self.reconstructing_units.insert(child_hash.copy(), unit);
                        proof {
                            assert(self.deep_view() =~= before.with_reconstructing(
                                child_hash.deep_view(),
                                unit.deep_view(),
                            ));
                        }
                        ReconstructionResult::new()
                    },
                    SingleParentReconstructionResult::RequestParents(unit) => {
                        let hash: H::Hash = unit.as_unit().hash();
                        self.reconstructing_units.insert(child_hash.copy(), unit);
                        proof {
                            assert(self.deep_view() =~= before.with_reconstructing(
                                child_hash.deep_view(),
                                unit.deep_view(),
                            ));
                        }
                        ReconstructionResult::request(Request::ParentsOf(hash))
                    },
                }
            },
            // We might have reconstructed the unit through explicit parents if someone sent them to us for no reason,
            // in which case we don't have it any more.
            None => {
                proof {
                    assert(self.deep_view() =~= before);
                }
                ReconstructionResult::new()
            },
        }
    }

    /// Whether a unit can be added.
    pub fn can_add(&self, unit: &Unit<H>) -> (result: bool)
        ensures
            result == self.deep_view().has_room_for(unit.deep_view()),
    {
        let hash: H::Hash = unit.hash();
        if unit.round() == 0 || self.reconstructing_units.contains_key(&hash) {
            return true;
        }
        self.waiting_for_coord.check_listing();
        let n_members: usize = unit.control_hash().n_members().0;
        let ghost h = hash.deep_view();
        let ghost listing = self.waiting_for_coord.listing();
        let ghost waiting = self.deep_view().waiting;
        let n: usize = self.waiting_for_coord.len();
        for i in 0..n
            invariant
                n == listing.len(),
                listing == self.waiting_for_coord.listing(),
                distinct_keys(listing),
                waiting == self.deep_view().waiting,
                h == hash.deep_view(),
                h == unit.deep_view().hash,
                n_members == unit.deep_view().n_members(),
                unit.deep_view().round() != 0,
                !self.deep_view().reconstructing.contains_key(h),
                forall|j: int|
                    0 <= j < i && (#[trigger] listing[j]).0.creator.0 >= n_members
                        ==> !listing[j].1.contains(h),
        {
            let (coord, children) = self.waiting_for_coord.entry(i);
            if coord.creator().0 >= n_members && is_among(children, &hash) {
                proof {
                    let k = choose|k: int|
                        0 <= k < listing[i as int].1.len() && listing[i as int].1[k] == h;
                    lemma_entry(listing, i as int);
                    assert(waiting[listing[i as int].0][k] == h);
                }
                return false;
            }
        }
        proof {
            assert forall|coord: UnitCoord, k: int|
                waiting.contains_key(coord) && 0 <= k < waiting[coord].len()
                    && #[trigger] waiting[coord][k] == h implies coord.creator.0 < n_members by {
                let i = choose|i: int| 0 <= i < listing.len() && (#[trigger] listing[i]).0 == coord;
                lemma_entry(listing, i);
                assert(listing[i].1.contains(h));
            }
        }
        true
    }

    /// Add a unit and start reconstructing its parents.
    pub fn add_unit(&mut self, unit: Unit<H>) -> (result: ReconstructionResult<H>)
        requires
            old(self).deep_view().waits_for_members(),
            old(self).deep_view().has_room_for(unit.deep_view()),
        ensures
            (final(self).deep_view(), result.deep_view()) == unit_added::<H>(
                old(self).deep_view(),
                unit.deep_view(),
            ),
            final(self).deep_view().waits_for_members(),
            old(self).deep_view().for_committee(unit.deep_view().n_members())
                ==> final(self).deep_view().for_committee(unit.deep_view().n_members()),
    {
        let ghost before = self.deep_view();
        let ghost view = unit.deep_view();
        let ghost n = view.n_members();
        let ghost uniform = before.for_committee(n);
        let mut result = ReconstructionResult::new();
        let unit_hash: H::Hash = unit.hash();
        if self.reconstructing_units.contains_key(&unit_hash) {
            // We already received this unit once, no need to do anything.
            return result;
        }
        let unit_coord: UnitCoord = unit.coord();
        // We place the unit in the coord map only if this is the first variant ever received.
        // This is not crucial for correctness, but helps in clarity.
        if !self.units_by_coord.contains_key(&unit_coord) {
            self.units_by_coord.insert(unit_coord, unit_hash.copy());
        }
        let children: Vec<H::Hash> = match self.waiting_for_coord.remove(&unit_coord) {
            Some(children) => children,
            None => {
                let none: Vec<H::Hash> = Vec::new();
                proof {
                    assert(none.deep_view() =~= seq![]);
                }
                none
            },
        };
        let ghost known = before.with_coord(unit_coord, view.hash).without_waiting(unit_coord);
        let ghost kids = children.deep_view();
        proof {
            assert(self.deep_view() =~= known);
            assert(kids == before.children(unit_coord));
            assert(uniform ==> known.for_committee(n));
            assert(kids.take(0) =~= seq![]);
            lemma_known_waits(before, unit_coord, view.hash);
        }
        // We reconstruct the parent for each unit that waits for this coord.
        let n_children: usize = children.len();
        for i in 0..n_children
            invariant
                n_children == children@.len(),
                kids == children.deep_view(),
                uniform && n_children > 0 ==> unit_coord.creator.0 < n,
                view.hash == unit_hash.deep_view(),
                uniform ==> self.deep_view().for_committee(n),
                self.deep_view().waits_for_members(),
                self.deep_view().waiting == known.waiting,
                forall|j: int|
                    0 <= j < kids.len() ==> self.deep_view().has_place(
                        #[trigger] kids[j],
                        unit_coord.creator,
                    ),
                (self.deep_view(), result.deep_view()) == parent_known_to_all::<H>(
                    known,
                    kids.take(i as int),
                    unit_coord.creator,
                    view.hash,
                ),
        {
            let ghost state = self.deep_view();
            proof {
                assert(state.has_place(kids[i as int], unit_coord.creator));
            }
            let more = self.reconstruct_parent(&children[i], unit_coord.creator(), &unit_hash);
            result.accumulate(more);
            proof {
                lemma_parent_known_waits::<H>(
                    state,
                    kids[i as int],
                    unit_coord.creator,
                    view.hash,
                );
                if uniform {
                    lemma_parent_known_committee::<H>(
                        state,
                        kids[i as int],
                        unit_coord.creator,
                        view.hash,
                        n,
                    );
                }
                assert(kids.take(i + 1).drop_last() =~= kids.take(i as int));
            }
        }
        proof {
            assert(kids.take(n_children as int) =~= kids);
        }
        if unit_coord.round() == 0 {
            result.add_unit(ReconstructedUnit::initial(unit));
            return result;
        }
        let ghost first = result.deep_view();
        let ghost told = self.deep_view();
        let (unit, parent_coords) = ReconstructingUnit::new(unit);
        let ghost started = told.with_reconstructing(view.hash, unit.deep_view());
        self.reconstructing_units.insert(unit_hash.copy(), unit);
        let ghost coords = parent_coords@;
        proof {
            assert(self.deep_view() =~= started);
            assert(coords.take(0) =~= seq![]);
            assert(first.and(ResultView::nothing()) =~= first);
            lemma_parent_coords(view);
            lemma_started_waits(told, view, before);
        }
        let n_parents: usize = parent_coords.len();
        for i in 0..n_parents
            invariant
                n_parents == parent_coords@.len(),
                coords == parent_coords@,
                view.hash == unit_hash.deep_view(),
                forall|j: int| 0 <= j < coords.len() ==> (#[trigger] coords[j]).creator.0 < n,
                uniform ==> self.deep_view().for_committee(n),
                self.deep_view().waits_for_members(),
                forall|j: int|
                    0 <= j < coords.len() ==> self.deep_view().has_place(
                        view.hash,
                        (#[trigger] coords[j]).creator,
                    ),
                self.deep_view() == parents_sought::<H>(
                    started,
                    view.hash,
                    coords.take(i as int),
                ).0,
                result.deep_view() == first.and(
                    parents_sought::<H>(started, view.hash, coords.take(i as int)).1,
                ),
        {
            let ghost state = self.deep_view();
            let ghost so_far = parents_sought::<H>(started, view.hash, coords.take(i as int)).1;
            let parent_coord: UnitCoord = parent_coords[i];
            proof {
                assert(state.has_place(view.hash, coords[i as int].creator));
            }
            let known_parent: Option<H::Hash> = match self.units_by_coord.get(&parent_coord) {
                Some(parent_hash) => Some(parent_hash.copy()),
                None => None,
            };
            match known_parent {
                Some(parent_hash) => {
                    let more = self.reconstruct_parent(
                        &unit_hash,
                        parent_coord.creator(),
                        &parent_hash,
                    );
                    let ghost added = more.deep_view();
                    result.accumulate(more);
                    proof {
                        lemma_parent_known_waits::<H>(
                            state,
                            view.hash,
                            parent_coord.creator,
                            parent_hash.deep_view(),
                        );
                        if uniform {
                            lemma_parent_known_committee::<H>(
                                state,
                                view.hash,
                                parent_coord.creator,
                                parent_hash.deep_view(),
                                n,
                            );
                        }
                        assert(first.and(so_far).and(added) =~= first.and(so_far.and(added)));
                    }
                },
                None => {
                    let mut waiting: Vec<H::Hash> = match self.waiting_for_coord.remove(
                        &parent_coord,
                    ) {
                        Some(waiting) => waiting,
                        None => Vec::new(),
                    };
                    proof {
                        assert(waiting.deep_view() =~= state.children(parent_coord));
                    }
                    waiting.push(unit_hash.copy());
                    proof {
                        assert(waiting.deep_view() =~= state.children(parent_coord).push(view.hash));
                    }
                    self.waiting_for_coord.insert(parent_coord, waiting);
                    result.add_request(Request::Coord(parent_coord));
                    proof {
                        let added: ResultView<HashOf<H>> = ResultView {
                            units: seq![],
                            requests: seq![RequestView::Coord(parent_coord)],
                        };
                        assert(self.deep_view() =~= state.with_waiting(parent_coord, view.hash));
                        lemma_one_more_waits(state, parent_coord, view.hash);
                        assert(first.and(so_far).and(added) =~= first.and(so_far.and(added)));
                    }
                },
            }
            proof {
                assert(coords.take(i + 1).drop_last() =~= coords.take(i as int));
            }
        }
        proof {
            assert(coords.take(n_parents as int) =~= coords);
        }
        result
    }

    /// The coordinates of the parents of a unit that is being reconstructed.
    pub fn parent_coords_of(&self, unit_hash: &H::Hash) -> (result: Option<Vec<UnitCoord>>)
        ensures
            match result {
                Some(coords) => {
                    &&& self.deep_view().reconstructing.contains_key(unit_hash.deep_view())
                    &&& self.deep_view().reconstructing[unit_hash.deep_view()].unit().round() != 0
                    &&& coords@ == parent_coords(
                        self.deep_view().reconstructing[unit_hash.deep_view()].unit(),
                    )
                },
                None => self.deep_view().reconstructing.contains_key(unit_hash.deep_view())
                    ==> self.deep_view().reconstructing[unit_hash.deep_view()].unit().round() == 0,
            },
    {
        match self.reconstructing_units.get(unit_hash) {
            Some(unit) => {
                let unit: &Unit<H> = unit.as_unit();
                if unit.round() == 0 {
                    None
                } else {
                    let (_, coords) = ReconstructingUnit::new(unit.copy());
                    Some(coords)
                }
            },
            None => None,
        }
    }

    /// Add an explicit list of a units' parents, perhaps reconstructing it.
    pub fn add_parents(&mut self, unit_hash: &H::Hash, parents: Vec<H::Hash>) -> (result:
        ReconstructionResult<H>)
        ensures
            (final(self).deep_view(), result.deep_view()) == parents_added::<H>(
                old(self).deep_view(),
                unit_hash.deep_view(),
                parents.deep_view(),
            ),
            old(self).deep_view().waits_for_members()
                ==> final(self).deep_view().waits_for_members(),
    {
        let ghost before = self.deep_view();
        // If we don't have the unit, just ignore this response.
        match self.reconstructing_units.remove(unit_hash) {
            Some(unit) => match unit.with_parents(parents) {
                Ok(unit) => {
                    proof {
                        lemma_removed_waits(before, unit_hash.deep_view());
                        assert(self.deep_view() =~= before.without_reconstructing(
                            unit_hash.deep_view(),
                        ));
                    }
                    ReconstructionResult::reconstructed(unit)
                },
                Err(unit) => {
                    self.reconstructing_units.insert(unit_hash.copy(), unit);
                    proof {
                        assert(self.deep_view() =~= before);
                    }
                    ReconstructionResult::new()
                },
            },
            None => {
                proof {
                    assert(self.deep_view() =~= before);
                }
                ReconstructionResult::new()
            },
        }
    }
}

/// Whether a list has a hash.
fn is_among<T: Data>(items: &Vec<T>, item: &T) -> (result: bool)
    ensures
        result == items.deep_view().contains(item.deep_view()),
{
    let ghost all = items.deep_view();
    let n: usize = items.len();
    for i in 0..n
        invariant
            n == items@.len(),
            all == items.deep_view(),
            forall|j: int| 0 <= j < i ==> #[trigger] all[j] != item.deep_view(),
    {
        if items[i].equals(item) {
            proof {
                assert(all[i as int] == item.deep_view());
            }
            return true;
        }
    }
    false
}

/// What is listed under a key is what the map holds under it.
proof fn lemma_entry<K, V>(listing: Seq<(K, V)>, i: int)
    requires
        distinct_keys(listing),
        0 <= i < listing.len(),
    ensures
        as_map(listing).contains_key(listing[i].0),
        as_map(listing)[listing[i].0] == listing[i].1,
{
}

/// A unit that learns of a parent keeps its place for the others.
proof fn lemma_parent_known_waits<H: Hasher>(
    state: ReconstructionView<HashOf<H>>,
    child: HashOf<H>,
    parent_id: NodeIndex,
    parent_hash: HashOf<H>,
)
    requires
        state.waits_for_members(),
        state.has_place(child, parent_id),
    ensures
        ({
            let after = parent_known::<H>(state, child, parent_id, parent_hash).0;
            &&& after.waits_for_members()
            &&& after.waiting == state.waiting
            &&& forall|hash: HashOf<H>, creator: NodeIndex|
                state.has_place(hash, creator) ==> #[trigger] after.has_place(hash, creator)
        }),
{
    let after = parent_known::<H>(state, child, parent_id, parent_hash).0;
    assert forall|hash: HashOf<H>, creator: NodeIndex| state.has_place(hash, creator) implies (
    #[trigger] after.has_place(hash, creator)) by {}
    assert forall|coord: UnitCoord, k: int|
        after.waiting.contains_key(coord) && 0 <= k < after.waiting[coord].len() implies (
    after.has_place(#[trigger] after.waiting[coord][k], coord.creator)) by {
        assert(state.has_place(state.waiting[coord][k], coord.creator));
    }
}

/// A unit that has left the process is no concern any more.
proof fn lemma_removed_waits<V>(state: ReconstructionView<V>, hash: V)
    ensures
        state.waits_for_members() ==> state.without_reconstructing(hash).waits_for_members(),
{
    let after = state.without_reconstructing(hash);
    if state.waits_for_members() {
        assert forall|coord: UnitCoord, k: int|
            after.waiting.contains_key(coord) && 0 <= k < after.waiting[coord].len() implies (
        after.has_place(#[trigger] after.waiting[coord][k], coord.creator)) by {
            assert(state.has_place(state.waiting[coord][k], coord.creator));
        }
    }
}

/// Those that wait for a unit that is known now have a place for it; nobody else is concerned.
proof fn lemma_known_waits<V>(state: ReconstructionView<V>, coord: UnitCoord, hash: V)
    requires
        state.waits_for_members(),
    ensures
        state.with_coord(coord, hash).without_waiting(coord).waits_for_members(),
        forall|j: int|
            0 <= j < state.children(coord).len() ==> state.with_coord(coord, hash).without_waiting(
                coord,
            ).has_place(#[trigger] state.children(coord)[j], coord.creator),
{
    let known = state.with_coord(coord, hash).without_waiting(coord);
    assert forall|other: UnitCoord, k: int|
        known.waiting.contains_key(other) && 0 <= k < known.waiting[other].len() implies (
    known.has_place(#[trigger] known.waiting[other][k], other.creator)) by {
        assert(state.has_place(state.waiting[other][k], other.creator));
    }
    assert forall|j: int| 0 <= j < state.children(coord).len() implies known.has_place(
        #[trigger] state.children(coord)[j],
        coord.creator,
    ) by {
        assert(state.has_place(state.waiting[coord][j], coord.creator));
    }
}

/// A unit that starts to look for its parents has a place for each of them.
proof fn lemma_started_waits<V>(
    state: ReconstructionView<V>,
    unit: UnitView<V>,
    before: ReconstructionView<V>,
)
    requires
        state.waits_for_members(),
        before.has_room_for(unit),
        unit.round() != 0,
        !before.reconstructing.contains_key(unit.hash),
        state.waiting == before.waiting.remove(unit.coord()),
    ensures
        state.with_reconstructing(
            unit.hash,
            ReconstructingView::Reconstructing(unit, nodes::empty(unit.n_members())),
        ).waits_for_members(),
{
    let started = state.with_reconstructing(
        unit.hash,
        ReconstructingView::Reconstructing(unit, nodes::empty(unit.n_members())),
    );
    assert forall|coord: UnitCoord, k: int|
        started.waiting.contains_key(coord) && 0 <= k < started.waiting[coord].len() implies (
    started.has_place(#[trigger] started.waiting[coord][k], coord.creator)) by {
        let hash = started.waiting[coord][k];
        assert(state.has_place(state.waiting[coord][k], coord.creator));
        assert(before.waiting[coord][k] == hash);
    }
}

/// A unit that has a place for a parent may wait for it.
proof fn lemma_one_more_waits<V>(state: ReconstructionView<V>, coord: UnitCoord, hash: V)
    requires
        state.waits_for_members(),
        state.has_place(hash, coord.creator),
    ensures
        state.with_waiting(coord, hash).waits_for_members(),
        forall|other: V, creator: NodeIndex|
            state.has_place(other, creator) ==> #[trigger] state.with_waiting(
                coord,
                hash,
            ).has_place(other, creator),
{
    let after = state.with_waiting(coord, hash);
    assert forall|other: UnitCoord, k: int|
        after.waiting.contains_key(other) && 0 <= k < after.waiting[other].len() implies (
    after.has_place(#[trigger] after.waiting[other][k], other.creator)) by {
        if other != coord {
            assert(state.has_place(state.waiting[other][k], other.creator));
        } else if k < state.children(coord).len() {
            assert(state.has_place(state.waiting[coord][k], coord.creator));
        }
    }
}

/// Where all the units are of one committee, each waits only for members of its own, and there is
/// room for every other unit of the committee.
pub proof fn lemma_committee_waits<V>(state: ReconstructionView<V>, unit: UnitView<V>)
    requires
        state.for_committee(unit.n_members()),
    ensures
        state.waits_for_members(),
        state.has_room_for(unit),
{
    assert forall|coord: UnitCoord, k: int|
        state.waiting.contains_key(coord) && 0 <= k < state.waiting[coord].len() implies (
    state.has_place(#[trigger] state.waiting[coord][k], coord.creator)) by {
        assert(state.waiting.contains_key(coord));
    }
}

proof fn lemma_parent_known_committee<H: Hasher>(
    state: ReconstructionView<HashOf<H>>,
    child: HashOf<H>,
    parent_id: NodeIndex,
    parent_hash: HashOf<H>,
    n: nat,
)
    requires
        state.for_committee(n),
        parent_id.0 < n,
    ensures
        parent_known::<H>(state, child, parent_id, parent_hash).0.for_committee(n),
{
    let after = parent_known::<H>(state, child, parent_id, parent_hash).0;
    assert forall|hash: HashOf<H>| #[trigger]
        after.reconstructing.contains_key(hash) implies after.reconstructing[hash].for_committee(
        n,
    ) by {
        assert(state.reconstructing.contains_key(hash));
    }
}

/// The parents of a unit are members of its committee.
proof fn lemma_parent_coords<V>(unit: UnitView<V>)
    requires
        unit.n_members() <= usize::MAX,
    ensures
        forall|i: int|
            0 <= i < parent_coords(unit).len() ==> (#[trigger] parent_coords(unit)[i]).creator.0
                < unit.n_members(),
{
    let mask = unit.pre_unit.control_hash.parents_mask;
    nodes::lemma_elements(mask);
}

} // verus!
