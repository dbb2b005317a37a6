//! Handling of units: what to do with those that come in, those that are missing and those that
//! have been saved.
use crate::alerts::{
    Alert, AlertView, ForkingNotification, ForkingNotificationView, SignedUnitView,
};
use crate::collections::VecSet;
use crate::crypto::{HashOf, Hasher, Keychain, SignatureOf};
use crate::dag;
use crate::dag::unit::{DagUnit, DagUnitView};
use crate::dag::validation;
use crate::dag::{Dag, DagResult, DagResultView, DagView};
use crate::data::Data;
use crate::dissemination::{
    NewestResponseView, Request, RequestView, Response, ResponseView, SignedNewestResponse,
    UnitMessage, UnitMessageView,
};
use crate::nodes::NodeIndex;
use crate::reconstruction::parents::{
    Request as ReconstructionRequest, RequestView as ReconstructionRequestView,
};
use crate::runway::status::RunwayStatus;
use crate::units;
use crate::units::store::{StoreView, UnitStore};
use crate::units::validator::Validator as UnitValidator;
use crate::units::{UncheckedSignedUnit, UnitCoord};
use vstd::prelude::*;

pub mod backup;
pub mod collection;
pub mod laws;
pub mod loading;
pub mod packer;
pub mod provider;
pub mod saving;
pub mod service;
pub mod session;
pub mod startup;
pub mod status;

verus! {

/// What the runway lets the network know.
pub enum RunwayNotificationOut<H: Hasher, D: Data, S: Data> {
    /// A new unit was generated by this runway
    NewSelfUnit(UncheckedSignedUnit<H, D, S>),
    /// A new unit was generated by this runway or imported from outside and added to the DAG
    NewAnyUnit(UncheckedSignedUnit<H, D, S>),
    Request(Request<H>),
    Response(Response<H, D, S>, NodeIndex),
}

/// The model of a notification to the network.
pub enum NotificationOutView<V, D, S> {
    NewSelfUnit(SignedUnitView<V, D, S>),
    NewAnyUnit(SignedUnitView<V, D, S>),
    Request(RequestView<V>),
    Response(ResponseView<V, D, S>, NodeIndex),
}

impl<H: Hasher, D: Data, S: Data> DeepView for RunwayNotificationOut<H, D, S> {
    type V = NotificationOutView<HashOf<H>, D::V, S::V>;

    open spec fn deep_view(&self) -> NotificationOutView<HashOf<H>, D::V, S::V> {
        match self {
            RunwayNotificationOut::NewSelfUnit(unit) => NotificationOutView::NewSelfUnit(
                unit.deep_view(),
            ),
            RunwayNotificationOut::NewAnyUnit(unit) => NotificationOutView::NewAnyUnit(
                unit.deep_view(),
            ),
            RunwayNotificationOut::Request(request) => NotificationOutView::Request(
                request.deep_view(),
            ),
            RunwayNotificationOut::Response(response, node) => NotificationOutView::Response(
                response.deep_view(),
                *node,
            ),
        }
    }
}

/// What the network lets the runway know.
pub enum RunwayNotificationIn<H: Hasher, D: Data, S: Data> {
    NewUnit(UncheckedSignedUnit<H, D, S>),
    Request(Request<H>, NodeIndex),
    Response(Response<H, D, S>),
}

/// The model of a notification from the network.
pub enum NotificationInView<V, D, S> {
    NewUnit(SignedUnitView<V, D, S>),
    Request(RequestView<V>, NodeIndex),
    Response(ResponseView<V, D, S>),
}

impl<H: Hasher, D: Data, S: Data> DeepView for RunwayNotificationIn<H, D, S> {
    type V = NotificationInView<HashOf<H>, D::V, S::V>;

    open spec fn deep_view(&self) -> NotificationInView<HashOf<H>, D::V, S::V> {
        match self {
            RunwayNotificationIn::NewUnit(unit) => NotificationInView::NewUnit(unit.deep_view()),
            RunwayNotificationIn::Request(request, node) => NotificationInView::Request(
                request.deep_view(),
                *node,
            ),
            RunwayNotificationIn::Response(response) => NotificationInView::Response(
                response.deep_view(),
            ),
        }
    }
}

/// What a message about units means for the runway.
pub open spec fn notification_of<V, D, S>(message: UnitMessageView<V, D, S>) -> NotificationInView<
    V,
    D,
    S,
> {
    match message {
        UnitMessageView::NewUnit(unit) => NotificationInView::NewUnit(unit),
        UnitMessageView::RequestCoord(node, coord) => NotificationInView::Request(
            RequestView::Coord(coord),
            node,
        ),
        UnitMessageView::RequestParents(node, hash) => NotificationInView::Request(
            RequestView::Parents(hash),
            node,
        ),
        UnitMessageView::ResponseCoord(unit) => NotificationInView::Response(
            ResponseView::Coord(unit),
        ),
        UnitMessageView::ResponseParents(hash, parents) => NotificationInView::Response(
            ResponseView::Parents(hash, parents),
        ),
        UnitMessageView::RequestNewest(node, salt) => NotificationInView::Request(
            RequestView::NewestUnit(node, salt),
            node,
        ),
        UnitMessageView::ResponseNewest(response) => NotificationInView::Response(
            ResponseView::NewestUnit(response),
        ),
    }
}

impl<H: Hasher, D: Data, S: Data> RunwayNotificationIn<H, D, S> {
    /// What a message about units means for the runway. Every message means something.
    pub fn try_from(message: UnitMessage<H, D, S>) -> (result: Result<Self, ()>)
        ensures
            result matches Ok(notification) && notification.deep_view() == notification_of(
                message.deep_view(),
            ),
    {
        let result: Self = match message {
            UnitMessage::NewUnit(u) => RunwayNotificationIn::NewUnit(u),
            UnitMessage::RequestCoord(node_id, coord) => {
                RunwayNotificationIn::Request(Request::Coord(coord), node_id)
            },
            UnitMessage::RequestParents(node_id, u_hash) => {
                RunwayNotificationIn::Request(Request::Parents(u_hash), node_id)
            },
            UnitMessage::ResponseCoord(u) => RunwayNotificationIn::Response(Response::Coord(u)),
            UnitMessage::ResponseParents(u_hash, parents) => {
                RunwayNotificationIn::Response(Response::Parents(u_hash, parents))
            },
            UnitMessage::RequestNewest(node_id, salt) => {
                RunwayNotificationIn::Request(Request::NewestUnit(node_id, salt), node_id)
            },
            UnitMessage::ResponseNewest(response) => {
                RunwayNotificationIn::Response(Response::NewestUnit(response))
            },
        };
        Ok(result)
    }
}

/// What the surroundings have to do.
pub enum Action<H: Hasher, D: Data, S: Data> {
    /// Save a unit, and come back with it.
    Save(DagUnit<H, D, S>),
    /// Raise an alert.
    Alert(Alert<H, D, S>),
    /// Notify the network.
    Notify(RunwayNotificationOut<H, D, S>),
    /// Let it be known that a request needs no more answers.
    Resolve(Request<H>),
    /// Offer a unit to the creator as a parent.
    OfferParent(DagUnit<H, D, S>),
    /// Put a unit into the total order.
    AddToOrder(DagUnit<H, D, S>),
    /// Hand a response to the initial unit collection.
    Collect(SignedNewestResponse<H, D, S>),
    /// Find out what to answer to a request of somebody.
    Answer(Request<H>, NodeIndex),
}

/// The model of an action.
pub enum ActionView<V, D, S> {
    Save(DagUnitView<V, D, S>),
    Alert(AlertView<V, D, S>),
    Notify(NotificationOutView<V, D, S>),
    Resolve(RequestView<V>),
    OfferParent(DagUnitView<V, D, S>),
    AddToOrder(DagUnitView<V, D, S>),
    Collect(NewestResponseView<V, D, S>),
    Answer(RequestView<V>, NodeIndex),
}

impl<H: Hasher, D: Data, S: Data> DeepView for Action<H, D, S> {
    type V = ActionView<HashOf<H>, D::V, S::V>;

    open spec fn deep_view(&self) -> ActionView<HashOf<H>, D::V, S::V> {
        match self {
            Action::Save(unit) => ActionView::Save(unit.deep_view()),
            Action::Alert(alert) => ActionView::Alert(alert.deep_view()),
            Action::Notify(notification) => ActionView::Notify(notification.deep_view()),
            Action::Resolve(request) => ActionView::Resolve(request.deep_view()),
            Action::OfferParent(unit) => ActionView::OfferParent(unit.deep_view()),
            Action::AddToOrder(unit) => ActionView::AddToOrder(unit.deep_view()),
            Action::Collect(response) => ActionView::Collect(response.deep_view()),
            Action::Answer(request, node) => ActionView::Answer(request.deep_view(), *node),
        }
    }
}

/// The model of the runway: what has been asked for, the units it has and the dag.
#[verifier::ext_equal]
#[verifier::reject_recursive_types(V)]
pub struct RunwayView<V, D, S> {
    pub missing_coords: Set<UnitCoord>,
    pub missing_parents: Set<V>,
    pub store: StoreView<V, DagUnitView<V, D, S>>,
    pub dag: DagView<V, D, S>,
}

impl<V, D, S> RunwayView<V, D, S> {
    pub open spec fn fresh() -> Self {
        RunwayView {
            missing_coords: Set::empty(),
            missing_parents: Set::empty(),
            store: StoreView::fresh(),
            dag: DagView::fresh(),
        }
    }
}

/// A unit that is not there is asked for, but only once.
pub open spec fn coord_missing<V, D, S>(state: RunwayView<V, D, S>, coord: UnitCoord) -> (
    RunwayView<V, D, S>,
    Seq<ActionView<V, D, S>>,
) {
    if state.store.canonical_unit(coord) is Some || state.missing_coords.contains(coord) {
        (state, seq![])
    } else {
        (
            RunwayView { missing_coords: state.missing_coords.insert(coord), ..state },
            seq![ActionView::Notify(NotificationOutView::Request(RequestView::Coord(coord)))],
        )
    }
}

/// The parents of a unit whose control hash does not match are asked for, but only once.
pub open spec fn parents_missing<V, D, S>(state: RunwayView<V, D, S>, hash: V) -> (
    RunwayView<V, D, S>,
    Seq<ActionView<V, D, S>>,
) {
    if state.missing_parents.contains(hash) {
        (state, seq![])
    } else {
        (
            RunwayView { missing_parents: state.missing_parents.insert(hash), ..state },
            seq![ActionView::Notify(NotificationOutView::Request(RequestView::Parents(hash)))],
        )
    }
}

/// What reconstruction asks for is asked for.
pub open spec fn requested<V, D, S>(
    state: RunwayView<V, D, S>,
    request: ReconstructionRequestView<V>,
) -> (RunwayView<V, D, S>, Seq<ActionView<V, D, S>>) {
    match request {
        ReconstructionRequestView::Coord(coord) => coord_missing(state, coord),
        ReconstructionRequestView::ParentsOf(hash) => parents_missing(state, hash),
    }
}

/// All that reconstruction asks for is asked for, one after another.
pub open spec fn all_requested<V, D, S>(
    state: RunwayView<V, D, S>,
    requests: Seq<ReconstructionRequestView<V>>,
) -> (RunwayView<V, D, S>, Seq<ActionView<V, D, S>>)
    decreases requests.len(),
{
    if requests.len() == 0 {
        (state, seq![])
    } else {
        let (before, actions) = all_requested(state, requests.drop_last());
        let (after, more) = requested(before, requests.last());
        (after, actions + more)
    }
}

/// What comes out of the dag is dealt with: first units are saved, then requests made and last
/// alerts raised.
pub open spec fn result_handled<V, D, S>(
    state: RunwayView<V, D, S>,
    result: DagResultView<V, D, S>,
) -> (RunwayView<V, D, S>, Seq<ActionView<V, D, S>>) {
    let (after, requests) = all_requested(state, result.requests);
    (
        after,
        result.units.map_values(|unit: DagUnitView<V, D, S>| ActionView::Save(unit)) + requests
            + result.alerts.map_values(|alert: AlertView<V, D, S>| ActionView::Alert(alert)),
    )
}

/// A unit comes in.
pub open spec fn unit_received<H: Hasher, D: Data, K: Keychain>(
    checker: &UnitValidator<K>,
    state: RunwayView<HashOf<H>, D::V, SignatureOf<K>>,
    unit: SignedUnitView<HashOf<H>, D::V, SignatureOf<K>>,
) -> (
    RunwayView<HashOf<H>, D::V, SignatureOf<K>>,
    Seq<ActionView<HashOf<H>, D::V, SignatureOf<K>>>,
) {
    let (dag, result) = dag::unit_added::<H, D, K>(checker, state.dag, state.store, unit);
    result_handled(RunwayView { dag, ..state }, result)
}

/// The parents of a unit come in; nothing happens if the unit is there already.
pub open spec fn parents_received<H: Hasher, D: Data, K: Keychain>(
    checker: &UnitValidator<K>,
    state: RunwayView<HashOf<H>, D::V, SignatureOf<K>>,
    hash: HashOf<H>,
    parents: Seq<SignedUnitView<HashOf<H>, D::V, SignatureOf<K>>>,
) -> (
    RunwayView<HashOf<H>, D::V, SignatureOf<K>>,
    Seq<ActionView<HashOf<H>, D::V, SignatureOf<K>>>,
) {
    if state.store.by_hash.contains_key(hash) {
        (state, seq![])
    } else {
        let (dag, result) = dag::parents_added::<H, D, K>(
            checker,
            state.dag,
            state.store,
            hash,
            parents,
        );
        result_handled(RunwayView { dag, ..state }, result)
    }
}

/// The alerts have something to say about forks.
pub open spec fn forking_notified<H: Hasher, D: Data, K: Keychain>(
    checker: &UnitValidator<K>,
    state: RunwayView<HashOf<H>, D::V, SignatureOf<K>>,
    notification: ForkingNotificationView<HashOf<H>, D::V, SignatureOf<K>>,
) -> (
    RunwayView<HashOf<H>, D::V, SignatureOf<K>>,
    Seq<ActionView<HashOf<H>, D::V, SignatureOf<K>>>,
) {
    let (dag, result) = dag::notification_processed::<H, D, K>(
        checker,
        state.dag,
        state.store,
        notification,
    );
    result_handled(RunwayView { dag, ..state }, result)
}

/// A message about units comes in.
pub open spec fn message_received<H: Hasher, D: Data, K: Keychain>(
    checker: &UnitValidator<K>,
    state: RunwayView<HashOf<H>, D::V, SignatureOf<K>>,
    message: NotificationInView<HashOf<H>, D::V, SignatureOf<K>>,
) -> (
    RunwayView<HashOf<H>, D::V, SignatureOf<K>>,
    Seq<ActionView<HashOf<H>, D::V, SignatureOf<K>>>,
) {
    match message {
        NotificationInView::NewUnit(unit) => unit_received::<H, D, K>(checker, state, unit),
        NotificationInView::Request(request, node) => (
            state,
            seq![ActionView::Answer(request, node)],
        ),
        NotificationInView::Response(ResponseView::Coord(unit)) => unit_received::<H, D, K>(
            checker,
            state,
            unit,
        ),
        NotificationInView::Response(ResponseView::Parents(hash, parents)) => parents_received::<
            H,
            D,
            K,
        >(checker, state, hash, parents),
        NotificationInView::Response(ResponseView::NewestUnit(response)) => (
            state,
            seq![ActionView::Collect(response)],
        ),
    }
}

/// The request for the parents of a unit is resolved if it was made.
pub open spec fn parents_resolved<V, D, S>(state: RunwayView<V, D, S>, hash: V) -> Seq<
    ActionView<V, D, S>,
> {
    if state.missing_parents.contains(hash) {
        seq![ActionView::Resolve(RequestView::Parents(hash))]
    } else {
        seq![]
    }
}

/// The request for the unit at some coordinates is resolved if it was made.
pub open spec fn coord_resolved<V, D, S>(state: RunwayView<V, D, S>, coord: UnitCoord) -> Seq<
    ActionView<V, D, S>,
> {
    if state.missing_coords.contains(coord) {
        seq![ActionView::Resolve(RequestView::Coord(coord))]
    } else {
        seq![]
    }
}

/// The announcements of a unit that has been saved; our own units are also sent out.
pub open spec fn announcements<V, D, S>(unit: DagUnitView<V, D, S>, own: bool) -> Seq<
    ActionView<V, D, S>,
> {
    seq![
        ActionView::OfferParent(unit),
        ActionView::Notify(NotificationOutView::NewAnyUnit(unit.unit)),
    ] + (if own {
        seq![ActionView::Notify(NotificationOutView::NewSelfUnit(unit.unit))]
    } else {
        seq![]
    }) + seq![ActionView::AddToOrder(unit)]
}

/// A unit has been saved.
pub open spec fn unit_saved<H: Hasher, D: Data, S: Data>(
    own_id: NodeIndex,
    state: RunwayView<HashOf<H>, D::V, S::V>,
    unit: DagUnitView<HashOf<H>, D::V, S::V>,
) -> (RunwayView<HashOf<H>, D::V, S::V>, Seq<ActionView<HashOf<H>, D::V, S::V>>) {
    let hash = units::unit_hash::<H, D>(unit.unit.signable);
    let coord = unit.unit.signable.coord();
    (
        RunwayView {
            missing_coords: state.missing_coords.remove(coord),
            missing_parents: state.missing_parents.remove(hash),
            store: state.store.with_unit(hash, coord, unit),
            dag: DagView {
                validator: validation::finished(state.dag.validator, hash),
                ..state.dag
            },
        },
        parents_resolved(state, hash) + coord_resolved(state, coord) + announcements(
            unit,
            unit.unit.signable.creator() == own_id,
        ),
    )
}

/// Appends some actions.
fn append<H: Hasher, D: Data, S: Data>(
    actions: &mut Vec<Action<H, D, S>>,
    more: Vec<Action<H, D, S>>,
)
    ensures
        final(actions).deep_view() == old(actions).deep_view() + more.deep_view(),
{
    let ghost added = more.deep_view();
    let mut more: Vec<Action<H, D, S>> = more;
    actions.append(&mut more);
    proof {
        assert(actions.deep_view() =~= old(actions).deep_view() + added);
    }
}

/// Appends an action.
fn push<H: Hasher, D: Data, S: Data>(actions: &mut Vec<Action<H, D, S>>, action: Action<H, D, S>)
    ensures
        final(actions).deep_view() == old(actions).deep_view().push(action.deep_view()),
{
    let ghost added = action.deep_view();
    actions.push(action);
    proof {
        assert(actions.deep_view() =~= old(actions).deep_view().push(added));
    }
}

/// Handles units. Whatever has to be done elsewhere is returned, in order.
pub struct Runway<'a, H: Hasher, D: Data, K: Keychain> {
    own_id: NodeIndex,
    missing_coords: VecSet<UnitCoord>,
    missing_parents: VecSet<H::Hash>,
    store: UnitStore<DagUnit<H, D, K::Signature>>,
    dag: Dag<'a, H, D, K>,
}

impl<'a, H: Hasher, D: Data, K: Keychain> DeepView for Runway<'a, H, D, K> {
    type V = RunwayView<HashOf<H>, D::V, SignatureOf<K>>;

    closed spec fn deep_view(&self) -> RunwayView<HashOf<H>, D::V, SignatureOf<K>> {
        RunwayView {
            missing_coords: self.missing_coords.deep_view(),
            missing_parents: self.missing_parents.deep_view(),
            store: self.store.deep_view(),
            dag: self.dag.deep_view(),
        }
    }
}

impl<'a, H: Hasher, D: Data, K: Keychain> Runway<'a, H, D, K> {
    /// What units are checked with on their own.
    pub closed spec fn checker(&self) -> UnitValidator<'a, K> {
        self.dag.checker()
    }

    /// Whose runway this is.
    pub closed spec fn owner(&self) -> NodeIndex {
        self.own_id
    }

    /// The dag is well-formed.
    pub closed spec fn wf(&self) -> bool {
        self.dag.wf()
    }

    /// The parts that never change.
    pub open spec fn same_setup(&self, other: &Self) -> bool {
        &&& self.checker() == other.checker()
        &&& self.owner() == other.owner()
    }

    pub fn new(keychain: &K, validator: UnitValidator<'a, K>) -> (result: Self)
        ensures
            result.wf(),
            result.owner() == keychain.node(),
            result.checker() == validator,
            result.deep_view() == RunwayView::<HashOf<H>, D::V, SignatureOf<K>>::fresh(),
    {
        Runway {
            own_id: keychain.index(),
            store: UnitStore::new(),
            dag: Dag::new(validator),
            missing_coords: VecSet::new(),
            missing_parents: VecSet::new(),
        }
    }

    pub fn index(&self) -> (index: NodeIndex)
        ensures
            index == self.owner(),
    {
        self.own_id
    }

    /// The units that are there.
    pub fn store(&self) -> (store: &UnitStore<DagUnit<H, D, K::Signature>>)
        ensures
            store.deep_view() == self.deep_view().store,
    {
        &self.store
    }

    fn handle_dag_result(&mut self, result: DagResult<H, D, K::Signature>) -> (actions: Vec<
        Action<H, D, K::Signature>,
    >)
        requires
            old(self).wf(),
        ensures
            final(self).wf(),
            final(self).same_setup(old(self)),
            (final(self).deep_view(), actions.deep_view()) == result_handled(
                old(self).deep_view(),
                result.deep_view(),
            ),
    {
        let ghost before = self.deep_view();
        let ghost all = result.deep_view();
        let (units, requests, alerts) = result.into_parts();
        let mut actions: Vec<Action<H, D, K::Signature>> = Vec::new();
        let n_units: usize = units.len();
        let ghost saves = all.units.map_values(
            |unit: DagUnitView<HashOf<H>, D::V, SignatureOf<K>>| ActionView::Save(unit),
        );
        proof {
            assert(actions.deep_view() =~= saves.take(0));
        }
        for i in 0..n_units
            invariant
                n_units == units@.len(),
                all.units == units.deep_view(),
                saves == all.units.map_values(
                    |unit: DagUnitView<HashOf<H>, D::V, SignatureOf<K>>| ActionView::Save(unit),
                ),
                actions.deep_view() == saves.take(i as int),
        {
            push(&mut actions, Self::on_unit_reconstructed(units[i].copy()));
            proof {
                assert(saves.take(i + 1) =~= saves.take(i as int).push(saves[i as int]));
            }
        }
        proof {
            assert(saves.take(n_units as int) =~= saves);
        }
        let n_requests: usize = requests.len();
        proof {
            assert(all.requests.take(0) =~= seq![]);
            assert(actions.deep_view() =~= saves + seq![]);
        }
        for i in 0..n_requests
            invariant
                n_requests == requests@.len(),
                all.requests == requests.deep_view(),
                self.wf(),
                self.same_setup(old(self)),
                self.deep_view() == all_requested(before, all.requests.take(i as int)).0,
                actions.deep_view() == saves + all_requested(
                    before,
                    all.requests.take(i as int),
                ).1,
        {
            let more: Vec<Action<H, D, K::Signature>> = self.on_reconstruction_request(
                &requests[i],
            );
            append(&mut actions, more);
            proof {
                assert(all.requests.take(i + 1).drop_last() =~= all.requests.take(i as int));
                assert(all.requests.take(i + 1).last() == requests@[i as int].deep_view());
                assert(actions.deep_view() =~= saves + all_requested(
                    before,
                    all.requests.take(i + 1),
                ).1);
            }
        }
        proof {
            assert(all.requests.take(n_requests as int) =~= all.requests);
        }
        let ghost so_far = actions.deep_view();
        let ghost raised = all.alerts.map_values(
            |alert: AlertView<HashOf<H>, D::V, SignatureOf<K>>| ActionView::Alert(alert),
        );
        let n_alerts: usize = alerts.len();
        proof {
            assert(actions.deep_view() =~= so_far + raised.take(0));
        }
        for i in 0..n_alerts
            invariant
                n_alerts == alerts@.len(),
                all.alerts == alerts.deep_view(),
                raised == all.alerts.map_values(
                    |alert: AlertView<HashOf<H>, D::V, SignatureOf<K>>| ActionView::Alert(alert),
                ),
                actions.deep_view() == so_far + raised.take(i as int),
        {
            push(&mut actions, Action::Alert(alerts[i].copy()));
            proof {
                assert(raised.take(i + 1) =~= raised.take(i as int).push(raised[i as int]));
                assert(actions.deep_view() =~= so_far + raised.take(i + 1));
            }
        }
        proof {
            assert(raised.take(n_alerts as int) =~= raised);
        }
        actions
    }

    /// A unit comes in.
    pub fn on_unit_received(&mut self, unit: UncheckedSignedUnit<H, D, K::Signature>) -> (actions:
        Vec<Action<H, D, K::Signature>>)
        requires
            old(self).wf(),
        ensures
            final(self).wf(),
            final(self).same_setup(old(self)),
            (final(self).deep_view(), actions.deep_view()) == unit_received::<H, D, K>(
                &old(self).checker(),
                old(self).deep_view(),
                unit.deep_view(),
            ),
    {
        let result: DagResult<H, D, K::Signature> = self.dag.add_unit(unit, &self.store);
        self.handle_dag_result(result)
    }

    /// A message about units comes in.
    pub fn on_unit_message(&mut self, message: RunwayNotificationIn<H, D, K::Signature>) -> (actions:
        Vec<Action<H, D, K::Signature>>)
        requires
            old(self).wf(),
        ensures
            final(self).wf(),
            final(self).same_setup(old(self)),
            (final(self).deep_view(), actions.deep_view()) == message_received::<H, D, K>(
                &old(self).checker(),
                old(self).deep_view(),
                message.deep_view(),
            ),
    {
        match message {
            RunwayNotificationIn::NewUnit(u) => self.on_unit_received(u),
            RunwayNotificationIn::Request(request, node_id) => Self::just(
                Action::Answer(request, node_id),
            ),
            RunwayNotificationIn::Response(Response::Coord(u)) => self.on_unit_received(u),
            RunwayNotificationIn::Response(Response::Parents(u_hash, parents)) => {
                self.on_parents_response(u_hash, parents)
            },
            RunwayNotificationIn::Response(Response::NewestUnit(response)) => Self::just(
                Action::Collect(response),
            ),
        }
    }

    /// The answer to a request has been found, or there is none.
    pub fn on_answer(response: Option<Response<H, D, K::Signature>>, node_id: NodeIndex) -> (actions:
        Vec<Action<H, D, K::Signature>>)
        ensures
            actions.deep_view() == (match response {
                Some(response) => seq![
                    ActionView::Notify(
                        NotificationOutView::Response(response.deep_view(), node_id),
                    ),
                ],
                None => seq![],
            }),
    {
        match response {
            Some(response) => Self::just(
                Action::Notify(RunwayNotificationOut::Response(response, node_id)),
            ),
            None => Self::nothing(),
        }
    }

    fn nothing() -> (actions: Vec<Action<H, D, K::Signature>>)
        ensures
            actions.deep_view() == Seq::<
                ActionView<HashOf<H>, D::V, SignatureOf<K>>,
            >::empty(),
    {
        let actions: Vec<Action<H, D, K::Signature>> = Vec::new();
        proof {
            assert(actions.deep_view() =~= seq![]);
        }
        actions
    }

    fn just(action: Action<H, D, K::Signature>) -> (actions: Vec<Action<H, D, K::Signature>>)
        ensures
            actions.deep_view() == seq![action.deep_view()],
    {
        let mut actions: Vec<Action<H, D, K::Signature>> = Self::nothing();
        push(&mut actions, action);
        actions
    }

    fn resolve_missing_coord(&mut self, coord: &UnitCoord) -> (actions: Vec<
        Action<H, D, K::Signature>,
    >)
        requires
            old(self).wf(),
        ensures
            final(self).wf(),
            final(self).same_setup(old(self)),
            final(self).deep_view() == (RunwayView {
                missing_coords: old(self).deep_view().missing_coords.remove(*coord),
                ..old(self).deep_view()
            }),
            actions.deep_view() == coord_resolved(old(self).deep_view(), *coord),
    {
        if self.missing_coords.remove(coord) {
            Self::just(Action::Resolve(Request::Coord(*coord)))
        } else {
            Self::nothing()
        }
    }

    /// The parents of a unit come in.
    pub fn on_parents_response(
        &mut self,
        u_hash: H::Hash,
        parents: Vec<UncheckedSignedUnit<H, D, K::Signature>>,
    ) -> (actions: Vec<Action<H, D, K::Signature>>)
        requires
            old(self).wf(),
        ensures
            final(self).wf(),
            final(self).same_setup(old(self)),
            (final(self).deep_view(), actions.deep_view()) == parents_received::<H, D, K>(
                &old(self).checker(),
                old(self).deep_view(),
                u_hash.deep_view(),
                parents.deep_view(),
            ),
    {
        if self.store.unit(&u_hash).is_some() {
            return Self::nothing();
        }
        let result: DagResult<H, D, K::Signature> = self.dag.add_parents(
            &u_hash,
            parents,
            &self.store,
        );
        self.handle_dag_result(result)
    }

    /// The alerts have something to say about forks.
    pub fn on_forking_notification(
        &mut self,
        notification: ForkingNotification<H, D, K::Signature>,
    ) -> (actions: Vec<Action<H, D, K::Signature>>)
        requires
            old(self).wf(),
        ensures
            final(self).wf(),
            final(self).same_setup(old(self)),
            (final(self).deep_view(), actions.deep_view()) == forking_notified::<H, D, K>(
                &old(self).checker(),
                old(self).deep_view(),
                notification.deep_view(),
            ),
    {
        let result: DagResult<H, D, K::Signature> = self.dag.process_forking_notification(
            notification,
            &self.store,
        );
        self.handle_dag_result(result)
    }

    fn resolve_missing_parents(&mut self, u_hash: &H::Hash) -> (actions: Vec<
        Action<H, D, K::Signature>,
    >)
        requires
            old(self).wf(),
        ensures
            final(self).wf(),
            final(self).same_setup(old(self)),
            final(self).deep_view() == (RunwayView {
                missing_parents: old(self).deep_view().missing_parents.remove(u_hash.deep_view()),
                ..old(self).deep_view()
            }),
            actions.deep_view() == parents_resolved(old(self).deep_view(), u_hash.deep_view()),
    {
        if self.missing_parents.remove(u_hash) {
            Self::just(Action::Resolve(Request::Parents(u_hash.copy())))
        } else {
            Self::nothing()
        }
    }

    fn on_reconstruction_request(&mut self, request: &ReconstructionRequest<H>) -> (actions: Vec<
        Action<H, D, K::Signature>,
    >)
        requires
            old(self).wf(),
        ensures
            final(self).wf(),
            final(self).same_setup(old(self)),
            (final(self).deep_view(), actions.deep_view()) == requested(
                old(self).deep_view(),
                request.deep_view(),
            ),
    {
        match request {
            ReconstructionRequest::Coord(coord) => self.on_missing_coord(*coord),
            ReconstructionRequest::ParentsOf(h) => self.on_wrong_control_hash(h.copy()),
        }
    }

    /// A unit whose parents are all known has to be saved before anything else happens to it.
    fn on_unit_reconstructed(unit: DagUnit<H, D, K::Signature>) -> (action: Action<
        H,
        D,
        K::Signature,
    >)
        ensures
            action.deep_view() == ActionView::Save(unit.deep_view()),
    {
        Action::Save(unit)
    }

    /// A unit has been saved.
    pub fn on_unit_backup_saved(&mut self, unit: DagUnit<H, D, K::Signature>) -> (actions: Vec<
        Action<H, D, K::Signature>,
    >)
        requires
            old(self).wf(),
        ensures
            final(self).wf(),
            final(self).same_setup(old(self)),
            (final(self).deep_view(), actions.deep_view()) == unit_saved::<H, D, K::Signature>(
                old(self).owner(),
                old(self).deep_view(),
                unit.deep_view(),
            ),
    {
        let ghost before = self.deep_view();
        let ghost saved = unit.deep_view();
        let unit_hash: H::Hash = unit.hash();
        self.store.insert(unit.copy());
        self.dag.finished_processing(&unit_hash);
        let mut actions: Vec<Action<H, D, K::Signature>> = self.resolve_missing_parents(&unit_hash);
        let resolved: Vec<Action<H, D, K::Signature>> = self.resolve_missing_coord(&unit.coord());
        append(&mut actions, resolved);
        push(&mut actions, Action::OfferParent(unit.copy()));
        push(
            &mut actions,
            Action::Notify(RunwayNotificationOut::NewAnyUnit(unit.to_unchecked())),
        );
        if unit.creator() == self.index() {
            push(
                &mut actions,
                Action::Notify(RunwayNotificationOut::NewSelfUnit(unit.to_unchecked())),
            );
        }
        push(&mut actions, Action::AddToOrder(unit));
        proof {
            let after = unit_saved::<H, D, K::Signature>(old(self).owner(), before, saved);
            assert(actions.deep_view() =~= after.1);
            assert(self.deep_view() =~= after.0);
        }
        actions
    }

    /// A unit at these coordinates is needed.
    pub fn on_missing_coord(&mut self, coord: UnitCoord) -> (actions: Vec<
        Action<H, D, K::Signature>,
    >)
        requires
            old(self).wf(),
        ensures
            final(self).wf(),
            final(self).same_setup(old(self)),
            (final(self).deep_view(), actions.deep_view()) == coord_missing(
                old(self).deep_view(),
                coord,
            ),
    {
        let ghost before = self.deep_view();
        if self.store.canonical_unit(coord).is_none() {
            let new_request: bool = self.missing_coords.insert(coord);
            if new_request {
                return Self::just(
                    Action::Notify(RunwayNotificationOut::Request(Request::Coord(coord))),
                );
            }
        }
        proof {
            assert(self.deep_view() =~= before);
        }
        Self::nothing()
    }

    /// The explicit parents of a unit are needed.
    pub fn on_wrong_control_hash(&mut self, u_hash: H::Hash) -> (actions: Vec<
        Action<H, D, K::Signature>,
    >)
        requires
            old(self).wf(),
        ensures
            final(self).wf(),
            final(self).same_setup(old(self)),
            (final(self).deep_view(), actions.deep_view()) == parents_missing(
                old(self).deep_view(),
                u_hash.deep_view(),
            ),
    {
        let ghost before = self.deep_view();
        if self.missing_parents.insert(u_hash.copy()) {
            return Self::just(
                Action::Notify(RunwayNotificationOut::Request(Request::Parents(u_hash))),
            );
        }
        proof {
            assert(self.deep_view() =~= before);
        }
        Self::nothing()
    }

    /// What is missing and how far behind we are.
    pub fn status(&self) -> (status: RunwayStatus<'_, H>)
        ensures
            status.missing_coords.deep_view() == self.deep_view().missing_coords,
            status.missing_parents.deep_view() == self.deep_view().missing_parents,
            self.deep_view().dag.validator.processing.is_top_round(status.dag_top_round),
            self.deep_view().store.is_top_round(status.store_top_round),
    {
        RunwayStatus {
            missing_coords: &self.missing_coords,
            missing_parents: &self.missing_parents,
            dag_top_round: self.dag.top_round(),
            store_top_round: self.store.top_round(),
        }
    }
}

} // verus!
