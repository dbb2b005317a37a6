//! What can be relied on when units are handled.
use crate::alerts::{ForkingNotificationView, SignedUnitView};
use crate::crypto::{HashOf, Hasher, Keychain, SignatureOf};
use crate::dag;
use crate::dag::laws;
use crate::dag::laws::{coherent, parents_apart};
use crate::dag::order;
use crate::dag::response;
use crate::dag::unit::DagUnitView;
use crate::dag::DagResultView;
use crate::data::Data;
use crate::dissemination::{RequestView, ResponseView, UnitMessageView};
use crate::nodes::NodeIndex;
use crate::reconstruction::parents::RequestView as ReconstructionRequestView;
use crate::runway;
use crate::runway::{ActionView, NotificationInView, NotificationOutView, RunwayView};
use crate::units;
use crate::units::store::StoreView;
use crate::units::validator::Validator as UnitValidator;
use crate::units::{UnitCoord, UnitView};
use vstd::prelude::*;

verus! {

/// Nothing is asked for that is there.
pub open spec fn asks_sensibly<V, D, S>(state: RunwayView<V, D, S>) -> bool {
    forall|coord: UnitCoord| #[trigger]
        state.missing_coords.contains(coord) ==> state.store.canonical_unit(coord) is None
}

/// Whether an action lets a unit out of our hands.
pub open spec fn lets_out<V, D, S>(action: ActionView<V, D, S>) -> bool {
    match action {
        ActionView::Notify(NotificationOutView::NewSelfUnit(_)) => true,
        ActionView::Notify(NotificationOutView::NewAnyUnit(_)) => true,
        ActionView::OfferParent(_) => true,
        ActionView::AddToOrder(_) => true,
        _ => false,
    }
}

/// None of the actions lets a unit out of our hands.
pub open spec fn keeps_all<V, D, S>(actions: Seq<ActionView<V, D, S>>) -> bool {
    forall|i: int| 0 <= i < actions.len() ==> !lets_out(#[trigger] actions[i])
}

proof fn lemma_requests<V, D, S>(
    state: RunwayView<V, D, S>,
    requests: Seq<ReconstructionRequestView<V>>,
)
    ensures
        ({
            let (after, actions) = runway::all_requested(state, requests);
            &&& keeps_all(actions)
            &&& after.store == state.store
            &&& after.dag == state.dag
            &&& asks_sensibly(state) ==> asks_sensibly(after)
        }),
    decreases requests.len(),
{
    if requests.len() > 0 {
        lemma_requests(state, requests.drop_last());
        let (before, first) = runway::all_requested(state, requests.drop_last());
        let (after, second) = runway::requested(before, requests.last());
        let actions = first + second;
        assert forall|i: int| 0 <= i < actions.len() implies !lets_out(#[trigger] actions[i]) by {
            if i < first.len() {
                assert(actions[i] == first[i]);
            } else {
                assert(actions[i] == second[i - first.len()]);
            }
        }
    }
}

proof fn lemma_result<V, D, S>(state: RunwayView<V, D, S>, result: DagResultView<V, D, S>)
    ensures
        ({
            let (after, actions) = runway::result_handled(state, result);
            &&& keeps_all(actions)
            &&& after.store == state.store
            &&& asks_sensibly(state) ==> asks_sensibly(after)
        }),
{
    lemma_requests(state, result.requests);
    let requests = runway::all_requested(state, result.requests).1;
    let actions = runway::result_handled(state, result).1;
    let n = result.units.len();
    assert forall|i: int| 0 <= i < actions.len() implies !lets_out(#[trigger] actions[i]) by {
        if n <= i < n + requests.len() {
            assert(actions[i] == requests[i - n]);
        }
    }
}

/// Whatever comes in, no unit is stored, sent out, offered to the creator or put into the total
/// order because of it: all that happens only after the unit has been saved.
pub proof fn law_nothing_before_saving<H: Hasher, D: Data, K: Keychain>(
    checker: &UnitValidator<K>,
    state: RunwayView<HashOf<H>, D::V, SignatureOf<K>>,
    message: NotificationInView<HashOf<H>, D::V, SignatureOf<K>>,
)
    ensures
        ({
            let (after, actions) = runway::message_received::<H, D, K>(checker, state, message);
            &&& keeps_all(actions)
            &&& after.store == state.store
        }),
{
    lemma_message::<H, D, K>(checker, state, message);
}

proof fn lemma_message<H: Hasher, D: Data, K: Keychain>(
    checker: &UnitValidator<K>,
    state: RunwayView<HashOf<H>, D::V, SignatureOf<K>>,
    message: NotificationInView<HashOf<H>, D::V, SignatureOf<K>>,
)
    ensures
        ({
            let (after, actions) = runway::message_received::<H, D, K>(checker, state, message);
            &&& keeps_all(actions)
            &&& after.store == state.store
            &&& asks_sensibly(state) ==> asks_sensibly(after)
        }),
{
    assert forall|
        before: RunwayView<HashOf<H>, D::V, SignatureOf<K>>,
        result: DagResultView<HashOf<H>, D::V, SignatureOf<K>>,
    |
        #![trigger runway::result_handled(before, result)]
        {
            let (after, actions) = runway::result_handled(before, result);
            &&& keeps_all(actions)
            &&& after.store == before.store
            &&& asks_sensibly(before) ==> asks_sensibly(after)
        } by {
        lemma_result(before, result);
    }
}

/// Nothing is ever asked for that is there: this holds at the start, whatever comes in and whatever
/// is saved.
pub proof fn law_asks_sensibly<H: Hasher, D: Data, K: Keychain>(
    checker: &UnitValidator<K>,
    own_id: NodeIndex,
    state: RunwayView<HashOf<H>, D::V, SignatureOf<K>>,
    message: NotificationInView<HashOf<H>, D::V, SignatureOf<K>>,
    unit: DagUnitView<HashOf<H>, D::V, SignatureOf<K>>,
)
    requires
        asks_sensibly(state),
        forall|coord: UnitCoord| #[trigger]
            state.store.canonical.contains_key(coord) ==> state.store.by_hash.contains_key(
                state.store.canonical[coord],
            ),
    ensures
        asks_sensibly(RunwayView::<HashOf<H>, D::V, SignatureOf<K>>::fresh()),
        asks_sensibly(runway::message_received::<H, D, K>(checker, state, message).0),
        asks_sensibly(runway::unit_saved::<H, D, K::Signature>(own_id, state, unit).0),
{
    lemma_message::<H, D, K>(checker, state, message);
}

/// A missing unit is asked for once: asking again does nothing until it has been saved.
pub proof fn law_asked_once<V, D, S>(state: RunwayView<V, D, S>, coord: UnitCoord)
    ensures
        ({
            let after = runway::coord_missing(state, coord).0;
            runway::coord_missing(after, coord) == (after, Seq::<ActionView<V, D, S>>::empty())
        }),
{
}

/// Once a unit has been saved, nobody is asked for it or for its parents any more, and whoever was
/// asked for them is told.
pub proof fn law_saving_resolves<H: Hasher, D: Data, S: Data>(
    own_id: NodeIndex,
    state: RunwayView<HashOf<H>, D::V, S::V>,
    unit: DagUnitView<HashOf<H>, D::V, S::V>,
)
    ensures
        ({
            let (after, actions) = runway::unit_saved::<H, D, S>(own_id, state, unit);
            let hash = units::unit_hash::<H, D>(unit.unit.signable);
            let coord = unit.unit.signable.coord();
            &&& !after.missing_coords.contains(coord)
            &&& !after.missing_parents.contains(hash)
            &&& after.store.by_hash.contains_key(hash)
            &&& state.missing_coords.contains(coord) ==> actions.contains(
                ActionView::Resolve(RequestView::Coord(coord)),
            )
            &&& state.missing_parents.contains(hash) ==> actions.contains(
                ActionView::Resolve(RequestView::Parents(hash)),
            )
        }),
{
    let actions = runway::unit_saved::<H, D, S>(own_id, state, unit).1;
    let hash = units::unit_hash::<H, D>(unit.unit.signable);
    let coord = unit.unit.signable.coord();
    if state.missing_parents.contains(hash) {
        assert(actions[0] == ActionView::<HashOf<H>, D::V, S::V>::Resolve(
            RequestView::Parents(hash),
        ));
        if state.missing_coords.contains(coord) {
            assert(actions[1] == ActionView::<HashOf<H>, D::V, S::V>::Resolve(
                RequestView::Coord(coord),
            ));
        }
    } else if state.missing_coords.contains(coord) {
        assert(actions[0] == ActionView::<HashOf<H>, D::V, S::V>::Resolve(
            RequestView::Coord(coord),
        ));
    }
}

/// What comes out of the dag is dealt with as a whole: the first actions save its units, in order,
/// and no other action does; the last ones raise its alerts, in order, and no other action does; in
/// between there are requests to the network only.
pub open spec fn deals_with<V, D, S>(
    result: DagResultView<V, D, S>,
    actions: Seq<ActionView<V, D, S>>,
) -> bool {
    let (n, m) = (result.units.len() as int, result.alerts.len() as int);
    &&& n + m <= actions.len()
    &&& forall|k: int| 0 <= k < n ==> #[trigger] actions[k] == ActionView::Save(result.units[k])
    &&& forall|k: int|
        n <= k < actions.len() - m ==> (
        #[trigger] actions[k] matches ActionView::Notify(notification) && notification is Request)
    &&& forall|k: int|
        0 <= k < m ==> #[trigger] actions[actions.len() - m + k] == ActionView::Alert(
            result.alerts[k],
        )
}

/// The action that asks the network for a unit.
pub open spec fn asking_for_unit<V, D, S>(coord: UnitCoord) -> ActionView<V, D, S> {
    ActionView::Notify(NotificationOutView::Request(RequestView::Coord(coord)))
}

/// The action that asks the network for the parents of a unit.
pub open spec fn asking_for_parents<V, D, S>(hash: V) -> ActionView<V, D, S> {
    ActionView::Notify(NotificationOutView::Request(RequestView::Parents(hash)))
}

/// The units that have been asked for grow by exactly those that the dag asks for and that are not
/// there, and exactly those that are newly asked for are requested from the network.
pub open spec fn asks_for_units<V, D, S>(
    store: StoreView<V, DagUnitView<V, D, S>>,
    before: Set<UnitCoord>,
    requests: Seq<ReconstructionRequestView<V>>,
    after: Set<UnitCoord>,
    actions: Seq<ActionView<V, D, S>>,
) -> bool {
    forall|coord: UnitCoord| #[trigger]
        after.contains(coord) == (before.contains(coord) || (store.canonical_unit(coord) is None
            && requests.contains(ReconstructionRequestView::Coord(coord)))) && actions.contains(
            asking_for_unit(coord),
        ) == (after.contains(coord) && !before.contains(coord))
}

/// The units whose parents have been asked for grow by exactly those whose parents the dag asks for,
/// and exactly what is newly asked for is requested from the network.
pub open spec fn asks_for_parents<V, D, S>(
    before: Set<V>,
    requests: Seq<ReconstructionRequestView<V>>,
    after: Set<V>,
    actions: Seq<ActionView<V, D, S>>,
) -> bool {
    forall|hash: V| #[trigger]
        after.contains(hash) == (before.contains(hash) || requests.contains(
            ReconstructionRequestView::ParentsOf(hash),
        )) && actions.contains(asking_for_parents(hash)) == (after.contains(hash)
            && !before.contains(hash))
}

/// What has been asked for grows by exactly what the dag asks for and is not there, and exactly what
/// is newly asked for is requested from the network.
pub open spec fn asks_for<V, D, S>(
    before: RunwayView<V, D, S>,
    requests: Seq<ReconstructionRequestView<V>>,
    after: RunwayView<V, D, S>,
    actions: Seq<ActionView<V, D, S>>,
) -> bool {
    &&& asks_for_units(
        before.store,
        before.missing_coords,
        requests,
        after.missing_coords,
        actions,
    )
    &&& asks_for_parents(before.missing_parents, requests, after.missing_parents, actions)
}

/// What a sequence contains once another one, of at most one item, has been put behind it.
proof fn lemma_one_more<T>(first: Seq<T>, second: Seq<T>, item: T)
    requires
        second.len() <= 1,
    ensures
        (first + second).contains(item) <==> first.contains(item) || (second.len() == 1
            && second[0] == item),
{
    let both = first + second;
    if first.contains(item) {
        let i = choose|i: int| 0 <= i < first.len() && first[i] == item;
        assert(both[i] == item);
    }
    if second.len() == 1 {
        assert(both[first.len() as int] == second[0]);
    }
    if both.contains(item) {
        let i = choose|i: int| 0 <= i < both.len() && both[i] == item;
        if i < first.len() {
            assert(first[i] == item);
        } else {
            assert(second[i - first.len()] == item);
        }
    }
}

proof fn lemma_one_more_unit<V, D, S>(
    start: RunwayView<V, D, S>,
    rest: Seq<ReconstructionRequestView<V>>,
    middle: RunwayView<V, D, S>,
    first: Seq<ActionView<V, D, S>>,
    last: ReconstructionRequestView<V>,
)
    requires
        middle.store == start.store,
        asks_for(start, rest, middle, first),
    ensures
        ({
            let (after, second) = runway::requested(middle, last);
            asks_for(start, rest.push(last), after, first + second)
        }),
{
    let (after, second) = runway::requested(middle, last);
    assert(rest.push(last) =~= rest + seq![last]);
    assert forall|coord: UnitCoord| #[trigger]
        after.missing_coords.contains(coord) == (start.missing_coords.contains(coord) || (
        start.store.canonical_unit(coord) is None && rest.push(last).contains(
            ReconstructionRequestView::Coord(coord),
        ))) && (first + second).contains(asking_for_unit(coord)) == (after.missing_coords.contains(
            coord,
        ) && !start.missing_coords.contains(coord)) by {
        lemma_one_more(rest, seq![last], ReconstructionRequestView::<V>::Coord(coord));
        lemma_one_more(first, second, asking_for_unit(coord));
        assert(middle.missing_coords.contains(coord) == (start.missing_coords.contains(coord) || (
        start.store.canonical_unit(coord) is None && rest.contains(
            ReconstructionRequestView::Coord(coord),
        ))));
    }
    assert forall|hash: V| #[trigger]
        after.missing_parents.contains(hash) == (start.missing_parents.contains(hash)
            || rest.push(last).contains(ReconstructionRequestView::ParentsOf(hash))) && (first
            + second).contains(asking_for_parents(hash)) == (after.missing_parents.contains(hash)
            && !start.missing_parents.contains(hash)) by {
        lemma_one_more(rest, seq![last], ReconstructionRequestView::<V>::ParentsOf(hash));
        lemma_one_more(first, second, asking_for_parents(hash));
        assert(middle.missing_parents.contains(hash) == (start.missing_parents.contains(hash)
            || rest.contains(ReconstructionRequestView::ParentsOf(hash))));
    }
}

proof fn lemma_only_requests<V, D, S>(
    state: RunwayView<V, D, S>,
    requests: Seq<ReconstructionRequestView<V>>,
)
    ensures
        ({
            let (after, actions) = runway::all_requested(state, requests);
            &&& after.store == state.store
            &&& after.dag == state.dag
            &&& forall|k: int|
                0 <= k < actions.len() ==> (
                #[trigger] actions[k] matches ActionView::Notify(notification)
                    && notification is Request)
            &&& asks_for(state, requests, after, actions)
        }),
    decreases requests.len(),
{
    let (after, actions) = runway::all_requested(state, requests);
    if requests.len() > 0 {
        let rest = requests.drop_last();
        let last = requests.last();
        lemma_only_requests(state, rest);
        let (middle, first) = runway::all_requested(state, rest);
        let second = runway::requested(middle, last).1;
        assert(actions == first + second);
        assert forall|k: int| 0 <= k < actions.len() implies (
        #[trigger] actions[k] matches ActionView::Notify(notification)
            && notification is Request) by {
            if k < first.len() {
                assert(actions[k] == first[k]);
            } else {
                assert(actions[k] == second[k - first.len()]);
            }
        }
        assert(requests =~= rest.push(last));
        lemma_one_more_unit(state, rest, middle, first, last);
    }
}

/// Everything that comes out of the dag is dealt with: all its units are saved, all that it asks
/// for and is not there is asked for, once, and all its alerts are raised.
pub proof fn law_result_dealt_with<V, D, S>(
    state: RunwayView<V, D, S>,
    result: DagResultView<V, D, S>,
)
    ensures
        ({
            let (after, actions) = runway::result_handled(state, result);
            &&& after.store == state.store
            &&& after.dag == state.dag
            &&& deals_with(result, actions)
            &&& asks_for(state, result.requests, after, actions)
        }),
{
    let (after, requests) = runway::all_requested(state, result.requests);
    let actions = runway::result_handled(state, result).1;
    lemma_only_requests(state, result.requests);
    let (n, m) = (result.units.len() as int, result.alerts.len() as int);
    assert(actions.len() == n + requests.len() + m);
    assert forall|k: int| n <= k < actions.len() - m implies #[trigger] actions[k]
        == requests[k - n] by {}
    assert forall|action: ActionView<V, D, S>| action is Notify implies #[trigger] actions.contains(
        action,
    ) == requests.contains(action) by {
        if requests.contains(action) {
            let i = choose|i: int| 0 <= i < requests.len() && requests[i] == action;
            assert(actions[n + i] == action);
        }
        if actions.contains(action) {
            let i = choose|i: int| 0 <= i < actions.len() && actions[i] == action;
            assert(n <= i < n + requests.len());
            assert(requests[i - n] == action);
        }
    }
    assert forall|coord: UnitCoord| #[trigger]
        after.missing_coords.contains(coord) == (state.missing_coords.contains(coord) || (
        state.store.canonical_unit(coord) is None && result.requests.contains(
            ReconstructionRequestView::Coord(coord),
        ))) && actions.contains(asking_for_unit(coord)) == (after.missing_coords.contains(coord)
            && !state.missing_coords.contains(coord)) by {
        assert(actions.contains(asking_for_unit(coord)) == requests.contains(
            asking_for_unit(coord),
        ));
    }
    assert forall|hash: V| #[trigger]
        after.missing_parents.contains(hash) == (state.missing_parents.contains(hash)
            || result.requests.contains(ReconstructionRequestView::ParentsOf(hash)))
            && actions.contains(asking_for_parents(hash)) == (after.missing_parents.contains(hash)
            && !state.missing_parents.contains(hash)) by {
        assert(actions.contains(asking_for_parents(hash)) == requests.contains(
            asking_for_parents(hash),
        ));
    }
}

/// The parents of a unit that is not in the store come in: the dag gets them, and exactly the units
/// that the dag returns for them are saved. If the unit is in the store, nothing happens.
pub proof fn law_parents_handed_to_dag<H: Hasher, D: Data, K: Keychain>(
    checker: &UnitValidator<K>,
    state: RunwayView<HashOf<H>, D::V, SignatureOf<K>>,
    hash: HashOf<H>,
    parents: Seq<SignedUnitView<HashOf<H>, D::V, SignatureOf<K>>>,
)
    ensures
        ({
            let (after, actions) = runway::message_received::<H, D, K>(
                checker,
                state,
                NotificationInView::Response(ResponseView::Parents(hash, parents)),
            );
            let (dag, result) = dag::parents_added::<H, D, K>(
                checker,
                state.dag,
                state.store,
                hash,
                parents,
            );
            &&& state.store.by_hash.contains_key(hash) ==> after == state && actions.len() == 0
            &&& !state.store.by_hash.contains_key(hash) ==> {
                &&& after.dag == dag
                &&& after.store == state.store
                &&& deals_with(result, actions)
                &&& asks_for(state, result.requests, after, actions)
            }
        }),
{
    let (dag, result) = dag::parents_added::<H, D, K>(
        checker,
        state.dag,
        state.store,
        hash,
        parents,
    );
    law_result_dealt_with(RunwayView { dag, ..state }, result);
}

/// A unit comes in, on its own or because it was asked for: the dag gets it, and exactly the units
/// that the dag returns for it are saved.
pub proof fn law_unit_handed_to_dag<H: Hasher, D: Data, K: Keychain>(
    checker: &UnitValidator<K>,
    state: RunwayView<HashOf<H>, D::V, SignatureOf<K>>,
    unit: SignedUnitView<HashOf<H>, D::V, SignatureOf<K>>,
    message: NotificationInView<HashOf<H>, D::V, SignatureOf<K>>,
)
    requires
        message == NotificationInView::<HashOf<H>, D::V, SignatureOf<K>>::NewUnit(unit) || message
            == NotificationInView::<HashOf<H>, D::V, SignatureOf<K>>::Response(
            ResponseView::Coord(unit),
        ),
    ensures
        ({
            let (after, actions) = runway::message_received::<H, D, K>(checker, state, message);
            let (dag, result) = dag::unit_added::<H, D, K>(checker, state.dag, state.store, unit);
            &&& after.dag == dag
            &&& after.store == state.store
            &&& deals_with(result, actions)
            &&& asks_for(state, result.requests, after, actions)
        }),
{
    let (dag, result) = dag::unit_added::<H, D, K>(checker, state.dag, state.store, unit);
    law_result_dealt_with(RunwayView { dag, ..state }, result);
}

/// The alerts have something to say about forks: the dag gets it, and exactly the units that the dag
/// returns for it are saved.
pub proof fn law_forks_handed_to_dag<H: Hasher, D: Data, K: Keychain>(
    checker: &UnitValidator<K>,
    state: RunwayView<HashOf<H>, D::V, SignatureOf<K>>,
    notification: ForkingNotificationView<HashOf<H>, D::V, SignatureOf<K>>,
)
    ensures
        ({
            let (after, actions) = runway::forking_notified::<H, D, K>(
                checker,
                state,
                notification,
            );
            let (dag, result) = dag::notification_processed::<H, D, K>(
                checker,
                state.dag,
                state.store,
                notification,
            );
            &&& after.dag == dag
            &&& after.store == state.store
            &&& deals_with(result, actions)
            &&& asks_for(state, result.requests, after, actions)
        }),
{
    let (dag, result) = dag::notification_processed::<H, D, K>(
        checker,
        state.dag,
        state.store,
        notification,
    );
    law_result_dealt_with(RunwayView { dag, ..state }, result);
}

/// Requests are answered to whoever made them, and responses about the newest unit are collected;
/// neither changes anything here.
pub proof fn law_requests_answered<H: Hasher, D: Data, K: Keychain>(
    checker: &UnitValidator<K>,
    state: RunwayView<HashOf<H>, D::V, SignatureOf<K>>,
    message: NotificationInView<HashOf<H>, D::V, SignatureOf<K>>,
)
    ensures
        ({
            let (after, actions) = runway::message_received::<H, D, K>(checker, state, message);
            &&& message matches NotificationInView::Request(request, node) ==> after == state
                && actions == seq![
                ActionView::<HashOf<H>, D::V, SignatureOf<K>>::Answer(request, node),
            ]
            &&& message matches NotificationInView::Response(ResponseView::NewestUnit(response))
                ==> after == state && actions == seq![
                ActionView::<HashOf<H>, D::V, SignatureOf<K>>::Collect(response),
            ]
        }),
{
}

/// A unit is not in the store and waits in the dag for an explicit list of its parents. A response
/// has exactly one unit at each of the coordinates of its parents; all of them are valid and nothing
/// speaks against them, and their hashes combine to the unit's control hash. Then the unit is saved,
/// with these parents, provided that all of them have been placed by then.
pub proof fn law_listed_parents_save_unit<H: Hasher, D: Data, K: Keychain>(
    checker: &UnitValidator<K>,
    state: RunwayView<HashOf<H>, D::V, SignatureOf<K>>,
    unit: UnitView<HashOf<H>>,
    signed: SignedUnitView<HashOf<H>, D::V, SignatureOf<K>>,
    units: Seq<SignedUnitView<HashOf<H>, D::V, SignatureOf<K>>>,
    parents: Seq<Option<HashOf<H>>>,
)
    requires
        !state.store.by_hash.contains_key(unit.hash),
        coherent::<H, D, K::Signature>(state.dag),
        order::idle(state.dag.order),
        parents_apart::<H, D, K>(checker, state.dag, state.store, units),
        response::awaits_parents::<H, D, K::Signature>(state.dag, unit, signed),
        unit.pre_unit.coord.round > 0,
        unit.pre_unit.control_hash.parents_mask.len() <= usize::MAX,
        response::at_parents_coords(unit, units),
        response::proper_response::<H, D, K>(checker, state.dag, state.store, units),
        response::hashes_by_creator::<H, D, K::Signature>(
            unit.pre_unit.control_hash.parents_mask.len(),
            units,
            parents,
        ),
        units::combined_hash::<H>(parents) == unit.pre_unit.control_hash.combined_hash,
    ensures
        ({
            let (after, actions) = runway::message_received::<H, D, K>(
                checker,
                state,
                NotificationInView::Response(ResponseView::Parents(unit.hash, units)),
            );
            let all_placed = forall|i: int|
                0 <= i < parents.len() && #[trigger] parents[i] is Some
                    ==> after.dag.order.placed.contains(parents[i]->0);
            all_placed ==> actions.contains(
                ActionView::Save(DagUnitView { unit: signed, parents }),
            )
        }),
{
    response::law_listed_parents_suffice::<H, D, K>(
        checker,
        state.dag,
        state.store,
        unit,
        signed,
        units,
        parents,
    );
    law_parents_handed_to_dag::<H, D, K>(checker, state, unit.hash, units);
    let (after, actions) = runway::message_received::<H, D, K>(
        checker,
        state,
        NotificationInView::Response(ResponseView::Parents(unit.hash, units)),
    );
    let result = dag::parents_added::<H, D, K>(
        checker,
        state.dag,
        state.store,
        unit.hash,
        units,
    ).1;
    let out = DagUnitView { unit: signed, parents };
    if result.units.contains(out) {
        let k = choose|k: int| 0 <= k < result.units.len() && result.units[k] == out;
        assert(actions[k] == ActionView::Save(out));
    }
}

/// A unit is not in the store and its parents are being reconstructed in the dag, at whatever stage.
/// A response has exactly one unit at each of the coordinates of its parents; all of them are valid,
/// known and placed already, and their hashes combine to the unit's control hash. Then the unit is
/// saved at once, with these parents.
pub proof fn law_known_parents_save_unit<H: Hasher, D: Data, K: Keychain>(
    checker: &UnitValidator<K>,
    state: RunwayView<HashOf<H>, D::V, SignatureOf<K>>,
    unit: UnitView<HashOf<H>>,
    signed: SignedUnitView<HashOf<H>, D::V, SignatureOf<K>>,
    units: Seq<SignedUnitView<HashOf<H>, D::V, SignatureOf<K>>>,
    parents: Seq<Option<HashOf<H>>>,
)
    requires
        !state.store.by_hash.contains_key(unit.hash),
        laws::order_coherent(state.dag.order),
        order::idle(state.dag.order),
        response::under_reconstruction::<H, D, K::Signature>(state.dag, unit, signed),
        unit.pre_unit.coord.round > 0,
        unit.pre_unit.control_hash.parents_mask.len() <= usize::MAX,
        response::at_parents_coords(unit, units),
        response::all_known::<H, D, K>(checker, state.dag, state.store, units),
        forall|k: int|
            0 <= k < units.len() ==> state.dag.order.placed.contains(
                units::unit_hash::<H, D>((#[trigger] units[k]).signable),
            ),
        response::hashes_by_creator::<H, D, K::Signature>(
            unit.pre_unit.control_hash.parents_mask.len(),
            units,
            parents,
        ),
        units::combined_hash::<H>(parents) == unit.pre_unit.control_hash.combined_hash,
    ensures
        runway::message_received::<H, D, K>(
            checker,
            state,
            NotificationInView::Response(ResponseView::Parents(unit.hash, units)),
        ).1.contains(ActionView::Save(DagUnitView { unit: signed, parents })),
{
    response::law_known_listed_parents_suffice::<H, D, K>(
        checker,
        state.dag,
        state.store,
        unit,
        signed,
        units,
        parents,
    );
    law_parents_handed_to_dag::<H, D, K>(checker, state, unit.hash, units);
    let actions = runway::message_received::<H, D, K>(
        checker,
        state,
        NotificationInView::Response(ResponseView::Parents(unit.hash, units)),
    ).1;
    let (after, result) = dag::parents_added::<H, D, K>(
        checker,
        state.dag,
        state.store,
        unit.hash,
        units,
    );
    assert forall|i: int|
        0 <= i < parents.len() && #[trigger] parents[i] is Some implies
        after.order.placed.contains(parents[i]->0) by {
        let k = choose|k: int|
            0 <= k < units.len() && (#[trigger] units[k]).signable.pre_unit.coord.creator.0 == i;
        assert(parents[i] == Some(units::unit_hash::<H, D>(units[k].signable)));
        assert(state.dag.order.placed.contains(parents[i]->0));
    }
    let out = DagUnitView { unit: signed, parents };
    let k = choose|k: int| 0 <= k < result.units.len() && result.units[k] == out;
    assert(actions[k] == ActionView::Save(out));
}

/// A unit has been saved: it is in the store and no longer being processed, and everything else in
/// the store stays. It is offered to the creator, announced, sent out at once if it is our own, and
/// last of all put into the total order; whatever of it was asked for is resolved. Nothing else is
/// done, and nothing twice.
pub proof fn law_saved_unit_let_out<H: Hasher, D: Data, S: Data>(
    own_id: NodeIndex,
    state: RunwayView<HashOf<H>, D::V, S::V>,
    unit: DagUnitView<HashOf<H>, D::V, S::V>,
)
    ensures
        ({
            let (after, actions) = runway::unit_saved::<H, D, S>(own_id, state, unit);
            let hash = units::unit_hash::<H, D>(unit.unit.signable);
            let coord = unit.unit.signable.pre_unit.coord;
            &&& after.store.by_hash == state.store.by_hash.insert(hash, unit)
            &&& after.store.canonical.contains_key(coord)
            &&& !state.store.canonical.contains_key(coord) ==> after.store.canonical[coord] == hash
            &&& forall|other: UnitCoord|
                state.store.canonical.contains_key(other)
                    ==> #[trigger] after.store.canonical.contains_key(other)
                    && after.store.canonical[other] == state.store.canonical[other]
            &&& !after.dag.validator.processing.by_hash.contains_key(hash)
            &&& after.dag.validator.forkers == state.dag.validator.forkers
            &&& after.dag.order == state.dag.order
            &&& after.dag.reconstruction == state.dag.reconstruction
            &&& after.dag.signed == state.dag.signed
            &&& actions.no_duplicates()
            &&& actions.last() == ActionView::<HashOf<H>, D::V, S::V>::AddToOrder(unit)
            &&& forall|action: ActionView<HashOf<H>, D::V, S::V>| #[trigger]
                actions.contains(action) <==> {
                    ||| action == ActionView::<HashOf<H>, D::V, S::V>::OfferParent(unit)
                    ||| action == ActionView::<HashOf<H>, D::V, S::V>::AddToOrder(unit)
                    ||| action == ActionView::<HashOf<H>, D::V, S::V>::Notify(
                        NotificationOutView::NewAnyUnit(unit.unit),
                    )
                    ||| coord.creator == own_id && action == ActionView::<
                        HashOf<H>,
                        D::V,
                        S::V,
                    >::Notify(NotificationOutView::NewSelfUnit(unit.unit))
                    ||| state.missing_coords.contains(coord) && action == ActionView::<
                        HashOf<H>,
                        D::V,
                        S::V,
                    >::Resolve(RequestView::Coord(coord))
                    ||| state.missing_parents.contains(hash) && action == ActionView::<
                        HashOf<H>,
                        D::V,
                        S::V,
                    >::Resolve(RequestView::Parents(hash))
                }
            &&& after.missing_coords == state.missing_coords.remove(coord)
            &&& after.missing_parents == state.missing_parents.remove(hash)
        }),
{
    let actions = runway::unit_saved::<H, D, S>(own_id, state, unit).1;
    let hash = units::unit_hash::<H, D>(unit.unit.signable);
    let coord = unit.unit.signable.pre_unit.coord;
    let n_parents: int = if state.missing_parents.contains(hash) {
        1
    } else {
        0
    };
    let n_coords: int = if state.missing_coords.contains(coord) {
        1
    } else {
        0
    };
    let n = n_parents + n_coords;
    let own: int = if coord.creator == own_id {
        1
    } else {
        0
    };
    assert(actions.len() == n + 3 + own);
    if n_parents == 1 {
        assert(actions[0] == ActionView::<HashOf<H>, D::V, S::V>::Resolve(
            RequestView::Parents(hash),
        ));
    }
    if n_coords == 1 {
        assert(actions[n_parents] == ActionView::<HashOf<H>, D::V, S::V>::Resolve(
            RequestView::Coord(coord),
        ));
    }
    assert(actions[n] == ActionView::<HashOf<H>, D::V, S::V>::OfferParent(unit));
    assert(actions[n + 1] == ActionView::<HashOf<H>, D::V, S::V>::Notify(
        NotificationOutView::NewAnyUnit(unit.unit),
    ));
    if own == 1 {
        assert(actions[n + 2] == ActionView::<HashOf<H>, D::V, S::V>::Notify(
            NotificationOutView::NewSelfUnit(unit.unit),
        ));
    }
    assert(actions[n + 2 + own] == ActionView::<HashOf<H>, D::V, S::V>::AddToOrder(unit));
}

/// No two messages about units mean the same, and requests are answered to whoever they name.
pub proof fn law_messages_keep_their_meaning<V, D, S>(
    one: UnitMessageView<V, D, S>,
    other: UnitMessageView<V, D, S>,
)
    ensures
        one != other ==> runway::notification_of(one) != runway::notification_of(other),
        one matches UnitMessageView::NewUnit(unit) ==> runway::notification_of(one)
            == NotificationInView::<V, D, S>::NewUnit(unit),
        one matches UnitMessageView::ResponseCoord(unit) ==> runway::notification_of(one)
            == NotificationInView::<V, D, S>::Response(ResponseView::Coord(unit)),
        one matches UnitMessageView::ResponseParents(hash, parents) ==> runway::notification_of(one)
            == NotificationInView::<V, D, S>::Response(ResponseView::Parents(hash, parents)),
        one matches UnitMessageView::ResponseNewest(response) ==> runway::notification_of(one)
            == NotificationInView::<V, D, S>::Response(ResponseView::NewestUnit(response)),
        runway::notification_of(one) matches NotificationInView::Request(request, node) ==> {
            ||| request matches RequestView::Coord(coord) && one
                == UnitMessageView::<V, D, S>::RequestCoord(node, coord)
            ||| request matches RequestView::Parents(hash) && one
                == UnitMessageView::<V, D, S>::RequestParents(node, hash)
            ||| request matches RequestView::NewestUnit(asked, salt) && asked == node && one
                == UnitMessageView::<V, D, S>::RequestNewest(node, salt)
        },
{
}

} // verus!
