//! What can be relied on when a backup is put back in.
use crate::alerts;
use crate::alerts::handler;
use crate::alerts::{
    Alert, AlertMessageView, AlertView, AlerterResponseView, ForkingNotificationView,
    SignedUnitView,
};
use crate::backup::injector;
use crate::backup::injector::{
    AlertDataView, BackupItemView, InitialStateView, InjectionView, ItemOf, StateOf, StepView,
};
use crate::backup::loader;
use crate::backup::loader::LoadingView;
use crate::crypto::{
    HashOf, Hasher, Keychain, MultiKeychain, PartialOf, Signable, SignatureOf,
};
use crate::dag;
use crate::dag::unit::DagUnitView;
use crate::data::Data;
use crate::nodes;
use crate::nodes::{NodeIndex, Round, SessionId};
use crate::rmc::MessageView as RmcMessageView;
use crate::runway;
use crate::runway::backup;
use crate::runway::{ActionView, RunwayView};
use crate::signed::SignedView;
use crate::units;
use crate::units::validator::Validator as UnitValidator;
use crate::units::{FullUnit, UnitCoord};
use vstd::prelude::*;

verus! {

/// The coordinates of the units that are added without an alert.
pub open spec fn coords_added<V, D, S>(steps: Seq<StepView<V, D, S>>) -> Set<UnitCoord> {
    Set::new(
        |coord: UnitCoord|
            exists|i: int|
                0 <= i < steps.len() && adds_at(#[trigger] steps[i], coord),
    )
}

/// Whether a step adds, without an alert, a unit with these coordinates.
pub open spec fn adds_at<V, D, S>(step: StepView<V, D, S>, coord: UnitCoord) -> bool {
    step matches StepView::AddUnit(unit, committed) && !committed && unit.signable.coord() == coord
}

/// The units that are added without an alert are correctly signed units of the session, with all
/// their parents before them and no two at the same coordinates.
pub open spec fn sound_steps<H: Hasher, D: Data, MK: MultiKeychain>(
    keychain: MK,
    session_id: SessionId,
    steps: Seq<StepView<HashOf<H>, D::V, SignatureOf<MK>>>,
) -> bool {
    forall|i: int|
        0 <= i < steps.len() ==> (#[trigger] steps[i] matches StepView::AddUnit(unit, committed)
            ==> (if committed {
            handler::correctly_signed::<H, D, MK>(keychain, unit)
        } else {
            injector::unit_fits::<H, D, MK>(
                keychain,
                session_id,
                coords_added(steps.take(i)),
                unit,
            )
        }))
}

proof fn lemma_one_more_step<H: Hasher, D: Data, MK: MultiKeychain>(
    keychain: MK,
    session_id: SessionId,
    steps: Seq<StepView<HashOf<H>, D::V, SignatureOf<MK>>>,
    step: StepView<HashOf<H>, D::V, SignatureOf<MK>>,
)
    requires
        sound_steps::<H, D, MK>(keychain, session_id, steps),
        step matches StepView::AddUnit(unit, committed) ==> (if committed {
            handler::correctly_signed::<H, D, MK>(keychain, unit)
        } else {
            injector::unit_fits::<H, D, MK>(keychain, session_id, coords_added(steps), unit)
        }),
    ensures
        sound_steps::<H, D, MK>(keychain, session_id, steps.push(step)),
        coords_added(steps.push(step)) == (match step {
            StepView::AddUnit(unit, false) => coords_added(steps).insert(unit.signable.coord()),
            _ => coords_added(steps),
        }),
{
    let more = steps.push(step);
    let n = steps.len() as int;
    assert forall|i: int| 0 <= i < more.len() implies (#[trigger] more[i] matches StepView::AddUnit(
        unit,
        committed,
    ) ==> (if committed {
        handler::correctly_signed::<H, D, MK>(keychain, unit)
    } else {
        injector::unit_fits::<H, D, MK>(keychain, session_id, coords_added(more.take(i)), unit)
    })) by {
        if i < n {
            assert(more[i] == steps[i]);
            assert(more.take(i) =~= steps.take(i));
        } else {
            assert(more.take(i) =~= steps);
        }
    }
    let expected = match step {
        StepView::AddUnit(unit, false) => coords_added(steps).insert(unit.signable.coord()),
        _ => coords_added(steps),
    };
    assert forall|coord: UnitCoord|
        coords_added(more).contains(coord) <==> expected.contains(coord) by {
        if coords_added(more).contains(coord) {
            let i = choose|i: int| 0 <= i < more.len() && adds_at(#[trigger] more[i], coord);
            if i < n {
                assert(adds_at(steps[i], coord));
            }
        }
        if coords_added(steps).contains(coord) {
            let i = choose|i: int| 0 <= i < steps.len() && adds_at(#[trigger] steps[i], coord);
            assert(adds_at(more[i], coord));
        }
        if adds_at(step, coord) {
            assert(adds_at(more[n], coord));
        }
    }
    assert(coords_added(more) =~= expected);
}

proof fn lemma_committed_steps<H: Hasher, D: Data, MK: MultiKeychain>(
    keychain: MK,
    session_id: SessionId,
    steps: Seq<StepView<HashOf<H>, D::V, SignatureOf<MK>>>,
    units: Seq<SignedUnitView<HashOf<H>, D::V, SignatureOf<MK>>>,
)
    requires
        sound_steps::<H, D, MK>(keychain, session_id, steps),
        forall|i: int|
            0 <= i < units.len() ==> handler::correctly_signed::<H, D, MK>(
                keychain,
                #[trigger] units[i],
            ),
    ensures
        ({
            let more = steps + units.map_values(
                |unit: SignedUnitView<HashOf<H>, D::V, SignatureOf<MK>>|
                    StepView::<HashOf<H>, D::V, SignatureOf<MK>>::AddUnit(unit, true),
            );
            &&& sound_steps::<H, D, MK>(keychain, session_id, more)
            &&& coords_added(more) == coords_added(steps)
        }),
    decreases units.len(),
{
    let to_step = |unit: SignedUnitView<HashOf<H>, D::V, SignatureOf<MK>>|
        StepView::<HashOf<H>, D::V, SignatureOf<MK>>::AddUnit(unit, true);
    if units.len() == 0 {
        assert(steps + units.map_values(to_step) =~= steps);
    } else {
        let rest = units.drop_last();
        assert forall|i: int| 0 <= i < rest.len() implies handler::correctly_signed::<H, D, MK>(
            keychain,
            #[trigger] rest[i],
        ) by {
            assert(rest[i] == units[i]);
        }
        lemma_committed_steps::<H, D, MK>(keychain, session_id, steps, rest);
        let so_far = steps + rest.map_values(to_step);
        assert(handler::correctly_signed::<H, D, MK>(keychain, units[units.len() - 1]));
        lemma_one_more_step::<H, D, MK>(keychain, session_id, so_far, to_step(units.last()));
        assert(steps + units.map_values(to_step) =~= so_far.push(to_step(units.last())));
    }
}

/// The state of an injection makes sense: its steps are sound and lead to its coordinates.
pub open spec fn sound<H: Hasher, D: Data, MK: MultiKeychain>(
    keychain: MK,
    session_id: SessionId,
    state: StateOf<H, D, MK>,
) -> bool {
    &&& sound_steps::<H, D, MK>(keychain, session_id, state.steps)
    &&& state.dag == coords_added(state.steps)
}

proof fn lemma_confirmed_sound<H: Hasher, D: Data, MK: MultiKeychain>(
    keychain: MK,
    session_id: SessionId,
    state: StateOf<H, D, MK>,
    hash: HashOf<H>,
)
    requires
        sound::<H, D, MK>(keychain, session_id, state),
    ensures
        sound::<H, D, MK>(
            keychain,
            session_id,
            injector::alert_confirmed::<H, D, MK>(keychain, state, hash).0,
        ),
{
    if state.alerter.known_alerts.contains_key(hash) {
        let alert = state.alerter.known_alerts[hash].signable;
        if handler::commitment_correct::<H, D, MK>(keychain, alert.forker(), alert.legit_units) {
            lemma_committed_steps::<H, D, MK>(
                keychain,
                session_id,
                state.steps,
                alert.legit_units,
            );
        }
    }
}

proof fn lemma_item_sound<H: Hasher, D: Data, MK: MultiKeychain>(
    keychain: MK,
    session_id: SessionId,
    state: StateOf<H, D, MK>,
    item: ItemOf<H, D, MK>,
    signature: SignatureOf<MK>,
)
    requires
        sound::<H, D, MK>(keychain, session_id, state),
    ensures
        sound::<H, D, MK>(
            keychain,
            session_id,
            injector::item_injected::<H, D, MK>(keychain, session_id, state, item, signature).0,
        ),
{
    match item {
        BackupItemView::Unit(unit) => {
            if injector::unit_fits::<H, D, MK>(keychain, session_id, state.dag, unit) {
                lemma_one_more_step::<H, D, MK>(
                    keychain,
                    session_id,
                    state.steps,
                    StepView::AddUnit(unit, false),
                );
            }
        },
        BackupItemView::AlertData(AlertDataView::OwnAlert(alert)) => {
            lemma_one_more_step::<H, D, MK>(
                keychain,
                session_id,
                state.steps,
                StepView::MarkForker(alert.signable.forker()),
            );
        },
        BackupItemView::AlertData(AlertDataView::NetworkAlert(alert)) => {
            lemma_one_more_step::<H, D, MK>(
                keychain,
                session_id,
                state.steps,
                StepView::MarkForker(alert.signable.forker()),
            );
        },
        BackupItemView::AlertData(AlertDataView::MultisignedHash(multisigned)) => {
            let hash = multisigned.signable;
            let after = injector::item_injected::<H, D, MK>(
                keychain,
                session_id,
                state,
                item,
                signature,
            ).0;
            let middle = InjectionView { rmc: after.rmc, ..state };
            lemma_confirmed_sound::<H, D, MK>(keychain, session_id, middle, hash);
        },
    }
}

/// Whatever is in a backup, the units that are put back without an alert are correctly signed units
/// of the session, each with all its parents before it and alone at its coordinates, and all others
/// are correctly signed too.
pub proof fn law_injected_units_fit<H: Hasher, D: Data, MK: MultiKeychain>(
    keychain: MK,
    session_id: SessionId,
    items: Seq<ItemOf<H, D, MK>>,
    own: Seq<SignatureOf<MK>>,
    hashes: Seq<HashOf<H>>,
    started: Seq<SignatureOf<MK>>,
)
    ensures
        ({
            let injected = injector::all_injected::<H, D, MK>(keychain, session_id, items, own).0;
            let state = injector::all_multicast::<H, D, MK>(
                keychain,
                injected,
                hashes,
                started,
            ).0;
            &&& sound::<H, D, MK>(keychain, session_id, injected)
            &&& sound::<H, D, MK>(keychain, session_id, state)
        }),
{
    lemma_items_sound::<H, D, MK>(keychain, session_id, items, own);
    lemma_multicasts_sound::<H, D, MK>(
        keychain,
        session_id,
        injector::all_injected::<H, D, MK>(keychain, session_id, items, own).0,
        hashes,
        started,
    );
}

proof fn lemma_items_sound<H: Hasher, D: Data, MK: MultiKeychain>(
    keychain: MK,
    session_id: SessionId,
    items: Seq<ItemOf<H, D, MK>>,
    own: Seq<SignatureOf<MK>>,
)
    ensures
        sound::<H, D, MK>(
            keychain,
            session_id,
            injector::all_injected::<H, D, MK>(keychain, session_id, items, own).0,
        ),
    decreases items.len(),
{
    if items.len() == 0 {
        assert(StateOf::<H, D, MK>::fresh().dag =~= coords_added(
            StateOf::<H, D, MK>::fresh().steps,
        ));
    } else {
        lemma_items_sound::<H, D, MK>(keychain, session_id, items.drop_last(), own);
        lemma_item_sound::<H, D, MK>(
            keychain,
            session_id,
            injector::all_injected::<H, D, MK>(keychain, session_id, items.drop_last(), own).0,
            items.last(),
            own[items.len() - 1],
        );
    }
}

proof fn lemma_multicasts_sound<H: Hasher, D: Data, MK: MultiKeychain>(
    keychain: MK,
    session_id: SessionId,
    state: StateOf<H, D, MK>,
    hashes: Seq<HashOf<H>>,
    started: Seq<SignatureOf<MK>>,
)
    requires
        sound::<H, D, MK>(keychain, session_id, state),
    ensures
        sound::<H, D, MK>(
            keychain,
            session_id,
            injector::all_multicast::<H, D, MK>(keychain, state, hashes, started).0,
        ),
    decreases hashes.len(),
{
    if hashes.len() > 0 {
        lemma_multicasts_sound::<H, D, MK>(
            keychain,
            session_id,
            state,
            hashes.drop_last(),
            started,
        );
        let before = injector::all_multicast::<H, D, MK>(
            keychain,
            state,
            hashes.drop_last(),
            started,
        ).0;
        let after = injector::multicast::<H, D, MK>(
            keychain,
            before,
            hashes.last(),
            started[hashes.len() - 1],
        ).0;
        let middle = InjectionView { rmc: after.rmc, tasks: after.tasks, ..before };
        lemma_confirmed_sound::<H, D, MK>(keychain, session_id, middle, hashes.last());
    }
}

/// Whether an item is a correctly signed alert of our own about the given forker.
pub open spec fn own_alert_about<H: Hasher, D: Data, MK: MultiKeychain>(
    item: ItemOf<H, D, MK>,
    forker: NodeIndex,
) -> bool {
    item matches BackupItemView::AlertData(AlertDataView::OwnAlert(alert))
        && alert.signable.forker() == forker
}

/// The handling of units is never told about a forker that we have already sent an alert about: it
/// would send another one.
pub proof fn law_no_second_alert<H: Hasher, D: Data, MK: MultiKeychain>(
    keychain: MK,
    session_id: SessionId,
    items: Seq<ItemOf<H, D, MK>>,
    own: Seq<SignatureOf<MK>>,
    i: int,
    forker: NodeIndex,
)
    requires
        injector::all_injected::<H, D, MK>(keychain, session_id, items, own).1,
        0 <= i < items.len(),
        own_alert_about::<H, D, MK>(items[i], forker),
    ensures
        ({
            let state = injector::all_injected::<H, D, MK>(keychain, session_id, items, own).0;
            &&& !state.fork_proofs.contains_key(forker)
            &&& state.alerter.known_forkers.contains_key(forker)
        }),
    decreases items.len(),
{
    let rest = items.drop_last();
    if i < items.len() - 1 {
        assert(rest[i] == items[i]);
        law_no_second_alert::<H, D, MK>(keychain, session_id, rest, own, i, forker);
    }
}

/// After loading we go on from the round after our last unit; without units of our own the starting
/// round stays.
pub proof fn law_go_on_after_last_unit<H: Hasher, D: Data, S: Data>(
    own_id: NodeIndex,
    state: LoadingView<HashOf<H>, D::V, S::V>,
    units: Seq<DagUnitView<HashOf<H>, D::V, S::V>>,
    last: int,
)
    requires
        -1 <= last < units.len(),
        last >= 0 ==> units[last].unit.signable.creator() == own_id,
        forall|i: int|
            last < i < units.len() ==> (#[trigger] units[i]).unit.signable.creator() != own_id,
    ensures
        loader::units_loaded::<H, D, S>(own_id, state, units).starting_round == (if last >= 0 {
            (units[last].unit.signable.round() + 1) as Round
        } else {
            state.starting_round
        }),
    decreases units.len(),
{
    if units.len() > 0 && last < units.len() - 1 {
        let rest = units.drop_last();
        assert(units[units.len() - 1].unit.signable.creator() != own_id);
        assert forall|i: int| last < i < rest.len() implies (
        #[trigger] rest[i]).unit.signable.creator() != own_id by {
            assert(rest[i] == units[i]);
        }
        law_go_on_after_last_unit::<H, D, S>(own_id, state, rest, last);
    }
}

/// Every unit that is loaded goes to the new backup, in the same order.
pub proof fn law_loaded_units_saved<H: Hasher, D: Data, S: Data>(
    own_id: NodeIndex,
    state: LoadingView<HashOf<H>, D::V, S::V>,
    units: Seq<DagUnitView<HashOf<H>, D::V, S::V>>,
)
    ensures
        loader::units_loaded::<H, D, S>(own_id, state, units).saved == state.saved
            + units.map_values(|unit: DagUnitView<HashOf<H>, D::V, S::V>| unit.unit),
    decreases units.len(),
{
    let bare = |unit: DagUnitView<HashOf<H>, D::V, S::V>| unit.unit;
    let saved = loader::units_loaded::<H, D, S>(own_id, state, units).saved;
    if units.len() > 0 {
        law_loaded_units_saved::<H, D, S>(own_id, state, units.drop_last());
        assert(units.map_values(bare) =~= units.drop_last().map_values(bare).push(
            units.last().unit,
        ));
    }
    assert(saved =~= state.saved + units.map_values(bare));
}

/// The actions that save a unit.
pub open spec fn only_saves<V, D, S>(actions: Seq<ActionView<V, D, S>>) -> Seq<
    ActionView<V, D, S>,
> {
    actions.filter(|action: ActionView<V, D, S>| action is Save)
}

/// All the units that some actions save are loaded, in order, and no others.
pub proof fn law_all_saves_loaded<V, D, S>(actions: Seq<ActionView<V, D, S>>)
    ensures
        loader::to_save(actions).len() == only_saves(actions).len(),
        forall|k: int|
            0 <= k < only_saves(actions).len() ==> #[trigger] only_saves(actions)[k]
                == ActionView::<V, D, S>::Save(loader::to_save(actions)[k]),
    decreases actions.len(),
{
    reveal(Seq::filter);
    if actions.len() > 0 {
        law_all_saves_loaded(actions.drop_last());
        let before = only_saves(actions.drop_last());
        assert(only_saves(actions) == (if actions.last() is Save {
            before.push(actions.last())
        } else {
            before
        }));
    }
}

proof fn lemma_saves_first<V, D, S>(
    actions: Seq<ActionView<V, D, S>>,
    units: Seq<DagUnitView<V, D, S>>,
)
    requires
        units.len() <= actions.len(),
        forall|k: int| 0 <= k < units.len() ==> #[trigger] actions[k] == ActionView::Save(units[k]),
        forall|k: int| units.len() <= k < actions.len() ==> !(#[trigger] actions[k] is Save),
    ensures
        loader::to_save(actions) == units,
    decreases actions.len(),
{
    if actions.len() > 0 {
        let rest = actions.drop_last();
        if units.len() == actions.len() {
            assert(actions[units.len() - 1] == ActionView::Save(units.last()));
            assert forall|k: int| 0 <= k < units.drop_last().len() implies #[trigger] rest[k]
                == ActionView::Save(units.drop_last()[k]) by {
                assert(actions[k] == ActionView::Save(units[k]));
            }
            lemma_saves_first(rest, units.drop_last());
            assert(units.drop_last().push(units.last()) =~= units);
        } else {
            assert(!(actions[actions.len() - 1] is Save));
            assert forall|k: int| 0 <= k < units.len() implies #[trigger] rest[k]
                == ActionView::Save(units[k]) by {
                assert(actions[k] == ActionView::Save(units[k]));
            }
            assert forall|k: int| units.len() <= k < rest.len() implies !(
            #[trigger] rest[k] is Save) by {
                assert(!(actions[k] is Save));
            }
            lemma_saves_first(rest, units);
        }
    } else {
        assert(units =~= seq![]);
    }
}

/// A unit of a backup is added to the dag. Unless that calls for an alert, exactly the units that the
/// dag returns are loaded: they go to the new backup, in that order, and are in the store afterwards,
/// with all that was there.
pub proof fn law_backup_unit_loaded<H: Hasher, D: Data, K: Keychain>(
    checker: &UnitValidator<K>,
    own_id: NodeIndex,
    state: LoadingView<HashOf<H>, D::V, SignatureOf<K>>,
    unit: SignedUnitView<HashOf<H>, D::V, SignatureOf<K>>,
)
    ensures
        ({
            let (after, ok) = loader::unit_processed::<H, D, K>(checker, own_id, state, unit);
            let result = dag::unit_added::<H, D, K>(
                checker,
                state.runway.dag,
                state.runway.store,
                unit,
            ).1;
            &&& ok <==> result.alerts.len() == 0
            &&& !ok ==> after.saved == state.saved && after.runway.store == state.runway.store
            &&& ok ==> {
                &&& after.saved == state.saved + result.units.map_values(
                    |found: DagUnitView<HashOf<H>, D::V, SignatureOf<K>>| found.unit,
                )
                &&& forall|hash: HashOf<H>| #[trigger]
                    after.runway.store.by_hash.contains_key(hash)
                        <==> state.runway.store.by_hash.contains_key(hash) || exists|k: int|
                        0 <= k < result.units.len() && units::unit_hash::<H, D>(
                            (#[trigger] result.units[k]).unit.signable,
                        ) == hash
            }
        }),
{
    let (dag, result) = dag::unit_added::<H, D, K>(
        checker,
        state.runway.dag,
        state.runway.store,
        unit,
    );
    runway::laws::law_result_dealt_with(RunwayView { dag, ..state.runway }, result);
    let (received, actions) = runway::unit_received::<H, D, K>(checker, state.runway, unit);
    let (n, m) = (result.units.len() as int, result.alerts.len() as int);
    if m > 0 {
        assert(actions[actions.len() - m + 0] == ActionView::Alert(result.alerts[0]));
        assert(actions[actions.len() - m] is Alert);
        assert(loader::raises_alert(actions));
    } else {
        assert forall|i: int| 0 <= i < actions.len() implies !(#[trigger] actions[i] is Alert) by {
            if i < n {
                assert(actions[i] == ActionView::Save(result.units[i]));
            }
        }
        assert forall|k: int| result.units.len() <= k < actions.len() implies !(
        #[trigger] actions[k] is Save) by {}
        lemma_saves_first(actions, result.units);
        let start = LoadingView { runway: received, ..state };
        law_loaded_units_saved::<H, D, K::Signature>(own_id, start, result.units);
        lemma_loaded_stored::<H, D, K::Signature>(own_id, start, result.units);
    }
}

proof fn lemma_loaded_stored<H: Hasher, D: Data, S: Data>(
    own_id: NodeIndex,
    state: LoadingView<HashOf<H>, D::V, S::V>,
    units: Seq<DagUnitView<HashOf<H>, D::V, S::V>>,
)
    ensures
        ({
            let after = loader::units_loaded::<H, D, S>(own_id, state, units);
            forall|hash: HashOf<H>| #[trigger]
                after.runway.store.by_hash.contains_key(hash)
                    <==> state.runway.store.by_hash.contains_key(hash) || exists|k: int|
                    0 <= k < units.len() && units::unit_hash::<H, D>(
                        (#[trigger] units[k]).unit.signable,
                    ) == hash
        }),
    decreases units.len(),
{
    if units.len() > 0 {
        let rest = units.drop_last();
        lemma_loaded_stored::<H, D, S>(own_id, state, rest);
        let middle = loader::units_loaded::<H, D, S>(own_id, state, rest);
        let after = loader::units_loaded::<H, D, S>(own_id, state, units);
        let last = units::unit_hash::<H, D>(units.last().unit.signable);
        assert(units[units.len() - 1] == units.last());
        assert forall|hash: HashOf<H>| #[trigger]
            after.runway.store.by_hash.contains_key(hash)
                <==> state.runway.store.by_hash.contains_key(hash) || exists|k: int|
                0 <= k < units.len() && units::unit_hash::<H, D>(
                    (#[trigger] units[k]).unit.signable,
                ) == hash by {
            assert(after.runway.store.by_hash.contains_key(hash)
                <==> middle.runway.store.by_hash.contains_key(hash) || hash == last);
            if exists|k: int|
                0 <= k < rest.len() && units::unit_hash::<H, D>((#[trigger] rest[k]).unit.signable)
                    == hash {
                let k = choose|k: int|
                    0 <= k < rest.len() && units::unit_hash::<H, D>(
                        (#[trigger] rest[k]).unit.signable,
                    ) == hash;
                assert(units[k] == rest[k]);
            }
            if exists|k: int|
                0 <= k < units.len() && units::unit_hash::<H, D>(
                    (#[trigger] units[k]).unit.signable,
                ) == hash {
                let k = choose|k: int|
                    0 <= k < units.len() && units::unit_hash::<H, D>(
                        (#[trigger] units[k]).unit.signable,
                    ) == hash;
                if k < rest.len() {
                    assert(units[k] == rest[k]);
                }
            }
        }
    }
}

/// Loading a backup stops at the first unit that calls for an alert, and only there.
pub proof fn law_loading_stops_at_alert<H: Hasher, D: Data, K: Keychain>(
    checker: &UnitValidator<K>,
    own_id: NodeIndex,
    state: LoadingView<HashOf<H>, D::V, SignatureOf<K>>,
    units: Seq<SignedUnitView<HashOf<H>, D::V, SignatureOf<K>>>,
    n: int,
)
    requires
        0 <= n < units.len(),
    ensures
        ({
            let before = loader::all_processed::<H, D, K>(checker, own_id, state, units.take(n));
            let after = loader::all_processed::<H, D, K>(
                checker,
                own_id,
                state,
                units.take(n + 1),
            );
            &&& !before.1 ==> after == before
            &&& before.1 ==> after == loader::unit_processed::<H, D, K>(
                checker,
                own_id,
                before.0,
                units[n],
            )
        }),
{
    assert(units.take(n + 1).drop_last() =~= units.take(n));
}

/// A unit of a backup is put back exactly if it is of the session, signed by its creator, alone at
/// its coordinates, and each of the parents that it names is there, in the previous round. Its
/// coordinates are taken then, and it is the next one to be added, without an alert. Otherwise
/// nothing happens.
pub proof fn law_unit_put_back<H: Hasher, D: Data, MK: MultiKeychain>(
    keychain: MK,
    session_id: SessionId,
    state: StateOf<H, D, MK>,
    unit: SignedUnitView<HashOf<H>, D::V, SignatureOf<MK>>,
    signature: SignatureOf<MK>,
)
    requires
        unit.signable.pre_unit.control_hash.parents_mask.len() <= usize::MAX,
    ensures
        ({
            let (after, ok) = injector::item_injected::<H, D, MK>(
                keychain,
                session_id,
                state,
                BackupItemView::Unit(unit),
                signature,
            );
            let coord = unit.signable.pre_unit.coord;
            let mask = unit.signable.pre_unit.control_hash.parents_mask;
            &&& ok <==> {
                &&& unit.signable.session_id == session_id
                &&& keychain.verifies(
                    FullUnit::<H, D>::message_of(unit.signable),
                    unit.signature,
                    coord.creator,
                )
                &&& !state.dag.contains(coord)
                &&& forall|i: int|
                    0 <= i < mask.len() && #[trigger] mask[i] ==> coord.round > 0
                        && state.dag.contains(
                        UnitCoord {
                            round: (coord.round - 1) as Round,
                            creator: NodeIndex(i as usize),
                        },
                    )
            }
            &&& !ok ==> after == state
            &&& ok ==> {
                &&& after.dag == state.dag.insert(coord)
                &&& after.steps == state.steps.push(StepView::AddUnit(unit, false))
                &&& after.alerter == state.alerter
                &&& after.rmc == state.rmc
                &&& after.fork_proofs == state.fork_proofs
                &&& after.rmcs == state.rmcs
                &&& after.tasks == state.tasks
            }
        }),
{
    let coord = unit.signable.pre_unit.coord;
    let mask = unit.signable.pre_unit.control_hash.parents_mask;
    let parents = nodes::elements(mask);
    nodes::lemma_elements(mask);
    if backup::parents_at(unit.signable, state.dag) {
        assert forall|i: int| 0 <= i < mask.len() && #[trigger] mask[i] implies coord.round > 0
            && state.dag.contains(
            UnitCoord { round: (coord.round - 1) as Round, creator: NodeIndex(i as usize) },
        ) by {
            let creator = NodeIndex(i as usize);
            assert(nodes::has(mask, creator));
            assert(parents.contains(creator));
            let k = choose|k: int| 0 <= k < parents.len() && parents[k] == creator;
            assert(parents[k] == creator);
        }
    }
    if forall|i: int|
        0 <= i < mask.len() && #[trigger] mask[i] ==> coord.round > 0 && state.dag.contains(
            UnitCoord { round: (coord.round - 1) as Round, creator: NodeIndex(i as usize) },
        ) {
        assert forall|k: int| 0 <= k < parents.len() implies coord.round > 0 && state.dag.contains(
            UnitCoord { round: (coord.round - 1) as Round, creator: #[trigger] parents[k] },
        ) by {
            assert(parents.contains(parents[k]));
            assert(nodes::has(mask, parents[k]));
            assert(mask[parents[k].0 as int]);
        }
        if parents.len() > 0 {
            let first = parents[0];
            assert(state.dag.contains(
                UnitCoord { round: (coord.round - 1) as Round, creator: first },
            ));
            assert(coord.round > 0);
        }
        assert(unit.signable.round() == coord.round);
        assert(backup::parents_at(unit.signable, state.dag));
    }
}

/// Our own alert in a backup is taken up exactly if its sender signed it. Its forker is known and
/// marked then and need not be told about any more, it is the alert that is multicast for its sender
/// about the forker, and its multicast has to go on.
pub proof fn law_own_alert_taken_up<H: Hasher, D: Data, MK: MultiKeychain>(
    keychain: MK,
    session_id: SessionId,
    state: StateOf<H, D, MK>,
    alert: SignedView<AlertView<HashOf<H>, D::V, SignatureOf<MK>>, SignatureOf<MK>>,
    signature: SignatureOf<MK>,
)
    ensures
        ({
            let (after, ok) = injector::item_injected::<H, D, MK>(
                keychain,
                session_id,
                state,
                BackupItemView::AlertData(AlertDataView::OwnAlert(alert)),
                signature,
            );
            let hash = alerts::alert_hash::<H, D, MK::Signature>(alert.signable);
            let forker = alert.signable.proof_of_fork.0.signable.pre_unit.coord.creator;
            let id = (alert.signable.sender, forker);
            &&& ok <==> keychain.verifies(
                Alert::<H, D, MK::Signature>::message_of(alert.signable),
                alert.signature,
                alert.signable.sender,
            )
            &&& !ok ==> after == state
            &&& ok ==> {
                &&& after.alerter.known_forkers == state.alerter.known_forkers.insert(
                    forker,
                    alert.signable.proof_of_fork,
                )
                &&& after.alerter.known_rmcs == state.alerter.known_rmcs.insert(id, hash)
                &&& after.alerter.known_alerts == state.alerter.known_alerts.insert(
                    hash,
                    SignedView { signable: alert.signable, signature },
                )
                &&& after.steps == state.steps.push(StepView::MarkForker(forker))
                &&& after.fork_proofs == state.fork_proofs.remove(forker)
                &&& after.rmcs == state.rmcs.insert(hash)
                &&& after.dag == state.dag
                &&& after.rmc == state.rmc
                &&& after.tasks == state.tasks
            }
        }),
{
}

/// An alert of somebody else in a backup does to the alerts what it does when it comes in over the
/// network. If that notifies of its forker, the forker is marked and has to be told about, and the
/// multicast has to go on; otherwise nothing else happens.
pub proof fn law_network_alert_taken_up<H: Hasher, D: Data, MK: MultiKeychain>(
    keychain: MK,
    session_id: SessionId,
    state: StateOf<H, D, MK>,
    alert: SignedView<AlertView<HashOf<H>, D::V, SignatureOf<MK>>, SignatureOf<MK>>,
    signature: SignatureOf<MK>,
)
    ensures
        ({
            let (after, ok) = injector::item_injected::<H, D, MK>(
                keychain,
                session_id,
                state,
                BackupItemView::AlertData(AlertDataView::NetworkAlert(alert)),
                signature,
            );
            let (alerter, response) = handler::message_handled::<H, D, MK>(
                keychain,
                session_id,
                state.alerter,
                AlertMessageView::ForkAlert(alert),
            );
            let hash = alerts::alert_hash::<H, D, MK::Signature>(alert.signable);
            let proof_of_fork = alert.signable.proof_of_fork;
            let forker = proof_of_fork.0.signable.pre_unit.coord.creator;
            let notified = response == Some(
                AlerterResponseView::<
                    HashOf<H>,
                    D::V,
                    SignatureOf<MK>,
                    PartialOf<MK>,
                >::ForkResponse(
                    Some(ForkingNotificationView::Forker(proof_of_fork)),
                    hash,
                ),
            );
            &&& ok
            &&& after.alerter == alerter
            &&& after.dag == state.dag
            &&& after.rmc == state.rmc
            &&& after.tasks == state.tasks
            &&& notified ==> {
                &&& after.steps == state.steps.push(StepView::MarkForker(forker))
                &&& after.fork_proofs == state.fork_proofs.insert(
                    forker,
                    ForkingNotificationView::Forker(proof_of_fork),
                )
                &&& after.rmcs == state.rmcs.insert(hash)
            }
            &&& !notified ==> {
                &&& after.steps == state.steps
                &&& after.fork_proofs == state.fork_proofs
                &&& after.rmcs == state.rmcs
            }
        }),
{
}

/// A multisignature in a backup confirms the alert with its hash. If the alert is known and commits
/// to correct units, these are the next ones to be added, in order and in spite of the alert, and the
/// hash need not be multicast any more; otherwise the backup is refused.
pub proof fn law_multisignature_taken_up<H: Hasher, D: Data, MK: MultiKeychain>(
    keychain: MK,
    session_id: SessionId,
    state: StateOf<H, D, MK>,
    multisigned: SignedView<HashOf<H>, PartialOf<MK>>,
    signature: SignatureOf<MK>,
)
    ensures
        ({
            let (after, ok) = injector::item_injected::<H, D, MK>(
                keychain,
                session_id,
                state,
                BackupItemView::AlertData(AlertDataView::MultisignedHash(multisigned)),
                signature,
            );
            let hash = multisigned.signable;
            let (alerter, notification) = handler::confirmed::<H, D, MK>(
                keychain,
                state.alerter,
                hash,
            );
            let units = state.alerter.known_alerts[hash].signable.legit_units;
            let complete = keychain.completes(H::Hash::message_of(hash), multisigned.signature);
            &&& ok <==> notification is Some
            &&& after.alerter == alerter
            &&& complete ==> after.rmc.contains_key(hash) && after.rmc[hash].complete
            &&& forall|other: HashOf<H>|
                other != hash ==> (#[trigger] after.rmc.contains_key(other)
                    == state.rmc.contains_key(other)) && (state.rmc.contains_key(other)
                    ==> after.rmc[other] == state.rmc[other])
            &&& after.dag == state.dag
            &&& after.fork_proofs == state.fork_proofs
            &&& after.tasks == state.tasks
            &&& ok ==> {
                &&& after.steps.len() == state.steps.len() + units.len()
                &&& forall|k: int|
                    0 <= k < state.steps.len() ==> #[trigger] after.steps[k] == state.steps[k]
                &&& forall|k: int|
                    0 <= k < units.len() ==> #[trigger] after.steps[state.steps.len() + k]
                        == StepView::AddUnit(units[k], true)
                &&& after.rmcs == state.rmcs.remove(hash)
            }
            &&& !ok ==> after.steps == state.steps && after.rmcs == state.rmcs
        }),
{
}

/// A backup is put back item by item, in order, up to the first one that is refused.
pub proof fn law_items_in_order<H: Hasher, D: Data, MK: MultiKeychain>(
    keychain: MK,
    session_id: SessionId,
    items: Seq<ItemOf<H, D, MK>>,
    own: Seq<SignatureOf<MK>>,
    n: int,
)
    requires
        0 <= n < items.len(),
    ensures
        ({
            let before = injector::all_injected::<H, D, MK>(
                keychain,
                session_id,
                items.take(n),
                own,
            );
            let after = injector::all_injected::<H, D, MK>(
                keychain,
                session_id,
                items.take(n + 1),
                own,
            );
            &&& !before.1 ==> after == before
            &&& before.1 ==> after == injector::item_injected::<H, D, MK>(
                keychain,
                session_id,
                before.0,
                items[n],
                own[n],
            )
        }),
{
    assert(items.take(n + 1).drop_last() =~= items.take(n));
}

/// Whether some message of the multicast of a hash is to be sent.
pub open spec fn to_be_multicast<V, S, P>(tasks: Seq<RmcMessageView<V, S, P>>, hash: V) -> bool {
    exists|i: int|
        0 <= i < tasks.len() && match #[trigger] tasks[i] {
            RmcMessageView::SignedHash(signed) => signed.signable.signable == hash,
            RmcMessageView::MultisignedHash(multisigned) => multisigned.signable == hash,
        }
}

/// The multicasts that have to go on do: for each of the hashes, unless its multisignature was
/// complete, a message of its multicast is to be sent.
pub proof fn law_multicasts_go_on<H: Hasher, D: Data, MK: MultiKeychain>(
    keychain: MK,
    state: StateOf<H, D, MK>,
    hashes: Seq<HashOf<H>>,
    started: Seq<SignatureOf<MK>>,
)
    requires
        hashes.no_duplicates(),
        injector::all_multicast::<H, D, MK>(keychain, state, hashes, started).1,
    ensures
        ({
            let after = injector::all_multicast::<H, D, MK>(keychain, state, hashes, started).0;
            &&& forall|k: int|
                0 <= k < hashes.len() ==> {
                    let hash = #[trigger] hashes[k];
                    ||| state.rmc.contains_key(hash) && state.rmc[hash].complete
                    ||| to_be_multicast(after.tasks, hash)
                }
            &&& forall|hash: HashOf<H>|
                !hashes.contains(hash) ==> (#[trigger] after.rmc.contains_key(hash)
                    == state.rmc.contains_key(hash)) && (state.rmc.contains_key(hash)
                    ==> after.rmc[hash] == state.rmc[hash])
            &&& forall|hash: HashOf<H>|
                to_be_multicast(state.tasks, hash) ==> #[trigger] to_be_multicast(after.tasks, hash)
        }),
    decreases hashes.len(),
{
    if hashes.len() > 0 {
        let rest = hashes.drop_last();
        let last = hashes.last();
        assert forall|i: int, j: int|
            0 <= i < rest.len() && 0 <= j < rest.len() && i != j implies rest[i] != rest[j] by {
            assert(hashes[i] == rest[i] && hashes[j] == rest[j]);
        }
        law_multicasts_go_on::<H, D, MK>(keychain, state, rest, started);
        let before = injector::all_multicast::<H, D, MK>(keychain, state, rest, started).0;
        let after = injector::all_multicast::<H, D, MK>(keychain, state, hashes, started).0;
        assert(!rest.contains(last)) by {
            if rest.contains(last) {
                let i = choose|i: int| 0 <= i < rest.len() && rest[i] == last;
                assert(hashes[i] == hashes[hashes.len() - 1]);
            }
        }
        assert(before.rmc.contains_key(last) == state.rmc.contains_key(last));
        assert forall|hash: HashOf<H>|
            to_be_multicast(before.tasks, hash) implies #[trigger] to_be_multicast(
            after.tasks,
            hash,
        ) by {
            let i = choose|i: int|
                0 <= i < before.tasks.len() && match #[trigger] before.tasks[i] {
                    RmcMessageView::SignedHash(signed) => signed.signable.signable == hash,
                    RmcMessageView::MultisignedHash(multisigned) => multisigned.signable == hash,
                };
            assert(after.tasks[i] == before.tasks[i]);
        }
        assert forall|k: int| 0 <= k < hashes.len() implies {
            let hash = #[trigger] hashes[k];
            ||| state.rmc.contains_key(hash) && state.rmc[hash].complete
            ||| to_be_multicast(after.tasks, hash)
        } by {
            if k < rest.len() {
                assert(rest[k] == hashes[k]);
            } else if !(state.rmc.contains_key(last) && state.rmc[last].complete) {
                let n = before.tasks.len() as int;
                assert(after.tasks.len() == n + 1);
                assert(match after.tasks[n] {
                    RmcMessageView::SignedHash(signed) => signed.signable.signable == last,
                    RmcMessageView::MultisignedHash(multisigned) => multisigned.signable == last,
                });
            }
        }
        assert forall|hash: HashOf<H>| !hashes.contains(hash) implies (
        #[trigger] after.rmc.contains_key(hash) == state.rmc.contains_key(hash)) && (
        state.rmc.contains_key(hash) ==> after.rmc[hash] == state.rmc[hash]) by {
            assert(hashes[hashes.len() - 1] == last);
            assert(hash != last);
            if rest.contains(hash) {
                let i = choose|i: int| 0 <= i < rest.len() && rest[i] == hash;
                assert(hashes[i] == hash);
            }
            assert(before.rmc.contains_key(hash) == state.rmc.contains_key(hash));
        }
    }
}

/// A backup that is put back whole gives the handling of units exactly the forkers that it still has
/// to be told about, each once, and lets every multicast go on that was not complete.
pub proof fn law_backup_put_back_whole<H: Hasher, D: Data, MK: MultiKeychain>(
    keychain: MK,
    session_id: SessionId,
    items: Seq<ItemOf<H, D, MK>>,
    own: Seq<SignatureOf<MK>>,
    hashes: Seq<HashOf<H>>,
    started: Seq<SignatureOf<MK>>,
    forkers: Seq<NodeIndex>,
    steps: Seq<StepView<HashOf<H>, D::V, SignatureOf<MK>>>,
    result: Option<InitialStateView<HashOf<H>, D::V, SignatureOf<MK>, PartialOf<MK>>>,
)
    requires
        injector::outcome::<H, D, MK>(
            keychain,
            session_id,
            items,
            own,
            hashes,
            started,
            forkers,
            steps,
            result,
        ),
        result is Some,
    ensures
        ({
            let injected = injector::all_injected::<H, D, MK>(keychain, session_id, items, own).0;
            let initial = result->0;
            &&& injector::all_injected::<H, D, MK>(keychain, session_id, items, own).1
            &&& forall|hash: HashOf<H>| #[trigger]
                injected.rmcs.contains(hash) ==> {
                    ||| injected.rmc.contains_key(hash) && injected.rmc[hash].complete
                    ||| to_be_multicast(initial.tasks, hash)
                }
            &&& initial.forking_notifications.len() == forkers.len()
            &&& forkers.no_duplicates()
            &&& forall|k: int|
                0 <= k < forkers.len() ==> injected.fork_proofs.contains_key(
                    #[trigger] forkers[k],
                ) && initial.forking_notifications[k] == injected.fork_proofs[forkers[k]]
            &&& forall|forker: NodeIndex| #[trigger]
                injected.fork_proofs.contains_key(forker) ==> forkers.contains(forker)
        }),
{
    let injected = injector::all_injected::<H, D, MK>(keychain, session_id, items, own).0;
    let state = injector::all_multicast::<H, D, MK>(keychain, injected, hashes, started).0;
    law_multicasts_go_on::<H, D, MK>(keychain, injected, hashes, started);
    lemma_same_fork_proofs::<H, D, MK>(keychain, injected, hashes, started);
    assert forall|hash: HashOf<H>| #[trigger] injected.rmcs.contains(hash) implies {
        ||| injected.rmc.contains_key(hash) && injected.rmc[hash].complete
        ||| to_be_multicast(result->0.tasks, hash)
    } by {
        assert(hashes.to_set().contains(hash));
        let k = choose|k: int| 0 <= k < hashes.len() && hashes[k] == hash;
        assert(hashes[k] == hash);
    }
    assert forall|k: int| 0 <= k < forkers.len() implies injected.fork_proofs.contains_key(
        #[trigger] forkers[k],
    ) by {
        assert(forkers.to_set().contains(forkers[k]));
    }
    assert forall|forker: NodeIndex| #[trigger]
        injected.fork_proofs.contains_key(forker) implies forkers.contains(forker) by {
        assert(state.fork_proofs.dom().contains(forker));
        assert(forkers.to_set().contains(forker));
    }
}

proof fn lemma_same_fork_proofs<H: Hasher, D: Data, MK: MultiKeychain>(
    keychain: MK,
    state: StateOf<H, D, MK>,
    hashes: Seq<HashOf<H>>,
    started: Seq<SignatureOf<MK>>,
)
    ensures
        injector::all_multicast::<H, D, MK>(keychain, state, hashes, started).0.fork_proofs
            == state.fork_proofs,
    decreases hashes.len(),
{
    if hashes.len() > 0 {
        lemma_same_fork_proofs::<H, D, MK>(keychain, state, hashes.drop_last(), started);
    }
}

} // verus!
