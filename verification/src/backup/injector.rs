//! Rebuilds the state of the alerts and of the reliable multicast from a backup.
use crate::alerts;
use crate::alerts::handler;
use crate::alerts::handler::{Handler as AlerterHandler, HandlerView};
use crate::alerts::{
    Alert, AlertConfig, AlertView, ForkingNotification, ForkingNotificationView, SignedUnitView,
};
use crate::collections;
use crate::collections::{VecMap, VecSet};
use crate::crypto::{
    same_multi_keys, HashOf, Hasher, Keychain, MultiKeychain, PartialOf, Signable, SignatureOf,
};
use crate::data::Data;
use crate::duration::{Duration, NANOS_IN_MILLI};
use crate::nodes::{NodeIndex, SessionId};
use crate::rmc::handler as rmc_states;
use crate::rmc::handler::{Handler as RmcHandler, OnStartRmcResponse};
use crate::rmc::{Message as RmcMessage, MessageView as RmcMessageView};
use crate::runway::backup;
use crate::runway::backup::check_parents;
use crate::signed;
use crate::signed::{Multisigned, PartialView, SignedView, UncheckedSigned};
use crate::units::{SignedUnit, UncheckedSignedUnit, UnitCoord};
use std::marker::PhantomData;
use vstd::prelude::*;

verus! {

/// How many milliseconds to wait before a task of the reliable multicast is done again.
pub const TASK_DELAY: u64 = 500;

/// What the alerts have saved.
pub enum AlertData<H: Hasher, D: Data, S: Data, P: Data> {
    OwnAlert(UncheckedSigned<Alert<H, D, S>, S>),
    NetworkAlert(UncheckedSigned<Alert<H, D, S>, S>),
    MultisignedHash(Multisigned<H::Hash, P>),
}

/// The model of what the alerts have saved.
pub enum AlertDataView<V, D, S, P> {
    OwnAlert(SignedView<AlertView<V, D, S>, S>),
    NetworkAlert(SignedView<AlertView<V, D, S>, S>),
    MultisignedHash(SignedView<V, P>),
}

impl<H: Hasher, D: Data, S: Data, P: Data> DeepView for AlertData<H, D, S, P> {
    type V = AlertDataView<HashOf<H>, D::V, S::V, P::V>;

    open spec fn deep_view(&self) -> AlertDataView<HashOf<H>, D::V, S::V, P::V> {
        match self {
            AlertData::OwnAlert(alert) => AlertDataView::OwnAlert(alert.deep_view()),
            AlertData::NetworkAlert(alert) => AlertDataView::NetworkAlert(alert.deep_view()),
            AlertData::MultisignedHash(multisigned) => AlertDataView::MultisignedHash(
                multisigned.deep_view(),
            ),
        }
    }
}

/// An item of a backup.
pub enum BackupItem<H: Hasher, D: Data, S: Data, P: Data> {
    Unit(UncheckedSignedUnit<H, D, S>),
    AlertData(AlertData<H, D, S, P>),
}

/// The model of an item of a backup.
pub enum BackupItemView<V, D, S, P> {
    Unit(SignedUnitView<V, D, S>),
    AlertData(AlertDataView<V, D, S, P>),
}

impl<H: Hasher, D: Data, S: Data, P: Data> DeepView for BackupItem<H, D, S, P> {
    type V = BackupItemView<HashOf<H>, D::V, S::V, P::V>;

    open spec fn deep_view(&self) -> BackupItemView<HashOf<H>, D::V, S::V, P::V> {
        match self {
            BackupItem::Unit(unit) => BackupItemView::Unit(unit.deep_view()),
            BackupItem::AlertData(data) => BackupItemView::AlertData(data.deep_view()),
        }
    }
}

/// What the handling of units has to go through once more.
pub enum Step<H: Hasher, D: Data, S: Data> {
    /// Add a unit; says whether an alert commits to it.
    AddUnit(SignedUnit<H, D, S>, bool),
    /// Remember that somebody forks.
    MarkForker(NodeIndex),
}

/// The model of a step.
pub enum StepView<V, D, S> {
    AddUnit(SignedUnitView<V, D, S>, bool),
    MarkForker(NodeIndex),
}

impl<H: Hasher, D: Data, S: Data> DeepView for Step<H, D, S> {
    type V = StepView<HashOf<H>, D::V, S::V>;

    open spec fn deep_view(&self) -> StepView<HashOf<H>, D::V, S::V> {
        match self {
            Step::AddUnit(unit, committed) => StepView::AddUnit(unit.deep_view(), *committed),
            Step::MarkForker(forker) => StepView::MarkForker(*forker),
        }
    }
}

/// How far the items of a backup have been dealt with.
#[verifier::ext_equal]
#[verifier::reject_recursive_types(V)]
pub struct InjectionView<V, D, S, P> {
    /// Where there are units that no alert was needed for.
    pub dag: Set<UnitCoord>,
    pub alerter: HandlerView<V, D, S>,
    pub rmc: Map<V, PartialView<V, P>>,
    /// What the handling of units may have to be told about each forker.
    pub fork_proofs: Map<NodeIndex, ForkingNotificationView<V, D, S>>,
    /// The hashes that may have to be multicast.
    pub rmcs: Set<V>,
    pub tasks: Seq<RmcMessageView<V, S, P>>,
    pub steps: Seq<StepView<V, D, S>>,
}

impl<V, D, S, P> InjectionView<V, D, S, P> {
    pub open spec fn fresh() -> Self {
        InjectionView {
            dag: Set::empty(),
            alerter: HandlerView::fresh(),
            rmc: Map::empty(),
            fork_proofs: Map::empty(),
            rmcs: Set::empty(),
            tasks: seq![],
            steps: seq![],
        }
    }
}

/// The state of an injection under the given types.
pub type StateOf<H, D, MK> = InjectionView<
    HashOf<H>,
    <D as DeepView>::V,
    SignatureOf<MK>,
    PartialOf<MK>,
>;

/// The model of an item under the given types.
pub type ItemOf<H, D, MK> = BackupItemView<
    HashOf<H>,
    <D as DeepView>::V,
    SignatureOf<MK>,
    PartialOf<MK>,
>;

/// Whether a unit fits to those before it: it is of the session, its parents are there, it is
/// correctly signed and nothing else is in its place.
pub open spec fn unit_fits<H: Hasher, D: Data, MK: MultiKeychain>(
    keychain: MK,
    session_id: SessionId,
    dag: Set<UnitCoord>,
    unit: SignedUnitView<HashOf<H>, D::V, SignatureOf<MK>>,
) -> bool {
    &&& unit.signable.session_id == session_id
    &&& backup::parents_at(unit.signable, dag)
    &&& handler::correctly_signed::<H, D, MK>(keychain, unit)
    &&& !dag.contains(unit.signable.coord())
}

/// The units that an alert commits to are added.
pub open spec fn committed_added<V, D, S, P>(
    state: InjectionView<V, D, S, P>,
    units: Seq<SignedUnitView<V, D, S>>,
) -> InjectionView<V, D, S, P> {
    InjectionView {
        steps: state.steps + units.map_values(
            |unit: SignedUnitView<V, D, S>| StepView::AddUnit(unit, true),
        ),
        ..state
    }
}

/// The alert under a hash is confirmed; says whether that was in order.
pub open spec fn alert_confirmed<H: Hasher, D: Data, MK: MultiKeychain>(
    keychain: MK,
    state: StateOf<H, D, MK>,
    hash: HashOf<H>,
) -> (StateOf<H, D, MK>, bool) {
    let (alerter, notification) = handler::confirmed::<H, D, MK>(keychain, state.alerter, hash);
    let state = InjectionView { alerter, ..state };
    match notification {
        Some(ForkingNotificationView::Units(units)) => (committed_added(state, units), true),
        _ => (state, false),
    }
}

/// Whether a signature may be our own under an item, if the item is an alert of our own.
pub open spec fn signs_item<H: Hasher, D: Data, MK: MultiKeychain>(
    keychain: MK,
    item: ItemOf<H, D, MK>,
    signature: SignatureOf<MK>,
) -> bool {
    item matches BackupItemView::AlertData(AlertDataView::OwnAlert(alert)) ==> (
    signed::signed_by_owner::<Alert<H, D, MK::Signature>, MK>(keychain, alert) ==> keychain.signs(
        Alert::<H, D, MK::Signature>::message_of(alert.signable),
        signature,
    ))
}

/// An item of the backup is dealt with; says whether it was in order. The signature is our own
/// under an alert of our own.
pub open spec fn item_injected<H: Hasher, D: Data, MK: MultiKeychain>(
    keychain: MK,
    session_id: SessionId,
    state: StateOf<H, D, MK>,
    item: ItemOf<H, D, MK>,
    signature: SignatureOf<MK>,
) -> (StateOf<H, D, MK>, bool) {
    match item {
        BackupItemView::Unit(unit) => if unit_fits::<H, D, MK>(
            keychain,
            session_id,
            state.dag,
            unit,
        ) {
            (
                InjectionView {
                    dag: state.dag.insert(unit.signable.coord()),
                    steps: state.steps.push(StepView::AddUnit(unit, false)),
                    ..state
                },
                true,
            )
        } else {
            (state, false)
        },
        BackupItemView::AlertData(AlertDataView::OwnAlert(alert)) => if signed::signed_by_owner::<
            Alert<H, D, MK::Signature>,
            MK,
        >(keychain, alert) {
            let contents = alert.signable;
            let hash = alerts::alert_hash::<H, D, MK::Signature>(contents);
            let forker = contents.forker();
            (
                InjectionView {
                    alerter: state.alerter.with_forker(forker, contents.proof_of_fork).with_rmc(
                        contents.sender,
                        forker,
                        hash,
                    ).with_alert(hash, SignedView { signable: contents, signature }),
                    steps: state.steps.push(StepView::MarkForker(forker)),
                    fork_proofs: state.fork_proofs.remove(forker),
                    rmcs: state.rmcs.insert(hash),
                    ..state
                },
                true,
            )
        } else {
            (state, false)
        },
        BackupItemView::AlertData(AlertDataView::NetworkAlert(alert)) => {
            let (alerter, news) = handler::network_alert::<H, D, MK>(
                keychain,
                session_id,
                state.alerter,
                alert,
            );
            let forker = alert.signable.forker();
            match news {
                Some((Some(notification), hash)) => (
                    InjectionView {
                        alerter,
                        steps: state.steps.push(StepView::MarkForker(forker)),
                        fork_proofs: state.fork_proofs.insert(forker, notification),
                        rmcs: state.rmcs.insert(hash),
                        ..state
                    },
                    true,
                ),
                _ => (InjectionView { alerter, ..state }, true),
            }
        },
        BackupItemView::AlertData(AlertDataView::MultisignedHash(multisigned)) => {
            let hash = multisigned.signable;
            let correct = keychain.completes(H::Hash::message_of(hash), multisigned.signature);
            let rmc = if !rmc_states::completed::<H::Hash, MK>(state.rmc, hash) && correct {
                state.rmc.insert(hash, PartialView { content: multisigned, complete: true })
            } else {
                state.rmc
            };
            let (after, ok) = alert_confirmed::<H, D, MK>(
                keychain,
                InjectionView { rmc, ..state },
                hash,
            );
            if ok {
                (InjectionView { rmcs: after.rmcs.remove(hash), ..after }, true)
            } else {
                (after, false)
            }
        },
    }
}

/// The items of the backup are dealt with one after another, up to the first that is not in order.
pub open spec fn all_injected<H: Hasher, D: Data, MK: MultiKeychain>(
    keychain: MK,
    session_id: SessionId,
    items: Seq<ItemOf<H, D, MK>>,
    signatures: Seq<SignatureOf<MK>>,
) -> (StateOf<H, D, MK>, bool)
    decreases items.len(),
{
    if items.len() == 0 {
        (InjectionView::fresh(), true)
    } else {
        let (before, ok) = all_injected::<H, D, MK>(
            keychain,
            session_id,
            items.drop_last(),
            signatures,
        );
        if ok {
            item_injected::<H, D, MK>(
                keychain,
                session_id,
                before,
                items.last(),
                signatures[items.len() - 1],
            )
        } else {
            (before, false)
        }
    }
}

/// A hash is multicast with the given signature of our own; says whether that was in order.
pub open spec fn multicast<H: Hasher, D: Data, MK: MultiKeychain>(
    keychain: MK,
    state: StateOf<H, D, MK>,
    hash: HashOf<H>,
    signature: SignatureOf<MK>,
) -> (StateOf<H, D, MK>, bool) {
    let signed = rmc_states::own_signature::<H::Hash, MK>(keychain, hash, signature);
    if rmc_states::completed::<H::Hash, MK>(state.rmc, hash) {
        (state, true)
    } else {
        let (rmc, multisigned) = rmc_states::signature_added::<H::Hash, MK>(
            keychain,
            state.rmc,
            signed,
        );
        match multisigned {
            None => (
                InjectionView {
                    rmc,
                    tasks: state.tasks.push(RmcMessageView::SignedHash(signed)),
                    ..state
                },
                true,
            ),
            Some(multisigned) => alert_confirmed::<H, D, MK>(
                keychain,
                InjectionView {
                    rmc,
                    tasks: state.tasks.push(RmcMessageView::MultisignedHash(multisigned)),
                    ..state
                },
                multisigned.signable,
            ),
        }
    }
}

/// Hashes are multicast one after another, up to the first that is not in order.
pub open spec fn all_multicast<H: Hasher, D: Data, MK: MultiKeychain>(
    keychain: MK,
    state: StateOf<H, D, MK>,
    hashes: Seq<HashOf<H>>,
    signatures: Seq<SignatureOf<MK>>,
) -> (StateOf<H, D, MK>, bool)
    decreases hashes.len(),
{
    if hashes.len() == 0 {
        (state, true)
    } else {
        let (before, ok) = all_multicast::<H, D, MK>(
            keychain,
            state,
            hashes.drop_last(),
            signatures,
        );
        if ok {
            multicast::<H, D, MK>(
                keychain,
                before,
                hashes.last(),
                signatures[hashes.len() - 1],
            )
        } else {
            (before, false)
        }
    }
}

/// The signatures may be our own under the items that they go with.
pub open spec fn signs_items<H: Hasher, D: Data, MK: MultiKeychain>(
    keychain: MK,
    items: Seq<ItemOf<H, D, MK>>,
    signatures: Seq<SignatureOf<MK>>,
) -> bool {
    &&& signatures.len() <= items.len()
    &&& forall|i: int|
        0 <= i < signatures.len() ==> signs_item::<H, D, MK>(
            keychain,
            items[i],
            #[trigger] signatures[i],
        )
}

/// The signatures may be our own under the hashes that are multicast with them.
pub open spec fn signs_hashes<H: Hasher, D: Data, MK: MultiKeychain>(
    keychain: MK,
    state: StateOf<H, D, MK>,
    hashes: Seq<HashOf<H>>,
    signatures: Seq<SignatureOf<MK>>,
) -> bool
    decreases hashes.len(),
{
    if hashes.len() == 0 {
        true
    } else {
        let (before, ok) = all_multicast::<H, D, MK>(
            keychain,
            state,
            hashes.drop_last(),
            signatures,
        );
        &&& signs_hashes::<H, D, MK>(keychain, state, hashes.drop_last(), signatures)
        &&& ok ==> signs_hash::<H, D, MK>(
            keychain,
            before,
            hashes.last(),
            signatures[hashes.len() - 1],
        )
    }
}

/// The signature may be our own under the hash, if it is needed.
pub open spec fn signs_hash<H: Hasher, D: Data, MK: MultiKeychain>(
    keychain: MK,
    state: StateOf<H, D, MK>,
    hash: HashOf<H>,
    signature: SignatureOf<MK>,
) -> bool {
    rmc_states::completed::<H::Hash, MK>(state.rmc, hash) || keychain.signs(
        H::Hash::message_of(hash),
        signature,
    )
}

/// The model of the state that we start with.
#[verifier::ext_equal]
#[verifier::reject_recursive_types(V)]
pub struct InitialStateView<V, D, S, P> {
    pub alerter: HandlerView<V, D, S>,
    pub rmc: Map<V, PartialView<V, P>>,
    pub forking_notifications: Seq<ForkingNotificationView<V, D, S>>,
    pub tasks: Seq<RmcMessageView<V, S, P>>,
}

/// What comes of a backup: the steps and, if all is in order, the state that we start with. The
/// signatures are our own, `hashes` are those left to be multicast and `forkers` those left to be
/// told about, both in some order.
pub open spec fn outcome<H: Hasher, D: Data, MK: MultiKeychain>(
    keychain: MK,
    session_id: SessionId,
    items: Seq<ItemOf<H, D, MK>>,
    own: Seq<SignatureOf<MK>>,
    hashes: Seq<HashOf<H>>,
    started: Seq<SignatureOf<MK>>,
    forkers: Seq<NodeIndex>,
    steps: Seq<StepView<HashOf<H>, D::V, SignatureOf<MK>>>,
    result: Option<
        InitialStateView<HashOf<H>, D::V, SignatureOf<MK>, PartialOf<MK>>,
    >,
) -> bool {
    let (injected, items_ok) = all_injected::<H, D, MK>(keychain, session_id, items, own);
    let (state, multicasts_ok) = all_multicast::<H, D, MK>(keychain, injected, hashes, started);
    &&& signs_items::<H, D, MK>(keychain, items, own)
    &&& if !items_ok {
        result is None && steps == injected.steps
    } else {
        &&& signs_hashes::<H, D, MK>(keychain, injected, hashes, started)
        &&& hashes.no_duplicates()
        &&& hashes.to_set() == injected.rmcs
        &&& forkers.no_duplicates()
        &&& forkers.to_set() == state.fork_proofs.dom()
        &&& steps == state.steps
        &&& result == (if multicasts_ok {
            Some(
                InitialStateView {
                    alerter: state.alerter,
                    rmc: state.rmc,
                    forking_notifications: forkers.map_values(
                        |forker: NodeIndex| state.fork_proofs[forker],
                    ),
                    tasks: state.tasks,
                },
            )
        } else {
            None
        })
    }
}

/// The state that we start with.
pub struct InitialState<H: Hasher, D: Data, MK: MultiKeychain> {
    pub alerter_handler: AlerterHandler<H, D, MK>,
    pub rmc_handler: RmcHandler<H::Hash, MK>,
    pub forking_notifications: Vec<ForkingNotification<H, D, MK::Signature>>,
    /// The messages to be sent again and again.
    pub tasks: Vec<RmcMessage<H::Hash, MK::Signature, MK::PartialMultisignature>>,
    /// How long to wait before the messages are sent for the second time.
    pub task_delay: Duration,
}

impl<H: Hasher, D: Data, MK: MultiKeychain> DeepView for InitialState<H, D, MK> {
    type V = InitialStateView<HashOf<H>, D::V, SignatureOf<MK>, PartialOf<MK>>;

    open spec fn deep_view(&self) -> InitialStateView<
        HashOf<H>,
        D::V,
        SignatureOf<MK>,
        PartialOf<MK>,
    > {
        InitialStateView {
            alerter: self.alerter_handler.deep_view(),
            rmc: self.rmc_handler.states(),
            forking_notifications: self.forking_notifications.deep_view(),
            tasks: self.tasks.deep_view(),
        }
    }
}

impl<H: Hasher, D: Data, MK: MultiKeychain> InitialState<H, D, MK> {
    /// The handlers use the given keys, for the given session.
    pub open spec fn set_up_for(&self, keychain: MK, session_id: SessionId) -> bool {
        &&& same_multi_keys(self.alerter_handler.keys(), keychain)
        &&& self.alerter_handler.session() == session_id
        &&& same_multi_keys(self.rmc_handler.keys(), keychain)
        &&& self.rmc_handler.wf()
        &&& self.task_delay@ == TASK_DELAY * NANOS_IN_MILLI
    }
}

/// How far the items of a backup have been dealt with.
struct Injection<H: Hasher, D: Data, MK: MultiKeychain> {
    alerter_handler: AlerterHandler<H, D, MK>,
    rmc_handler: RmcHandler<H::Hash, MK>,
    fork_proofs: VecMap<NodeIndex, ForkingNotification<H, D, MK::Signature>>,
    rmcs: VecSet<H::Hash>,
    tasks: Vec<RmcMessage<H::Hash, MK::Signature, MK::PartialMultisignature>>,
    dag: VecSet<UnitCoord>,
    steps: Vec<Step<H, D, MK::Signature>>,
}

impl<H: Hasher, D: Data, MK: MultiKeychain> Injection<H, D, MK> {
    spec fn state(&self) -> StateOf<H, D, MK> {
        InjectionView {
            dag: self.dag.deep_view(),
            alerter: self.alerter_handler.deep_view(),
            rmc: self.rmc_handler.states(),
            fork_proofs: self.fork_proofs.deep_view(),
            rmcs: self.rmcs.deep_view(),
            tasks: self.tasks.deep_view(),
            steps: self.steps.deep_view(),
        }
    }

    spec fn set_up_for(&self, keychain: MK, session_id: SessionId) -> bool {
        &&& same_multi_keys(self.alerter_handler.keys(), keychain)
        &&& self.alerter_handler.session() == session_id
        &&& same_multi_keys(self.rmc_handler.keys(), keychain)
        &&& self.rmc_handler.wf()
    }

    fn push_step(&mut self, step: Step<H, D, MK::Signature>)
        ensures
            final(self).alerter_handler == old(self).alerter_handler,
            final(self).rmc_handler == old(self).rmc_handler,
            final(self).state() == (InjectionView {
                steps: old(self).state().steps.push(step.deep_view()),
                ..old(self).state()
            }),
    {
        let ghost added = step.deep_view();
        self.steps.push(step);
        proof {
            assert(self.steps.deep_view() =~= old(self).steps.deep_view().push(added));
        }
    }

    fn push_task(
        &mut self,
        task: RmcMessage<H::Hash, MK::Signature, MK::PartialMultisignature>,
    )
        ensures
            final(self).alerter_handler == old(self).alerter_handler,
            final(self).rmc_handler == old(self).rmc_handler,
            final(self).state() == (InjectionView {
                tasks: old(self).state().tasks.push(task.deep_view()),
                ..old(self).state()
            }),
    {
        let ghost added = task.deep_view();
        self.tasks.push(task);
        proof {
            assert(self.tasks.deep_view() =~= old(self).tasks.deep_view().push(added));
        }
    }
}

/// Puts the items of a backup back in.
pub struct BackupInjector<H: Hasher, D: Data, MK: MultiKeychain> {
    session_id: SessionId,
    keychain: MK,
    phantom: PhantomData<(H, D)>,
}

impl<H: Hasher, D: Data, MK: MultiKeychain> BackupInjector<H, D, MK> {
    /// The keys that signatures are checked with.
    pub closed spec fn keys(&self) -> MK {
        self.keychain
    }

    /// The session of the backup.
    pub closed spec fn session(&self) -> SessionId {
        self.session_id
    }

    pub fn new(session_id: SessionId, keychain: MK) -> (result: Self)
        ensures
            result.keys() == keychain,
            result.session() == session_id,
    {
        BackupInjector { session_id, keychain, phantom: PhantomData }
    }

    /// Whether a unit is of the session and its parents are there.
    fn verify_unit_parents(
        &self,
        unit: &UncheckedSignedUnit<H, D, MK::Signature>,
        dag: &VecSet<UnitCoord>,
    ) -> (result: bool)
        ensures
            result == (unit.deep_view().signable.session_id == self.session()
                && backup::parents_at(unit.deep_view().signable, dag.deep_view())),
    {
        let full_unit = unit.as_signable();
        if full_unit.session_id() != self.session_id {
            return false;
        }
        check_parents(full_unit, dag)
    }

    /// The units that the alert under a hash commits to, once the hash has been signed by enough
    /// members.
    fn handle_multisigned(
        &self,
        multisigned: Multisigned<H::Hash, MK::PartialMultisignature>,
        injection: &mut Injection<H, D, MK>,
    ) -> (ok: bool)
        requires
            old(injection).set_up_for(self.keys(), self.session()),
        ensures
            final(injection).set_up_for(self.keys(), self.session()),
            (final(injection).state(), ok) == alert_confirmed::<H, D, MK>(
                self.keys(),
                old(injection).state(),
                multisigned.deep_view().signable,
            ),
    {
        let ghost hash = multisigned.deep_view().signable;
        let ghost before = injection.state();
        proof {
            handler::lemma_same_confirmed::<H, D, MK>(
                injection.alerter_handler.keys(),
                self.keys(),
                before.alerter,
                hash,
            );
        }
        match injection.alerter_handler.alert_confirmed(multisigned) {
            Some(ForkingNotification::Units(units)) => {
                let n: usize = units.len();
                let ghost all = units.deep_view();
                let ghost middle = injection.state();
                proof {
                    assert(all.take(0).map_values(
                        |unit: SignedUnitView<HashOf<H>, D::V, SignatureOf<MK>>|
                            StepView::<HashOf<H>, D::V, SignatureOf<MK>>::AddUnit(unit, true),
                    ) =~= seq![]);
                    assert(injection.state() =~= committed_added(middle, all.take(0)));
                }
                for i in 0..n
                    invariant
                        n == units@.len(),
                        all == units.deep_view(),
                        injection.set_up_for(self.keys(), self.session()),
                        injection.state() == committed_added(middle, all.take(i as int)),
                        forall|j: int|
                            0 <= j < all.len() ==> handler::correctly_signed::<H, D, MK>(
                                self.keys(),
                                #[trigger] all[j],
                            ),
                {
                    proof {
                        assert(all[i as int] == units@[i as int].deep_view());
                    }
                    // we don't verify parenthood as the units may come from the future
                    match units[i].copy().check(&self.keychain) {
                        Ok(unit) => injection.push_step(Step::AddUnit(unit, true)),
                        Err(_) => {
                            proof {
                                assert(handler::correctly_signed::<H, D, MK>(
                                    self.keys(),
                                    all[i as int],
                                ));
                                assert(false);
                            }
                        },
                    }
                    proof {
                        assert(committed_added(middle, all.take(i + 1)).steps =~= committed_added(
                            middle,
                            all.take(i as int),
                        ).steps.push(
                            StepView::<HashOf<H>, D::V, SignatureOf<MK>>::AddUnit(
                                all[i as int],
                                true,
                            ),
                        ));
                    }
                }
                proof {
                    assert(all.take(n as int) =~= all);
                }
                true
            },
            _ => false,
        }
    }

    /// Deals with one item; says whether it was in order.
    fn handle_item(
        &self,
        item: BackupItem<H, D, MK::Signature, MK::PartialMultisignature>,
        injection: &mut Injection<H, D, MK>,
    ) -> (ok: bool)
        requires
            old(injection).set_up_for(self.keys(), self.session()),
            own_alert_is_own::<H, D, MK>(self.keys(), item.deep_view()),
        ensures
            final(injection).set_up_for(self.keys(), self.session()),
            item_done::<H, D, MK>(
                self.keys(),
                self.session(),
                old(injection).state(),
                item.deep_view(),
                final(injection).state(),
                ok,
            ),
    {
        let ghost before = injection.state();
        let ghost view = item.deep_view();
        let ghost mut signature: SignatureOf<MK> = arbitrary();
        let ok: bool = match item {
            BackupItem::Unit(unit) => {
                if !self.verify_unit_parents(&unit, &injection.dag) {
                    false
                } else {
                    match unit.check(&self.keychain) {
                        Ok(signed_unit) => {
                            // here are only units which were saved as units; there must be no fork
                            // among them, as all of the forking units are assumed to be stored as
                            // legit units of saved alerts
                            let coord: UnitCoord = signed_unit.as_signable().coord();
                            if injection.dag.contains(&coord) {
                                false
                            } else {
                                injection.push_step(Step::AddUnit(signed_unit, false));
                                let _ = injection.dag.insert(coord);
                                true
                            }
                        },
                        Err(_) => false,
                    }
                }
            },
            BackupItem::AlertData(AlertData::OwnAlert(alert)) => {
                match alert.check(&self.keychain) {
                    Ok(alert) => {
                        let alert: Alert<H, D, MK::Signature> = alert.into_signable();
                        let hash: H::Hash = alert.hash();
                        let forker: NodeIndex = alert.forker();
                        let ghost contents = alert.deep_view();
                        let _ = injection.alerter_handler.on_own_alert(alert);
                        proof {
                            let h = alerts::alert_hash::<H, D, MK::Signature>(contents);
                            signature = injection.state().alerter.known_alerts[h].signature;
                        }
                        injection.push_step(Step::MarkForker(forker));
                        // the handling of units must not be notified, as it would create another
                        // alert about the forker
                        let _ = injection.fork_proofs.remove(&forker);
                        // we may want to start the multicast at the end, if we don't encounter
                        // the corresponding multisignature in the backup
                        let _ = injection.rmcs.insert(hash);
                        true
                    },
                    Err(_) => false,
                }
            },
            BackupItem::AlertData(AlertData::NetworkAlert(alert)) => {
                let forker: NodeIndex = alert.as_signable().forker();
                proof {
                    handler::lemma_same_network_alert::<H, D, MK>(
                        injection.alerter_handler.keys(),
                        self.keys(),
                        self.session(),
                        before.alerter,
                        alert.deep_view(),
                    );
                }
                match injection.alerter_handler.on_network_alert(alert) {
                    Some((Some(notification), hash)) => {
                        // the handling of units has to know the forker
                        injection.push_step(Step::MarkForker(forker));
                        // we may want to pass this on afterwards, so that an appropriate alert is
                        // created, but only if we can't find an alert of our own about this
                        // forker in the backup
                        injection.fork_proofs.insert(forker, notification);
                        // similarly, we may need to start the multicast of the hash
                        let _ = injection.rmcs.insert(hash);
                    },
                    _ => {},
                }
                true
            },
            BackupItem::AlertData(AlertData::MultisignedHash(multisigned)) => {
                let hash: H::Hash = multisigned.as_signable().copy();
                let _ = injection.rmc_handler.on_multisigned_hash(
                    multisigned.copy().into_unchecked(),
                );
                if self.handle_multisigned(multisigned, injection) {
                    // there is no need to multicast this hash as we already have the
                    // multisignature
                    let _ = injection.rmcs.remove(&hash);
                    true
                } else {
                    false
                }
            },
        };
        proof {
            let (after, accepted) = item_injected::<H, D, MK>(
                self.keys(),
                self.session(),
                before,
                view,
                signature,
            );
            assert(ok == accepted);
            assert(injection.state() =~= after);
            assert(signs_item::<H, D, MK>(self.keys(), view, signature));
            lemma_item_done::<H, D, MK>(
                self.keys(),
                self.session(),
                before,
                view,
                injection.state(),
                ok,
                signature,
            );
        }
        ok
    }

    /// Starts the multicast of a hash; says whether that was in order.
    fn start_rmc(&self, hash: H::Hash, injection: &mut Injection<H, D, MK>) -> (ok:
        bool)
        requires
            old(injection).set_up_for(self.keys(), self.session()),
        ensures
            final(injection).set_up_for(self.keys(), self.session()),
            exists|signature: SignatureOf<MK>|
                {
                    &&& signs_hash::<H, D, MK>(
                        self.keys(),
                        old(injection).state(),
                        hash.deep_view(),
                        signature,
                    )
                    &&& (final(injection).state(), ok) == #[trigger] multicast::<H, D, MK>(
                        self.keys(),
                        old(injection).state(),
                        hash.deep_view(),
                        signature,
                    )
                },
    {
        let ghost before = injection.state();
        let ghost h = hash.deep_view();
        let response: OnStartRmcResponse<H::Hash, MK::Signature, MK::PartialMultisignature> =
            injection.rmc_handler.on_start_rmc(hash);
        let ghost signature = choose|signature: SignatureOf<MK>| #[trigger]
            rmc_states::multicast_started::<H::Hash, MK>(
                injection.rmc_handler.keys(),
                before.rmc,
                injection.rmc_handler.states(),
                h,
                response.deep_view(),
                signature,
            );
        proof {
            rmc_states::lemma_same_multicast_started::<H::Hash, MK>(
                injection.rmc_handler.keys(),
                self.keys(),
                before.rmc,
                injection.rmc_handler.states(),
                h,
                response.deep_view(),
                signature,
            );
        }
        let ok: bool = match response {
            OnStartRmcResponse::SignedHash(signed) => {
                injection.push_task(RmcMessage::SignedHash(signed.into_unchecked()));
                true
            },
            OnStartRmcResponse::MultisignedHash(multisigned) => {
                injection.push_task(
                    RmcMessage::MultisignedHash(multisigned.copy().into_unchecked()),
                );
                self.handle_multisigned(multisigned, injection)
            },
            OnStartRmcResponse::Noop => true,
        };
        proof {
            let (after, accepted) = multicast::<H, D, MK>(self.keys(), before, h, signature);
            assert(ok == accepted);
            assert(injection.state() =~= after);
        }
        ok
    }

    /// Deals with the items up to the first that is not in order; says whether there was none.
    fn handle_items(
        &self,
        backup_data: &Vec<BackupItem<H, D, MK::Signature, MK::PartialMultisignature>>,
    ) -> (result: (Injection<H, D, MK>, bool))
        requires
            own_alerts_are_own::<H, D, MK>(self.keys(), backup_data.deep_view()),
        ensures
            result.0.set_up_for(self.keys(), self.session()),
            exists|own: Seq<SignatureOf<MK>>|
                {
                    &&& signs_items::<H, D, MK>(self.keys(), backup_data.deep_view(), own)
                    &&& (result.0.state(), result.1) == #[trigger] all_injected::<H, D, MK>(
                        self.keys(),
                        self.session(),
                        backup_data.deep_view(),
                        own,
                    )
                },
    {
        let ghost keychain = self.keys();
        let ghost session_id = self.session();
        let ghost items = backup_data.deep_view();
        let mut injection: Injection<H, D, MK> = Injection {
            alerter_handler: AlerterHandler::new(
                self.keychain.duplicate(),
                AlertConfig { session_id: self.session_id, n_members: self.keychain.node_count() },
            ),
            rmc_handler: RmcHandler::new(self.keychain.duplicate()),
            fork_proofs: VecMap::new(),
            rmcs: VecSet::new(),
            tasks: Vec::new(),
            dag: VecSet::new(),
            steps: Vec::new(),
        };
        let ghost mut own: Seq<SignatureOf<MK>> = seq![];
        let n: usize = backup_data.len();
        proof {
            assert(injection.state() =~= StateOf::<H, D, MK>::fresh());
            lemma_nothing_done::<H, D, MK>(keychain, session_id, items);
        }
        for i in 0..n
            invariant
                n == backup_data@.len(),
                items == backup_data.deep_view(),
                keychain == self.keys(),
                session_id == self.session(),
                own_alerts_are_own::<H, D, MK>(keychain, items),
                injection.set_up_for(keychain, session_id),
                items_done::<H, D, MK>(
                    keychain,
                    session_id,
                    items,
                    i as int,
                    own,
                    injection.state(),
                    true,
                ),
        {
            let ghost before = injection.state();
            let item: BackupItem<H, D, MK::Signature, MK::PartialMultisignature> = copy_item(
                &backup_data[i],
            );
            proof {
                assert(items[i as int] == item.deep_view());
            }
            let ok: bool = self.handle_item(item, &mut injection);
            proof {
                own = lemma_one_more_done::<H, D, MK>(
                    keychain,
                    session_id,
                    items,
                    i as int,
                    own,
                    before,
                    injection.state(),
                    ok,
                );
            }
            if !ok {
                proof {
                    lemma_rejected::<H, D, MK>(
                        keychain,
                        session_id,
                        items,
                        i + 1,
                        own,
                        injection.state(),
                    );
                }
                return (injection, false);
            }
        }
        proof {
            lemma_all_done::<H, D, MK>(keychain, session_id, items, own, injection.state());
        }
        (injection, true)
    }

    /// Starts the multicasts that are left; says whether all of them were in order.
    fn start_rmcs(
        &self,
        rmcs: &VecSet<H::Hash>,
        injection: &mut Injection<H, D, MK>,
    ) -> (ok: bool)
        requires
            old(injection).set_up_for(self.keys(), self.session()),
        ensures
            final(injection).set_up_for(self.keys(), self.session()),
            exists|started: Seq<SignatureOf<MK>>|
                {
                    &&& signs_hashes::<H, D, MK>(
                        self.keys(),
                        old(injection).state(),
                        rmcs.listing(),
                        started,
                    )
                    &&& (final(injection).state(), ok) == #[trigger] all_multicast::<H, D, MK>(
                        self.keys(),
                        old(injection).state(),
                        rmcs.listing(),
                        started,
                    )
                },
    {
        let ghost keychain = self.keys();
        let ghost hashes = rmcs.listing();
        let ghost start = injection.state();
        let ghost mut started: Seq<SignatureOf<MK>> = seq![];
        let m: usize = rmcs.len();
        proof {
            assert(hashes.take(0) =~= seq![]);
        }
        for i in 0..m
            invariant
                m == hashes.len(),
                hashes == rmcs.listing(),
                keychain == self.keys(),
                start == old(injection).state(),
                started.len() == i,
                signs_hashes::<H, D, MK>(keychain, start, hashes.take(i as int), started),
                injection.set_up_for(self.keys(), self.session()),
                (injection.state(), true) == all_multicast::<H, D, MK>(
                    keychain,
                    start,
                    hashes.take(i as int),
                    started,
                ),
        {
            let ghost before = injection.state();
            let hash: H::Hash = rmcs.item(i).copy();
            let ok: bool = self.start_rmc(hash, injection);
            proof {
                let signature = choose|signature: SignatureOf<MK>|
                    {
                        &&& signs_hash::<H, D, MK>(keychain, before, hashes[i as int], signature)
                        &&& (injection.state(), ok) == #[trigger] multicast::<H, D, MK>(
                            keychain,
                            before,
                            hashes[i as int],
                            signature,
                        )
                    };
                lemma_one_more_multicast::<H, D, MK>(
                    keychain,
                    start,
                    hashes,
                    started,
                    i as int,
                    signature,
                );
                started = started.push(signature);
            }
            if !ok {
                proof {
                    lemma_failed_multicast_stays::<H, D, MK>(
                        keychain,
                        start,
                        hashes,
                        started,
                        i + 1,
                    );
                }
                return false;
            }
        }
        proof {
            assert(hashes.take(m as int) =~= hashes);
        }
        true
    }

    /// Whether the backup can be gone through: no correctly signed alert that is said to be our own
    /// was sent by somebody else.
    pub fn can_restore(
        &self,
        backup_data: &Vec<BackupItem<H, D, MK::Signature, MK::PartialMultisignature>>,
    ) -> (result: bool)
        ensures
            result == own_alerts_are_own::<H, D, MK>(self.keys(), backup_data.deep_view()),
    {
        let ghost items = backup_data.deep_view();
        let n: usize = backup_data.len();
        for i in 0..n
            invariant
                n == backup_data@.len(),
                items == backup_data.deep_view(),
                forall|j: int|
                    0 <= j < i ==> own_alert_is_own::<H, D, MK>(
                        self.keys(),
                        #[trigger] items[j],
                    ),
        {
            proof {
                assert(items[i as int] == backup_data@[i as int].deep_view());
            }
            if let BackupItem::AlertData(AlertData::OwnAlert(alert)) = &backup_data[i] {
                if let Ok(alert) = alert.copy().check(&self.keychain) {
                    if alert.as_signable().sender() != self.keychain.index() {
                        proof {
                            assert(!own_alert_is_own::<H, D, MK>(self.keys(), items[i as int]));
                        }
                        return false;
                    }
                }
            }
        }
        true
    }

    /// Goes through the backup; gives the state that we start with, unless something in the backup
    /// is wrong. What the handling of units has to go through is appended to `steps`.
    pub fn get_initial_state(
        self,
        backup_data: Vec<BackupItem<H, D, MK::Signature, MK::PartialMultisignature>>,
        steps: &mut Vec<Step<H, D, MK::Signature>>,
    ) -> (result: Option<InitialState<H, D, MK>>)
        requires
            own_alerts_are_own::<H, D, MK>(self.keys(), backup_data.deep_view()),
        ensures
            result matches Some(state) ==> state.set_up_for(self.keys(), self.session()),
            exists|
                own: Seq<SignatureOf<MK>>,
                hashes: Seq<HashOf<H>>,
                started: Seq<SignatureOf<MK>>,
                forkers: Seq<NodeIndex>,
                taken: Seq<StepView<HashOf<H>, D::V, SignatureOf<MK>>>,
            |
                #[trigger] outcome::<H, D, MK>(
                    self.keys(),
                    self.session(),
                    backup_data.deep_view(),
                    own,
                    hashes,
                    started,
                    forkers,
                    taken,
                    result.deep_view(),
                ) && final(steps).deep_view() == old(steps).deep_view() + taken,
    {
        let ghost keychain = self.keys();
        let ghost session_id = self.session();
        let ghost items = backup_data.deep_view();
        let (mut injection, items_ok) = self.handle_items(&backup_data);
        let ghost injected = injection.state();
        let ghost own = choose|own: Seq<SignatureOf<MK>>|
            {
                &&& signs_items::<H, D, MK>(keychain, items, own)
                &&& (injected, items_ok) == #[trigger] all_injected::<H, D, MK>(
                    keychain,
                    session_id,
                    items,
                    own,
                )
            };
        if !items_ok {
            let ghost taken = injection.steps.deep_view();
            steps.append(&mut injection.steps);
            let result: Option<InitialState<H, D, MK>> = None;
            proof {
                assert(steps.deep_view() =~= old(steps).deep_view() + taken);
                assert(outcome::<H, D, MK>(
                    keychain,
                    session_id,
                    items,
                    own,
                    seq![],
                    seq![],
                    seq![],
                    taken,
                    result.deep_view(),
                ));
            }
            return result;
        }
        let mut rmcs: VecSet<H::Hash> = VecSet::new();
        std::mem::swap(&mut rmcs, &mut injection.rmcs);
        rmcs.check_listing();
        let ghost hashes = rmcs.listing();
        let ghost start = injection.state();
        let multicasts_ok: bool = self.start_rmcs(&rmcs, &mut injection);
        let ghost reached = injection.state();
        let ghost started = choose|started: Seq<SignatureOf<MK>>|
            {
                &&& signs_hashes::<H, D, MK>(keychain, start, hashes, started)
                &&& (reached, multicasts_ok) == #[trigger] all_multicast::<H, D, MK>(
                    keychain,
                    start,
                    hashes,
                    started,
                )
            };
        injection.fork_proofs.check_listing();
        let ghost taken = injection.steps.deep_view();
        let ghost forkers = forkers_listed(injection.fork_proofs.listing());
        proof {
            lemma_forkers_listed(injection.fork_proofs.listing());
            lemma_rmcs_aside::<H, D, MK>(keychain, start, injected, hashes, started);
        }
        let forking_notifications: Vec<ForkingNotification<H, D, MK::Signature>> = list_values(
            &injection.fork_proofs,
        );
        let Injection { alerter_handler, rmc_handler, tasks, steps: mut taken_steps, .. } =
            injection;
        steps.append(&mut taken_steps);
        let result: Option<InitialState<H, D, MK>> = if multicasts_ok {
            Some(
                InitialState {
                    alerter_handler,
                    rmc_handler,
                    forking_notifications,
                    tasks,
                    task_delay: Duration::from_millis(TASK_DELAY),
                },
            )
        } else {
            None
        };
        proof {
            assert(steps.deep_view() =~= old(steps).deep_view() + taken);
            assert(outcome::<H, D, MK>(
                keychain,
                session_id,
                items,
                own,
                hashes,
                started,
                forkers,
                taken,
                result.deep_view(),
            ));
        }
        result
    }
}

/// An item is dealt with, with some signature of our own if it is an alert of our own.
#[verifier::opaque]
spec fn item_done<H: Hasher, D: Data, MK: MultiKeychain>(
    keychain: MK,
    session_id: SessionId,
    before: StateOf<H, D, MK>,
    item: ItemOf<H, D, MK>,
    after: StateOf<H, D, MK>,
    ok: bool,
) -> bool {
    exists|signature: SignatureOf<MK>|
        {
            &&& signs_item::<H, D, MK>(keychain, item, signature)
            &&& (after, ok) == #[trigger] item_injected::<H, D, MK>(
                keychain,
                session_id,
                before,
                item,
                signature,
            )
        }
}

/// The first items are dealt with, with these signatures of our own.
#[verifier::opaque]
spec fn items_done<H: Hasher, D: Data, MK: MultiKeychain>(
    keychain: MK,
    session_id: SessionId,
    items: Seq<ItemOf<H, D, MK>>,
    i: int,
    own: Seq<SignatureOf<MK>>,
    state: StateOf<H, D, MK>,
    ok: bool,
) -> bool {
    &&& own.len() == i
    &&& signs_items::<H, D, MK>(keychain, items, own)
    &&& (state, ok) == all_injected::<H, D, MK>(keychain, session_id, items.take(i), own)
}

proof fn lemma_item_done<H: Hasher, D: Data, MK: MultiKeychain>(
    keychain: MK,
    session_id: SessionId,
    before: StateOf<H, D, MK>,
    item: ItemOf<H, D, MK>,
    after: StateOf<H, D, MK>,
    ok: bool,
    signature: SignatureOf<MK>,
)
    requires
        signs_item::<H, D, MK>(keychain, item, signature),
        (after, ok) == item_injected::<H, D, MK>(keychain, session_id, before, item, signature),
    ensures
        item_done::<H, D, MK>(keychain, session_id, before, item, after, ok),
{
    reveal(item_done);
}

proof fn lemma_nothing_done<H: Hasher, D: Data, MK: MultiKeychain>(
    keychain: MK,
    session_id: SessionId,
    items: Seq<ItemOf<H, D, MK>>,
)
    ensures
        items_done::<H, D, MK>(
            keychain,
            session_id,
            items,
            0,
            seq![],
            StateOf::<H, D, MK>::fresh(),
            true,
        ),
{
    reveal(items_done);
    assert(items.take(0) =~= seq![]);
}

/// One more item is dealt with, and there is one more signature.
proof fn lemma_one_more_done<H: Hasher, D: Data, MK: MultiKeychain>(
    keychain: MK,
    session_id: SessionId,
    items: Seq<ItemOf<H, D, MK>>,
    i: int,
    own: Seq<SignatureOf<MK>>,
    before: StateOf<H, D, MK>,
    after: StateOf<H, D, MK>,
    ok: bool,
) -> (more: Seq<SignatureOf<MK>>)
    requires
        0 <= i < items.len(),
        items_done::<H, D, MK>(keychain, session_id, items, i, own, before, true),
        item_done::<H, D, MK>(keychain, session_id, before, items[i], after, ok),
    ensures
        items_done::<H, D, MK>(keychain, session_id, items, i + 1, more, after, ok),
{
    reveal(items_done);
    reveal(item_done);
    let signature = choose|signature: SignatureOf<MK>|
        {
            &&& signs_item::<H, D, MK>(keychain, items[i], signature)
            &&& (after, ok) == #[trigger] item_injected::<H, D, MK>(
                keychain,
                session_id,
                before,
                items[i],
                signature,
            )
        };
    lemma_one_more_item::<H, D, MK>(keychain, session_id, items, own, i, signature);
    own.push(signature)
}

/// What comes of a backup with a rejected item is there once that item is reached.
proof fn lemma_rejected<H: Hasher, D: Data, MK: MultiKeychain>(
    keychain: MK,
    session_id: SessionId,
    items: Seq<ItemOf<H, D, MK>>,
    i: int,
    own: Seq<SignatureOf<MK>>,
    state: StateOf<H, D, MK>,
)
    requires
        0 <= i <= items.len(),
        items_done::<H, D, MK>(keychain, session_id, items, i, own, state, false),
    ensures
        signs_items::<H, D, MK>(keychain, items, own),
        (state, false) == all_injected::<H, D, MK>(keychain, session_id, items, own),
{
    reveal(items_done);
    lemma_rejected_stays::<H, D, MK>(keychain, session_id, items, own, i);
}

proof fn lemma_all_done<H: Hasher, D: Data, MK: MultiKeychain>(
    keychain: MK,
    session_id: SessionId,
    items: Seq<ItemOf<H, D, MK>>,
    own: Seq<SignatureOf<MK>>,
    state: StateOf<H, D, MK>,
)
    requires
        items_done::<H, D, MK>(
            keychain,
            session_id,
            items,
            items.len() as int,
            own,
            state,
            true,
        ),
    ensures
        signs_items::<H, D, MK>(keychain, items, own),
        (state, true) == all_injected::<H, D, MK>(keychain, session_id, items, own),
{
    reveal(items_done);
    assert(items.take(items.len() as int) =~= items);
}

/// An alert that is said to be our own and is correctly signed was really sent by us.
pub open spec fn own_alert_is_own<H: Hasher, D: Data, MK: MultiKeychain>(
    keychain: MK,
    item: ItemOf<H, D, MK>,
) -> bool {
    item matches BackupItemView::AlertData(AlertDataView::OwnAlert(alert)) ==> (
    signed::signed_by_owner::<Alert<H, D, MK::Signature>, MK>(keychain, alert)
        ==> alert.signable.sender == keychain.node())
}

/// The alerts that are said to be our own and are correctly signed were all really sent by us.
pub open spec fn own_alerts_are_own<H: Hasher, D: Data, MK: MultiKeychain>(
    keychain: MK,
    items: Seq<ItemOf<H, D, MK>>,
) -> bool {
    forall|i: int|
        0 <= i < items.len() ==> own_alert_is_own::<H, D, MK>(keychain, #[trigger] items[i])
}

fn copy_item<H: Hasher, D: Data, S: Data, P: Data>(item: &BackupItem<H, D, S, P>) -> (other:
    BackupItem<H, D, S, P>)
    ensures
        other.deep_view() == item.deep_view(),
{
    match item {
        BackupItem::Unit(unit) => BackupItem::Unit(unit.copy()),
        BackupItem::AlertData(AlertData::OwnAlert(alert)) => BackupItem::AlertData(
            AlertData::OwnAlert(alert.copy()),
        ),
        BackupItem::AlertData(AlertData::NetworkAlert(alert)) => BackupItem::AlertData(
            AlertData::NetworkAlert(alert.copy()),
        ),
        BackupItem::AlertData(AlertData::MultisignedHash(multisigned)) => BackupItem::AlertData(
            AlertData::MultisignedHash(multisigned.copy()),
        ),
    }
}

/// The forkers in the order in which a map lists them.
spec fn forkers_listed<V>(listing: Seq<(NodeIndex, V)>) -> Seq<NodeIndex> {
    listing.map_values(|entry: (NodeIndex, V)| entry.0)
}

proof fn lemma_forkers_listed<V>(listing: Seq<(NodeIndex, V)>)
    requires
        collections::distinct_keys(listing),
    ensures
        forkers_listed(listing).no_duplicates(),
        forkers_listed(listing).to_set() == collections::as_map(listing).dom(),
{
    let forkers = forkers_listed(listing);
    collections::lemma_as_map(listing);
    assert forall|i: int, j: int|
        0 <= i < forkers.len() && 0 <= j < forkers.len() && i != j implies forkers[i]
        != forkers[j] by {
        assert(listing[i].0 != listing[j].0);
    }
    assert forall|forker: NodeIndex|
        forkers.to_set().contains(forker) <==> collections::as_map(listing).dom().contains(
            forker,
        ) by {
        if forkers.contains(forker) {
            let i = choose|i: int| 0 <= i < forkers.len() && forkers[i] == forker;
            assert(listing[i].0 == forker);
        }
        if collections::as_map(listing).contains_key(forker) {
            let i = choose|i: int| 0 <= i < listing.len() && (#[trigger] listing[i]).0 == forker;
            assert(forkers[i] == forker);
        }
    }
    assert(forkers.to_set() =~= collections::as_map(listing).dom());
}

/// The notifications in the order in which the map lists them.
fn list_values<H: Hasher, D: Data, S: Data>(
    map: &VecMap<NodeIndex, ForkingNotification<H, D, S>>,
) -> (values: Vec<ForkingNotification<H, D, S>>)
    ensures
        values.deep_view() == forkers_listed(map.listing()).map_values(
            |forker: NodeIndex| map.deep_view()[forker],
        ),
{
    let ghost listing = map.listing();
    let ghost expected = forkers_listed(listing).map_values(
        |forker: NodeIndex| map.deep_view()[forker],
    );
    map.check_listing();
    proof {
        collections::lemma_as_map(listing);
    }
    let mut values: Vec<ForkingNotification<H, D, S>> = Vec::new();
    let n: usize = map.len();
    proof {
        assert(values.deep_view() =~= expected.take(0));
    }
    for i in 0..n
        invariant
            n == listing.len(),
            listing == map.listing(),
            expected == forkers_listed(listing).map_values(
                |forker: NodeIndex| map.deep_view()[forker],
            ),
            forall|j: int|
                0 <= j < listing.len() ==> map.deep_view()[(#[trigger] listing[j]).0]
                    == listing[j].1,
            values.deep_view() == expected.take(i as int),
    {
        let ghost before = values.deep_view();
        let (_, notification) = map.entry(i);
        let copied: ForkingNotification<H, D, S> = match notification {
            ForkingNotification::Forker(fork) => ForkingNotification::Forker(fork.copy()),
            ForkingNotification::Units(units) => ForkingNotification::Units(units.copy()),
        };
        proof {
            assert(expected[i as int] == listing[i as int].1);
            assert(copied.deep_view() == expected[i as int]);
        }
        values.push(copied);
        proof {
            assert(values.deep_view() =~= before.push(expected[i as int]));
            assert(values.deep_view() =~= expected.take(i + 1));
        }
    }
    proof {
        assert(expected.take(n as int) =~= expected);
    }
    values
}

/// Only as many signatures are looked at as there are items.
proof fn lemma_signatures_extend<H: Hasher, D: Data, MK: MultiKeychain>(
    keychain: MK,
    session_id: SessionId,
    items: Seq<ItemOf<H, D, MK>>,
    signatures: Seq<SignatureOf<MK>>,
    extended: Seq<SignatureOf<MK>>,
)
    requires
        items.len() <= signatures.len() <= extended.len(),
        forall|i: int| 0 <= i < signatures.len() ==> extended[i] == #[trigger] signatures[i],
    ensures
        all_injected::<H, D, MK>(keychain, session_id, items, extended) == all_injected::<
            H,
            D,
            MK,
        >(keychain, session_id, items, signatures),
    decreases items.len(),
{
    if items.len() > 0 {
        lemma_signatures_extend::<H, D, MK>(
            keychain,
            session_id,
            items.drop_last(),
            signatures,
            extended,
        );
        assert(signatures[items.len() - 1] == extended[items.len() - 1]);
    }
}

/// One more item is dealt with.
proof fn lemma_one_more_item<H: Hasher, D: Data, MK: MultiKeychain>(
    keychain: MK,
    session_id: SessionId,
    items: Seq<ItemOf<H, D, MK>>,
    own: Seq<SignatureOf<MK>>,
    i: int,
    signature: SignatureOf<MK>,
)
    requires
        0 <= i < items.len(),
        own.len() == i,
        all_injected::<H, D, MK>(keychain, session_id, items.take(i), own).1,
    ensures
        all_injected::<H, D, MK>(keychain, session_id, items.take(i + 1), own.push(signature))
            == item_injected::<H, D, MK>(
            keychain,
            session_id,
            all_injected::<H, D, MK>(keychain, session_id, items.take(i), own).0,
            items[i],
            signature,
        ),
{
    lemma_signatures_extend::<H, D, MK>(
        keychain,
        session_id,
        items.take(i),
        own,
        own.push(signature),
    );
    assert(items.take(i + 1).drop_last() =~= items.take(i));
}

/// Once an item is rejected, the rest makes no difference.
proof fn lemma_rejected_stays<H: Hasher, D: Data, MK: MultiKeychain>(
    keychain: MK,
    session_id: SessionId,
    items: Seq<ItemOf<H, D, MK>>,
    signatures: Seq<SignatureOf<MK>>,
    k: int,
)
    requires
        0 <= k <= items.len(),
        !all_injected::<H, D, MK>(keychain, session_id, items.take(k), signatures).1,
    ensures
        all_injected::<H, D, MK>(keychain, session_id, items, signatures) == all_injected::<
            H,
            D,
            MK,
        >(keychain, session_id, items.take(k), signatures),
    decreases items.len() - k,
{
    if k < items.len() {
        assert(items.take(k + 1).drop_last() =~= items.take(k));
        lemma_rejected_stays::<H, D, MK>(keychain, session_id, items, signatures, k + 1);
    } else {
        assert(items.take(k) =~= items);
    }
}

/// Only as many signatures are looked at as there are hashes.
proof fn lemma_multicasts_extend<H: Hasher, D: Data, MK: MultiKeychain>(
    keychain: MK,
    state: StateOf<H, D, MK>,
    hashes: Seq<HashOf<H>>,
    signatures: Seq<SignatureOf<MK>>,
    extended: Seq<SignatureOf<MK>>,
)
    requires
        hashes.len() <= signatures.len() <= extended.len(),
        forall|i: int| 0 <= i < signatures.len() ==> extended[i] == #[trigger] signatures[i],
    ensures
        all_multicast::<H, D, MK>(keychain, state, hashes, extended) == all_multicast::<
            H,
            D,
            MK,
        >(keychain, state, hashes, signatures),
        signs_hashes::<H, D, MK>(keychain, state, hashes, extended) == signs_hashes::<H, D, MK>(
            keychain,
            state,
            hashes,
            signatures,
        ),
    decreases hashes.len(),
{
    if hashes.len() > 0 {
        lemma_multicasts_extend::<H, D, MK>(
            keychain,
            state,
            hashes.drop_last(),
            signatures,
            extended,
        );
        assert(signatures[hashes.len() - 1] == extended[hashes.len() - 1]);
    }
}

/// One more multicast is started.
proof fn lemma_one_more_multicast<H: Hasher, D: Data, MK: MultiKeychain>(
    keychain: MK,
    state: StateOf<H, D, MK>,
    hashes: Seq<HashOf<H>>,
    started: Seq<SignatureOf<MK>>,
    i: int,
    signature: SignatureOf<MK>,
)
    requires
        0 <= i < hashes.len(),
        started.len() == i,
        all_multicast::<H, D, MK>(keychain, state, hashes.take(i), started).1,
    ensures
        all_multicast::<H, D, MK>(keychain, state, hashes.take(i + 1), started.push(signature))
            == multicast::<H, D, MK>(
            keychain,
            all_multicast::<H, D, MK>(keychain, state, hashes.take(i), started).0,
            hashes[i],
            signature,
        ),
        signs_hashes::<H, D, MK>(keychain, state, hashes.take(i), started) && signs_hash::<
            H,
            D,
            MK,
        >(
            keychain,
            all_multicast::<H, D, MK>(keychain, state, hashes.take(i), started).0,
            hashes[i],
            signature,
        ) ==> signs_hashes::<H, D, MK>(
            keychain,
            state,
            hashes.take(i + 1),
            started.push(signature),
        ),
{
    lemma_multicasts_extend::<H, D, MK>(
        keychain,
        state,
        hashes.take(i),
        started,
        started.push(signature),
    );
    assert(hashes.take(i + 1).drop_last() =~= hashes.take(i));
}

/// Once a multicast is not in order, the rest makes no difference.
proof fn lemma_failed_multicast_stays<H: Hasher, D: Data, MK: MultiKeychain>(
    keychain: MK,
    state: StateOf<H, D, MK>,
    hashes: Seq<HashOf<H>>,
    signatures: Seq<SignatureOf<MK>>,
    k: int,
)
    requires
        0 <= k <= hashes.len(),
        !all_multicast::<H, D, MK>(keychain, state, hashes.take(k), signatures).1,
    ensures
        all_multicast::<H, D, MK>(keychain, state, hashes, signatures) == all_multicast::<
            H,
            D,
            MK,
        >(keychain, state, hashes.take(k), signatures),
        signs_hashes::<H, D, MK>(keychain, state, hashes.take(k), signatures) ==> signs_hashes::<
            H,
            D,
            MK,
        >(keychain, state, hashes, signatures),
    decreases hashes.len() - k,
{
    if k < hashes.len() {
        assert(hashes.take(k + 1).drop_last() =~= hashes.take(k));
        lemma_failed_multicast_stays::<H, D, MK>(keychain, state, hashes, signatures, k + 1);
    } else {
        assert(hashes.take(k) =~= hashes);
    }
}

/// Which hashes are left makes no difference to the multicasts themselves.
proof fn lemma_rmcs_aside<H: Hasher, D: Data, MK: MultiKeychain>(
    keychain: MK,
    one: StateOf<H, D, MK>,
    other: StateOf<H, D, MK>,
    hashes: Seq<HashOf<H>>,
    signatures: Seq<SignatureOf<MK>>,
)
    requires
        one == (InjectionView { rmcs: one.rmcs, ..other }),
    ensures
        ({
            let first = all_multicast::<H, D, MK>(keychain, one, hashes, signatures);
            let second = all_multicast::<H, D, MK>(keychain, other, hashes, signatures);
            &&& first.1 == second.1
            &&& first.0 == (InjectionView { rmcs: first.0.rmcs, ..second.0 })
            &&& signs_hashes::<H, D, MK>(keychain, one, hashes, signatures) == signs_hashes::<
                H,
                D,
                MK,
            >(keychain, other, hashes, signatures)
        }),
    decreases hashes.len(),
{
    if hashes.len() > 0 {
        lemma_rmcs_aside::<H, D, MK>(keychain, one, other, hashes.drop_last(), signatures);
    }
}

} // verus!
