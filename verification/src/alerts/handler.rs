//! Keeping track of forkers and alerts.
use crate::alerts;
use crate::alerts::{
    Alert, AlertConfig, AlertMessage, AlertMessageView, AlertView, AlerterResponse,
    AlerterResponseView, ForkProof, ForkProofView, ForkingNotification, ForkingNotificationView,
    Recipient, SignedUnitView,
};
use crate::collections::{VecMap, VecSet};
use crate::crypto::{
    same_keys, HashOf, Hasher, MultiKeychain, PartialOf, Signable, SignatureOf,
};
use crate::data::Data;
use crate::nodes::{NodeIndex, Round, SessionId};
use crate::signed;
use crate::signed::{Multisigned, Signed, SignedView, UncheckedSigned};
use crate::units::{FullUnit, SignedUnit, UncheckedSignedUnit};
use vstd::prelude::*;

verus! {

/// The model of a handler.
#[verifier::ext_equal]
#[verifier::reject_recursive_types(V)]
pub struct HandlerView<V, D, S> {
    pub known_forkers: Map<NodeIndex, ForkProofView<V, D, S>>,
    pub known_alerts: Map<V, SignedView<AlertView<V, D, S>, S>>,
    /// The alert by the first member about the second one whose hash is being multicast.
    pub known_rmcs: Map<(NodeIndex, NodeIndex), V>,
}

impl<V, D, S> HandlerView<V, D, S> {
    pub open spec fn fresh() -> Self {
        HandlerView {
            known_forkers: Map::empty(),
            known_alerts: Map::empty(),
            known_rmcs: Map::empty(),
        }
    }

    pub open spec fn with_forker(self, forker: NodeIndex, fork: ForkProofView<V, D, S>) -> Self {
        HandlerView { known_forkers: self.known_forkers.insert(forker, fork), ..self }
    }

    pub open spec fn with_alert(self, hash: V, alert: SignedView<AlertView<V, D, S>, S>) -> Self {
        HandlerView { known_alerts: self.known_alerts.insert(hash, alert), ..self }
    }

    pub open spec fn with_rmc(self, sender: NodeIndex, forker: NodeIndex, hash: V) -> Self {
        HandlerView { known_rmcs: self.known_rmcs.insert((sender, forker), hash), ..self }
    }
}

/// Whether a unit is signed by its creator.
pub open spec fn correctly_signed<H: Hasher, D: Data, MK: MultiKeychain>(
    keychain: MK,
    unit: SignedUnitView<HashOf<H>, D::V, SignatureOf<MK>>,
) -> bool {
    signed::signed_by_owner::<FullUnit<H, D>, MK>(keychain, unit)
}

/// Who is proved to fork: the creator of two different correctly signed units of the session that
/// have the same coordinates.
pub open spec fn forker_of<H: Hasher, D: Data, MK: MultiKeychain>(
    keychain: MK,
    session_id: SessionId,
    fork: ForkProofView<HashOf<H>, D::V, SignatureOf<MK>>,
) -> Option<NodeIndex> {
    let (first, second) = (fork.0.signable, fork.1.signable);
    if {
        &&& correctly_signed::<H, D, MK>(keychain, fork.0)
        &&& correctly_signed::<H, D, MK>(keychain, fork.1)
        &&& first.session_id == session_id
        &&& second.session_id == session_id
        &&& first != second
        &&& first.creator() == second.creator()
        &&& first.round() == second.round()
    } {
        Some(first.creator())
    } else {
        None
    }
}

/// Whether these are correctly signed units of the forker, all from different rounds.
pub open spec fn commitment_correct<H: Hasher, D: Data, MK: MultiKeychain>(
    keychain: MK,
    forker: NodeIndex,
    units: Seq<SignedUnitView<HashOf<H>, D::V, SignatureOf<MK>>>,
) -> bool {
    &&& forall|i: int|
        0 <= i < units.len() ==> correctly_signed::<H, D, MK>(keychain, #[trigger] units[i])
            && units[i].signable.creator() == forker
    &&& forall|i: int, j: int|
        0 <= i < j < units.len() ==> (#[trigger] units[i]).signable.round() != (
        #[trigger] units[j]).signable.round()
}

/// An alert arrives from the network: the state that follows and, if the alert is news, the
/// notification of a forker that was not known and the hash to be multicast.
pub open spec fn network_alert<H: Hasher, D: Data, MK: MultiKeychain>(
    keychain: MK,
    session_id: SessionId,
    state: HandlerView<HashOf<H>, D::V, SignatureOf<MK>>,
    alert: SignedView<AlertView<HashOf<H>, D::V, SignatureOf<MK>>, SignatureOf<MK>>,
) -> (
    HandlerView<HashOf<H>, D::V, SignatureOf<MK>>,
    Option<(Option<ForkingNotificationView<HashOf<H>, D::V, SignatureOf<MK>>>, HashOf<H>)>,
) {
    let contents = alert.signable;
    let hash = alerts::alert_hash::<H, D, MK::Signature>(contents);
    if !signed::signed_by_owner::<Alert<H, D, MK::Signature>, MK>(keychain, alert) {
        (state, None)
    } else {
        match forker_of::<H, D, MK>(keychain, session_id, contents.proof_of_fork) {
            None => (state, None),
            Some(forker) => if state.known_rmcs.contains_key((contents.sender, forker)) {
                (state.with_alert(hash, alert), None)
            } else if state.known_forkers.contains_key(forker) {
                (
                    state.with_rmc(contents.sender, forker, hash).with_alert(hash, alert),
                    Some((None, hash)),
                )
            } else {
                (
                    state.with_forker(forker, contents.proof_of_fork).with_rmc(
                        contents.sender,
                        forker,
                        hash,
                    ).with_alert(hash, alert),
                    Some((Some(ForkingNotificationView::Forker(contents.proof_of_fork)), hash)),
                )
            },
        }
    }
}

/// A message arrives: the state that follows and what is to be done.
pub open spec fn message_handled<H: Hasher, D: Data, MK: MultiKeychain>(
    keychain: MK,
    session_id: SessionId,
    state: HandlerView<HashOf<H>, D::V, SignatureOf<MK>>,
    message: AlertMessageView<HashOf<H>, D::V, SignatureOf<MK>, PartialOf<MK>>,
) -> (
    HandlerView<HashOf<H>, D::V, SignatureOf<MK>>,
    Option<AlerterResponseView<HashOf<H>, D::V, SignatureOf<MK>, PartialOf<MK>>>,
) {
    match message {
        AlertMessageView::ForkAlert(alert) => {
            let (after, result) = network_alert::<H, D, MK>(keychain, session_id, state, alert);
            (
                after,
                match result {
                    Some((notification, hash)) => Some(
                        AlerterResponseView::ForkResponse(notification, hash),
                    ),
                    None => None,
                },
            )
        },
        AlertMessageView::RmcMessage(sender, message) => {
            let hash = message.hash();
            if !state.known_alerts.contains_key(hash) {
                (state, Some(AlerterResponseView::AlertRequest(hash, Recipient::Node(sender))))
            } else {
                let alert = state.known_alerts[hash].signable;
                let id = (alert.sender, alert.forker());
                if (state.known_rmcs.contains_key(id) && state.known_rmcs[id] == hash)
                    || message is MultisignedHash {
                    (state, Some(AlerterResponseView::RmcMessage(message)))
                } else {
                    (state, None)
                }
            }
        },
        AlertMessageView::AlertRequest(node, hash) => if state.known_alerts.contains_key(hash) {
            (
                state,
                Some(
                    AlerterResponseView::ForkAlert(
                        state.known_alerts[hash],
                        Recipient::Node(node),
                    ),
                ),
            )
        } else {
            (state, None)
        },
    }
}

/// The multicast of an alert's hash completes: the state that follows and, if the alert is known
/// and commits to correct units, the units.
pub open spec fn confirmed<H: Hasher, D: Data, MK: MultiKeychain>(
    keychain: MK,
    state: HandlerView<HashOf<H>, D::V, SignatureOf<MK>>,
    hash: HashOf<H>,
) -> (
    HandlerView<HashOf<H>, D::V, SignatureOf<MK>>,
    Option<ForkingNotificationView<HashOf<H>, D::V, SignatureOf<MK>>>,
) {
    if !state.known_alerts.contains_key(hash) {
        (state, None)
    } else {
        let alert = state.known_alerts[hash].signable;
        let forker = alert.forker();
        (
            state.with_rmc(
                alert.sender,
                forker,
                alerts::alert_hash::<H, D, MK::Signature>(alert),
            ),
            if commitment_correct::<H, D, MK>(keychain, forker, alert.legit_units) {
                Some(ForkingNotificationView::Units(alert.legit_units))
            } else {
                None
            },
        )
    }
}

/// The same keys confirm the same alerts.
pub proof fn lemma_same_confirmed<H: Hasher, D: Data, MK: MultiKeychain>(
    one: MK,
    other: MK,
    state: HandlerView<HashOf<H>, D::V, SignatureOf<MK>>,
    hash: HashOf<H>,
)
    requires
        same_keys(one, other),
    ensures
        confirmed::<H, D, MK>(one, state, hash) == confirmed::<H, D, MK>(other, state, hash),
{
    let alert = state.known_alerts[hash].signable;
    let units = alert.legit_units;
    assert forall|i: int| 0 <= i < units.len() implies correctly_signed::<H, D, MK>(
        one,
        #[trigger] units[i],
    ) == correctly_signed::<H, D, MK>(other, units[i]) by {}
    assert(commitment_correct::<H, D, MK>(one, alert.forker(), units) == commitment_correct::<
        H,
        D,
        MK,
    >(other, alert.forker(), units));
}

/// The same keys let the same alerts in.
pub proof fn lemma_same_network_alert<H: Hasher, D: Data, MK: MultiKeychain>(
    one: MK,
    other: MK,
    session_id: SessionId,
    state: HandlerView<HashOf<H>, D::V, SignatureOf<MK>>,
    alert: SignedView<AlertView<HashOf<H>, D::V, SignatureOf<MK>>, SignatureOf<MK>>,
)
    requires
        same_keys(one, other),
    ensures
        network_alert::<H, D, MK>(one, session_id, state, alert) == network_alert::<H, D, MK>(
            other,
            session_id,
            state,
            alert,
        ),
{
    let fork = alert.signable.proof_of_fork;
    assert(forker_of::<H, D, MK>(one, session_id, fork) == forker_of::<H, D, MK>(
        other,
        session_id,
        fork,
    ));
}

/// The component responsible for fork alerts.
pub struct Handler<H: Hasher, D: Data, MK: MultiKeychain> {
    session_id: SessionId,
    keychain: MK,
    known_forkers: VecMap<NodeIndex, ForkProof<H, D, MK::Signature>>,
    known_alerts: VecMap<H::Hash, Signed<Alert<H, D, MK::Signature>, MK::Signature>>,
    known_rmcs: VecMap<(NodeIndex, NodeIndex), H::Hash>,
    /// Whether the handling of alerts is about to end.
    pub exiting: bool,
}

impl<H: Hasher, D: Data, MK: MultiKeychain> DeepView for Handler<H, D, MK> {
    type V = HandlerView<HashOf<H>, D::V, SignatureOf<MK>>;

    closed spec fn deep_view(&self) -> HandlerView<HashOf<H>, D::V, SignatureOf<MK>> {
        HandlerView {
            known_forkers: self.known_forkers.deep_view(),
            known_alerts: self.known_alerts.deep_view(),
            known_rmcs: self.known_rmcs.deep_view(),
        }
    }
}

impl<H: Hasher, D: Data, MK: MultiKeychain> Handler<H, D, MK> {
    /// The keys that signatures are checked with.
    pub closed spec fn keys(&self) -> MK {
        self.keychain
    }

    /// The session whose forks matter.
    pub closed spec fn session(&self) -> SessionId {
        self.session_id
    }

    /// Whether the handling of alerts is about to end.
    pub closed spec fn is_exiting(&self) -> bool {
        self.exiting
    }

    /// The keys, the session and whether the end is near do not change.
    pub open spec fn same_setup(&self, other: &Self) -> bool {
        &&& self.keys() == other.keys()
        &&& self.session() == other.session()
        &&& self.is_exiting() == other.is_exiting()
    }

    pub fn new(keychain: MK, config: AlertConfig) -> (result: Self)
        ensures
            result.deep_view() == HandlerView::<HashOf<H>, D::V, SignatureOf<MK>>::fresh(),
            result.keys() == keychain,
            !result.is_exiting(),
            result.session() == config.session_id,
    {
        Handler {
            session_id: config.session_id,
            keychain,
            known_forkers: VecMap::new(),
            known_alerts: VecMap::new(),
            known_rmcs: VecMap::new(),
            exiting: false,
        }
    }

    pub fn index(&self) -> (index: NodeIndex)
        ensures
            index == self.keys().node(),
    {
        self.keychain.index()
    }

    pub fn is_forker(&self, forker: NodeIndex) -> (result: bool)
        ensures
            result == self.deep_view().known_forkers.contains_key(forker),
    {
        self.known_forkers.contains_key(&forker)
    }

    pub fn on_new_forker_detected(
        &mut self,
        forker: NodeIndex,
        fork: ForkProof<H, D, MK::Signature>,
    )
        ensures
            final(self).deep_view() == old(self).deep_view().with_forker(forker, fork.deep_view()),
            final(self).same_setup(old(self)),
    {
        self.known_forkers.insert(forker, fork);
    }

    /// Correctness rules:
    /// 1) All units must be created by forker
    /// 2) All units must come from different rounds
    ///
    /// Note that these units will have to be validated before being used in the consensus.
    /// This is alright, if someone uses their alert to commit to incorrect units it's their own
    /// problem.
    pub fn correct_commitment(
        &self,
        forker: NodeIndex,
        units: &Vec<UncheckedSignedUnit<H, D, MK::Signature>>,
    ) -> (result: bool)
        ensures
            result == commitment_correct::<H, D, MK>(self.keys(), forker, units.deep_view()),
    {
        let mut rounds: VecSet<Round> = VecSet::new();
        let n: usize = units.len();
        let ghost all = units.deep_view();
        for i in 0..n
            invariant
                n == units@.len(),
                all == units.deep_view(),
                commitment_correct::<H, D, MK>(self.keychain, forker, all.take(i as int)),
                forall|round: Round|
                    rounds.deep_view().contains(round) <==> exists|j: int|
                        0 <= j < i && (#[trigger] all[j]).signable.round() == round,
        {
            proof {
                assert forall|j: int| 0 <= j < i implies #[trigger] all.take(i as int)[j]
                    == all[j] by {}
                assert(all[i as int] == units@[i as int].deep_view());
            }
            let u: SignedUnit<H, D, MK::Signature> = match units[i].copy().check(&self.keychain) {
                Ok(u) => u,
                Err(_) => {
                    return false;
                },
            };
            let full_unit: &FullUnit<H, D> = u.as_signable();
            if full_unit.creator() != forker {
                return false;
            }
            if rounds.contains(&full_unit.round()) {
                return false;
            }
            let _ = rounds.insert(full_unit.round());
            proof {
                let next = all.take(i + 1);
                assert forall|j: int| 0 <= j < next.len() implies correctly_signed::<H, D, MK>(
                    self.keychain,
                    #[trigger] next[j],
                ) && next[j].signable.creator() == forker by {
                    if j < i {
                        assert(all.take(i as int)[j] == next[j]);
                    }
                }
                assert forall|j: int, k: int| 0 <= j < k < next.len() implies (
                #[trigger] next[j]).signable.round() != (#[trigger] next[k]).signable.round() by {
                    assert(all.take(i as int)[j] == next[j]);
                    assert(next[j] == all[j]);
                    if k < i {
                        assert(all.take(i as int)[k] == next[k]);
                    }
                }
                assert forall|round: Round|
                    rounds.deep_view().contains(round) <==> exists|j: int|
                        0 <= j < i + 1 && (#[trigger] all[j]).signable.round() == round by {
                    if round == all[i as int].signable.round() {
                        assert(0 <= i < i + 1);
                    }
                    if exists|j: int| 0 <= j < i + 1 && (#[trigger] all[j]).signable.round()
                        == round {
                        let j = choose|j: int|
                            0 <= j < i + 1 && (#[trigger] all[j]).signable.round() == round;
                        if j < i {
                            assert(rounds.deep_view().contains(round));
                        }
                    }
                }
            }
        }
        proof {
            assert(all.take(n as int) =~= all);
        }
        true
    }

    /// Who, if anybody, is proved to fork.
    pub fn who_is_forking(&self, fork: &ForkProof<H, D, MK::Signature>) -> (result: Option<
        NodeIndex,
    >)
        ensures
            result == forker_of::<H, D, MK>(self.keys(), self.session(), fork.deep_view()),
    {
        let (u1, u2): (SignedUnit<H, D, MK::Signature>, SignedUnit<H, D, MK::Signature>) = {
            let u1 = fork.0.copy().check(&self.keychain);
            let u2 = fork.1.copy().check(&self.keychain);
            match (u1, u2) {
                (Ok(u1), Ok(u2)) => (u1, u2),
                _ => {
                    return None;
                },
            }
        };
        let full_unit1: &FullUnit<H, D> = u1.as_signable();
        let full_unit2: &FullUnit<H, D> = u2.as_signable();
        if full_unit1.session_id() != self.session_id || full_unit2.session_id()
            != self.session_id {
            return None;
        }
        if full_unit1.equals(full_unit2) {
            return None;
        }
        if full_unit1.creator() != full_unit2.creator() {
            return None;
        }
        if full_unit1.round() != full_unit2.round() {
            return None;
        }
        Some(full_unit1.creator())
    }

    /// `rmc_alert()` registers the RMC but does not actually send it; the returned hash must be passed to `start_rmc()` separately
    pub fn rmc_alert(
        &mut self,
        forker: NodeIndex,
        alert: Signed<Alert<H, D, MK::Signature>, MK::Signature>,
    ) -> (hash: H::Hash)
        ensures
            hash.deep_view() == alerts::alert_hash::<H, D, MK::Signature>(
                alert.deep_view().signable,
            ),
            final(self).deep_view() == old(self).deep_view().with_rmc(
                alert.deep_view().signable.sender,
                forker,
                hash.deep_view(),
            ).with_alert(hash.deep_view(), alert.deep_view()),
            final(self).same_setup(old(self)),
    {
        let hash: H::Hash = alert.as_signable().hash();
        let sender: NodeIndex = alert.as_signable().sender();
        self.known_rmcs.insert((sender, forker), hash.copy());
        self.known_alerts.insert(hash.copy(), alert);
        hash
    }

    /// `on_own_alert()` registers RMCs and messages but does not actually send them; make sure the returned values are forwarded to IO
    pub fn on_own_alert(&mut self, alert: Alert<H, D, MK::Signature>) -> (result: (
        AlertMessage<H, D, MK::Signature, MK::PartialMultisignature>,
        Recipient,
        H::Hash,
    ))
        requires
            alert.deep_view().sender == old(self).keys().node(),
        ensures
            final(self).same_setup(old(self)),
            ({
                let contents = alert.deep_view();
                let hash = alerts::alert_hash::<H, D, MK::Signature>(contents);
                &&& result.2.deep_view() == hash
                &&& result.1 == Recipient::Everyone
                &&& result.0.deep_view() matches AlertMessageView::ForkAlert(signed)
                &&& signed.signable == contents
                &&& old(self).keys().signs(
                    Alert::<H, D, MK::Signature>::message_of(contents),
                    signed.signature,
                )
                &&& final(self).deep_view() == old(self).deep_view().with_forker(
                    contents.forker(),
                    contents.proof_of_fork,
                ).with_rmc(contents.sender, contents.forker(), hash).with_alert(hash, signed)
            }),
    {
        let forker: NodeIndex = alert.forker();
        self.known_forkers.insert(forker, alert.proof_of_fork().copy());
        let alert: Signed<Alert<H, D, MK::Signature>, MK::Signature> = Signed::sign(
            alert,
            &self.keychain,
        );
        let hash: H::Hash = self.rmc_alert(forker, alert.copy());
        (AlertMessage::ForkAlert(alert.into_unchecked()), Recipient::Everyone, hash)
    }

    /// `on_network_alert()` may return a `ForkingNotification`, which should be propagated
    pub fn on_network_alert(
        &mut self,
        alert: UncheckedSigned<Alert<H, D, MK::Signature>, MK::Signature>,
    ) -> (result: Option<(Option<ForkingNotification<H, D, MK::Signature>>, H::Hash)>)
        ensures
            final(self).same_setup(old(self)),
            (final(self).deep_view(), result.deep_view()) == network_alert::<H, D, MK>(
                old(self).keys(),
                old(self).session(),
                old(self).deep_view(),
                alert.deep_view(),
            ),
    {
        let alert: Signed<Alert<H, D, MK::Signature>, MK::Signature> = match alert.check(
            &self.keychain,
        ) {
            Ok(alert) => alert,
            Err(_) => {
                return None;
            },
        };
        let sender: NodeIndex = alert.as_signable().sender();
        match self.who_is_forking(alert.as_signable().proof_of_fork()) {
            Some(forker) => {
                if self.known_rmcs.contains_key(&(sender, forker)) {
                    let hash: H::Hash = alert.as_signable().hash();
                    self.known_alerts.insert(hash, alert);
                    return None;
                }
                let propagate_alert: Option<ForkingNotification<H, D, MK::Signature>> =
                    if self.is_forker(forker) {
                    None
                } else {
                    // We learn about this forker for the first time, need to send our own alert
                    self.on_new_forker_detected(
                        forker,
                        alert.as_signable().proof_of_fork().copy(),
                    );
                    Some(
                        ForkingNotification::Forker(alert.as_signable().proof_of_fork().copy()),
                    )
                };
                let hash_for_rmc: H::Hash = self.rmc_alert(forker, alert);
                Some((propagate_alert, hash_for_rmc))
            },
            None => None,
        }
    }

    /// `on_message()` may return an `AlerterResponse` which should be propagated
    pub fn on_message(
        &mut self,
        message: AlertMessage<H, D, MK::Signature, MK::PartialMultisignature>,
    ) -> (result: Option<AlerterResponse<H, D, MK::Signature, MK::PartialMultisignature>>)
        ensures
            final(self).same_setup(old(self)),
            (final(self).deep_view(), result.deep_view()) == message_handled::<H, D, MK>(
                old(self).keys(),
                old(self).session(),
                old(self).deep_view(),
                message.deep_view(),
            ),
    {
        match message {
            AlertMessage::ForkAlert(alert) => match self.on_network_alert(alert) {
                Some((n, h)) => Some(AlerterResponse::ForkResponse(n, h)),
                None => None,
            },
            AlertMessage::RmcMessage(sender, message) => {
                let hash: H::Hash = message.hash().copy();
                match self.known_alerts.get(&hash) {
                    Some(alert) => {
                        let alert_id: (NodeIndex, NodeIndex) = (
                            alert.as_signable().sender(),
                            alert.as_signable().forker(),
                        );
                        let being_multicast: bool = match self.known_rmcs.get(&alert_id) {
                            Some(known) => known.equals(&hash),
                            None => false,
                        };
                        if being_multicast || message.is_complete() {
                            Some(AlerterResponse::RmcMessage(message))
                        } else {
                            None
                        }
                    },
                    None => Some(AlerterResponse::AlertRequest(hash, Recipient::Node(sender))),
                }
            },
            AlertMessage::AlertRequest(node, hash) => match self.known_alerts.get(&hash) {
                Some(alert) => Some(
                    AlerterResponse::ForkAlert(
                        alert.copy().into_unchecked(),
                        Recipient::Node(node),
                    ),
                ),
                None => None,
            },
        }
    }

    /// `alert_confirmed()` may return a `ForkingNotification`, which should be propagated
    pub fn alert_confirmed(
        &mut self,
        multisigned: Multisigned<H::Hash, MK::PartialMultisignature>,
    ) -> (result: Option<ForkingNotification<H, D, MK::Signature>>)
        ensures
            final(self).same_setup(old(self)),
            (final(self).deep_view(), result.deep_view()) == confirmed::<H, D, MK>(
                old(self).keys(),
                old(self).deep_view(),
                multisigned.deep_view().signable,
            ),
    {
        let (sender, forker, hash, legit_units): (
            NodeIndex,
            NodeIndex,
            H::Hash,
            Vec<UncheckedSignedUnit<H, D, MK::Signature>>,
        ) = match self.known_alerts.get(multisigned.as_signable()) {
            Some(alert) => {
                let alert = alert.as_signable();
                (alert.sender(), alert.forker(), alert.hash(), alert.legit_units().copy())
            },
            None => {
                return None;
            },
        };
        self.known_rmcs.insert((sender, forker), hash);
        if !self.correct_commitment(forker, &legit_units) {
            return None;
        }
        Some(ForkingNotification::Units(legit_units))
    }
}

} // verus!
