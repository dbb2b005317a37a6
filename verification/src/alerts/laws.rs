//! What can be relied on when alerts are handled.
use crate::alerts;
use crate::alerts::handler;
use crate::alerts::handler::HandlerView;
use crate::alerts::service;
use crate::alerts::service::{ActionView, SavedItemView};
use crate::alerts::{
    Alert, AlertMessageView, AlertView, AlerterResponseView, ForkProofView,
    ForkingNotificationView, Recipient, SignedUnitView,
};
use crate::crypto::{HashOf, Hasher, MultiKeychain, PartialOf, Signable, SignatureOf};
use crate::data;
use crate::data::{Data, Encoding};
use crate::nodes::{NodeIndex, SessionId};
use crate::rmc::MessageView as RmcMessageView;
use crate::signed::SignedView;
use crate::units::FullUnit;
use vstd::prelude::*;

verus! {

/// Nobody is blamed without two different units of theirs, correctly signed, for one round of the
/// session.
pub proof fn law_forker_really_forks<H: Hasher, D: Data, MK: MultiKeychain>(
    keychain: MK,
    session_id: SessionId,
    fork: ForkProofView<HashOf<H>, D::V, SignatureOf<MK>>,
    forker: NodeIndex,
)
    requires
        handler::forker_of::<H, D, MK>(keychain, session_id, fork) == Some(forker),
    ensures
        handler::correctly_signed::<H, D, MK>(keychain, fork.0),
        handler::correctly_signed::<H, D, MK>(keychain, fork.1),
        fork.0.signable != fork.1.signable,
        fork.0.signable.session_id == session_id,
        fork.1.signable.session_id == session_id,
        fork.0.signable.creator() == forker,
        fork.0.signable.coord() == fork.1.signable.coord(),
{
    let (a, b) = (fork.0.signable.coord(), fork.1.signable.coord());
    assert(a.round == b.round && a.creator == b.creator);
}

/// A member who signs at most one unit for each round of the session is never blamed.
pub proof fn law_honest_never_blamed<H: Hasher, D: Data, MK: MultiKeychain>(
    keychain: MK,
    session_id: SessionId,
    honest: NodeIndex,
    fork: ForkProofView<HashOf<H>, D::V, SignatureOf<MK>>,
)
    requires
        forall|
            a: SignedUnitView<HashOf<H>, D::V, SignatureOf<MK>>,
            b: SignedUnitView<HashOf<H>, D::V, SignatureOf<MK>>,
        |
            {
                &&& #[trigger] handler::correctly_signed::<H, D, MK>(keychain, a)
                &&& #[trigger] handler::correctly_signed::<H, D, MK>(keychain, b)
                &&& a.signable.session_id == session_id
                &&& b.signable.session_id == session_id
                &&& a.signable.creator() == honest
                &&& a.signable.coord() == b.signable.coord()
            } ==> a.signable == b.signable,
    ensures
        handler::forker_of::<H, D, MK>(keychain, session_id, fork) != Some(honest),
{
    if handler::forker_of::<H, D, MK>(keychain, session_id, fork) == Some(honest) {
        law_forker_really_forks::<H, D, MK>(keychain, session_id, fork, honest);
        assert(handler::correctly_signed::<H, D, MK>(keychain, fork.0));
        assert(handler::correctly_signed::<H, D, MK>(keychain, fork.1));
    }
}

/// The order of the units in a proof does not matter.
pub proof fn law_proof_symmetric<H: Hasher, D: Data, MK: MultiKeychain>(
    keychain: MK,
    session_id: SessionId,
    fork: ForkProofView<HashOf<H>, D::V, SignatureOf<MK>>,
)
    ensures
        handler::forker_of::<H, D, MK>(keychain, session_id, fork) == handler::forker_of::<
            H,
            D,
            MK,
        >(keychain, session_id, (fork.1, fork.0)),
{
}

/// All the known alerts are kept under their hashes.
pub open spec fn kept_under_hashes<H: Hasher, D: Data, S: Data>(
    state: HandlerView<HashOf<H>, D::V, S::V>,
) -> bool {
    forall|hash: HashOf<H>| #[trigger]
        state.known_alerts.contains_key(hash) ==> alerts::alert_hash::<H, D, S>(
            state.known_alerts[hash].signable,
        ) == hash
}

/// Messages keep the alerts under their hashes, and no alert is ever forgotten.
pub proof fn law_alerts_kept<H: Hasher, D: Data, MK: MultiKeychain>(
    keychain: MK,
    session_id: SessionId,
    state: HandlerView<HashOf<H>, D::V, SignatureOf<MK>>,
    message: AlertMessageView<HashOf<H>, D::V, SignatureOf<MK>, PartialOf<MK>>,
)
    requires
        kept_under_hashes::<H, D, MK::Signature>(state),
    ensures
        ({
            let after = handler::message_handled::<H, D, MK>(
                keychain,
                session_id,
                state,
                message,
            ).0;
            &&& kept_under_hashes::<H, D, MK::Signature>(after)
            &&& forall|hash: HashOf<H>|
                state.known_alerts.contains_key(hash) ==> #[trigger] after.known_alerts.contains_key(
                    hash,
                )
            &&& forall|forker: NodeIndex|
                state.known_forkers.contains_key(forker)
                    ==> #[trigger] after.known_forkers.contains_key(forker)
        }),
{
    let after = handler::message_handled::<H, D, MK>(keychain, session_id, state, message).0;
    assert forall|hash: HashOf<H>| #[trigger]
        after.known_alerts.contains_key(hash) implies alerts::alert_hash::<H, D, MK::Signature>(
        after.known_alerts[hash].signable,
    ) == hash by {
        if state.known_alerts.contains_key(hash) {
            assert(alerts::alert_hash::<H, D, MK::Signature>(state.known_alerts[hash].signable)
                == hash);
        }
    }
}

/// An alert that was accepted from the network is handed out to everybody who asks for it.
pub proof fn law_accepted_alert_available<H: Hasher, D: Data, MK: MultiKeychain>(
    keychain: MK,
    session_id: SessionId,
    state: HandlerView<HashOf<H>, D::V, SignatureOf<MK>>,
    alert: SignedView<AlertView<HashOf<H>, D::V, SignatureOf<MK>>, SignatureOf<MK>>,
    node: NodeIndex,
)
    requires
        handler::network_alert::<H, D, MK>(keychain, session_id, state, alert).1 is Some,
    ensures
        ({
            let after = handler::network_alert::<H, D, MK>(keychain, session_id, state, alert).0;
            let hash = alerts::alert_hash::<H, D, MK::Signature>(alert.signable);
            handler::message_handled::<H, D, MK>(
                keychain,
                session_id,
                after,
                AlertMessageView::AlertRequest(node, hash),
            ) == (
                after,
                Some(
                    AlerterResponseView::<
                        HashOf<H>,
                        D::V,
                        SignatureOf<MK>,
                        PartialOf<MK>,
                    >::ForkAlert(alert, Recipient::Node(node)),
                ),
            )
        }),
{
}

/// Once the alert by a member about a forker is being multicast, no other alert by that member
/// about that forker starts a multicast or a notification.
pub proof fn law_one_multicast_per_sender<H: Hasher, D: Data, MK: MultiKeychain>(
    keychain: MK,
    session_id: SessionId,
    state: HandlerView<HashOf<H>, D::V, SignatureOf<MK>>,
    first: SignedView<AlertView<HashOf<H>, D::V, SignatureOf<MK>>, SignatureOf<MK>>,
    second: SignedView<AlertView<HashOf<H>, D::V, SignatureOf<MK>>, SignatureOf<MK>>,
)
    requires
        handler::network_alert::<H, D, MK>(keychain, session_id, state, first).1 is Some,
        first.signable.sender == second.signable.sender,
        handler::forker_of::<H, D, MK>(keychain, session_id, first.signable.proof_of_fork)
            == handler::forker_of::<H, D, MK>(
            keychain,
            session_id,
            second.signable.proof_of_fork,
        ),
    ensures
        handler::network_alert::<H, D, MK>(
            keychain,
            session_id,
            handler::network_alert::<H, D, MK>(keychain, session_id, state, first).0,
            second,
        ).1 is None,
{
}

/// A forker is notified of once: later alerts about them notify of nothing.
pub proof fn law_forker_notified_once<H: Hasher, D: Data, MK: MultiKeychain>(
    keychain: MK,
    session_id: SessionId,
    state: HandlerView<HashOf<H>, D::V, SignatureOf<MK>>,
    alert: SignedView<AlertView<HashOf<H>, D::V, SignatureOf<MK>>, SignatureOf<MK>>,
    forker: NodeIndex,
)
    requires
        handler::forker_of::<H, D, MK>(keychain, session_id, alert.signable.proof_of_fork) == Some(
            forker,
        ),
        state.known_forkers.contains_key(forker),
    ensures
        handler::network_alert::<H, D, MK>(keychain, session_id, state, alert).1 matches Some((
            notification,
            _,
        )) ==> notification is None,
{
}

/// The units that a confirmed alert notifies of are correctly signed units of the forker, at most
/// one for each round.
pub proof fn law_confirmed_units_correct<H: Hasher, D: Data, MK: MultiKeychain>(
    keychain: MK,
    state: HandlerView<HashOf<H>, D::V, SignatureOf<MK>>,
    hash: HashOf<H>,
)
    ensures
        handler::confirmed::<H, D, MK>(keychain, state, hash).1 matches Some(notification)
            ==> notification matches alerts::ForkingNotificationView::Units(units)
            && handler::commitment_correct::<H, D, MK>(
            keychain,
            state.known_alerts[hash].signable.forker(),
            units,
        ),
{
}

/// The multicast of a known alert's hash completes: the units that the alert commits to are notified
/// of exactly if every one of them is signed by its creator, is by the forker, and no two at
/// different places are of the same round. Otherwise nothing is notified of.
pub proof fn law_confirmed_exactly_when_correct<H: Hasher, D: Data, MK: MultiKeychain>(
    keychain: MK,
    state: HandlerView<HashOf<H>, D::V, SignatureOf<MK>>,
    hash: HashOf<H>,
)
    requires
        state.known_alerts.contains_key(hash),
    ensures
        ({
            let alert = state.known_alerts[hash].signable;
            let units = alert.legit_units;
            let forker = alert.proof_of_fork.0.signable.pre_unit.coord.creator;
            let notification = handler::confirmed::<H, D, MK>(keychain, state, hash).1;
            &&& notification is Some <==> {
                &&& forall|i: int|
                    0 <= i < units.len() ==> {
                        let full_unit = (#[trigger] units[i]).signable;
                        &&& full_unit.pre_unit.coord.creator == forker
                        &&& keychain.verifies(
                            FullUnit::<H, D>::message_of(full_unit),
                            units[i].signature,
                            forker,
                        )
                    }
                &&& forall|i: int, j: int|
                    0 <= i < units.len() && 0 <= j < units.len() && i != j ==> (
                    #[trigger] units[i]).signable.pre_unit.coord.round != (
                    #[trigger] units[j]).signable.pre_unit.coord.round
            }
            &&& notification is Some ==> notification == Some(
                ForkingNotificationView::<HashOf<H>, D::V, SignatureOf<MK>>::Units(units),
            )
        }),
{
    let alert = state.known_alerts[hash].signable;
    let units = alert.legit_units;
    let forker = alert.proof_of_fork.0.signable.pre_unit.coord.creator;
    if handler::confirmed::<H, D, MK>(keychain, state, hash).1 is Some {
        assert forall|i: int| 0 <= i < units.len() implies {
            let full_unit = (#[trigger] units[i]).signable;
            &&& full_unit.pre_unit.coord.creator == forker
            &&& keychain.verifies(
                FullUnit::<H, D>::message_of(full_unit),
                units[i].signature,
                forker,
            )
        } by {
            assert(handler::correctly_signed::<H, D, MK>(keychain, units[i]));
        }
        assert forall|i: int, j: int|
            0 <= i < units.len() && 0 <= j < units.len() && i != j implies (
        #[trigger] units[i]).signable.pre_unit.coord.round != (
        #[trigger] units[j]).signable.pre_unit.coord.round by {
            if i < j {
                assert(units[i].signable.round() != units[j].signable.round());
            } else {
                assert(units[j].signable.round() != units[i].signable.round());
            }
        }
    }
}

/// The completed multicast of a known alert's hash is remembered as the one of the alert's sender
/// about its forker, whether or not the alert commits to correct units; the forkers and the alerts
/// stay as they are. Nothing happens at all if the alert is not known.
pub proof fn law_confirmation_remembered<H: Hasher, D: Data, MK: MultiKeychain>(
    keychain: MK,
    state: HandlerView<HashOf<H>, D::V, SignatureOf<MK>>,
    hash: HashOf<H>,
)
    requires
        kept_under_hashes::<H, D, MK::Signature>(state),
    ensures
        ({
            let (after, notification) = handler::confirmed::<H, D, MK>(keychain, state, hash);
            let alert = state.known_alerts[hash].signable;
            let id = (alert.sender, alert.proof_of_fork.0.signable.pre_unit.coord.creator);
            &&& after.known_alerts == state.known_alerts
            &&& after.known_forkers == state.known_forkers
            &&& state.known_alerts.contains_key(hash) ==> {
                &&& after.known_rmcs.contains_key(id)
                &&& after.known_rmcs[id] == hash
                &&& forall|other: (NodeIndex, NodeIndex)|
                    other != id ==> (#[trigger] after.known_rmcs.contains_key(other)
                        == state.known_rmcs.contains_key(other)) && (
                    state.known_rmcs.contains_key(other) ==> after.known_rmcs[other]
                        == state.known_rmcs[other])
            }
            &&& !state.known_alerts.contains_key(hash) ==> notification is None
                && after.known_rmcs == state.known_rmcs
        }),
{
}

/// Two different units of the session with the same coordinates, both signed by their creator, prove
/// that this creator forks; nothing else proves anything of anybody.
pub proof fn law_fork_proved<H: Hasher, D: Data, MK: MultiKeychain>(
    keychain: MK,
    session_id: SessionId,
    fork: ForkProofView<HashOf<H>, D::V, SignatureOf<MK>>,
)
    ensures
        ({
            let (first, second) = (fork.0.signable, fork.1.signable);
            let creator = first.pre_unit.coord.creator;
            let proved = handler::forker_of::<H, D, MK>(keychain, session_id, fork);
            &&& proved is Some <==> {
                &&& first.pre_unit.coord == second.pre_unit.coord
                &&& first.session_id == session_id
                &&& second.session_id == session_id
                &&& first.pre_unit != second.pre_unit || first.data != second.data
                &&& keychain.verifies(
                    FullUnit::<H, D>::message_of(first),
                    fork.0.signature,
                    creator,
                )
                &&& keychain.verifies(
                    FullUnit::<H, D>::message_of(second),
                    fork.1.signature,
                    creator,
                )
            }
            &&& proved is Some ==> proved == Some(creator)
        }),
{
    let (a, b) = (fork.0.signable.pre_unit.coord, fork.1.signable.pre_unit.coord);
    if a.round == b.round && a.creator == b.creator {
        assert(a == b);
    }
    let (first, second) = (fork.0.signable, fork.1.signable);
    if first.pre_unit == second.pre_unit && first.data == second.data && first.session_id
        == second.session_id {
        assert(first == second);
    }
}

/// An alert from the network that is signed by its sender and proves somebody to fork is known
/// afterwards under its hash. Unless an alert by that sender about that forker is being multicast,
/// its hash is to be multicast from then on, and the forker is notified of, with the proof, exactly
/// if they were not known. Any other alert changes nothing and leads to nothing.
pub proof fn law_proper_alert_taken_in<H: Hasher, D: Data, MK: MultiKeychain>(
    keychain: MK,
    session_id: SessionId,
    state: HandlerView<HashOf<H>, D::V, SignatureOf<MK>>,
    alert: SignedView<AlertView<HashOf<H>, D::V, SignatureOf<MK>>, SignatureOf<MK>>,
)
    ensures
        ({
            let (after, result) = handler::network_alert::<H, D, MK>(
                keychain,
                session_id,
                state,
                alert,
            );
            let hash = alerts::alert_hash::<H, D, MK::Signature>(alert.signable);
            let proof_of_fork = alert.signable.proof_of_fork;
            let sender = alert.signable.sender;
            let proper = keychain.verifies(
                Alert::<H, D, MK::Signature>::message_of(alert.signable),
                alert.signature,
                sender,
            ) && handler::forker_of::<H, D, MK>(keychain, session_id, proof_of_fork) is Some;
            let forker = proof_of_fork.0.signable.pre_unit.coord.creator;
            let id = (sender, forker);
            &&& !proper ==> after == state && result is None
            &&& proper ==> {
                &&& after.known_alerts == state.known_alerts.insert(hash, alert)
                &&& after.known_forkers.contains_key(forker) || state.known_rmcs.contains_key(id)
                &&& after.known_rmcs.contains_key(id)
                &&& state.known_rmcs.contains_key(id) ==> result is None && after.known_rmcs
                    == state.known_rmcs && after.known_forkers == state.known_forkers
                &&& !state.known_rmcs.contains_key(id) ==> {
                    &&& after.known_rmcs == state.known_rmcs.insert(id, hash)
                    &&& result matches Some((notification, multicast))
                    &&& multicast == hash
                    &&& state.known_forkers.contains_key(forker) ==> notification is None
                        && after.known_forkers == state.known_forkers
                    &&& !state.known_forkers.contains_key(forker) ==> notification == Some(
                        ForkingNotificationView::<HashOf<H>, D::V, SignatureOf<MK>>::Forker(
                            proof_of_fork,
                        ),
                    ) && after.known_forkers == state.known_forkers.insert(forker, proof_of_fork)
                }
            }
        }),
{
}

/// A message of the multicast is passed on if it is about the alert that is being multicast for its
/// sender and forker, or if it completes the multicast of a known alert; if the alert is not known,
/// whoever sent the message is asked for it. No message of a multicast and no request changes
/// anything.
pub proof fn law_multicast_messages<H: Hasher, D: Data, MK: MultiKeychain>(
    keychain: MK,
    session_id: SessionId,
    state: HandlerView<HashOf<H>, D::V, SignatureOf<MK>>,
    sender: NodeIndex,
    message: RmcMessageView<HashOf<H>, SignatureOf<MK>, PartialOf<MK>>,
)
    ensures
        ({
            let (after, response) = handler::message_handled::<H, D, MK>(
                keychain,
                session_id,
                state,
                AlertMessageView::RmcMessage(sender, message),
            );
            let hash = match message {
                RmcMessageView::SignedHash(signed) => signed.signable.signable,
                RmcMessageView::MultisignedHash(multisigned) => multisigned.signable,
            };
            let alert = state.known_alerts[hash].signable;
            let id = (alert.sender, alert.proof_of_fork.0.signable.pre_unit.coord.creator);
            &&& after == state
            &&& !state.known_alerts.contains_key(hash) ==> response == Some(
                AlerterResponseView::<
                    HashOf<H>,
                    D::V,
                    SignatureOf<MK>,
                    PartialOf<MK>,
                >::AlertRequest(hash, Recipient::Node(sender)),
            )
            &&& state.known_alerts.contains_key(hash) ==> {
                let passed = message is MultisignedHash || (state.known_rmcs.contains_key(id)
                    && state.known_rmcs[id] == hash);
                &&& passed ==> response == Some(
                    AlerterResponseView::<
                        HashOf<H>,
                        D::V,
                        SignatureOf<MK>,
                        PartialOf<MK>,
                    >::RmcMessage(message),
                )
                &&& !passed ==> response is None
            }
        }),
{
}

/// Whoever asks for an alert gets that very alert if it is known, and nothing otherwise.
pub proof fn law_asked_for_alert<H: Hasher, D: Data, MK: MultiKeychain>(
    keychain: MK,
    session_id: SessionId,
    state: HandlerView<HashOf<H>, D::V, SignatureOf<MK>>,
    node: NodeIndex,
    hash: HashOf<H>,
)
    ensures
        ({
            let (after, response) = handler::message_handled::<H, D, MK>(
                keychain,
                session_id,
                state,
                AlertMessageView::AlertRequest(node, hash),
            );
            &&& after == state
            &&& response is Some <==> state.known_alerts.contains_key(hash)
            &&& response is Some ==> response == Some(
                AlerterResponseView::<
                    HashOf<H>,
                    D::V,
                    SignatureOf<MK>,
                    PartialOf<MK>,
                >::ForkAlert(state.known_alerts[hash], Recipient::Node(node)),
            )
        }),
{
}

/// What is done about a message that has come in: whoever asks for a known alert gets it once it has
/// been saved; a message of the multicast of an unknown alert makes us ask its sender for the alert;
/// a proper alert that is news starts the multicast of its hash, and its forker is notified of if
/// they were not known.
pub proof fn law_messages_acted_upon<H: Hasher, D: Data, MK: MultiKeychain>(
    keychain: MK,
    session_id: SessionId,
    state: HandlerView<HashOf<H>, D::V, SignatureOf<MK>>,
    message: AlertMessageView<HashOf<H>, D::V, SignatureOf<MK>, PartialOf<MK>>,
)
    ensures
        ({
            let own = keychain.node();
            let response = handler::message_handled::<H, D, MK>(
                keychain,
                session_id,
                state,
                message,
            ).1;
            let actions = service::response_actions(own, response);
            match message {
                AlertMessageView::AlertRequest(node, hash) => {
                    &&& state.known_alerts.contains_key(hash) ==> actions == seq![
                        ActionView::<HashOf<H>, D::V, SignatureOf<MK>, PartialOf<MK>>::Save(
                            SavedItemView::NetworkAlert(
                                state.known_alerts[hash],
                                Recipient::Node(node),
                            ),
                        ),
                    ]
                    &&& !state.known_alerts.contains_key(hash) ==> actions.len() == 0
                },
                AlertMessageView::RmcMessage(sender, inner) => {
                    let hash = match inner {
                        RmcMessageView::SignedHash(signed) => signed.signable.signable,
                        RmcMessageView::MultisignedHash(multisigned) => multisigned.signable,
                    };
                    &&& !state.known_alerts.contains_key(hash) ==> actions == seq![
                        ActionView::<HashOf<H>, D::V, SignatureOf<MK>, PartialOf<MK>>::Send(
                            AlertMessageView::AlertRequest(own, hash),
                            Recipient::Node(sender),
                        ),
                    ]
                    &&& state.known_alerts.contains_key(hash) && inner is MultisignedHash
                        ==> actions == seq![
                        ActionView::<HashOf<H>, D::V, SignatureOf<MK>, PartialOf<MK>>::ToRmc(inner),
                    ]
                    &&& forall|k: int|
                        0 <= k < actions.len() && state.known_alerts.contains_key(hash)
                            ==> #[trigger] actions[k] == ActionView::<
                            HashOf<H>,
                            D::V,
                            SignatureOf<MK>,
                            PartialOf<MK>,
                        >::ToRmc(inner)
                },
                AlertMessageView::ForkAlert(alert) => {
                    let proof_of_fork = alert.signable.proof_of_fork;
                    let hash = alerts::alert_hash::<H, D, MK::Signature>(alert.signable);
                    let proper = keychain.verifies(
                        Alert::<H, D, MK::Signature>::message_of(alert.signable),
                        alert.signature,
                        alert.signable.sender,
                    ) && handler::forker_of::<H, D, MK>(keychain, session_id, proof_of_fork) is Some;
                    let forker = proof_of_fork.0.signable.pre_unit.coord.creator;
                    let news = proper && !state.known_rmcs.contains_key(
                        (alert.signable.sender, forker),
                    );
                    &&& actions.contains(
                        ActionView::<HashOf<H>, D::V, SignatureOf<MK>, PartialOf<MK>>::StartRmc(
                            hash,
                        ),
                    ) <==> news
                    &&& actions.contains(
                        ActionView::<HashOf<H>, D::V, SignatureOf<MK>, PartialOf<MK>>::Notify(
                            ForkingNotificationView::Forker(proof_of_fork),
                        ),
                    ) <==> news && !state.known_forkers.contains_key(forker)
                    &&& !news ==> actions.len() == 0
                },
            }
        }),
{
    let own = keychain.node();
    let response = handler::message_handled::<H, D, MK>(keychain, session_id, state, message).1;
    let actions = service::response_actions(own, response);
    if let AlertMessageView::ForkAlert(_) = message {
        if let Some(AlerterResponseView::ForkResponse(notification, hash)) = response {
            assert(actions[0] == ActionView::<
                HashOf<H>,
                D::V,
                SignatureOf<MK>,
                PartialOf<MK>,
            >::StartRmc(hash));
            if let Some(notified) = notification {
                assert(actions[1] == ActionView::<
                    HashOf<H>,
                    D::V,
                    SignatureOf<MK>,
                    PartialOf<MK>,
                >::Notify(notified));
            }
        }
    }
}

/// Our own alert, once it has been saved, goes to everyone with our signature, and its hash is
/// multicast. From then on its forker is known, it is the alert that is multicast for us about that
/// forker, and whoever asks for it by its hash gets it.
pub proof fn law_own_alert_spread<H: Hasher, D: Data, MK: MultiKeychain>(
    keychain: MK,
    session_id: SessionId,
    before: HandlerView<HashOf<H>, D::V, SignatureOf<MK>>,
    alert: AlertView<HashOf<H>, D::V, SignatureOf<MK>>,
    after: HandlerView<HashOf<H>, D::V, SignatureOf<MK>>,
    actions: Seq<ActionView<HashOf<H>, D::V, SignatureOf<MK>, PartialOf<MK>>>,
    node: NodeIndex,
)
    requires
        service::saved_handled::<H, D, MK>(
            keychain,
            before,
            SavedItemView::OwnAlert(alert),
            after,
            actions,
        ),
    ensures
        ({
            let hash = alerts::alert_hash::<H, D, MK::Signature>(alert);
            let forker = alert.proof_of_fork.0.signable.pre_unit.coord.creator;
            let id = (alert.sender, forker);
            let signed = after.known_alerts[hash];
            &&& signed.signable == alert
            &&& keychain.signs(Alert::<H, D, MK::Signature>::message_of(alert), signed.signature)
            &&& actions == seq![
                ActionView::<HashOf<H>, D::V, SignatureOf<MK>, PartialOf<MK>>::Send(
                    AlertMessageView::ForkAlert(signed),
                    Recipient::Everyone,
                ),
                ActionView::<HashOf<H>, D::V, SignatureOf<MK>, PartialOf<MK>>::StartRmc(hash),
            ]
            &&& after.known_forkers == before.known_forkers.insert(forker, alert.proof_of_fork)
            &&& after.known_rmcs == before.known_rmcs.insert(id, hash)
            &&& after.known_alerts == before.known_alerts.insert(hash, signed)
            &&& handler::message_handled::<H, D, MK>(
                keychain,
                session_id,
                after,
                AlertMessageView::AlertRequest(node, hash),
            ).1 == Some(
                AlerterResponseView::<
                    HashOf<H>,
                    D::V,
                    SignatureOf<MK>,
                    PartialOf<MK>,
                >::ForkAlert(signed, Recipient::Node(node)),
            )
        }),
{
    let hash = alerts::alert_hash::<H, D, MK::Signature>(alert);
    let signed = after.known_alerts[hash];
    assert(actions =~= seq![
        ActionView::<HashOf<H>, D::V, SignatureOf<MK>, PartialOf<MK>>::Send(
            AlertMessageView::ForkAlert(signed),
            Recipient::Everyone,
        ),
        ActionView::<HashOf<H>, D::V, SignatureOf<MK>, PartialOf<MK>>::StartRmc(hash),
    ]);
}

/// An alert that somebody asked for is sent to them once it has been saved, and nothing else happens.
/// A multisignature, once it has been saved, notifies of the units of its alert if the alert is known
/// and they are correct, and of nothing otherwise.
pub proof fn law_saved_then_done<H: Hasher, D: Data, MK: MultiKeychain>(
    keychain: MK,
    before: HandlerView<HashOf<H>, D::V, SignatureOf<MK>>,
    item: SavedItemView<HashOf<H>, D::V, SignatureOf<MK>, PartialOf<MK>>,
    after: HandlerView<HashOf<H>, D::V, SignatureOf<MK>>,
    actions: Seq<ActionView<HashOf<H>, D::V, SignatureOf<MK>, PartialOf<MK>>>,
)
    requires
        service::saved_handled::<H, D, MK>(keychain, before, item, after, actions),
    ensures
        item matches SavedItemView::NetworkAlert(alert, recipient) ==> after == before && actions
            == seq![
            ActionView::<HashOf<H>, D::V, SignatureOf<MK>, PartialOf<MK>>::Send(
                AlertMessageView::ForkAlert(alert),
                recipient,
            ),
        ],
        item matches SavedItemView::MultiSignature(multisigned) ==> {
            let hash = multisigned.signable;
            let units = before.known_alerts[hash].signable.legit_units;
            let correct = before.known_alerts.contains_key(hash) && handler::confirmed::<H, D, MK>(
                keychain,
                before,
                hash,
            ).1 is Some;
            &&& correct ==> actions == seq![
                ActionView::<HashOf<H>, D::V, SignatureOf<MK>, PartialOf<MK>>::Notify(
                    ForkingNotificationView::Units(units),
                ),
            ]
            &&& !correct ==> actions.len() == 0
            &&& after == handler::confirmed::<H, D, MK>(keychain, before, hash).0
        },
{
}

/// Unless the encodings of two different alerts collide, they have different hashes.
pub proof fn law_alert_hash_binds<H: Hasher, D: Data, S: Data>(
    one: AlertView<HashOf<H>, D::V, S::V>,
    other: AlertView<HashOf<H>, D::V, S::V>,
)
    requires
        H::hashed(Alert::<H, D, S>::encoded(one)) == H::hashed(Alert::<H, D, S>::encoded(other))
            ==> Alert::<H, D, S>::encoded(one) == Alert::<H, D, S>::encoded(other),
        Alert::<H, D, S>::valid(one),
        Alert::<H, D, S>::valid(other),
    ensures
        alerts::alert_hash::<H, D, S>(one) == alerts::alert_hash::<H, D, S>(other) <==> one == other,
{
    data::law_encoding_injective::<Alert<H, D, S>>(one, other);
}

} // verus!
