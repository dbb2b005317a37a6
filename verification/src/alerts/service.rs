//! What is to be done when messages about alerts come in, when alerts are raised and when they
//! have been saved.
use crate::alerts;
use crate::alerts::handler;
use crate::alerts::handler::{Handler, HandlerView};
use crate::alerts::{
    Alert, AlertMessage, AlertMessageView, AlertView, AlerterResponse, AlerterResponseView,
    ForkingNotification, ForkingNotificationView, Recipient,
};
use crate::crypto::{HashOf, Hasher, Keychain, MultiKeychain, PartialOf, Signable, SignatureOf};
use crate::data::Data;
use crate::nodes::{NodeIndex, SessionId};
use crate::rmc::{Message as RmcMessage, MessageView as RmcMessageView};
use crate::signed::{Multisigned, SignedView, UncheckedSigned};
use vstd::prelude::*;

verus! {

/// What has to be saved before it is acted upon.
pub enum SavedItem<H: Hasher, D: Data, S: Data, P: Data> {
    OwnAlert(Alert<H, D, S>),
    NetworkAlert(UncheckedSigned<Alert<H, D, S>, S>, Recipient),
    MultiSignature(Multisigned<H::Hash, P>),
}

/// The model of what has to be saved.
pub enum SavedItemView<V, D, S, P> {
    OwnAlert(AlertView<V, D, S>),
    NetworkAlert(SignedView<AlertView<V, D, S>, S>, Recipient),
    MultiSignature(SignedView<V, P>),
}

impl<H: Hasher, D: Data, S: Data, P: Data> DeepView for SavedItem<H, D, S, P> {
    type V = SavedItemView<HashOf<H>, D::V, S::V, P::V>;

    open spec fn deep_view(&self) -> SavedItemView<HashOf<H>, D::V, S::V, P::V> {
        match self {
            SavedItem::OwnAlert(alert) => SavedItemView::OwnAlert(alert.deep_view()),
            SavedItem::NetworkAlert(alert, recipient) => SavedItemView::NetworkAlert(
                alert.deep_view(),
                *recipient,
            ),
            SavedItem::MultiSignature(multisigned) => SavedItemView::MultiSignature(
                multisigned.deep_view(),
            ),
        }
    }
}

/// What the surroundings have to do.
pub enum Action<H: Hasher, D: Data, S: Data, P: Data> {
    /// Send a message to somebody.
    Send(AlertMessage<H, D, S, P>, Recipient),
    /// Hand a message to the reliable multicast.
    ToRmc(RmcMessage<H::Hash, S, P>),
    /// Start the reliable multicast of a hash.
    StartRmc(H::Hash),
    /// Notify the handling of units.
    Notify(ForkingNotification<H, D, S>),
    /// Save an item, and come back with it.
    Save(SavedItem<H, D, S, P>),
}

/// The model of what the surroundings have to do.
pub enum ActionView<V, D, S, P> {
    Send(AlertMessageView<V, D, S, P>, Recipient),
    ToRmc(RmcMessageView<V, S, P>),
    StartRmc(V),
    Notify(ForkingNotificationView<V, D, S>),
    Save(SavedItemView<V, D, S, P>),
}

impl<H: Hasher, D: Data, S: Data, P: Data> DeepView for Action<H, D, S, P> {
    type V = ActionView<HashOf<H>, D::V, S::V, P::V>;

    open spec fn deep_view(&self) -> ActionView<HashOf<H>, D::V, S::V, P::V> {
        match self {
            Action::Send(message, recipient) => ActionView::Send(message.deep_view(), *recipient),
            Action::ToRmc(message) => ActionView::ToRmc(message.deep_view()),
            Action::StartRmc(hash) => ActionView::StartRmc(hash.deep_view()),
            Action::Notify(notification) => ActionView::Notify(notification.deep_view()),
            Action::Save(item) => ActionView::Save(item.deep_view()),
        }
    }
}

/// What to do about the response of the handler to a message: alerts that somebody asked for are
/// saved first, a new alert starts its multicast and perhaps a notification.
pub open spec fn response_actions<V, D, S, P>(
    own: NodeIndex,
    response: Option<AlerterResponseView<V, D, S, P>>,
) -> Seq<ActionView<V, D, S, P>> {
    match response {
        Some(AlerterResponseView::ForkAlert(alert, recipient)) => seq![
            ActionView::Save(SavedItemView::NetworkAlert(alert, recipient)),
        ],
        Some(AlerterResponseView::AlertRequest(hash, peer)) => seq![
            ActionView::Send(AlertMessageView::AlertRequest(own, hash), peer),
        ],
        Some(AlerterResponseView::RmcMessage(message)) => seq![ActionView::ToRmc(message)],
        Some(AlerterResponseView::ForkResponse(Some(notification), hash)) => seq![
            ActionView::StartRmc(hash),
            ActionView::Notify(notification),
        ],
        Some(AlerterResponseView::ForkResponse(None, hash)) => seq![ActionView::StartRmc(hash)],
        None => seq![],
    }
}

/// An item is saved, and nothing else is done.
pub open spec fn saving<H: Hasher, D: Data, MK: MultiKeychain>(
    item: SavedItemView<HashOf<H>, D::V, SignatureOf<MK>, PartialOf<MK>>,
) -> Seq<ActionView<HashOf<H>, D::V, SignatureOf<MK>, PartialOf<MK>>> {
    seq![ActionView::Save(item)]
}

/// What comes of an item that has been saved: our own alert, signed, goes to everyone and is
/// multicast, an alert that somebody asked for is sent to them, and a complete multisignature
/// confirms its alert.
pub open spec fn saved_handled<H: Hasher, D: Data, MK: MultiKeychain>(
    keychain: MK,
    before: HandlerView<HashOf<H>, D::V, SignatureOf<MK>>,
    item: SavedItemView<HashOf<H>, D::V, SignatureOf<MK>, PartialOf<MK>>,
    after: HandlerView<HashOf<H>, D::V, SignatureOf<MK>>,
    actions: Seq<ActionView<HashOf<H>, D::V, SignatureOf<MK>, PartialOf<MK>>>,
) -> bool {
    match item {
        SavedItemView::OwnAlert(contents) => {
            let hash = alerts::alert_hash::<H, D, MK::Signature>(contents);
            &&& actions.len() == 2
            &&& actions[0] matches ActionView::Send(message, recipient)
            &&& recipient == Recipient::Everyone
            &&& message matches AlertMessageView::ForkAlert(signed)
            &&& signed.signable == contents
            &&& keychain.signs(
                Alert::<H, D, MK::Signature>::message_of(contents),
                signed.signature,
            )
            &&& actions[1] == ActionView::<
                HashOf<H>,
                D::V,
                SignatureOf<MK>,
                PartialOf<MK>,
            >::StartRmc(hash)
            &&& after == before.with_forker(contents.forker(), contents.proof_of_fork).with_rmc(
                contents.sender,
                contents.forker(),
                hash,
            ).with_alert(hash, signed)
        },
        SavedItemView::NetworkAlert(alert, recipient) => {
            &&& actions == seq![
                ActionView::<HashOf<H>, D::V, SignatureOf<MK>, PartialOf<MK>>::Send(
                    AlertMessageView::ForkAlert(alert),
                    recipient,
                ),
            ]
            &&& after == before
        },
        SavedItemView::MultiSignature(multisigned) => {
            let (confirmed, notification) = handler::confirmed::<H, D, MK>(
                keychain,
                before,
                multisigned.signable,
            );
            &&& after == confirmed
            &&& actions == (match notification {
                Some(notification) => seq![
                    ActionView::<HashOf<H>, D::V, SignatureOf<MK>, PartialOf<MK>>::Notify(
                        notification,
                    ),
                ],
                None => seq![],
            })
        },
    }
}

/// What happens to the handling of alerts. Where something may come in, `None` says that nothing
/// more will.
pub enum Event<H: Hasher, D: Data, S: Data, P: Data> {
    /// A message about alerts has come in over the network.
    Message(Option<AlertMessage<H, D, S, P>>),
    /// We raise an alert.
    Alert(Option<Alert<H, D, S>>),
    /// The reliable multicast has a message to send.
    RmcMessage(Option<RmcMessage<H::Hash, S, P>>),
    /// The reliable multicast has a complete multisignature.
    Multisigned(Multisigned<H::Hash, P>),
    /// An item has been saved.
    Saved(Option<SavedItem<H, D, S, P>>),
    /// What was decided has been done; says whether everybody concerned is still there.
    Done(bool),
    /// The signal to exit has come.
    Exit,
}

/// What has to be done next.
pub enum Decision<H: Hasher, D: Data, S: Data, P: Data> {
    /// Perform these actions, and come back.
    Act(Vec<Action<H, D, S, P>>),
    /// Wait for the next event.
    Wait,
    /// Stop, as something went wrong.
    Stop,
    /// Let it be known that we are ready to exit, and stop.
    Terminate,
}

/// Decides what to do about alerts.
pub struct Service<H: Hasher, D: Data, MK: MultiKeychain> {
    handler: Handler<H, D, MK>,
    exiting: bool,
}

impl<H: Hasher, D: Data, MK: MultiKeychain> Service<H, D, MK> {
    /// The state of the handler.
    pub closed spec fn state(&self) -> HandlerView<HashOf<H>, D::V, SignatureOf<MK>> {
        self.handler.deep_view()
    }

    /// The keys that signatures are checked with.
    pub closed spec fn keys(&self) -> MK {
        self.handler.keys()
    }

    /// The session whose forks matter.
    pub closed spec fn session(&self) -> SessionId {
        self.handler.session()
    }

    /// Whether we are to exit.
    pub closed spec fn exiting(&self) -> bool {
        self.exiting
    }

    /// The keys and the session do not change.
    pub open spec fn same_setup(&self, other: &Self) -> bool {
        &&& self.keys() == other.keys()
        &&& self.session() == other.session()
    }

    /// Nothing but the state of the handler changes.
    pub open spec fn same_course(&self, other: &Self) -> bool {
        &&& self.same_setup(other)
        &&& self.exiting() == other.exiting()
    }

    pub fn new(handler: Handler<H, D, MK>) -> (result: Self)
        ensures
            result.state() == handler.deep_view(),
            result.keys() == handler.keys(),
            result.session() == handler.session(),
            !result.exiting(),
    {
        Service { handler, exiting: false }
    }

    /// What to do about a message from the network.
    pub fn handle_message_from_network(
        &mut self,
        message: AlertMessage<H, D, MK::Signature, MK::PartialMultisignature>,
    ) -> (actions: Vec<Action<H, D, MK::Signature, MK::PartialMultisignature>>)
        ensures
            final(self).same_course(old(self)),
            final(self).state() == handler::message_handled::<H, D, MK>(
                old(self).keys(),
                old(self).session(),
                old(self).state(),
                message.deep_view(),
            ).0,
            actions.deep_view() == response_actions(
                old(self).keys().node(),
                handler::message_handled::<H, D, MK>(
                    old(self).keys(),
                    old(self).session(),
                    old(self).state(),
                    message.deep_view(),
                ).1,
            ),
    {
        let own: NodeIndex = self.handler.index();
        let mut actions: Vec<Action<H, D, MK::Signature, MK::PartialMultisignature>> = Vec::new();
        let response = self.handler.on_message(message);
        let ghost expected = response_actions(own, response.deep_view());
        match response {
            Some(AlerterResponse::ForkAlert(alert, recipient)) => {
                actions.push(Action::Save(SavedItem::NetworkAlert(alert, recipient)));
            },
            Some(AlerterResponse::AlertRequest(hash, peer)) => {
                actions.push(Action::Send(AlertMessage::AlertRequest(own, hash), peer));
            },
            Some(AlerterResponse::RmcMessage(message)) => {
                actions.push(Action::ToRmc(message));
            },
            Some(AlerterResponse::ForkResponse(maybe_notification, hash)) => {
                actions.push(Action::StartRmc(hash));
                if let Some(notification) = maybe_notification {
                    actions.push(Action::Notify(notification));
                }
            },
            None => {},
        }
        proof {
            assert(actions.deep_view() =~= expected);
        }
        actions
    }

    /// An own alert, or a complete multisignature, has to be saved first.
    pub fn save_first(item: SavedItem<H, D, MK::Signature, MK::PartialMultisignature>) -> (actions:
        Vec<Action<H, D, MK::Signature, MK::PartialMultisignature>>)
        ensures
            actions.deep_view() == saving::<H, D, MK>(item.deep_view()),
    {
        let ghost saved = item.deep_view();
        let mut actions: Vec<Action<H, D, MK::Signature, MK::PartialMultisignature>> = Vec::new();
        actions.push(Action::Save(item));
        proof {
            assert(actions.deep_view() =~= seq![ActionView::Save(saved)]);
        }
        actions
    }

    /// A message of the reliable multicast goes to everyone.
    pub fn rmc_message_to_network(
        &self,
        message: RmcMessage<H::Hash, MK::Signature, MK::PartialMultisignature>,
    ) -> (action: Action<H, D, MK::Signature, MK::PartialMultisignature>)
        ensures
            action.deep_view() == ActionView::<
                HashOf<H>,
                D::V,
                SignatureOf<MK>,
                PartialOf<MK>,
            >::Send(
                AlertMessageView::RmcMessage(self.keys().node(), message.deep_view()),
                Recipient::Everyone,
            ),
    {
        Action::Send(
            AlertMessage::RmcMessage(self.handler.index(), message),
            Recipient::Everyone,
        )
    }

    /// What to do with an item that has been saved.
    pub fn handle_response_from_backup(
        &mut self,
        response: SavedItem<H, D, MK::Signature, MK::PartialMultisignature>,
    ) -> (actions: Vec<Action<H, D, MK::Signature, MK::PartialMultisignature>>)
        requires
            response.deep_view() matches SavedItemView::OwnAlert(alert) ==> alert.sender == old(self).keys().node(),
        ensures
            final(self).same_course(old(self)),
            saved_handled::<H, D, MK>(
                old(self).keys(),
                old(self).state(),
                response.deep_view(),
                final(self).state(),
                actions.deep_view(),
            ),
    {
        let mut actions: Vec<Action<H, D, MK::Signature, MK::PartialMultisignature>> = Vec::new();
        match response {
            SavedItem::OwnAlert(alert) => {
                let (message, recipient, hash) = self.handler.on_own_alert(alert);
                actions.push(Action::Send(message, recipient));
                actions.push(Action::StartRmc(hash));
            },
            SavedItem::NetworkAlert(alert, recipient) => {
                let ghost sent = alert.deep_view();
                actions.push(Action::Send(AlertMessage::ForkAlert(alert), recipient));
                proof {
                    assert(actions.deep_view() =~= seq![
                        ActionView::Send(AlertMessageView::ForkAlert(sent), recipient),
                    ]);
                }
            },
            SavedItem::MultiSignature(multisigned) => {
                match self.handler.alert_confirmed(multisigned) {
                    Some(notification) => {
                        let ghost sent = notification.deep_view();
                        actions.push(Action::Notify(notification));
                        proof {
                            assert(actions.deep_view() =~= seq![ActionView::Notify(sent)]);
                        }
                    },
                    None => {
                        proof {
                            assert(actions.deep_view() =~= seq![]);
                        }
                    },
                }
            },
        }
        actions
    }

    /// What to do after an event.
    pub fn on_event(
        &mut self,
        event: Event<H, D, MK::Signature, MK::PartialMultisignature>,
    ) -> (decision: Decision<H, D, MK::Signature, MK::PartialMultisignature>)
        requires
            event matches Event::Saved(Some(item)) ==> (item.deep_view() matches
                SavedItemView::OwnAlert(alert) ==> alert.sender == old(self).keys().node()),
        ensures
            final(self).same_setup(old(self)),
            match event {
                Event::Message(Some(message)) => {
                    let (after, response) = handler::message_handled::<H, D, MK>(
                        old(self).keys(),
                        old(self).session(),
                        old(self).state(),
                        message.deep_view(),
                    );
                    &&& final(self).same_course(old(self))
                    &&& final(self).state() == after
                    &&& decision matches Decision::Act(actions)
                    &&& actions.deep_view() == response_actions(old(self).keys().node(), response)
                },
                Event::Alert(Some(alert)) => {
                    &&& *final(self) == *old(self)
                    &&& decision matches Decision::Act(actions)
                    &&& actions.deep_view() == saving::<H, D, MK>(
                        SavedItemView::OwnAlert(alert.deep_view()),
                    )
                },
                Event::RmcMessage(Some(message)) => {
                    &&& *final(self) == *old(self)
                    &&& decision matches Decision::Act(actions)
                    &&& actions.deep_view() == seq![
                        ActionView::<HashOf<H>, D::V, SignatureOf<MK>, PartialOf<MK>>::Send(
                            AlertMessageView::RmcMessage(
                                old(self).keys().node(),
                                message.deep_view(),
                            ),
                            Recipient::Everyone,
                        ),
                    ]
                },
                Event::Multisigned(multisigned) => {
                    &&& *final(self) == *old(self)
                    &&& decision matches Decision::Act(actions)
                    &&& actions.deep_view() == saving::<H, D, MK>(
                        SavedItemView::MultiSignature(multisigned.deep_view()),
                    )
                },
                Event::Saved(Some(item)) => {
                    &&& final(self).same_course(old(self))
                    &&& decision matches Decision::Act(actions)
                    &&& saved_handled::<H, D, MK>(
                        old(self).keys(),
                        old(self).state(),
                        item.deep_view(),
                        final(self).state(),
                        actions.deep_view(),
                    )
                },
                Event::Message(None)
                | Event::Alert(None)
                | Event::RmcMessage(None)
                | Event::Saved(None) => *final(self) == *old(self) && decision is Stop,
                Event::Done(ok) => {
                    &&& final(self).state() == old(self).state()
                    &&& final(self).exiting() == (old(self).exiting() || !ok)
                    &&& if final(self).exiting() {
                        decision is Terminate
                    } else {
                        decision is Wait
                    }
                },
                Event::Exit => {
                    &&& final(self).state() == old(self).state()
                    &&& final(self).exiting()
                    &&& decision is Terminate
                },
            },
    {
        match event {
            Event::Message(Some(message)) => Decision::Act(
                self.handle_message_from_network(message),
            ),
            Event::Alert(Some(alert)) => Decision::Act(
                Self::save_first(SavedItem::OwnAlert(alert)),
            ),
            Event::RmcMessage(Some(message)) => {
                let action: Action<H, D, MK::Signature, MK::PartialMultisignature> =
                    self.rmc_message_to_network(message);
                let ghost sent = action.deep_view();
                let mut actions: Vec<Action<H, D, MK::Signature, MK::PartialMultisignature>> =
                    Vec::new();
                actions.push(action);
                proof {
                    assert(actions.deep_view() =~= seq![sent]);
                }
                Decision::Act(actions)
            },
            Event::Multisigned(multisigned) => Decision::Act(
                Self::save_first(SavedItem::MultiSignature(multisigned)),
            ),
            Event::Saved(Some(item)) => Decision::Act(self.handle_response_from_backup(item)),
            Event::Message(None) => Decision::Stop,
            Event::Alert(None) => Decision::Stop,
            Event::RmcMessage(None) => Decision::Stop,
            Event::Saved(None) => Decision::Stop,
            Event::Done(ok) => {
                if !ok {
                    self.exiting = true;
                }
                if self.exiting {
                    Decision::Terminate
                } else {
                    Decision::Wait
                }
            },
            Event::Exit => {
                self.exiting = true;
                Decision::Terminate
            },
        }
    }
}

} // verus!
