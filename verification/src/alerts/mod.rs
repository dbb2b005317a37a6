//! Alerts: telling everybody about members that create several units for one round.
use crate::codec_error::CodecError;
use crate::crypto::{HashOf, Hasher, Index, Signable};
use crate::data::{
    behind, lemma_both_encoded, no_encoding, part_failure, skip_part, Data, Encoding,
};
use crate::nodes::{NodeCount, NodeIndex, SessionId};
use crate::rmc::{Message as RmcMessage, MessageView as RmcMessageView};
use crate::signed::{SignedView, UncheckedSigned};
use crate::units::{FullUnitView, UncheckedSignedUnit};
use vstd::prelude::*;
use vstd::string::StringExecFns;

pub mod handler;
pub mod laws;
pub mod service;

verus! {

/// Whom a message is for.
#[derive(Clone, Copy, Debug, PartialEq, Eq, Structural)]
pub enum Recipient {
    Everyone,
    Node(NodeIndex),
}

/// What the handling of alerts depends on.
#[derive(Clone, Copy, Debug, PartialEq, Eq, Structural)]
pub struct AlertConfig {
    pub n_members: NodeCount,
    pub session_id: SessionId,
}

/// Two different units of one creator and round.
pub type ForkProof<H, D, S> = (UncheckedSignedUnit<H, D, S>, UncheckedSignedUnit<H, D, S>);

/// The model of a signed unit.
pub type SignedUnitView<V, D, S> = SignedView<FullUnitView<V, D>, S>;

/// The model of a fork proof.
pub type ForkProofView<V, D, S> = (SignedUnitView<V, D, S>, SignedUnitView<V, D, S>);

/// The model of an alert.
#[verifier::ext_equal]
pub struct AlertView<V, D, S> {
    pub sender: NodeIndex,
    pub proof_of_fork: ForkProofView<V, D, S>,
    pub legit_units: Seq<SignedUnitView<V, D, S>>,
}

impl<V, D, S> AlertView<V, D, S> {
    /// The creator of the first unit in the proof.
    pub open spec fn forker(self) -> NodeIndex {
        self.proof_of_fork.0.signable.creator()
    }
}

/// The hash of an alert: that of its encoding.
pub open spec fn alert_hash<H: Hasher, D: Data, S: Data>(
    v: AlertView<HashOf<H>, D::V, S::V>,
) -> HashOf<H> {
    H::hashed(Alert::<H, D, S>::encoded(v))
}

/// A proof that somebody forks, and a commitment to one line of their units.
pub struct Alert<H: Hasher, D: Data, S: Data> {
    sender: NodeIndex,
    proof_of_fork: ForkProof<H, D, S>,
    legit_units: Vec<UncheckedSignedUnit<H, D, S>>,
    hash: H::Hash,
}

impl<H: Hasher, D: Data, S: Data> DeepView for Alert<H, D, S> {
    type V = AlertView<HashOf<H>, D::V, S::V>;

    closed spec fn deep_view(&self) -> AlertView<HashOf<H>, D::V, S::V> {
        AlertView {
            sender: self.sender,
            proof_of_fork: self.proof_of_fork.deep_view(),
            legit_units: self.legit_units.deep_view(),
        }
    }
}

impl<H: Hasher, D: Data, S: Data> Encoding for Alert<H, D, S> {
    open spec fn valid(v: AlertView<HashOf<H>, D::V, S::V>) -> bool {
        <(NodeIndex, (ForkProof<H, D, S>, Vec<UncheckedSignedUnit<H, D, S>>))>::valid(
            (v.sender, (v.proof_of_fork, v.legit_units)),
        )
    }

    open spec fn encoded(v: AlertView<HashOf<H>, D::V, S::V>) -> Seq<u8> {
        <(NodeIndex, (ForkProof<H, D, S>, Vec<UncheckedSignedUnit<H, D, S>>))>::encoded(
            (v.sender, (v.proof_of_fork, v.legit_units)),
        )
    }

    open spec fn failure(bytes: Seq<u8>) -> Seq<Seq<char>> {
        if no_encoding::<NodeIndex>(bytes) {
            part_failure::<NodeIndex>(
                "Could not decode `Alert::sender`"@,
                bytes,
            )
        } else {
            let behind_sender = behind::<NodeIndex>(bytes);
            if no_encoding::<ForkProof<H, D, S>>(behind_sender) {
                part_failure::<ForkProof<H, D, S>>(
                    "Could not decode `Alert::proof`"@,
                    behind_sender,
                )
            } else {
                let behind_proof_of_fork = behind::<ForkProof<H, D, S>>(behind_sender);
                part_failure::<Vec<UncheckedSignedUnit<H, D, S>>>(
                    "Could not decode `Alert::legit_units`"@,
                    behind_proof_of_fork,
                )
            }
        }
    }

    open spec fn in_bulk() -> bool {
        false
    }

    open spec fn shown(v: AlertView<HashOf<H>, D::V, S::V>) -> Seq<char> {
        "Alert { sender: "@ + NodeIndex::shown(v.sender)
            + ", proof: "@ + <ForkProof<H, D, S>>::shown(v.proof_of_fork)
            + ", legit_units: "@ + <Vec<UncheckedSignedUnit<H, D, S>>>::shown(v.legit_units)
            + ", hash: RwLock { data: Some("@ + H::Hash::shown(H::hashed(Self::encoded(v))) + ") }"@ + " }"@
    }
}

impl<H: Hasher, D: Data, S: Data> Data for Alert<H, D, S> {
    proof fn lemma_valid(&self) {
        self.sender.lemma_valid();
        self.proof_of_fork.lemma_valid();
        self.legit_units.lemma_valid();
    }

    proof fn lemma_prefix_free(
        v: AlertView<HashOf<H>, D::V, S::V>,
        w: AlertView<HashOf<H>, D::V, S::V>,
        bytes: Seq<u8>,
    ) {
        <(NodeIndex, (ForkProof<H, D, S>, Vec<UncheckedSignedUnit<H, D, S>>))>::lemma_prefix_free(
            (v.sender, (v.proof_of_fork, v.legit_units)),
            (w.sender, (w.proof_of_fork, w.legit_units)),
            bytes,
        );
    }

    fn copy(&self) -> (other: Self) {
        proof {
            use_type_invariant(self);
        }
        Alert {
            sender: self.sender,
            proof_of_fork: self.proof_of_fork.copy(),
            legit_units: self.legit_units.copy(),
            hash: self.hash.copy(),
        }
    }

    fn equals(&self, other: &Self) -> (equal: bool) {
        self.sender.equals(&other.sender)
            && self.proof_of_fork.equals(&other.proof_of_fork)
            && self.legit_units.equals(&other.legit_units)
    }

    fn encode_to(&self, out: &mut Vec<u8>) {
        let ghost start = out@;
        self.sender.encode_to(out);
        self.proof_of_fork.encode_to(out);
        self.legit_units.encode_to(out);
        proof {
            assert(out@ =~= start + Self::encoded(self.deep_view()));
        }
    }

    fn decode(input: &Vec<u8>, pos: usize) -> (result: Option<(Self, usize)>) {
        match <(NodeIndex, (ForkProof<H, D, S>, Vec<UncheckedSignedUnit<H, D, S>>))>::decode(
            input,
            pos,
        ) {
            Some(((sender, (proof_of_fork, legit_units)), end)) => {
                Some((Alert::new(sender, proof_of_fork, legit_units), end))
            },
            None => {
                proof {
                    let rest = input@.skip(pos as int);
                    assert forall|v: AlertView<HashOf<H>, D::V, S::V>| Self::valid(v) implies !(
                    #[trigger] Self::encoded(v)).is_prefix_of(rest) by {
                        assert(!<(NodeIndex, (ForkProof<H, D, S>, Vec<UncheckedSignedUnit<H, D, S>>))>::encoded(
                            (v.sender, (v.proof_of_fork, v.legit_units)),
                        ).is_prefix_of(rest));
                    }
                }
                None
            },
        }
    }

    fn explain(input: &Vec<u8>, pos: usize) -> (error: CodecError) {
        let ghost rest = input@.skip(pos as int);
        let behind_sender: usize = match skip_part::<NodeIndex>(
            input,
            pos,
            "Could not decode `Alert::sender`",
        ) {
            Ok(end) => end,
            Err(error) => {
                return error;
            },
        };
        let behind_proof_of_fork: usize = match skip_part::<ForkProof<H, D, S>>(
            input,
            behind_sender,
            "Could not decode `Alert::proof`",
        ) {
            Ok(end) => end,
            Err(error) => {
                return error;
            },
        };
        match skip_part::<Vec<UncheckedSignedUnit<H, D, S>>>(
            input,
            behind_proof_of_fork,
            "Could not decode `Alert::legit_units`",
        ) {
            Err(error) => error,
            Ok(_) => {
                proof {
                    lemma_both_encoded::<
                        ForkProof<H, D, S>,
                        Vec<UncheckedSignedUnit<H, D, S>>,
                    >(input@.skip(behind_sender as int));
                    lemma_both_encoded::<
                        NodeIndex,
                        (ForkProof<H, D, S>, Vec<UncheckedSignedUnit<H, D, S>>),
                    >(rest);
                    let t = choose|t: <(NodeIndex, (ForkProof<H, D, S>, Vec<UncheckedSignedUnit<H, D, S>>)) as DeepView>::V|
                        <(NodeIndex, (ForkProof<H, D, S>, Vec<UncheckedSignedUnit<H, D, S>>))>::valid(t) && (#[trigger] <(NodeIndex, (ForkProof<H, D, S>, Vec<UncheckedSignedUnit<H, D, S>>))>::encoded(
                            t,
                        )).is_prefix_of(rest);
                    assert(Self::encoded(
                        AlertView { sender: t.0, proof_of_fork: t.1.0, legit_units: t.1.1 },
                    ).is_prefix_of(rest));
                }
                CodecError::new(String::new())
            },
        }
    }

    fn reads_in_bulk() -> (bulk: bool) {
        false
    }

    #[verifier::rlimit(20)]
    fn show(&self, out: &mut String) {
        proof {
            use_type_invariant(self);
        }
        let ghost start = out@;
        out.append("Alert { sender: ");
        self.sender.show(out);
        out.append(", proof: ");
        self.proof_of_fork.show(out);
        out.append(", legit_units: ");
        self.legit_units.show(out);
        out.append(", hash: RwLock { data: Some(");
        self.hash.show(out);
        out.append(") }");
        out.append(" }");
        proof {
            assert(out@ =~= start + Self::shown(self.deep_view()));
        }
    }
}

impl<H: Hasher, D: Data, S: Data> Alert<H, D, S> {
    #[verifier::type_invariant]
    spec fn well_formed(self) -> bool {
        self.hash.deep_view() == alert_hash::<H, D, S>(self.deep_view())
    }

    pub fn new(
        sender: NodeIndex,
        proof_of_fork: ForkProof<H, D, S>,
        legit_units: Vec<UncheckedSignedUnit<H, D, S>>,
    ) -> (result: Self)
        ensures
            result.deep_view() == (AlertView {
                sender,
                proof_of_fork: proof_of_fork.deep_view(),
                legit_units: legit_units.deep_view(),
            }),
    {
        let mut bytes: Vec<u8> = Vec::new();
        sender.encode_to(&mut bytes);
        proof_of_fork.encode_to(&mut bytes);
        legit_units.encode_to(&mut bytes);
        proof {
            let view = AlertView {
                sender,
                proof_of_fork: proof_of_fork.deep_view(),
                legit_units: legit_units.deep_view(),
            };
            assert(bytes@ =~= Self::encoded(view));
        }
        let hash: H::Hash = H::hash(&bytes);
        Alert { sender, proof_of_fork, legit_units, hash }
    }

    pub fn sender(&self) -> (sender: NodeIndex)
        ensures
            sender == self.deep_view().sender,
    {
        self.sender
    }

    pub fn proof_of_fork(&self) -> (result: &ForkProof<H, D, S>)
        ensures
            result.deep_view() == self.deep_view().proof_of_fork,
    {
        &self.proof_of_fork
    }

    pub fn legit_units(&self) -> (units: &Vec<UncheckedSignedUnit<H, D, S>>)
        ensures
            units.deep_view() == self.deep_view().legit_units,
    {
        &self.legit_units
    }

    /// The creator of the first unit in the proof; meant for alerts whose proof has been checked.
    pub fn forker(&self) -> (forker: NodeIndex)
        ensures
            forker == self.deep_view().forker(),
    {
        self.proof_of_fork.0.as_signable().creator()
    }

    pub fn hash(&self) -> (hash: H::Hash)
        ensures
            hash.deep_view() == alert_hash::<H, D, S>(self.deep_view()),
    {
        proof {
            use_type_invariant(self);
        }
        self.hash.copy()
    }
}

impl<H: Hasher, D: Data, S: Data> Signable for Alert<H, D, S> {
    open spec fn message_of(v: AlertView<HashOf<H>, D::V, S::V>) -> Seq<u8> {
        H::Hash::message_of(alert_hash::<H, D, S>(v))
    }

    fn message(&self) -> (message: Vec<u8>) {
        self.hash().message()
    }
}

impl<H: Hasher, D: Data, S: Data> Index for Alert<H, D, S> {
    open spec fn index_of(v: AlertView<HashOf<H>, D::V, S::V>) -> NodeIndex {
        v.sender
    }

    fn index(&self) -> (index: NodeIndex) {
        self.sender
    }
}

/// What the members send each other about alerts.
pub enum AlertMessage<H: Hasher, D: Data, S: Data, P: Data> {
    /// An alert.
    ForkAlert(UncheckedSigned<Alert<H, D, S>, S>),
    /// A step of the reliable multicast of an alert's hash, and who sent it.
    RmcMessage(NodeIndex, RmcMessage<H::Hash, S, P>),
    /// A request, by the given member, for the alert with the given hash.
    AlertRequest(NodeIndex, H::Hash),
}

/// The model of a message.
pub enum AlertMessageView<V, D, S, P> {
    ForkAlert(SignedView<AlertView<V, D, S>, S>),
    RmcMessage(NodeIndex, RmcMessageView<V, S, P>),
    AlertRequest(NodeIndex, V),
}

impl<H: Hasher, D: Data, S: Data, P: Data> DeepView for AlertMessage<H, D, S, P> {
    type V = AlertMessageView<HashOf<H>, D::V, S::V, P::V>;

    open spec fn deep_view(&self) -> AlertMessageView<HashOf<H>, D::V, S::V, P::V> {
        match self {
            AlertMessage::ForkAlert(alert) => AlertMessageView::ForkAlert(alert.deep_view()),
            AlertMessage::RmcMessage(sender, message) => AlertMessageView::RmcMessage(
                *sender,
                message.deep_view(),
            ),
            AlertMessage::AlertRequest(node, hash) => AlertMessageView::AlertRequest(
                *node,
                hash.deep_view(),
            ),
        }
    }
}

/// What is to be done about a message.
pub enum AlerterResponse<H: Hasher, D: Data, S: Data, P: Data> {
    /// Send an alert to somebody.
    ForkAlert(UncheckedSigned<Alert<H, D, S>, S>, Recipient),
    /// Notify of a new forker, if there is one, and start the multicast of the hash.
    ForkResponse(Option<ForkingNotification<H, D, S>>, H::Hash),
    /// Ask somebody for an alert.
    AlertRequest(H::Hash, Recipient),
    /// Pass a message on to the reliable multicast.
    RmcMessage(RmcMessage<H::Hash, S, P>),
}

/// The model of a response.
pub enum AlerterResponseView<V, D, S, P> {
    ForkAlert(SignedView<AlertView<V, D, S>, S>, Recipient),
    ForkResponse(Option<ForkingNotificationView<V, D, S>>, V),
    AlertRequest(V, Recipient),
    RmcMessage(RmcMessageView<V, S, P>),
}

impl<H: Hasher, D: Data, S: Data, P: Data> DeepView for AlerterResponse<H, D, S, P> {
    type V = AlerterResponseView<HashOf<H>, D::V, S::V, P::V>;

    open spec fn deep_view(&self) -> AlerterResponseView<HashOf<H>, D::V, S::V, P::V> {
        match self {
            AlerterResponse::ForkAlert(alert, recipient) => AlerterResponseView::ForkAlert(
                alert.deep_view(),
                *recipient,
            ),
            AlerterResponse::ForkResponse(notification, hash) => AlerterResponseView::ForkResponse(
                notification.deep_view(),
                hash.deep_view(),
            ),
            AlerterResponse::AlertRequest(hash, recipient) => AlerterResponseView::AlertRequest(
                hash.deep_view(),
                *recipient,
            ),
            AlerterResponse::RmcMessage(message) => AlerterResponseView::RmcMessage(
                message.deep_view(),
            ),
        }
    }
}

/// What the alerts let the handling of units know.
pub enum ForkingNotification<H: Hasher, D: Data, S: Data> {
    /// Somebody forks.
    Forker(ForkProof<H, D, S>),
    /// Units of a forker that somebody committed to.
    Units(Vec<UncheckedSignedUnit<H, D, S>>),
}

/// The model of a notification.
pub enum ForkingNotificationView<V, D, S> {
    Forker(ForkProofView<V, D, S>),
    Units(Seq<SignedUnitView<V, D, S>>),
}

impl<H: Hasher, D: Data, S: Data> DeepView for ForkingNotification<H, D, S> {
    type V = ForkingNotificationView<HashOf<H>, D::V, S::V>;

    open spec fn deep_view(&self) -> ForkingNotificationView<HashOf<H>, D::V, S::V> {
        match self {
            ForkingNotification::Forker(fork) => ForkingNotificationView::Forker(
                fork.deep_view(),
            ),
            ForkingNotification::Units(units) => ForkingNotificationView::Units(
                units.deep_view(),
            ),
        }
    }
}

} // verus!
