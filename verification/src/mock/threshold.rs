//! Multisignatures out of plain signatures.
use crate::crypto::{
    same_keys, Keychain, MultiKeychain, PartialMultisignature, Signable, SignatureOf,
};
use crate::data::Data;
use crate::mock::signature_set;
use crate::mock::signature_set::SignatureSet;
use crate::mock::verbose::VerboseKeyBox;
use crate::nodes;
use crate::nodes::{NodeCount, NodeIndex};
use crate::rmc::handler;
use crate::rmc::handler::States;
use crate::signed::{IndexedView, SignedView};
use vstd::prelude::*;

verus! {

/// Whether there are enough signatures, all of them correct.
pub open spec fn quorate<K: Keychain>(
    key_box: K,
    message: Seq<u8>,
    set: Seq<Option<SignatureOf<K>>>,
) -> bool {
    &&& nodes::present(set).len() >= nodes::threshold(key_box.members().0 as nat)
    &&& forall|i: int|
        0 <= i < set.len() ==> (#[trigger] set[i] matches Some(signature) ==> key_box.verifies(
            message,
            signature,
            NodeIndex(i as usize),
        ))
}

/// Keybox wrapper which implements MultiKeychain such that a partial multisignature is a list of
/// signatures and a partial multisignature is considered complete if it contains more than 2N/3 signatures.
///
/// Note: this way of multisigning is very inefficient, and should be used only for testing.
pub struct ThresholdMultiKeychain<KB: Keychain> {
    key_box: KB,
}

impl<KB: Keychain> ThresholdMultiKeychain<KB> {
    /// The keys that single signatures are made with.
    pub closed spec fn inner(&self) -> KB {
        self.key_box
    }

    /// Create a new `ThresholdMultiKeychain` using the provided keys.
    pub fn new(key_box: KB) -> (result: Self)
        ensures
            result.inner() == key_box,
    {
        ThresholdMultiKeychain { key_box }
    }

    /// How many signatures are enough.
    fn quorum(&self) -> (n: NodeCount)
        ensures
            n.0 == nodes::threshold(self.members().0 as nat),
    {
        self.key_box.node_count().consensus_threshold()
    }
}

impl<KB: Keychain> Keychain for ThresholdMultiKeychain<KB> {
    type Signature = KB::Signature;

    open spec fn node(&self) -> NodeIndex {
        self.inner().node()
    }

    open spec fn members(&self) -> NodeCount {
        self.inner().members()
    }

    open spec fn verifies(
        &self,
        message: Seq<u8>,
        signature: SignatureOf<KB>,
        index: NodeIndex,
    ) -> bool {
        self.inner().verifies(message, signature, index)
    }

    open spec fn signs(&self, message: Seq<u8>, signature: SignatureOf<KB>) -> bool {
        self.inner().signs(message, signature)
    }

    fn index(&self) -> (index: NodeIndex) {
        self.key_box.index()
    }

    fn node_count(&self) -> (n: NodeCount) {
        self.key_box.node_count()
    }

    fn sign(&self, message: &Vec<u8>) -> (signature: KB::Signature) {
        self.key_box.sign(message)
    }

    fn copy(&self) -> (other: Self) {
        ThresholdMultiKeychain { key_box: self.key_box.copy() }
    }

    fn verify(&self, message: &Vec<u8>, signature: &KB::Signature, index: NodeIndex) -> (result:
        bool) {
        self.key_box.verify(message, signature, index)
    }
}

impl<KB: Keychain> MultiKeychain for ThresholdMultiKeychain<KB> {
    type PartialMultisignature = SignatureSet<KB::Signature>;

    open spec fn started(&self, signature: SignatureOf<KB>, index: NodeIndex) -> Seq<
        Option<SignatureOf<KB>>,
    > {
        signature_set::added(nodes::empty(self.members().0 as nat), signature, index)
    }

    open spec fn completes(
        &self,
        message: Seq<u8>,
        partial: Seq<Option<SignatureOf<KB>>>,
    ) -> bool {
        quorate(self.inner(), message, partial)
    }

    fn duplicate(&self) -> (other: Self) {
        let other: Self = ThresholdMultiKeychain { key_box: self.key_box.copy() };
        proof {
            assert forall|message: Seq<u8>, partial: Seq<Option<SignatureOf<KB>>>|
                self.completes(message, partial) == #[trigger] other.completes(
                    message,
                    partial,
                ) by {
                lemma_same_quorum(self.inner(), other.inner(), message, partial);
            }
        }
        other
    }

    fn from_signature(&self, signature: &KB::Signature, index: NodeIndex) -> (result: SignatureSet<
        KB::Signature,
    >) {
        SignatureSet::with_size(self.key_box.node_count()).add_signature(signature, index)
    }

    fn is_complete(&self, message: &Vec<u8>, partial: &SignatureSet<KB::Signature>) -> (result:
        bool) {
        if partial.count() < self.quorum().0 {
            return false;
        }
        let n: usize = partial.size().0;
        let ghost set = partial.deep_view();
        for i in 0..n
            invariant
                n == set.len(),
                set == partial.deep_view(),
                forall|j: int|
                    0 <= j < i ==> (#[trigger] set[j] matches Some(signature)
                        ==> self.key_box.verifies(message@, signature, NodeIndex(j as usize))),
        {
            if let Some(signature) = partial.get(NodeIndex(i)) {
                proof {
                    assert(set[i as int] == Some(signature.deep_view()));
                }
                if !self.key_box.verify(message, signature, NodeIndex(i)) {
                    return false;
                }
            }
        }
        true
    }
}

/// Keys that accept the same signatures agree on when there are enough of them.
proof fn lemma_same_quorum<K: Keychain>(
    one: K,
    other: K,
    message: Seq<u8>,
    set: Seq<Option<SignatureOf<K>>>,
)
    requires
        same_keys(one, other),
    ensures
        quorate(one, message, set) == quorate(other, message, set),
{
    assert forall|i: int| 0 <= i < set.len() implies (#[trigger] set[i] matches Some(signature)
        ==> one.verifies(message, signature, NodeIndex(i as usize)) == other.verifies(
        message,
        signature,
        NodeIndex(i as usize),
    )) by {}
}

/// Correct signatures of different members under one hash.
pub open spec fn signed_by_different<T: Data + Signable, KB: Keychain>(
    keychain: ThresholdMultiKeychain<KB>,
    hash: T::V,
    signed: Seq<SignedView<IndexedView<T::V>, SignatureOf<KB>>>,
) -> bool {
    &&& forall|i: int|
        0 <= i < signed.len() ==> {
            &&& (#[trigger] signed[i]).signable.signable == hash
            &&& signed[i].signable.index.0 < keychain.members().0
            &&& keychain.verifies(
                T::message_of(hash),
                signed[i].signature,
                signed[i].signable.index,
            )
        }
    &&& forall|i: int, j: int|
        0 <= i < j < signed.len() ==> (#[trigger] signed[i]).signable.index != (
        #[trigger] signed[j]).signable.index
}

/// What is kept of a hash while there are too few signatures under it: all of them.
spec fn collected<T: Data + Signable, KB: Keychain>(
    keychain: ThresholdMultiKeychain<KB>,
    states: States<T, ThresholdMultiKeychain<KB>>,
    hash: T::V,
    signed: Seq<SignedView<IndexedView<T::V>, SignatureOf<KB>>>,
) -> bool {
    if signed.len() == 0 {
        !states.contains_key(hash)
    } else {
        let set = states[hash].content.signature;
        &&& states.contains_key(hash)
        &&& !states[hash].complete
        &&& set.len() == keychain.members().0
        &&& nodes::present(set).len() == signed.len()
        &&& forall|i: int|
            0 <= i < set.len() ==> (#[trigger] set[i] matches Some(signature) ==> {
                &&& keychain.verifies(T::message_of(hash), signature, NodeIndex(i as usize))
                &&& exists|j: int|
                    0 <= j < signed.len() && (#[trigger] signed[j]).signable.index.0 == i
            })
    }
}

proof fn lemma_collected<T: Data + Signable, KB: Keychain>(
    keychain: ThresholdMultiKeychain<KB>,
    states: States<T, ThresholdMultiKeychain<KB>>,
    hash: T::V,
    signed: Seq<SignedView<IndexedView<T::V>, SignatureOf<KB>>>,
)
    requires
        !states.contains_key(hash),
        signed_by_different::<T, KB>(keychain, hash, signed),
    ensures
        ({
            let after = handler::all_added::<T, ThresholdMultiKeychain<KB>>(
                keychain,
                states,
                signed,
            );
            if signed.len() < nodes::threshold(keychain.members().0 as nat) {
                collected::<T, KB>(keychain, after, hash, signed)
            } else {
                handler::completed::<T, ThresholdMultiKeychain<KB>>(after, hash)
            }
        }),
    decreases signed.len(),
{
    if signed.len() > 0 {
        let earlier = signed.drop_last();
        let last = signed.last();
        let members = keychain.members().0;
        lemma_collected::<T, KB>(keychain, states, hash, earlier);
        let before = handler::all_added::<T, ThresholdMultiKeychain<KB>>(
            keychain,
            states,
            earlier,
        );
        if earlier.len() < nodes::threshold(members as nat) {
            let set = if earlier.len() == 0 {
                nodes::empty::<SignatureOf<KB>>(members as nat)
            } else {
                before[hash].content.signature
            };
            let i = last.signable.index.0 as int;
            nodes::lemma_empty_present::<SignatureOf<KB>>(members as nat);
            assert(last == signed[signed.len() - 1]);
            assert(set[i] is None);
            nodes::lemma_present_update(set, i, last.signature);
            let more = set.update(i, Some(last.signature));
            assert forall|k: int| 0 <= k < more.len() implies (#[trigger] more[k] matches Some(
                signature,
            ) ==> {
                &&& keychain.verifies(T::message_of(hash), signature, NodeIndex(k as usize))
                &&& exists|j: int|
                    0 <= j < signed.len() && (#[trigger] signed[j]).signable.index.0 == k
            }) by {
                if k != i && set[k] is Some {
                    let j = choose|j: int|
                        0 <= j < earlier.len() && (#[trigger] earlier[j]).signable.index.0 == k;
                    assert(signed[j] == earlier[j]);
                }
            }
        }
    }
}

/// Signatures of different members under a hash complete its multisignature exactly when there
/// are more than two thirds of the committee, in whatever order they come.
pub proof fn law_quorum_completes<T: Data + Signable, KB: Keychain>(
    keychain: ThresholdMultiKeychain<KB>,
    states: States<T, ThresholdMultiKeychain<KB>>,
    hash: T::V,
    signed: Seq<SignedView<IndexedView<T::V>, SignatureOf<KB>>>,
)
    requires
        !states.contains_key(hash),
        signed_by_different::<T, KB>(keychain, hash, signed),
    ensures
        handler::completed::<T, ThresholdMultiKeychain<KB>>(
            handler::all_added::<T, ThresholdMultiKeychain<KB>>(keychain, states, signed),
            hash,
        ) <==> 3 * signed.len() > 2 * keychain.members().0,
{
    lemma_collected::<T, KB>(keychain, states, hash, signed);
}

/// Keys to test the reliable multicast with.
pub type TestMultiKeychain = ThresholdMultiKeychain<VerboseKeyBox>;

/// The keys of all the members of a committee.
pub fn prepare_keychains(node_count: NodeCount) -> (keychains: Vec<TestMultiKeychain>)
    ensures
        keychains@.len() == node_count.0,
        forall|i: int|
            0 <= i < keychains@.len() ==> (#[trigger] keychains@[i]).node() == NodeIndex(i as usize)
                && keychains@[i].members() == node_count,
{
    let n: usize = node_count.0;
    let mut keychains: Vec<TestMultiKeychain> = Vec::new();
    for i in 0..n
        invariant
            n == node_count.0,
            keychains@.len() == i,
            forall|j: int|
                0 <= j < i ==> (#[trigger] keychains@[j]).node() == NodeIndex(j as usize)
                    && keychains@[j].members() == node_count,
    {
        keychains.push(ThresholdMultiKeychain::new(VerboseKeyBox::new(node_count, NodeIndex(i))));
    }
    keychains
}

} // verus!
