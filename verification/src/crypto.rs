//! Hashing, signing and verifying, as the users of the library provide them.
use crate::data::Data;
use crate::nodes::{NodeCount, NodeIndex};
use vstd::prelude::*;

verus! {

/// Something that can be signed: the signature is put under its message.
pub trait Signable: DeepView + Sized {
    /// The bytes to be signed.
    spec fn message_of(v: Self::V) -> Seq<u8>;

    fn message(&self) -> (message: Vec<u8>)
        ensures
            message@ == Self::message_of(self.deep_view()),
    ;
}

/// Something that belongs to a committee member.
pub trait Index: DeepView + Sized {
    /// The member it belongs to.
    spec fn index_of(v: Self::V) -> NodeIndex;

    fn index(&self) -> (index: NodeIndex)
        ensures
            index == Self::index_of(self.deep_view()),
    ;
}

/// A hash function.
pub trait Hasher: Sized {
    type Hash: Data + Copy + Signable;

    /// The hash of some bytes.
    spec fn hashed(bytes: Seq<u8>) -> <Self::Hash as DeepView>::V;

    fn hash(bytes: &Vec<u8>) -> (hash: Self::Hash)
        ensures
            hash.deep_view() == Self::hashed(bytes@),
    ;
}

/// The model of a hash.
pub type HashOf<H> = <<H as Hasher>::Hash as DeepView>::V;

/// The keys of a committee: the own private one and everybody's public ones.
///
/// A keychain says itself which signatures it makes; nothing is said of their being correct, as a
/// faulty member may sign badly.
pub trait Keychain: Sized {
    type Signature: Data;

    /// The member whose private key this is.
    spec fn node(&self) -> NodeIndex;

    /// The size of the committee.
    spec fn members(&self) -> NodeCount;

    /// Whether this is a signature by the given member under the message.
    spec fn verifies(
        &self,
        message: Seq<u8>,
        signature: <Self::Signature as DeepView>::V,
        index: NodeIndex,
    ) -> bool;

    /// Whether this is a signature that we may put under the message.
    spec fn signs(&self, message: Seq<u8>, signature: <Self::Signature as DeepView>::V) -> bool;

    fn index(&self) -> (index: NodeIndex)
        ensures
            index == self.node(),
    ;

    fn node_count(&self) -> (n: NodeCount)
        ensures
            n == self.members(),
    ;

    fn sign(&self, message: &Vec<u8>) -> (signature: Self::Signature)
        ensures
            self.signs(message@, signature.deep_view()),
    ;

    /// The same keys once more.
    fn copy(&self) -> (other: Self)
        ensures
            other.node() == self.node(),
            other.members() == self.members(),
            forall|
                message: Seq<u8>,
                signature: <Self::Signature as DeepView>::V,
                index: NodeIndex,
            |
                #![trigger self.verifies(message, signature, index)]
                #![trigger other.verifies(message, signature, index)]
                other.verifies(message, signature, index) == self.verifies(
                    message,
                    signature,
                    index,
                ),
            forall|message: Seq<u8>, signature: <Self::Signature as DeepView>::V|
                #![trigger self.signs(message, signature)]
                #![trigger other.signs(message, signature)]
                other.signs(message, signature) == self.signs(message, signature),
    ;

    fn verify(&self, message: &Vec<u8>, signature: &Self::Signature, index: NodeIndex) -> (result:
        bool)
        ensures
            result == self.verifies(message@, signature.deep_view(), index),
    ;
}

/// Two keychains of one member of one committee that make and accept the same signatures.
pub open spec fn same_keys<K: Keychain>(one: K, other: K) -> bool {
    &&& one.node() == other.node()
    &&& one.members() == other.members()
    &&& forall|message: Seq<u8>, signature: SignatureOf<K>, index: NodeIndex|
        #![trigger one.verifies(message, signature, index)]
        #![trigger other.verifies(message, signature, index)]
        one.verifies(message, signature, index) == other.verifies(message, signature, index)
    &&& forall|message: Seq<u8>, signature: SignatureOf<K>|
        #![trigger one.signs(message, signature)]
        #![trigger other.signs(message, signature)]
        one.signs(message, signature) == other.signs(message, signature)
}

/// The model of a signature.
pub type SignatureOf<K> = <<K as Keychain>::Signature as DeepView>::V;

/// Signatures of several members under one message, perhaps not yet enough of them.
pub trait PartialMultisignature: Data {
    type Signature: Data;

    /// The multisignature with one more signature in it.
    spec fn with_signature(
        v: Self::V,
        signature: <Self::Signature as DeepView>::V,
        index: NodeIndex,
    ) -> Self::V;

    fn add_signature(self, signature: &Self::Signature, index: NodeIndex) -> (result: Self)
        ensures
            result.deep_view() == Self::with_signature(
                self.deep_view(),
                signature.deep_view(),
                index,
            ),
    ;
}

/// A keychain that can put signatures together.
pub trait MultiKeychain: Keychain {
    type PartialMultisignature: PartialMultisignature<
        Signature = <Self as Keychain>::Signature,
    >;

    /// The multisignature made of one signature.
    spec fn started(
        &self,
        signature: <Self::Signature as DeepView>::V,
        index: NodeIndex,
    ) -> <Self::PartialMultisignature as DeepView>::V;

    /// Whether the multisignature is enough.
    spec fn completes(
        &self,
        message: Seq<u8>,
        partial: <Self::PartialMultisignature as DeepView>::V,
    ) -> bool;

    /// The same keys once more, for multisignatures too.
    fn duplicate(&self) -> (other: Self)
        ensures
            other.node() == self.node(),
            other.members() == self.members(),
            forall|
                message: Seq<u8>,
                signature: <Self::Signature as DeepView>::V,
                index: NodeIndex,
            |
                #![trigger self.verifies(message, signature, index)]
                #![trigger other.verifies(message, signature, index)]
                other.verifies(message, signature, index) == self.verifies(
                    message,
                    signature,
                    index,
                ),
            forall|message: Seq<u8>, signature: <Self::Signature as DeepView>::V|
                #![trigger self.signs(message, signature)]
                #![trigger other.signs(message, signature)]
                other.signs(message, signature) == self.signs(message, signature),
            forall|signature: <Self::Signature as DeepView>::V, index: NodeIndex|
                #![trigger self.started(signature, index)]
                #![trigger other.started(signature, index)]
                other.started(signature, index) == self.started(signature, index),
            forall|message: Seq<u8>, partial: <Self::PartialMultisignature as DeepView>::V|
                #![trigger self.completes(message, partial)]
                #![trigger other.completes(message, partial)]
                other.completes(message, partial) == self.completes(message, partial),
    ;

    fn from_signature(&self, signature: &Self::Signature, index: NodeIndex) -> (result:
        Self::PartialMultisignature)
        ensures
            result.deep_view() == self.started(signature.deep_view(), index),
    ;

    fn is_complete(&self, message: &Vec<u8>, partial: &Self::PartialMultisignature) -> (result:
        bool)
        ensures
            result == self.completes(message@, partial.deep_view()),
    ;
}

/// Two keychains with the same keys that treat multisignatures in the same way.
pub open spec fn same_multi_keys<MK: MultiKeychain>(one: MK, other: MK) -> bool {
    &&& same_keys(one, other)
    &&& forall|signature: SignatureOf<MK>, index: NodeIndex|
        #![trigger one.started(signature, index)]
        #![trigger other.started(signature, index)]
        one.started(signature, index) == other.started(signature, index)
    &&& forall|message: Seq<u8>, partial: PartialOf<MK>|
        #![trigger one.completes(message, partial)]
        #![trigger other.completes(message, partial)]
        one.completes(message, partial) == other.completes(message, partial)
}

/// The model of a multisignature.
pub type PartialOf<MK> = <<MK as MultiKeychain>::PartialMultisignature as DeepView>::V;

impl Signable for [u8; 8] {
    open spec fn message_of(v: Seq<u8>) -> Seq<u8> {
        v
    }

    fn message(&self) -> (message: Vec<u8>) {
        self.encode()
    }
}

} // verus!
