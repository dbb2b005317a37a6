//! Reliable multicast of hashes: collecting signatures until a multisignature is complete.
use crate::data::Data;
use crate::signed::{Indexed, IndexedView, SignedView, UncheckedSigned};
use vstd::prelude::*;

pub mod handler;

verus! {

/// A signature, or a whole multisignature, under a hash.
pub enum Message<T, S, P> {
    SignedHash(UncheckedSigned<Indexed<T>, S>),
    MultisignedHash(UncheckedSigned<T, P>),
}

/// The model of a message.
pub enum MessageView<T, S, P> {
    SignedHash(SignedView<IndexedView<T>, S>),
    MultisignedHash(SignedView<T, P>),
}

impl<T, S, P> MessageView<T, S, P> {
    /// What the signatures are put under.
    pub open spec fn hash(self) -> T {
        match self {
            MessageView::SignedHash(signed) => signed.signable.signable,
            MessageView::MultisignedHash(multisigned) => multisigned.signable,
        }
    }
}

impl<T: DeepView, S: DeepView, P: DeepView> DeepView for Message<T, S, P> {
    type V = MessageView<T::V, S::V, P::V>;

    open spec fn deep_view(&self) -> MessageView<T::V, S::V, P::V> {
        match self {
            Message::SignedHash(signed) => MessageView::SignedHash(signed.deep_view()),
            Message::MultisignedHash(multisigned) => MessageView::MultisignedHash(
                multisigned.deep_view(),
            ),
        }
    }
}

impl<T: DeepView, S: DeepView, P: DeepView> Message<T, S, P> {
    /// What the signatures are put under.
    pub fn hash(&self) -> (hash: &T)
        ensures
            hash.deep_view() == self.deep_view().hash(),
    {
        match self {
            Message::SignedHash(signed) => signed.as_signable().as_signable(),
            Message::MultisignedHash(multisigned) => multisigned.as_signable(),
        }
    }

    /// Whether this is a multisignature.
    pub fn is_complete(&self) -> (result: bool)
        ensures
            result == (self.deep_view() is MultisignedHash),
    {
        match self {
            Message::SignedHash(_) => false,
            Message::MultisignedHash(_) => true,
        }
    }
}

impl<T: Data, S: Data, P: Data> Message<T, S, P> {
    pub fn copy(&self) -> (other: Self)
        ensures
            other.deep_view() == self.deep_view(),
    {
        match self {
            Message::SignedHash(signed) => Message::SignedHash(signed.copy()),
            Message::MultisignedHash(multisigned) => Message::MultisignedHash(multisigned.copy()),
        }
    }

    pub fn equals(&self, other: &Self) -> (equal: bool)
        ensures
            equal == (self.deep_view() == other.deep_view()),
    {
        match (self, other) {
            (Message::SignedHash(a), Message::SignedHash(b)) => a.equals(b),
            (Message::MultisignedHash(a), Message::MultisignedHash(b)) => a.equals(b),
            _ => false,
        }
    }
}

} // verus!
