//! Keys that always make the same signature.
use crate::crypto::Keychain;
use crate::data::Data;
use crate::nodes::{NodeCount, NodeIndex};
use vstd::prelude::*;

verus! {

/// Keys that always make the same signature, and accept only that one.
pub struct ConstantSignatureKeyBox<T: Data + Copy> {
    count: NodeCount,
    index: NodeIndex,
    signature: T,
}

impl<T: Data + Copy> ConstantSignatureKeyBox<T> {
    /// The one signature.
    pub closed spec fn constant(&self) -> T::V {
        self.signature.deep_view()
    }

    pub fn new(count: NodeCount, index: NodeIndex, signature: T) -> (result: Self)
        ensures
            result.node() == index,
            result.members() == count,
            result.constant() == signature.deep_view(),
    {
        ConstantSignatureKeyBox { count, index, signature }
    }
}

impl<T: Data + Copy> Keychain for ConstantSignatureKeyBox<T> {
    type Signature = T;

    closed spec fn node(&self) -> NodeIndex {
        self.index
    }

    closed spec fn members(&self) -> NodeCount {
        self.count
    }

    open spec fn verifies(&self, message: Seq<u8>, signature: T::V, index: NodeIndex) -> bool {
        signature == self.constant()
    }

    open spec fn signs(&self, message: Seq<u8>, signature: T::V) -> bool {
        signature == self.constant()
    }

    fn index(&self) -> (index: NodeIndex) {
        self.index
    }

    fn node_count(&self) -> (n: NodeCount) {
        self.count
    }

    fn sign(&self, message: &Vec<u8>) -> (signature: T) {
        self.signature
    }

    fn copy(&self) -> (other: Self) {
        ConstantSignatureKeyBox {
            count: self.count,
            index: self.index,
            signature: self.signature,
        }
    }

    fn verify(&self, message: &Vec<u8>, signature: &T, index: NodeIndex) -> (result: bool) {
        self.signature.equals(signature)
    }
}

} // verus!
