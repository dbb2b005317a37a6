//! Keys that sign in the name of somebody, and accept everything.
use crate::crypto::{Keychain, MultiKeychain};
use crate::data::Data;
use crate::mock::signature_set::SignatureSet;
use crate::mock::verbose::{VerbosePartialMultisignature, VerboseSignature, VerboseView};
use crate::nodes;
use crate::nodes::{NodeCount, NodeIndex};
use vstd::prelude::*;

verus! {

/// Keys that sign in the name of somebody, and accept everything.
pub struct BadKeyBox {
    count: NodeCount,
    index: NodeIndex,
    signature_index: NodeIndex,
}

impl BadKeyBox {
    /// In whose name this signs.
    pub closed spec fn pretended(&self) -> NodeIndex {
        self.signature_index
    }

    pub fn new(count: NodeCount, index: NodeIndex, signature_index: NodeIndex) -> (result: Self)
        ensures
            result.node() == index,
            result.members() == count,
            result.pretended() == signature_index,
    {
        BadKeyBox { count, index, signature_index }
    }
}

impl Keychain for BadKeyBox {
    type Signature = VerboseSignature;

    closed spec fn node(&self) -> NodeIndex {
        self.index
    }

    closed spec fn members(&self) -> NodeCount {
        self.count
    }

    open spec fn verifies(&self, message: Seq<u8>, signature: VerboseView, index: NodeIndex) -> bool {
        true
    }

    open spec fn signs(&self, message: Seq<u8>, signature: VerboseView) -> bool {
        signature == (VerboseView { msg: message, index: self.pretended() })
    }

    fn index(&self) -> (index: NodeIndex) {
        self.index
    }

    fn node_count(&self) -> (n: NodeCount) {
        self.count
    }

    fn sign(&self, message: &Vec<u8>) -> (signature: VerboseSignature) {
        VerboseSignature::of(message, self.signature_index)
    }

    fn copy(&self) -> (other: Self) {
        BadKeyBox {
            count: self.count,
            index: self.index,
            signature_index: self.signature_index,
        }
    }

    fn verify(&self, message: &Vec<u8>, signature: &VerboseSignature, index: NodeIndex) -> (result:
        bool) {
        true
    }
}

impl MultiKeychain for BadKeyBox {
    type PartialMultisignature = VerbosePartialMultisignature;

    open spec fn started(&self, signature: VerboseView, index: NodeIndex) -> Seq<
        Option<VerboseView>,
    > {
        nodes::empty(self.members().0 as nat)
    }

    open spec fn completes(&self, message: Seq<u8>, partial: Seq<Option<VerboseView>>) -> bool {
        true
    }

    fn duplicate(&self) -> (other: Self) {
        self.copy()
    }

    fn from_signature(&self, signature: &VerboseSignature, index: NodeIndex) -> (result:
        VerbosePartialMultisignature) {
        SignatureSet::with_size(self.count)
    }

    fn is_complete(&self, message: &Vec<u8>, partial: &VerbosePartialMultisignature) -> (result:
        bool) {
        true
    }
}

/// Keys that sign in the name of somebody, and accept everything, for multisignatures.
pub struct BadVerboseMultiKeychain {
    count: NodeCount,
    index: NodeIndex,
    signature_index: NodeIndex,
}

impl BadVerboseMultiKeychain {
    /// In whose name this signs.
    pub closed spec fn pretended(&self) -> NodeIndex {
        self.signature_index
    }

    pub fn new(count: NodeCount, index: NodeIndex, signature_index: NodeIndex) -> (result: Self)
        ensures
            result.node() == index,
            result.members() == count,
            result.pretended() == signature_index,
    {
        BadVerboseMultiKeychain { count, index, signature_index }
    }
}

impl Keychain for BadVerboseMultiKeychain {
    type Signature = VerboseSignature;

    closed spec fn node(&self) -> NodeIndex {
        self.index
    }

    closed spec fn members(&self) -> NodeCount {
        self.count
    }

    open spec fn verifies(&self, message: Seq<u8>, signature: VerboseView, index: NodeIndex) -> bool {
        true
    }

    open spec fn signs(&self, message: Seq<u8>, signature: VerboseView) -> bool {
        signature == (VerboseView { msg: message, index: self.pretended() })
    }

    fn index(&self) -> (index: NodeIndex) {
        self.index
    }

    fn node_count(&self) -> (n: NodeCount) {
        self.count
    }

    fn sign(&self, message: &Vec<u8>) -> (signature: VerboseSignature) {
        VerboseSignature::of(message, self.signature_index)
    }

    fn copy(&self) -> (other: Self) {
        BadVerboseMultiKeychain {
            count: self.count,
            index: self.index,
            signature_index: self.signature_index,
        }
    }

    fn verify(&self, message: &Vec<u8>, signature: &VerboseSignature, index: NodeIndex) -> (result:
        bool) {
        true
    }
}

impl MultiKeychain for BadVerboseMultiKeychain {
    type PartialMultisignature = VerbosePartialMultisignature;

    open spec fn started(&self, signature: VerboseView, index: NodeIndex) -> Seq<
        Option<VerboseView>,
    > {
        nodes::empty(self.members().0 as nat)
    }

    open spec fn completes(&self, message: Seq<u8>, partial: Seq<Option<VerboseView>>) -> bool {
        true
    }

    fn duplicate(&self) -> (other: Self) {
        self.copy()
    }

    fn from_signature(&self, signature: &VerboseSignature, index: NodeIndex) -> (result:
        VerbosePartialMultisignature) {
        SignatureSet::with_size(self.count)
    }

    fn is_complete(&self, message: &Vec<u8>, partial: &VerbosePartialMultisignature) -> (result:
        bool) {
        true
    }
}

} // verus!
