//! Keys whose signatures show what was signed, by whom, and that can be put together.
use crate::crypto::Keychain as KeychainT;
use crate::data::Data;
use crate::mock::verbose::{VerboseSignature, VerboseView};
use crate::nodes::{NodeCount, NodeIndex};
use vstd::prelude::*;

verus! {

/// Keys that make verbose signatures.
pub struct Keychain {
    count: NodeCount,
    index: NodeIndex,
}

impl Keychain {
    pub fn new(count: NodeCount, index: NodeIndex) -> (result: Self)
        ensures
            result.node() == index,
            result.members() == count,
    {
        Keychain { count, index }
    }
}

impl KeychainT for Keychain {
    type Signature = VerboseSignature;

    closed spec fn node(&self) -> NodeIndex {
        self.index
    }

    closed spec fn members(&self) -> NodeCount {
        self.count
    }

    open spec fn verifies(&self, message: Seq<u8>, signature: VerboseView, index: NodeIndex) -> bool {
        signature == (VerboseView { msg: message, index })
    }

    open spec fn signs(&self, message: Seq<u8>, signature: VerboseView) -> bool {
        signature == (VerboseView { msg: message, index: self.node() })
    }

    fn index(&self) -> (index: NodeIndex) {
        self.index
    }

    fn node_count(&self) -> (n: NodeCount) {
        self.count
    }

    fn sign(&self, message: &Vec<u8>) -> (signature: VerboseSignature) {
        VerboseSignature::of(message, self.index)
    }

    fn copy(&self) -> (other: Self) {
        Keychain { count: self.count, index: self.index }
    }

    fn verify(&self, message: &Vec<u8>, signature: &VerboseSignature, index: NodeIndex) -> (result:
        bool) {
        let result: bool = index == signature.index() && message.equals(signature.msg());
        proof {
            assert(message.deep_view() =~= message@);
            let expected = VerboseView { msg: message@, index };
            if result {
                assert(signature.deep_view().msg =~= message@);
                assert(signature.deep_view() =~= expected);
            }
        }
        result
    }
}

} // verus!
