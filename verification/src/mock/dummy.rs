//! Keys that sign nothing at all, put together to multisignatures.
use crate::codec_error::CodecError;
use crate::crypto::Keychain;
use crate::data::{Data, Encoding};
use crate::mock::signature_set::SignatureSet;
use crate::mock::threshold::ThresholdMultiKeychain;
use crate::nodes::{NodeCount, NodeIndex};
use vstd::prelude::*;
use vstd::string::StringExecFns;

verus! {

/// An empty signature.
pub struct DummySignature {}

impl DeepView for DummySignature {
    type V = ();

    open spec fn deep_view(&self) -> () {
        ()
    }
}

impl Encoding for DummySignature {
    open spec fn valid(v: ()) -> bool {
        true
    }

    open spec fn encoded(v: ()) -> Seq<u8> {
        seq![]
    }

    open spec fn failure(bytes: Seq<u8>) -> Seq<Seq<char>> {
        seq![]
    }

    open spec fn in_bulk() -> bool {
        false
    }

    open spec fn shown(v: ()) -> Seq<char> {
        "DummySignature"@
    }
}

impl Data for DummySignature {
    proof fn lemma_valid(&self) {
    }

    proof fn lemma_prefix_free(v: (), w: (), bytes: Seq<u8>) {
    }

    fn copy(&self) -> (other: Self) {
        DummySignature {  }
    }

    fn equals(&self, other: &Self) -> (equal: bool) {
        true
    }

    fn encode_to(&self, out: &mut Vec<u8>) {
        proof {
            assert(out@ =~= out@ + Self::encoded(()));
        }
    }

    fn decode(input: &Vec<u8>, pos: usize) -> (result: Option<(Self, usize)>) {
        proof {
            assert(input@.subrange(pos as int, pos as int) =~= Self::encoded(()));
        }
        Some((DummySignature {  }, pos))
    }

    fn explain(input: &Vec<u8>, pos: usize) -> (error: CodecError) {
        proof {
            assert(Self::encoded(()).is_prefix_of(input@.skip(pos as int)));
        }
        CodecError::new(String::new())
    }

    fn reads_in_bulk() -> (bulk: bool) {
        false
    }

    fn show(&self, out: &mut String) {
        out.append("DummySignature");
    }
}

/// Empty signatures of several members.
pub type DummyPartialMultisignature = SignatureSet<DummySignature>;

/// Keys that sign nothing at all and accept everything.
pub struct DummyKeyBox {
    count: NodeCount,
    ix: NodeIndex,
}

impl DummyKeyBox {
    pub fn new(count: NodeCount, ix: NodeIndex) -> (result: Self)
        ensures
            result.node() == ix,
            result.members() == count,
    {
        DummyKeyBox { count, ix }
    }
}

impl Keychain for DummyKeyBox {
    type Signature = DummySignature;

    closed spec fn node(&self) -> NodeIndex {
        self.ix
    }

    closed spec fn members(&self) -> NodeCount {
        self.count
    }

    open spec fn verifies(&self, message: Seq<u8>, signature: (), index: NodeIndex) -> bool {
        true
    }

    open spec fn signs(&self, message: Seq<u8>, signature: ()) -> bool {
        true
    }

    fn index(&self) -> (index: NodeIndex) {
        self.ix
    }

    fn node_count(&self) -> (n: NodeCount) {
        self.count
    }

    fn sign(&self, message: &Vec<u8>) -> (signature: DummySignature) {
        DummySignature {  }
    }

    fn copy(&self) -> (other: Self) {
        DummyKeyBox { count: self.count, ix: self.ix }
    }

    fn verify(&self, message: &Vec<u8>, signature: &DummySignature, index: NodeIndex) -> (result:
        bool) {
        true
    }
}

/// Dummy keys, put together to multisignatures.
pub type ThresholdDummyMultiKeychain = ThresholdMultiKeychain<DummyKeyBox>;

impl ThresholdMultiKeychain<DummyKeyBox> {
    /// The keys of a member.
    pub fn dummy(count: NodeCount, ix: NodeIndex) -> (result: Self)
        ensures
            result.node() == ix,
            result.members() == count,
    {
        ThresholdMultiKeychain::new(DummyKeyBox::new(count, ix))
    }
}

} // verus!
