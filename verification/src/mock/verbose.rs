//! Keys whose signatures show what was signed, and by whom.
use crate::codec_error::CodecError;
use crate::crypto::Keychain;
use crate::data::{
    behind, lemma_both_encoded, no_encoding, part_failure, skip_part, Data, Encoding,
};
use crate::mock::signature_set::SignatureSet;
use crate::nodes::{NodeCount, NodeIndex};
use vstd::prelude::*;
use vstd::string::StringExecFns;

verus! {

/// The model of a verbose signature.
#[verifier::ext_equal]
pub struct VerboseView {
    pub msg: Seq<u8>,
    pub index: NodeIndex,
}

/// A signature that consists of the message and the index of whoever signed it.
pub struct VerboseSignature {
    msg: Vec<u8>,
    index: NodeIndex,
}

impl DeepView for VerboseSignature {
    type V = VerboseView;

    closed spec fn deep_view(&self) -> VerboseView {
        VerboseView { msg: self.msg.deep_view(), index: self.index }
    }
}

impl Encoding for VerboseSignature {
    open spec fn valid(v: VerboseView) -> bool {
        <(Vec<u8>, NodeIndex)>::valid((v.msg, v.index))
    }

    open spec fn encoded(v: VerboseView) -> Seq<u8> {
        <(Vec<u8>, NodeIndex)>::encoded((v.msg, v.index))
    }

    open spec fn failure(bytes: Seq<u8>) -> Seq<Seq<char>> {
        if no_encoding::<Vec<u8>>(bytes) {
            part_failure::<Vec<u8>>(
                "Could not decode `VerboseSignature::msg`"@,
                bytes,
            )
        } else {
            let behind_msg = behind::<Vec<u8>>(bytes);
            part_failure::<NodeIndex>(
                "Could not decode `VerboseSignature::index`"@,
                behind_msg,
            )
        }
    }

    open spec fn in_bulk() -> bool {
        false
    }

    open spec fn shown(v: VerboseView) -> Seq<char> {
        "VerboseSignature { msg: "@ + <Vec<u8>>::shown(v.msg)
            + ", index: "@ + NodeIndex::shown(v.index) + " }"@
    }
}

impl Data for VerboseSignature {
    proof fn lemma_valid(&self) {
        self.msg.lemma_valid();
        self.index.lemma_valid();
    }

    proof fn lemma_prefix_free(v: VerboseView, w: VerboseView, bytes: Seq<u8>) {
        <(Vec<u8>, NodeIndex)>::lemma_prefix_free((v.msg, v.index), (w.msg, w.index), bytes);
    }

    fn copy(&self) -> (other: Self) {
        VerboseSignature {
            msg: self.msg.copy(),
            index: self.index.copy(),
        }
    }

    fn equals(&self, other: &Self) -> (equal: bool) {
        self.msg.equals(&other.msg)
            && self.index.equals(&other.index)
    }

    fn encode_to(&self, out: &mut Vec<u8>) {
        let ghost start = out@;
        self.msg.encode_to(out);
        self.index.encode_to(out);
        proof {
            assert(out@ =~= start + Self::encoded(self.deep_view()));
        }
    }

    fn decode(input: &Vec<u8>, pos: usize) -> (result: Option<(Self, usize)>) {
        match <(Vec<u8>, NodeIndex)>::decode(input, pos) {
            Some(((msg, index), end)) => Some((VerboseSignature { msg, index }, end)),
            None => {
                proof {
                    let rest = input@.skip(pos as int);
                    assert forall|v: VerboseView| Self::valid(v) implies !(
                    #[trigger] Self::encoded(v)).is_prefix_of(rest) by {
                        assert(!<(Vec<u8>, NodeIndex)>::encoded((v.msg, v.index)).is_prefix_of(rest));
                    }
                }
                None
            },
        }
    }

    fn explain(input: &Vec<u8>, pos: usize) -> (error: CodecError) {
        let ghost rest = input@.skip(pos as int);
        let behind_msg: usize = match skip_part::<Vec<u8>>(
            input,
            pos,
            "Could not decode `VerboseSignature::msg`",
        ) {
            Ok(end) => end,
            Err(error) => {
                return error;
            },
        };
        match skip_part::<NodeIndex>(
            input,
            behind_msg,
            "Could not decode `VerboseSignature::index`",
        ) {
            Err(error) => error,
            Ok(_) => {
                proof {
                    lemma_both_encoded::<Vec<u8>, NodeIndex>(rest);
                    let t = choose|t: <(Vec<u8>, NodeIndex) as DeepView>::V|
                        <(Vec<u8>, NodeIndex)>::valid(t) && (#[trigger] <(Vec<u8>, NodeIndex)>::encoded(
                            t,
                        )).is_prefix_of(rest);
                    assert(Self::encoded(
                        VerboseView { msg: t.0, index: t.1 },
                    ).is_prefix_of(rest));
                }
                CodecError::new(String::new())
            },
        }
    }

    fn reads_in_bulk() -> (bulk: bool) {
        false
    }

    fn show(&self, out: &mut String) {
        let ghost start = out@;
        out.append("VerboseSignature { msg: ");
        self.msg.show(out);
        out.append(", index: ");
        self.index.show(out);
        out.append(" }");
        proof {
            assert(out@ =~= start + Self::shown(self.deep_view()));
        }
    }
}

impl VerboseSignature {
    pub fn new(msg: Vec<u8>, index: NodeIndex) -> (result: Self)
        ensures
            result.deep_view() == (VerboseView { msg: msg@, index }),
    {
        let ghost bytes = msg@;
        let result = VerboseSignature { msg, index };
        proof {
            assert(result.deep_view() =~= VerboseView { msg: bytes, index });
        }
        result
    }

    /// The signature under a message.
    pub fn of(message: &Vec<u8>, index: NodeIndex) -> (result: Self)
        ensures
            result.deep_view() == (VerboseView { msg: message@, index }),
    {
        let msg: Vec<u8> = message.copy();
        proof {
            assert(msg.deep_view() =~= msg@);
            assert(message.deep_view() =~= message@);
        }
        VerboseSignature::new(msg, index)
    }

    pub fn msg(&self) -> (msg: &Vec<u8>)
        ensures
            msg@ == self.deep_view().msg,
    {
        proof {
            assert(self.msg@ =~= self.msg.deep_view());
        }
        &self.msg
    }

    pub fn index(&self) -> (index: NodeIndex)
        ensures
            index == self.deep_view().index,
    {
        self.index
    }
}

/// Verbose signatures of several members.
pub type VerbosePartialMultisignature = SignatureSet<VerboseSignature>;

/// Keys that make verbose signatures.
pub struct VerboseKeyBox {
    count: NodeCount,
    index: NodeIndex,
}

impl VerboseKeyBox {
    pub fn new(count: NodeCount, index: NodeIndex) -> (result: Self)
        ensures
            result.node() == index,
            result.members() == count,
    {
        VerboseKeyBox { count, index }
    }
}

impl Keychain for VerboseKeyBox {
    type Signature = VerboseSignature;

    closed spec fn node(&self) -> NodeIndex {
        self.index
    }

    closed spec fn members(&self) -> NodeCount {
        self.count
    }

    open spec fn verifies(&self, message: Seq<u8>, signature: VerboseView, index: NodeIndex) -> bool {
        signature == (VerboseView { msg: message, index })
    }

    open spec fn signs(&self, message: Seq<u8>, signature: VerboseView) -> bool {
        signature == (VerboseView { msg: message, index: self.node() })
    }

    fn index(&self) -> (index: NodeIndex) {
        self.index
    }

    fn node_count(&self) -> (n: NodeCount) {
        self.count
    }

    fn sign(&self, message: &Vec<u8>) -> (signature: VerboseSignature) {
        VerboseSignature::of(message, self.index)
    }

    fn copy(&self) -> (other: Self) {
        VerboseKeyBox { count: self.count, index: self.index }
    }

    fn verify(&self, message: &Vec<u8>, signature: &VerboseSignature, index: NodeIndex) -> (result:
        bool) {
        let result: bool = index == signature.index && message.equals(&signature.msg);
        proof {
            assert(message.deep_view() =~= message@);
            let expected = VerboseView { msg: message@, index };
            if result {
                assert(signature.deep_view() =~= expected);
            }
        }
        result
    }
}

/// What is signed with verbose keys is correctly signed.
pub proof fn law_verbose_signatures_verify(
    signer: VerboseKeyBox,
    verifier: VerboseKeyBox,
    message: Seq<u8>,
    signature: VerboseView,
)
    requires
        signer.signs(message, signature),
    ensures
        verifier.verifies(message, signature, signer.node()),
        forall|other: Seq<u8>, index: NodeIndex| #[trigger]
            verifier.verifies(other, signature, index) ==> other == message && index
                == signer.node(),
{
}

} // verus!
