//! Keys that sign badly.
use crate::crypto::{same_keys, Keychain, MultiKeychain};
use crate::data::Data;
use crate::mock::threshold::ThresholdMultiKeychain;
use crate::mock::verbose::{
    VerboseKeyBox, VerbosePartialMultisignature, VerboseSignature, VerboseView,
};
use crate::nodes::{NodeCount, NodeIndex};
use vstd::prelude::*;

verus! {

/// Keys with verbose signatures and multisignatures.
pub trait MK: MultiKeychain<
    Signature = VerboseSignature,
    PartialMultisignature = VerbosePartialMultisignature,
> {

}

impl MK for ThresholdMultiKeychain<VerboseKeyBox> {

}

/// What is put in front of the message in a bad signature.
pub open spec fn bad_prefix() -> Seq<u8> {
    seq![66u8, 65u8, 68u8]
}

/// Keybox wrapper which produces incorrect signatures
pub struct BadSignatureWrapper<KB: MK> {
    key_box: KB,
}

/// Whether this is a signature of the keys, spoilt.
pub open spec fn spoilt<KB: MK>(key_box: KB, message: Seq<u8>, signature: VerboseView) -> bool {
    exists|good: VerboseView| #[trigger]
        key_box.signs(message, good) && signature == (VerboseView {
            msg: bad_prefix() + good.msg,
            index: good.index,
        })
}

/// The same keys have the same signatures to be spoilt.
proof fn lemma_same_spoilt<KB: MK>(one: KB, other: KB)
    requires
        same_keys(one, other),
    ensures
        forall|message: Seq<u8>, signature: VerboseView|
            #![trigger spoilt(one, message, signature)]
            #![trigger spoilt(other, message, signature)]
            spoilt(one, message, signature) == spoilt(other, message, signature),
{
    assert forall|message: Seq<u8>, signature: VerboseView|
        spoilt(one, message, signature) == #[trigger] spoilt(other, message, signature) by {
        if spoilt(one, message, signature) {
            let good = choose|good: VerboseView| #[trigger]
                one.signs(message, good) && signature == (VerboseView {
                    msg: bad_prefix() + good.msg,
                    index: good.index,
                });
            assert(other.signs(message, good));
        }
        if spoilt(other, message, signature) {
            let good = choose|good: VerboseView| #[trigger]
                other.signs(message, good) && signature == (VerboseView {
                    msg: bad_prefix() + good.msg,
                    index: good.index,
                });
            assert(one.signs(message, good));
        }
    }
}

impl<KB: MK> BadSignatureWrapper<KB> {
    /// The keys that the signatures are made with before they are spoilt.
    pub closed spec fn inner(&self) -> KB {
        self.key_box
    }
}

impl<KB: MK> From<KB> for BadSignatureWrapper<KB> {
    fn from(key_box: KB) -> (result: Self)
        ensures
            result.inner() == key_box,
    {
        BadSignatureWrapper { key_box }
    }
}

impl<KB: MK> vstd::std_specs::convert::FromSpecImpl<KB> for BadSignatureWrapper<KB> {
    open spec fn obeys_from_spec() -> bool {
        true
    }

    closed spec fn from_spec(key_box: KB) -> Self {
        BadSignatureWrapper { key_box }
    }
}

impl<KB: MK> Keychain for BadSignatureWrapper<KB> {
    type Signature = VerboseSignature;

    open spec fn node(&self) -> NodeIndex {
        self.inner().node()
    }

    open spec fn members(&self) -> NodeCount {
        self.inner().members()
    }

    open spec fn verifies(&self, message: Seq<u8>, signature: VerboseView, index: NodeIndex) -> bool {
        self.inner().verifies(message, signature, index)
    }

    open spec fn signs(&self, message: Seq<u8>, signature: VerboseView) -> bool {
        spoilt(self.inner(), message, signature)
    }

    fn index(&self) -> (index: NodeIndex) {
        self.key_box.index()
    }

    fn node_count(&self) -> (n: NodeCount) {
        self.key_box.node_count()
    }

    fn sign(&self, message: &Vec<u8>) -> (signature: VerboseSignature) {
        let good: VerboseSignature = self.key_box.sign(message);
        let mut msg: Vec<u8> = Vec::new();
        msg.push(66);
        msg.push(65);
        msg.push(68);
        let signed: &Vec<u8> = good.msg();
        let mut rest: Vec<u8> = signed.copy();
        proof {
            assert(rest.deep_view() =~= rest@);
            assert(signed.deep_view() =~= signed@);
        }
        msg.append(&mut rest);
        proof {
            assert(msg@ =~= bad_prefix() + good.deep_view().msg);
            assert(self.inner().signs(message@, good.deep_view()));
            assert(spoilt(self.inner(), message@, VerboseView {
                msg: msg@,
                index: good.deep_view().index,
            }));
        }
        VerboseSignature::new(msg, good.index())
    }

    fn copy(&self) -> (other: Self) {
        let other: Self = BadSignatureWrapper { key_box: self.key_box.copy() };
        proof {
            lemma_same_spoilt(self.inner(), other.inner());
        }
        other
    }

    fn verify(&self, message: &Vec<u8>, signature: &VerboseSignature, index: NodeIndex) -> (result:
        bool) {
        self.key_box.verify(message, signature, index)
    }
}

impl<KB: MK> MultiKeychain for BadSignatureWrapper<KB> {
    type PartialMultisignature = VerbosePartialMultisignature;

    open spec fn started(&self, signature: VerboseView, index: NodeIndex) -> Seq<
        Option<VerboseView>,
    > {
        self.inner().started(signature, index)
    }

    open spec fn completes(&self, message: Seq<u8>, partial: Seq<Option<VerboseView>>) -> bool {
        self.inner().completes(message, partial)
    }

    fn duplicate(&self) -> (other: Self) {
        let other: Self = BadSignatureWrapper { key_box: self.key_box.duplicate() };
        proof {
            lemma_same_spoilt(self.inner(), other.inner());
        }
        other
    }

    fn from_signature(&self, signature: &VerboseSignature, index: NodeIndex) -> (result:
        VerbosePartialMultisignature) {
        self.key_box.from_signature(signature, index)
    }

    fn is_complete(&self, message: &Vec<u8>, partial: &VerbosePartialMultisignature) -> (result:
        bool) {
        self.key_box.is_complete(message, partial)
    }
}

/// What these keys sign is never correctly signed.
pub proof fn law_bad_signatures_fail(
    signer: BadSignatureWrapper<ThresholdMultiKeychain<VerboseKeyBox>>,
    verifier: VerboseKeyBox,
    message: Seq<u8>,
    signature: VerboseView,
    index: NodeIndex,
)
    requires
        signer.signs(message, signature),
    ensures
        !verifier.verifies(message, signature, index),
{
    assert(signature.msg.len() == message.len() + 3);
}

} // verus!
