//! Sets of signatures, one per member.
use crate::codec_error::CodecError;
use crate::crypto::PartialMultisignature;
use crate::data::{part_failure, skip_part, Data, Encoding};
use crate::nodes;
use crate::nodes::{NodeCount, NodeIndex, NodeMap};
use vstd::prelude::*;
use vstd::string::StringExecFns;

verus! {

/// A set of signatures of different members under one message.
pub struct SignatureSet<S: Data> {
    signatures: NodeMap<S>,
}

impl<S: Data> DeepView for SignatureSet<S> {
    type V = Seq<Option<S::V>>;

    closed spec fn deep_view(&self) -> Seq<Option<S::V>> {
        self.signatures.deep_view()
    }
}

/// The set with one more signature; a signature of somebody who is no member is left out.
pub open spec fn added<T>(set: Seq<Option<T>>, signature: T, index: NodeIndex) -> Seq<Option<T>> {
    if index.0 < set.len() {
        set.update(index.0 as int, Some(signature))
    } else {
        set
    }
}

impl<S: Data> Encoding for SignatureSet<S> {
    open spec fn valid(v: Seq<Option<S::V>>) -> bool {
        <NodeMap<S>>::valid(v)
    }

    open spec fn encoded(v: Seq<Option<S::V>>) -> Seq<u8> {
        <NodeMap<S>>::encoded(v)
    }

    open spec fn failure(bytes: Seq<u8>) -> Seq<Seq<char>> {
        part_failure::<NodeMap<S>>(
            "Could not decode `SignatureSet.0`"@,
            bytes,
        )
    }

    open spec fn in_bulk() -> bool {
        false
    }

    open spec fn shown(v: Seq<Option<S::V>>) -> Seq<char> {
        "SignatureSet("@ + <NodeMap<S>>::shown(v) + ")"@
    }
}

impl<S: Data> Data for SignatureSet<S> {
    proof fn lemma_valid(&self) {
        self.signatures.lemma_valid();
    }

    proof fn lemma_prefix_free(v: Seq<Option<S::V>>, w: Seq<Option<S::V>>, bytes: Seq<u8>) {
        <NodeMap<S>>::lemma_prefix_free(v, w, bytes);
    }

    fn copy(&self) -> (other: Self) {
        SignatureSet {
            signatures: self.signatures.copy(),
        }
    }

    fn equals(&self, other: &Self) -> (equal: bool) {
        self.signatures.equals(&other.signatures)
    }

    fn encode_to(&self, out: &mut Vec<u8>) {
        let ghost start = out@;
        self.signatures.encode_to(out);
        proof {
            assert(out@ =~= start + Self::encoded(self.deep_view()));
        }
    }

    fn decode(input: &Vec<u8>, pos: usize) -> (result: Option<(Self, usize)>) {
        match <NodeMap<S>>::decode(input, pos) {
            Some((signatures, end)) => Some((SignatureSet { signatures }, end)),
            None => {
                proof {
                    let rest = input@.skip(pos as int);
                    assert forall|v: Seq<Option<S::V>>| Self::valid(v) implies !(
                    #[trigger] Self::encoded(v)).is_prefix_of(rest) by {
                        assert(!<NodeMap<S>>::encoded(v).is_prefix_of(rest));
                    }
                }
                None
            },
        }
    }

    fn explain(input: &Vec<u8>, pos: usize) -> (error: CodecError) {
        let ghost rest = input@.skip(pos as int);
        match skip_part::<NodeMap<S>>(
            input,
            pos,
            "Could not decode `SignatureSet.0`",
        ) {
            Err(error) => error,
            Ok(_) => {
                proof {
                    let t = choose|t: <NodeMap<S> as DeepView>::V|
                        <NodeMap<S>>::valid(t) && (#[trigger] <NodeMap<S>>::encoded(
                            t,
                        )).is_prefix_of(rest);
                    assert(Self::encoded(
                        t,
                    ).is_prefix_of(rest));
                }
                CodecError::new(String::new())
            },
        }
    }

    fn reads_in_bulk() -> (bulk: bool) {
        false
    }

    fn show(&self, out: &mut String) {
        let ghost start = out@;
        out.append("SignatureSet(");
        self.signatures.show(out);
        out.append(")");
        proof {
            assert(out@ =~= start + Self::shown(self.deep_view()));
        }
    }
}

impl<S: Data> PartialMultisignature for SignatureSet<S> {
    type Signature = S;

    open spec fn with_signature(
        v: Seq<Option<S::V>>,
        signature: S::V,
        index: NodeIndex,
    ) -> Seq<Option<S::V>> {
        added(v, signature, index)
    }

    fn add_signature(self, signature: &S, index: NodeIndex) -> (result: Self) {
        let mut signatures: NodeMap<S> = self.signatures;
        if index.0 < signatures.size().0 {
            signatures.insert(index, signature.copy());
        }
        SignatureSet { signatures }
    }
}

impl<S: Data> SignatureSet<S> {
    /// The empty set for a committee.
    pub fn with_size(n: NodeCount) -> (result: Self)
        ensures
            result.deep_view() == nodes::empty::<S::V>(n.0 as nat),
    {
        SignatureSet { signatures: NodeMap::with_size(n) }
    }

    /// The size of the committee.
    pub fn size(&self) -> (n: NodeCount)
        ensures
            n.0 == self.deep_view().len(),
    {
        self.signatures.size()
    }

    /// How many signatures there are.
    pub fn count(&self) -> (n: usize)
        ensures
            n == nodes::present(self.deep_view()).len(),
    {
        self.signatures.item_count()
    }

    /// The signature of a member.
    pub fn get(&self, index: NodeIndex) -> (signature: Option<&S>)
        ensures
            signature.deep_view() == nodes::at(self.deep_view(), index),
    {
        self.signatures.get(index)
    }
}

} // verus!
