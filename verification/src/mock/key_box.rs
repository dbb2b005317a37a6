//! Keys that sign nothing at all.
use crate::codec_error::CodecError;
use crate::crypto::{Keychain, MultiKeychain, PartialMultisignature as PartialMultisignatureT};
use crate::data::{part_failure, skip_part, Data, Encoding};
use crate::nodes::{NodeCount, NodeIndex};
use vstd::prelude::*;
use vstd::string::StringExecFns;

verus! {

/// An empty signature.
pub struct Signature {}

impl DeepView for Signature {
    type V = ();

    open spec fn deep_view(&self) -> () {
        ()
    }
}

impl Encoding for Signature {
    open spec fn valid(v: ()) -> bool {
        true
    }

    open spec fn encoded(v: ()) -> Seq<u8> {
        seq![]
    }

    open spec fn failure(bytes: Seq<u8>) -> Seq<Seq<char>> {
        seq![]
    }

    open spec fn in_bulk() -> bool {
        false
    }

    open spec fn shown(v: ()) -> Seq<char> {
        "Signature"@
    }
}

impl Data for Signature {
    proof fn lemma_valid(&self) {
    }

    proof fn lemma_prefix_free(v: (), w: (), bytes: Seq<u8>) {
    }

    fn copy(&self) -> (other: Self) {
        Signature {  }
    }

    fn equals(&self, other: &Self) -> (equal: bool) {
        true
    }

    fn encode_to(&self, out: &mut Vec<u8>) {
        proof {
            assert(out@ =~= out@ + Self::encoded(()));
        }
    }

    fn decode(input: &Vec<u8>, pos: usize) -> (result: Option<(Self, usize)>) {
        proof {
            assert(input@.subrange(pos as int, pos as int) =~= Self::encoded(()));
        }
        Some((Signature {  }, pos))
    }

    fn explain(input: &Vec<u8>, pos: usize) -> (error: CodecError) {
        proof {
            assert(Self::encoded(()).is_prefix_of(input@.skip(pos as int)));
        }
        CodecError::new(String::new())
    }

    fn reads_in_bulk() -> (bulk: bool) {
        false
    }

    fn show(&self, out: &mut String) {
        out.append("Signature");
    }
}

/// The members that have signed.
pub struct PartialMultisignature {
    signed_by: Vec<NodeIndex>,
}

impl DeepView for PartialMultisignature {
    type V = Seq<NodeIndex>;

    closed spec fn deep_view(&self) -> Seq<NodeIndex> {
        self.signed_by.deep_view()
    }
}

impl Encoding for PartialMultisignature {
    open spec fn valid(v: Seq<NodeIndex>) -> bool {
        <Vec<NodeIndex>>::valid(v)
    }

    open spec fn encoded(v: Seq<NodeIndex>) -> Seq<u8> {
        <Vec<NodeIndex>>::encoded(v)
    }

    open spec fn failure(bytes: Seq<u8>) -> Seq<Seq<char>> {
        part_failure::<Vec<NodeIndex>>(
            "Could not decode `PartialMultisignature::signed_by`"@,
            bytes,
        )
    }

    open spec fn in_bulk() -> bool {
        false
    }

    open spec fn shown(v: Seq<NodeIndex>) -> Seq<char> {
        "PartialMultisignature { signed_by: "@ + <Vec<NodeIndex>>::shown(v) + " }"@
    }
}

impl Data for PartialMultisignature {
    proof fn lemma_valid(&self) {
        self.signed_by.lemma_valid();
    }

    proof fn lemma_prefix_free(v: Seq<NodeIndex>, w: Seq<NodeIndex>, bytes: Seq<u8>) {
        <Vec<NodeIndex>>::lemma_prefix_free(v, w, bytes);
    }

    fn copy(&self) -> (other: Self) {
        PartialMultisignature {
            signed_by: self.signed_by.copy(),
        }
    }

    fn equals(&self, other: &Self) -> (equal: bool) {
        self.signed_by.equals(&other.signed_by)
    }

    fn encode_to(&self, out: &mut Vec<u8>) {
        let ghost start = out@;
        self.signed_by.encode_to(out);
        proof {
            assert(out@ =~= start + Self::encoded(self.deep_view()));
        }
    }

    fn decode(input: &Vec<u8>, pos: usize) -> (result: Option<(Self, usize)>) {
        match <Vec<NodeIndex>>::decode(input, pos) {
            Some((signed_by, end)) => Some((PartialMultisignature { signed_by }, end)),
            None => {
                proof {
                    let rest = input@.skip(pos as int);
                    assert forall|v: Seq<NodeIndex>| Self::valid(v) implies !(
                    #[trigger] Self::encoded(v)).is_prefix_of(rest) by {
                        assert(!<Vec<NodeIndex>>::encoded(v).is_prefix_of(rest));
                    }
                }
                None
            },
        }
    }

    fn explain(input: &Vec<u8>, pos: usize) -> (error: CodecError) {
        let ghost rest = input@.skip(pos as int);
        match skip_part::<Vec<NodeIndex>>(
            input,
            pos,
            "Could not decode `PartialMultisignature::signed_by`",
        ) {
            Err(error) => error,
            Ok(_) => {
                proof {
                    let t = choose|t: <Vec<NodeIndex> as DeepView>::V|
                        <Vec<NodeIndex>>::valid(t) && (#[trigger] <Vec<NodeIndex>>::encoded(
                            t,
                        )).is_prefix_of(rest);
                    assert(Self::encoded(
                        t,
                    ).is_prefix_of(rest));
                }
                CodecError::new(String::new())
            },
        }
    }

    fn reads_in_bulk() -> (bulk: bool) {
        false
    }

    fn show(&self, out: &mut String) {
        let ghost start = out@;
        out.append("PartialMultisignature { signed_by: ");
        self.signed_by.show(out);
        out.append(" }");
        proof {
            assert(out@ =~= start + Self::shown(self.deep_view()));
        }
    }
}

/// The members that have signed, and one more unless it is there already.
pub open spec fn also_by(signed_by: Seq<NodeIndex>, index: NodeIndex) -> Seq<NodeIndex> {
    if signed_by.contains(index) {
        signed_by
    } else {
        signed_by.push(index)
    }
}

impl PartialMultisignatureT for PartialMultisignature {
    type Signature = Signature;

    open spec fn with_signature(v: Seq<NodeIndex>, signature: (), index: NodeIndex) -> Seq<
        NodeIndex,
    > {
        also_by(v, index)
    }

    fn add_signature(self, signature: &Signature, index: NodeIndex) -> (result: Self) {
        let ghost before = self.deep_view();
        let mut signed_by: Vec<NodeIndex> = self.signed_by;
        let n: usize = signed_by.len();
        for i in 0..n
            invariant
                n == signed_by@.len(),
                before == self.deep_view(),
                before == signed_by.deep_view(),
                forall|j: int| 0 <= j < i ==> #[trigger] before[j] != index,
        {
            if signed_by[i] == index {
                proof {
                    assert(before[i as int] == index);
                    assert(before.contains(index));
                }
                return PartialMultisignature { signed_by };
            }
        }
        proof {
            assert(!before.contains(index));
        }
        signed_by.push(index);
        proof {
            assert(signed_by.deep_view() =~= before.push(index));
        }
        PartialMultisignature { signed_by }
    }
}

/// Keys that sign nothing at all and accept everything.
pub struct KeyBox {
    count: NodeCount,
    ix: NodeIndex,
}

impl KeyBox {
    pub fn new(count: NodeCount, ix: NodeIndex) -> (result: Self)
        ensures
            result.node() == ix,
            result.members() == count,
    {
        KeyBox { count, ix }
    }
}

impl Keychain for KeyBox {
    type Signature = Signature;

    closed spec fn node(&self) -> NodeIndex {
        self.ix
    }

    closed spec fn members(&self) -> NodeCount {
        self.count
    }

    open spec fn verifies(&self, message: Seq<u8>, signature: (), index: NodeIndex) -> bool {
        true
    }

    open spec fn signs(&self, message: Seq<u8>, signature: ()) -> bool {
        true
    }

    fn index(&self) -> (index: NodeIndex) {
        self.ix
    }

    fn node_count(&self) -> (n: NodeCount) {
        self.count
    }

    fn sign(&self, message: &Vec<u8>) -> (signature: Signature) {
        Signature {  }
    }

    fn copy(&self) -> (other: Self) {
        KeyBox { count: self.count, ix: self.ix }
    }

    fn verify(&self, message: &Vec<u8>, signature: &Signature, index: NodeIndex) -> (result: bool) {
        true
    }
}

impl MultiKeychain for KeyBox {
    type PartialMultisignature = PartialMultisignature;

    open spec fn started(&self, signature: (), index: NodeIndex) -> Seq<NodeIndex> {
        seq![index]
    }

    open spec fn completes(&self, message: Seq<u8>, partial: Seq<NodeIndex>) -> bool {
        (self.members().0 * 2) / 3 < partial.len()
    }

    fn duplicate(&self) -> (other: Self) {
        self.copy()
    }

    fn from_signature(&self, signature: &Signature, index: NodeIndex) -> (result:
        PartialMultisignature) {
        let mut signed_by: Vec<NodeIndex> = Vec::new();
        signed_by.push(index);
        proof {
            assert(signed_by.deep_view() =~= seq![index]);
        }
        PartialMultisignature { signed_by }
    }

    fn is_complete(&self, message: &Vec<u8>, partial: &PartialMultisignature) -> (result: bool) {
        (self.count.0 as u128 * 2) / 3 < partial.signed_by.len() as u128
    }
}

} // verus!
