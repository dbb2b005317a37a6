//! Simple things to sign.
use crate::codec_error::CodecError;
use crate::crypto::Signable as SignableT;
use crate::data::{part_failure, Data, Encoding};
use crate::text::{append_named, named};
use vstd::prelude::*;

verus! {

/// A text to sign, as its bytes.
pub struct Signable(Vec<u8>);

impl DeepView for Signable {
    type V = Seq<u8>;

    closed spec fn deep_view(&self) -> Seq<u8> {
        self.0.deep_view()
    }
}

impl SignableT for Signable {
    open spec fn message_of(v: Seq<u8>) -> Seq<u8> {
        v
    }

    fn message(&self) -> (message: Vec<u8>) {
        let message: Vec<u8> = self.0.copy();
        proof {
            assert(message.deep_view() =~= message@);
        }
        message
    }
}

impl From<Vec<u8>> for Signable {
    fn from(x: Vec<u8>) -> (result: Self)
        ensures
            result.deep_view() == x@,
    {
        let result = Signable(x);
        proof {
            assert(result.deep_view() =~= x@);
        }
        result
    }
}

impl vstd::std_specs::convert::FromSpecImpl<Vec<u8>> for Signable {
    open spec fn obeys_from_spec() -> bool {
        true
    }

    closed spec fn from_spec(x: Vec<u8>) -> Self {
        Signable(x)
    }
}

/// A byte to sign.
#[derive(Clone, Copy, Debug, PartialEq, Eq, Structural, Hash)]
pub struct SignableByte(pub u8);

impl DeepView for SignableByte {
    type V = SignableByte;

    open spec fn deep_view(&self) -> SignableByte {
        *self
    }
}

impl SignableT for SignableByte {
    open spec fn message_of(v: SignableByte) -> Seq<u8> {
        seq![v.0]
    }

    fn message(&self) -> (message: Vec<u8>) {
        let mut message: Vec<u8> = Vec::new();
        message.push(self.0);
        proof {
            assert(message@ =~= seq![self.0]);
        }
        message
    }
}

impl From<u8> for SignableByte {
    fn from(x: u8) -> (result: Self)
        ensures
            result == SignableByte(x),
    {
        SignableByte(x)
    }
}

impl vstd::std_specs::convert::FromSpecImpl<u8> for SignableByte {
    open spec fn obeys_from_spec() -> bool {
        true
    }

    open spec fn from_spec(x: u8) -> Self {
        SignableByte(x)
    }
}

impl Encoding for SignableByte {
    open spec fn valid(v: SignableByte) -> bool {
        u8::valid(v.0)
    }

    open spec fn encoded(v: SignableByte) -> Seq<u8> {
        u8::encoded(v.0)
    }

    open spec fn failure(bytes: Seq<u8>) -> Seq<Seq<char>> {
        part_failure::<u8>("Could not decode `SignableByte.0`"@, bytes)
    }

    open spec fn in_bulk() -> bool {
        false
    }

    open spec fn shown(v: SignableByte) -> Seq<char> {
        named("SignableByte"@, v.0 as nat)
    }
}

impl Data for SignableByte {
    proof fn lemma_valid(&self) {
    }

    proof fn lemma_prefix_free(v: SignableByte, w: SignableByte, bytes: Seq<u8>) {
        u8::lemma_prefix_free(v.0, w.0, bytes);
    }

    fn copy(&self) -> (other: Self) {
        *self
    }

    fn equals(&self, other: &Self) -> (equal: bool) {
        self.0 == other.0
    }

    fn encode_to(&self, out: &mut Vec<u8>) {
        self.0.encode_to(out);
    }

    fn decode(input: &Vec<u8>, pos: usize) -> (result: Option<(Self, usize)>) {
        match u8::decode(input, pos) {
            Some((byte, end)) => Some((SignableByte(byte), end)),
            None => {
                proof {
                    let rest = input@.skip(pos as int);
                    assert forall|v: SignableByte| Self::valid(v) implies !(
                    #[trigger] Self::encoded(v)).is_prefix_of(rest) by {
                        assert(!u8::encoded(v.0).is_prefix_of(rest));
                    }
                }
                None
            },
        }
    }

    fn explain(input: &Vec<u8>, pos: usize) -> (error: CodecError) {
        proof {
            let rest = input@.skip(pos as int);
            assert forall|b: u8| !(#[trigger] u8::encoded(b)).is_prefix_of(rest) by {
                assert(!Self::encoded(SignableByte(b)).is_prefix_of(rest));
            }
        }
        u8::explain(input, pos).chain("Could not decode `SignableByte.0`")
    }

    fn reads_in_bulk() -> (bulk: bool) {
        false
    }

    fn show(&self, out: &mut String) {
        append_named(out, "SignableByte", self.0 as u64);
    }
}

} // verus!
