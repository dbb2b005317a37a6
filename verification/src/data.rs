//! Values that units carry: they can be copied, compared and encoded.
use crate::codec_error::{short_input, CodecError};
use crate::scale;
use crate::scale::{
    compact_len, decode_compact, decode_length, decode_u16, decode_u32, decode_u64, encode_compact,
    encode_u16, encode_u32, encode_u64,
};
use crate::text::{append_decimal, decimal, join, joined};
use vstd::prelude::*;
use vstd::string::StringExecFns;

verus! {

/// What `decode` owes: the value whose encoding starts at `pos` and the place behind it, or
/// nothing if no value is encoded there.
pub open spec fn decodes<T: Encoding>(input: Seq<u8>, pos: int, result: Option<(T, usize)>) -> bool {
    match result {
        Some((value, end)) => {
            &&& pos <= end <= input.len()
            &&& input.subrange(pos, end as int) == T::encoded(value.deep_view())
        },
        None => no_encoding::<T>(input.skip(pos)),
    }
}

/// No value's encoding is a beginning of `bytes`.
pub open spec fn no_encoding<T: Encoding>(bytes: Seq<u8>) -> bool {
    forall|v: T::V| T::valid(v) ==> !(#[trigger] T::encoded(v)).is_prefix_of(bytes)
}

/// What follows the value that `bytes` begin with.
pub open spec fn behind<T: Encoding>(bytes: Seq<u8>) -> Seq<u8> {
    let v = choose|v: T::V| T::valid(v) && (#[trigger] T::encoded(v)).is_prefix_of(bytes);
    bytes.skip(T::encoded(v).len() as int)
}

/// Why a part of a value cannot be read, under the name of the part.
pub open spec fn part_failure<T: Encoding>(name: Seq<char>, bytes: Seq<u8>) -> Seq<Seq<char>> {
    seq![name] + T::failure(bytes)
}

/// Why a list of `n` items cannot be read: what is wrong with the first wrong one.
pub open spec fn items_failure<T: Encoding>(bytes: Seq<u8>, n: nat) -> Seq<Seq<char>>
    decreases n,
{
    if n == 0 || no_encoding::<T>(bytes) {
        T::failure(bytes)
    } else {
        items_failure::<T>(behind::<T>(bytes), (n - 1) as nat)
    }
}

/// The items of a list as text, with commas between them.
pub open spec fn shown_items<T: Encoding>(items: Seq<T::V>) -> Seq<char> {
    joined(items.map_values(|v: T::V| T::shown(v)), ", "@)
}

/// How the values of a type are written as bytes and as text.
pub trait Encoding: DeepView + Sized {
    /// Whether a model is that of some value.
    spec fn valid(v: Self::V) -> bool;

    /// The bytes of a value.
    spec fn encoded(v: Self::V) -> Seq<u8>;

    /// What is wrong with bytes that do not begin with the encoding of a value, from the whole
    /// value down to the wrong part.
    spec fn failure(bytes: Seq<u8>) -> Seq<Seq<char>>;

    /// Whether lists of these values are read as one piece of known length.
    spec fn in_bulk() -> bool;

    /// A value as text for debugging.
    spec fn shown(v: Self::V) -> Seq<char>;
}

/// A value with a copy, an equality and a self-delimiting encoding, all taken on its model.
pub trait Data: Encoding {
    /// Every value has a valid model.
    proof fn lemma_valid(&self)
        ensures
            Self::valid(self.deep_view()),
    ;

    /// Bytes begin with the encoding of at most one value.
    proof fn lemma_prefix_free(v: Self::V, w: Self::V, bytes: Seq<u8>)
        requires
            Self::valid(v),
            Self::valid(w),
            Self::encoded(v).is_prefix_of(bytes),
            Self::encoded(w).is_prefix_of(bytes),
        ensures
            v == w,
    ;

    /// Another value with the same model.
    fn copy(&self) -> (other: Self)
        ensures
            other.deep_view() == self.deep_view(),
    ;

    /// Whether two values have the same model.
    fn equals(&self, other: &Self) -> (equal: bool)
        ensures
            equal == (self.deep_view() == other.deep_view()),
    ;

    /// Appends the encoding.
    fn encode_to(&self, out: &mut Vec<u8>)
        ensures
            final(out)@ == old(out)@ + Self::encoded(self.deep_view()),
    ;

    /// Reads the value encoded at `pos`.
    fn decode(input: &Vec<u8>, pos: usize) -> (result: Option<(Self, usize)>)
        requires
            pos <= input@.len(),
        ensures
            decodes::<Self>(input@, pos as int, result),
    ;

    /// Why no value can be read at `pos`.
    fn explain(input: &Vec<u8>, pos: usize) -> (error: CodecError)
        requires
            pos <= input@.len(),
            no_encoding::<Self>(input@.skip(pos as int)),
        ensures
            error@ == Self::failure(input@.skip(pos as int)),
    ;

    /// Whether lists of these values are read as one piece of known length.
    fn reads_in_bulk() -> (bulk: bool)
        ensures
            bulk == Self::in_bulk(),
    ;

    /// Appends the text for debugging.
    fn show(&self, out: &mut String)
        ensures
            final(out)@ == old(out)@ + Self::shown(self.deep_view()),
    ;

    /// The text for debugging on its own.
    fn debug(&self) -> (text: String)
        ensures
            text@ == Self::shown(self.deep_view()),
    {
        let mut out: String = String::new();
        self.show(&mut out);
        proof {
            assert(out@ =~= Self::shown(self.deep_view()));
        }
        out
    }

    /// The encoding on its own.
    fn encode(&self) -> (bytes: Vec<u8>)
        ensures
            bytes@ == Self::encoded(self.deep_view()),
    {
        let mut out: Vec<u8> = Vec::new();
        self.encode_to(&mut out);
        proof {
            assert(out@ =~= Self::encoded(self.deep_view()));
        }
        out
    }
}

/// The place behind the part that stands at `pos`, or why there is none.
pub fn skip_part<T: Data>(input: &Vec<u8>, pos: usize, name: &str) -> (result: Result<
    usize,
    CodecError,
>)
    requires
        pos <= input@.len(),
    ensures
        match result {
            Ok(end) => {
                &&& pos <= end <= input@.len()
                &&& !no_encoding::<T>(input@.skip(pos as int))
                &&& input@.skip(end as int) == behind::<T>(input@.skip(pos as int))
            },
            Err(error) => {
                &&& no_encoding::<T>(input@.skip(pos as int))
                &&& error@ == part_failure::<T>(name@, input@.skip(pos as int))
            },
        },
{
    match T::decode(input, pos) {
        Some((value, end)) => {
            proof {
                lemma_behind::<T>(input@, pos as int, value, end as int);
            }
            Ok(end)
        },
        None => Err(T::explain(input, pos).chain(name)),
    }
}

/// Appends a value in brackets behind a name.
pub fn show_variant<T: Data>(out: &mut String, name: &str, value: &T)
    ensures
        final(out)@ == old(out)@ + (name@ + "("@ + T::shown(value.deep_view()) + ")"@),
{
    let ghost start = out@;
    out.append(name);
    out.append("(");
    value.show(out);
    out.append(")");
    proof {
        assert(out@ =~= start + (name@ + "("@ + T::shown(value.deep_view()) + ")"@));
    }
}

/// What follows a value that was read.
pub proof fn lemma_behind<T: Data>(input: Seq<u8>, pos: int, value: T, end: int)
    requires
        0 <= pos <= end <= input.len(),
        input.subrange(pos, end) == T::encoded(value.deep_view()),
    ensures
        !no_encoding::<T>(input.skip(pos)),
        input.skip(end) == behind::<T>(input.skip(pos)),
{
    let rest = input.skip(pos);
    let v = value.deep_view();
    value.lemma_valid();
    lemma_subrange_prefix(input, pos, end, T::encoded(v));
    let w = choose|w: T::V| T::valid(w) && (#[trigger] T::encoded(w)).is_prefix_of(rest);
    T::lemma_prefix_free(v, w, rest);
}

/// Bytes that begin with one value, followed by another, begin with the pair.
pub proof fn lemma_both_encoded<A: Data, B: Data>(bytes: Seq<u8>)
    requires
        !no_encoding::<A>(bytes),
        !no_encoding::<B>(behind::<A>(bytes)),
    ensures
        !no_encoding::<(A, B)>(bytes),
{
    let v = choose|v: A::V| A::valid(v) && (#[trigger] A::encoded(v)).is_prefix_of(bytes);
    let w = choose|w: B::V|
        B::valid(w) && (#[trigger] B::encoded(w)).is_prefix_of(behind::<A>(bytes));
    lemma_concat_prefix(A::encoded(v), B::encoded(w), bytes);
    assert(<(A, B) as Encoding>::encoded((v, w)).is_prefix_of(bytes));
}

/// Reading where a value was written gives the value back, and the place behind it, whatever
/// bytes stand before and after.
pub proof fn law_decode_of_encode<T: Data>(
    before: Seq<u8>,
    value: T,
    after: Seq<u8>,
    result: Option<(T, usize)>,
)
    requires
        decodes::<T>(
            before + T::encoded(value.deep_view()) + after,
            before.len() as int,
            result,
        ),
    ensures
        result matches Some((read, end)) && read.deep_view() == value.deep_view() && end
            == before.len() + T::encoded(value.deep_view()).len(),
{
    let v = value.deep_view();
    let input = before + T::encoded(v) + after;
    let rest = input.skip(before.len() as int);
    value.lemma_valid();
    assert(T::encoded(v).is_prefix_of(rest));
    match result {
        Some((read, end)) => {
            let w = read.deep_view();
            read.lemma_valid();
            assert(rest.subrange(0, end - before.len()) =~= input.subrange(
                before.len() as int,
                end as int,
            ));
            assert(T::encoded(w).is_prefix_of(rest));
            T::lemma_prefix_free(v, w, rest);
        },
        None => {},
    }
}

/// Values are equal exactly if their encodings are.
pub proof fn law_encoding_injective<T: Data>(v: T::V, w: T::V)
    requires
        T::valid(v),
        T::valid(w),
    ensures
        T::encoded(v) == T::encoded(w) <==> v == w,
{
    if T::encoded(v) == T::encoded(w) {
        let bytes = T::encoded(v);
        assert(bytes.is_prefix_of(bytes));
        T::lemma_prefix_free(v, w, bytes);
    }
}

/// What stands first in a beginning stands first in the whole, the rest follows.
pub proof fn lemma_concat_prefix(a: Seq<u8>, b: Seq<u8>, bytes: Seq<u8>)
    ensures
        (a + b).is_prefix_of(bytes) <==> a.is_prefix_of(bytes) && b.is_prefix_of(
            bytes.skip(a.len() as int),
        ),
{
    let ab = a + b;
    if ab.is_prefix_of(bytes) {
        assert(a =~= bytes.subrange(0, a.len() as int)) by {
            assert forall|i: int| 0 <= i < a.len() implies a[i] == bytes[i] by {
                assert(ab[i] == bytes.subrange(0, ab.len() as int)[i]);
            }
        }
        assert(b =~= bytes.skip(a.len() as int).subrange(0, b.len() as int)) by {
            assert forall|i: int| 0 <= i < b.len() implies b[i] == bytes[a.len() + i] by {
                assert(ab[a.len() + i] == bytes.subrange(0, ab.len() as int)[a.len() + i]);
            }
        }
    }
    if a.is_prefix_of(bytes) && b.is_prefix_of(bytes.skip(a.len() as int)) {
        assert(ab =~= bytes.subrange(0, ab.len() as int)) by {
            assert forall|i: int| 0 <= i < ab.len() implies ab[i] == bytes[i] by {
                if i < a.len() {
                    assert(a[i] == bytes.subrange(0, a.len() as int)[i]);
                } else {
                    assert(b[i - a.len()] == bytes.skip(a.len() as int).subrange(
                        0,
                        b.len() as int,
                    )[i - a.len()]);
                }
            }
        }
    }
}

/// A part of the input, seen from the place where it starts.
pub proof fn lemma_subrange_prefix(input: Seq<u8>, pos: int, end: int, part: Seq<u8>)
    requires
        0 <= pos <= end <= input.len(),
    ensures
        input.subrange(pos, end) == part <==> part.len() == end - pos && part.is_prefix_of(
            input.skip(pos),
        ),
        input.skip(pos).skip(end - pos) == input.skip(end),
{
    assert(input.skip(pos).subrange(0, end - pos) =~= input.subrange(pos, end));
    assert(input.skip(pos).skip(end - pos) =~= input.skip(end));
}

/// Reading a pair: the second part is read where the first one ends.
pub proof fn lemma_decode_pair<A: Data, B: Data>(
    input: Seq<u8>,
    pos: int,
    first: Option<(A, usize)>,
    second: Option<(B, usize)>,
)
    requires
        0 <= pos <= input.len(),
        decodes::<A>(input, pos, first),
        first matches Some((_, mid)) ==> decodes::<B>(input, mid as int, second),
    ensures
        match (first, second) {
            (Some((a, _)), Some((b, end))) => {
                &&& pos <= end <= input.len()
                &&& input.subrange(pos, end as int) == A::encoded(a.deep_view()) + B::encoded(
                    b.deep_view(),
                )
            },
            _ => forall|v: A::V, w: B::V|
                A::valid(v) && B::valid(w) ==> !(#[trigger] A::encoded(v)
                    + #[trigger] B::encoded(w)).is_prefix_of(input.skip(pos)),
        },
{
    let rest = input.skip(pos);
    match first {
        None => {
            assert forall|v: A::V, w: B::V| A::valid(v) && B::valid(w) implies !(
            #[trigger] A::encoded(v) + #[trigger] B::encoded(w)).is_prefix_of(rest) by {
                lemma_concat_prefix(A::encoded(v), B::encoded(w), rest);
            }
        },
        Some((a, mid)) => {
            let ea = A::encoded(a.deep_view());
            a.lemma_valid();
            lemma_subrange_prefix(input, pos, mid as int, ea);
            match second {
                Some((b, end)) => {
                    let eb = B::encoded(b.deep_view());
                    assert(input.subrange(pos, end as int) =~= input.subrange(pos, mid as int)
                        + input.subrange(mid as int, end as int));
                },
                None => {
                    assert forall|v: A::V, w: B::V| A::valid(v) && B::valid(w) implies !(
                    #[trigger] A::encoded(v) + #[trigger] B::encoded(w)).is_prefix_of(rest) by {
                        lemma_concat_prefix(A::encoded(v), B::encoded(w), rest);
                        if (A::encoded(v) + B::encoded(w)).is_prefix_of(rest) {
                            A::lemma_prefix_free(v, a.deep_view(), rest);
                        }
                    }
                },
            }
        },
    }
}

/// Pairs of self-delimiting encodings are self-delimiting.
pub proof fn lemma_pair_prefix_free<A: Data, B: Data>(
    v: (A::V, B::V),
    w: (A::V, B::V),
    bytes: Seq<u8>,
)
    requires
        A::valid(v.0),
        B::valid(v.1),
        A::valid(w.0),
        B::valid(w.1),
        (A::encoded(v.0) + B::encoded(v.1)).is_prefix_of(bytes),
        (A::encoded(w.0) + B::encoded(w.1)).is_prefix_of(bytes),
    ensures
        v == w,
{
    lemma_concat_prefix(A::encoded(v.0), B::encoded(v.1), bytes);
    lemma_concat_prefix(A::encoded(w.0), B::encoded(w.1), bytes);
    A::lemma_prefix_free(v.0, w.0, bytes);
    B::lemma_prefix_free(v.1, w.1, bytes.skip(A::encoded(v.0).len() as int));
}

impl Encoding for u8 {
    open spec fn valid(v: u8) -> bool {
        true
    }

    open spec fn encoded(v: u8) -> Seq<u8> {
        seq![v]
    }

    open spec fn failure(bytes: Seq<u8>) -> Seq<Seq<char>> {
        seq![short_input()]
    }

    open spec fn in_bulk() -> bool {
        true
    }

    open spec fn shown(v: u8) -> Seq<char> {
        decimal(v as nat)
    }
}

impl Data for u8 {
    proof fn lemma_valid(&self) {
    }

    proof fn lemma_prefix_free(v: u8, w: u8, bytes: Seq<u8>) {
        assert(seq![v][0] == bytes[0]);
        assert(seq![w][0] == bytes[0]);
    }

    fn copy(&self) -> (other: Self) {
        *self
    }

    fn equals(&self, other: &Self) -> (equal: bool) {
        *self == *other
    }

    fn encode_to(&self, out: &mut Vec<u8>) {
        out.push(*self);
        proof {
            assert(out@ =~= old(out)@ + seq![*self]);
        }
    }

    fn decode(input: &Vec<u8>, pos: usize) -> (result: Option<(Self, usize)>) {
        if pos < input.len() {
            proof {
                assert(input@.subrange(pos as int, pos + 1) =~= seq![input@[pos as int]]);
            }
            Some((input[pos], pos + 1))
        } else {
            proof {
                assert(input@.skip(pos as int).len() == 0);
            }
            None
        }
    }

    fn explain(input: &Vec<u8>, pos: usize) -> (error: CodecError) {
        CodecError::new(String::from_str("Not enough data to fill buffer"))
    }

    fn reads_in_bulk() -> (bulk: bool) {
        true
    }

    fn show(&self, out: &mut String) {
        append_decimal(out, *self as u64);
    }
}

impl Encoding for u16 {
    open spec fn valid(v: u16) -> bool {
        true
    }

    open spec fn encoded(v: u16) -> Seq<u8> {
        scale::le_bytes(v as nat, 2)
    }

    open spec fn failure(bytes: Seq<u8>) -> Seq<Seq<char>> {
        seq![short_input()]
    }

    open spec fn in_bulk() -> bool {
        true
    }

    open spec fn shown(v: u16) -> Seq<char> {
        decimal(v as nat)
    }
}

impl Data for u16 {
    proof fn lemma_valid(&self) {
    }

    proof fn lemma_prefix_free(v: u16, w: u16, bytes: Seq<u8>) {
        scale::lemma_le_bytes_len(v as nat, 2);
        scale::lemma_le_bytes_len(w as nat, 2);
        scale::lemma_prefixes_equal(scale::le_bytes(v as nat, 2), scale::le_bytes(w as nat, 2), bytes);
        scale::lemma_byte_limits();
        scale::lemma_le_bytes_injective(v as nat, w as nat, 2);
    }

    fn copy(&self) -> (other: Self) {
        *self
    }

    fn equals(&self, other: &Self) -> (equal: bool) {
        *self == *other
    }

    fn encode_to(&self, out: &mut Vec<u8>) {
        let mut bytes: Vec<u8> = encode_u16(*self);
        out.append(&mut bytes);
    }

    fn decode(input: &Vec<u8>, pos: usize) -> (result: Option<(Self, usize)>) {
        match decode_u16(input, pos) {
            Ok(value) => {
                proof {
                    scale::lemma_le_bytes_len(value as nat, 2);
                    lemma_subrange_prefix(
                        input@,
                        pos as int,
                        pos + 2,
                        scale::le_bytes(value as nat, 2),
                    );
                    assert(pos + 2 <= input.len());
                }
                Some((value, pos + 2))
            },
            Err(_) => {
                proof {
                    assert forall|v: u16| !(#[trigger] Self::encoded(v)).is_prefix_of(
                        input@.skip(pos as int),
                    ) by {
                        scale::lemma_le_bytes_len(v as nat, 2);
                    }
                }
                None
            },
        }
    }

    fn explain(input: &Vec<u8>, pos: usize) -> (error: CodecError) {
        match decode_u16(input, pos) {
            Err(text) => CodecError::new(text),
            Ok(value) => {
                proof {
                    assert(Self::encoded(value).is_prefix_of(input@.skip(pos as int)));
                }
                CodecError::new(String::new())
            },
        }
    }

    fn reads_in_bulk() -> (bulk: bool) {
        true
    }

    fn show(&self, out: &mut String) {
        append_decimal(out, *self as u64);
    }
}

impl Encoding for u32 {
    open spec fn valid(v: u32) -> bool {
        true
    }

    open spec fn encoded(v: u32) -> Seq<u8> {
        scale::le_bytes(v as nat, 4)
    }

    open spec fn failure(bytes: Seq<u8>) -> Seq<Seq<char>> {
        seq![short_input()]
    }

    open spec fn in_bulk() -> bool {
        true
    }

    open spec fn shown(v: u32) -> Seq<char> {
        decimal(v as nat)
    }
}

impl Data for u32 {
    proof fn lemma_valid(&self) {
    }

    proof fn lemma_prefix_free(v: u32, w: u32, bytes: Seq<u8>) {
        scale::lemma_le_bytes_len(v as nat, 4);
        scale::lemma_le_bytes_len(w as nat, 4);
        scale::lemma_prefixes_equal(scale::le_bytes(v as nat, 4), scale::le_bytes(w as nat, 4), bytes);
        scale::lemma_byte_limits();
        scale::lemma_le_bytes_injective(v as nat, w as nat, 4);
    }

    fn copy(&self) -> (other: Self) {
        *self
    }

    fn equals(&self, other: &Self) -> (equal: bool) {
        *self == *other
    }

    fn encode_to(&self, out: &mut Vec<u8>) {
        let mut bytes: Vec<u8> = encode_u32(*self);
        out.append(&mut bytes);
    }

    fn decode(input: &Vec<u8>, pos: usize) -> (result: Option<(Self, usize)>) {
        match decode_u32(input, pos) {
            Ok(value) => {
                proof {
                    scale::lemma_le_bytes_len(value as nat, 4);
                    lemma_subrange_prefix(
                        input@,
                        pos as int,
                        pos + 4,
                        scale::le_bytes(value as nat, 4),
                    );
                    assert(pos + 4 <= input.len());
                }
                Some((value, pos + 4))
            },
            Err(_) => {
                proof {
                    assert forall|v: u32| !(#[trigger] Self::encoded(v)).is_prefix_of(
                        input@.skip(pos as int),
                    ) by {
                        scale::lemma_le_bytes_len(v as nat, 4);
                    }
                }
                None
            },
        }
    }

    fn explain(input: &Vec<u8>, pos: usize) -> (error: CodecError) {
        match decode_u32(input, pos) {
            Err(text) => CodecError::new(text),
            Ok(value) => {
                proof {
                    assert(Self::encoded(value).is_prefix_of(input@.skip(pos as int)));
                }
                CodecError::new(String::new())
            },
        }
    }

    fn reads_in_bulk() -> (bulk: bool) {
        true
    }

    fn show(&self, out: &mut String) {
        append_decimal(out, *self as u64);
    }
}

impl Encoding for u64 {
    open spec fn valid(v: u64) -> bool {
        true
    }

    open spec fn encoded(v: u64) -> Seq<u8> {
        scale::le_bytes(v as nat, 8)
    }

    open spec fn failure(bytes: Seq<u8>) -> Seq<Seq<char>> {
        seq![short_input()]
    }

    open spec fn in_bulk() -> bool {
        true
    }

    open spec fn shown(v: u64) -> Seq<char> {
        decimal(v as nat)
    }
}

impl Data for u64 {
    proof fn lemma_valid(&self) {
    }

    proof fn lemma_prefix_free(v: u64, w: u64, bytes: Seq<u8>) {
        scale::lemma_le_bytes_len(v as nat, 8);
        scale::lemma_le_bytes_len(w as nat, 8);
        scale::lemma_prefixes_equal(scale::le_bytes(v as nat, 8), scale::le_bytes(w as nat, 8), bytes);
        scale::lemma_byte_limits();
        scale::lemma_le_bytes_injective(v as nat, w as nat, 8);
    }

    fn copy(&self) -> (other: Self) {
        *self
    }

    fn equals(&self, other: &Self) -> (equal: bool) {
        *self == *other
    }

    fn encode_to(&self, out: &mut Vec<u8>) {
        let mut bytes: Vec<u8> = encode_u64(*self);
        out.append(&mut bytes);
    }

    fn decode(input: &Vec<u8>, pos: usize) -> (result: Option<(Self, usize)>) {
        match decode_u64(input, pos) {
            Ok(value) => {
                proof {
                    scale::lemma_le_bytes_len(value as nat, 8);
                    lemma_subrange_prefix(
                        input@,
                        pos as int,
                        pos + 8,
                        scale::le_bytes(value as nat, 8),
                    );
                    assert(pos + 8 <= input.len());
                }
                Some((value, pos + 8))
            },
            Err(_) => {
                proof {
                    assert forall|v: u64| !(#[trigger] Self::encoded(v)).is_prefix_of(
                        input@.skip(pos as int),
                    ) by {
                        scale::lemma_le_bytes_len(v as nat, 8);
                    }
                }
                None
            },
        }
    }

    fn explain(input: &Vec<u8>, pos: usize) -> (error: CodecError) {
        match decode_u64(input, pos) {
            Err(text) => CodecError::new(text),
            Ok(value) => {
                proof {
                    assert(Self::encoded(value).is_prefix_of(input@.skip(pos as int)));
                }
                CodecError::new(String::new())
            },
        }
    }

    fn reads_in_bulk() -> (bulk: bool) {
        true
    }

    fn show(&self, out: &mut String) {
        append_decimal(out, *self as u64);
    }
}

impl Encoding for bool {
    open spec fn valid(v: bool) -> bool {
        true
    }

    open spec fn encoded(v: bool) -> Seq<u8> {
        seq![if v { 1u8 } else { 0u8 }]
    }

    open spec fn failure(bytes: Seq<u8>) -> Seq<Seq<char>> {
        if bytes.len() == 0 {
            seq![short_input()]
        } else {
            seq!["Invalid boolean representation"@]
        }
    }

    open spec fn in_bulk() -> bool {
        false
    }

    open spec fn shown(v: bool) -> Seq<char> {
        if v {
            "true"@
        } else {
            "false"@
        }
    }
}

impl Data for bool {
    proof fn lemma_valid(&self) {
    }

    proof fn lemma_prefix_free(v: bool, w: bool, bytes: Seq<u8>) {
        assert(Self::encoded(v)[0] == bytes[0]);
        assert(Self::encoded(w)[0] == bytes[0]);
    }

    fn copy(&self) -> (other: Self) {
        *self
    }

    fn equals(&self, other: &Self) -> (equal: bool) {
        *self == *other
    }

    fn encode_to(&self, out: &mut Vec<u8>) {
        let byte: u8 = if *self { 1 } else { 0 };
        byte.encode_to(out);
    }

    fn decode(input: &Vec<u8>, pos: usize) -> (result: Option<(Self, usize)>) {
        if pos < input.len() && input[pos] <= 1 {
            proof {
                let value = input@[pos as int] == 1;
                assert(input@.subrange(pos as int, pos + 1) =~= Self::encoded(value));
            }
            Some((input[pos] == 1, pos + 1))
        } else {
            proof {
                let rest = input@.skip(pos as int);
                assert forall|v: bool| !(#[trigger] Self::encoded(v)).is_prefix_of(rest) by {
                    if Self::encoded(v).is_prefix_of(rest) {
                        assert(Self::encoded(v)[0] == rest[0]);
                    }
                }
            }
            None
        }
    }

    fn explain(input: &Vec<u8>, pos: usize) -> (error: CodecError) {
        if pos == input.len() {
            CodecError::new(String::from_str("Not enough data to fill buffer"))
        } else {
            CodecError::new(String::from_str("Invalid boolean representation"))
        }
    }

    fn reads_in_bulk() -> (bulk: bool) {
        false
    }

    fn show(&self, out: &mut String) {
        if *self {
            out.append("true");
        } else {
            out.append("false");
        }
    }
}

impl<T: Encoding> Encoding for Option<T> {
    open spec fn valid(v: Option<T::V>) -> bool {
        v matches Some(x) ==> T::valid(x)
    }

    open spec fn encoded(v: Option<T::V>) -> Seq<u8> {
        match v {
            Some(x) => seq![1u8] + T::encoded(x),
            None => seq![0u8],
        }
    }

    open spec fn failure(bytes: Seq<u8>) -> Seq<Seq<char>> {
        if bytes.len() == 0 {
            seq!["Could not decode variant byte for `Option`"@, short_input()]
        } else if bytes[0] == 1 {
            part_failure::<T>("Could not decode `Option::Some(T)`"@, bytes.skip(1))
        } else {
            seq!["unexpected first byte decoding Option"@]
        }
    }

    open spec fn in_bulk() -> bool {
        false
    }

    open spec fn shown(v: Option<T::V>) -> Seq<char> {
        match v {
            Some(x) => "Some("@ + T::shown(x) + ")"@,
            None => "None"@,
        }
    }
}

impl<T: Data> Data for Option<T> {
    proof fn lemma_valid(&self) {
        match self {
            Some(x) => x.lemma_valid(),
            None => {},
        }
    }

    proof fn lemma_prefix_free(v: Option<T::V>, w: Option<T::V>, bytes: Seq<u8>) {
        assert(Self::encoded(v)[0] == bytes[0]);
        assert(Self::encoded(w)[0] == bytes[0]);
        match (v, w) {
            (Some(x), Some(y)) => {
                lemma_concat_prefix(seq![1u8], T::encoded(x), bytes);
                lemma_concat_prefix(seq![1u8], T::encoded(y), bytes);
                T::lemma_prefix_free(x, y, bytes.skip(1));
            },
            _ => {},
        }
    }

    fn copy(&self) -> (other: Self) {
        match self {
            Some(x) => Some(x.copy()),
            None => None,
        }
    }

    fn equals(&self, other: &Self) -> (equal: bool) {
        match (self, other) {
            (Some(x), Some(y)) => x.equals(y),
            (None, None) => true,
            _ => false,
        }
    }

    fn encode_to(&self, out: &mut Vec<u8>) {
        let ghost start = out@;
        match self {
            Some(x) => {
                out.push(1);
                x.encode_to(out);
                proof {
                    assert(out@ =~= start + Self::encoded(self.deep_view()));
                }
            },
            None => {
                out.push(0);
                proof {
                    assert(out@ =~= start + Self::encoded(self.deep_view()));
                }
            },
        }
    }

    fn decode(input: &Vec<u8>, pos: usize) -> (result: Option<(Self, usize)>) {
        let ghost rest = input@.skip(pos as int);
        if pos == input.len() {
            return None;
        }
        if input[pos] == 0 {
            proof {
                assert(input@.subrange(pos as int, pos + 1) =~= seq![0u8]);
            }
            return Some((None, pos + 1));
        }
        let inner: Option<(T, usize)> = if input[pos] == 1 {
            T::decode(input, pos + 1)
        } else {
            None
        };
        proof {
            assert(rest.skip(1) =~= input@.skip(pos + 1));
        }
        match inner {
            Some((value, end)) => {
                proof {
                    assert(input@.subrange(pos as int, end as int) =~= seq![1u8]
                        + input@.subrange(pos + 1, end as int));
                    assert(Some(value).deep_view() == Some(value.deep_view()));
                }
                Some((Some(value), end))
            },
            None => {
                proof {
                    assert forall|v: Option<T::V>| Self::valid(v) implies !(
                    #[trigger] Self::encoded(v)).is_prefix_of(rest) by {
                        if Self::encoded(v).is_prefix_of(rest) {
                            assert(Self::encoded(v)[0] == rest[0]);
                            lemma_concat_prefix(seq![1u8], T::encoded(v->0), rest);
                        }
                    }
                }
                None
            },
        }
    }

    fn explain(input: &Vec<u8>, pos: usize) -> (error: CodecError) {
        let ghost rest = input@.skip(pos as int);
        if pos == input.len() {
            let cause: CodecError = CodecError::new(
                String::from_str("Not enough data to fill buffer"),
            );
            let error: CodecError = cause.chain("Could not decode variant byte for `Option`");
            proof {
                assert(error@ =~= Self::failure(rest));
            }
            error
        } else if input[pos] == 1 {
            proof {
                assert(rest.skip(1) =~= input@.skip(pos + 1));
                assert forall|x: T::V| T::valid(x) implies !(#[trigger] T::encoded(
                    x,
                )).is_prefix_of(rest.skip(1)) by {
                    assert(seq![1u8].is_prefix_of(rest));
                    lemma_concat_prefix(seq![1u8], T::encoded(x), rest);
                    assert(!Self::encoded(Some(x)).is_prefix_of(rest));
                }
            }
            T::explain(input, pos + 1).chain("Could not decode `Option::Some(T)`")
        } else {
            CodecError::new(String::from_str("unexpected first byte decoding Option"))
        }
    }

    fn reads_in_bulk() -> (bulk: bool) {
        false
    }

    fn show(&self, out: &mut String) {
        let ghost start = out@;
        match self {
            Some(x) => {
                out.append("Some(");
                x.show(out);
                out.append(")");
            },
            None => {
                out.append("None");
            },
        }
        proof {
            assert(out@ =~= start + Self::shown(self.deep_view()));
        }
    }
}

impl<A: Encoding, B: Encoding> Encoding for (A, B) {
    open spec fn valid(v: (A::V, B::V)) -> bool {
        A::valid(v.0) && B::valid(v.1)
    }

    open spec fn encoded(v: (A::V, B::V)) -> Seq<u8> {
        A::encoded(v.0) + B::encoded(v.1)
    }

    open spec fn failure(bytes: Seq<u8>) -> Seq<Seq<char>> {
        if no_encoding::<A>(bytes) {
            A::failure(bytes)
        } else {
            B::failure(behind::<A>(bytes))
        }
    }

    open spec fn in_bulk() -> bool {
        false
    }

    open spec fn shown(v: (A::V, B::V)) -> Seq<char> {
        "("@ + A::shown(v.0) + ", "@ + B::shown(v.1) + ")"@
    }
}

impl<A: Data, B: Data> Data for (A, B) {
    proof fn lemma_valid(&self) {
        self.0.lemma_valid();
        self.1.lemma_valid();
    }

    proof fn lemma_prefix_free(v: (A::V, B::V), w: (A::V, B::V), bytes: Seq<u8>) {
        lemma_pair_prefix_free::<A, B>(v, w, bytes);
    }

    fn copy(&self) -> (other: Self) {
        (self.0.copy(), self.1.copy())
    }

    fn equals(&self, other: &Self) -> (equal: bool) {
        self.0.equals(&other.0) && self.1.equals(&other.1)
    }

    fn encode_to(&self, out: &mut Vec<u8>) {
        let ghost start = out@;
        self.0.encode_to(out);
        self.1.encode_to(out);
        proof {
            assert(out@ =~= start + Self::encoded(self.deep_view()));
        }
    }

    fn decode(input: &Vec<u8>, pos: usize) -> (result: Option<(Self, usize)>) {
        match A::decode(input, pos) {
            Some((a, mid)) => match B::decode(input, mid) {
                Some((b, end)) => {
                    proof {
                        lemma_decode_pair::<A, B>(
                            input@,
                            pos as int,
                            Some((a, mid)),
                            Some((b, end)),
                        );
                    }
                    Some(((a, b), end))
                },
                None => {
                    proof {
                        lemma_decode_pair::<A, B>(input@, pos as int, Some((a, mid)), None);
                    }
                    None
                },
            },
            None => {
                proof {
                    lemma_decode_pair::<A, B>(input@, pos as int, None, None);
                }
                None
            },
        }
    }

    fn explain(input: &Vec<u8>, pos: usize) -> (error: CodecError) {
        match A::decode(input, pos) {
            Some((a, mid)) => {
                proof {
                    lemma_behind::<A>(input@, pos as int, a, mid as int);
                    if !no_encoding::<B>(input@.skip(mid as int)) {
                        lemma_both_encoded::<A, B>(input@.skip(pos as int));
                    }
                }
                B::explain(input, mid)
            },
            None => A::explain(input, pos),
        }
    }

    fn reads_in_bulk() -> (bulk: bool) {
        false
    }

    fn show(&self, out: &mut String) {
        let ghost start = out@;
        out.append("(");
        self.0.show(out);
        out.append(", ");
        self.1.show(out);
        out.append(")");
        proof {
            assert(out@ =~= start + Self::shown(self.deep_view()));
        }
    }
}

/// The encodings of several values, one behind the other.
pub open spec fn encoded_items<T: Encoding>(items: Seq<T::V>) -> Seq<u8>
    decreases items.len(),
{
    if items.len() == 0 {
        seq![]
    } else {
        encoded_items::<T>(items.drop_last()) + T::encoded(items.last())
    }
}

/// The first values are written first.
pub proof fn lemma_items_prefix<T: Encoding>(items: Seq<T::V>, n: int, bytes: Seq<u8>)
    requires
        0 <= n <= items.len(),
        encoded_items::<T>(items).is_prefix_of(bytes),
    ensures
        encoded_items::<T>(items.take(n)).is_prefix_of(bytes),
    decreases items.len(),
{
    if n == items.len() {
        assert(items.take(n) =~= items);
    } else {
        lemma_concat_prefix(
            encoded_items::<T>(items.drop_last()),
            T::encoded(items.last()),
            bytes,
        );
        lemma_items_prefix::<T>(items.drop_last(), n, bytes);
        assert(items.drop_last().take(n) =~= items.take(n));
    }
}

pub proof fn lemma_items_prefix_free<T: Data>(v: Seq<T::V>, w: Seq<T::V>, bytes: Seq<u8>)
    requires
        v.len() == w.len(),
        forall|i: int| 0 <= i < v.len() ==> #[trigger] T::valid(v[i]),
        forall|i: int| 0 <= i < w.len() ==> #[trigger] T::valid(w[i]),
        encoded_items::<T>(v).is_prefix_of(bytes),
        encoded_items::<T>(w).is_prefix_of(bytes),
    ensures
        v == w,
    decreases v.len(),
{
    if v.len() > 0 {
        let n = v.len() - 1;
        let start = encoded_items::<T>(v.drop_last());
        lemma_concat_prefix(start, T::encoded(v.last()), bytes);
        lemma_concat_prefix(
            encoded_items::<T>(w.drop_last()),
            T::encoded(w.last()),
            bytes,
        );
        assert forall|i: int| 0 <= i < n implies #[trigger] T::valid(v.drop_last()[i]) by {
            assert(T::valid(v[i]));
        }
        assert forall|i: int| 0 <= i < n implies #[trigger] T::valid(w.drop_last()[i]) by {
            assert(T::valid(w[i]));
        }
        lemma_items_prefix_free::<T>(v.drop_last(), w.drop_last(), bytes);
        assert(T::valid(v[n]) && T::valid(w[n]));
        T::lemma_prefix_free(v.last(), w.last(), bytes.skip(start.len() as int));
        assert(v =~= v.drop_last().push(v.last()));
        assert(w =~= w.drop_last().push(w.last()));
    } else {
        assert(v =~= w);
    }
}

/// Lists of values with encodings that are not empty are equal if their encodings are.
pub proof fn lemma_items_injective<T: Data>(v: Seq<T::V>, w: Seq<T::V>)
    requires
        forall|u: T::V| T::valid(u) ==> #[trigger] T::encoded(u).len() > 0,
        forall|i: int| 0 <= i < v.len() ==> #[trigger] T::valid(v[i]),
        forall|i: int| 0 <= i < w.len() ==> #[trigger] T::valid(w[i]),
        encoded_items::<T>(v) == encoded_items::<T>(w),
    ensures
        v == w,
{
    let bytes = encoded_items::<T>(v);
    let (short, long) = if v.len() <= w.len() {
        (v, w)
    } else {
        (w, v)
    };
    let n = short.len() as int;
    lemma_items_prefix::<T>(long, n, bytes);
    assert forall|i: int| 0 <= i < n implies #[trigger] T::valid(long.take(n)[i]) by {
        assert(T::valid(long[i]));
    }
    lemma_items_prefix_free::<T>(short, long.take(n), bytes);
    if n < long.len() {
        lemma_items_prefix::<T>(long, n + 1, bytes);
        assert(long.take(n + 1).drop_last() =~= long.take(n));
        assert(T::valid(long[n]));
        assert(T::encoded(long[n]).len() > 0);
    } else {
        assert(long.take(n) =~= long);
    }
}

/// Why bytes are no list of values, read one after the other: what is wrong with the first wrong
/// one.
pub open spec fn first_failure<T: Encoding>(bytes: Seq<u8>) -> Seq<Seq<char>>
    decreases bytes.len(),
{
    if bytes.len() == 0 || no_encoding::<T>(bytes) || behind::<T>(bytes).len() >= bytes.len() {
        T::failure(bytes)
    } else {
        first_failure::<T>(behind::<T>(bytes))
    }
}

/// Reads values until the bytes are used up.
///
/// Without the bound on the encodings it might go on for ever.
pub fn decode_all<T: Data>(input: &Vec<u8>) -> (result: Result<Vec<T>, CodecError>)
    requires
        forall|v: T::V| T::valid(v) ==> #[trigger] T::encoded(v).len() > 0,
    ensures
        match result {
            Ok(items) => encoded_items::<T>(items.deep_view()) == input@,
            Err(error) => {
                &&& error@ == first_failure::<T>(input@)
                &&& forall|items: Seq<T::V>|
                    (forall|i: int| 0 <= i < items.len() ==> #[trigger] T::valid(items[i])) ==> (
                    #[trigger] encoded_items::<T>(items)) != input@
            },
        },
{
    let mut items: Vec<T> = Vec::new();
    let mut pos: usize = 0;
    proof {
        assert(input@.take(0) =~= encoded_items::<T>(items.deep_view()));
        assert(input@.skip(0) =~= input@);
    }
    while pos < input.len()
        invariant
            pos <= input@.len(),
            input@.take(pos as int) == encoded_items::<T>(items.deep_view()),
            first_failure::<T>(input@) == first_failure::<T>(input@.skip(pos as int)),
            forall|v: T::V| T::valid(v) ==> #[trigger] T::encoded(v).len() > 0,
        decreases input@.len() - pos,
    {
        let ghost read = items.deep_view();
        match T::decode(input, pos) {
            Some((item, end)) => {
                let ghost v = item.deep_view();
                proof {
                    item.lemma_valid();
                    assert(T::encoded(v).len() > 0);
                    assert(end > pos);
                    lemma_behind::<T>(input@, pos as int, item, end as int);
                    assert(input@.take(end as int) =~= input@.take(pos as int) + input@.subrange(
                        pos as int,
                        end as int,
                    ));
                }
                items.push(item);
                proof {
                    assert(items.deep_view() =~= read.push(v));
                    assert(read.push(v).drop_last() =~= read);
                }
                pos = end;
            },
            None => {
                proof {
                    items.lemma_valid();
                    lemma_undecodable::<T>(input@, read, pos as int);
                }
                return Err(T::explain(input, pos));
            },
        }
    }
    proof {
        assert(input@.take(pos as int) =~= input@);
    }
    Ok(items)
}

/// When the bytes behind some values do not begin with a value, the whole is no list of values.
proof fn lemma_undecodable<T: Data>(input: Seq<u8>, read: Seq<T::V>, pos: int)
    requires
        0 <= pos < input.len(),
        input.take(pos) == encoded_items::<T>(read),
        forall|i: int| 0 <= i < read.len() ==> #[trigger] T::valid(read[i]),
        no_encoding::<T>(input.skip(pos)),
    ensures
        forall|items: Seq<T::V>|
            (forall|i: int| 0 <= i < items.len() ==> #[trigger] T::valid(items[i])) ==> (
            #[trigger] encoded_items::<T>(items)) != input,
{
    assert forall|items: Seq<T::V>|
        (forall|i: int|
            0 <= i < items.len() ==> #[trigger] T::valid(items[i])) implies #[trigger] encoded_items::<
        T,
    >(items) != input by {
        if encoded_items::<T>(items) == input {
            let k = read.len() as int;
            assert(encoded_items::<T>(read).is_prefix_of(input));
            assert(encoded_items::<T>(items).is_prefix_of(input));
            if items.len() <= k {
                let n = items.len() as int;
                lemma_items_prefix::<T>(read, n, encoded_items::<T>(read));
                lemma_items_prefix::<T>(read, n, input);
                assert forall|i: int| 0 <= i < n implies #[trigger] T::valid(read.take(n)[i]) by {
                    assert(T::valid(read[i]));
                }
                lemma_items_prefix_free::<T>(items, read.take(n), input);
                assert(encoded_items::<T>(items).len() <= encoded_items::<T>(read).len());
            } else {
                lemma_items_prefix::<T>(items, k, input);
                assert forall|i: int| 0 <= i < k implies #[trigger] T::valid(items.take(k)[i]) by {
                    assert(T::valid(items[i]));
                }
                lemma_items_prefix_free::<T>(items.take(k), read, input);
                lemma_items_prefix::<T>(items, k + 1, input);
                assert(items.take(k + 1).drop_last() =~= items.take(k));
                lemma_concat_prefix(encoded_items::<T>(read), T::encoded(items[k]), input);
                assert(T::valid(items[k]));
            }
        }
    }
}

impl<T: Encoding> Encoding for Vec<T> {
    open spec fn valid(v: Seq<T::V>) -> bool {
        v.len() < 0x1_0000_0000_0000_0000 && forall|i: int|
            0 <= i < v.len() ==> #[trigger] T::valid(v[i])
    }

    open spec fn encoded(v: Seq<T::V>) -> Seq<u8> {
        scale::compact(v.len()) + encoded_items::<T>(v)
    }

    open spec fn failure(bytes: Seq<u8>) -> Seq<Seq<char>> {
        if no_length(bytes) {
            seq![scale::length_refusal(bytes)]
        } else if T::in_bulk() {
            seq!["Not enough data to decode vector"@]
        } else {
            let n = length(bytes);
            items_failure::<T>(bytes.skip(scale::compact(n as nat).len() as int), n as nat)
        }
    }

    open spec fn in_bulk() -> bool {
        false
    }

    open spec fn shown(v: Seq<T::V>) -> Seq<char> {
        "["@ + shown_items::<T>(v) + "]"@
    }
}

/// No length of a list is a beginning of `bytes`.
pub open spec fn no_length(bytes: Seq<u8>) -> bool {
    forall|n: u32| !(#[trigger] scale::compact(n as nat)).is_prefix_of(bytes)
}

/// The length of the list that `bytes` begin with.
pub open spec fn length(bytes: Seq<u8>) -> u32 {
    choose|n: u32| (#[trigger] scale::compact(n as nat)).is_prefix_of(bytes)
}

/// There is only one length to be read.
proof fn lemma_length(n: u32, bytes: Seq<u8>)
    requires
        scale::compact(n as nat).is_prefix_of(bytes),
    ensures
        !no_length(bytes),
        length(bytes) == n,
{
    let m = length(bytes);
    scale::lemma_compact_prefix_free(n as nat, m as nat, bytes);
}

/// When one item cannot be read, no list of the announced length is encoded.
proof fn lemma_items_broken<T: Data>(input: Seq<u8>, pos: int, mid: int, n: u64, read: Seq<T::V>, cur: int)
    requires
        0 <= pos <= mid <= cur <= input.len(),
        input.subrange(pos, mid) == scale::compact(n as nat),
        input.subrange(mid, cur) == encoded_items::<T>(read),
        read.len() < n,
        forall|i: int| 0 <= i < read.len() ==> #[trigger] T::valid(read[i]),
        no_encoding::<T>(input.skip(cur)),
    ensures
        no_encoding::<Vec<T>>(input.skip(pos)),
{
    let rest = input.skip(pos);
    lemma_subrange_prefix(input, pos, mid, scale::compact(n as nat));
    lemma_subrange_prefix(input, mid, cur, encoded_items::<T>(read));
    assert forall|v: Seq<T::V>| <Vec<T> as Encoding>::valid(v) implies !(
    #[trigger] <Vec<T> as Encoding>::encoded(v)).is_prefix_of(rest) by {
        if <Vec<T> as Encoding>::encoded(v).is_prefix_of(rest) {
            let k = read.len() as int;
            lemma_concat_prefix(scale::compact(v.len()), encoded_items::<T>(v), rest);
            scale::lemma_compact_prefix_free(v.len(), n as nat, rest);
            assert(rest.skip(mid - pos) == input.skip(mid));
            let body = input.skip(mid);
            lemma_items_prefix::<T>(v, k, body);
            assert forall|i: int| 0 <= i < k implies #[trigger] T::valid(v.take(k)[i]) by {
                assert(T::valid(v[i]));
            }
            lemma_items_prefix_free::<T>(v.take(k), read, body);
            lemma_items_prefix::<T>(v, k + 1, body);
            assert(v.take(k + 1).drop_last() =~= v.take(k));
            lemma_concat_prefix(encoded_items::<T>(read), T::encoded(v[k]), body);
            assert(body.skip(cur - mid) == input.skip(cur));
            assert(T::valid(v[k]));
        }
    }
}

impl<T: Data> Data for Vec<T> {
    proof fn lemma_valid(&self) {
        assert forall|i: int| 0 <= i < self.deep_view().len() implies #[trigger] T::valid(
            self.deep_view()[i],
        ) by {
            self@[i].lemma_valid();
        }
        assert(self.len() < 0x1_0000_0000_0000_0000);
    }

    proof fn lemma_prefix_free(v: Seq<T::V>, w: Seq<T::V>, bytes: Seq<u8>) {
        lemma_concat_prefix(scale::compact(v.len()), encoded_items::<T>(v), bytes);
        lemma_concat_prefix(scale::compact(w.len()), encoded_items::<T>(w), bytes);
        scale::lemma_compact_prefix_free(v.len(), w.len(), bytes);
        lemma_items_prefix_free::<T>(v, w, bytes.skip(scale::compact(v.len()).len() as int));
    }

    fn copy(&self) -> (other: Self) {
        let mut other: Vec<T> = Vec::new();
        let n: usize = self.len();
        for i in 0..n
            invariant
                n == self@.len(),
                other@.len() == i,
                forall|j: int| 0 <= j < i ==> (#[trigger] other@[j]).deep_view()
                    == self@[j].deep_view(),
        {
            other.push(self[i].copy());
        }
        proof {
            assert(other.deep_view() =~= self.deep_view());
        }
        other
    }

    fn equals(&self, other: &Self) -> (equal: bool) {
        if self.len() != other.len() {
            proof {
                assert(self.deep_view().len() != other.deep_view().len());
            }
            return false;
        }
        let n: usize = self.len();
        for i in 0..n
            invariant
                n == self@.len(),
                n == other@.len(),
                forall|j: int| 0 <= j < i ==> (#[trigger] self@[j]).deep_view()
                    == other@[j].deep_view(),
        {
            if !self[i].equals(&other[i]) {
                proof {
                    assert(self.deep_view()[i as int] != other.deep_view()[i as int]);
                }
                return false;
            }
        }
        proof {
            assert(self.deep_view() =~= other.deep_view());
        }
        true
    }

    fn encode_to(&self, out: &mut Vec<u8>) {
        let ghost start = out@;
        let n: usize = self.len();
        let mut prefix: Vec<u8> = encode_compact(n as u64);
        out.append(&mut prefix);
        let ghost v = self.deep_view();
        proof {
            assert(out@ =~= start + scale::compact(v.len()) + encoded_items::<T>(v.take(0)));
        }
        for i in 0..n
            invariant
                n == self@.len(),
                v == self.deep_view(),
                out@ == start + scale::compact(v.len()) + encoded_items::<T>(v.take(i as int)),
        {
            self[i].encode_to(out);
            proof {
                let next = v.take(i + 1);
                assert(next.drop_last() =~= v.take(i as int));
                assert(next.last() == self@[i as int].deep_view());
                assert(out@ =~= start + scale::compact(v.len()) + encoded_items::<T>(next));
            }
        }
        proof {
            assert(v.take(n as int) =~= v);
            assert(out@ =~= start + Self::encoded(v));
        }
    }

    fn decode(input: &Vec<u8>, pos: usize) -> (result: Option<(Self, usize)>) {
        let n: u64 = match decode_compact(input, pos) {
            Some(n) => n,
            None => {
                proof {
                    let rest = input@.skip(pos as int);
                    assert forall|v: Seq<T::V>| Self::valid(v) implies !(
                    #[trigger] Self::encoded(v)).is_prefix_of(rest) by {
                        lemma_concat_prefix(scale::compact(v.len()), encoded_items::<T>(v), rest);
                        let len = v.len() as u64;
                        assert(!scale::compact(len as nat).is_prefix_of(rest));
                    }
                }
                return None;
            },
        };
        proof {
            scale::lemma_compact_len(n as nat);
            assert(pos + scale::compact(n as nat).len() <= input.len());
        }
        let mid: usize = pos + compact_len(n);
        proof {
            lemma_subrange_prefix(input@, pos as int, mid as int, scale::compact(n as nat));
        }
        let mut items: Vec<T> = Vec::new();
        let mut cur: usize = mid;
        let mut i: u64 = 0;
        proof {
            assert(input@.subrange(mid as int, cur as int) =~= encoded_items::<T>(
                items.deep_view(),
            ));
        }
        while i < n
            invariant
                0 <= pos <= mid <= cur <= input@.len(),
                i <= n,
                items@.len() == i,
                input@.subrange(pos as int, mid as int) == scale::compact(n as nat),
                input@.subrange(mid as int, cur as int) == encoded_items::<T>(items.deep_view()),
            decreases n - i,
        {
            let ghost read = items.deep_view();
            match T::decode(input, cur) {
                Some((item, next)) => {
                    let ghost v = item.deep_view();
                    items.push(item);
                    proof {
                        assert(items.deep_view() =~= read.push(v));
                        assert(read.push(v).drop_last() =~= read);
                        assert(input@.subrange(mid as int, next as int) =~= input@.subrange(
                            mid as int,
                            cur as int,
                        ) + input@.subrange(cur as int, next as int));
                    }
                    cur = next;
                },
                None => {
                    proof {
                        items.lemma_valid();
                        lemma_items_broken::<T>(
                            input@,
                            pos as int,
                            mid as int,
                            n,
                            read,
                            cur as int,
                        );
                    }
                    return None;
                },
            }
            i = i + 1;
        }
        proof {
            assert(input@.subrange(pos as int, cur as int) =~= input@.subrange(
                pos as int,
                mid as int,
            ) + input@.subrange(mid as int, cur as int));
        }
        Some((items, cur))
    }

    fn explain(input: &Vec<u8>, pos: usize) -> (error: CodecError) {
        let ghost rest = input@.skip(pos as int);
        let n: u32 = match decode_length(input, pos) {
            Ok(n) => n,
            Err(text) => {
                return CodecError::new(text);
            },
        };
        proof {
            scale::lemma_compact_len(n as nat);
            lemma_length(n, rest);
            assert(pos + scale::compact(n as nat).len() <= input.len());
        }
        if T::reads_in_bulk() {
            return CodecError::new(String::from_str("Not enough data to decode vector"));
        }
        let mid: usize = pos + compact_len(n as u64);
        proof {
            lemma_subrange_prefix(input@, pos as int, mid as int, scale::compact(n as nat));
        }
        let ghost body = input@.skip(mid as int);
        let ghost mut read: Seq<T::V> = seq![];
        let mut cur: usize = mid;
        let mut i: u32 = 0;
        proof {
            assert(input@.subrange(mid as int, cur as int) =~= encoded_items::<T>(read));
        }
        while i < n
            invariant
                0 <= pos <= mid <= cur <= input@.len(),
                i <= n,
                read.len() == i,
                forall|j: int| 0 <= j < read.len() ==> #[trigger] T::valid(read[j]),
                input@.subrange(pos as int, mid as int) == scale::compact(n as nat),
                input@.subrange(mid as int, cur as int) == encoded_items::<T>(read),
                items_failure::<T>(body, n as nat) == items_failure::<T>(
                    input@.skip(cur as int),
                    (n - i) as nat,
                ),
                rest == input@.skip(pos as int),
                !no_length(rest),
                length(rest) == n,
                !T::in_bulk(),
                body == rest.skip(scale::compact(n as nat).len() as int),
            decreases n - i,
        {
            match T::decode(input, cur) {
                Some((item, next)) => {
                    let ghost v = item.deep_view();
                    proof {
                        item.lemma_valid();
                        lemma_behind::<T>(input@, cur as int, item, next as int);
                        let before = read;
                        read = before.push(v);
                        assert(read.drop_last() =~= before);
                        assert(input@.subrange(mid as int, next as int) =~= input@.subrange(
                            mid as int,
                            cur as int,
                        ) + input@.subrange(cur as int, next as int));
                    }
                    cur = next;
                },
                None => {
                    return T::explain(input, cur);
                },
            }
            i = i + 1;
        }
        proof {
            assert(Self::valid(read));
            assert(input@.subrange(pos as int, cur as int) =~= input@.subrange(
                pos as int,
                mid as int,
            ) + input@.subrange(mid as int, cur as int));
            lemma_subrange_prefix(input@, pos as int, cur as int, Self::encoded(read));
        }
        CodecError::new(String::new())
    }

    fn reads_in_bulk() -> (bulk: bool) {
        false
    }

    fn show(&self, out: &mut String) {
        let ghost start = out@;
        let ghost v = self.deep_view();
        let ghost expected = v.map_values(|x: T::V| T::shown(x));
        let n: usize = self.len();
        let mut texts: Vec<String> = Vec::new();
        for i in 0..n
            invariant
                n == self@.len(),
                v == self.deep_view(),
                expected == v.map_values(|x: T::V| T::shown(x)),
                texts.deep_view() == expected.take(i as int),
        {
            let ghost before = texts.deep_view();
            let mut text: String = String::new();
            self[i].show(&mut text);
            let ghost added = text@;
            proof {
                assert(added =~= T::shown(v[i as int]));
            }
            texts.push(text);
            proof {
                assert(texts.deep_view() =~= before.push(added));
                assert(texts.deep_view() =~= expected.take(i + 1));
            }
        }
        out.append("[");
        out.append(join(&texts, ", ").as_str());
        out.append("]");
        proof {
            assert(expected.take(n as int) =~= expected);
            assert(out@ =~= start + Self::shown(v));
        }
    }
}

impl Encoding for [u8; 8] {
    open spec fn valid(v: Seq<u8>) -> bool {
        v.len() == 8
    }

    open spec fn encoded(v: Seq<u8>) -> Seq<u8> {
        v
    }

    open spec fn failure(bytes: Seq<u8>) -> Seq<Seq<char>> {
        seq![short_input()]
    }

    open spec fn in_bulk() -> bool {
        false
    }

    open spec fn shown(v: Seq<u8>) -> Seq<char> {
        Vec::<u8>::shown(v)
    }
}

impl Data for [u8; 8] {
    proof fn lemma_valid(&self) {
    }

    proof fn lemma_prefix_free(v: Seq<u8>, w: Seq<u8>, bytes: Seq<u8>) {
        scale::lemma_prefixes_equal(v, w, bytes);
    }

    fn copy(&self) -> (other: Self) {
        *self
    }

    fn equals(&self, other: &Self) -> (equal: bool) {
        for i in 0..8usize
            invariant
                forall|j: int| 0 <= j < i ==> self@[j] == other@[j],
        {
            if self[i] != other[i] {
                proof {
                    assert(self.deep_view()[i as int] != other.deep_view()[i as int]);
                }
                return false;
            }
        }
        proof {
            assert(self.deep_view() =~= other.deep_view());
        }
        true
    }

    fn encode_to(&self, out: &mut Vec<u8>) {
        let ghost start = out@;
        for i in 0..8usize
            invariant
                out@ == start + self.deep_view().take(i as int),
        {
            out.push(self[i]);
            proof {
                assert(out@ =~= start + self.deep_view().take(i + 1));
            }
        }
        proof {
            assert(self.deep_view().take(8) =~= self.deep_view());
        }
    }

    fn decode(input: &Vec<u8>, pos: usize) -> (result: Option<(Self, usize)>) {
        if input.len() - pos < 8 {
            return None;
        }
        let value: [u8; 8] = [
            input[pos],
            input[pos + 1],
            input[pos + 2],
            input[pos + 3],
            input[pos + 4],
            input[pos + 5],
            input[pos + 6],
            input[pos + 7],
        ];
        proof {
            assert(input@.subrange(pos as int, pos + 8) =~= value.deep_view());
        }
        Some((value, pos + 8))
    }

    fn explain(input: &Vec<u8>, pos: usize) -> (error: CodecError) {
        CodecError::new(String::from_str("Not enough data to fill buffer"))
    }

    fn reads_in_bulk() -> (bulk: bool) {
        false
    }

    fn show(&self, out: &mut String) {
        let mut bytes: Vec<u8> = Vec::new();
        self.encode_to(&mut bytes);
        proof {
            assert(bytes.deep_view() =~= self.deep_view());
        }
        bytes.show(out);
    }
}

} // verus!
