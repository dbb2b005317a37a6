//! Byte level of the SCALE encoding: fixed width integers and compact lengths.
//!
//! What the codec says of bytes that it refuses is what it says with its default features, under
//! which its errors keep their descriptions.
use crate::codec_error::short_input;
use vstd::prelude::*;

verus! {

/// The `k` low bytes of `n`, least significant first.
pub open spec fn le_bytes(n: nat, k: nat) -> Seq<u8>
    decreases k,
{
    if k == 0 {
        seq![]
    } else {
        seq![(n % 256) as u8] + le_bytes(n / 256, (k - 1) as nat)
    }
}

/// The smallest number that does not fit in `k` bytes.
pub open spec fn byte_limit(k: nat) -> nat
    decreases k,
{
    if k == 0 {
        1
    } else {
        256 * byte_limit((k - 1) as nat)
    }
}

/// Number of bytes that a compact number of the multi-byte mode occupies.
pub open spec fn compact_width(n: nat) -> nat {
    if n < 0x1_0000_0000 {
        4
    } else if n < 0x100_0000_0000 {
        5
    } else if n < 0x1_0000_0000_0000 {
        6
    } else if n < 0x100_0000_0000_0000 {
        7
    } else {
        8
    }
}

/// The compact encoding of a number: the two low bits of the first byte give the mode.
pub open spec fn compact(n: nat) -> Seq<u8> {
    if n < 0x40 {
        le_bytes(4 * n, 1)
    } else if n < 0x4000 {
        le_bytes(4 * n + 1, 2)
    } else if n < 0x4000_0000 {
        le_bytes(4 * n + 2, 4)
    } else {
        le_bytes((4 * (compact_width(n) - 4) + 3) as nat, 1) + le_bytes(n, compact_width(n))
    }
}

pub proof fn lemma_le_bytes_len(n: nat, k: nat)
    ensures
        le_bytes(n, k).len() == k,
        k > 0 ==> le_bytes(n, k)[0] == (n % 256) as u8,
    decreases k,
{
    if k > 0 {
        lemma_le_bytes_len(n / 256, (k - 1) as nat);
    }
}

/// Numbers that fit in `k` bytes are told apart by these bytes.
pub proof fn lemma_le_bytes_injective(n: nat, m: nat, k: nat)
    requires
        n < byte_limit(k),
        m < byte_limit(k),
        le_bytes(n, k) == le_bytes(m, k),
    ensures
        n == m,
    decreases k,
{
    if k > 0 {
        let l = (k - 1) as nat;
        lemma_le_bytes_len(n, k);
        lemma_le_bytes_len(m, k);
        assert(le_bytes(n, k).skip(1) =~= le_bytes(n / 256, l));
        assert(le_bytes(m, k).skip(1) =~= le_bytes(m / 256, l));
        assert(n / 256 < byte_limit(l)) by {
            assert(n < 256 * byte_limit(l));
        }
        assert(m / 256 < byte_limit(l)) by {
            assert(m < 256 * byte_limit(l));
        }
        lemma_le_bytes_injective(n / 256, m / 256, l);
        assert((n % 256) as u8 == (m % 256) as u8);
        assert(n % 256 == m % 256);
    }
}

pub proof fn lemma_byte_limits()
    ensures
        byte_limit(1) == 0x100,
        byte_limit(2) == 0x1_0000,
        byte_limit(4) == 0x1_0000_0000,
        byte_limit(5) == 0x100_0000_0000,
        byte_limit(6) == 0x1_0000_0000_0000,
        byte_limit(7) == 0x100_0000_0000_0000,
        byte_limit(8) == 0x1_0000_0000_0000_0000,
{
    reveal_with_fuel(byte_limit, 9);
}

/// Two equally long beginnings of the same bytes are equal.
pub proof fn lemma_prefixes_equal(a: Seq<u8>, b: Seq<u8>, bytes: Seq<u8>)
    requires
        a.is_prefix_of(bytes),
        b.is_prefix_of(bytes),
        a.len() == b.len(),
    ensures
        a == b,
{
}

pub proof fn lemma_compact_len(n: nat)
    requires
        n < 0x1_0000_0000_0000_0000,
    ensures
        compact(n).len() == (if n < 0x40 {
            1nat
        } else if n < 0x4000 {
            2nat
        } else if n < 0x4000_0000 {
            4nat
        } else {
            1 + compact_width(n)
        }),
        compact(n)[0] % 4 == (if n < 0x40 {
            0int
        } else if n < 0x4000 {
            1int
        } else if n < 0x4000_0000 {
            2int
        } else {
            3int
        }),
        n >= 0x4000_0000 ==> compact(n)[0] == 4 * (compact_width(n) - 4) + 3,
{
    lemma_le_bytes_len(4 * n, 1);
    lemma_le_bytes_len(4 * n + 1, 2);
    lemma_le_bytes_len(4 * n + 2, 4);
    lemma_le_bytes_len((4 * (compact_width(n) - 4) + 3) as nat, 1);
    lemma_le_bytes_len(n, compact_width(n));
}

/// No compact number is the beginning of another one.
pub proof fn lemma_compact_prefix_free(n: nat, m: nat, bytes: Seq<u8>)
    requires
        n < 0x1_0000_0000_0000_0000,
        m < 0x1_0000_0000_0000_0000,
        compact(n).is_prefix_of(bytes),
        compact(m).is_prefix_of(bytes),
    ensures
        n == m,
{
    lemma_compact_len(n);
    lemma_compact_len(m);
    lemma_byte_limits();
    assert(compact(n)[0] == bytes[0]);
    assert(compact(m)[0] == bytes[0]);
    assert(compact(n).len() == compact(m).len());
    lemma_prefixes_equal(compact(n), compact(m), bytes);
    if n < 0x40 {
        lemma_le_bytes_injective(4 * n, 4 * m, 1);
    } else if n < 0x4000 {
        lemma_le_bytes_injective(4 * n + 1, 4 * m + 1, 2);
    } else if n < 0x4000_0000 {
        lemma_le_bytes_injective(4 * n + 2, 4 * m + 2, 4);
    } else {
        let k = compact_width(n);
        let tag = (4 * (k - 4) + 3) as nat;
        lemma_le_bytes_len(tag, 1);
        assert(compact(n).skip(1) =~= le_bytes(n, k));
        assert(compact(m).skip(1) =~= le_bytes(m, k));
        lemma_le_bytes_injective(n, m, k);
    }
}

/// Calls `u16::encode` of `parity_scale_codec`: two bytes, least significant first.
#[verifier::external_body]
pub(crate) fn encode_u16(x: u16) -> (bytes: Vec<u8>)
    ensures
        bytes@ == le_bytes(x as nat, 2),
{
    parity_scale_codec::Encode::encode(&x)
}

/// Calls `u32::encode` of `parity_scale_codec`: four bytes, least significant first.
#[verifier::external_body]
pub(crate) fn encode_u32(x: u32) -> (bytes: Vec<u8>)
    ensures
        bytes@ == le_bytes(x as nat, 4),
{
    parity_scale_codec::Encode::encode(&x)
}

/// Calls `u64::encode` of `parity_scale_codec`: eight bytes, least significant first.
#[verifier::external_body]
pub(crate) fn encode_u64(x: u64) -> (bytes: Vec<u8>)
    ensures
        bytes@ == le_bytes(x as nat, 8),
{
    parity_scale_codec::Encode::encode(&x)
}

/// Calls `Compact::<u64>::encode` of `parity_scale_codec`, which writes the shortest mode that
/// holds the number.
#[verifier::external_body]
pub(crate) fn encode_compact(x: u64) -> (bytes: Vec<u8>)
    ensures
        bytes@ == compact(x as nat),
{
    parity_scale_codec::Encode::encode(&parity_scale_codec::Compact(x))
}

/// Calls `u16::decode` of `parity_scale_codec`: reads the two first bytes, fails when there are
/// fewer and says that the input is short.
#[verifier::external_body]
pub(crate) fn decode_u16(input: &Vec<u8>, pos: usize) -> (value: Result<u16, String>)
    requires
        pos <= input@.len(),
    ensures
        match value {
            Ok(x) => le_bytes(x as nat, 2).is_prefix_of(input@.skip(pos as int)),
            Err(text) => input@.len() < pos + 2 && text@ == short_input(),
        },
{
    let value: Result<u16, parity_scale_codec::Error> = parity_scale_codec::Decode::decode(
        &mut &input[pos..],
    );
    value.map_err(|error| error.to_string())
}

/// Calls `u32::decode` of `parity_scale_codec`: reads the four first bytes, fails when there are
/// fewer and says that the input is short.
#[verifier::external_body]
pub(crate) fn decode_u32(input: &Vec<u8>, pos: usize) -> (value: Result<u32, String>)
    requires
        pos <= input@.len(),
    ensures
        match value {
            Ok(x) => le_bytes(x as nat, 4).is_prefix_of(input@.skip(pos as int)),
            Err(text) => input@.len() < pos + 4 && text@ == short_input(),
        },
{
    let value: Result<u32, parity_scale_codec::Error> = parity_scale_codec::Decode::decode(
        &mut &input[pos..],
    );
    value.map_err(|error| error.to_string())
}

/// Calls `u64::decode` of `parity_scale_codec`: reads the eight first bytes, fails when there are
/// fewer and says that the input is short.
#[verifier::external_body]
pub(crate) fn decode_u64(input: &Vec<u8>, pos: usize) -> (value: Result<u64, String>)
    requires
        pos <= input@.len(),
    ensures
        match value {
            Ok(x) => le_bytes(x as nat, 8).is_prefix_of(input@.skip(pos as int)),
            Err(text) => input@.len() < pos + 8 && text@ == short_input(),
        },
{
    let value: Result<u64, parity_scale_codec::Error> = parity_scale_codec::Decode::decode(
        &mut &input[pos..],
    );
    value.map_err(|error| error.to_string())
}

/// Calls `Compact::<u64>::decode` of `parity_scale_codec`, which accepts the shortest mode of a
/// number and nothing else.
#[verifier::external_body]
pub(crate) fn decode_compact(input: &Vec<u8>, pos: usize) -> (value: Option<u64>)
    requires
        pos <= input@.len(),
    ensures
        match value {
            Some(x) => compact(x as nat).is_prefix_of(input@.skip(pos as int)),
            None => forall|x: u64|
                !(#[trigger] compact(x as nat)).is_prefix_of(input@.skip(pos as int)),
        },
{
    let value: Result<parity_scale_codec::Compact<u64>, parity_scale_codec::Error> =
        parity_scale_codec::Decode::decode(&mut &input[pos..]);
    value.ok().map(|compact| compact.0)
}

/// What `Compact::<u32>::decode` of `parity_scale_codec` says of bytes that it refuses.
pub uninterp spec fn length_refusal(bytes: Seq<u8>) -> Seq<char>;

/// Calls `Compact::<u32>::decode` of `parity_scale_codec`, which accepts the shortest mode of a
/// number of 32 bits and nothing else.
///
/// It tells bytes that end too early from numbers that are too large or not in the shortest mode;
/// what it says of each is named here, not spelled out.
#[verifier::external_body]
pub(crate) fn decode_length(input: &Vec<u8>, pos: usize) -> (value: Result<u32, String>)
    requires
        pos <= input@.len(),
    ensures
        match value {
            Ok(x) => compact(x as nat).is_prefix_of(input@.skip(pos as int)),
            Err(text) => {
                &&& text@ == length_refusal(input@.skip(pos as int))
                &&& forall|x: u32|
                    !(#[trigger] compact(x as nat)).is_prefix_of(input@.skip(pos as int))
            },
        },
{
    let value: Result<parity_scale_codec::Compact<u32>, parity_scale_codec::Error> =
        parity_scale_codec::Decode::decode(&mut &input[pos..]);
    value.map(|compact| compact.0).map_err(|error| error.to_string())
}

/// Number of bytes of a compact number.
pub(crate) fn compact_len(x: u64) -> (len: usize)
    ensures
        len == compact(x as nat).len(),
{
    proof {
        lemma_compact_len(x as nat);
    }
    if x < 0x40 {
        1
    } else if x < 0x4000 {
        2
    } else if x < 0x4000_0000 {
        4
    } else if x < 0x1_0000_0000 {
        5
    } else if x < 0x100_0000_0000 {
        6
    } else if x < 0x1_0000_0000_0000 {
        7
    } else if x < 0x100_0000_0000_0000 {
        8
    } else {
        9
    }
}

} // verus!
