//! A quick hash function.
use crate::crypto::Hasher;
use crate::scale;
use crate::scale::encode_u64;
use std::collections::hash_map::DefaultHasher;
use std::hash::Hasher as StdHasher;
use vstd::prelude::*;
use vstd::std_specs::hash::DefaultHasherAdditionalSpecFns;

verus! {

/// A hash in eight bytes.
pub type Hash64 = [u8; 8];

/// Hashes with the hash function that maps use.
pub struct Hasher64;

impl Hasher for Hasher64 {
    type Hash = Hash64;

    open spec fn hashed(bytes: Seq<u8>) -> Seq<u8> {
        scale::le_bytes(DefaultHasher::spec_finish(seq![bytes]) as nat, 8)
    }

    fn hash(bytes: &Vec<u8>) -> (hash: Hash64) {
        let mut hasher: DefaultHasher = DefaultHasher::new();
        hasher.write(bytes.as_slice());
        proof {
            assert(hasher@ =~= seq![bytes@]);
        }
        let number: u64 = hasher.finish();
        let digits: Vec<u8> = encode_u64(number);
        proof {
            scale::lemma_le_bytes_len(number as nat, 8);
        }
        let hash: Hash64 = [
            digits[0],
            digits[1],
            digits[2],
            digits[3],
            digits[4],
            digits[5],
            digits[6],
            digits[7],
        ];
        proof {
            assert(hash.deep_view() =~= digits@);
        }
        hash
    }
}

} // verus!
