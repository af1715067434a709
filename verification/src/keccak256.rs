//! Keccak-256 over concatenated inputs.
//!
//! The digest itself is computed by the `sha3` crate. What is hashed, and how
//! the 32 bytes that come back are read, is decided here.

use vstd::prelude::*;
use crate::bigint::BigNat;
use crate::encoding::{be_value, be_minimal, radix, append_bytes, lemma_be_value_bound};
use sha3::Digest;

verus! {

/// The length of a Keccak-256 digest in bytes.
pub const KECCAK256_BYTES: usize = 32;

/// The Keccak-256 digest of a byte string.
pub uninterp spec fn keccak256(data: Seq<u8>) -> Seq<u8>;

/// All the parts, one after the other.
pub open spec fn concat_all(parts: Seq<Seq<u8>>) -> Seq<u8>
    decreases parts.len(),
{
    if parts.len() == 0 {
        Seq::empty()
    } else {
        concat_all(parts.drop_last()) + parts.last()
    }
}

/// The digest of a byte string, read as a big-endian number.
pub open spec fn hash_of_bytes(data: Seq<u8>) -> nat {
    be_value(keccak256(data))
}

/// The minimal big-endian encodings of the numbers, one after the other.
pub open spec fn encoded_numbers(numbers: Seq<nat>) -> Seq<u8> {
    concat_all(numbers.map_values(|n: nat| be_minimal(n)))
}

/// The digest of the minimal big-endian encodings of the numbers, one after
/// the other, read as a big-endian number.
pub open spec fn hash_of_numbers(numbers: Seq<nat>) -> nat {
    hash_of_bytes(encoded_numbers(numbers))
}

/// `Digest::digest` of sha3's `Keccak256`: the 32 bytes of the Keccak-256
/// digest of `data`, with the padding of Keccak as it was submitted, not that
/// of SHA-3. The digest is a function of the data alone; the contract gives
/// it its name and claims nothing else of it.
#[verifier::external_body]
fn keccak256_digest(data: &[u8]) -> (out: [u8; KECCAK256_BYTES])
    ensures
        out@ == keccak256(data@),
{
    sha3::Keccak256::digest(data).into()
}

/// Numbers that are hashed one after the other have their encodings
/// concatenated in that order.
pub proof fn lemma_concat_all_push(parts: Seq<Seq<u8>>, part: Seq<u8>)
    ensures
        concat_all(parts.push(part)) == concat_all(parts) + part,
{
    assert(parts.push(part).drop_last() =~= parts);
}

/// The hash functions of the library, all built on the Keccak-256 digest.
pub struct Keccak256;

impl Keccak256 {
    /// The bytes that are hashed for a list of numbers: their minimal
    /// big-endian encodings, one after the other.
    pub fn encode_numbers(big_ints: &[&BigNat]) -> (inputs: Vec<u8>)
        ensures
            inputs@ == encoded_numbers(big_ints@.map_values(|b: &BigNat| b@)),
    {
        let ghost numbers = big_ints@.map_values(|b: &BigNat| b@);
        let ghost encodings = numbers.map_values(|n: nat| be_minimal(n));
        let mut inputs: Vec<u8> = Vec::new();
        let mut i: usize = 0;
        while i < big_ints.len()
            invariant
                i <= big_ints.len(),
                numbers == big_ints@.map_values(|b: &BigNat| b@),
                encodings == numbers.map_values(|n: nat| be_minimal(n)),
                inputs@ == concat_all(encodings.subrange(0, i as int)),
            decreases big_ints.len() - i,
        {
            let bytes = big_ints[i].to_bytes();
            append_bytes(&mut inputs, bytes.as_slice());
            proof {
                assert(encodings.subrange(0, i + 1) =~= encodings.subrange(0, i as int).push(
                    encodings[i as int],
                ));
                lemma_concat_all_push(encodings.subrange(0, i as int), encodings[i as int]);
            }
            i += 1;
        }
        proof {
            assert(encodings.subrange(0, big_ints.len() as int) =~= encodings);
        }
        inputs
    }

    /// The bytes that are hashed for a list of byte strings: the strings, one
    /// after the other.
    pub fn concat_slices(slices: &[Vec<u8>]) -> (inputs: Vec<u8>)
        ensures
            inputs@ == concat_all(slices@.map_values(|k: Vec<u8>| k@)),
    {
        let ghost parts = slices@.map_values(|k: Vec<u8>| k@);
        let mut inputs: Vec<u8> = Vec::new();
        let mut i: usize = 0;
        while i < slices.len()
            invariant
                i <= slices.len(),
                parts == slices@.map_values(|k: Vec<u8>| k@),
                inputs@ == concat_all(parts.subrange(0, i as int)),
            decreases slices.len() - i,
        {
            append_bytes(&mut inputs, slices[i].as_slice());
            proof {
                assert(parts.subrange(0, i + 1) =~= parts.subrange(0, i as int).push(
                    parts[i as int],
                ));
                lemma_concat_all_push(parts.subrange(0, i as int), parts[i as int]);
            }
            i += 1;
        }
        proof {
            assert(parts.subrange(0, slices.len() as int) =~= parts);
        }
        inputs
    }

    /// Hashes the minimal big-endian encodings of the numbers, one after the
    /// other, and reads the digest as a number.
    pub fn create_hash(big_ints: &[&BigNat]) -> (digest: BigNat)
        ensures
            digest@ == hash_of_numbers(big_ints@.map_values(|b: &BigNat| b@)),
            digest@ < radix(KECCAK256_BYTES as nat),
    {
        let inputs = Keccak256::encode_numbers(big_ints);
        Keccak256::create_hash_from_slice(inputs.as_slice())
    }

    /// Hashes the byte strings one after the other and reads the digest as a
    /// number. This is the form in which curve points are hashed: each point
    /// is handed over as its key bytes.
    pub fn create_hash_from_ge(key_slices: &[Vec<u8>]) -> (digest: BigNat)
        ensures
            digest@ == hash_of_bytes(concat_all(key_slices@.map_values(|k: Vec<u8>| k@))),
            digest@ < radix(KECCAK256_BYTES as nat),
    {
        let inputs = Keccak256::concat_slices(key_slices);
        Keccak256::create_hash_from_slice(inputs.as_slice())
    }

    /// Hashes the bytes as they are and reads the digest as a number, which
    /// has at most 256 bits.
    pub fn create_hash_from_slice(byte_slice: &[u8]) -> (digest: BigNat)
        ensures
            digest@ == hash_of_bytes(byte_slice@),
            digest@ < radix(KECCAK256_BYTES as nat),
    {
        let result = keccak256_digest(byte_slice);
        proof {
            lemma_be_value_bound(result@);
        }
        BigNat::from_bytes(result.as_slice())
    }
}

} // verus!
