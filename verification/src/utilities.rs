//! The shared pieces of the delay function: its errors, the trusted modulus,
//! the hash into the group and the hash to a prime challenge.

use vstd::prelude::*;
use vstd::arithmetic::div_mod::lemma_mod_bound;
use vstd::arithmetic::power2::{pow2, lemma2_to64, lemma_pow2_adds, lemma_pow2_pos};
use crate::bigint::{BigNat, probable_prime};
use crate::encoding::{
    be_value,
    be_minimal,
    be_fixed,
    radix,
    append_bytes,
    fixed_width_bytes_of_u64,
    lemma_be_value_bound,
    lemma_be_value_lower_bound,
    lemma_radix_is_pow2,
};
use crate::keccak256::{Keccak256, KECCAK256_BYTES, hash_of_bytes, hash_of_numbers};

verus! {

/// Why a proof was not produced or not accepted.
#[derive(Clone, Copy, Debug, PartialEq, Eq, Structural)]
pub enum ErrorReason {
    /// The proof was made for another challenge than the one it is held
    /// against.
    MisMatchedVDF,
    /// The output or the witness is no group element, or the relation between
    /// them does not hold.
    VDFVerifyError,
    /// A seed or a serialized proof of the wrong length.
    InvalidInput,
    /// No nonce of 32 bits leads to a prime challenge. A proof that was just
    /// computed and does not verify would be reported so too.
    InternalError,
}

/// The length in bytes of the trusted modulus and of every group element on
/// the wire.
pub const GROUP_SIZE: usize = 256;

/// The length in bytes of the nonce on the wire.
pub const NONCE_SIZE: usize = 4;

/// The number of rounds of the primality test behind the prime challenge.
pub const PRIMALITY_ROUNDS: u32 = 40;

/// The trusted modulus, big-endian: the RSA-2048 challenge number, whose
/// factors nobody is believed to know.
pub const TRUSTED_MODULUS_BYTES: [u8; 256] = [
    0xc7, 0x97, 0x0c, 0xee, 0xdc, 0xc3, 0xb0, 0x75,
    0x44, 0x90, 0x20, 0x1a, 0x7a, 0xa6, 0x13, 0xcd,
    0x73, 0x91, 0x10, 0x81, 0xc7, 0x90, 0xf5, 0xf1,
    0xa8, 0x72, 0x6f, 0x46, 0x35, 0x50, 0xbb, 0x5b,
    0x7f, 0xf0, 0xdb, 0x8e, 0x1e, 0xa1, 0x18, 0x9e,
    0xc7, 0x2f, 0x93, 0xd1, 0x65, 0x00, 0x11, 0xbd,
    0x72, 0x1a, 0xee, 0xac, 0xc2, 0xac, 0xde, 0x32,
    0xa0, 0x41, 0x07, 0xf0, 0x64, 0x8c, 0x28, 0x13,
    0xa3, 0x1f, 0x5b, 0x0b, 0x77, 0x65, 0xff, 0x8b,
    0x44, 0xb4, 0xb6, 0xff, 0xc9, 0x33, 0x84, 0xb6,
    0x46, 0xeb, 0x09, 0xc7, 0xcf, 0x5e, 0x85, 0x92,
    0xd4, 0x0e, 0xa3, 0x3c, 0x80, 0x03, 0x9f, 0x35,
    0xb4, 0xf1, 0x4a, 0x04, 0xb5, 0x1f, 0x7b, 0xfd,
    0x78, 0x1b, 0xe4, 0xd1, 0x67, 0x31, 0x64, 0xba,
    0x8e, 0xb9, 0x91, 0xc2, 0xc4, 0xd7, 0x30, 0xbb,
    0xbe, 0x35, 0xf5, 0x92, 0xbd, 0xef, 0x52, 0x4a,
    0xf7, 0xe8, 0xda, 0xef, 0xd2, 0x6c, 0x66, 0xfc,
    0x02, 0xc4, 0x79, 0xaf, 0x89, 0xd6, 0x4d, 0x37,
    0x3f, 0x44, 0x27, 0x09, 0x43, 0x9d, 0xe6, 0x6c,
    0xeb, 0x95, 0x5f, 0x3e, 0xa3, 0x7d, 0x51, 0x59,
    0xf6, 0x13, 0x58, 0x09, 0xf8, 0x53, 0x34, 0xb5,
    0xcb, 0x18, 0x13, 0xad, 0xdc, 0x80, 0xcd, 0x05,
    0x60, 0x9f, 0x10, 0xac, 0x6a, 0x95, 0xad, 0x65,
    0x87, 0x2c, 0x90, 0x95, 0x25, 0xbd, 0xad, 0x32,
    0xbc, 0x72, 0x95, 0x92, 0x64, 0x29, 0x20, 0xf2,
    0x4c, 0x61, 0xdc, 0x5b, 0x3c, 0x3b, 0x79, 0x23,
    0xe5, 0x6b, 0x16, 0xa4, 0xd9, 0xd3, 0x73, 0xd8,
    0x72, 0x1f, 0x24, 0xa3, 0xfc, 0x0f, 0x1b, 0x31,
    0x31, 0xf5, 0x56, 0x15, 0x17, 0x28, 0x66, 0xbc,
    0xcc, 0x30, 0xf9, 0x50, 0x54, 0xc8, 0x24, 0xe7,
    0x33, 0xa5, 0xeb, 0x68, 0x17, 0xf7, 0xbc, 0x16,
    0x39, 0x9d, 0x48, 0xc6, 0x36, 0x1c, 0xc7, 0xe5,
];

/// The trusted modulus as a number.
pub open spec fn trusted_modulus() -> nat {
    be_value(TRUSTED_MODULUS_BYTES@)
}

/// The trusted modulus has exactly 2048 bits: it fills its 256 bytes, and
/// the highest bit of the first byte is set.
pub proof fn lemma_trusted_modulus_size()
    ensures
        pow2(2047) <= trusted_modulus() < pow2(2048),
        1 < trusted_modulus() < radix(GROUP_SIZE as nat),
{
    let s = TRUSTED_MODULUS_BYTES@;
    assert(s.len() == 256);
    assert(s[0] == 0xc7);
    lemma_be_value_bound(s);
    lemma_be_value_lower_bound(s);
    lemma_radix_is_pow2(255);
    lemma_radix_is_pow2(256);
    lemma2_to64();
    lemma_pow2_adds(7, 2040);
    lemma_pow2_pos(2047);
    let r = radix(255) as int;
    assert(0xc7 * r >= 128 * r) by (nonlinear_arith)
        requires
            r >= 0,
    ;
}

/// The trusted modulus.
pub fn get_trusted_rsa_modules() -> (n: BigNat)
    ensures
        n@ == trusted_modulus(),
{
    let bytes = TRUSTED_MODULUS_BYTES;
    BigNat::from_bytes(bytes.as_slice())
}

/// The group element that a seed stands for: the digest of the minimal
/// encodings of the modulus and of the seed, reduced modulo the modulus.
pub open spec fn h_g_spec(n: nat, x: nat) -> nat {
    hash_of_numbers(seq![n, x]) % n
}

/// Hashes the seed `x` into the group of the modulus `n`.
pub fn h_g(n: &BigNat, x: &BigNat) -> (g: BigNat)
    requires
        n@ > 0,
    ensures
        g@ == h_g_spec(n@, x@),
        g@ < n@,
{
    let inputs = [n, x];
    let digest = Keccak256::create_hash(inputs.as_slice());
    proof {
        assert(inputs@.map_values(|b: &BigNat| b@) =~= seq![n@, x@]);
        lemma_mod_bound(digest@ as int, n@ as int);
    }
    digest.mod_floor(n)
}

/// The bytes that are hashed into the candidate under `nonce`: the minimal
/// encodings of `g` and of `y`, then the nonce in four bytes, big-endian.
pub open spec fn candidate_input(g: nat, y: nat, nonce: u32) -> Seq<u8> {
    be_minimal(g) + be_minimal(y) + be_fixed(nonce as nat, NONCE_SIZE as nat)
}

/// The number that is tried as a challenge under `nonce`: the digest of the
/// candidate's input, read as a number.
pub open spec fn prime_candidate(g: nat, y: nat, nonce: u32) -> nat {
    hash_of_bytes(candidate_input(g, y, nonce))
}

/// Whether a candidate is taken as the challenge, given what the primality
/// test answers for it: it must pass the test, and it must be at least two.
pub open spec fn takes(candidate: nat, passes_test: bool) -> bool {
    passes_test && candidate >= 2
}

/// Whether the candidate under `nonce` is taken as the challenge.
pub open spec fn accepted(g: nat, y: nat, nonce: u32) -> bool {
    takes(
        prime_candidate(g, y, nonce),
        probable_prime(prime_candidate(g, y, nonce), PRIMALITY_ROUNDS),
    )
}

/// Whether `nonce` is the smallest nonce whose candidate is taken.
pub open spec fn first_accepted(g: nat, y: nat, nonce: u32) -> bool {
    accepted(g, y, nonce) && forall|k: u32| k < nonce ==> !accepted(g, y, k)
}

/// The challenge for `(g, y)` and the nonce that leads to it: the candidate
/// under the smallest nonce that is taken, if any nonce is.
pub open spec fn hash_to_prime_spec(g: nat, y: nat) -> Option<(nat, u32)> {
    if exists|nonce: u32| accepted(g, y, nonce) {
        let nonce = choose|nonce: u32| first_accepted(g, y, nonce);
        Some((prime_candidate(g, y, nonce), nonce))
    } else {
        None
    }
}

/// The smallest nonce that is taken is the one that the challenge comes
/// from.
pub proof fn lemma_first_accepted_is_chosen(g: nat, y: nat, nonce: u32)
    requires
        first_accepted(g, y, nonce),
    ensures
        hash_to_prime_spec(g, y) == Some((prime_candidate(g, y, nonce), nonce)),
{
    assert(accepted(g, y, nonce));
    let chosen = choose|k: u32| first_accepted(g, y, k);
    assert(first_accepted(g, y, chosen));
    assert(chosen == nonce) by {
        if chosen < nonce {
            assert(!accepted(g, y, chosen));
        }
        if nonce < chosen {
            assert(!accepted(g, y, nonce));
        }
    }
}

/// Where some nonce is taken, some nonce is the smallest that is taken.
pub proof fn lemma_first_accepted_exists(g: nat, y: nat, nonce: u32)
    requires
        accepted(g, y, nonce),
    ensures
        exists|k: u32| first_accepted(g, y, k),
    decreases nonce,
{
    if forall|k: u32| k < nonce ==> !accepted(g, y, k) {
        assert(first_accepted(g, y, nonce));
    } else {
        let earlier = choose|k: u32| k < nonce && accepted(g, y, k);
        lemma_first_accepted_exists(g, y, earlier);
    }
}

/// A challenge is the candidate under the smallest nonce that is taken, and
/// it is at least two.
pub proof fn lemma_hash_to_prime_spec(g: nat, y: nat)
    ensures
        match hash_to_prime_spec(g, y) {
            Some((l, nonce)) => first_accepted(g, y, nonce) && l == prime_candidate(g, y, nonce)
                && l >= 2,
            None => forall|nonce: u32| !accepted(g, y, nonce),
        },
{
    if exists|nonce: u32| accepted(g, y, nonce) {
        let taken = choose|nonce: u32| accepted(g, y, nonce);
        lemma_first_accepted_exists(g, y, taken);
    }
}

/// The challenge is determined by `(g, y)`: two nonces that are each the
/// smallest one taken are one nonce, with one candidate.
pub proof fn lemma_hash_to_prime_deterministic(g: nat, y: nat, first: u32, second: u32)
    requires
        first_accepted(g, y, first),
        first_accepted(g, y, second),
    ensures
        first == second,
        prime_candidate(g, y, first) == prime_candidate(g, y, second),
{
    if first < second {
        assert(!accepted(g, y, first));
    }
    if second < first {
        assert(!accepted(g, y, second));
    }
}

/// The bytes that are hashed into the candidate under `nonce`: the minimal
/// encodings of `g` and of `y`, then the nonce in four bytes, big-endian.
pub fn candidate_bytes(g: &BigNat, y: &BigNat, nonce: u32) -> (input: Vec<u8>)
    ensures
        input@ == candidate_input(g@, y@, nonce),
{
    let mut input: Vec<u8> = g.to_bytes();
    let y_bytes = y.to_bytes();
    append_bytes(&mut input, y_bytes.as_slice());
    let nonce_bytes = fixed_width_bytes_of_u64(nonce as u64, NONCE_SIZE);
    append_bytes(&mut input, nonce_bytes.as_slice());
    input
}

/// Whether a candidate is taken as the challenge, given what the primality
/// test answered for it. A candidate below two is passed over whatever the
/// test answered, so that the challenge can always be divided by.
pub fn takes_candidate(candidate: &BigNat, passes_test: bool) -> (taken: bool)
    ensures
        taken == takes(candidate@, passes_test),
{
    let two = BigNat::from_u64(2);
    passes_test && !candidate.less_than(&two)
}

/// Derives the prime challenge for `(g, y)`: tries the nonces from zero
/// upwards and takes the first candidate that passes the primality test.
/// Fails with `InternalError` where no nonce of 32 bits is taken.
pub fn hash_to_prime(g: &BigNat, y: &BigNat) -> (result: Result<(BigNat, u32), ErrorReason>)
    ensures
        match result {
            Ok((l, nonce)) => hash_to_prime_spec(g@, y@) == Some((l@, nonce)) && 2 <= l@ < radix(
                KECCAK256_BYTES as nat,
            ),
            Err(e) => e == ErrorReason::InternalError && hash_to_prime_spec(g@, y@) is None,
        },
{
    let mut nonce: u32 = 0;
    loop
        invariant
            forall|k: u32| k < nonce ==> !accepted(g@, y@, k),
        decreases u32::MAX - nonce,
    {
        let input = candidate_bytes(g, y, nonce);
        let candidate = Keccak256::create_hash_from_slice(input.as_slice());
        let passes_test = candidate.is_probable_prime(PRIMALITY_ROUNDS);
        if takes_candidate(&candidate, passes_test) {
            proof {
                lemma_first_accepted_is_chosen(g@, y@, nonce);
            }
            return Ok((candidate, nonce));
        }
        if nonce == u32::MAX {
            proof {
                assert forall|k: u32| !accepted(g@, y@, k) by {
                    if k < nonce {
                    } else {
                        assert(k == nonce);
                    }
                }
            }
            return Err(ErrorReason::InternalError);
        }
        nonce = nonce + 1;
    }
}

} // verus!
