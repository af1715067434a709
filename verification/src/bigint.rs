//! Natural numbers of any size.
//!
//! A [`BigNat`] holds its number as the minimal big-endian byte string, so
//! that equal numbers are equal values. The arithmetic itself is done by the
//! arbitrary-precision integers of `curv`: each operation hands the operands
//! over as bytes and takes the result back as bytes.

use vstd::prelude::*;
use vstd::arithmetic::power::pow;
use vstd::arithmetic::power2::pow2;
use vstd::std_specs::cmp::PartialEqSpecImpl;
use crate::encoding::{
    be_value,
    be_minimal,
    is_minimal,
    minimal_bytes,
    fixed_width_bytes_of_u64,
    lemma_be_minimal,
    lemma_be_fixed_value,
    lemma_radix_machine,
    lemma_minimal_unique,
    lemma_minimal_is_be_minimal,
    lemma_minimal_shorter_is_smaller,
    lemma_be_value_order,
};
use curv_kzen::arithmetic::BigInt;
use curv_kzen::arithmetic::traits::BasicOps;
use curv_kzen::arithmetic::traits::Converter;
use curv_kzen::arithmetic::traits::Integer;
use curv_kzen::arithmetic::traits::Modulo;
use curv_kzen::arithmetic::traits::Primes;
use curv_kzen::arithmetic::traits::Samplable;

verus! {

/// A natural number of any size.
#[derive(Debug)]
pub struct BigNat {
    bytes: Vec<u8>,
}

/// What the probabilistic primality test of the arithmetic backend answers
/// for the number `n` when it is asked for `reps` rounds.
pub uninterp spec fn probable_prime(n: nat, reps: u32) -> bool;

// The functions below are the only ones that reach into `curv`. None of them
// is verified: each contract is what the documentation and the source of
// `curv` and of its GMP binding say of the call. Every operand goes in through
// `Converter::from_bytes`, which reads bytes as a big-endian natural number,
// and every result comes back through `Converter::to_bytes`, which writes the
// number big-endian. Nothing is assumed of leading zeros in what comes back:
// the verified code around these functions strips them.

/// `BasicOps::add` of curv's `BigInt`: the sum of the two numbers.
#[verifier::external_body]
fn big_add(a: &BigNat, b: &BigNat) -> (out: Vec<u8>)
    ensures
        be_value(out@) == a@ + b@,
{
    let x = BigInt::from_bytes(&a.bytes);
    let y = BigInt::from_bytes(&b.bytes);
    BasicOps::add(&x, &y).to_bytes()
}

/// `BasicOps::mul` of curv's `BigInt`: the product of the two numbers.
#[verifier::external_body]
fn big_mul(a: &BigNat, b: &BigNat) -> (out: Vec<u8>)
    ensures
        be_value(out@) == a@ * b@,
{
    let x = BigInt::from_bytes(&a.bytes);
    let y = BigInt::from_bytes(&b.bytes);
    BasicOps::mul(&x, &y).to_bytes()
}

/// `Integer::div_floor` of curv's `BigInt`: the quotient rounded down. The
/// backend stops the program on a zero divisor, which the precondition
/// leaves out.
#[verifier::external_body]
fn big_div_floor(a: &BigNat, b: &BigNat) -> (out: Vec<u8>)
    requires
        b@ > 0,
    ensures
        be_value(out@) == a@ / b@,
{
    let x = BigInt::from_bytes(&a.bytes);
    let y = BigInt::from_bytes(&b.bytes);
    x.div_floor(&y).to_bytes()
}

/// `Integer::mod_floor` of curv's `BigInt`: the remainder of the division
/// rounded down. The backend stops the program on a zero divisor, which the
/// precondition leaves out.
#[verifier::external_body]
fn big_mod_floor(a: &BigNat, b: &BigNat) -> (out: Vec<u8>)
    requires
        b@ > 0,
    ensures
        be_value(out@) == a@ % b@,
{
    let x = BigInt::from_bytes(&a.bytes);
    let y = BigInt::from_bytes(&b.bytes);
    x.mod_floor(&y).to_bytes()
}

/// `Modulo::mod_mul` of curv's `BigInt`: the product reduced modulo `m`. The
/// backend stops the program on a zero modulus, which the precondition leaves
/// out.
#[verifier::external_body]
fn big_mod_mul(a: &BigNat, b: &BigNat, m: &BigNat) -> (out: Vec<u8>)
    requires
        m@ > 0,
    ensures
        be_value(out@) == (a@ * b@) % m@,
{
    let x = BigInt::from_bytes(&a.bytes);
    let y = BigInt::from_bytes(&b.bytes);
    let z = BigInt::from_bytes(&m.bytes);
    BigInt::mod_mul(&x, &y, &z).to_bytes()
}

/// `Modulo::mod_pow` of curv's `BigInt`: `base` to the power `exponent`,
/// reduced modulo `m`, where the power zero is one. The backend stops the
/// program on a zero modulus, which the precondition leaves out.
#[verifier::external_body]
fn big_mod_pow(base: &BigNat, exponent: &BigNat, m: &BigNat) -> (out: Vec<u8>)
    requires
        m@ > 0,
    ensures
        be_value(out@) == pow(base@ as int, exponent@) % (m@ as int),
{
    let x = BigInt::from_bytes(&base.bytes);
    let e = BigInt::from_bytes(&exponent.bytes);
    let z = BigInt::from_bytes(&m.bytes);
    BigInt::mod_pow(&x, &e, &z).to_bytes()
}

/// `Primes::is_probable_prime` of curv's `BigInt`, which hands the number
/// and the number of rounds to the primality test of GMP and nothing else.
/// That test takes no random state from its caller and keeps none between
/// calls, so its answer is a function of the number and of the number of
/// rounds, for the GMP that the program is linked with. The contract gives
/// the answer its name and claims nothing of what it is.
#[verifier::external_body]
fn big_is_probable_prime(n: &BigNat, reps: u32) -> (verdict: bool)
    ensures
        verdict == probable_prime(n@, reps),
{
    BigInt::from_bytes(&n.bytes).is_probable_prime(reps)
}

/// `Samplable::sample` of curv's `BigInt`: a number below `2^bit_size`, made
/// of random bytes of the operating system. Each call may answer differently,
/// and the bound is all that holds of every answer. Like a call that runs out
/// of memory, one that finds the random source of the operating system
/// failing stops the program; no input decides that.
#[verifier::external_body]
fn big_sample(bit_size: usize) -> (out: Vec<u8>)
    ensures
        be_value(out@) < pow2(bit_size as nat),
{
    BigInt::sample(bit_size).to_bytes()
}

impl View for BigNat {
    type V = nat;

    /// The number itself.
    closed spec fn view(&self) -> nat {
        be_value(self.bytes@)
    }
}

impl Clone for BigNat {
    fn clone(&self) -> (copy: Self)
        ensures
            copy@ == self@,
    {
        proof {
            use_type_invariant(self);
        }
        BigNat { bytes: self.bytes.clone() }
    }
}

impl PartialEq for BigNat {
    fn eq(&self, other: &Self) -> (same: bool) {
        proof {
            use_type_invariant(self);
            use_type_invariant(other);
            if self@ == other@ {
                lemma_minimal_unique(self.bytes@, other.bytes@);
            }
        }
        let n = self.bytes.len();
        if n != other.bytes.len() {
            return false;
        }
        let mut i: usize = 0;
        while i < n
            invariant
                i <= n,
                n == self.bytes.len(),
                n == other.bytes.len(),
                self.bytes@.subrange(0, i as int) == other.bytes@.subrange(0, i as int),
                self@ == other@ ==> self.bytes@ == other.bytes@,
            decreases n - i,
        {
            if self.bytes[i] != other.bytes[i] {
                return false;
            }
            proof {
                assert(self.bytes@.subrange(0, i + 1) =~= self.bytes@.subrange(0, i as int).push(
                    self.bytes@[i as int],
                ));
                assert(other.bytes@.subrange(0, i + 1) =~= other.bytes@.subrange(
                    0,
                    i as int,
                ).push(other.bytes@[i as int]));
            }
            i += 1;
        }
        proof {
            assert(self.bytes@ =~= self.bytes@.subrange(0, n as int));
            assert(other.bytes@ =~= other.bytes@.subrange(0, n as int));
        }
        true
    }
}

impl Eq for BigNat {

}

impl PartialEqSpecImpl for BigNat {
    open spec fn obeys_eq_spec() -> bool {
        true
    }

    open spec fn eq_spec(&self, other: &Self) -> bool {
        self@ == other@
    }
}

impl BigNat {
    #[verifier::type_invariant]
    spec fn canonical(self) -> bool {
        is_minimal(self.bytes@)
    }

    /// The number that `bytes` denotes when read big-endian; leading zero
    /// bytes, and an empty string, are accepted.
    pub fn from_bytes(bytes: &[u8]) -> (n: Self)
        ensures
            n@ == be_value(bytes@),
    {
        let minimal = minimal_bytes(bytes);
        proof {
            lemma_be_minimal(be_value(bytes@));
        }
        BigNat { bytes: minimal }
    }

    /// The minimal big-endian encoding: no leading zero byte, and the single
    /// byte zero for the number zero.
    pub fn to_bytes(&self) -> (bytes: Vec<u8>)
        ensures
            bytes@ == be_minimal(self@),
    {
        proof {
            use_type_invariant(self);
            lemma_minimal_is_be_minimal(self.bytes@);
        }
        self.bytes.clone()
    }

    pub fn from_u64(n: u64) -> (big: Self)
        ensures
            big@ == n,
    {
        let bytes = fixed_width_bytes_of_u64(n, 8);
        proof {
            lemma_radix_machine();
            lemma_be_fixed_value(n as nat, 8);
        }
        BigNat::from_bytes(bytes.as_slice())
    }

    pub fn zero() -> (big: Self)
        ensures
            big@ == 0,
    {
        BigNat::from_u64(0)
    }

    pub fn one() -> (big: Self)
        ensures
            big@ == 1,
    {
        BigNat::from_u64(1)
    }

    pub fn add(&self, other: &BigNat) -> (sum: BigNat)
        ensures
            sum@ == self@ + other@,
    {
        let raw = big_add(self, other);
        BigNat::from_bytes(raw.as_slice())
    }

    pub fn mul(&self, other: &BigNat) -> (product: BigNat)
        ensures
            product@ == self@ * other@,
    {
        let raw = big_mul(self, other);
        BigNat::from_bytes(raw.as_slice())
    }

    /// The quotient of the division rounded down.
    pub fn div_floor(&self, divisor: &BigNat) -> (quotient: BigNat)
        requires
            divisor@ > 0,
        ensures
            quotient@ == self@ / divisor@,
    {
        let raw = big_div_floor(self, divisor);
        BigNat::from_bytes(raw.as_slice())
    }

    /// The remainder of the division rounded down.
    pub fn mod_floor(&self, divisor: &BigNat) -> (remainder: BigNat)
        requires
            divisor@ > 0,
        ensures
            remainder@ == self@ % divisor@,
    {
        let raw = big_mod_floor(self, divisor);
        BigNat::from_bytes(raw.as_slice())
    }

    /// `a * b` reduced modulo `modulus`.
    pub fn mod_mul(a: &BigNat, b: &BigNat, modulus: &BigNat) -> (product: BigNat)
        requires
            modulus@ > 0,
        ensures
            product@ == (a@ * b@) % modulus@,
    {
        let raw = big_mod_mul(a, b, modulus);
        BigNat::from_bytes(raw.as_slice())
    }

    /// `base` to the power `exponent`, reduced modulo `modulus`.
    pub fn mod_pow(base: &BigNat, exponent: &BigNat, modulus: &BigNat) -> (power: BigNat)
        requires
            modulus@ > 0,
        ensures
            power@ == pow(base@ as int, exponent@) % (modulus@ as int),
    {
        let raw = big_mod_pow(base, exponent, modulus);
        BigNat::from_bytes(raw.as_slice())
    }

    /// Whether this number is below the other. Minimal encodings are
    /// ordered by length first and then by the first byte that differs.
    pub fn less_than(&self, other: &BigNat) -> (below: bool)
        ensures
            below == (self@ < other@),
    {
        proof {
            use_type_invariant(self);
            use_type_invariant(other);
        }
        let n = self.bytes.len();
        let m = other.bytes.len();
        if n < m {
            proof {
                lemma_minimal_shorter_is_smaller(self.bytes@, other.bytes@);
            }
            return true;
        }
        if m < n {
            proof {
                lemma_minimal_shorter_is_smaller(other.bytes@, self.bytes@);
            }
            return false;
        }
        let mut i: usize = 0;
        while i < n
            invariant
                i <= n,
                n == self.bytes.len(),
                n == other.bytes.len(),
                self.bytes@.subrange(0, i as int) == other.bytes@.subrange(0, i as int),
            decreases n - i,
        {
            if self.bytes[i] < other.bytes[i] {
                proof {
                    lemma_be_value_order(self.bytes@, other.bytes@, i as int);
                }
                return true;
            }
            if other.bytes[i] < self.bytes[i] {
                proof {
                    lemma_be_value_order(other.bytes@, self.bytes@, i as int);
                }
                return false;
            }
            proof {
                assert(self.bytes@.subrange(0, i + 1) =~= self.bytes@.subrange(0, i as int).push(
                    self.bytes@[i as int],
                ));
                assert(other.bytes@.subrange(0, i + 1) =~= other.bytes@.subrange(
                    0,
                    i as int,
                ).push(other.bytes@[i as int]));
            }
            i += 1;
        }
        proof {
            assert(self.bytes@ =~= self.bytes@.subrange(0, n as int));
            assert(other.bytes@ =~= other.bytes@.subrange(0, n as int));
        }
        false
    }

    /// The answer of the backend's probabilistic primality test after `reps`
    /// rounds.
    pub fn is_probable_prime(&self, reps: u32) -> (verdict: bool)
        ensures
            verdict == probable_prime(self@, reps),
    {
        big_is_probable_prime(self, reps)
    }

    /// A random number below `2^bit_size`.
    pub fn sample(bit_size: usize) -> (big: BigNat)
        ensures
            big@ < pow2(bit_size as nat),
    {
        let raw = big_sample(bit_size);
        BigNat::from_bytes(raw.as_slice())
    }
}

} // verus!
