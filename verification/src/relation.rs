//! The arithmetic of the delay function: what the evaluator computes and why
//! the verifier accepts it.
//!
//! For a group element `g`, a modulus `n`, a delay `t` and a challenge `l`,
//! write `2^t = Q * l + R` with `0 <= R < l`. The output is `y = g^(2^t)`, the
//! witness is `g^Q`, and the verifier checks `witness^l * g^R = y`, all modulo
//! `n`.

use vstd::prelude::*;
use crate::bigint::BigNat;
use vstd::arithmetic::power::{
    pow,
    lemma_pow0,
    lemma_pow1,
    lemma_pow_adds,
    lemma_pow_multiplies,
    lemma_pow_mod_noop,
    lemma_pow_positive,
    lemma1_pow,
};
use vstd::arithmetic::power2::{pow2, lemma_pow2, lemma_pow2_unfold};
use vstd::arithmetic::div_mod::{
    lemma_fundamental_div_mod,
    lemma_fundamental_div_mod_converse,
    lemma_mul_mod_noop,
    lemma_mod_bound,
    lemma_mod_twice,
    lemma_small_mod,
};

verus! {

/// `base^exponent mod n`.
pub open spec fn power_mod(base: nat, exponent: nat, n: nat) -> nat {
    (pow(base as int, exponent) % (n as int)) as nat
}

/// The output of the delay function: `g` squared `t` times in a row, that is
/// `g^(2^t) mod n`.
pub open spec fn delay_output(g: nat, t: nat, n: nat) -> nat {
    power_mod(g, pow2(t), n)
}

/// The exponent that is left for the verifier: `2^t mod l`.
pub open spec fn challenge_remainder(t: nat, l: nat) -> nat {
    pow2(t) % l
}

/// The witness of the output: `g^(2^t / l) mod n`, and one where nothing was
/// squared.
pub open spec fn delay_witness(g: nat, t: nat, l: nat, n: nat) -> nat {
    if t == 0 {
        1
    } else {
        power_mod(g, pow2(t) / l, n)
    }
}

/// The doubled remainder that the last step of the long division divides by
/// `l`: `2 * (2^(t-1) mod l)`, and zero where there is no step.
pub open spec fn last_doubled_remainder(t: nat, l: nat) -> nat {
    if t == 0 {
        0
    } else {
        2 * challenge_remainder((t - 1) as nat, l)
    }
}

/// The auxiliary quotient that is sent along with a witness `pi`: the product
/// of `pi^l mod n` and `g^r2 mod n`, divided by `n`, where `r2` is the doubled
/// remainder of the last division step.
pub open spec fn auxiliary_quotient(g: nat, pi: nat, t: nat, l: nat, n: nat) -> nat {
    (power_mod(pi, l, n) * power_mod(g, last_doubled_remainder(t, l), n)) / n
}

/// The relation that the verifier checks: `pi^l * g^(2^t mod l) = y`, modulo
/// `n`.
pub open spec fn relation_holds(g: nat, y: nat, pi: nat, l: nat, t: nat, n: nat) -> bool {
    (power_mod(pi, l, n) * power_mod(g, challenge_remainder(t, l), n)) % n == y
}

/// A power reduced modulo `n` lies below `n`.
pub proof fn lemma_power_mod_bound(base: nat, exponent: nat, n: nat)
    requires
        n > 0,
    ensures
        power_mod(base, exponent, n) < n,
        power_mod(base, exponent, n) == pow(base as int, exponent) % (n as int),
{
    lemma_mod_bound(pow(base as int, exponent), n as int);
}

/// With no squaring the output is `g` reduced, the witness is one, and the
/// remainder is one.
pub proof fn lemma_no_delay(g: nat, l: nat, n: nat)
    requires
        n > 0,
        l > 1,
    ensures
        delay_output(g, 0, n) == g % n,
        delay_witness(g, 0, l, n) == 1,
        challenge_remainder(0, l) == 1,
        last_doubled_remainder(0, l) == 0,
        pow2(0) / l == 0,
{
    lemma_pow0(2);
    lemma_pow1(g as int);
    lemma_small_mod(1, l);
    assert(pow2(0) == 1);
    assert(1nat / l == 0) by (nonlinear_arith)
        requires
            l > 1,
    ;
}

/// One squaring doubles the exponent: from `g^(2^k)` to `g^(2^(k+1))`.
pub proof fn lemma_squaring_step(g: nat, k: nat, n: nat)
    requires
        n > 0,
    ensures
        (delay_output(g, k, n) * delay_output(g, k, n)) % n == delay_output(g, k + 1, n),
{
    let a = pow(g as int, pow2(k));
    let m = n as int;
    lemma_mod_bound(a, m);
    lemma_mul_mod_noop(a, a, m);
    lemma_pow_adds(g as int, pow2(k), pow2(k));
    lemma_pow2_unfold(k + 1);
    assert(pow2(k + 1) == pow2(k) + pow2(k));
    lemma_mod_bound(pow(g as int, pow2(k + 1)), m);
}

/// One step of the long division of `2^t` by `l`: doubling the remainder
/// yields the next bit of the quotient and the next remainder.
pub proof fn lemma_division_step(k: nat, l: nat)
    requires
        l > 0,
    ensures
        (2 * challenge_remainder(k, l)) / l <= 1,
        pow2(k + 1) / l == 2 * (pow2(k) / l) + (2 * challenge_remainder(k, l)) / l,
        challenge_remainder(k + 1, l) == (2 * challenge_remainder(k, l)) % l,
{
    let p = pow2(k) as int;
    let d = l as int;
    let q = p / d;
    let r = p % d;
    let b = (2 * r) / d;
    let s = (2 * r) % d;
    lemma_pow2_unfold(k + 1);
    lemma_fundamental_div_mod(p, d);
    lemma_mod_bound(p, d);
    lemma_fundamental_div_mod(2 * r, d);
    lemma_mod_bound(2 * r, d);
    assert(0 <= b <= 1) by (nonlinear_arith)
        requires
            2 * r == d * b + s,
            0 <= s < d,
            0 <= r < d,
    ;
    assert(2 * p == (2 * q + b) * d + s) by (nonlinear_arith)
        requires
            p == d * q + r,
            2 * r == d * b + s,
    ;
    lemma_fundamental_div_mod_converse(2 * p, d, 2 * q + b, s);
}

/// One step of the witness: squaring doubles the exponent, and multiplying
/// by `g^b` adds `b` to it.
pub proof fn lemma_witness_step(g: nat, e: nat, b: nat, n: nat)
    requires
        n > 0,
    ensures
        (((power_mod(g, e, n) * power_mod(g, e, n)) % n) * power_mod(g, b, n)) % n == power_mod(
            g,
            2 * e + b,
            n,
        ),
{
    let m = n as int;
    let a = pow(g as int, e);
    let c = pow(g as int, b);
    lemma_mod_bound(a, m);
    lemma_mod_bound(c, m);
    lemma_mod_bound(a * a, m);
    lemma_mul_mod_noop(a, a, m);
    lemma_mul_mod_noop(a * a, c, m);
    lemma_pow_adds(g as int, e, e);
    lemma_pow_adds(g as int, e + e, b);
    lemma_mod_bound(pow(g as int, 2 * e + b), m);
    lemma_mod_twice(a * a, m);
}

/// The first step of the witness starts from one: it yields `g^b`.
pub proof fn lemma_first_witness_step(g: nat, b: nat, n: nat)
    requires
        n > 0,
    ensures
        (((1nat * 1nat) % n) * power_mod(g, b, n)) % n == power_mod(g, b, n),
{
    let m = n as int;
    let c = pow(g as int, b);
    lemma_mod_bound(c, m);
    lemma_mul_mod_noop(1, c, m);
    assert(1 * c == c);
    assert((1nat * 1nat) % n == 1int % m);
}

/// Raising a witness `g^e mod n` to the power `l` and multiplying by `g^r`
/// gives `g^(e * l + r)`, modulo `n`.
pub proof fn lemma_recombine(g: nat, e: nat, l: nat, r: nat, n: nat)
    requires
        n > 0,
    ensures
        (power_mod(power_mod(g, e, n), l, n) * power_mod(g, r, n)) % n == power_mod(
            g,
            e * l + r,
            n,
        ),
{
    let m = n as int;
    let a = pow(g as int, e);
    lemma_mod_bound(a, m);
    lemma_pow_mod_noop(a, l, m);
    lemma_pow_multiplies(g as int, e, l);
    let x = pow(g as int, e * l);
    let c = pow(g as int, r);
    assert(pow(a % m, l) % m == x % m);
    lemma_mod_bound(x, m);
    lemma_mod_bound(c, m);
    lemma_mul_mod_noop(x, c, m);
    lemma_pow_adds(g as int, e * l, r);
    lemma_mod_bound(pow(g as int, e * l + r), m);
    lemma_mod_bound(pow(a % m, l), m);
}

/// The witness of the evaluator satisfies the relation of the verifier, for
/// every group element, delay, challenge of at least two and positive
/// modulus.
pub proof fn lemma_witness_satisfies_relation(g: nat, t: nat, l: nat, n: nat)
    requires
        n > 0,
        l > 1,
    ensures
        relation_holds(g, delay_output(g, t, n), delay_witness(g, t, l, n), l, t, n),
{
    let p = pow2(t);
    let e = p / l;
    let r = p % l;
    lemma_fundamental_div_mod(p as int, l as int);
    assert(e * l + r == p) by (nonlinear_arith)
        requires
            p == l * e + r,
    ;
    if t == 0 {
        let m = n as int;
        let c = pow(g as int, r);
        lemma_pow0(2);
        lemma1_pow(l);
        lemma_pow1(g as int);
        lemma_mod_bound(c, m);
        lemma_mul_mod_noop(1, c, m);
        assert(1 * c == c);
        lemma_small_mod(1, l);
        assert(r == 1);
    } else {
        lemma_recombine(g, e, l, r, n);
    }
}

/// The output, the witness and the auxiliary quotient all lie below a
/// modulus of at least two.
pub proof fn lemma_results_below_modulus(g: nat, pi: nat, t: nat, l: nat, n: nat)
    requires
        n > 1,
    ensures
        delay_output(g, t, n) < n,
        delay_witness(g, t, l, n) < n,
        auxiliary_quotient(g, pi, t, l, n) < n,
{
    lemma_power_mod_bound(g, pow2(t), n);
    lemma_power_mod_bound(g, pow2(t) / l, n);
    lemma_power_mod_bound(pi, l, n);
    lemma_power_mod_bound(g, last_doubled_remainder(t, l), n);
    let u1 = power_mod(pi, l, n) as int;
    let u2 = power_mod(g, last_doubled_remainder(t, l), n) as int;
    let m = n as int;
    assert(u1 * u2 < m * m) by (nonlinear_arith)
        requires
            0 <= u1 < m,
            0 <= u2 < m,
    ;
    assert((u1 * u2) / m < m) by (nonlinear_arith)
        requires
            0 <= u1 * u2 < m * m,
            m > 0,
    ;
    assert((u1 * u2) / m >= 0) by (nonlinear_arith)
        requires
            0 <= u1 * u2,
            m > 0,
    ;
}

/// Squares the group element `g` modulo `n`, `t` times, one squaring after
/// the other.
pub fn square_repeatedly(g: &BigNat, t: &BigNat, n: &BigNat) -> (y: BigNat)
    requires
        n@ > 0,
        g@ < n@,
    ensures
        y@ == delay_output(g@, t@, n@),
{
    let one = BigNat::one();
    let mut y = g.clone();
    let mut i = BigNat::zero();
    proof {
        lemma_pow1(g@ as int);
        lemma_pow0(2);
        lemma_small_mod(g@, n@);
    }
    while i.less_than(t)
        invariant
            n@ > 0,
            one@ == 1,
            i@ <= t@,
            y@ == delay_output(g@, i@, n@),
        decreases t@ - i@,
    {
        proof {
            lemma_squaring_step(g@, i@, n@);
        }
        y = BigNat::mod_mul(&y, &y, n);
        i = i.add(&one);
    }
    y
}

/// Builds the witness for the challenge `l` by long division of `2^t` by
/// `l`: every step doubles the remainder, takes the next bit `b` of the
/// quotient off it, squares the witness and multiplies it by `g^b`. The
/// auxiliary quotient comes with it.
pub fn witness_by_long_division(g: &BigNat, t: &BigNat, l: &BigNat, n: &BigNat) -> (found: (
    BigNat,
    BigNat,
))
    requires
        n@ > 0,
        l@ > 1,
    ensures
        found.0@ == delay_witness(g@, t@, l@, n@),
        found.1@ == auxiliary_quotient(g@, found.0@, t@, l@, n@),
{
    let one = BigNat::one();
    let two = BigNat::from_u64(2);
    let mut i = BigNat::zero();
    let mut r = BigNat::one();
    let mut r2 = BigNat::zero();
    let mut pi = BigNat::one();
    proof {
        lemma_no_delay(g@, l@, n@);
    }
    while i.less_than(t)
        invariant
            n@ > 0,
            l@ > 1,
            one@ == 1,
            two@ == 2,
            i@ <= t@,
            r@ == challenge_remainder(i@, l@),
            r2@ == last_doubled_remainder(i@, l@),
            pi@ == delay_witness(g@, i@, l@, n@),
        decreases t@ - i@,
    {
        r2 = r.mul(&two);
        let b = r2.div_floor(l);
        r = r2.mod_floor(l);
        let g_b = BigNat::mod_pow(g, &b, n);
        proof {
            lemma_division_step(i@, l@);
            lemma_power_mod_bound(g@, b@, n@);
            if i@ == 0 {
                lemma_no_delay(g@, l@, n@);
                lemma_first_witness_step(g@, b@, n@);
            } else {
                lemma_witness_step(g@, pow2(i@) / l@, b@, n@);
            }
            assert(pow2(i@ + 1) / l@ == 2 * (pow2(i@) / l@) + b@);
            assert((((pi@ * pi@) % n@) * g_b@) % n@ == power_mod(g@, pow2(i@ + 1) / l@, n@));
        }
        pi = BigNat::mod_mul(&pi, &pi, n);
        pi = BigNat::mod_mul(&pi, &g_b, n);
        i = i.add(&one);
    }

    let u1 = BigNat::mod_pow(&pi, l, n);
    let u2 = BigNat::mod_pow(g, &r2, n);
    let q = u1.mul(&u2).div_floor(n);
    proof {
        lemma_power_mod_bound(pi@, l@, n@);
        lemma_power_mod_bound(g@, r2@, n@);
    }
    (pi, q)
}

/// Checks the relation `pi^l * g^(2^t mod l) = y` modulo `n`.
pub fn check_relation(
    g: &BigNat,
    y: &BigNat,
    pi: &BigNat,
    l: &BigNat,
    t: &BigNat,
    n: &BigNat,
) -> (holds: bool)
    requires
        n@ > 0,
        l@ > 0,
    ensures
        holds == relation_holds(g@, y@, pi@, l@, t@, n@),
{
    let two = BigNat::from_u64(2);
    let r = BigNat::mod_pow(&two, t, l);
    let pi_l = BigNat::mod_pow(pi, l, n);
    let g_r = BigNat::mod_pow(g, &r, n);
    let pi_l_g_r = BigNat::mod_mul(&pi_l, &g_r, n);
    proof {
        lemma_pow2(t@);
        lemma_pow_positive(2, t@);
        lemma_power_mod_bound(pi@, l@, n@);
        lemma_power_mod_bound(g@, r@, n@);
    }
    pi_l_g_r == *y
}

} // verus!
