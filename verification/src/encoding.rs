//! Big-endian byte strings and the natural numbers they denote.
//!
//! Everything that crosses the boundary of this library as an integer does so
//! as a big-endian byte string: the minimal encoding that feeds the hash, and
//! the fixed-width, zero-padded encoding of the wire format.

use vstd::prelude::*;
use vstd::arithmetic::power::{pow, lemma_pow_positive, lemma_pow_increases, lemma_pow_multiplies};
use vstd::arithmetic::power2::{pow2, lemma_pow2, lemma2_to64};
use vstd::arithmetic::div_mod::{
    lemma_div_denominator,
    lemma_fundamental_div_mod,
    lemma_fundamental_div_mod_converse,
};

verus! {

/// The number that a byte string denotes when read big-endian.
pub open spec fn be_value(s: Seq<u8>) -> nat
    decreases s.len(),
{
    if s.len() == 0 {
        0
    } else {
        be_value(s.drop_last()) * 256 + s.last() as nat
    }
}

/// `256^k`, the weight of the byte that has `k` bytes to its right.
pub open spec fn radix(k: nat) -> nat {
    pow(256, k) as nat
}

/// A byte string without a superfluous leading zero: at least one byte, and a
/// zero in front only when it is the single byte of the number zero.
pub open spec fn is_minimal(s: Seq<u8>) -> bool {
    s.len() >= 1 && (s.len() > 1 ==> s[0] != 0)
}

/// The big-endian digits of `n` without leading zeros; empty for zero.
pub open spec fn be_digits(n: nat) -> Seq<u8>
    decreases n,
{
    if n == 0 {
        Seq::empty()
    } else {
        be_digits(n / 256).push((n % 256) as u8)
    }
}

/// The minimal big-endian encoding of `n`: its digits, and one zero byte for
/// zero.
pub open spec fn be_minimal(n: nat) -> Seq<u8> {
    if n == 0 {
        seq![0u8]
    } else {
        be_digits(n)
    }
}

/// The big-endian encoding of `n` in exactly `width` bytes, zero-padded on the
/// left (and cut to the low `width` bytes where `n` does not fit).
pub open spec fn be_fixed(n: nat, width: nat) -> Seq<u8>
    decreases width,
{
    if width == 0 {
        Seq::empty()
    } else {
        be_fixed(n / 256, (width - 1) as nat).push((n % 256) as u8)
    }
}

/// A string of `k` zero bytes.
pub open spec fn zeros(k: nat) -> Seq<u8> {
    Seq::new(k, |i: int| 0u8)
}

/// The weights from one byte to the next: each is 256 times the one before.
pub proof fn lemma_radix(k: nat)
    ensures
        radix(0) == 1,
        radix(k + 1) == 256 * radix(k),
        radix(k) > 0,
{
    reveal(pow);
    lemma_pow_positive(256, k);
    lemma_pow_positive(256, k + 1);
    assert(pow(256, 0) == 1);
    assert(pow(256, k + 1) == 256 * pow(256, k));
}

/// More bytes weigh more.
pub proof fn lemma_radix_monotonic(j: nat, k: nat)
    requires
        j <= k,
    ensures
        radix(j) <= radix(k),
{
    lemma_pow_positive(256, j);
    lemma_pow_positive(256, k);
    lemma_pow_increases(256, j, k);
}

/// The weights of four and of eight bytes: the sizes of the machine integers.
pub proof fn lemma_radix_machine()
    ensures
        radix(4) == 0x1_0000_0000,
        radix(8) == 0x1_0000_0000_0000_0000,
{
    lemma_radix(0);
    lemma_radix(1);
    lemma_radix(2);
    lemma_radix(3);
    lemma_radix(4);
    lemma_radix(5);
    lemma_radix(6);
    lemma_radix(7);
}

/// Appending a byte shifts the value by one digit.
pub proof fn lemma_be_value_push(s: Seq<u8>, b: u8)
    ensures
        be_value(s.push(b)) == be_value(s) * 256 + b as nat,
{
    assert(s.push(b).drop_last() =~= s);
}

/// A string of `k` bytes denotes a number below `256^k`.
pub proof fn lemma_be_value_bound(s: Seq<u8>)
    ensures
        be_value(s) < radix(s.len()),
    decreases s.len(),
{
    if s.len() == 0 {
        lemma_radix(0);
    } else {
        lemma_be_value_bound(s.drop_last());
        lemma_radix((s.len() - 1) as nat);
    }
}

/// The value of a concatenation: the left part is shifted by the length of
/// the right part.
pub proof fn lemma_be_value_concat(a: Seq<u8>, b: Seq<u8>)
    ensures
        be_value(a + b) == be_value(a) * radix(b.len()) + be_value(b),
    decreases b.len(),
{
    if b.len() == 0 {
        assert(a + b =~= a);
        lemma_radix(0);
        assert(be_value(a) * radix(b.len()) == be_value(a)) by (nonlinear_arith)
            requires
                radix(b.len()) == 1,
        ;
    } else {
        let b0 = b.drop_last();
        assert((a + b).drop_last() =~= a + b0);
        assert((a + b).last() == b.last());
        lemma_be_value_concat(a, b0);
        lemma_radix(b0.len());
        let va = be_value(a) as int;
        let r = radix(b0.len()) as int;
        let vb = be_value(b0) as int;
        assert((va * r + vb) * 256 == va * (256 * r) + vb * 256) by (nonlinear_arith);
        assert(be_value(a + b) == (va * r + vb) * 256 + b.last() as nat);
        assert(radix(b.len()) == 256 * r);
        assert(be_value(a) * radix(b.len()) == va * (256 * r));
        assert(be_value(b) == vb * 256 + b.last() as nat);
    }
}

/// Zero bytes denote zero.
pub proof fn lemma_be_value_zeros(k: nat)
    ensures
        be_value(zeros(k)) == 0,
    decreases k,
{
    if k > 0 {
        assert(zeros(k).drop_last() =~= zeros((k - 1) as nat));
        lemma_be_value_zeros((k - 1) as nat);
    }
}

/// Zero bytes in front do not change the value.
pub proof fn lemma_be_value_leading_zeros(k: nat, s: Seq<u8>)
    ensures
        be_value(zeros(k) + s) == be_value(s),
{
    lemma_be_value_concat(zeros(k), s);
    lemma_be_value_zeros(k);
    assert(0 * radix(s.len()) == 0);
}

/// A string denotes at least its first byte times the weight of that byte;
/// so one that starts with a non-zero byte denotes at least `256^(len-1)`.
pub proof fn lemma_be_value_lower_bound(s: Seq<u8>)
    requires
        s.len() >= 1,
    ensures
        be_value(s) >= s[0] * radix((s.len() - 1) as nat),
        s[0] != 0 ==> be_value(s) >= radix((s.len() - 1) as nat),
{
    let head = s.subrange(0, 1);
    let tail = s.subrange(1, s.len() as int);
    assert(s =~= head + tail);
    lemma_be_value_concat(head, tail);
    assert(head.drop_last() =~= Seq::<u8>::empty());
    assert(be_value(head.drop_last()) == 0);
    assert(be_value(head) == s[0] as nat);
    let h = be_value(head) as int;
    let r = radix(tail.len()) as int;
    lemma_radix(tail.len());
    assert(h >= 1 ==> h * r >= r) by (nonlinear_arith)
        requires
            r >= 0,
    ;
}

/// The weight of `k` bytes is that of `8 * k` bits.
pub proof fn lemma_radix_is_pow2(k: nat)
    ensures
        radix(k) == pow2(8 * k),
{
    lemma2_to64();
    lemma_pow2(8);
    lemma_pow2(8 * k);
    lemma_pow_multiplies(2, 8, k);
    lemma_pow_positive(256, k);
}

/// Two strings of one length that denote one number are one string.
pub proof fn lemma_be_value_injective(a: Seq<u8>, b: Seq<u8>)
    requires
        a.len() == b.len(),
        be_value(a) == be_value(b),
    ensures
        a == b,
    decreases a.len(),
{
    if a.len() == 0 {
        assert(a =~= b);
    } else {
        let va = be_value(a.drop_last()) as int;
        let vb = be_value(b.drop_last()) as int;
        let la = a.last() as int;
        let lb = b.last() as int;
        assert(va == vb && la == lb) by {
            lemma_fundamental_div_mod_converse(va * 256 + la, 256, va, la);
            lemma_fundamental_div_mod_converse(vb * 256 + lb, 256, vb, lb);
        }
        lemma_be_value_injective(a.drop_last(), b.drop_last());
        assert(a =~= a.drop_last().push(a.last()));
        assert(b =~= b.drop_last().push(b.last()));
    }
}

/// Of two minimal strings the shorter denotes the smaller number.
pub proof fn lemma_minimal_shorter_is_smaller(a: Seq<u8>, b: Seq<u8>)
    requires
        is_minimal(a),
        is_minimal(b),
        a.len() < b.len(),
    ensures
        be_value(a) < be_value(b),
{
    lemma_be_value_bound(a);
    lemma_be_value_lower_bound(b);
    lemma_radix_monotonic(a.len(), (b.len() - 1) as nat);
}

/// Strings of one length are ordered as numbers by the first byte in which
/// they differ.
pub proof fn lemma_be_value_order(a: Seq<u8>, b: Seq<u8>, i: int)
    requires
        a.len() == b.len(),
        0 <= i < a.len(),
        a.subrange(0, i) == b.subrange(0, i),
        a[i] < b[i],
    ensures
        be_value(a) < be_value(b),
{
    let n = a.len() as int;
    let prefix = a.subrange(0, i);
    let a_tail = a.subrange(i + 1, n);
    let b_tail = b.subrange(i + 1, n);
    assert(a =~= prefix.push(a[i]) + a_tail);
    assert(b.subrange(0, i).push(b[i]) + b_tail =~= b);
    lemma_be_value_concat(prefix.push(a[i]), a_tail);
    lemma_be_value_concat(prefix.push(b[i]), b_tail);
    lemma_be_value_push(prefix, a[i]);
    lemma_be_value_push(prefix, b[i]);
    lemma_be_value_bound(a_tail);
    let x = be_value(prefix) as int;
    let r = radix(a_tail.len()) as int;
    let low = a[i] as int;
    let high = b[i] as int;
    let a_rest = be_value(a_tail) as int;
    let b_rest = be_value(b_tail) as int;
    assert((x * 256 + low) * r + a_rest < (x * 256 + high) * r + b_rest) by (nonlinear_arith)
        requires
            low < high,
            0 <= a_rest < r,
            0 <= b_rest,
    ;
}

/// A number has one minimal encoding.
pub proof fn lemma_minimal_unique(a: Seq<u8>, b: Seq<u8>)
    requires
        is_minimal(a),
        is_minimal(b),
        be_value(a) == be_value(b),
    ensures
        a == b,
{
    if a.len() < b.len() {
        lemma_minimal_shorter_is_smaller(a, b);
    } else if b.len() < a.len() {
        lemma_minimal_shorter_is_smaller(b, a);
    } else {
        lemma_be_value_injective(a, b);
    }
}

/// The digits of a positive number denote it and start with a non-zero byte.
pub proof fn lemma_be_digits(n: nat)
    ensures
        be_value(be_digits(n)) == n,
        n > 0 ==> be_digits(n).len() >= 1 && be_digits(n)[0] != 0,
        n == 0 ==> be_digits(n).len() == 0,
    decreases n,
{
    if n > 0 {
        let q = n / 256;
        let low = (n % 256) as u8;
        lemma_be_digits(q);
        lemma_be_value_push(be_digits(q), low);
        lemma_fundamental_div_mod(n as int, 256);
        if q == 0 {
            assert(be_digits(n)[0] == low);
        } else {
            assert(be_digits(n)[0] == be_digits(q)[0]);
        }
    }
}

/// The minimal encoding of a number denotes it and is minimal.
pub proof fn lemma_be_minimal(n: nat)
    ensures
        be_value(be_minimal(n)) == n,
        is_minimal(be_minimal(n)),
{
    if n == 0 {
        let z = seq![0u8];
        assert(z.drop_last() =~= Seq::<u8>::empty());
        assert(be_value(z.drop_last()) == 0);
        assert(be_value(z) == 0);
    } else {
        lemma_be_digits(n);
    }
}

/// A minimal string is the minimal encoding of the number it denotes.
pub proof fn lemma_minimal_is_be_minimal(s: Seq<u8>)
    requires
        is_minimal(s),
    ensures
        s == be_minimal(be_value(s)),
{
    lemma_be_minimal(be_value(s));
    lemma_minimal_unique(s, be_minimal(be_value(s)));
}

/// The minimal encoding of a number below `256^width` has at most `width`
/// bytes, for a width of at least one.
pub proof fn lemma_minimal_length(n: nat, width: nat)
    requires
        width >= 1,
        n < radix(width),
    ensures
        be_minimal(n).len() <= width,
{
    let s = be_minimal(n);
    lemma_be_minimal(n);
    if s.len() > width {
        lemma_be_value_lower_bound(s);
        lemma_radix_monotonic(width, (s.len() - 1) as nat);
    }
}

/// The fixed-width encoding has the width that it was asked for.
pub proof fn lemma_be_fixed_len(n: nat, width: nat)
    ensures
        be_fixed(n, width).len() == width,
    decreases width,
{
    if width > 0 {
        lemma_be_fixed_len(n / 256, (width - 1) as nat);
    }
}

/// The fixed-width encoding denotes the number it was made from, where the
/// number fits the width.
pub proof fn lemma_be_fixed_value(n: nat, width: nat)
    requires
        n < radix(width),
    ensures
        be_value(be_fixed(n, width)) == n,
    decreases width,
{
    if width == 0 {
        lemma_radix(0);
    } else {
        let w = (width - 1) as nat;
        lemma_radix(w);
        lemma_fundamental_div_mod(n as int, 256);
        assert(n / 256 < radix(w)) by {
            if n / 256 >= radix(w) {
                assert(256 * (n / 256) >= 256 * radix(w));
            }
        }
        lemma_be_fixed_value(n / 256, w);
        lemma_be_value_push(be_fixed(n / 256, w), (n % 256) as u8);
    }
}

/// Every byte string is the fixed-width encoding of the number it denotes.
pub proof fn lemma_be_fixed_of_value(s: Seq<u8>)
    ensures
        be_fixed(be_value(s), s.len()) == s,
{
    lemma_be_value_bound(s);
    lemma_be_fixed_value(be_value(s), s.len());
    lemma_be_fixed_len(be_value(s), s.len());
    lemma_be_value_injective(be_fixed(be_value(s), s.len()), s);
}

/// The byte at position `i` of the fixed-width encoding is the digit of
/// weight `256^(width-1-i)`.
pub proof fn lemma_be_fixed_index(n: nat, width: nat, i: int)
    requires
        0 <= i < width,
    ensures
        be_fixed(n, width).len() == width,
        be_fixed(n, width)[i] == ((n / radix((width - 1 - i) as nat)) % 256) as u8,
    decreases width,
{
    lemma_be_fixed_len(n, width);
    let w = (width - 1) as nat;
    lemma_be_fixed_len(n / 256, w);
    if i == width - 1 {
        lemma_radix(0);
        assert(n / 1 == n);
    } else {
        lemma_be_fixed_index(n / 256, w, i);
        let k = (w - 1 - i) as nat;
        lemma_radix(k);
        lemma_div_denominator(n as int, 256, radix(k) as int);
        assert((width - 1 - i) as nat == k + 1);
        assert((n / 256) / radix(k) == n / radix(k + 1));
        assert(be_fixed(n, width)[i] == be_fixed(n / 256, w)[i]);
    }
}

/// Padding an encoding with zero bytes on the left gives the fixed-width
/// encoding of the same number.
pub proof fn lemma_padded_is_be_fixed(s: Seq<u8>, width: nat)
    requires
        s.len() <= width,
    ensures
        zeros((width - s.len()) as nat) + s == be_fixed(be_value(s), width),
{
    let padded = zeros((width - s.len()) as nat) + s;
    lemma_be_value_leading_zeros((width - s.len()) as nat, s);
    lemma_be_fixed_of_value(padded);
}

/// Appends `bytes` to `buffer`.
pub fn append_bytes(buffer: &mut Vec<u8>, bytes: &[u8])
    ensures
        final(buffer)@ == old(buffer)@ + bytes@,
{
    let ghost before = buffer@;
    buffer.extend_from_slice(bytes);
    proof {
        assert(buffer@ =~= before + bytes@);
    }
}

/// The bytes of `bytes` from `start` up to `end`.
pub fn copy_range(bytes: &[u8], start: usize, end: usize) -> (out: Vec<u8>)
    requires
        start <= end <= bytes.len(),
    ensures
        out@ == bytes@.subrange(start as int, end as int),
{
    let mut out: Vec<u8> = Vec::new();
    let mut i: usize = start;
    while i < end
        invariant
            start <= i <= end <= bytes.len(),
            out@ == bytes@.subrange(start as int, i as int),
        decreases end - i,
    {
        out.push(bytes[i]);
        proof {
            assert(out@ =~= bytes@.subrange(start as int, i + 1));
        }
        i += 1;
    }
    out
}

/// Strips superfluous leading zero bytes: the minimal encoding of the number
/// that `bytes` denotes.
pub fn minimal_bytes(bytes: &[u8]) -> (out: Vec<u8>)
    ensures
        out@ == be_minimal(be_value(bytes@)),
{
    let n = bytes.len();
    let mut start: usize = 0;
    while start < n && bytes[start] == 0
        invariant
            start <= n,
            n == bytes.len(),
            forall|i: int| 0 <= i < start ==> bytes[i] == 0,
        decreases n - start,
    {
        start += 1;
    }
    let mut out: Vec<u8> = Vec::new();
    if start == n {
        out.push(0);
        proof {
            assert(bytes@ =~= zeros(n as nat));
            lemma_be_value_zeros(n as nat);
            assert(out@ =~= seq![0u8]);
        }
    } else {
        out = copy_range(bytes, start, n);
        proof {
            assert(bytes@ =~= zeros(start as nat) + out@);
            lemma_be_value_leading_zeros(start as nat, out@);
            assert(out@[0] == bytes@[start as int]);
            lemma_minimal_is_be_minimal(out@);
        }
    }
    out
}

/// Pads `bytes` with zero bytes on the left to exactly `width` bytes.
pub fn fixed_width_bytes(bytes: &[u8], width: usize) -> (out: Vec<u8>)
    requires
        bytes.len() <= width,
    ensures
        out@ == be_fixed(be_value(bytes@), width as nat),
        out@.len() == width,
{
    let n = bytes.len();
    let pad = width - n;
    let mut out: Vec<u8> = Vec::new();
    let mut k: usize = 0;
    while k < pad
        invariant
            k <= pad,
            out@ == zeros(k as nat),
        decreases pad - k,
    {
        out.push(0);
        proof {
            assert(out@ =~= zeros((k + 1) as nat));
        }
        k += 1;
    }
    let mut i: usize = 0;
    while i < n
        invariant
            i <= n,
            n == bytes.len(),
            out@ == zeros(pad as nat) + bytes@.subrange(0, i as int),
        decreases n - i,
    {
        out.push(bytes[i]);
        proof {
            assert(out@ =~= zeros(pad as nat) + bytes@.subrange(0, i + 1));
        }
        i += 1;
    }
    proof {
        assert(bytes@.subrange(0, n as int) =~= bytes@);
        lemma_padded_is_be_fixed(bytes@, width as nat);
        lemma_be_fixed_len(be_value(bytes@), width as nat);
    }
    out
}

/// The big-endian encoding of a machine integer in exactly `width` bytes.
pub fn fixed_width_bytes_of_u64(n: u64, width: usize) -> (out: Vec<u8>)
    ensures
        out@ == be_fixed(n as nat, width as nat),
        out@.len() == width,
{
    let mut out: Vec<u8> = Vec::new();
    let mut k: usize = 0;
    while k < width
        invariant
            k <= width,
            out.len() == k,
        decreases width - k,
    {
        out.push(0);
        k += 1;
    }
    let mut rest: u64 = n;
    let mut i: usize = width;
    proof {
        lemma_radix(0);
        assert(n as nat / 1 == n as nat);
    }
    while i > 0
        invariant
            i <= width,
            out.len() == width,
            rest as nat == (n as nat) / radix((width - i) as nat),
            forall|j: int| i <= j < width ==> out@[j] == be_fixed(n as nat, width as nat)[j],
        decreases i,
    {
        i -= 1;
        let digit: u8 = (rest % 256) as u8;
        out.set(i, digit);
        proof {
            let k = (width - 1 - i) as nat;
            lemma_be_fixed_index(n as nat, width as nat, i as int);
            lemma_radix(k);
            lemma_div_denominator(n as int, radix(k) as int, 256);
            assert(radix(k) * 256 == radix(k + 1));
            assert((width - i) as nat == k + 1);
        }
        rest = rest / 256;
    }
    proof {
        lemma_be_fixed_len(n as nat, width as nat);
        assert(out@ =~= be_fixed(n as nat, width as nat));
    }
    out
}

/// Reads up to eight bytes as a big-endian machine integer.
pub fn u64_of_bytes(bytes: &[u8]) -> (n: u64)
    requires
        bytes.len() <= 8,
    ensures
        n as nat == be_value(bytes@),
{
    let mut n: u64 = 0;
    let mut i: usize = 0;
    proof {
        assert(bytes@.subrange(0, 0) =~= Seq::<u8>::empty());
    }
    while i < bytes.len()
        invariant
            i <= bytes.len() <= 8,
            n as nat == be_value(bytes@.subrange(0, i as int)),
        decreases bytes.len() - i,
    {
        proof {
            let read = bytes@.subrange(0, i as int);
            lemma_be_value_bound(read);
            lemma_radix(i as nat);
            lemma_radix_monotonic((i + 1) as nat, 8);
            lemma_radix_machine();
            lemma_be_value_push(read, bytes@[i as int]);
            assert(bytes@.subrange(0, i + 1) =~= read.push(bytes@[i as int]));
        }
        n = n * 256 + bytes[i] as u64;
        i += 1;
    }
    proof {
        assert(bytes@.subrange(0, bytes.len() as int) =~= bytes@);
    }
    n
}

/// Reads four bytes as a big-endian machine integer.
pub fn u32_of_bytes(bytes: &[u8]) -> (n: u32)
    requires
        bytes.len() == 4,
    ensures
        n as nat == be_value(bytes@),
{
    let wide = u64_of_bytes(bytes);
    proof {
        lemma_be_value_bound(bytes@);
        lemma_radix_machine();
    }
    wide as u32
}

} // verus!
