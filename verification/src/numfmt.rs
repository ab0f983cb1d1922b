//! Exact decimal rendering.
//!
//! The binary container's metadata is text, so the serializer needs decimal
//! numerals: for unsigned integers (lengths, counts, offsets) and for the
//! bounding-box values, which arrive as IEEE 754 single-precision bit
//! patterns. A finite float is `sign * mantissa * 2^exp`, so its exact
//! decimal expansion is the decimal numeral of `mantissa` doubled `exp`
//! times, or, for a negative exponent `-k`, the numeral of
//! `mantissa * 5^k` with the decimal point `k` digits from the right. Digits
//! are kept as little-endian vectors and multiplied digit by digit, which
//! keeps every intermediate a single byte.
use vstd::prelude::*;

use crate::rat::Q;

verus! {

broadcast use vstd::std_specs::vec::group_vec_axioms;

/// Value of a little-endian digit sequence.
pub open spec fn dec_val(s: Seq<u8>) -> nat
    decreases s.len(),
{
    if s.len() == 0 {
        0
    } else {
        s[0] as nat + 10 * dec_val(s.skip(1))
    }
}

/// All entries are decimal digits.
pub open spec fn digits_wf(s: Seq<u8>) -> bool {
    forall|i: int| 0 <= i < s.len() ==> #[trigger] s[i] < 10
}

/// A canonical numeral: digits with no leading (most significant) zero.
pub open spec fn canonical(s: Seq<u8>) -> bool {
    digits_wf(s) && (s.len() > 0 ==> s[s.len() - 1] != 0)
}

pub open spec fn pow10(n: nat) -> nat
    decreases n,
{
    if n == 0 {
        1
    } else {
        10 * pow10((n - 1) as nat)
    }
}

pub open spec fn pow2(n: nat) -> nat
    decreases n,
{
    if n == 0 {
        1
    } else {
        2 * pow2((n - 1) as nat)
    }
}

pub open spec fn pow5(n: nat) -> nat
    decreases n,
{
    if n == 0 {
        1
    } else {
        5 * pow5((n - 1) as nat)
    }
}

/// The canonical little-endian digits of `n` (empty for zero).
pub open spec fn spec_digits(n: nat) -> Seq<u8>
    decreases n,
{
    if n == 0 {
        seq![]
    } else {
        seq![(n % 10) as u8] + spec_digits(n / 10)
    }
}

/// Appending a most significant digit adds its weighted value.
pub proof fn lemma_dec_val_snoc(s: Seq<u8>, d: u8)
    ensures
        dec_val(s.push(d)) == dec_val(s) + d * pow10(s.len()),
    decreases s.len(),
{
    if s.len() == 0 {
        assert(s.push(d).skip(1) =~= Seq::<u8>::empty());
        assert((s.push(d))[0] == d);
        assert(dec_val(s.push(d)) == d as nat + 10 * dec_val(Seq::<u8>::empty()));
        assert(pow10(s.len()) == 1);
        assert(d * pow10(s.len()) == d) by (nonlinear_arith)
            requires pow10(s.len()) == 1;
    } else {
        assert(s.push(d).skip(1) =~= s.skip(1).push(d));
        lemma_dec_val_snoc(s.skip(1), d);
        assert((s.push(d))[0] == s[0]);
        assert(dec_val(s.push(d)) == s[0] as nat + 10 * dec_val(s.skip(1).push(d)));
        assert(s.skip(1).len() == s.len() - 1);
        assert(pow10(s.len()) == 10 * pow10(s.skip(1).len()));
        assert(10 * (dec_val(s.skip(1)) + d * pow10(s.skip(1).len())) == 10 * dec_val(s.skip(1))
            + d * (10 * pow10(s.skip(1).len()))) by (nonlinear_arith);
    }
}

/// The first `i + 1` digits extend the first `i` by one weighted digit.
pub proof fn lemma_dec_val_take(s: Seq<u8>, i: int)
    requires
        0 <= i < s.len(),
    ensures
        dec_val(s.take(i + 1)) == dec_val(s.take(i)) + s[i] * pow10(i as nat),
{
    assert(s.take(i + 1) =~= s.take(i).push(s[i]));
    lemma_dec_val_snoc(s.take(i), s[i]);
}

/// A canonical numeral is exactly the digit sequence of its value.
pub proof fn lemma_canonical_digits(s: Seq<u8>)
    requires
        canonical(s),
    ensures
        s == spec_digits(dec_val(s)),
    decreases s.len(),
{
    if s.len() == 0 {
    } else {
        let v = dec_val(s);
        let rest = s.skip(1);
        assert(canonical(rest)) by {
            assert(forall|i: int| 0 <= i < rest.len() ==> #[trigger] rest[i] < 10);
        }
        lemma_canonical_digits(rest);
        lemma_dec_val_lower(s);
        assert(v == s[0] + 10 * dec_val(rest));
        assert(v % 10 == s[0] && v / 10 == dec_val(rest)) by {
            vstd::arithmetic::div_mod::lemma_fundamental_div_mod_converse(
                v as int,
                10,
                dec_val(rest) as int,
                s[0] as int,
            );
        }
        assert(s =~= seq![(v % 10) as u8] + spec_digits(v / 10));
    }
}

/// A nonempty canonical numeral has a positive value.
pub proof fn lemma_dec_val_lower(s: Seq<u8>)
    requires
        digits_wf(s),
        s.len() > 0,
        s[s.len() - 1] != 0,
    ensures
        dec_val(s) > 0,
    decreases s.len(),
{
    if s.len() == 1 {
    } else {
        lemma_dec_val_lower(s.skip(1));
    }
}

/// The canonical digits of `n`, little endian.
pub fn digits_of(n: u64) -> (r: Vec<u8>)
    ensures
        r@ == spec_digits(n as nat),
        canonical(r@),
        dec_val(r@) == n,
{
    let mut ds: Vec<u8> = Vec::new();
    let mut x = n;
    proof {
        assert(dec_val(ds@) == 0);
        assert(pow10(ds@.len()) == 1);
        assert((x as nat) * 1 == x) by (nonlinear_arith);
    }
    while x > 0
        invariant
            digits_wf(ds@),
            dec_val(ds@) + x * pow10(ds@.len()) == n,
            x == 0 ==> canonical(ds@),
            ds@.len() > 0 && x > 0 ==> ds@[ds@.len() - 1] < 10,
        decreases x,
    {
        let d = (x % 10) as u8;
        let ghost len0 = ds@.len();
        let ghost ds0 = ds@;
        let ghost x0 = x;
        ds.push(d);
        x = x / 10;
        proof {
            let p = pow10(len0);
            assert(ds@ =~= ds0.push(d));
            lemma_dec_val_snoc(ds0, d);
            assert(x0 == 10 * (x0 / 10) + x0 % 10) by {
                vstd::arithmetic::div_mod::lemma_fundamental_div_mod(x0 as int, 10);
            };
            assert(ds@.len() == len0 + 1);
            assert(pow10(ds@.len()) == 10 * p);
            assert((d as nat) * p + (x as nat) * (10 * p) == (x0 as nat) * p) by (nonlinear_arith)
                requires x0 == 10 * x + d;
            if x == 0 {
                assert(d > 0);
            }
        }
    }
    proof {
        if ds@.len() > 0 {
            lemma_dec_val_lower(ds@);
        }
        lemma_canonical_digits(ds@);
    }
    ds
}

/// Multiplies a numeral by a small factor, digit by digit.
pub fn times_small(ds: &Vec<u8>, m: u8) -> (r: Vec<u8>)
    requires
        2 <= m <= 5,
        digits_wf(ds@),
    ensures
        digits_wf(r@),
        dec_val(r@) == m * dec_val(ds@),
        canonical(ds@) ==> canonical(r@),
{
    let n = ds.len();
    let mut out: Vec<u8> = Vec::new();
    let mut carry: u8 = 0;
    let mut i: usize = 0;
    proof {
        assert(ds@.take(0) =~= Seq::<u8>::empty());
        assert(dec_val(out@) == 0 && dec_val(Seq::<u8>::empty()) == 0);
        assert((0 as nat) * pow10(0) == 0 && m * (0 as nat) == 0) by (nonlinear_arith);
    }
    while i < n
        invariant
            2 <= m <= 5,
            digits_wf(ds@),
            n == ds@.len(),
            i <= n,
            out@.len() == i,
            digits_wf(out@),
            carry < m,
            dec_val(out@) + carry * pow10(i as nat) == m * dec_val(ds@.take(i as int)),
            canonical(ds@) && i == n && n > 0 && carry == 0 ==> out@[i - 1] != 0,
        decreases n - i,
    {
        let d = ds[i];
        proof {
            assert(ds@[i as int] < 10);
            assert(d * m + carry < 50) by (nonlinear_arith)
                requires d < 10, m <= 5, carry < m;
        }
        let t = d * m + carry;
        let dig = t % 10;
        let newcarry = t / 10;
        let ghost out0 = out@;
        let ghost carry0 = carry;
        out.push(dig);
        carry = newcarry;
        i += 1;
        proof {
            let p = pow10((i - 1) as nat);
            lemma_dec_val_snoc(out0, dig);
            lemma_dec_val_take(ds@, i - 1);
            assert(t == 10 * newcarry + dig) by {
                vstd::arithmetic::div_mod::lemma_fundamental_div_mod(t as int, 10);
            };
            assert(dec_val(out@) == dec_val(out0) + dig * p);
            assert(pow10(i as nat) == 10 * p);
            // the carried value moves one place up and absorbs the digit
            assert((dig as nat) * p + (newcarry as nat) * (10 * p) == ((m * d + carry0) as nat)
                * p) by (nonlinear_arith)
                requires t == 10 * newcarry + dig, t == m * d + carry0;
            assert(m * (dec_val(ds@.take(i - 1)) + (d as nat) * p) == m * dec_val(
                ds@.take(i - 1),
            ) + (m * (d as nat)) * p) by (nonlinear_arith);
            assert(((m * d + carry0) as nat) * p == (m * (d as nat)) * p + (carry0 as nat) * p)
                by (nonlinear_arith);
            assert(t < 10 * m) by (nonlinear_arith)
                requires t == m * d + carry0, d < 10, carry0 < m;
            if newcarry == 0 {
                assert(dig == t);
                if canonical(ds@) && i == n && n > 0 {
                    assert(d >= 1);
                    assert(t >= 2) by (nonlinear_arith)
                        requires t == m * d + carry0, d >= 1, m >= 2, carry0 >= 0;
                }
            }
        }
    }
    proof {
        assert(ds@.take(n as int) =~= ds@);
    }
    if carry > 0 {
        let ghost out0 = out@;
        out.push(carry);
        proof {
            lemma_dec_val_snoc(out0, carry);
        }
    }
    out
}


/// A digit as its ASCII character.
pub open spec fn ascii_digit(d: u8) -> u8 {
    (d + 0x30) as u8
}

/// A little-endian numeral as ASCII text, most significant digit first.
pub open spec fn ascii_rev(ds: Seq<u8>) -> Seq<u8> {
    Seq::new(ds.len(), |i: int| ascii_digit(ds[ds.len() - 1 - i]))
}

/// The numeral text of an integer digit sequence; an empty sequence is the
/// single digit zero.
pub open spec fn int_text(ds: Seq<u8>) -> Seq<u8> {
    if ds.len() == 0 {
        seq![0x30u8]
    } else {
        ascii_rev(ds)
    }
}

/// Drops trailing decimal zeros (the least significant end of the fraction).
pub open spec fn strip_low_zeros(s: Seq<u8>) -> Seq<u8>
    decreases s.len(),
{
    if s.len() > 0 && s[0] == 0 {
        strip_low_zeros(s.skip(1))
    } else {
        s
    }
}

/// Pads a numeral with most-significant zeros up to length `k`.
pub open spec fn zero_pad(s: Seq<u8>, k: int) -> Seq<u8> {
    if s.len() >= k {
        s
    } else {
        s + Seq::new((k - s.len()) as nat, |i: int| 0u8)
    }
}

/// The sign bit of a single-precision bit pattern.
pub open spec fn f32_sign(bits: u32) -> bool {
    bits >> 31 == 1
}

/// The exponent field of a single-precision bit pattern.
pub open spec fn f32_exp_field(bits: u32) -> u32 {
    (bits >> 23) & 0xff
}

/// The full significand: the stored fraction, with the implicit leading bit
/// for normal numbers.
pub open spec fn f32_mantissa(bits: u32) -> nat {
    if f32_exp_field(bits) == 0 {
        (bits & 0x7fffff) as nat
    } else {
        ((bits & 0x7fffff) + 0x800000) as nat
    }
}

/// The binary exponent: the value is `mantissa * 2^exp` (in magnitude).
pub open spec fn f32_exp(bits: u32) -> int {
    if f32_exp_field(bits) == 0 {
        -149
    } else {
        f32_exp_field(bits) - 150
    }
}

/// A finite value: the exponent field is not all ones.
pub open spec fn f32_finite(bits: u32) -> bool {
    f32_exp_field(bits) != 255
}

/// The exact value of a finite single-precision bit pattern as a rational.
pub open spec fn f32_q(bits: u32) -> Q {
    let s: int = if f32_sign(bits) {
        -1
    } else {
        1
    };
    if f32_exp(bits) >= 0 {
        Q { num: s * (f32_mantissa(bits) * pow2(f32_exp(bits) as nat)) as int, den: 1 }
    } else {
        Q { num: s * f32_mantissa(bits) as int, den: pow2((-f32_exp(bits)) as nat) as int }
    }
}

/// The exact decimal numeral of a finite single-precision value: for a
/// nonnegative exponent the integer `mantissa * 2^exp`; for exponent `-k` the
/// digits of `mantissa * 5^k` with the decimal point `k` places from the
/// right and trailing fraction zeros dropped.
pub open spec fn spec_f32_dec(bits: u32) -> Seq<u8> {
    let sgn: Seq<u8> = if f32_sign(bits) {
        seq![0x2du8]
    } else {
        seq![]
    };
    if f32_exp(bits) >= 0 {
        sgn + int_text(spec_digits(f32_mantissa(bits) * pow2(f32_exp(bits) as nat)))
    } else {
        let k = -f32_exp(bits);
        let ds = zero_pad(spec_digits(f32_mantissa(bits) * pow5(k as nat)), k);
        let frac = strip_low_zeros(ds.take(k));
        sgn + int_text(ds.skip(k)) + (if frac.len() > 0 {
            seq![0x2eu8] + ascii_rev(frac)
        } else {
            Seq::<u8>::empty()
        })
    }
}

/// Appends `ds[lo..hi]` reversed, as ASCII digits.
fn push_digits_rev(out: &mut Vec<u8>, ds: &Vec<u8>, lo: usize, hi: usize)
    requires
        lo <= hi <= ds@.len(),
        digits_wf(ds@),
    ensures
        final(out)@ == old(out)@ + ascii_rev(ds@.subrange(lo as int, hi as int)),
{
    let ghost base = out@;
    let ghost part = ds@.subrange(lo as int, hi as int);
    let mut j = hi;
    while j > lo
        invariant
            lo <= j <= hi <= ds@.len(),
            digits_wf(ds@),
            part == ds@.subrange(lo as int, hi as int),
            base == old(out)@,
            out@ == base + ascii_rev(part).take(hi - j),
        decreases j,
    {
        let d = ds[j - 1];
        proof {
            assert(ds@[j - 1] < 10);
        }
        out.push(d + 0x30);
        j -= 1;
        proof {
            assert(ascii_rev(part).take(hi - j) =~= ascii_rev(part).take(hi - j - 1).push(
                ascii_digit(part[j - lo]),
            ));
            assert(out@ =~= base + ascii_rev(part).take(hi - j));
        }
    }
    proof {
        assert(ascii_rev(part).take(hi - lo) =~= ascii_rev(part));
    }
}

/// The exact decimal text of a finite single-precision bit pattern.
#[verifier::rlimit(60)]
pub fn f32_dec(bits: u32) -> (r: Vec<u8>)
    requires
        f32_finite(bits),
    ensures
        r@ == spec_f32_dec(bits),
{
    let sign = bits >> 31 == 1;
    let e = (bits >> 23) & 0xff;
    let frac_bits = bits & 0x7fffff;
    proof {
        assert(frac_bits < 0x800000) by (bit_vector)
            requires frac_bits == bits & 0x7fffff;
        assert(e < 256) by (bit_vector)
            requires e == (bits >> 23) & 0xff;
    }
    let m: u32 = if e == 0 {
        frac_bits
    } else {
        frac_bits + 0x800000
    };
    proof {
        assert(pow2(0) == 1 && pow5(0) == 1);
        assert(f32_mantissa(bits) * pow2(0) == f32_mantissa(bits) && f32_mantissa(bits) * pow5(0)
            == f32_mantissa(bits)) by (nonlinear_arith)
            requires pow2(0) == 1, pow5(0) == 1;
    }
    let mut out: Vec<u8> = Vec::new();
    if sign {
        out.push(0x2d);
    }
    if e >= 150 {
        // nonnegative exponent: an integer, the mantissa doubled `e - 150` times
        let ex = e - 150;
        let mut ds = digits_of(m as u64);
        let mut j: u32 = 0;
        while j < ex
            invariant
                j <= ex,
                canonical(ds@),
                dec_val(ds@) == f32_mantissa(bits) * pow2(j as nat),
                m == f32_mantissa(bits),
            decreases ex - j,
        {
            let ghost v0 = dec_val(ds@);
            ds = times_small(&ds, 2);
            j += 1;
            proof {
                assert(pow2(j as nat) == 2 * pow2((j - 1) as nat));
                assert(2 * (f32_mantissa(bits) * pow2((j - 1) as nat)) == f32_mantissa(bits) * (2
                    * pow2((j - 1) as nat))) by (nonlinear_arith);
            }
        }
        proof {
            lemma_canonical_digits(ds@);
        }
        if ds.len() == 0 {
            out.push(0x30);
        } else {
            push_digits_rev(&mut out, &ds, 0, ds.len());
            proof {
                assert(ds@.subrange(0, ds@.len() as int) =~= ds@);
            }
        }
        proof {
            assert(out@ =~= spec_f32_dec(bits));
        }
    } else {
        // negative exponent `-k`: the digits of `mantissa * 5^k`, with the
        // decimal point `k` places from the right
        let k: u32 = 150 - e - (if e == 0 { 1 } else { 0 });
        proof {
            assert(k == -f32_exp(bits));
        }
        let mut ds = digits_of(m as u64);
        let mut j: u32 = 0;
        while j < k
            invariant
                j <= k,
                canonical(ds@),
                dec_val(ds@) == f32_mantissa(bits) * pow5(j as nat),
                m == f32_mantissa(bits),
            decreases k - j,
        {
            ds = times_small(&ds, 5);
            j += 1;
            proof {
                assert(pow5(j as nat) == 5 * pow5((j - 1) as nat));
                assert(5 * (f32_mantissa(bits) * pow5((j - 1) as nat)) == f32_mantissa(bits) * (5
                    * pow5((j - 1) as nat))) by (nonlinear_arith);
            }
        }
        proof {
            lemma_canonical_digits(ds@);
        }
        let ghost base = ds@;
        let kk = k as usize;
        while ds.len() < kk
            invariant
                ds@.len() <= kk || ds@ == base,
                base.len() <= ds@.len(),
                ds@ == base + Seq::new((ds@.len() - base.len()) as nat, |i: int| 0u8),
            decreases kk - ds@.len(),
        {
            let ghost pre = ds@;
            ds.push(0);
            proof {
                assert(ds@ =~= base + Seq::new((ds@.len() - base.len()) as nat, |i: int| 0u8));
            }
        }
        proof {
            assert(ds@ =~= zero_pad(base, k as int));
        }
        // integer part
        if ds.len() > kk {
            push_digits_rev(&mut out, &ds, kk, ds.len());
            proof {
                assert(ds@.subrange(kk as int, ds@.len() as int) =~= ds@.skip(kk as int));
            }
        } else {
            out.push(0x30);
            proof {
                assert(ds@.skip(kk as int) =~= Seq::<u8>::empty());
            }
        }
        // fraction part, trailing zeros dropped
        let mut start: usize = 0;
        proof {
            assert(ds@.take(kk as int).skip(0) =~= ds@.take(kk as int));
        }
        while start < kk && ds[start] == 0
            invariant
                start <= kk <= ds@.len(),
                strip_low_zeros(ds@.take(kk as int)) == strip_low_zeros(
                    ds@.take(kk as int).skip(start as int),
                ),
            decreases kk - start,
        {
            proof {
                assert(ds@.take(kk as int).skip(start as int).skip(1) =~= ds@.take(
                    kk as int,
                ).skip(start as int + 1));
            }
            start += 1;
        }
        proof {
            assert(strip_low_zeros(ds@.take(kk as int).skip(start as int)) == ds@.take(
                kk as int,
            ).skip(start as int));
            assert(ds@.take(kk as int).skip(start as int) =~= ds@.subrange(
                start as int,
                kk as int,
            ));
        }
        if start < kk {
            out.push(0x2e);
            push_digits_rev(&mut out, &ds, start, kk);
        }
        proof {
            assert(out@ =~= spec_f32_dec(bits));
        }
    }
    out
}

/// The decimal text of an unsigned integer.
pub open spec fn spec_udec(n: nat) -> Seq<u8> {
    int_text(spec_digits(n))
}

/// Renders an unsigned integer in decimal.
pub fn u64_dec(n: u64) -> (r: Vec<u8>)
    ensures
        r@ == spec_udec(n as nat),
{
    let ds = digits_of(n);
    let mut out: Vec<u8> = Vec::new();
    if ds.len() == 0 {
        out.push(0x30);
    } else {
        push_digits_rev(&mut out, &ds, 0, ds.len());
        proof {
            assert(ds@.subrange(0, ds@.len() as int) =~= ds@);
        }
    }
    proof {
        assert(out@ =~= spec_udec(n as nat));
    }
    out
}


pub proof fn lemma_pow2_pos(n: nat)
    ensures
        pow2(n) >= 1,
    decreases n,
{
    if n > 0 {
        lemma_pow2_pos((n - 1) as nat);
    }
}

pub proof fn lemma_pow2_mono(a: nat, b: nat)
    requires
        a <= b,
    ensures
        pow2(a) <= pow2(b),
    decreases b,
{
    if a < b {
        lemma_pow2_mono(a, (b - 1) as nat);
        lemma_pow2_pos((b - 1) as nat);
    }
}

pub proof fn lemma_pow2_adds(a: nat, b: nat)
    ensures
        pow2(a + b) == pow2(a) * pow2(b),
    decreases a,
{
    if a == 0 {
        assert(pow2(0) == 1);
        assert(1 * pow2(b) == pow2(b)) by (nonlinear_arith);
    } else {
        lemma_pow2_adds((a - 1) as nat, b);
        assert(2 * (pow2((a - 1) as nat) * pow2(b)) == (2 * pow2((a - 1) as nat)) * pow2(b))
            by (nonlinear_arith);
    }
}

} // verus!
