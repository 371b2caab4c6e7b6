//! Exact numbers for the interpreter.
//!
//! A `Num` is a fraction of a 64-bit signed numerator and a 64-bit unsigned
//! denominator, kept in lowest terms by every constructor. Literals such as
//! `10.1234` become `101234 / 10000` reduced; arithmetic is exact, and an
//! operation whose reduced result does not fit the bounds reports overflow
//! instead of silently losing precision.

use vstd::prelude::*;
use vstd::arithmetic::div_mod::{
    lemma_fundamental_div_mod, lemma_mod_multiples_basic, lemma_mod_self_0,
};

verus! {

/// Largest denominator a well-formed `Num` may carry.
pub const MAX_DEN: u64 = 0xFFFF_FFFF;

/// Largest numerator magnitude a well-formed `Num` may carry.
pub const MAX_MAG: i64 = 0x7FFF_FFFF_FFFF_FFFF;

/// An exact rational value: `n / d`.
#[derive(Debug, Clone, Copy, PartialEq, Eq)]
pub struct Num {
    pub n: i64,
    pub d: u64,
}

/// Greatest common divisor, by Euclid's algorithm.
pub open spec fn gcd(a: nat, b: nat) -> nat
    decreases b,
{
    if b == 0 {
        a
    } else {
        gcd(b, a % b)
    }
}

/// Magnitude of an integer.
pub open spec fn abs_i(n: int) -> nat {
    if n >= 0 {
        n as nat
    } else {
        (-n) as nat
    }
}

/// The fraction `n / d` in lowest terms (the sign stays on the numerator).
pub open spec fn norm(n: int, d: int) -> (int, int)
    recommends
        d >= 1,
{
    let g = gcd(abs_i(n), d as nat) as int;
    (n / g, d / g)
}

/// Whether a reduced fraction fits the bounds of a well-formed `Num`.
pub open spec fn fits(p: (int, int)) -> bool {
    &&& -(MAX_MAG as int) <= p.0 <= MAX_MAG as int
    &&& 1 <= p.1 <= MAX_DEN as int
}

/// Numerator and denominator of a `+` of two fractions, before reduction.
pub open spec fn rat_add(a: (int, int), b: (int, int)) -> (int, int) {
    (a.0 * b.1 + b.0 * a.1, a.1 * b.1)
}

/// Numerator and denominator of a `*` of two fractions, before reduction.
pub open spec fn rat_mul(a: (int, int), b: (int, int)) -> (int, int) {
    (a.0 * b.0, a.1 * b.1)
}

/// Numerator and denominator of a `/` of two fractions, before reduction,
/// with the divisor's sign moved onto the numerator.
pub open spec fn rat_div(a: (int, int), b: (int, int)) -> (int, int) {
    if b.0 >= 0 {
        (a.0 * b.1, a.1 * b.0)
    } else {
        (-(a.0 * b.1), a.1 * -b.0)
    }
}

/// Numerator and denominator of a `-` of two fractions, before reduction.
pub open spec fn rat_sub(a: (int, int), b: (int, int)) -> (int, int) {
    (a.0 * b.1 - b.0 * a.1, a.1 * b.1)
}

/// `norm` over a fraction given as a pair.
pub open spec fn norm_p(p: (int, int)) -> (int, int)
    recommends
        p.1 >= 1,
{
    norm(p.0, p.1)
}

/// Strict order of two fractions with positive denominators.
pub open spec fn rat_lt(a: (int, int), b: (int, int)) -> bool {
    a.0 * b.1 < b.0 * a.1
}

/// Non-strict order of two fractions with positive denominators.
pub open spec fn rat_le(a: (int, int), b: (int, int)) -> bool {
    a.0 * b.1 <= b.0 * a.1
}

/// Equality of two fractions with positive denominators.
pub open spec fn rat_eq(a: (int, int), b: (int, int)) -> bool {
    a.0 * b.1 == b.0 * a.1
}

impl Num {
    /// The fraction this value stands for.
    pub open spec fn frac(self) -> (int, int) {
        (self.n as int, self.d as int)
    }

    /// Bounds every constructor establishes and every operation keeps.
    pub open spec fn wf(self) -> bool {
        &&& 1 <= self.d <= MAX_DEN
        &&& -MAX_MAG <= self.n <= MAX_MAG
    }

    /// A whole number.
    pub fn from_int(n: i64) -> (r: Num)
        requires
            -MAX_MAG <= n,
        ensures
            r.wf(),
            r.frac() == (n as int, 1int),
    {
        Num { n, d: 1 }
    }

    /// Whether this value is exactly zero.
    pub fn is_zero(&self) -> (r: bool)
        ensures
            r == (self.n == 0),
    {
        self.n == 0
    }

    /// Exact sum; `None` when the reduced result is out of bounds.
    pub fn add(&self, other: &Num) -> (r: Option<Num>)
        requires
            self.wf(),
            other.wf(),
        ensures
            r matches Some(q) ==> q.wf() && q.frac() == norm_p(
                rat_add(self.frac(), other.frac()),
            ),
            r is Some <==> fits(norm_p(rat_add(self.frac(), other.frac()))),
    {
        proof {
            lemma_prod_bounds(self.n as int, other.d as int);
            lemma_prod_bounds(other.n as int, self.d as int);
            lemma_den_bounds(self.d as int, other.d as int);
        }
        let t1: i128 = (self.n as i128) * (other.d as i128);
        let t2: i128 = (other.n as i128) * (self.d as i128);
        let den: u128 = (self.d as u128) * (other.d as u128);
        reduce(t1 + t2, den)
    }

    /// Exact difference; `None` when the reduced result is out of bounds.
    pub fn sub(&self, other: &Num) -> (r: Option<Num>)
        requires
            self.wf(),
            other.wf(),
        ensures
            r matches Some(q) ==> q.wf() && q.frac() == norm_p(
                rat_sub(self.frac(), other.frac()),
            ),
            r is Some <==> fits(norm_p(rat_sub(self.frac(), other.frac()))),
    {
        proof {
            lemma_prod_bounds(self.n as int, other.d as int);
            lemma_prod_bounds(other.n as int, self.d as int);
            lemma_den_bounds(self.d as int, other.d as int);
        }
        let t1: i128 = (self.n as i128) * (other.d as i128);
        let t2: i128 = (other.n as i128) * (self.d as i128);
        let den: u128 = (self.d as u128) * (other.d as u128);
        reduce(t1 - t2, den)
    }

    /// Exact product; `None` when the reduced result is out of bounds.
    pub fn mul(&self, other: &Num) -> (r: Option<Num>)
        requires
            self.wf(),
            other.wf(),
        ensures
            r matches Some(q) ==> q.wf() && q.frac() == norm_p(
                rat_mul(self.frac(), other.frac()),
            ),
            r is Some <==> fits(norm_p(rat_mul(self.frac(), other.frac()))),
    {
        proof {
            lemma_num_prod_bounds(self.n as int, other.n as int);
            lemma_den_bounds(self.d as int, other.d as int);
        }
        let t: i128 = (self.n as i128) * (other.n as i128);
        let den: u128 = (self.d as u128) * (other.d as u128);
        reduce(t, den)
    }

    /// Exact quotient by a non-zero divisor; `None` when the reduced result
    /// is out of bounds.
    pub fn div(&self, other: &Num) -> (r: Option<Num>)
        requires
            self.wf(),
            other.wf(),
            other.n != 0,
        ensures
            r matches Some(q) ==> q.wf() && q.frac() == norm_p(
                rat_div(self.frac(), other.frac()),
            ),
            r is Some <==> fits(norm_p(rat_div(self.frac(), other.frac()))),
    {
        proof {
            lemma_prod_bounds(self.n as int, other.d as int);
            lemma_den_bounds(self.d as int, if other.n >= 0 {
                other.n as int
            } else {
                -(other.n as int)
            });
        }
        let t: i128 = (self.n as i128) * (other.d as i128);
        if other.n >= 0 {
            let den: u128 = (self.d as u128) * (other.n as u128);
            reduce(t, den)
        } else {
            let den: u128 = (self.d as u128) * ((-other.n) as u128);
            reduce(-t, den)
        }
    }

    /// Negation.
    pub fn neg(&self) -> (r: Num)
        requires
            self.wf(),
        ensures
            r.wf(),
            r.frac() == (-self.frac().0, self.frac().1),
    {
        Num { n: -self.n, d: self.d }
    }

    /// Strict order.
    pub fn lt(&self, other: &Num) -> (r: bool)
        requires
            self.wf(),
            other.wf(),
        ensures
            r == rat_lt(self.frac(), other.frac()),
    {
        proof {
            lemma_prod_bounds(self.n as int, other.d as int);
            lemma_prod_bounds(other.n as int, self.d as int);
        }
        (self.n as i128) * (other.d as i128) < (other.n as i128) * (self.d as i128)
    }

    /// Non-strict order.
    pub fn le(&self, other: &Num) -> (r: bool)
        requires
            self.wf(),
            other.wf(),
        ensures
            r == rat_le(self.frac(), other.frac()),
    {
        proof {
            lemma_prod_bounds(self.n as int, other.d as int);
            lemma_prod_bounds(other.n as int, self.d as int);
        }
        (self.n as i128) * (other.d as i128) <= (other.n as i128) * (self.d as i128)
    }

    /// Value equality of the two fractions.
    pub fn eq_val(&self, other: &Num) -> (r: bool)
        requires
            self.wf(),
            other.wf(),
        ensures
            r == rat_eq(self.frac(), other.frac()),
    {
        proof {
            lemma_prod_bounds(self.n as int, other.d as int);
            lemma_prod_bounds(other.n as int, self.d as int);
        }
        (self.n as i128) * (other.d as i128) == (other.n as i128) * (self.d as i128)
    }

    /// Reduce `n / d` to a well-formed `Num`; `None` when `d` is zero or the
    /// reduced fraction is out of bounds.
    pub fn make(n: i64, d: u64) -> (r: Option<Num>)
        ensures
            d >= 1 && n > i64::MIN ==> (r matches Some(q) ==> q.wf() && q.frac() == norm(
                n as int,
                d as int,
            )),
            d >= 1 && n > i64::MIN ==> (r is Some <==> fits(norm(n as int, d as int))),
            d == 0 || n == i64::MIN ==> r is None,
    {
        if d == 0 || n == i64::MIN {
            None
        } else {
            reduce(n as i128, d as u128)
        }
    }
}

/// Decimal digits of `m`, most significant first; empty for zero.
pub open spec fn dec_digits(m: nat) -> Seq<u8>
    decreases m,
{
    if m == 0 {
        Seq::empty()
    } else {
        dec_digits(m / 10) + seq![(48 + m % 10) as u8]
    }
}

/// Decimal digits of `m`, with `"0"` for zero.
pub open spec fn int_digits(m: nat) -> Seq<u8> {
    if m == 0 {
        seq![48u8]
    } else {
        dec_digits(m)
    }
}

/// Digits after the decimal point of `r / d`, or `None` when the expansion
/// does not end within `budget` digits.
pub open spec fn frac_digits(r: nat, d: nat, budget: nat) -> Option<Seq<u8>>
    recommends
        d >= 1,
        r < d,
    decreases budget,
{
    if r == 0 {
        Some(Seq::empty())
    } else if budget == 0 {
        None
    } else {
        match frac_digits((r * 10) % d, d, (budget - 1) as nat) {
            None => None,
            Some(s) => Some(seq![(48 + (r * 10) / d) as u8] + s),
        }
    }
}

/// How many digits after the decimal point are tried before a value is
/// rendered as a plain fraction.
pub const FRAC_BUDGET: u8 = 64;

/// The rendering of the fraction `n / d`: a decimal numeral when the
/// expansion ends within `FRAC_BUDGET` digits, else `n/d` verbatim.
pub open spec fn num_str(n: int, d: int) -> Seq<u8>
    recommends
        d >= 1,
{
    let sign: Seq<u8> = if n < 0 {
        seq![45u8]
    } else {
        Seq::empty()
    };
    let mag = abs_i(n);
    let q = mag / (d as nat);
    let r = mag % (d as nat);
    match frac_digits(r, d as nat, FRAC_BUDGET as nat) {
        Some(f) => if f.len() == 0 {
            sign + int_digits(q)
        } else {
            sign + int_digits(q) + seq![46u8] + f
        },
        None => sign + dec_digits(mag) + seq![47u8] + dec_digits(d as nat),
    }
}

/// Append the decimal digits of `m`.
fn push_digits(m: u128, out: &mut Vec<u8>)
    ensures
        final(out)@ == old(out)@ + dec_digits(m as nat),
    decreases m,
{
    if m == 0 {
        assert(out@ =~= out@ + dec_digits(0));
    } else {
        push_digits(m / 10, out);
        out.push(48 + (m % 10) as u8);
        assert(out@ =~= old(out)@ + dec_digits(m as nat));
    }
}

/// Append the decimal digits of `m`, with `"0"` for zero.
fn push_int(m: u128, out: &mut Vec<u8>)
    ensures
        final(out)@ == old(out)@ + int_digits(m as nat),
{
    if m == 0 {
        out.push(48);
        assert(out@ =~= old(out)@ + int_digits(0));
    } else {
        push_digits(m, out);
    }
}

/// Append the digits after the decimal point of `r / d`; reports failure
/// when the expansion does not end within `budget` digits.
fn push_frac(r: u64, d: u64, budget: u8, out: &mut Vec<u8>) -> (ok: bool)
    requires
        d >= 1,
        r < d,
        d <= MAX_DEN,
    ensures
        match frac_digits(r as nat, d as nat, budget as nat) {
            Some(s) => ok && final(out)@ == old(out)@ + s,
            None => !ok,
        },
    decreases budget,
{
    if r == 0 {
        assert(out@ =~= out@ + Seq::<u8>::empty());
        true
    } else if budget == 0 {
        false
    } else {
        let t = r * 10;
        let digit = t / d;
        let rest = t % d;
        proof {
            assert((r as int) * 10 < (d as int) * 10);
            vstd::arithmetic::div_mod::lemma_multiply_divide_lt(t as int, d as int, 10);
        }
        out.push(48 + digit as u8);
        let ok = push_frac(rest, d, budget - 1, out);
        proof {
            if ok {
                let s0 = frac_digits(rest as nat, d as nat, (budget - 1) as nat).unwrap();
                assert(out@ =~= old(out)@ + (seq![(48 + (r as nat * 10) / (d as nat)) as u8]
                    + s0));
            }
        }
        ok
    }
}

impl Num {
    /// Render this value, as `print` and error messages show it.
    pub fn to_bytes(&self) -> (out: Vec<u8>)
        requires
            self.wf(),
        ensures
            out@ == num_str(self.n as int, self.d as int),
    {
        let neg = self.n < 0;
        let mag: u64 = if neg {
            (-self.n) as u64
        } else {
            self.n as u64
        };
        assert(mag as nat == abs_i(self.n as int));
        let q = mag / self.d;
        let r = mag % self.d;
        let mut frac: Vec<u8> = Vec::new();
        let ok = push_frac(r, self.d, FRAC_BUDGET, &mut frac);
        let mut out: Vec<u8> = Vec::new();
        if neg {
            out.push(45);
        }
        if ok {
            push_int(q as u128, &mut out);
            if frac.len() > 0 {
                out.push(46);
                let ghost base = out@;
                let mut i: usize = 0;
                while i < frac.len()
                    invariant
                        i <= frac.len(),
                        out@ == base + frac@.subrange(0, i as int),
                    decreases frac.len() - i,
                {
                    out.push(frac[i]);
                    i = i + 1;
                    proof {
                        assert(frac@.subrange(0, i as int) =~= frac@.subrange(0, i - 1) + seq![
                            frac@[i - 1],
                        ]);
                        assert(out@ =~= base + frac@.subrange(0, i as int));
                    }
                }
                assert(frac@.subrange(0, frac@.len() as int) =~= frac@);
            }
        } else {
            push_digits(mag as u128, &mut out);
            out.push(47);
            push_digits(self.d as u128, &mut out);
        }
        proof {
            assert(out@ =~= num_str(self.n as int, self.d as int));
        }
        out
    }
}

/// Bounds on the product of a numerator and a denominator.
proof fn lemma_prod_bounds(n: int, d: int)
    requires
        -(MAX_MAG as int) <= n <= MAX_MAG as int,
        0 <= d <= MAX_MAG as int,
    ensures
        -(MAX_MAG as int) * (MAX_MAG as int) <= n * d <= (MAX_MAG as int) * (MAX_MAG as int),
        d <= MAX_DEN as int ==> -(MAX_MAG as int) * (MAX_DEN as int) <= n * d <= (MAX_MAG as int)
            * (MAX_DEN as int),
{
    assert(-(MAX_MAG as int) * (MAX_MAG as int) <= n * d <= (MAX_MAG as int) * (MAX_MAG as int))
        by (nonlinear_arith)
        requires
            -(MAX_MAG as int) <= n <= MAX_MAG as int,
            0 <= d <= MAX_MAG as int,
    ;
    if d <= MAX_DEN as int {
        assert(-(MAX_MAG as int) * (MAX_DEN as int) <= n * d <= (MAX_MAG as int) * (MAX_DEN
            as int)) by (nonlinear_arith)
            requires
                -(MAX_MAG as int) <= n <= MAX_MAG as int,
                0 <= d <= MAX_DEN as int,
        ;
    }
}

/// Bounds on the product of two numerators.
proof fn lemma_num_prod_bounds(a: int, b: int)
    requires
        -(MAX_MAG as int) <= a <= MAX_MAG as int,
        -(MAX_MAG as int) <= b <= MAX_MAG as int,
    ensures
        -(MAX_MAG as int) * (MAX_MAG as int) <= a * b <= (MAX_MAG as int) * (MAX_MAG as int),
{
    assert(-(MAX_MAG as int) * (MAX_MAG as int) <= a * b <= (MAX_MAG as int) * (MAX_MAG as int))
        by (nonlinear_arith)
        requires
            -(MAX_MAG as int) <= a <= MAX_MAG as int,
            -(MAX_MAG as int) <= b <= MAX_MAG as int,
    ;
}

/// Bounds on the product of two denominators.
proof fn lemma_den_bounds(a: int, b: int)
    requires
        1 <= a <= MAX_MAG as int,
        1 <= b <= MAX_MAG as int,
    ensures
        1 <= a * b < u128::MAX,
{
    assert(1 <= a * b && a * b < u128::MAX) by (nonlinear_arith)
        requires
            1 <= a <= MAX_MAG as int,
            1 <= b <= MAX_MAG as int,
    ;
}

/// `g` divides both arguments, and is positive unless both are zero.
proof fn lemma_gcd_props(a: nat, b: nat)
    ensures
        a > 0 || b > 0 ==> gcd(a, b) >= 1,
        gcd(a, b) >= 1 ==> (a as int) % (gcd(a, b) as int) == 0 && (b as int) % (gcd(a, b)
            as int) == 0,
    decreases b,
{
    if b == 0 {
        if a > 0 {
            lemma_mod_self_0(a as int);
            assert((a as int) % (a as int) == 0);
            assert((b as int) % (a as int) == 0);
        }
    } else {
        lemma_gcd_props(b, a % b);
        let g = gcd(b, a % b) as int;
        assert(g >= 1);
        // a == b * (a / b) + a % b, and g divides both summands.
        lemma_fundamental_div_mod(a as int, b as int);
        let q = a as int / b as int;
        let kb = b as int / g;
        let kr = (a % b) as int / g;
        lemma_fundamental_div_mod(b as int, g);
        lemma_fundamental_div_mod((a % b) as int, g);
        assert((b as int) % g == 0);
        assert(((a % b) as int) % g == 0);
        assert(b as int == g * kb);
        assert((a % b) as int == g * kr);
        assert(a as int == g * (kb * q + kr)) by (nonlinear_arith)
            requires
                a as int == b as int * q + (a % b) as int,
                b as int == g * kb,
                (a % b) as int == g * kr,
        ;
        lemma_mod_multiples_basic(kb * q + kr, g);
    }
}

/// A fraction with a bounded non-negative numerator and bounded positive
/// denominator always reduces to a well-formed `Num`.
pub proof fn lemma_norm_fits(n: int, d: int)
    requires
        0 <= n <= MAX_MAG as int,
        1 <= d <= MAX_DEN as int,
    ensures
        fits(norm(n, d)),
        norm(n, d).0 >= 0,
{
    let g = gcd(abs_i(n), d as nat) as int;
    lemma_gcd_props(abs_i(n), d as nat);
    assert(g >= 1);
    vstd::arithmetic::div_mod::lemma_div_nonincreasing(n, g);
    vstd::arithmetic::div_mod::lemma_div_pos_is_pos(n, g);
    vstd::arithmetic::div_mod::lemma_div_nonincreasing(d, g);
    lemma_fundamental_div_mod(d, g);
    assert(d / g >= 1) by (nonlinear_arith)
        requires
            d == g * (d / g),
            d >= 1,
            g >= 1,
    ;
}

/// Euclid's algorithm.
fn gcd_u128(a0: u128, b0: u128) -> (g: u128)
    requires
        b0 >= 1,
    ensures
        g as nat == gcd(a0 as nat, b0 as nat),
        g >= 1,
        (a0 as int) % (g as int) == 0,
        (b0 as int) % (g as int) == 0,
{
    let mut a = a0;
    let mut b = b0;
    while b != 0
        invariant
            gcd(a as nat, b as nat) == gcd(a0 as nat, b0 as nat),
            a > 0 || b > 0,
        decreases b,
    {
        let r = a % b;
        a = b;
        b = r;
    }
    proof {
        lemma_gcd_props(a0 as nat, b0 as nat);
    }
    a
}

/// Reduce `num / den` to lowest terms and pack it into a `Num`, or report
/// that the reduced fraction is out of bounds.
fn reduce(num: i128, den: u128) -> (r: Option<Num>)
    requires
        den >= 1,
        num > i128::MIN,
    ensures
        match r {
            Some(q) => q.wf() && q.frac() == norm(num as int, den as int),
            None => true,
        },
        r is Some <==> fits(norm(num as int, den as int)),
{
    let neg = num < 0;
    let mag: u128 = if neg {
        (-num) as u128
    } else {
        num as u128
    };
    assert(mag as nat == abs_i(num as int));
    let g = gcd_u128(mag, den);
    let m2 = mag / g;
    let d2 = den / g;
    proof {
        let gi = g as int;
        lemma_fundamental_div_mod(mag as int, gi);
        lemma_fundamental_div_mod(den as int, gi);
        assert(mag as int == gi * (mag as int / gi));
        assert(den as int == gi * (den as int / gi));
        // den / g >= 1 because g divides den and den >= 1.
        assert(den as int / gi >= 1) by (nonlinear_arith)
            requires
                den as int == gi * (den as int / gi),
                den >= 1,
                gi >= 1,
        ;
        // The numerator of the normal form is -(mag / g) when num < 0.
        if neg {
            assert((num as int) / gi == -(mag as int / gi)) by (nonlinear_arith)
                requires
                    mag as int == gi * (mag as int / gi),
                    num as int == -(mag as int),
                    gi >= 1,
            ;
        }
    }
    if m2 > MAX_MAG as u128 || d2 > MAX_DEN as u128 {
        None
    } else {
        let n2: i64 = if neg {
            -(m2 as i64)
        } else {
            m2 as i64
        };
        Some(Num { n: n2, d: d2 as u64 })
    }
}

} // verus!
