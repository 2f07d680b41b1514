//! Exact rational scalars.
//!
//! A `Rat` stores a numerator and a positive denominator as `i128` values.
//! Every arithmetic operation reduces its result to lowest terms and returns
//! `None` when an intermediate or final value would not fit in `i128`.
//! Contracts pin each operation to a spec-level mirror, and value lemmas
//! relate the mirrors to unbounded rational arithmetic (`Frac`).

use vstd::prelude::*;
use vstd::arithmetic::div_mod::{
    lemma_fundamental_div_mod, lemma_mod_multiples_basic, lemma_div_nonincreasing,
    lemma_div_pos_is_pos,
};

verus! {

/// Greatest common divisor, by Euclid's rule; `gcd(a, 0) == a`.
pub open spec fn gcd(a: nat, b: nat) -> nat
    decreases b,
{
    if b == 0 {
        a
    } else {
        gcd(b, a % b)
    }
}

/// The gcd of two naturals divides both, and is positive unless both are zero.
pub proof fn lemma_gcd_properties(a: nat, b: nat)
    ensures
        a > 0 || b > 0 ==> gcd(a, b) >= 1,
        a == 0 && b == 0 ==> gcd(a, b) == 0,
        gcd(a, b) >= 1 ==> a % gcd(a, b) == 0 && b % gcd(a, b) == 0,
    decreases b,
{
    if b == 0 {
        if a > 0 {
            lemma_mod_multiples_basic(1, a as int);
        }
    } else {
        lemma_gcd_properties(b, a % b);
        let g = gcd(b, a % b) as int;
        if g >= 1 {
            // a == b * (a / b) + a % b, and g divides both b and a % b.
            let ai = a as int;
            let bi = b as int;
            let ri = (a % b) as int;
            assert(bi % g == 0 && ri % g == 0);
            lemma_fundamental_div_mod(ai, bi);
            lemma_fundamental_div_mod(bi, g);
            lemma_fundamental_div_mod(ri, g);
            let qb = bi / g;
            let qr = ri / g;
            assert(ai == g * (qb * (ai / bi) + qr)) by (nonlinear_arith)
                requires
                    ai == bi * (ai / bi) + ri,
                    bi == g * qb + bi % g,
                    ri == g * qr + ri % g,
                    bi % g == 0,
                    ri % g == 0,
            {}
            lemma_mod_multiples_basic(qb * (ai / bi) + qr, g);
        }
    }
}

/// Euclid's algorithm.
pub fn gcd_u128(a: u128, b: u128) -> (g: u128)
    ensures
        g == gcd(a as nat, b as nat),
{
    let mut x: u128 = a;
    let mut y: u128 = b;
    while y != 0
        invariant
            gcd(x as nat, y as nat) == gcd(a as nat, b as nat),
        decreases y,
    {
        let r: u128 = x % y;
        x = y;
        y = r;
    }
    x
}

/// An exact rational number: `num / den` with `den >= 1`, kept in lowest
/// terms by every constructor and operation in this module.
#[derive(Debug, Clone, Copy, PartialEq, Eq, Structural)]
pub struct Rat {
    pub num: i128,
    pub den: i128,
}

/// An unbounded rational, used only in specifications.  Two `Frac` values
/// denote the same rational exactly when `frac_eq` holds.
pub struct Frac {
    pub num: int,
    pub den: int,
}

impl Rat {
    /// The denominator is positive, and the numerator leaves room for
    /// negation (`i128::MIN` is never stored).
    pub open spec fn wf(self) -> bool {
        self.den >= 1 && self.num > i128::MIN
    }
}

impl View for Rat {
    type V = Frac;

    open spec fn view(&self) -> Frac {
        Frac { num: self.num as int, den: self.den as int }
    }
}

/// Does an unbounded integer fit in `i128`?
pub open spec fn fits(x: int) -> bool {
    i128::MIN <= x <= i128::MAX
}

pub open spec fn rat_zero() -> Rat {
    Rat { num: 0, den: 1 }
}

pub open spec fn rat_one() -> Rat {
    Rat { num: 1, den: 1 }
}

/// The rational `0`.
pub fn zero() -> (r: Rat)
    ensures
        r == rat_zero(),
{
    Rat { num: 0, den: 1 }
}

/// The rational `1`.
pub fn one() -> (r: Rat)
    ensures
        r == rat_one(),
{
    Rat { num: 1, den: 1 }
}

pub open spec fn from_i64_spec(c: i64) -> Rat {
    Rat { num: c as i128, den: 1 }
}

/// The integer `c` as a rational.
pub fn from_i64(c: i64) -> (r: Rat)
    ensures
        r == from_i64_spec(c),
        r.wf(),
{
    Rat { num: c as i128, den: 1 }
}

/// Reduction to lowest terms: divide `n` and `d` by their gcd.  `None` only
/// for the one unrepresentable magnitude `i128::MIN`.
pub open spec fn norm_spec(n: int, d: int) -> Option<Rat>
    recommends
        fits(n),
        1 <= d <= i128::MAX,
{
    if n == i128::MIN as int {
        None
    } else {
        let a = if n < 0 {
            -n
        } else {
            n
        };
        let g = gcd(a as nat, d as nat) as int;
        let m = a / g;
        let dg = d / g;
        Some(
            Rat {
                num: (if n < 0 {
                    -m
                } else {
                    m
                }) as i128,
                den: dg as i128,
            },
        )
    }
}

fn norm(n: i128, d: i128) -> (r: Option<Rat>)
    requires
        1 <= d,
    ensures
        r == norm_spec(n as int, d as int),
        r matches Some(v) ==> v.wf(),
{
    if n == i128::MIN {
        return None;
    }
    let neg: bool = n < 0;
    let a: u128 = if neg {
        (-n) as u128
    } else {
        n as u128
    };
    let g: u128 = gcd_u128(a, d as u128);
    proof {
        lemma_gcd_properties(a as nat, d as nat);
        lemma_div_nonincreasing(a as int, g as int);
        lemma_div_nonincreasing(d as int, g as int);
        lemma_div_pos_is_pos(a as int, g as int);
        lemma_fundamental_div_mod(d as int, g as int);
        assert(d as int / g as int >= 1) by (nonlinear_arith)
            requires
                d as int == (g as int) * (d as int / g as int),
                d >= 1,
                g >= 1,
        {}
    }
    let m: u128 = a / g;
    let dg: u128 = (d as u128) / g;
    let num: i128 = if neg {
        -(m as i128)
    } else {
        m as i128
    };
    Some(Rat { num, den: dg as i128 })
}

/// What `norm_spec` returns denotes `n / d`, in lowest terms.
pub proof fn lemma_norm_value(n: int, d: int)
    requires
        1 <= d <= i128::MAX,
        fits(n),
        norm_spec(n, d) is Some,
    ensures
        ({
            let v = norm_spec(n, d)->Some_0;
            &&& v.wf()
            &&& v.num * d == n * v.den
            &&& 1 <= v.den <= d
            &&& (v.num == 0 <==> n == 0)
        }),
{
    let v = norm_spec(n, d)->Some_0;
    let a = if n < 0 {
        -n
    } else {
        n
    };
    lemma_gcd_properties(a as nat, d as nat);
    let g = gcd(a as nat, d as nat) as int;
    lemma_fundamental_div_mod(a, g);
    lemma_fundamental_div_mod(d, g);
    lemma_div_nonincreasing(a, g);
    lemma_div_nonincreasing(d, g);
    lemma_div_pos_is_pos(a, g);
    let m = a / g;
    let dg = d / g;
    assert(dg >= 1 && m * d == a * dg && (m == 0 <==> a == 0)) by (nonlinear_arith)
        requires
            a == g * m,
            d == g * dg,
            d >= 1,
            g >= 1,
            a >= 0,
            m >= 0,
    {}
    if n < 0 {
        assert(v.num == -m && v.den == dg);
        assert((-m) * d == n * dg) by (nonlinear_arith)
            requires
                m * d == a * dg,
                a == -n,
        {}
    } else {
        assert(v.num == m && v.den == dg);
    }
}

pub open spec fn neg_spec(a: Rat) -> Rat {
    Rat { num: (-a.num) as i128, den: a.den }
}

/// Exact negation; never fails.
pub fn rat_neg(a: Rat) -> (r: Rat)
    requires
        a.wf(),
    ensures
        r == neg_spec(a),
        r.wf(),
{
    Rat { num: -a.num, den: a.den }
}

/// Addition over the least common denominator, then reduction.
pub open spec fn add_spec(a: Rat, b: Rat) -> Option<Rat>
    recommends
        a.wf(),
        b.wf(),
{
    let g = gcd(a.den as nat, b.den as nat) as int;
    let bq = b.den as int / g;
    let aq = a.den as int / g;
    if !fits(a.den * bq) {
        None
    } else if !fits(a.num * bq) {
        None
    } else if !fits(b.num * aq) {
        None
    } else if !fits(a.num * bq + b.num * aq) {
        None
    } else {
        norm_spec(a.num * bq + b.num * aq, a.den * bq)
    }
}

/// `a + b`, exactly; `None` when an intermediate value leaves `i128`.
pub fn rat_add(a: Rat, b: Rat) -> (r: Option<Rat>)
    requires
        a.wf(),
        b.wf(),
    ensures
        r == add_spec(a, b),
        r matches Some(v) ==> v.wf(),
{
    let g: u128 = gcd_u128(a.den as u128, b.den as u128);
    proof {
        lemma_gcd_properties(a.den as nat, b.den as nat);
        lemma_div_nonincreasing(b.den as int, g as int);
        lemma_div_nonincreasing(a.den as int, g as int);
        lemma_fundamental_div_mod(b.den as int, g as int);
        lemma_fundamental_div_mod(a.den as int, g as int);
        assert(b.den as int / g as int >= 1 && a.den as int / g as int >= 1)
            by (nonlinear_arith)
            requires
                b.den as int == (g as int) * (b.den as int / g as int),
                a.den as int == (g as int) * (a.den as int / g as int),
                a.den >= 1,
                b.den >= 1,
                g >= 1,
        {}
    }
    let bq: i128 = ((b.den as u128) / g) as i128;
    let aq: i128 = ((a.den as u128) / g) as i128;
    let l: i128 = match a.den.checked_mul(bq) {
        Some(x) => x,
        None => {
            return None;
        },
    };
    let t1: i128 = match a.num.checked_mul(bq) {
        Some(x) => x,
        None => {
            return None;
        },
    };
    let t2: i128 = match b.num.checked_mul(aq) {
        Some(x) => x,
        None => {
            return None;
        },
    };
    let s: i128 = match t1.checked_add(t2) {
        Some(x) => x,
        None => {
            return None;
        },
    };
    proof {
        assert(l >= 1) by (nonlinear_arith)
            requires
                l == a.den as int * (b.den as int / gcd(a.den as nat, b.den as nat) as int),
                a.den >= 1,
                b.den as int / gcd(a.den as nat, b.den as nat) as int >= 1,
        {}
    }
    norm(s, l)
}

pub open spec fn sub_spec(a: Rat, b: Rat) -> Option<Rat>
    recommends
        a.wf(),
        b.wf(),
{
    add_spec(a, neg_spec(b))
}

/// `a - b`, exactly; `None` when an intermediate value leaves `i128`.
pub fn rat_sub(a: Rat, b: Rat) -> (r: Option<Rat>)
    requires
        a.wf(),
        b.wf(),
    ensures
        r == sub_spec(a, b),
        r matches Some(v) ==> v.wf(),
{
    rat_add(a, rat_neg(b))
}

pub open spec fn mul_spec(a: Rat, b: Rat) -> Option<Rat>
    recommends
        a.wf(),
        b.wf(),
{
    if !fits(a.num * b.num) {
        None
    } else if !fits(a.den * b.den) {
        None
    } else {
        norm_spec(a.num * b.num, a.den * b.den)
    }
}

/// `a * b`, exactly; `None` when an intermediate value leaves `i128`.
pub fn rat_mul(a: Rat, b: Rat) -> (r: Option<Rat>)
    requires
        a.wf(),
        b.wf(),
    ensures
        r == mul_spec(a, b),
        r matches Some(v) ==> v.wf(),
{
    let n: i128 = match a.num.checked_mul(b.num) {
        Some(x) => x,
        None => {
            return None;
        },
    };
    let d: i128 = match a.den.checked_mul(b.den) {
        Some(x) => x,
        None => {
            return None;
        },
    };
    proof {
        assert(d >= 1) by (nonlinear_arith)
            requires
                d == a.den as int * b.den as int,
                a.den >= 1,
                b.den >= 1,
        {}
    }
    norm(n, d)
}

pub open spec fn div_spec(a: Rat, b: Rat) -> Option<Rat>
    recommends
        a.wf(),
        b.wf(),
{
    if b.num == 0 {
        None
    } else {
        let bn = if b.num < 0 {
            -b.num
        } else {
            b.num as int
        };
        if !fits(a.num * b.den) {
            None
        } else if !fits(a.den * bn) {
            None
        } else {
            match norm_spec(a.num * b.den, a.den * bn) {
                Some(v) => Some(
                    if b.num < 0 {
                        Rat { num: (-v.num) as i128, den: v.den }
                    } else {
                        v
                    },
                ),
                None => None,
            }
        }
    }
}

/// `a / b`, exactly; `None` when `b` is zero or an intermediate value
/// leaves `i128`.
pub fn rat_div(a: Rat, b: Rat) -> (r: Option<Rat>)
    requires
        a.wf(),
        b.wf(),
    ensures
        r == div_spec(a, b),
        r matches Some(v) ==> v.wf(),
{
    if b.num == 0 {
        return None;
    }
    let bn: i128 = if b.num < 0 {
        -b.num
    } else {
        b.num
    };
    let n: i128 = match a.num.checked_mul(b.den) {
        Some(x) => x,
        None => {
            return None;
        },
    };
    let d: i128 = match a.den.checked_mul(bn) {
        Some(x) => x,
        None => {
            return None;
        },
    };
    proof {
        assert(d >= 1) by (nonlinear_arith)
            requires
                d == a.den as int * bn as int,
                a.den >= 1,
                bn >= 1,
        {}
    }
    match norm(n, d) {
        Some(v) => Some(
            if b.num < 0 {
                Rat { num: -v.num, den: v.den }
            } else {
                v
            },
        ),
        None => None,
    }
}

pub open spec fn pow_spec(a: Rat, k: nat) -> Option<Rat>
    decreases k,
{
    if k == 0 {
        Some(rat_one())
    } else {
        match pow_spec(a, (k - 1) as nat) {
            Some(p) => mul_spec(p, a),
            None => None,
        }
    }
}

/// Once a power fails to fit, all higher powers fail too.
pub proof fn lemma_pow_none(a: Rat, j: nat, k: nat)
    requires
        j <= k,
        pow_spec(a, j) is None,
    ensures
        pow_spec(a, k) is None,
    decreases k,
{
    if k > j {
        lemma_pow_none(a, j, (k - 1) as nat);
    }
}

/// `a` raised to a non-negative power, by repeated multiplication.
pub fn rat_pow_u(a: Rat, k: u64) -> (r: Option<Rat>)
    requires
        a.wf(),
    ensures
        r == pow_spec(a, k as nat),
        r matches Some(v) ==> v.wf(),
{
    let mut acc: Rat = one();
    let mut i: u64 = 0;
    while i < k
        invariant
            a.wf(),
            acc.wf(),
            i <= k,
            Some(acc) == pow_spec(a, i as nat),
        decreases k - i,
    {
        match rat_mul(acc, a) {
            Some(v) => {
                acc = v;
            },
            None => {
                proof {
                    lemma_pow_none(a, (i + 1) as nat, k as nat);
                }
                return None;
            },
        }
        i = i + 1;
    }
    Some(acc)
}

pub open spec fn powi_spec(a: Rat, e: int) -> Option<Rat> {
    if e >= 0 {
        pow_spec(a, e as nat)
    } else {
        match pow_spec(a, (-e) as nat) {
            Some(p) => div_spec(rat_one(), p),
            None => None,
        }
    }
}

/// `a` raised to an integer power; a negative exponent inverts, and a zero
/// base with a negative exponent yields `None`.
pub fn rat_powi(a: Rat, e: i32) -> (r: Option<Rat>)
    requires
        a.wf(),
    ensures
        r == powi_spec(a, e as int),
        r matches Some(v) ==> v.wf(),
{
    let k: u64 = if e < 0 {
        (-(e as i64)) as u64
    } else {
        e as u64
    };
    match rat_pow_u(a, k) {
        Some(p) => {
            if e < 0 {
                rat_div(one(), p)
            } else {
                Some(p)
            }
        },
        None => None,
    }
}

pub open spec fn new_spec(num: i64, den: i64) -> Option<Rat> {
    if den == 0 {
        None
    } else if den < 0 {
        norm_spec(-num as int, -den as int)
    } else {
        norm_spec(num as int, den as int)
    }
}

/// `num / den` as a reduced rational; `None` exactly when `den == 0`.
pub fn new(num: i64, den: i64) -> (r: Option<Rat>)
    ensures
        r == new_spec(num, den),
        r matches Some(v) ==> v.wf(),
        den != 0 ==> r is Some,
{
    if den == 0 {
        return None;
    }
    let n: i128 = num as i128;
    let d: i128 = den as i128;
    let r = if den < 0 {
        norm(-n, -d)
    } else {
        norm(n, d)
    };
    proof {
        if den != 0 {
            assert(r is Some);
        }
    }
    r
}

// ------------------------------------------------------------------------
// Unbounded rational arithmetic, for specifications only.

pub open spec fn frac_valid(f: Frac) -> bool {
    f.den >= 1
}

/// Two fractions denote the same rational.
pub open spec fn frac_eq(a: Frac, b: Frac) -> bool {
    a.num * b.den == b.num * a.den
}

pub open spec fn frac_of_int(i: int) -> Frac {
    Frac { num: i, den: 1 }
}

pub open spec fn frac_add(a: Frac, b: Frac) -> Frac {
    Frac { num: a.num * b.den + b.num * a.den, den: a.den * b.den }
}

pub open spec fn frac_neg(a: Frac) -> Frac {
    Frac { num: -a.num, den: a.den }
}

pub open spec fn frac_sub(a: Frac, b: Frac) -> Frac {
    frac_add(a, frac_neg(b))
}

pub open spec fn frac_mul(a: Frac, b: Frac) -> Frac {
    Frac { num: a.num * b.num, den: a.den * b.den }
}

/// The reciprocal, with the sign moved into the numerator.
pub open spec fn frac_inv(b: Frac) -> Frac
    recommends
        b.num != 0,
{
    if b.num < 0 {
        Frac { num: -b.den, den: -b.num }
    } else {
        Frac { num: b.den, den: b.num }
    }
}

pub open spec fn frac_div(a: Frac, b: Frac) -> Frac
    recommends
        b.num != 0,
{
    frac_mul(a, frac_inv(b))
}

pub open spec fn frac_pow(a: Frac, k: nat) -> Frac
    decreases k,
{
    if k == 0 {
        frac_of_int(1)
    } else {
        frac_mul(frac_pow(a, (k - 1) as nat), a)
    }
}

pub proof fn lemma_frac_add_valid(a: Frac, b: Frac)
    requires
        frac_valid(a),
        frac_valid(b),
    ensures
        frac_valid(frac_add(a, b)),
        frac_valid(frac_mul(a, b)),
{
    assert(a.den * b.den >= 1) by (nonlinear_arith)
        requires
            a.den >= 1,
            b.den >= 1,
    {}
}

pub proof fn lemma_frac_pow_valid(a: Frac, k: nat)
    requires
        frac_valid(a),
    ensures
        frac_valid(frac_pow(a, k)),
    decreases k,
{
    if k > 0 {
        lemma_frac_pow_valid(a, (k - 1) as nat);
        lemma_frac_add_valid(frac_pow(a, (k - 1) as nat), a);
    }
}

/// `frac_eq` is transitive over valid fractions.
pub proof fn lemma_frac_eq_trans(a: Frac, b: Frac, c: Frac)
    requires
        frac_valid(a),
        frac_valid(b),
        frac_valid(c),
        frac_eq(a, b),
        frac_eq(b, c),
    ensures
        frac_eq(a, c),
{
    assert(a.num * c.den == c.num * a.den) by (nonlinear_arith)
        requires
            a.num * b.den == b.num * a.den,
            b.num * c.den == c.num * b.den,
            b.den >= 1,
    {}
}

/// Addition respects `frac_eq`.
pub proof fn lemma_frac_add_cong(a: Frac, b: Frac, x: Frac, y: Frac)
    requires
        frac_valid(a),
        frac_valid(b),
        frac_valid(x),
        frac_valid(y),
        frac_eq(a, x),
        frac_eq(b, y),
    ensures
        frac_eq(frac_add(a, b), frac_add(x, y)),
{
    assert((a.num * b.den) * (x.den * y.den) == (x.num * y.den) * (a.den * b.den))
        by (nonlinear_arith)
        requires
            a.num * x.den == x.num * a.den,
    {}
    assert((b.num * a.den) * (x.den * y.den) == (y.num * x.den) * (a.den * b.den))
        by (nonlinear_arith)
        requires
            b.num * y.den == y.num * b.den,
    {}
    assert((a.num * b.den + b.num * a.den) * (x.den * y.den) == (x.num * y.den + y.num * x.den)
        * (a.den * b.den)) by (nonlinear_arith)
        requires
            (a.num * b.den) * (x.den * y.den) == (x.num * y.den) * (a.den * b.den),
            (b.num * a.den) * (x.den * y.den) == (y.num * x.den) * (a.den * b.den),
    {}
}

/// Multiplication respects `frac_eq`.
pub proof fn lemma_frac_mul_cong(a: Frac, b: Frac, x: Frac, y: Frac)
    requires
        frac_valid(a),
        frac_valid(b),
        frac_valid(x),
        frac_valid(y),
        frac_eq(a, x),
        frac_eq(b, y),
    ensures
        frac_eq(frac_mul(a, b), frac_mul(x, y)),
{
    assert((a.num * b.num) * (x.den * y.den) == (x.num * y.num) * (a.den * b.den))
        by (nonlinear_arith)
        requires
            a.num * x.den == x.num * a.den,
            b.num * y.den == y.num * b.den,
    {}
}

/// Equal fractions have equal signs, so inversion respects `frac_eq`.
pub proof fn lemma_frac_inv_cong(b: Frac, y: Frac)
    requires
        frac_valid(b),
        frac_valid(y),
        frac_eq(b, y),
        b.num != 0,
    ensures
        y.num != 0,
        frac_valid(frac_inv(b)),
        frac_valid(frac_inv(y)),
        frac_eq(frac_inv(b), frac_inv(y)),
{
    assert((b.num < 0 <==> y.num < 0) && (b.num > 0 <==> y.num > 0)) by (nonlinear_arith)
        requires
            b.num * y.den == y.num * b.den,
            b.den >= 1,
            y.den >= 1,
    {}
    assert(frac_eq(frac_inv(b), frac_inv(y))) by (nonlinear_arith)
        requires
            b.num * y.den == y.num * b.den,
            (b.num < 0 <==> y.num < 0),
            b.num != 0,
            y.num != 0,
    {}
}

/// Multiplication commutes, up to `frac_eq`.
pub proof fn lemma_frac_mul_comm(a: Frac, b: Frac)
    ensures
        frac_eq(frac_mul(a, b), frac_mul(b, a)),
{
    assert((a.num * b.num) * (b.den * a.den) == (b.num * a.num) * (a.den * b.den))
        by (nonlinear_arith)
    {}
}

/// Multiplication distributes over addition, up to `frac_eq`.
#[verifier::rlimit(100)]
pub proof fn lemma_frac_mul_dist(x: Frac, u: Frac, v: Frac)
    ensures
        frac_eq(frac_mul(x, frac_add(u, v)), frac_add(frac_mul(x, u), frac_mul(x, v))),
{
    let p = u.num * v.den + v.num * u.den;
    let t = (x.num * u.num) * (x.den * v.den) + (x.num * v.num) * (x.den * u.den);
    assert(t == x.den * (x.num * p)) by (nonlinear_arith)
        requires
            p == u.num * v.den + v.num * u.den,
            t == (x.num * u.num) * (x.den * v.den) + (x.num * v.num) * (x.den * u.den),
    {}
    assert((x.num * p) * ((x.den * u.den) * (x.den * v.den)) == t * (x.den * (u.den * v.den)))
        by (nonlinear_arith)
        requires
            t == x.den * (x.num * p),
    {}
}

/// Adding a fraction equal to zero changes nothing, up to `frac_eq`.
pub proof fn lemma_frac_add_zero(q: Frac, z: Frac)
    requires
        frac_valid(q),
        frac_valid(z),
        frac_eq(z, frac_of_int(0)),
    ensures
        frac_eq(frac_add(q, z), q),
{
    assert((q.num * z.den + z.num * q.den) * q.den == q.num * (q.den * z.den))
        by (nonlinear_arith)
        requires
            z.num * 1 == 0 * z.den,
    {}
}

/// Multiplying by a fraction equal to one changes nothing, up to `frac_eq`.
pub proof fn lemma_frac_mul_one(o: Frac, q: Frac)
    requires
        frac_valid(o),
        frac_valid(q),
        frac_eq(o, frac_of_int(1)),
    ensures
        frac_eq(frac_mul(o, q), q),
{
    assert((o.num * q.num) * q.den == q.num * (o.den * q.den)) by (nonlinear_arith)
        requires
            o.num * 1 == 1 * o.den,
    {}
}

// ------------------------------------------------------------------------
// The checked operations compute the exact rational values.

/// A successful `add_spec` result denotes the exact sum.
pub proof fn lemma_add_value(a: Rat, b: Rat)
    requires
        a.wf(),
        b.wf(),
        add_spec(a, b) is Some,
    ensures
        ({
            let v = add_spec(a, b)->Some_0;
            v.wf() && frac_eq(v@, frac_add(a@, b@))
        }),
{
    let v = add_spec(a, b)->Some_0;
    lemma_gcd_properties(a.den as nat, b.den as nat);
    let g = gcd(a.den as nat, b.den as nat) as int;
    lemma_fundamental_div_mod(a.den as int, g);
    lemma_fundamental_div_mod(b.den as int, g);
    let aq = a.den as int / g;
    let bq = b.den as int / g;
    let s = a.num * bq + b.num * aq;
    let l = a.den * bq;
    assert(bq >= 1 && aq >= 1 && l >= 1) by (nonlinear_arith)
        requires
            a.den as int == g * aq,
            b.den as int == g * bq,
            a.den >= 1,
            b.den >= 1,
            g >= 1,
            l == a.den as int * bq,
    {}
    lemma_norm_value(s, l);
    assert(l * g == a.den * b.den) by (nonlinear_arith)
        requires
            l == a.den as int * bq,
            b.den as int == g * bq,
    {}
    assert(s * g == a.num * b.den + b.num * a.den) by (nonlinear_arith)
        requires
            s == a.num * bq + b.num * aq,
            b.den as int == g * bq,
            a.den as int == g * aq,
    {}
    assert(v.num * (l * g) == (s * g) * v.den) by (nonlinear_arith)
        requires
            v.num * l == s * v.den,
    {}
}

/// A successful `sub_spec` result denotes the exact difference.
pub proof fn lemma_sub_value(a: Rat, b: Rat)
    requires
        a.wf(),
        b.wf(),
        sub_spec(a, b) is Some,
    ensures
        ({
            let v = sub_spec(a, b)->Some_0;
            v.wf() && frac_eq(v@, frac_sub(a@, b@))
        }),
{
    lemma_add_value(a, neg_spec(b));
    assert(neg_spec(b)@ == frac_neg(b@));
}

/// A successful `mul_spec` result denotes the exact product.
pub proof fn lemma_mul_value(a: Rat, b: Rat)
    requires
        a.wf(),
        b.wf(),
        mul_spec(a, b) is Some,
    ensures
        ({
            let v = mul_spec(a, b)->Some_0;
            v.wf() && frac_eq(v@, frac_mul(a@, b@))
        }),
{
    let d = a.den as int * b.den as int;
    assert(d >= 1) by (nonlinear_arith)
        requires
            a.den >= 1,
            b.den >= 1,
            d == a.den as int * b.den as int,
    {}
    lemma_norm_value(a.num * b.num, d);
}

/// A successful `div_spec` result denotes the exact quotient.
pub proof fn lemma_div_value(a: Rat, b: Rat)
    requires
        a.wf(),
        b.wf(),
        div_spec(a, b) is Some,
    ensures
        b.num != 0,
        ({
            let v = div_spec(a, b)->Some_0;
            v.wf() && frac_eq(v@, frac_div(a@, b@))
        }),
{
    let v = div_spec(a, b)->Some_0;
    let bn = if b.num < 0 {
        -b.num
    } else {
        b.num as int
    };
    let n = a.num * b.den;
    let d = a.den * bn;
    assert(d >= 1) by (nonlinear_arith)
        requires
            a.den >= 1,
            bn >= 1,
            d == a.den as int * bn,
    {}
    lemma_norm_value(n, d);
    let v0 = norm_spec(n, d)->Some_0;
    if b.num < 0 {
        assert(v.num == -v0.num && v.den == v0.den);
        assert((-v0.num) * (a.den * (-b.num)) == (a.num * (-b.den)) * v0.den)
            by (nonlinear_arith)
            requires
                v0.num * (a.den as int * (-b.num as int)) == (a.num as int * b.den as int)
                    * v0.den,

        {}
    }
}

/// A successful `pow_spec` result denotes the exact power.
pub proof fn lemma_pow_value(a: Rat, k: nat)
    requires
        a.wf(),
        pow_spec(a, k) is Some,
    ensures
        ({
            let v = pow_spec(a, k)->Some_0;
            v.wf() && frac_eq(v@, frac_pow(a@, k))
        }),
    decreases k,
{
    let v = pow_spec(a, k)->Some_0;
    if k == 0 {
        assert(frac_eq(rat_one()@, frac_of_int(1)));
    } else {
        let p = pow_spec(a, (k - 1) as nat)->Some_0;
        lemma_pow_value(a, (k - 1) as nat);
        lemma_mul_value(p, a);
        lemma_frac_pow_valid(a@, (k - 1) as nat);
        lemma_frac_mul_cong(p@, a@, frac_pow(a@, (k - 1) as nat), a@);
        lemma_frac_add_valid(p@, a@);
        lemma_frac_add_valid(frac_pow(a@, (k - 1) as nat), a@);
        lemma_frac_eq_trans(
            v@,
            frac_mul(p@, a@),
            frac_mul(frac_pow(a@, (k - 1) as nat), a@),
        );
    }
}

pub open spec fn frac_powi(a: Frac, e: int) -> Frac {
    if e >= 0 {
        frac_pow(a, e as nat)
    } else {
        frac_div(frac_of_int(1), frac_pow(a, (-e) as nat))
    }
}

/// A successful `powi_spec` result denotes the exact signed power.
pub proof fn lemma_powi_value(a: Rat, e: int)
    requires
        a.wf(),
        powi_spec(a, e) is Some,
    ensures
        ({
            let v = powi_spec(a, e)->Some_0;
            v.wf() && frac_eq(v@, frac_powi(a@, e))
        }),
{
    let v = powi_spec(a, e)->Some_0;
    if e >= 0 {
        lemma_pow_value(a, e as nat);
    } else {
        let k = (-e) as nat;
        let p = pow_spec(a, k)->Some_0;
        lemma_pow_value(a, k);
        lemma_div_value(rat_one(), p);
        lemma_frac_pow_valid(a@, k);
        lemma_frac_inv_cong(p@, frac_pow(a@, k));
        lemma_frac_mul_cong(
            rat_one()@,
            frac_inv(p@),
            rat_one()@,
            frac_inv(frac_pow(a@, k)),
        );
        lemma_frac_add_valid(rat_one()@, frac_inv(p@));
        lemma_frac_add_valid(rat_one()@, frac_inv(frac_pow(a@, k)));
        lemma_frac_eq_trans(
            v@,
            frac_div(rat_one()@, p@),
            frac_div(rat_one()@, frac_pow(a@, k)),
        );
        assert(rat_one()@ == frac_of_int(1));
    }
}

} // verus!
