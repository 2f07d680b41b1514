//! Dense-coefficient polynomial arithmetic.
//!
//! A polynomial is an ordered coefficient sequence `[c0, c1, ..., cd]`
//! denoting `sum c_k * x^k`.  Evaluation uses Horner's scheme; products are
//! discrete convolutions.  Every function mirrors a spec-level definition
//! exactly, including the points at which checked arithmetic reports that a
//! value does not fit.

use vstd::prelude::*;
use crate::rat::{
    Rat, rat_zero, rat_one, zero, one, add_spec, mul_spec, div_spec, pow_spec, rat_add, rat_mul,
    rat_div, rat_pow_u, from_i64,
};
use crate::func::{Function, FuncV, fn_mul_v, fn_powi_v, seq_view, wf_v, funcs_wf, fn_mul,
    fn_powi, fn_var, fn_const, fn_sum, lemma_seq_view_push, lemma_seq_wf_push};
use crate::util::{fact_spec, factorial};
use crate::rng::rng_next;

verus! {

/// Element `i`, with out-of-range indices reading as zero.
pub open spec fn getz(s: Seq<Rat>, i: int) -> Rat {
    if 0 <= i < s.len() {
        s[i]
    } else {
        rat_zero()
    }
}

pub open spec fn coeffs_wf(s: Seq<Rat>) -> bool {
    forall|i: int| 0 <= i < s.len() ==> (#[trigger] s[i]).wf()
}

// ------------------------------------------------------------------------
// Trimming trailing zero coefficients.

pub open spec fn trim_spec(s: Seq<Rat>) -> Seq<Rat>
    decreases s.len(),
{
    if s.len() == 0 {
        s
    } else if s.last().num == 0 {
        trim_spec(s.drop_last())
    } else {
        s
    }
}

/// The coefficients with trailing exact zeros removed.
pub fn poly_trim(coeffs: &Vec<Rat>) -> (r: Vec<Rat>)
    ensures
        r@ == trim_spec(coeffs@),
{
    let mut n: usize = coeffs.len();
    proof {
        assert(coeffs@.subrange(0, n as int) =~= coeffs@);
    }
    while n > 0 && coeffs[n - 1].num == 0
        invariant
            n <= coeffs.len(),
            trim_spec(coeffs@.subrange(0, n as int)) == trim_spec(coeffs@),
        decreases n,
    {
        proof {
            assert(coeffs@.subrange(0, n as int).drop_last() =~= coeffs@.subrange(
                0,
                n as int - 1,
            ));
        }
        n = n - 1;
    }
    let mut r: Vec<Rat> = Vec::new();
    let mut i: usize = 0;
    while i < n
        invariant
            i <= n <= coeffs.len(),
            r@ == coeffs@.subrange(0, i as int),
            trim_spec(coeffs@.subrange(0, n as int)) == trim_spec(coeffs@),
            n > 0 ==> coeffs@[n as int - 1].num != 0,
        decreases n - i,
    {
        let c = coeffs[i];
        r.push(c);
        proof {
            assert(r@ =~= coeffs@.subrange(0, i as int + 1));
        }
        i = i + 1;
    }
    proof {
        assert(trim_spec(coeffs@.subrange(0, n as int)) == coeffs@.subrange(0, n as int));
    }
    r
}

/// Trimming preserves well-formed coefficients.
pub proof fn lemma_trim_wf(s: Seq<Rat>)
    requires
        coeffs_wf(s),
    ensures
        coeffs_wf(trim_spec(s)),
        trim_spec(s).len() <= s.len(),
        trim_spec(s).len() > 0 ==> trim_spec(s).last().num != 0,
        forall|i: int| 0 <= i < trim_spec(s).len() ==> trim_spec(s)[i] == s[i],
    decreases s.len(),
{
    if s.len() > 0 && s.last().num == 0 {
        lemma_trim_wf(s.drop_last());
        assert forall|i: int| 0 <= i < trim_spec(s).len() implies trim_spec(s)[i] == s[i] by {
            assert(trim_spec(s)[i] == s.drop_last()[i]);
        }
    }
}

// ------------------------------------------------------------------------
// Evaluation by Horner's scheme.

/// Horner evaluation: `c0 + x * (c1 + x * (...))`.
pub open spec fn horner_spec(s: Seq<Rat>, x: Rat) -> Option<Rat>
    decreases s.len(),
{
    if s.len() == 0 {
        Some(rat_zero())
    } else {
        match horner_spec(s.drop_first(), x) {
            Some(t) => match mul_spec(x, t) {
                Some(m) => add_spec(s[0], m),
                None => None,
            },
            None => None,
        }
    }
}

/// If a suffix fails to evaluate, the whole sequence fails.
proof fn lemma_horner_suffix_none(s: Seq<Rat>, x: Rat, k: int)
    requires
        0 <= k <= s.len(),
        horner_spec(s.subrange(k, s.len() as int), x) is None,
    ensures
        horner_spec(s, x) is None,
    decreases k,
{
    if k > 0 {
        assert(s.subrange(k - 1, s.len() as int).drop_first() =~= s.subrange(k, s.len() as int));
        lemma_horner_suffix_none(s, x, k - 1);
    } else {
        assert(s.subrange(0, s.len() as int) =~= s);
    }
}

/// `sum c_k * x^k`, exactly; `None` when a value does not fit.
pub fn poly_eval(coeffs: &Vec<Rat>, x: Rat) -> (r: Option<Rat>)
    requires
        coeffs_wf(coeffs@),
        x.wf(),
    ensures
        r == horner_spec(coeffs@, x),
        r matches Some(v) ==> v.wf(),
{
    let len: usize = coeffs.len();
    let mut acc: Rat = zero();
    let mut i: usize = len;
    proof {
        assert(coeffs@.subrange(len as int, len as int) =~= Seq::<Rat>::empty());
    }
    while i > 0
        invariant
            i <= len,
            len == coeffs.len(),
            coeffs_wf(coeffs@),
            x.wf(),
            acc.wf(),
            Some(acc) == horner_spec(coeffs@.subrange(i as int, len as int), x),
        decreases i,
    {
        i = i - 1;
        proof {
            assert(coeffs@.subrange(i as int, len as int).drop_first() =~= coeffs@.subrange(
                i as int + 1,
                len as int,
            ));
            assert(coeffs@.subrange(i as int, len as int)[0] == coeffs@[i as int]);
        }
        let m: Rat = match rat_mul(x, acc) {
            Some(v) => v,
            None => {
                proof {
                    lemma_horner_suffix_none(coeffs@, x, i as int);
                }
                return None;
            },
        };
        let a: Rat = match rat_add(coeffs[i], m) {
            Some(v) => v,
            None => {
                proof {
                    lemma_horner_suffix_none(coeffs@, x, i as int);
                }
                return None;
            },
        };
        acc = a;
    }
    proof {
        assert(coeffs@.subrange(0, len as int) =~= coeffs@);
    }
    Some(acc)
}

// ------------------------------------------------------------------------
// Scaling.

/// Elementwise multiplication by a scalar, left to right.
pub open spec fn scale_spec(s: Seq<Rat>, k: Rat) -> Option<Seq<Rat>>
    decreases s.len(),
{
    if s.len() == 0 {
        Some(s)
    } else {
        match scale_spec(s.drop_last(), k) {
            Some(p) => match mul_spec(s.last(), k) {
                Some(m) => Some(p.push(m)),
                None => None,
            },
            None => None,
        }
    }
}

/// A failed prefix means the whole scaling fails.
proof fn lemma_scale_prefix_none(s: Seq<Rat>, k: Rat, m: int)
    requires
        0 <= m <= s.len(),
        scale_spec(s.subrange(0, m), k) is None,
    ensures
        scale_spec(s, k) is None,
    decreases s.len() - m,
{
    if m < s.len() {
        assert(s.subrange(0, m + 1).drop_last() =~= s.subrange(0, m));
        lemma_scale_prefix_none(s, k, m + 1);
    } else {
        assert(s.subrange(0, s.len() as int) =~= s);
    }
}

/// Every coefficient multiplied by `scalar`, exactly.
pub fn poly_scale(coeffs: &Vec<Rat>, scalar: Rat) -> (r: Option<Vec<Rat>>)
    requires
        coeffs_wf(coeffs@),
        scalar.wf(),
    ensures
        ({
            match r {
                Some(v) => Some(v@) == scale_spec(coeffs@, scalar) && coeffs_wf(v@) && v@.len()
                    == coeffs@.len(),
                None => scale_spec(coeffs@, scalar) is None,
            }
        }),
{
    let mut out: Vec<Rat> = Vec::new();
    let mut i: usize = 0;
    proof {
        assert(coeffs@.subrange(0, 0) =~= Seq::<Rat>::empty());
        assert(scale_spec(coeffs@.subrange(0, 0), scalar) == Some(coeffs@.subrange(0, 0)));
    }
    while i < coeffs.len()
        invariant
            i <= coeffs.len(),
            coeffs_wf(coeffs@),
            scalar.wf(),
            coeffs_wf(out@),
            out@.len() == i,
            Some(out@) == scale_spec(coeffs@.subrange(0, i as int), scalar),
        decreases coeffs.len() - i,
    {
        proof {
            assert(coeffs@.subrange(0, i as int + 1).drop_last() =~= coeffs@.subrange(
                0,
                i as int,
            ));
            assert(coeffs@.subrange(0, i as int + 1).last() == coeffs@[i as int]);
        }
        let m: Rat = match rat_mul(coeffs[i], scalar) {
            Some(v) => v,
            None => {
                proof {
                    lemma_scale_prefix_none(coeffs@, scalar, i as int + 1);
                }
                return None;
            },
        };
        out.push(m);
        i = i + 1;
    }
    proof {
        assert(coeffs@.subrange(0, coeffs@.len() as int) =~= coeffs@);
    }
    Some(out)
}

// ------------------------------------------------------------------------
// Convolution (polynomial product).

/// Partial convolution coefficient: `sum_{j < i} a[j] * b[k - j]`.
pub open spec fn conv_psum_spec(a: Seq<Rat>, b: Seq<Rat>, k: int, i: int) -> Option<Rat>
    decreases i,
{
    if i <= 0 {
        Some(rat_zero())
    } else {
        match conv_psum_spec(a, b, k, i - 1) {
            Some(p) => match mul_spec(getz(a, i - 1), getz(b, k - (i - 1))) {
                Some(t) => add_spec(p, t),
                None => None,
            },
            None => None,
        }
    }
}

proof fn lemma_conv_psum_none(a: Seq<Rat>, b: Seq<Rat>, k: int, i: int, j: int)
    requires
        i <= j,
        conv_psum_spec(a, b, k, i) is None,
    ensures
        conv_psum_spec(a, b, k, j) is None,
    decreases j - i,
{
    if i < j {
        lemma_conv_psum_none(a, b, k, i, j - 1);
    }
}

/// The first `m` coefficients of the convolution.
pub open spec fn conv_pre_spec(a: Seq<Rat>, b: Seq<Rat>, m: int) -> Option<Seq<Rat>>
    decreases m,
{
    if m <= 0 {
        Some(Seq::empty())
    } else {
        match conv_pre_spec(a, b, m - 1) {
            Some(p) => match conv_psum_spec(a, b, m - 1, m) {
                Some(c) => Some(p.push(c)),
                None => None,
            },
            None => None,
        }
    }
}

proof fn lemma_conv_pre_none(a: Seq<Rat>, b: Seq<Rat>, m: int, j: int)
    requires
        m <= j,
        conv_pre_spec(a, b, m) is None,
    ensures
        conv_pre_spec(a, b, j) is None,
    decreases j - m,
{
    if m < j {
        lemma_conv_pre_none(a, b, m, j - 1);
    }
}

/// The full convolution: `len(a) + len(b) - 1` coefficients, where
/// coefficient `k` is `sum_i a[i] * b[k - i]` with out-of-range reads as 0.
pub open spec fn conv_spec(a: Seq<Rat>, b: Seq<Rat>) -> Option<Seq<Rat>>
    recommends
        a.len() >= 1,
        b.len() >= 1,
{
    conv_pre_spec(a, b, a.len() + b.len() - 1)
}

/// Discrete convolution of two coefficient sequences.
pub fn poly_mul(coeffs1: &Vec<Rat>, coeffs2: &Vec<Rat>) -> (r: Option<Vec<Rat>>)
    requires
        coeffs_wf(coeffs1@),
        coeffs_wf(coeffs2@),
        coeffs1@.len() >= 1,
        coeffs2@.len() >= 1,
        coeffs1@.len() + coeffs2@.len() < usize::MAX,
    ensures
        ({
            match r {
                Some(v) => Some(v@) == conv_spec(coeffs1@, coeffs2@) && coeffs_wf(v@) && v@.len()
                    == coeffs1@.len() + coeffs2@.len() - 1,
                None => conv_spec(coeffs1@, coeffs2@) is None,
            }
        }),
{
    let outlen: usize = coeffs1.len() + coeffs2.len() - 1;
    let mut out: Vec<Rat> = Vec::new();
    let mut k: usize = 0;
    while k < outlen
        invariant
            k <= outlen,
            outlen == coeffs1@.len() + coeffs2@.len() - 1,
            coeffs_wf(coeffs1@),
            coeffs_wf(coeffs2@),
            coeffs_wf(out@),
            out@.len() == k,
            Some(out@) == conv_pre_spec(coeffs1@, coeffs2@, k as int),
        decreases outlen - k,
    {
        let mut acc: Rat = zero();
        let mut i: usize = 0;
        while i <= k
            invariant
                i <= k + 1,
                k < outlen,
                outlen == coeffs1@.len() + coeffs2@.len() - 1,
                coeffs_wf(coeffs1@),
                coeffs_wf(coeffs2@),
                acc.wf(),
                Some(acc) == conv_psum_spec(coeffs1@, coeffs2@, k as int, i as int),
            decreases k + 1 - i,
        {
            let ca: Rat = if i < coeffs1.len() {
                coeffs1[i]
            } else {
                zero()
            };
            let cb: Rat = if k - i < coeffs2.len() {
                coeffs2[k - i]
            } else {
                zero()
            };
            let t: Rat = match rat_mul(ca, cb) {
                Some(v) => v,
                None => {
                    proof {
                        lemma_conv_psum_none(coeffs1@, coeffs2@, k as int, i as int + 1, k as int
                            + 1);
                        lemma_conv_pre_none(coeffs1@, coeffs2@, k as int + 1, outlen as int);
                    }
                    return None;
                },
            };
            let a: Rat = match rat_add(acc, t) {
                Some(v) => v,
                None => {
                    proof {
                        lemma_conv_psum_none(coeffs1@, coeffs2@, k as int, i as int + 1, k as int
                            + 1);
                        lemma_conv_pre_none(coeffs1@, coeffs2@, k as int + 1, outlen as int);
                    }
                    return None;
                },
            };
            acc = a;
            i = i + 1;
        }
        out.push(acc);
        k = k + 1;
    }
    Some(out)
}

// ------------------------------------------------------------------------
// Differentiation.

/// Coefficients of the derivative: position `k - 1` holds `c_k * k`.
pub open spec fn deriv_pre_spec(s: Seq<Rat>, m: int) -> Option<Seq<Rat>>
    decreases m,
{
    if m <= 1 {
        Some(Seq::empty())
    } else {
        match deriv_pre_spec(s, m - 1) {
            Some(p) => match mul_spec(s[m - 1], Rat { num: (m - 1) as i128, den: 1 }) {
                Some(t) => Some(p.push(t)),
                None => None,
            },
            None => None,
        }
    }
}

proof fn lemma_deriv_pre_none(s: Seq<Rat>, m: int, j: int)
    requires
        m <= j,
        deriv_pre_spec(s, m) is None,
    ensures
        deriv_pre_spec(s, j) is None,
    decreases j - m,
{
    if m < j {
        lemma_deriv_pre_none(s, m, j - 1);
    }
}

pub open spec fn deriv_spec(s: Seq<Rat>) -> Option<Seq<Rat>> {
    deriv_pre_spec(s, s.len() as int)
}

/// The derivative drops the constant term and multiplies `c_k` by `k`.
pub fn poly_derivative(coeffs: &Vec<Rat>) -> (r: Option<Vec<Rat>>)
    requires
        coeffs_wf(coeffs@),
        coeffs@.len() <= 0x7fff_ffff_ffff_ffff,
    ensures
        ({
            match r {
                Some(v) => Some(v@) == deriv_spec(coeffs@) && coeffs_wf(v@) && (coeffs@.len() >= 1
                    ==> v@.len() == coeffs@.len() - 1) && (coeffs@.len() == 0 ==> v@.len() == 0),
                None => deriv_spec(coeffs@) is None,
            }
        }),
{
    let mut out: Vec<Rat> = Vec::new();
    let mut k: usize = 1;
    while k < coeffs.len()
        invariant
            1 <= k <= coeffs.len() || (coeffs.len() == 0 && k == 1),
            coeffs@.len() <= 0x7fff_ffff_ffff_ffff,
            coeffs_wf(coeffs@),
            coeffs_wf(out@),
            k <= coeffs.len() ==> out@.len() == k - 1,
            Some(out@) == deriv_pre_spec(coeffs@, k as int),
        decreases coeffs.len() - k,
    {
        let kr: Rat = from_i64(k as i64);
        let t: Rat = match rat_mul(coeffs[k], kr) {
            Some(v) => v,
            None => {
                proof {
                    lemma_deriv_pre_none(coeffs@, k as int + 1, coeffs@.len() as int);
                }
                return None;
            },
        };
        out.push(t);
        k = k + 1;
    }
    Some(out)
}

// ------------------------------------------------------------------------
// The polynomial type.

/// A dense polynomial: coefficient `k` multiplies `x^k`.
#[derive(Debug, PartialEq)]
pub struct Polynomial {
    pub coefficients: Vec<Rat>,
}

/// The terms of the expression form: one `c_k * x_0^k` per non-zero
/// coefficient among the first `m`.
pub open spec fn to_fn_terms_v(cs: Seq<Rat>, m: int) -> Seq<FuncV>
    decreases m,
{
    if m <= 0 {
        Seq::empty()
    } else {
        let p = to_fn_terms_v(cs, m - 1);
        if cs[m - 1].num == 0 {
            p
        } else {
            p.push(fn_mul_v(FuncV::Const(cs[m - 1]), fn_powi_v(FuncV::Var(0), m - 1)))
        }
    }
}

impl Polynomial {
    /// A polynomial with the given coefficients, copied.
    pub fn new_with_coefficients(coefficients: &Vec<Rat>) -> (r: Polynomial)
        ensures
            r.coefficients@ == coefficients@,
    {
        let mut cs: Vec<Rat> = Vec::new();
        let mut i: usize = 0;
        while i < coefficients.len()
            invariant
                i <= coefficients.len(),
                cs@ == coefficients@.subrange(0, i as int),
            decreases coefficients.len() - i,
        {
            cs.push(coefficients[i]);
            proof {
                assert(cs@ =~= coefficients@.subrange(0, i as int + 1));
            }
            i = i + 1;
        }
        proof {
            assert(coefficients@.subrange(0, coefficients@.len() as int) =~= coefficients@);
        }
        Polynomial { coefficients: cs }
    }

    /// A polynomial of the given degree with coefficients drawn from the
    /// generator, each a grid point of `[-1, 1]`.  (A drawn value whose
    /// grid point cannot be formed leaves the coefficient zero; for this
    /// interval the grid points always fit.)
    pub fn new_random_with_degree(degree: usize, rng: &mut rand::rngs::StdRng) -> (r: Polynomial)
        requires
            degree < 0x7fff_ffff,
        ensures
            r.coefficients@.len() == degree + 1,
            coeffs_wf(r.coefficients@),
    {
        let lo: Rat = from_i64(-1);
        let hi: Rat = from_i64(1);
        let mut cs: Vec<Rat> = Vec::new();
        let mut i: usize = 0;
        while i < degree + 1
            invariant
                degree < 0x7fff_ffff,
                i <= degree + 1,
                lo.wf(),
                hi.wf(),
                cs@.len() == i,
                coeffs_wf(cs@),
            decreases degree + 1 - i,
        {
            let u: u64 = rng_next(rng);
            let frac: Rat = Rat {
                num: (u % crate::util::SAMPLE_GRID) as i128,
                den: crate::util::SAMPLE_GRID as i128,
            };
            let c: Rat = match crate::rat::rat_sub(hi, lo) {
                Some(w) => match rat_mul(w, frac) {
                    Some(d) => match rat_add(lo, d) {
                        Some(x) => x,
                        None => zero(),
                    },
                    None => zero(),
                },
                None => zero(),
            };
            cs.push(c);
            i = i + 1;
        }
        Polynomial { coefficients: cs }
    }

    /// The degree: one less than the number of coefficients.
    pub fn degree(&self) -> (r: usize)
        requires
            self.coefficients@.len() >= 1,
        ensures
            r == self.coefficients@.len() - 1,
    {
        self.coefficients.len() - 1
    }

    /// The expression form: the sum of one `Const * x_0^k` term per
    /// non-zero coefficient.
    pub fn to_function_of_x(&self) -> (r: Function)
        requires
            coeffs_wf(self.coefficients@),
            self.coefficients@.len() <= 0x7fff_ffff,
        ensures
            r@ == FuncV::Sum(to_fn_terms_v(self.coefficients@, self.coefficients@.len() as int)),
            wf_v(r@),
    {
        let mut terms: Vec<Function> = Vec::new();
        let mut i: usize = 0;
        while i < self.coefficients.len()
            invariant
                i <= self.coefficients@.len() <= 0x7fff_ffff,
                coeffs_wf(self.coefficients@),
                seq_view(terms@) == to_fn_terms_v(self.coefficients@, i as int),
                funcs_wf(terms@),
            decreases self.coefficients@.len() - i,
        {
            let c: Rat = self.coefficients[i];
            if c.num != 0 {
                let t = fn_mul(fn_const(c), fn_powi(fn_var(0), i as i32));
                proof {
                    lemma_seq_view_push(terms@, t);
                    lemma_seq_wf_push(seq_view(terms@), t@);
                }
                terms.push(t);
            }
            i = i + 1;
        }
        fn_sum(terms)
    }
}

// ------------------------------------------------------------------------
// Legendre polynomials via Rodrigues' formula.

pub open spec fn square_minus_one_v() -> Seq<Rat> {
    seq![Rat { num: -1i128, den: 1 }, rat_zero(), rat_one()]
}

/// `(x^2 - 1)^m`, by repeated convolution.
pub open spec fn leg_pow_v(m: int) -> Option<Seq<Rat>>
    decreases m,
{
    if m <= 0 {
        Some(seq![rat_one()])
    } else {
        match leg_pow_v(m - 1) {
            Some(c) => conv_spec(c, square_minus_one_v()),
            None => None,
        }
    }
}

/// The `m`-th derivative of a coefficient sequence.
pub open spec fn leg_deriv_v(s: Seq<Rat>, m: int) -> Option<Seq<Rat>>
    decreases m,
{
    if m <= 0 {
        Some(s)
    } else {
        match leg_deriv_v(s, m - 1) {
            Some(c) => deriv_spec(c),
            None => None,
        }
    }
}

/// Rodrigues' formula: the coefficients of the `n`-th Legendre polynomial
/// are those of the `n`-th derivative of `(x^2 - 1)^n`, scaled by
/// `1 / (2^n * n!)`.
pub open spec fn legendre_v(n: int) -> Option<Seq<Rat>> {
    match leg_pow_v(n) {
        Some(c) => match leg_deriv_v(c, n) {
            Some(d) => match pow_spec(Rat { num: 2, den: 1 }, n as nat) {
                Some(p2) => match mul_spec(p2, Rat { num: fact_spec(n as nat) as i128, den: 1 }) {
                    Some(dn) => match div_spec(rat_one(), dn) {
                        Some(sc) => scale_spec(d, sc),
                        None => None,
                    },
                    None => None,
                },
                None => None,
            },
            None => None,
        },
        None => None,
    }
}

/// The coefficients of the `n`-th Legendre polynomial, by Rodrigues'
/// formula.
pub fn get_legendre_rodrigues(n: usize) -> (r: Option<Vec<Rat>>)
    requires
        n <= 20,
    ensures
        ({
            match r {
                Some(v) => Some(v@) == legendre_v(n as int) && coeffs_wf(v@) && v@.len() == n + 1,
                None => legendre_v(n as int) is None,
            }
        }),
{
    let sq: Vec<Rat> = square_minus_one();
    let mut coeffs: Vec<Rat> = Vec::new();
    coeffs.push(one());
    proof {
        assert(coeffs@ =~= seq![rat_one()]);
    }
    let mut k: usize = 0;
    while k < n
        invariant
            k <= n <= 20,
            sq@ == square_minus_one_v(),
            coeffs_wf(sq@),
            coeffs_wf(coeffs@),
            coeffs@.len() == 2 * k + 1,
            Some(coeffs@) == leg_pow_v(k as int),
        decreases n - k,
    {
        let next: Vec<Rat> = match poly_mul(&coeffs, &sq) {
            Some(v) => v,
            None => {
                proof {
                    lemma_leg_pow_none(k as int + 1, n as int);
                }
                return None;
            },
        };
        coeffs = next;
        k = k + 1;
    }
    let ghost powed = coeffs@;
    let mut k2: usize = 0;
    while k2 < n
        invariant
            k2 <= n <= 20,
            coeffs_wf(coeffs@),
            coeffs@.len() == 2 * n + 1 - k2,
            Some(powed) == leg_pow_v(n as int),
            Some(coeffs@) == leg_deriv_v(powed, k2 as int),
        decreases n - k2,
    {
        let next: Vec<Rat> = match poly_derivative(&coeffs) {
            Some(v) => v,
            None => {
                proof {
                    lemma_leg_deriv_none(powed, k2 as int + 1, n as int);
                }
                return None;
            },
        };
        coeffs = next;
        k2 = k2 + 1;
    }
    let p2: Rat = match rat_pow_u(from_i64(2), n as u64) {
        Some(v) => v,
        None => {
            return None;
        },
    };
    let nf: u64 = factorial(n as u32);
    proof {
        crate::util::lemma_fact_le_20(n as nat);
    }
    let dn: Rat = match rat_mul(p2, from_i64(nf as i64)) {
        Some(v) => v,
        None => {
            return None;
        },
    };
    let sc: Rat = match rat_div(one(), dn) {
        Some(v) => v,
        None => {
            return None;
        },
    };
    poly_scale(&coeffs, sc)
}

fn square_minus_one() -> (r: Vec<Rat>)
    ensures
        r@ == square_minus_one_v(),
        coeffs_wf(r@),
{
    let mut v: Vec<Rat> = Vec::new();
    v.push(from_i64(-1));
    v.push(zero());
    v.push(one());
    proof {
        assert(v@ =~= square_minus_one_v());
    }
    v
}

proof fn lemma_leg_pow_none(m: int, j: int)
    requires
        m <= j,
        leg_pow_v(m) is None,
    ensures
        leg_pow_v(j) is None,
    decreases j - m,
{
    if m < j {
        lemma_leg_pow_none(m, j - 1);
    }
}

proof fn lemma_leg_deriv_none(s: Seq<Rat>, m: int, j: int)
    requires
        m <= j,
        leg_deriv_v(s, m) is None,
    ensures
        leg_deriv_v(s, j) is None,
    decreases j - m,
{
    if m < j {
        lemma_leg_deriv_none(s, m, j - 1);
    }
}

} // verus!
