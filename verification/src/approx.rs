//! Function approximation: gradient-descent fitting of polynomial
//! coefficients against a target function, and truncated Legendre-basis
//! projection.

use vstd::prelude::*;
use crate::rat::{
    Rat, rat_zero, add_spec, sub_spec, mul_spec, div_spec, pow_spec, rat_add, rat_sub, rat_mul,
    rat_div, rat_pow_u, from_i64, zero,
};
use crate::func::{
    Function, FuncV, eval_v, wf_v, fn_add, fn_add_v, fn_mul, fn_mul_v, fn_const, fn_poly,
    fn_poly_v,
};
use crate::polynomial::{coeffs_wf, horner_spec, poly_eval, legendre_v, get_legendre_rodrigues};
use crate::integration::{IntMethod, integrate_v, int_inner_product};
use crate::util::{rand_points_ok, sample_interval_random};

verus! {

// ------------------------------------------------------------------------
// The sampled error gradient.

/// `(f(x) - p(x)) * x^k` at one sample point: the descent direction for
/// coefficient `k` contributed by `x` (the factor 2 of the squared-error
/// derivative is folded into the caller's step size).
pub open spec fn aeg_term_v(e: FuncV, cs: Seq<Rat>, x: Rat, k: int) -> Option<Rat>
    recommends
        k >= 0,
{
    match (eval_v(e, seq![x]), horner_spec(cs, x), pow_spec(x, k as nat)) {
        (Some(fx), Some(px), Some(xp)) => match sub_spec(fx, px) {
            Some(d) => mul_spec(d, xp),
            None => None,
        },
        _ => None,
    }
}

/// The sum of the first `m` sample contributions for coefficient `k`.
pub open spec fn aeg_sum_v(e: FuncV, cs: Seq<Rat>, xs: Seq<Rat>, k: int, m: int) -> Option<Rat>
    decreases m,
{
    if m <= 0 {
        Some(rat_zero())
    } else {
        match (aeg_sum_v(e, cs, xs, k, m - 1), aeg_term_v(e, cs, xs[m - 1], k)) {
            (Some(acc), Some(t)) => add_spec(acc, t),
            _ => None,
        }
    }
}

/// Gradient component `k`: the mean over the samples.
pub open spec fn aeg_comp_v(e: FuncV, cs: Seq<Rat>, xs: Seq<Rat>, k: int) -> Option<Rat> {
    match aeg_sum_v(e, cs, xs, k, xs.len() as int) {
        Some(s) => div_spec(s, Rat { num: xs.len() as i128, den: 1 }),
        None => None,
    }
}

/// The first `m` gradient components.
pub open spec fn aeg_v(e: FuncV, cs: Seq<Rat>, xs: Seq<Rat>, m: int) -> Option<Seq<Rat>>
    decreases m,
{
    if m <= 0 {
        Some(Seq::empty())
    } else {
        match (aeg_v(e, cs, xs, m - 1), aeg_comp_v(e, cs, xs, m - 1)) {
            (Some(p), Some(g)) => Some(p.push(g)),
            _ => None,
        }
    }
}

proof fn lemma_aeg_sum_none(e: FuncV, cs: Seq<Rat>, xs: Seq<Rat>, k: int, m: int, j: int)
    requires
        m <= j,
        aeg_sum_v(e, cs, xs, k, m) is None,
    ensures
        aeg_sum_v(e, cs, xs, k, j) is None,
    decreases j - m,
{
    if m < j {
        lemma_aeg_sum_none(e, cs, xs, k, m, j - 1);
    }
}

proof fn lemma_aeg_none(e: FuncV, cs: Seq<Rat>, xs: Seq<Rat>, m: int, j: int)
    requires
        m <= j,
        aeg_v(e, cs, xs, m) is None,
    ensures
        aeg_v(e, cs, xs, j) is None,
    decreases j - m,
{
    if m < j {
        lemma_aeg_none(e, cs, xs, m, j - 1);
    }
}

/// The gradient of the squared fitting error of `coeffs` against `f`,
/// averaged over the sample points `xs`: component `k` is the mean of
/// `(f(x) - p(x)) * x^k`.
pub fn average_error_gradient(f: &Function, coeffs: &Vec<Rat>, xs: &Vec<Rat>) -> (r: Option<
    Vec<Rat>,
>)
    requires
        wf_v(f@),
        coeffs_wf(coeffs@),
        coeffs_wf(xs@),
        1 <= xs@.len() <= 0x7fff_ffff_ffff_ffff,
    ensures
        ({
            match r {
                Some(v) => Some(v@) == aeg_v(f@, coeffs@, xs@, coeffs@.len() as int)
                    && coeffs_wf(v@) && v@.len() == coeffs@.len(),
                None => aeg_v(f@, coeffs@, xs@, coeffs@.len() as int) is None,
            }
        }),
{
    let mut grad: Vec<Rat> = Vec::new();
    let mut k: usize = 0;
    while k < coeffs.len()
        invariant
            k <= coeffs@.len(),
            wf_v(f@),
            coeffs_wf(coeffs@),
            coeffs_wf(xs@),
            1 <= xs@.len() <= 0x7fff_ffff_ffff_ffff,
            coeffs_wf(grad@),
            grad@.len() == k,
            Some(grad@) == aeg_v(f@, coeffs@, xs@, k as int),
        decreases coeffs@.len() - k,
    {
        let mut acc: Rat = zero();
        let mut i: usize = 0;
        while i < xs.len()
            invariant
                i <= xs@.len(),
                k < coeffs@.len(),
                wf_v(f@),
                coeffs_wf(coeffs@),
                coeffs_wf(xs@),
                1 <= xs@.len() <= 0x7fff_ffff_ffff_ffff,
                acc.wf(),
                Some(acc) == aeg_sum_v(f@, coeffs@, xs@, k as int, i as int),
            decreases xs@.len() - i,
        {
            let x: Rat = xs[i];
            let mut argv: Vec<Rat> = Vec::new();
            argv.push(x);
            proof {
                assert(argv@ =~= seq![x]);
            }
            let fx: Rat = match f.eval(&argv) {
                Some(v) => v,
                None => {
                    proof {
                        lemma_aeg_sum_none(f@, coeffs@, xs@, k as int, i as int + 1,
                            xs@.len() as int);
                        lemma_aeg_none(f@, coeffs@, xs@, k as int + 1, coeffs@.len() as int);
                    }
                    return None;
                },
            };
            let px: Rat = match poly_eval(coeffs, x) {
                Some(v) => v,
                None => {
                    proof {
                        lemma_aeg_sum_none(f@, coeffs@, xs@, k as int, i as int + 1,
                            xs@.len() as int);
                        lemma_aeg_none(f@, coeffs@, xs@, k as int + 1, coeffs@.len() as int);
                    }
                    return None;
                },
            };
            let xp: Rat = match rat_pow_u(x, k as u64) {
                Some(v) => v,
                None => {
                    proof {
                        lemma_aeg_sum_none(f@, coeffs@, xs@, k as int, i as int + 1,
                            xs@.len() as int);
                        lemma_aeg_none(f@, coeffs@, xs@, k as int + 1, coeffs@.len() as int);
                    }
                    return None;
                },
            };
            let d: Rat = match rat_sub(fx, px) {
                Some(v) => v,
                None => {
                    proof {
                        lemma_aeg_sum_none(f@, coeffs@, xs@, k as int, i as int + 1,
                            xs@.len() as int);
                        lemma_aeg_none(f@, coeffs@, xs@, k as int + 1, coeffs@.len() as int);
                    }
                    return None;
                },
            };
            let t: Rat = match rat_mul(d, xp) {
                Some(v) => v,
                None => {
                    proof {
                        lemma_aeg_sum_none(f@, coeffs@, xs@, k as int, i as int + 1,
                            xs@.len() as int);
                        lemma_aeg_none(f@, coeffs@, xs@, k as int + 1, coeffs@.len() as int);
                    }
                    return None;
                },
            };
            let a2: Rat = match rat_add(acc, t) {
                Some(v) => v,
                None => {
                    proof {
                        lemma_aeg_sum_none(f@, coeffs@, xs@, k as int, i as int + 1,
                            xs@.len() as int);
                        lemma_aeg_none(f@, coeffs@, xs@, k as int + 1, coeffs@.len() as int);
                    }
                    return None;
                },
            };
            acc = a2;
            i = i + 1;
        }
        let g: Rat = match rat_div(acc, from_i64(xs.len() as i64)) {
            Some(v) => v,
            None => {
                proof {
                    lemma_aeg_none(f@, coeffs@, xs@, k as int + 1, coeffs@.len() as int);
                }
                return None;
            },
        };
        grad.push(g);
        k = k + 1;
    }
    Some(grad)
}

// ------------------------------------------------------------------------
// One gradient-descent step.

/// The updated coefficients: `c_k + step * g_k` (the gradient already
/// points from `p` toward `f`, so adding it reduces the error).
pub open spec fn gd_upd_v(cs: Seq<Rat>, g: Seq<Rat>, step: Rat, m: int) -> Option<Seq<Rat>>
    decreases m,
{
    if m <= 0 {
        Some(Seq::empty())
    } else {
        match (gd_upd_v(cs, g, step, m - 1), mul_spec(step, g[m - 1])) {
            (Some(p), Some(d)) => match add_spec(cs[m - 1], d) {
                Some(c2) => Some(p.push(c2)),
                None => None,
            },
            _ => None,
        }
    }
}

/// One descent step from `cs` against `e`, using the sample points `xs`.
pub open spec fn gd_with_v(e: FuncV, cs: Seq<Rat>, xs: Seq<Rat>, step: Rat) -> Option<
    Seq<Rat>,
> {
    match aeg_v(e, cs, xs, cs.len() as int) {
        Some(g) => gd_upd_v(cs, g, step, cs.len() as int),
        None => None,
    }
}

proof fn lemma_gd_upd_none(cs: Seq<Rat>, g: Seq<Rat>, step: Rat, m: int, j: int)
    requires
        m <= j,
        gd_upd_v(cs, g, step, m) is None,
    ensures
        gd_upd_v(cs, g, step, j) is None,
    decreases j - m,
{
    if m < j {
        lemma_gd_upd_none(cs, g, step, m, j - 1);
    }
}

/// One gradient-descent step with the sample points given explicitly, so
/// the result is a function of its arguments alone.
pub fn gradient_step_with_samples(
    f: &Function,
    coeffs: &Vec<Rat>,
    xs: &Vec<Rat>,
    step_size: Rat,
) -> (r: Option<Vec<Rat>>)
    requires
        wf_v(f@),
        coeffs_wf(coeffs@),
        coeffs_wf(xs@),
        step_size.wf(),
        1 <= xs@.len() <= 0x7fff_ffff_ffff_ffff,
    ensures
        ({
            match r {
                Some(v) => Some(v@) == gd_with_v(f@, coeffs@, xs@, step_size) && coeffs_wf(v@)
                    && v@.len() == coeffs@.len(),
                None => gd_with_v(f@, coeffs@, xs@, step_size) is None,
            }
        }),
{
    let grad: Vec<Rat> = match average_error_gradient(f, coeffs, xs) {
        Some(v) => v,
        None => {
            return None;
        },
    };
    let mut out: Vec<Rat> = Vec::new();
    let mut k: usize = 0;
    while k < coeffs.len()
        invariant
            k <= coeffs@.len(),
            coeffs_wf(coeffs@),
            coeffs_wf(grad@),
            step_size.wf(),
            grad@.len() == coeffs@.len(),
            Some(grad@) == aeg_v(f@, coeffs@, xs@, coeffs@.len() as int),
            coeffs_wf(out@),
            out@.len() == k,
            Some(out@) == gd_upd_v(coeffs@, grad@, step_size, k as int),
        decreases coeffs@.len() - k,
    {
        let d: Rat = match rat_mul(step_size, grad[k]) {
            Some(v) => v,
            None => {
                proof {
                    lemma_gd_upd_none(coeffs@, grad@, step_size, k as int + 1,
                        coeffs@.len() as int);
                }
                return None;
            },
        };
        let c2: Rat = match rat_add(coeffs[k], d) {
            Some(v) => v,
            None => {
                proof {
                    lemma_gd_upd_none(coeffs@, grad@, step_size, k as int + 1,
                        coeffs@.len() as int);
                }
                return None;
            },
        };
        out.push(c2);
        k = k + 1;
    }
    Some(out)
}

/// One step of gradient descent on the coefficients of a polynomial
/// fitting `f` over `interval`: draws `sample_size` points from the
/// generator and returns the updated coefficients, leaving the input
/// untouched.  Whatever the generator yields, a returned value is the
/// exact descent step for some sequence of grid points of the interval.
pub fn compute_gradient_descent_step(
    f: &Function,
    coeffs: &Vec<Rat>,
    interval: (Rat, Rat),
    sample_size: usize,
    step_size: Rat,
    rng: &mut rand::rngs::StdRng,
) -> (r: Option<Vec<Rat>>)
    requires
        wf_v(f@),
        coeffs_wf(coeffs@),
        interval.0.wf(),
        interval.1.wf(),
        step_size.wf(),
        1 <= sample_size <= 0x7fff_ffff_ffff_ffff,
    ensures
        r matches Some(v) ==> exists|xs: Seq<Rat>|
            {
                &&& xs.len() == sample_size
                &&& rand_points_ok(xs, interval.0, interval.1)
                &&& Some(v@) == gd_with_v(f@, coeffs@, xs, step_size)
                &&& v@.len() == coeffs@.len()
            },
        r matches Some(v) ==> coeffs_wf(v@),
{
    let xs: Vec<Rat> = match sample_interval_random(interval, sample_size, rng) {
        Some(v) => v,
        None => {
            return None;
        },
    };
    let r = gradient_step_with_samples(f, coeffs, &xs, step_size);
    proof {
        if r is Some {
            assert(xs@.len() == sample_size && rand_points_ok(xs@, interval.0, interval.1)
                && Some(r->Some_0@) == gd_with_v(f@, coeffs@, xs@, step_size));
        }
    }
    r
}

// ------------------------------------------------------------------------
// Legendre approximation.

/// The partial Legendre projection `sum_{k<m} a_k * L_k`, where
/// `a_k = ((2k + 1) / 2) * <f, L_k>` over `[-1, 1]`.
pub open spec fn legendre_approx_v(e: FuncV, m: int, method: IntMethod) -> Option<FuncV>
    decreases m,
{
    if m <= 0 {
        Some(FuncV::Const(rat_zero()))
    } else {
        match (legendre_approx_v(e, m - 1, method), legendre_v(m - 1)) {
            (Some(p), Some(lc)) => {
                let lf = fn_poly_v(lc);
                match integrate_v(
                    fn_mul_v(e, lf),
                    Rat { num: -1i128, den: 1 },
                    Rat { num: 1, den: 1 },
                    method,
                ) {
                    Some(ip) => match mul_spec(Rat { num: (2 * (m - 1) + 1) as i128, den: 2 }, ip) {
                        Some(ak) => Some(fn_add_v(p, fn_mul_v(FuncV::Const(ak), lf))),
                        None => None,
                    },
                    None => None,
                }
            },
            _ => None,
        }
    }
}

proof fn lemma_legendre_approx_none(e: FuncV, m: int, j: int, method: IntMethod)
    requires
        m <= j,
        legendre_approx_v(e, m, method) is None,
    ensures
        legendre_approx_v(e, j, method) is None,
    decreases j - m,
{
    if m < j {
        lemma_legendre_approx_none(e, m, j - 1, method);
    }
}

/// The projection of `f` onto the first `n` Legendre basis polynomials
/// over `[-1, 1]`: the truncated orthogonal-basis expansion, with each
/// inner product computed by the chosen quadrature rule.
pub fn compute_legendre_approx(f: &Function, n: usize, int_method: IntMethod) -> (r: Option<
    Function,
>)
    requires
        wf_v(f@),
        n <= 20,
    ensures
        ({
            match r {
                Some(v) => Some(v@) == legendre_approx_v(f@, n as int, int_method) && wf_v(v@),
                None => legendre_approx_v(f@, n as int, int_method) is None,
            }
        }),
{
    let mut p: Function = fn_const(zero());
    let mut k: usize = 0;
    while k < n
        invariant
            k <= n <= 20,
            wf_v(f@),
            wf_v(p@),
            Some(p@) == legendre_approx_v(f@, k as int, int_method),
        decreases n - k,
    {
        let lc: Vec<Rat> = match get_legendre_rodrigues(k) {
            Some(v) => v,
            None => {
                proof {
                    lemma_legendre_approx_none(f@, k as int + 1, n as int, int_method);
                }
                return None;
            },
        };
        let lf: Function = fn_poly(lc);
        let ip: Rat = match int_inner_product(
            f,
            &lf,
            (from_i64(-1), from_i64(1)),
            int_method,
        ) {
            Some(v) => v,
            None => {
                proof {
                    lemma_legendre_approx_none(f@, k as int + 1, n as int, int_method);
                }
                return None;
            },
        };
        let sc: Rat = Rat { num: 2 * (k as i128) + 1, den: 2 };
        let ak: Rat = match rat_mul(sc, ip) {
            Some(v) => v,
            None => {
                proof {
                    lemma_legendre_approx_none(f@, k as int + 1, n as int, int_method);
                }
                return None;
            },
        };
        let comp: Function = fn_mul(fn_const(ak), lf);
        p = fn_add(p, comp);
        k = k + 1;
    }
    Some(p)
}

} // verus!
