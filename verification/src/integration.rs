//! Deterministic quadrature over a bounded interval.
//!
//! Three rules are offered: midpoint, trapezoidal, and composite
//! trapezoidal (the last is equivalent to the trapezoidal rule but
//! evaluates the integrand once per node).  A subdivision count of zero is
//! invalid input and is rejected at the boundary by `integrate`.

use vstd::prelude::*;
use crate::rat::{
    Rat, rat_zero, add_spec, sub_spec, mul_spec, div_spec, rat_add, rat_sub, rat_mul, rat_div,
    from_i64, zero,
};
use crate::func::{Function, FuncV, eval_v, wf_v, fn_mul_v, fn_mul};

verus! {

/// A quadrature rule and its subdivision count.
#[derive(Debug, Clone, Copy, PartialEq, Eq, Structural)]
pub enum IntMethod {
    Midpoint(usize),
    Trapezoidal(usize),
    CompositeTrapezoidal(usize),
}

pub open spec fn two_v() -> Rat {
    Rat { num: 2, den: 1 }
}

// ------------------------------------------------------------------------
// Midpoint rule.

/// The sum of the first `m` midpoint terms `f(x0 + delta * i) * delta`.
pub open spec fn mid_pre_v(e: FuncV, x0: Rat, delta: Rat, m: int) -> Option<Rat>
    decreases m,
{
    if m <= 0 {
        Some(rat_zero())
    } else {
        match mid_pre_v(e, x0, delta, m - 1) {
            Some(acc) => match mul_spec(delta, Rat { num: (m - 1) as i128, den: 1 }) {
                Some(dx) => match add_spec(x0, dx) {
                    Some(x) => match eval_v(e, seq![x]) {
                        Some(y) => match mul_spec(y, delta) {
                            Some(t) => add_spec(acc, t),
                            None => None,
                        },
                        None => None,
                    },
                    None => None,
                },
                None => None,
            },
            None => None,
        }
    }
}

/// The midpoint rule: `sum_{i<n} f(a + (i + 1/2) * delta) * delta` with
/// `delta = (b - a) / n`.
pub open spec fn mid_v(e: FuncV, a: Rat, b: Rat, n: int) -> Option<Rat>
    recommends
        n >= 1,
{
    match sub_spec(b, a) {
        Some(w) => match div_spec(w, Rat { num: n as i128, den: 1 }) {
            Some(delta) => match div_spec(delta, two_v()) {
                Some(h) => match add_spec(a, h) {
                    Some(x0) => mid_pre_v(e, x0, delta, n),
                    None => None,
                },
                None => None,
            },
            None => None,
        },
        None => None,
    }
}

proof fn lemma_mid_pre_none(e: FuncV, x0: Rat, delta: Rat, m: int, j: int)
    requires
        m <= j,
        mid_pre_v(e, x0, delta, m) is None,
    ensures
        mid_pre_v(e, x0, delta, j) is None,
    decreases j - m,
{
    if m < j {
        lemma_mid_pre_none(e, x0, delta, m, j - 1);
    }
}

/// The integral of `f` over `[a, b]` by the midpoint rule with `n`
/// subintervals.
pub fn int_midpoint(f: &Function, interval: (Rat, Rat), n: usize) -> (r: Option<Rat>)
    requires
        wf_v(f@),
        interval.0.wf(),
        interval.1.wf(),
        1 <= n <= 0x7fff_ffff,
    ensures
        r == mid_v(f@, interval.0, interval.1, n as int),
        r matches Some(v) ==> v.wf(),
{
    let (a, b) = interval;
    let w: Rat = match rat_sub(b, a) {
        Some(v) => v,
        None => {
            return None;
        },
    };
    let delta: Rat = match rat_div(w, from_i64(n as i64)) {
        Some(v) => v,
        None => {
            return None;
        },
    };
    let h: Rat = match rat_div(delta, from_i64(2)) {
        Some(v) => v,
        None => {
            return None;
        },
    };
    let x0: Rat = match rat_add(a, h) {
        Some(v) => v,
        None => {
            return None;
        },
    };
    let mut sum: Rat = zero();
    let mut i: usize = 0;
    while i < n
        invariant
            i <= n <= 0x7fff_ffff,
            wf_v(f@),
            a == interval.0,
            b == interval.1,
            x0.wf(),
            delta.wf(),
            sum.wf(),
            Some(sum) == mid_pre_v(f@, x0, delta, i as int),
            mid_v(f@, a, b, n as int) == mid_pre_v(f@, x0, delta, n as int),
        decreases n - i,
    {
        let dx: Rat = match rat_mul(delta, from_i64(i as i64)) {
            Some(v) => v,
            None => {
                proof {
                    lemma_mid_pre_none(f@, x0, delta, i as int + 1, n as int);
                }
                return None;
            },
        };
        let x: Rat = match rat_add(x0, dx) {
            Some(v) => v,
            None => {
                proof {
                    lemma_mid_pre_none(f@, x0, delta, i as int + 1, n as int);
                }
                return None;
            },
        };
        let mut argv: Vec<Rat> = Vec::new();
        argv.push(x);
        proof {
            assert(argv@ =~= seq![x]);
        }
        let y: Rat = match f.eval(&argv) {
            Some(v) => v,
            None => {
                proof {
                    lemma_mid_pre_none(f@, x0, delta, i as int + 1, n as int);
                }
                return None;
            },
        };
        let t: Rat = match rat_mul(y, delta) {
            Some(v) => v,
            None => {
                proof {
                    lemma_mid_pre_none(f@, x0, delta, i as int + 1, n as int);
                }
                return None;
            },
        };
        let s2: Rat = match rat_add(sum, t) {
            Some(v) => v,
            None => {
                proof {
                    lemma_mid_pre_none(f@, x0, delta, i as int + 1, n as int);
                }
                return None;
            },
        };
        sum = s2;
        i = i + 1;
    }
    Some(sum)
}

// ------------------------------------------------------------------------
// Trapezoidal rule.

/// The sum of the first `m` trapezoid areas
/// `(f(a + delta * i) + f(a + delta * (i + 1))) * delta / 2`.
pub open spec fn trap_pre_v(e: FuncV, a: Rat, delta: Rat, m: int) -> Option<Rat>
    decreases m,
{
    if m <= 0 {
        Some(rat_zero())
    } else {
        match trap_pre_v(e, a, delta, m - 1) {
            Some(acc) => match trap_node_v(e, a, delta, m - 1) {
                Some(y0) => match trap_node_v(e, a, delta, m) {
                    Some(y1) => match add_spec(y0, y1) {
                        Some(s) => match mul_spec(s, delta) {
                            Some(t) => match div_spec(t, two_v()) {
                                Some(t2) => add_spec(acc, t2),
                                None => None,
                            },
                            None => None,
                        },
                        None => None,
                    },
                    None => None,
                },
                None => None,
            },
            None => None,
        }
    }
}

/// `f(a + delta * i)`.
pub open spec fn trap_node_v(e: FuncV, a: Rat, delta: Rat, i: int) -> Option<Rat> {
    match mul_spec(delta, Rat { num: i as i128, den: 1 }) {
        Some(dx) => match add_spec(a, dx) {
            Some(x) => eval_v(e, seq![x]),
            None => None,
        },
        None => None,
    }
}

/// The trapezoidal rule with `n` subintervals and `delta = (b - a) / n`.
pub open spec fn trap_v(e: FuncV, a: Rat, b: Rat, n: int) -> Option<Rat>
    recommends
        n >= 1,
{
    match sub_spec(b, a) {
        Some(w) => match div_spec(w, Rat { num: n as i128, den: 1 }) {
            Some(delta) => trap_pre_v(e, a, delta, n),
            None => None,
        },
        None => None,
    }
}

proof fn lemma_trap_pre_none(e: FuncV, a: Rat, delta: Rat, m: int, j: int)
    requires
        m <= j,
        trap_pre_v(e, a, delta, m) is None,
    ensures
        trap_pre_v(e, a, delta, j) is None,
    decreases j - m,
{
    if m < j {
        lemma_trap_pre_none(e, a, delta, m, j - 1);
    }
}

/// A sample of the integrand at node `i`, as executable code.
fn trap_node(f: &Function, a: Rat, delta: Rat, i: usize) -> (r: Option<Rat>)
    requires
        wf_v(f@),
        a.wf(),
        delta.wf(),
        i <= 0x7fff_ffff,
    ensures
        r == trap_node_v(f@, a, delta, i as int),
        r matches Some(v) ==> v.wf(),
{
    let dx: Rat = match rat_mul(delta, from_i64(i as i64)) {
        Some(v) => v,
        None => {
            return None;
        },
    };
    let x: Rat = match rat_add(a, dx) {
        Some(v) => v,
        None => {
            return None;
        },
    };
    let mut argv: Vec<Rat> = Vec::new();
    argv.push(x);
    proof {
        assert(argv@ =~= seq![x]);
    }
    f.eval(&argv)
}

/// The integral of `f` over `[a, b]` by the trapezoidal rule with `n`
/// subintervals; the integrand is evaluated at both ends of every
/// subinterval.
pub fn int_trapezoidal(f: &Function, interval: (Rat, Rat), n: usize) -> (r: Option<Rat>)
    requires
        wf_v(f@),
        interval.0.wf(),
        interval.1.wf(),
        1 <= n <= 0x7fff_ffff,
    ensures
        r == trap_v(f@, interval.0, interval.1, n as int),
        r matches Some(v) ==> v.wf(),
{
    let (a, b) = interval;
    let w: Rat = match rat_sub(b, a) {
        Some(v) => v,
        None => {
            return None;
        },
    };
    let delta: Rat = match rat_div(w, from_i64(n as i64)) {
        Some(v) => v,
        None => {
            return None;
        },
    };
    let mut sum: Rat = zero();
    let mut i: usize = 0;
    while i < n
        invariant
            i <= n <= 0x7fff_ffff,
            wf_v(f@),
            a == interval.0,
            b == interval.1,
            a.wf(),
            delta.wf(),
            sum.wf(),
            Some(sum) == trap_pre_v(f@, a, delta, i as int),
            trap_v(f@, a, b, n as int) == trap_pre_v(f@, a, delta, n as int),
        decreases n - i,
    {
        let y0: Rat = match trap_node(f, a, delta, i) {
            Some(v) => v,
            None => {
                proof {
                    lemma_trap_pre_none(f@, a, delta, i as int + 1, n as int);
                }
                return None;
            },
        };
        let y1: Rat = match trap_node(f, a, delta, i + 1) {
            Some(v) => v,
            None => {
                proof {
                    lemma_trap_pre_none(f@, a, delta, i as int + 1, n as int);
                }
                return None;
            },
        };
        let s: Rat = match rat_add(y0, y1) {
            Some(v) => v,
            None => {
                proof {
                    lemma_trap_pre_none(f@, a, delta, i as int + 1, n as int);
                }
                return None;
            },
        };
        let t: Rat = match rat_mul(s, delta) {
            Some(v) => v,
            None => {
                proof {
                    lemma_trap_pre_none(f@, a, delta, i as int + 1, n as int);
                }
                return None;
            },
        };
        let t2: Rat = match rat_div(t, from_i64(2)) {
            Some(v) => v,
            None => {
                proof {
                    lemma_trap_pre_none(f@, a, delta, i as int + 1, n as int);
                }
                return None;
            },
        };
        let s2: Rat = match rat_add(sum, t2) {
            Some(v) => v,
            None => {
                proof {
                    lemma_trap_pre_none(f@, a, delta, i as int + 1, n as int);
                }
                return None;
            },
        };
        sum = s2;
        i = i + 1;
    }
    Some(sum)
}

// ------------------------------------------------------------------------
// Composite trapezoidal rule.

/// The sum of the first `m` composite-trapezoidal contributions: node `i`
/// contributes `f(a + delta * i) * delta`, halved at the two endpoints
/// `i = 0` and `i = n`.
pub open spec fn comp_pre_v(e: FuncV, a: Rat, delta: Rat, n: int, m: int) -> Option<Rat>
    decreases m,
{
    if m <= 0 {
        Some(rat_zero())
    } else {
        match comp_pre_v(e, a, delta, n, m - 1) {
            Some(acc) => match trap_node_v(e, a, delta, m - 1) {
                Some(y) => {
                    let c = if m - 1 == 0 || m - 1 == n {
                        div_spec(y, two_v())
                    } else {
                        Some(y)
                    };
                    match c {
                        Some(cv) => match mul_spec(cv, delta) {
                            Some(t) => add_spec(acc, t),
                            None => None,
                        },
                        None => None,
                    }
                },
                None => None,
            },
            None => None,
        }
    }
}

/// The composite trapezoidal rule: one evaluation per node, endpoint
/// samples halved.
pub open spec fn comp_v(e: FuncV, a: Rat, b: Rat, n: int) -> Option<Rat>
    recommends
        n >= 1,
{
    match sub_spec(b, a) {
        Some(w) => match div_spec(w, Rat { num: n as i128, den: 1 }) {
            Some(delta) => comp_pre_v(e, a, delta, n, n + 1),
            None => None,
        },
        None => None,
    }
}

proof fn lemma_comp_pre_none(e: FuncV, a: Rat, delta: Rat, n: int, m: int, j: int)
    requires
        m <= j,
        comp_pre_v(e, a, delta, n, m) is None,
    ensures
        comp_pre_v(e, a, delta, n, j) is None,
    decreases j - m,
{
    if m < j {
        lemma_comp_pre_none(e, a, delta, n, m, j - 1);
    }
}

/// The integral of `f` over `[a, b]` by the composite trapezoidal rule
/// with `n` subintervals: equivalent to the trapezoidal rule, with one
/// evaluation per node instead of two.
pub fn int_composite_trapezoidal(f: &Function, interval: (Rat, Rat), n: usize) -> (r: Option<
    Rat,
>)
    requires
        wf_v(f@),
        interval.0.wf(),
        interval.1.wf(),
        1 <= n <= 0x7fff_ffff,
    ensures
        r == comp_v(f@, interval.0, interval.1, n as int),
        r matches Some(v) ==> v.wf(),
{
    let (a, b) = interval;
    let w: Rat = match rat_sub(b, a) {
        Some(v) => v,
        None => {
            return None;
        },
    };
    let delta: Rat = match rat_div(w, from_i64(n as i64)) {
        Some(v) => v,
        None => {
            return None;
        },
    };
    let mut sum: Rat = zero();
    let mut i: usize = 0;
    while i <= n
        invariant
            i <= n + 1,
            n <= 0x7fff_ffff,
            wf_v(f@),
            a == interval.0,
            b == interval.1,
            a.wf(),
            delta.wf(),
            sum.wf(),
            Some(sum) == comp_pre_v(f@, a, delta, n as int, i as int),
            comp_v(f@, a, b, n as int) == comp_pre_v(f@, a, delta, n as int, n as int + 1),
        decreases n + 1 - i,
    {
        let y: Rat = match trap_node(f, a, delta, i) {
            Some(v) => v,
            None => {
                proof {
                    lemma_comp_pre_none(f@, a, delta, n as int, i as int + 1, n as int + 1);
                }
                return None;
            },
        };
        let c: Rat = if i == 0 || i == n {
            match rat_div(y, from_i64(2)) {
                Some(v) => v,
                None => {
                    proof {
                        lemma_comp_pre_none(f@, a, delta, n as int, i as int + 1, n as int + 1);
                    }
                    return None;
                },
            }
        } else {
            y
        };
        let t: Rat = match rat_mul(c, delta) {
            Some(v) => v,
            None => {
                proof {
                    lemma_comp_pre_none(f@, a, delta, n as int, i as int + 1, n as int + 1);
                }
                return None;
            },
        };
        let s2: Rat = match rat_add(sum, t) {
            Some(v) => v,
            None => {
                proof {
                    lemma_comp_pre_none(f@, a, delta, n as int, i as int + 1, n as int + 1);
                }
                return None;
            },
        };
        sum = s2;
        i = i + 1;
    }
    Some(sum)
}

// ------------------------------------------------------------------------
// Method dispatch and inner products.

/// The selected quadrature rule.  A subdivision count of zero, or one too
/// large for the machine, is rejected as `None` before any computation.
pub open spec fn integrate_v(e: FuncV, a: Rat, b: Rat, method: IntMethod) -> Option<Rat> {
    match method {
        IntMethod::Midpoint(n) => if 1 <= n <= 0x7fff_ffff {
            mid_v(e, a, b, n as int)
        } else {
            None
        },
        IntMethod::Trapezoidal(n) => if 1 <= n <= 0x7fff_ffff {
            trap_v(e, a, b, n as int)
        } else {
            None
        },
        IntMethod::CompositeTrapezoidal(n) => if 1 <= n <= 0x7fff_ffff {
            comp_v(e, a, b, n as int)
        } else {
            None
        },
    }
}

/// The integral of `f` over `interval` by the chosen method.
pub fn integrate(f: &Function, interval: (Rat, Rat), method: IntMethod) -> (r: Option<Rat>)
    requires
        wf_v(f@),
        interval.0.wf(),
        interval.1.wf(),
    ensures
        r == integrate_v(f@, interval.0, interval.1, method),
        r matches Some(v) ==> v.wf(),
{
    match method {
        IntMethod::Midpoint(n) => {
            if 1 <= n && n <= 0x7fff_ffff {
                int_midpoint(f, interval, n)
            } else {
                None
            }
        },
        IntMethod::Trapezoidal(n) => {
            if 1 <= n && n <= 0x7fff_ffff {
                int_trapezoidal(f, interval, n)
            } else {
                None
            }
        },
        IntMethod::CompositeTrapezoidal(n) => {
            if 1 <= n && n <= 0x7fff_ffff {
                int_composite_trapezoidal(f, interval, n)
            } else {
                None
            }
        },
    }
}

/// The function-space inner product `<f, g>`: the integral of `f * g`
/// over `interval` by the chosen method.
pub fn int_inner_product(
    f: &Function,
    g: &Function,
    interval: (Rat, Rat),
    method: IntMethod,
) -> (r: Option<Rat>)
    requires
        wf_v(f@),
        wf_v(g@),
        interval.0.wf(),
        interval.1.wf(),
    ensures
        r == integrate_v(fn_mul_v(f@, g@), interval.0, interval.1, method),
        r matches Some(v) ==> v.wf(),
{
    let h = fn_mul(f.deep_copy(), g.deep_copy());
    integrate(&h, interval, method)
}

} // verus!
