//! Points, interval sampling, and small integer helpers.

use vstd::prelude::*;
use crate::rat::{
    Rat, rat_zero, add_spec, sub_spec, mul_spec, div_spec, rat_add, rat_sub, rat_mul, rat_div,
    from_i64, zero,
};
use crate::rng::rng_next;

verus! {

/// A point of the plane, with exact coordinates.
#[derive(Debug, Clone, Copy, PartialEq, Eq, Structural)]
pub struct Point {
    pub x: Rat,
    pub y: Rat,
}

impl Point {
    /// The point `(x, y)`.
    pub fn new(x: Rat, y: Rat) -> (r: Point)
        ensures
            r.x == x,
            r.y == y,
    {
        Point { x, y }
    }

    /// The origin `(0, 0)`.
    pub fn origin() -> (r: Point)
        ensures
            r.x == rat_zero(),
            r.y == rat_zero(),
    {
        Point { x: zero(), y: zero() }
    }
}

// ------------------------------------------------------------------------
// Equidistributed sampling.

/// The first `m` abscissas `a + delta * i`.
pub open spec fn equi_pre_v(a: Rat, delta: Rat, m: int) -> Option<Seq<Rat>>
    decreases m,
{
    if m <= 0 {
        Some(Seq::empty())
    } else {
        match equi_pre_v(a, delta, m - 1) {
            Some(p) => match mul_spec(delta, Rat { num: (m - 1) as i128, den: 1 }) {
                Some(dx) => match add_spec(a, dx) {
                    Some(x) => Some(p.push(x)),
                    None => None,
                },
                None => None,
            },
            None => None,
        }
    }
}

/// `steps + 1` abscissas `a + i * (b - a) / steps`, `i = 0 .. steps`.
pub open spec fn equi_v(a: Rat, b: Rat, steps: int) -> Option<Seq<Rat>>
    recommends
        steps >= 1,
{
    match sub_spec(b, a) {
        Some(w) => match div_spec(w, Rat { num: steps as i128, den: 1 }) {
            Some(delta) => equi_pre_v(a, delta, steps + 1),
            None => None,
        },
        None => None,
    }
}

proof fn lemma_equi_pre_none(a: Rat, delta: Rat, m: int, j: int)
    requires
        m <= j,
        equi_pre_v(a, delta, m) is None,
    ensures
        equi_pre_v(a, delta, j) is None,
    decreases j - m,
{
    if m < j {
        lemma_equi_pre_none(a, delta, m, j - 1);
    }
}

/// `steps + 1` equidistributed sample abscissas over `interval`.
pub fn sample_interval_equidistributed(interval: (Rat, Rat), steps: usize) -> (r: Option<
    Vec<Rat>,
>)
    requires
        interval.0.wf(),
        interval.1.wf(),
        1 <= steps <= 0x7fff_ffff,
    ensures
        ({
            match r {
                Some(v) => Some(v@) == equi_v(interval.0, interval.1, steps as int) && v@.len()
                    == steps + 1 && crate::polynomial::coeffs_wf(v@),
                None => equi_v(interval.0, interval.1, steps as int) is None,
            }
        }),
{
    let (a, b) = interval;
    let w: Rat = match rat_sub(b, a) {
        Some(v) => v,
        None => {
            return None;
        },
    };
    let delta: Rat = match rat_div(w, from_i64(steps as i64)) {
        Some(v) => v,
        None => {
            return None;
        },
    };
    let mut out: Vec<Rat> = Vec::new();
    let mut i: usize = 0;
    while i <= steps
        invariant
            i <= steps + 1,
            steps <= 0x7fff_ffff,
            a == interval.0,
            b == interval.1,
            a.wf(),
            delta.wf(),
            out@.len() == i,
            crate::polynomial::coeffs_wf(out@),
            Some(out@) == equi_pre_v(a, delta, i as int),
            equi_v(a, b, steps as int) == equi_pre_v(a, delta, steps as int + 1),
        decreases steps + 1 - i,
    {
        let dx: Rat = match rat_mul(delta, from_i64(i as i64)) {
            Some(v) => v,
            None => {
                proof {
                    lemma_equi_pre_none(a, delta, i as int + 1, steps as int + 1);
                }
                return None;
            },
        };
        let x: Rat = match rat_add(a, dx) {
            Some(v) => v,
            None => {
                proof {
                    lemma_equi_pre_none(a, delta, i as int + 1, steps as int + 1);
                }
                return None;
            },
        };
        out.push(x);
        i = i + 1;
    }
    Some(out)
}

// ------------------------------------------------------------------------
// Random sampling.

/// The resolution of the random grid: a drawn value selects one of this
/// many equidistant offsets within the interval.
pub const SAMPLE_GRID: u64 = 1000;

/// Every element is the grid point of some drawn value.
pub open spec fn rand_points_ok(s: Seq<Rat>, a: Rat, b: Rat) -> bool {
    forall|i: int|
        0 <= i < s.len() ==> exists|u: u64| Some(#[trigger] s[i]) == rand_point_v(a, b, u)
}

/// The point `a + (b - a) * (u mod SAMPLE_GRID) / SAMPLE_GRID` selected by
/// a drawn value `u`.
pub open spec fn rand_point_v(a: Rat, b: Rat, u: u64) -> Option<Rat> {
    let frac = Rat { num: (u % SAMPLE_GRID) as i128, den: SAMPLE_GRID as i128 };
    match sub_spec(b, a) {
        Some(w) => match mul_spec(w, frac) {
            Some(d) => add_spec(a, d),
            None => None,
        },
        None => None,
    }
}

/// `steps` sample abscissas drawn from the generator, each a grid point of
/// `interval`.  Whatever the generator yields, every returned point is
/// `rand_point_v` of some drawn value.
pub fn sample_interval_random(
    interval: (Rat, Rat),
    steps: usize,
    rng: &mut rand::rngs::StdRng,
) -> (r: Option<Vec<Rat>>)
    requires
        interval.0.wf(),
        interval.1.wf(),
    ensures
        ({
            match r {
                Some(v) => v@.len() == steps && crate::polynomial::coeffs_wf(v@) && rand_points_ok(
                    v@,
                    interval.0,
                    interval.1,
                ),
                None => exists|u: u64| rand_point_v(interval.0, interval.1, u) is None,
            }
        }),
{
    let (a, b) = interval;
    let mut out: Vec<Rat> = Vec::new();
    let mut i: usize = 0;
    while i < steps
        invariant
            i <= steps,
            a == interval.0,
            b == interval.1,
            a.wf(),
            b.wf(),
            out@.len() == i,
            crate::polynomial::coeffs_wf(out@),
            rand_points_ok(out@, a, b),
        decreases steps - i,
    {
        let u: u64 = rng_next(rng);
        let frac: Rat = Rat { num: (u % SAMPLE_GRID) as i128, den: SAMPLE_GRID as i128 };
        proof {
            assert(frac.wf());
        }
        let w: Rat = match rat_sub(b, a) {
            Some(v) => v,
            None => {
                proof {
                    assert(rand_point_v(a, b, u) is None);
                }
                return None;
            },
        };
        let d: Rat = match rat_mul(w, frac) {
            Some(v) => v,
            None => {
                proof {
                    assert(rand_point_v(a, b, u) is None);
                }
                return None;
            },
        };
        let x: Rat = match rat_add(a, d) {
            Some(v) => v,
            None => {
                proof {
                    assert(rand_point_v(a, b, u) is None);
                }
                return None;
            },
        };
        let ghost old_out = out@;
        out.push(x);
        proof {
            assert(Some(out@[i as int]) == rand_point_v(a, b, u));
            assert forall|k: int| 0 <= k < out@.len() implies exists|w: u64|
                Some(#[trigger] out@[k]) == rand_point_v(a, b, w) by {
                if k < i {
                    assert(out@[k] == old_out[k]);
                    let w = choose|w: u64| Some(old_out[k]) == rand_point_v(a, b, w);
                    assert(Some(out@[k]) == rand_point_v(a, b, w));
                } else {
                    assert(Some(out@[k]) == rand_point_v(a, b, u));
                }
            }
        }
        i = i + 1;
    }
    Some(out)
}

// ------------------------------------------------------------------------
// Integer helpers.

pub open spec fn fact_spec(n: nat) -> nat
    decreases n,
{
    if n == 0 {
        1
    } else {
        n * fact_spec((n - 1) as nat)
    }
}

/// `20!`, step by step.
proof fn lemma_fact_20()
    ensures
        fact_spec(20) == 2432902008176640000,
{
    assert(fact_spec(0) == 1);
    assert(fact_spec(1) == 1);
    assert(fact_spec(2) == 2);
    assert(fact_spec(3) == 6);
    assert(fact_spec(4) == 24);
    assert(fact_spec(5) == 120);
    assert(fact_spec(6) == 720);
    assert(fact_spec(7) == 5040);
    assert(fact_spec(8) == 40320);
    assert(fact_spec(9) == 362880);
    assert(fact_spec(10) == 3628800);
    assert(fact_spec(11) == 39916800);
    assert(fact_spec(12) == 479001600);
    assert(fact_spec(13) == 6227020800);
    assert(fact_spec(14) == 87178291200);
    assert(fact_spec(15) == 1307674368000);
    assert(fact_spec(16) == 20922789888000);
    assert(fact_spec(17) == 355687428096000);
    assert(fact_spec(18) == 6402373705728000);
    assert(fact_spec(19) == 121645100408832000);
    assert(fact_spec(20) == 2432902008176640000);
}

/// A factorial within the supported range fits comfortably in `i64`.
pub proof fn lemma_fact_le_20(n: nat)
    requires
        n <= 20,
    ensures
        fact_spec(n) <= 2432902008176640000,
{
    lemma_fact_mono(n, 20);
    lemma_fact_20();
}

/// `n!`.  The bound keeps the product inside `u64`: `21!` does not fit.
pub fn factorial(n: u32) -> (r: u64)
    requires
        n <= 20,
    ensures
        r == fact_spec(n as nat),
{
    let mut acc: u64 = 1;
    let mut k: u32 = 0;
    while k < n
        invariant
            k <= n <= 20,
            acc == fact_spec(k as nat),
        decreases n - k,
    {
        proof {
            lemma_fact_20();
            lemma_fact_mono((k + 1) as nat, n as nat);
            lemma_fact_mono(n as nat, 20);
            assert(fact_spec((k + 1) as nat) == (k + 1) * fact_spec(k as nat));
            assert(acc * ((k + 1) as u64) == fact_spec((k + 1) as nat)) by (nonlinear_arith)
                requires
                    acc == fact_spec(k as nat),
                    fact_spec((k + 1) as nat) == (k + 1) * fact_spec(k as nat),
            {}
        }
        k = k + 1;
        acc = acc * (k as u64);
    }
    acc
}

/// The factorial grows with its argument.
proof fn lemma_fact_mono(i: nat, j: nat)
    requires
        i <= j,
    ensures
        fact_spec(i) <= fact_spec(j),
    decreases j,
{
    if i < j {
        lemma_fact_mono(i, (j - 1) as nat);
        assert(fact_spec(j) == j * fact_spec((j - 1) as nat));
        assert(fact_spec((j - 1) as nat) <= j * fact_spec((j - 1) as nat))
            by (nonlinear_arith)
            requires
                j >= 1,
                fact_spec((j - 1) as nat) >= 0,
        {}
    }
}

} // verus!
