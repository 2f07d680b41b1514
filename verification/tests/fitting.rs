// The symbolic derivative against numerical differentiation, and the two
// approximation algorithms: gradient descent and Legendre projection.

use graphing::approx::{compute_gradient_descent_step, compute_legendre_approx};
use graphing::func::{
    fn_add, fn_const, fn_div, fn_mul, fn_neg, fn_pdv, fn_poly, fn_powi, fn_prod, fn_sub, fn_sum,
    fn_var, Function,
};
use graphing::integration::IntMethod;
use graphing::polynomial::Polynomial;
use graphing::rat::{from_i64, new, one, zero, Rat};
use graphing::rng::rng_from_seed;
use graphing::util::sample_interval_equidistributed;

fn f64_of(r: Rat) -> f64 {
    r.num as f64 / r.den as f64
}

fn eval_f64(f: &Function, x: Rat) -> f64 {
    f64_of(f.eval(&vec![x]).unwrap())
}

/// The central difference (f(x+h) - f(x-h)) / 2h, in floating point.
fn central_difference(f: &Function, x: Rat, h: Rat) -> f64 {
    let xp = graphing::rat::rat_add(x, h).unwrap();
    let xm = graphing::rat::rat_sub(x, h).unwrap();
    (eval_f64(f, xp) - eval_f64(f, xm)) / (2.0 * f64_of(h))
}

// The symbolic derivative matches a numerically estimated derivative, for
// each exactly evaluable variant kind, at a spread of sample points.
#[test]
fn pdv_matches_central_difference() {
    let cases: Vec<Function> = vec![
        // Var, Const, Add
        fn_add(fn_var(0), fn_const(from_i64(4))),
        // Poly
        fn_poly(vec![from_i64(1), from_i64(2), from_i64(3)]),
        // Div (pole at -3, away from the sample points)
        fn_div(fn_const(one()), fn_add(fn_var(0), fn_const(from_i64(3)))),
        // Mul, Sub
        fn_mul(fn_var(0), fn_sub(fn_var(0), fn_const(one()))),
        // Neg, PowI
        fn_neg(fn_powi(fn_var(0), 3)),
        // Sum
        fn_sum(vec![fn_var(0), fn_powi(fn_var(0), 2), fn_const(from_i64(2))]),
        // Prod
        fn_prod(vec![fn_var(0), fn_add(fn_var(0), fn_const(one()))]),
        // PolyF: x^0 * 1 + x^1 * (x + 1)
        Function::PolyF(vec![fn_const(one()), fn_add(fn_var(0), fn_const(one()))], 0),
    ];
    let h = new(1, 1024).unwrap();
    let points = [new(-1, 2).unwrap(), new(1, 4).unwrap(), from_i64(2)];
    for f in cases.iter() {
        let d = fn_pdv(f, 0);
        for &x in points.iter() {
            let exact = eval_f64(&d, x);
            let estimated = central_difference(f, x, h);
            assert!(
                (exact - estimated).abs() < 1e-3,
                "derivative mismatch: {} vs {} for {:?} at {:?}",
                exact,
                estimated,
                f,
                x
            );
        }
    }
}

#[test]
fn random_polynomial_shape() {
    let mut rng = rng_from_seed(7);
    let p = Polynomial::new_random_with_degree(3, &mut rng);
    assert_eq!(p.coefficients.len(), 4);
    assert_eq!(p.degree(), 3);
    for c in p.coefficients.iter() {
        let v = f64_of(*c);
        assert!((-1.0..=1.0).contains(&v));
    }
}

fn quantize(c: Rat) -> Rat {
    let v = f64_of(c);
    let r = (v * 1_000_000.0).round() as i64;
    new(r, 1_000_000).unwrap()
}

fn mse(coeffs: &Vec<Rat>, xs: &Vec<Rat>) -> f64 {
    let mut total = 0.0;
    for &x in xs.iter() {
        let px = f64_of(graphing::polynomial::poly_eval(coeffs, x).unwrap());
        let fx = f64_of(x);
        total += (px - fx) * (px - fx);
    }
    total / xs.len() as f64
}

// Repeated gradient-descent steps with a decreasing step size reduce the
// sampled mean-squared error; over the last ten steps it no longer rises
// beyond noise.
#[test]
fn gradient_descent_reduces_error() {
    let f = fn_poly(vec![zero(), one()]);  // target f(x) = x
    let interval = (from_i64(-1), from_i64(1));
    let mut rng = rng_from_seed(42);
    let start = Polynomial::new_random_with_degree(3, &mut rng);
    let mut coeffs: Vec<Rat> = start.coefficients.clone();

    let eval_xs = sample_interval_equidistributed(interval, 20).unwrap();
    let mut errors: Vec<f64> = vec![mse(&coeffs, &eval_xs)];

    for k in 0..100u64 {
        let step = new(1, 2 + k as i64).unwrap();
        let next = compute_gradient_descent_step(&f, &coeffs, interval, 50, step, &mut rng)
            .unwrap();
        coeffs = next.into_iter().map(quantize).collect();
        errors.push(mse(&coeffs, &eval_xs));
    }

    let first = errors[0];
    let last = *errors.last().unwrap();
    assert!(last < first, "error did not fall: {} -> {}", first, last);
    for w in errors[90..].windows(2) {
        assert!(w[1] <= w[0] + 1e-3, "error rose late in the run: {} -> {}", w[0], w[1]);
    }
}

// The Legendre projection of f(x) = x reproduces it closely on [-1, 1].
#[test]
fn legendre_approx_of_identity() {
    let f = fn_poly(vec![zero(), one()]);
    let p = compute_legendre_approx(&f, 3, IntMethod::CompositeTrapezoidal(200)).unwrap();
    let xs = sample_interval_equidistributed((from_i64(-1), from_i64(1)), 10).unwrap();
    for x in xs {
        let approx = eval_f64(&p, x);
        let target = f64_of(x);
        assert!((approx - target).abs() < 1e-2, "{} vs {}", approx, target);
    }
}
