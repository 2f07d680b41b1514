// Exact arithmetic, simplification, differentiation closed forms,
// convolution, quadrature convergence, orthogonality, and the
// polynomial/expression round trip.

use graphing::func::{
    fn_add, fn_const, fn_cos, fn_div, fn_exp, fn_mul, fn_poly, fn_powi, fn_sin, fn_sub, fn_var,
    Function,
};
use graphing::integration::{int_composite_trapezoidal, int_inner_product, integrate, IntMethod};
use graphing::polynomial::{
    get_legendre_rodrigues, poly_derivative, poly_eval, poly_mul, poly_scale, poly_trim,
    Polynomial,
};
use graphing::rat::{from_i64, new, one, rat_add, rat_mul, zero, Rat};
use graphing::util::{factorial, sample_interval_equidistributed, Point};

fn f64_of(r: Rat) -> f64 {
    r.num as f64 / r.den as f64
}

#[test]
fn rat_reduces_to_lowest_terms() {
    assert_eq!(new(2, 4), new(1, 2));
    assert_eq!(new(-6, -4), new(3, 2));
    assert_eq!(new(3, -6), new(-1, 2));
    assert_eq!(new(5, 0), None);
    let half = new(1, 2).unwrap();
    let third = new(1, 3).unwrap();
    let sum = rat_add(half, third).unwrap();
    assert_eq!(Some(sum), new(5, 6));
}

#[test]
fn rat_reports_values_that_do_not_fit() {
    let big = from_i64(i64::MAX);
    let sq = rat_mul(big, big).unwrap();
    assert_eq!(rat_mul(sq, sq), None);
}

// Known closed forms of the symbolic derivative.
#[test]
fn pdv_closed_forms() {
    let d_sin = graphing::func::fn_pdv(&fn_sin(fn_var(0)), 0);
    assert_eq!(d_sin, fn_cos(fn_var(0)));

    let d_exp = graphing::func::fn_pdv(&fn_exp(fn_var(0)), 0);
    assert_eq!(d_exp, fn_exp(fn_var(0)));

    let d_cube = graphing::func::fn_pdv(&fn_powi(fn_var(0), 3), 0);
    let expected = fn_mul(fn_const(from_i64(3)), fn_powi(fn_var(0), 2));
    assert_eq!(d_cube, expected);
    // 3 * x^2 at x = 2 is 12, exactly.
    assert_eq!(d_cube.eval(&vec![from_i64(2)]), Some(from_i64(12)));
}

// Simplifying constructors are confluent on constants: no residual nodes.
#[test]
fn constructors_fold_constants() {
    let r = fn_add(fn_const(from_i64(2)), fn_const(from_i64(3)));
    assert_eq!(r, fn_const(from_i64(5)));
    assert!(matches!(r, Function::Const(_)));

    let m = fn_mul(fn_const(from_i64(2)), fn_const(from_i64(3)));
    assert_eq!(m, fn_const(from_i64(6)));
    let q = fn_div(fn_const(from_i64(1)), fn_const(from_i64(4)));
    assert_eq!(q, fn_const(new(1, 4).unwrap()));
    let s = fn_sub(fn_const(from_i64(2)), fn_const(from_i64(3)));
    assert_eq!(s, fn_const(from_i64(-1)));
    let p = fn_powi(fn_const(from_i64(3)), 4);
    assert_eq!(p, fn_const(from_i64(81)));
}

#[test]
fn constructor_identities() {
    let x = fn_var(0);
    assert_eq!(fn_add(fn_const(zero()), fn_var(0)), x);
    assert_eq!(fn_add(fn_var(0), fn_const(zero())), fn_var(0));
    assert_eq!(fn_mul(fn_const(zero()), fn_var(0)), fn_const(zero()));
    assert_eq!(fn_mul(fn_var(0), fn_const(one())), fn_var(0));
    assert_eq!(fn_div(fn_var(0), fn_const(one())), fn_var(0));
    assert_eq!(fn_sub(fn_const(zero()), fn_var(0)), graphing::func::fn_neg(fn_var(0)));
    assert_eq!(fn_powi(fn_var(0), 0), fn_const(one()));
    assert_eq!(fn_powi(fn_var(0), 1), fn_var(0));
}

// Polynomial multiply is discrete convolution.
#[test]
fn multiply_is_convolution() {
    let a = vec![from_i64(1), from_i64(2)];
    let b = vec![from_i64(3), from_i64(4)];
    let c = poly_mul(&a, &b).unwrap();
    assert_eq!(c, vec![from_i64(3), from_i64(10), from_i64(8)]);
}

#[test]
fn polynomial_core_operations() {
    let p = vec![from_i64(1), from_i64(2), from_i64(3)];
    // 1 + 2x + 3x^2 at x = 2 is 17.
    assert_eq!(poly_eval(&p, from_i64(2)), Some(from_i64(17)));
    assert_eq!(
        poly_scale(&p, from_i64(2)).unwrap(),
        vec![from_i64(2), from_i64(4), from_i64(6)]
    );
    assert_eq!(poly_derivative(&p).unwrap(), vec![from_i64(2), from_i64(6)]);
    let trimmed = poly_trim(&vec![from_i64(1), zero(), zero()]);
    assert_eq!(trimmed, vec![from_i64(1)]);
    assert_eq!(poly_trim(&vec![zero(), zero()]), vec![]);
}

#[test]
fn poly_constructor_degenerates() {
    assert_eq!(fn_poly(vec![]), fn_const(zero()));
    assert_eq!(fn_poly(vec![from_i64(7)]), fn_const(from_i64(7)));
    assert_eq!(fn_poly(vec![from_i64(7), zero()]), fn_const(from_i64(7)));
    assert!(matches!(fn_poly(vec![from_i64(7), from_i64(1), zero()]), Function::Poly(_)));
}

#[test]
fn eval_leniencies() {
    // An out-of-range variable index reads as zero.
    assert_eq!(fn_var(5).eval(&vec![from_i64(9)]), Some(zero()));
    // Division by zero has no exact value.
    let f = fn_div(fn_const(one()), fn_sub(fn_var(0), fn_var(0)));
    assert_eq!(f.eval(&vec![from_i64(3)]), None);
    // A negative power inverts: 2^-2 = 1/4.
    let g = fn_powi(fn_var(0), -2);
    assert_eq!(g.eval(&vec![from_i64(2)]), new(1, 4));
    // ... and is undefined at zero.
    assert_eq!(g.eval(&vec![zero()]), None);
}

#[test]
fn factorial_values() {
    assert_eq!(factorial(0), 1);
    assert_eq!(factorial(1), 1);
    assert_eq!(factorial(5), 120);
    assert_eq!(factorial(20), 2432902008176640000);
}

#[test]
fn point_construction() {
    let p = Point::new(from_i64(1), from_i64(2));
    assert_eq!(p.x, from_i64(1));
    assert_eq!(p.y, from_i64(2));
    let o = Point::origin();
    assert_eq!(o.x, zero());
    assert_eq!(o.y, zero());
}

#[test]
fn sample_points_are_equidistributed() {
    let f = fn_poly(vec![zero(), one()]);  // f(x) = x
    let pts = f.sample((zero(), from_i64(1)), 4).unwrap();
    assert_eq!(pts.len(), 5);
    for (i, (x, y)) in pts.iter().enumerate() {
        assert_eq!(Some(*x), new(i as i64, 4));
        assert_eq!(x, y);
    }
}

#[test]
fn integrate_rejects_zero_subdivisions() {
    let f = fn_poly(vec![zero(), one()]);
    assert_eq!(integrate(&f, (zero(), one()), IntMethod::Midpoint(0)), None);
    assert_eq!(integrate(&f, (zero(), one()), IntMethod::Trapezoidal(0)), None);
    assert_eq!(integrate(&f, (zero(), one()), IntMethod::CompositeTrapezoidal(0)), None);
}

#[test]
fn quadrature_exact_on_linear() {
    // The trapezoidal rules are exact on x: the integral over [0, 2] is 2.
    let f = fn_poly(vec![zero(), one()]);
    let t = integrate(&f, (zero(), from_i64(2)), IntMethod::Trapezoidal(7)).unwrap();
    assert_eq!(t, from_i64(2));
    let ct = integrate(&f, (zero(), from_i64(2)), IntMethod::CompositeTrapezoidal(7)).unwrap();
    assert_eq!(ct, from_i64(2));
    let m = integrate(&f, (zero(), from_i64(2)), IntMethod::Midpoint(7)).unwrap();
    assert_eq!(m, from_i64(2));
}

// Quadrature convergence on an exactly evaluable integrand: the composite
// trapezoidal error on x^2 over [0, 1] strictly decreases as n grows.
#[test]
fn quadrature_convergence() {
    let f = fn_poly(vec![zero(), zero(), one()]);
    let exact = 1.0 / 3.0;
    let mut last = f64::INFINITY;
    for n in [10usize, 100, 1000, 10000] {
        let v = int_composite_trapezoidal(&f, (zero(), one()), n).unwrap();
        let err = (f64_of(v) - exact).abs();
        assert!(err < last, "error did not shrink at n = {}", n);
        last = err;
    }
}

#[test]
fn legendre_known_coefficients() {
    // L_0 = 1, L_1 = x, L_2 = (3x^2 - 1) / 2, L_3 = (5x^3 - 3x) / 2.
    assert_eq!(get_legendre_rodrigues(0).unwrap(), vec![one()]);
    assert_eq!(get_legendre_rodrigues(1).unwrap(), vec![zero(), one()]);
    assert_eq!(
        get_legendre_rodrigues(2).unwrap(),
        vec![new(-1, 2).unwrap(), zero(), new(3, 2).unwrap()]
    );
    assert_eq!(
        get_legendre_rodrigues(3).unwrap(),
        vec![zero(), new(-3, 2).unwrap(), zero(), new(5, 2).unwrap()]
    );
}

// Legendre orthogonality under quadrature: <L_i, L_j> over [-1, 1] is near
// zero for i != j and near 2 / (2i + 1) on the diagonal.
#[test]
fn legendre_orthogonality() {
    let method = IntMethod::CompositeTrapezoidal(1000);
    let basis: Vec<Function> = (0..=5usize)
        .map(|i| fn_poly(get_legendre_rodrigues(i).unwrap()))
        .collect();
    for i in 0..=5usize {
        for j in 0..=5usize {
            let ip = int_inner_product(&basis[i], &basis[j], (from_i64(-1), from_i64(1)), method)
                .unwrap();
            let v = f64_of(ip);
            if i == j {
                let expect = 2.0 / (2.0 * i as f64 + 1.0);
                assert!((v - expect).abs() < 5e-3, "diagonal {} gave {}", i, v);
            } else {
                assert!(v.abs() < 5e-3, "off-diagonal ({}, {}) gave {}", i, j, v);
            }
        }
    }
}

// Round trip: a polynomial's expression form evaluates exactly as the
// polynomial itself, at 20 equidistributed points.
#[test]
fn polynomial_expression_round_trip() {
    let coeffs = vec![from_i64(1), from_i64(-2), new(3, 2).unwrap(), new(-1, 4).unwrap()];
    let p = Polynomial::new_with_coefficients(&coeffs);
    let f = p.to_function_of_x();
    let xs = sample_interval_equidistributed((from_i64(-2), from_i64(2)), 19).unwrap();
    assert_eq!(xs.len(), 20);
    for x in xs {
        let direct = poly_eval(&coeffs, x);
        let through_tree = f.eval(&vec![x]);
        assert!(direct.is_some());
        assert_eq!(direct, through_tree);
    }
}
