// The expression engine end to end: constructors, evaluation, quadrature,
// and the Legendre basis.

use graphing::func::{fn_const, fn_exp, fn_mul, fn_neg, fn_poly, fn_powi, fn_sub, fn_var};
use graphing::integration::{
    int_composite_trapezoidal, int_inner_product, int_midpoint, int_trapezoidal, IntMethod,
};
use graphing::polynomial::{get_legendre_rodrigues, Polynomial};
use graphing::rat::{from_i64, one, zero};
use graphing::util::sample_interval_equidistributed;

#[test]
fn test_constructor() {
    let roots = [1i64, 2, 3];

    let mut p = fn_const(one());
    for &r in roots.iter() {
        p = fn_mul(p, fn_poly(vec![from_i64(-r), one()]));
    }

    println!("{:?}", p);
}

#[test]
fn test_eval() {
    let f = fn_sub(fn_exp(fn_var(0)), fn_const(one()));

    let xs = sample_interval_equidistributed((from_i64(-10), from_i64(10)), 20).unwrap();

    for x in xs {
        let y = f.eval(&vec![x]);
        println!("f({:?}) = {:?}", x, y);
    }
}

#[test]
fn int_test_int() {
    // f(x) = e^(-x^2): transcendental, so the exact engine reports None.
    let f = fn_exp(fn_mul(fn_const(from_i64(-1)), fn_powi(fn_var(0), 2)));

    for num in [2usize, 3, 4, 5, 10, 15, 20, 100, 1000, 10000] {
        let int_m = int_midpoint(&f, (zero(), one()), num);
        let int_t = int_trapezoidal(&f, (zero(), one()), num);
        let int_ct = int_composite_trapezoidal(&f, (zero(), one()), num);

        println!(
            "n = {:5} | e_m = {:?} | e_t = {:?} | e_ct = {:?}",
            num, int_m, int_t, int_ct
        );
        assert_eq!(int_m, None);
        assert_eq!(int_t, None);
        assert_eq!(int_ct, None);
    }
}

#[test]
fn integration_test_int() {
    let f = fn_exp(fn_mul(fn_const(from_i64(-1)), fn_powi(fn_var(0), 2)));

    for num in [2usize, 3, 4, 5, 10, 15, 20, 100, 1000, 10000] {
        let int_m = int_midpoint(&f, (zero(), one()), num);
        let int_t = int_trapezoidal(&f, (zero(), one()), num);
        let int_ct = int_composite_trapezoidal(&f, (zero(), one()), num);

        println!(
            "n = {:5} | e_m = {:?} | e_t = {:?} | e_ct = {:?}",
            num, int_m, int_t, int_ct
        );
    }
}

#[test]
fn test_inner_product() {
    // f(x) = e^(-x^2)
    let f = fn_exp(fn_neg(fn_powi(fn_var(0), 2)));
    // g(x) = 1 - x
    let g = fn_sub(fn_const(one()), fn_var(0));

    let interval = (from_i64(-1), from_i64(1));

    for num in [2usize, 3, 4, 5, 10, 15, 20, 100, 1000, 10000] {
        let int_m = int_inner_product(&f, &g, interval, IntMethod::Midpoint(num));
        let int_t = int_inner_product(&f, &g, interval, IntMethod::Trapezoidal(num));
        let int_ct = int_inner_product(&f, &g, interval, IntMethod::CompositeTrapezoidal(num));

        println!(
            "n = {:5} | e_m = {:?} | e_t = {:?} | e_ct = {:?}",
            num, int_m, int_t, int_ct
        );
    }
}

#[test]
fn test_legendre() {
    for i in 0..=10usize {
        let p = Polynomial::new_with_coefficients(&get_legendre_rodrigues(i).unwrap());
        let f = p.to_function_of_x();

        println!("P_{}(x) = {:?}", i, f);
    }
}
