//! The library's algebraic laws, stated over the unbounded rational
//! semantics `Frac` and proved from the contracts of the checked
//! operations.

use vstd::prelude::*;
use crate::rat::{
    Rat, rat_zero, add_spec, sub_spec, mul_spec, div_spec, powi_spec, frac_eq, frac_add,
    frac_sub, frac_mul, frac_div, frac_powi, frac_of_int, frac_valid, Frac, lemma_add_value,
    lemma_sub_value, lemma_mul_value, lemma_div_value, lemma_powi_value, lemma_frac_add_valid,
    lemma_frac_add_cong, lemma_frac_eq_trans,
};
use crate::func::{FuncV, fn_add_v, fn_sub_v, fn_mul_v, fn_div_v, fn_powi_v};
use crate::polynomial::{getz, coeffs_wf, conv_psum_spec, conv_pre_spec, conv_spec};

verus! {

// ------------------------------------------------------------------------
// Confluence of the simplifying constructors on constants: folding two
// constants leaves a single constant node holding the exact result, with
// no residual tree.

/// Law: `add(const(c1), const(c2))` folds to `const(c1 + c2)` exactly,
/// whenever the sum is representable.
pub proof fn lemma_add_folds_constants(a: Rat, b: Rat)
    requires
        a.wf(),
        b.wf(),
        add_spec(a, b) is Some,
    ensures
        fn_add_v(FuncV::Const(a), FuncV::Const(b)) == FuncV::Const(add_spec(a, b)->Some_0),
        frac_eq((add_spec(a, b)->Some_0)@, frac_add(a@, b@)),
{
    lemma_add_value(a, b);
}

/// Law: `sub(const(c1), const(c2))` folds to `const(c1 - c2)` exactly.
pub proof fn lemma_sub_folds_constants(a: Rat, b: Rat)
    requires
        a.wf(),
        b.wf(),
        sub_spec(a, b) is Some,
    ensures
        fn_sub_v(FuncV::Const(a), FuncV::Const(b)) == FuncV::Const(sub_spec(a, b)->Some_0),
        frac_eq((sub_spec(a, b)->Some_0)@, frac_sub(a@, b@)),
{
    lemma_sub_value(a, b);
}

/// Law: `mul(const(c1), const(c2))` folds to `const(c1 * c2)` exactly.
pub proof fn lemma_mul_folds_constants(a: Rat, b: Rat)
    requires
        a.wf(),
        b.wf(),
        mul_spec(a, b) is Some,
    ensures
        fn_mul_v(FuncV::Const(a), FuncV::Const(b)) == FuncV::Const(mul_spec(a, b)->Some_0),
        frac_eq((mul_spec(a, b)->Some_0)@, frac_mul(a@, b@)),
{
    lemma_mul_value(a, b);
}

/// Law: `div(const(c1), const(c2))` folds to `const(c1 / c2)` exactly,
/// whenever the divisor is non-zero and the quotient is representable.
pub proof fn lemma_div_folds_constants(a: Rat, b: Rat)
    requires
        a.wf(),
        b.wf(),
        div_spec(a, b) is Some,
    ensures
        fn_div_v(FuncV::Const(a), FuncV::Const(b)) == FuncV::Const(div_spec(a, b)->Some_0),
        frac_eq((div_spec(a, b)->Some_0)@, frac_div(a@, b@)),
{
    lemma_div_value(a, b);
}

/// Law: `powi(const(c), n)` folds to `const(c^n)` exactly.
pub proof fn lemma_powi_folds_constants(a: Rat, e: int)
    requires
        a.wf(),
        powi_spec(a, e) is Some,
    ensures
        fn_powi_v(FuncV::Const(a), e) == FuncV::Const(powi_spec(a, e)->Some_0),
        frac_eq((powi_spec(a, e)->Some_0)@, frac_powi(a@, e)),
{
    lemma_powi_value(a, e);
}

// ------------------------------------------------------------------------
// Polynomial multiplication is discrete convolution, at the level of
// exact rational values.

/// The exact partial convolution coefficient: `sum_{j < i} a[j] * b[k-j]`
/// over unbounded rationals, with out-of-range reads as zero.
pub open spec fn conv_frac_psum(a: Seq<Rat>, b: Seq<Rat>, k: int, i: int) -> Frac
    decreases i,
{
    if i <= 0 {
        frac_of_int(0)
    } else {
        frac_add(
            conv_frac_psum(a, b, k, i - 1),
            frac_mul(getz(a, i - 1)@, getz(b, k - (i - 1))@),
        )
    }
}

proof fn lemma_getz_wf(s: Seq<Rat>, i: int)
    requires
        coeffs_wf(s),
    ensures
        getz(s, i).wf(),
{
}

proof fn lemma_conv_frac_psum_valid(a: Seq<Rat>, b: Seq<Rat>, k: int, i: int)
    requires
        coeffs_wf(a),
        coeffs_wf(b),
    ensures
        frac_valid(conv_frac_psum(a, b, k, i)),
    decreases i,
{
    if i > 0 {
        lemma_conv_frac_psum_valid(a, b, k, i - 1);
        lemma_getz_wf(a, i - 1);
        lemma_getz_wf(b, k - (i - 1));
        lemma_frac_add_valid(getz(a, i - 1)@, getz(b, k - (i - 1))@);
        lemma_frac_add_valid(
            conv_frac_psum(a, b, k, i - 1),
            frac_mul(getz(a, i - 1)@, getz(b, k - (i - 1))@),
        );
    }
}

/// A successful checked partial sum denotes the exact partial sum.
proof fn lemma_conv_psum_value(a: Seq<Rat>, b: Seq<Rat>, k: int, i: int)
    requires
        coeffs_wf(a),
        coeffs_wf(b),
        conv_psum_spec(a, b, k, i) is Some,
    ensures
        ({
            let v = conv_psum_spec(a, b, k, i)->Some_0;
            v.wf() && frac_eq(v@, conv_frac_psum(a, b, k, i))
        }),
    decreases i,
{
    let v = conv_psum_spec(a, b, k, i)->Some_0;
    if i <= 0 {
        assert(frac_eq(rat_zero()@, frac_of_int(0)));
    } else {
        let pv = conv_psum_spec(a, b, k, i - 1)->Some_0;
        let x = getz(a, i - 1);
        let y = getz(b, k - (i - 1));
        lemma_getz_wf(a, i - 1);
        lemma_getz_wf(b, k - (i - 1));
        lemma_conv_psum_value(a, b, k, i - 1);
        let t = mul_spec(x, y)->Some_0;
        lemma_mul_value(x, y);
        lemma_add_value(pv, t);
        lemma_conv_frac_psum_valid(a, b, k, i - 1);
        lemma_frac_add_valid(x@, y@);
        lemma_frac_add_cong(pv@, t@, conv_frac_psum(a, b, k, i - 1), frac_mul(x@, y@));
        lemma_frac_add_valid(pv@, t@);
        lemma_frac_add_valid(conv_frac_psum(a, b, k, i - 1), frac_mul(x@, y@));
        lemma_frac_eq_trans(
            v@,
            frac_add(pv@, t@),
            frac_add(conv_frac_psum(a, b, k, i - 1), frac_mul(x@, y@)),
        );
    }
}

proof fn lemma_conv_pre_index(a: Seq<Rat>, b: Seq<Rat>, m: int, k: int)
    requires
        conv_pre_spec(a, b, m) is Some,
        0 <= k < m,
    ensures
        conv_psum_spec(a, b, k, k + 1) is Some,
        (conv_pre_spec(a, b, m)->Some_0)[k] == conv_psum_spec(a, b, k, k + 1)->Some_0,
        conv_pre_spec(a, b, m)->Some_0.len() == m,
    decreases m,
{
    if m > 0 {
        if k < m - 1 {
            lemma_conv_pre_index(a, b, m - 1, k);
        } else {
            if m - 1 > 0 {
                lemma_conv_pre_len(a, b, m - 1);
            }
        }
        if m - 1 > 0 {
            lemma_conv_pre_len(a, b, m - 1);
        }
    }
}

proof fn lemma_conv_pre_len(a: Seq<Rat>, b: Seq<Rat>, m: int)
    requires
        conv_pre_spec(a, b, m) is Some,
    ensures
        conv_pre_spec(a, b, m)->Some_0.len() == if m >= 0 {
            m
        } else {
            0
        },
    decreases m,
{
    if m > 0 {
        lemma_conv_pre_len(a, b, m - 1);
    }
}

/// Law: polynomial multiplication is discrete convolution — coefficient
/// `k` of a successful product denotes exactly `sum_i a[i] * b[k - i]`
/// as an unbounded rational.
pub proof fn lemma_poly_mul_is_convolution(a: Seq<Rat>, b: Seq<Rat>, k: int)
    requires
        coeffs_wf(a),
        coeffs_wf(b),
        a.len() >= 1,
        b.len() >= 1,
        conv_spec(a, b) is Some,
        0 <= k < a.len() + b.len() - 1,
    ensures
        frac_eq((conv_spec(a, b)->Some_0)[k]@, conv_frac_psum(a, b, k, k + 1)),
{
    lemma_conv_pre_index(a, b, a.len() + b.len() - 1, k);
    lemma_conv_psum_value(a, b, k, k + 1);
}

} // verus!