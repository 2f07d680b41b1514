//! Expression trees for scalar functions of one or more variables.
//!
//! `Function` is the executable tree; `FuncV` is its ghost mirror, with
//! `Seq` children and unbounded integers, which all contracts speak of.
//! Variables are indices into an argument vector; an out-of-range index
//! reads as zero, a documented leniency of evaluation.

use vstd::prelude::*;
use crate::rat::{
    Rat, rat_zero, rat_one, zero, one, add_spec, sub_spec, mul_spec, div_spec, neg_spec,
    powi_spec, pow_spec, rat_add, rat_sub, rat_mul, rat_div, rat_neg, rat_powi, rat_pow_u,
    from_i64,
};
use crate::polynomial::{coeffs_wf, horner_spec, poly_eval, poly_mul, poly_trim, trim_spec};

verus! {

/// The ghost shape of an expression tree.
pub enum FuncV {
    Var(int),
    Const(Rat),
    Add(Box<FuncV>, Box<FuncV>),
    Sub(Box<FuncV>, Box<FuncV>),
    Neg(Box<FuncV>),
    Mul(Box<FuncV>, Box<FuncV>),
    Div(Box<FuncV>, Box<FuncV>),
    Sin(Box<FuncV>),
    Cos(Box<FuncV>),
    Tan(Box<FuncV>),
    Exp(Box<FuncV>),
    Log(Box<FuncV>),
    Sum(Seq<FuncV>),
    Prod(Seq<FuncV>),
    PowI(Box<FuncV>, int),
    Poly(Seq<Rat>),
    PolyF(Seq<FuncV>, int),
}

/// A scalar function, represented as an expression tree that owns its
/// children.  `Var(i)` picks the `i`-th component of the argument vector;
/// `Poly` holds a single-variable polynomial over variable 0; `PolyF` holds
/// a polynomial in variable `i` whose coefficients are themselves functions.
#[derive(Debug, PartialEq)]
pub enum Function {
    Var(usize),
    Const(Rat),
    Add(Box<Function>, Box<Function>),
    Sub(Box<Function>, Box<Function>),
    Neg(Box<Function>),
    Mul(Box<Function>, Box<Function>),
    Div(Box<Function>, Box<Function>),
    Sin(Box<Function>),
    Cos(Box<Function>),
    Tan(Box<Function>),
    Exp(Box<Function>),
    Log(Box<Function>),
    Sum(Vec<Function>),
    Prod(Vec<Function>),
    PowI(Box<Function>, i32),
    Poly(Vec<Rat>),
    PolyF(Vec<Function>, usize),
}

pub open spec fn seq_view(s: Seq<Function>) -> Seq<FuncV>
    decreases s,
{
    if s.len() == 0 {
        Seq::empty()
    } else {
        seq_view(s.drop_last()).push(s.last().shape())
    }
}

impl Function {
    /// The ghost mirror of this tree.
    pub open spec fn shape(self) -> FuncV
        decreases self,
    {
        match self {
            Function::Var(i) => FuncV::Var(i as int),
            Function::Const(c) => FuncV::Const(c),
            Function::Add(f1, f2) => FuncV::Add(Box::new((*f1).shape()), Box::new((*f2).shape())),
            Function::Sub(f1, f2) => FuncV::Sub(Box::new((*f1).shape()), Box::new((*f2).shape())),
            Function::Neg(g) => FuncV::Neg(Box::new((*g).shape())),
            Function::Mul(f1, f2) => FuncV::Mul(Box::new((*f1).shape()), Box::new((*f2).shape())),
            Function::Div(f1, f2) => FuncV::Div(Box::new((*f1).shape()), Box::new((*f2).shape())),
            Function::Sin(g) => FuncV::Sin(Box::new((*g).shape())),
            Function::Cos(g) => FuncV::Cos(Box::new((*g).shape())),
            Function::Tan(g) => FuncV::Tan(Box::new((*g).shape())),
            Function::Exp(g) => FuncV::Exp(Box::new((*g).shape())),
            Function::Log(g) => FuncV::Log(Box::new((*g).shape())),
            Function::Sum(fs) => FuncV::Sum(seq_view(fs@)),
            Function::Prod(fs) => FuncV::Prod(seq_view(fs@)),
            Function::PowI(g, n) => FuncV::PowI(Box::new((*g).shape()), n as int),
            Function::Poly(cs) => FuncV::Poly(cs@),
            Function::PolyF(fs, j) => FuncV::PolyF(seq_view(fs@), j as int),
        }
    }
}

impl View for Function {
    type V = FuncV;

    open spec fn view(&self) -> FuncV {
        (*self).shape()
    }
}

/// `seq_view` distributes over `push`.
pub proof fn lemma_seq_view_push(s: Seq<Function>, x: Function)
    ensures
        seq_view(s.push(x)) == seq_view(s).push(x@),
{
    assert(s.push(x).drop_last() =~= s);
    assert(s.push(x).last() == x);
}

/// `seq_wf_v` is preserved by pushing a well-formed element.
pub proof fn lemma_seq_wf_push(s: Seq<FuncV>, x: FuncV)
    requires
        seq_wf_v(s),
        wf_v(x),
    ensures
        seq_wf_v(s.push(x)),
{
    assert(s.push(x).drop_last() =~= s);
    assert(s.push(x).last() == x);
}

/// `seq_view` maps the view over the elements.
pub proof fn lemma_seq_view(s: Seq<Function>)
    ensures
        seq_view(s).len() == s.len(),
        forall|i: int| 0 <= i < s.len() ==> seq_view(s)[i] == #[trigger] s[i]@,
    decreases s,
{
    if s.len() > 0 {
        lemma_seq_view(s.drop_last());
        assert forall|i: int| 0 <= i < s.len() implies seq_view(s)[i] == s[i]@ by {
            if i < s.len() - 1 {
                assert(seq_view(s)[i] == seq_view(s.drop_last())[i]);
                assert(s.drop_last()[i] == s[i]);
            }
        }
    }
}

/// Well-formedness of a tree: every constant is a well-formed rational, a
/// `Poly` is trimmed and non-degenerate (a shorter polynomial is always a
/// `Constant`), a variable index is non-negative, and exponents and
/// coefficient counts stay within the machine ranges the executable tree
/// can hold.
pub open spec fn wf_v(e: FuncV) -> bool
    decreases e,
{
    match e {
        FuncV::Var(i) => 0 <= i,
        FuncV::Const(c) => c.wf(),
        FuncV::Add(f1, f2) => wf_v(*f1) && wf_v(*f2),
        FuncV::Sub(f1, f2) => wf_v(*f1) && wf_v(*f2),
        FuncV::Neg(g) => wf_v(*g),
        FuncV::Mul(f1, f2) => wf_v(*f1) && wf_v(*f2),
        FuncV::Div(f1, f2) => wf_v(*f1) && wf_v(*f2),
        FuncV::Sin(g) => wf_v(*g),
        FuncV::Cos(g) => wf_v(*g),
        FuncV::Tan(g) => wf_v(*g),
        FuncV::Exp(g) => wf_v(*g),
        FuncV::Log(g) => wf_v(*g),
        FuncV::Sum(s) => seq_wf_v(s),
        FuncV::Prod(s) => seq_wf_v(s),
        FuncV::PowI(g, n) => wf_v(*g) && -0x8000_0000 <= n <= 0x7fff_ffff,
        FuncV::Poly(cs) => coeffs_wf(cs) && 2 <= cs.len() <= 0x7fff_ffff && cs.last().num != 0,
        FuncV::PolyF(s, _) => seq_wf_v(s) && s.len() <= 0x7fff_ffff,
    }
}

pub open spec fn seq_wf_v(s: Seq<FuncV>) -> bool
    decreases s,
{
    if s.len() == 0 {
        true
    } else {
        wf_v(s.last()) && seq_wf_v(s.drop_last())
    }
}

/// `seq_wf_v` is elementwise well-formedness.
pub proof fn lemma_seq_wf_v(s: Seq<FuncV>)
    ensures
        seq_wf_v(s) <==> (forall|i: int| 0 <= i < s.len() ==> wf_v(#[trigger] s[i])),
    decreases s,
{
    if s.len() > 0 {
        lemma_seq_wf_v(s.drop_last());
        if seq_wf_v(s) {
            assert forall|i: int| 0 <= i < s.len() implies wf_v(s[i]) by {
                if i < s.len() - 1 {
                    assert(s.drop_last()[i] == s[i]);
                    assert(wf_v(s.drop_last()[i]));
                }
            }
        }
        if forall|i: int| 0 <= i < s.len() ==> wf_v(#[trigger] s[i]) {
            assert forall|i: int| 0 <= i < s.drop_last().len() implies wf_v(
                s.drop_last()[i],
            ) by {
                assert(s.drop_last()[i] == s[i]);
            }
        }
    }
}

fn copy_rats(cs: &Vec<Rat>) -> (r: Vec<Rat>)
    ensures
        r@ == cs@,
{
    let mut r: Vec<Rat> = Vec::new();
    let mut i: usize = 0;
    while i < cs.len()
        invariant
            i <= cs.len(),
            r@ == cs@.subrange(0, i as int),
        decreases cs.len() - i,
    {
        r.push(cs[i]);
        proof {
            assert(r@ =~= cs@.subrange(0, i as int + 1));
        }
        i = i + 1;
    }
    proof {
        assert(cs@.subrange(0, cs@.len() as int) =~= cs@);
    }
    r
}

fn copy_vec(fs: &Vec<Function>) -> (r: Vec<Function>)
    ensures
        r@.len() == fs@.len(),
        forall|i: int| 0 <= i < fs@.len() ==> #[trigger] r@[i]@ == fs@[i]@,
    decreases fs@,
{
    let mut r: Vec<Function> = Vec::new();
    let mut i: usize = 0;
    while i < fs.len()
        invariant
            i <= fs.len(),
            r@.len() == i,
            forall|j: int| 0 <= j < i ==> #[trigger] r@[j]@ == fs@[j]@,
        decreases fs@.len() - i,
    {
        proof {
            assert(decreases_to!(fs@ => fs@[i as int]));
        }
        let c = fs[i].deep_copy();
        r.push(c);
        i = i + 1;
    }
    r
}

proof fn lemma_seq_view_congruent(a: Seq<Function>, b: Seq<Function>)
    requires
        a.len() == b.len(),
        forall|i: int| 0 <= i < a.len() ==> #[trigger] a[i]@ == b[i]@,
    ensures
        seq_view(a) == seq_view(b),
{
    lemma_seq_view(a);
    lemma_seq_view(b);
    assert forall|i: int| 0 <= i < seq_view(a).len() implies seq_view(a)[i] == seq_view(b)[i] by {
        assert(a[i]@ == b[i]@);
    }
    assert(seq_view(a) =~= seq_view(b));
}

/// Argument lookup: an out-of-range variable index reads as zero.
pub open spec fn arg_spec(args: Seq<Rat>, i: int) -> Rat {
    if 0 <= i < args.len() {
        args[i]
    } else {
        rat_zero()
    }
}

/// Exact evaluation of a tree.  Arithmetic variants evaluate their
/// children and combine them with checked rational arithmetic; the
/// transcendental variants have no exact value, so they evaluate to `None`.
pub open spec fn eval_v(e: FuncV, args: Seq<Rat>) -> Option<Rat>
    decreases e,
{
    match e {
        FuncV::Var(i) => Some(arg_spec(args, i)),
        FuncV::Const(c) => Some(c),
        FuncV::Add(f1, f2) => match (eval_v(*f1, args), eval_v(*f2, args)) {
            (Some(x), Some(y)) => add_spec(x, y),
            _ => None,
        },
        FuncV::Sub(f1, f2) => match (eval_v(*f1, args), eval_v(*f2, args)) {
            (Some(x), Some(y)) => sub_spec(x, y),
            _ => None,
        },
        FuncV::Neg(g) => match eval_v(*g, args) {
            Some(x) => Some(neg_spec(x)),
            None => None,
        },
        FuncV::Mul(f1, f2) => match (eval_v(*f1, args), eval_v(*f2, args)) {
            (Some(x), Some(y)) => mul_spec(x, y),
            _ => None,
        },
        FuncV::Div(f1, f2) => match (eval_v(*f1, args), eval_v(*f2, args)) {
            (Some(x), Some(y)) => div_spec(x, y),
            _ => None,
        },
        FuncV::Sin(_) => None,
        FuncV::Cos(_) => None,
        FuncV::Tan(_) => None,
        FuncV::Exp(_) => None,
        FuncV::Log(_) => None,
        FuncV::Sum(s) => eval_sum_v(s, args),
        FuncV::Prod(s) => eval_prod_v(s, args),
        FuncV::PowI(g, n) => match eval_v(*g, args) {
            Some(x) => powi_spec(x, n),
            None => None,
        },
        FuncV::Poly(cs) => horner_spec(cs, arg_spec(args, 0)),
        FuncV::PolyF(s, j) => eval_polyf_v(s, args, arg_spec(args, j)),
    }
}

/// Left-to-right sum of the evaluated elements.
pub open spec fn eval_sum_v(s: Seq<FuncV>, args: Seq<Rat>) -> Option<Rat>
    decreases s,
{
    if s.len() == 0 {
        Some(rat_zero())
    } else {
        match (eval_sum_v(s.drop_last(), args), eval_v(s.last(), args)) {
            (Some(acc), Some(x)) => add_spec(acc, x),
            _ => None,
        }
    }
}

/// Left-to-right product of the evaluated elements.
pub open spec fn eval_prod_v(s: Seq<FuncV>, args: Seq<Rat>) -> Option<Rat>
    decreases s,
{
    if s.len() == 0 {
        Some(rat_one())
    } else {
        match (eval_prod_v(s.drop_last(), args), eval_v(s.last(), args)) {
            (Some(acc), Some(x)) => mul_spec(acc, x),
            _ => None,
        }
    }
}

/// `sum_k f_k(args) * x^k` for a polynomial with function coefficients.
pub open spec fn eval_polyf_v(s: Seq<FuncV>, args: Seq<Rat>, x: Rat) -> Option<Rat>
    decreases s,
{
    if s.len() == 0 {
        Some(rat_zero())
    } else {
        match (
            eval_polyf_v(s.drop_last(), args, x),
            eval_v(s.last(), args),
            pow_spec(x, (s.len() - 1) as nat),
        ) {
            (Some(acc), Some(fx), Some(xp)) => match mul_spec(fx, xp) {
                Some(t) => add_spec(acc, t),
                None => None,
            },
            _ => None,
        }
    }
}

proof fn lemma_eval_sum_prefix_none(s: Seq<FuncV>, args: Seq<Rat>, m: int)
    requires
        0 <= m <= s.len(),
        eval_sum_v(s.subrange(0, m), args) is None,
    ensures
        eval_sum_v(s, args) is None,
    decreases s.len() - m,
{
    if m < s.len() {
        assert(s.subrange(0, m + 1).drop_last() =~= s.subrange(0, m));
        lemma_eval_sum_prefix_none(s, args, m + 1);
    } else {
        assert(s.subrange(0, s.len() as int) =~= s);
    }
}

proof fn lemma_eval_prod_prefix_none(s: Seq<FuncV>, args: Seq<Rat>, m: int)
    requires
        0 <= m <= s.len(),
        eval_prod_v(s.subrange(0, m), args) is None,
    ensures
        eval_prod_v(s, args) is None,
    decreases s.len() - m,
{
    if m < s.len() {
        assert(s.subrange(0, m + 1).drop_last() =~= s.subrange(0, m));
        lemma_eval_prod_prefix_none(s, args, m + 1);
    } else {
        assert(s.subrange(0, s.len() as int) =~= s);
    }
}

proof fn lemma_eval_polyf_prefix_none(s: Seq<FuncV>, args: Seq<Rat>, x: Rat, m: int)
    requires
        0 <= m <= s.len(),
        eval_polyf_v(s.subrange(0, m), args, x) is None,
    ensures
        eval_polyf_v(s, args, x) is None,
    decreases s.len() - m,
{
    if m < s.len() {
        assert(s.subrange(0, m + 1).drop_last() =~= s.subrange(0, m));
        lemma_eval_polyf_prefix_none(s, args, x, m + 1);
    } else {
        assert(s.subrange(0, s.len() as int) =~= s);
    }
}

/// A view is a `Const`, `Neg` or `Poly` exactly when the tree is.
proof fn lemma_view_variant(f: Function)
    ensures
        f@ is Const <==> f is Const,
        f@ is Neg <==> f is Neg,
        f@ is Poly <==> f is Poly,
        f is Const ==> f@ == FuncV::Const(f->Const_0),
        f is Poly ==> f@ == FuncV::Poly(f->Poly_0@),
{
    match f {
        Function::Var(_) => {},
        Function::Const(_) => {},
        Function::Add(_, _) => {},
        Function::Sub(_, _) => {},
        Function::Neg(_) => {},
        Function::Mul(_, _) => {},
        Function::Div(_, _) => {},
        Function::Sin(_) => {},
        Function::Cos(_) => {},
        Function::Tan(_) => {},
        Function::Exp(_) => {},
        Function::Log(_) => {},
        Function::Sum(_) => {},
        Function::Prod(_) => {},
        Function::PowI(_, _) => {},
        Function::Poly(_) => {},
        Function::PolyF(_, _) => {},
    }
}

/// Argument lookup, with the zero default for out-of-range indices.
pub fn get_arg(args: &Vec<Rat>, i: usize) -> (r: Rat)
    requires
        coeffs_wf(args@),
    ensures
        r == arg_spec(args@, i as int),
        r.wf(),
{
    if i < args.len() {
        args[i]
    } else {
        zero()
    }
}

impl Function {
    /// An explicit structural copy: the result has the same view, so it
    /// denotes the same function.
    pub fn deep_copy(&self) -> (r: Function)
        ensures
            r@ == self@,
        decreases self,
    {
        match self {
            Function::Var(i) => Function::Var(*i),
            Function::Const(c) => Function::Const(*c),
            Function::Add(f1, f2) => Function::Add(
                Box::new(f1.deep_copy()),
                Box::new(f2.deep_copy()),
            ),
            Function::Sub(f1, f2) => Function::Sub(
                Box::new(f1.deep_copy()),
                Box::new(f2.deep_copy()),
            ),
            Function::Neg(g) => Function::Neg(Box::new(g.deep_copy())),
            Function::Mul(f1, f2) => Function::Mul(
                Box::new(f1.deep_copy()),
                Box::new(f2.deep_copy()),
            ),
            Function::Div(f1, f2) => Function::Div(
                Box::new(f1.deep_copy()),
                Box::new(f2.deep_copy()),
            ),
            Function::Sin(g) => Function::Sin(Box::new(g.deep_copy())),
            Function::Cos(g) => Function::Cos(Box::new(g.deep_copy())),
            Function::Tan(g) => Function::Tan(Box::new(g.deep_copy())),
            Function::Exp(g) => Function::Exp(Box::new(g.deep_copy())),
            Function::Log(g) => Function::Log(Box::new(g.deep_copy())),
            Function::Sum(fs) => {
                let c = copy_vec(fs);
                proof {
                    lemma_seq_view_congruent(c@, fs@);
                }
                Function::Sum(c)
            },
            Function::Prod(fs) => {
                let c = copy_vec(fs);
                proof {
                    lemma_seq_view_congruent(c@, fs@);
                }
                Function::Prod(c)
            },
            Function::PowI(g, n) => Function::PowI(Box::new(g.deep_copy()), *n),
            Function::Poly(cs) => Function::Poly(copy_rats(cs)),
            Function::PolyF(fs, j) => {
                let c = copy_vec(fs);
                proof {
                    lemma_seq_view_congruent(c@, fs@);
                }
                Function::PolyF(c, *j)
            },
        }
    }

    /// Evaluate at `args`, exactly.  `None` reports a transcendental
    /// subterm, a division by zero, or a value that does not fit.
    #[verifier::loop_isolation(false)]
    #[verifier::rlimit(60)]
    pub fn eval(&self, args: &Vec<Rat>) -> (r: Option<Rat>)
        requires
            wf_v(self@),
            coeffs_wf(args@),
        ensures
            r == eval_v(self@, args@),
            r matches Some(v) ==> v.wf(),
        decreases *self,
    {
        match self {
            Function::Var(i) => Some(get_arg(args, *i)),
            Function::Const(c) => Some(*c),
            Function::Add(f1, f2) => {
                let x = match f1.eval(args) {
                    Some(v) => v,
                    None => {
                        return None;
                    },
                };
                let y = match f2.eval(args) {
                    Some(v) => v,
                    None => {
                        return None;
                    },
                };
                rat_add(x, y)
            },
            Function::Sub(f1, f2) => {
                let x = match f1.eval(args) {
                    Some(v) => v,
                    None => {
                        return None;
                    },
                };
                let y = match f2.eval(args) {
                    Some(v) => v,
                    None => {
                        return None;
                    },
                };
                rat_sub(x, y)
            },
            Function::Neg(g) => {
                let x = match g.eval(args) {
                    Some(v) => v,
                    None => {
                        return None;
                    },
                };
                Some(rat_neg(x))
            },
            Function::Mul(f1, f2) => {
                let x = match f1.eval(args) {
                    Some(v) => v,
                    None => {
                        return None;
                    },
                };
                let y = match f2.eval(args) {
                    Some(v) => v,
                    None => {
                        return None;
                    },
                };
                rat_mul(x, y)
            },
            Function::Div(f1, f2) => {
                let x = match f1.eval(args) {
                    Some(v) => v,
                    None => {
                        return None;
                    },
                };
                let y = match f2.eval(args) {
                    Some(v) => v,
                    None => {
                        return None;
                    },
                };
                rat_div(x, y)
            },
            Function::Sin(_) => None,
            Function::Cos(_) => None,
            Function::Tan(_) => None,
            Function::Exp(_) => None,
            Function::Log(_) => None,
            Function::Sum(fs) => {
                proof {
                    lemma_seq_view(fs@);
                    lemma_seq_wf_v(seq_view(fs@));
                    assert(seq_view(fs@).subrange(0, 0) =~= Seq::<FuncV>::empty());
                }
                let mut acc: Rat = zero();
                let mut i: usize = 0;
                while i < fs.len()
                    invariant
                        i <= fs.len(),
                        acc.wf(),
                        coeffs_wf(args@),
                        seq_view(fs@).len() == fs@.len(),
                        forall|j: int|
                            0 <= j < fs@.len() ==> seq_view(fs@)[j] == #[trigger] fs@[j]@,
                        forall|j: int|
                            0 <= j < seq_view(fs@).len() ==> wf_v(#[trigger] seq_view(fs@)[j]),
                        Some(acc) == eval_sum_v(seq_view(fs@).subrange(0, i as int), args@),
                    decreases fs.len() - i,
                {
                    proof {
                        assert(decreases_to!(*self => fs@[i as int]));
                        assert(seq_view(fs@).subrange(0, i as int + 1).drop_last()
                            =~= seq_view(fs@).subrange(0, i as int));
                        assert(seq_view(fs@).subrange(0, i as int + 1).last() == fs@[i as int]@);
                    }
                    let x = match fs[i].eval(args) {
                        Some(v) => v,
                        None => {
                            proof {
                                lemma_eval_sum_prefix_none(seq_view(fs@), args@, i as int + 1);
                            }
                            return None;
                        },
                    };
                    let a2 = match rat_add(acc, x) {
                        Some(v) => v,
                        None => {
                            proof {
                                lemma_eval_sum_prefix_none(seq_view(fs@), args@, i as int + 1);
                            }
                            return None;
                        },
                    };
                    acc = a2;
                    i = i + 1;
                }
                proof {
                    assert(seq_view(fs@).subrange(0, seq_view(fs@).len() as int)
                        =~= seq_view(fs@));
                }
                Some(acc)
            },
            Function::Prod(fs) => {
                proof {
                    lemma_seq_view(fs@);
                    lemma_seq_wf_v(seq_view(fs@));
                    assert(seq_view(fs@).subrange(0, 0) =~= Seq::<FuncV>::empty());
                }
                let mut acc: Rat = one();
                let mut i: usize = 0;
                while i < fs.len()
                    invariant
                        i <= fs.len(),
                        acc.wf(),
                        coeffs_wf(args@),
                        seq_view(fs@).len() == fs@.len(),
                        forall|j: int|
                            0 <= j < fs@.len() ==> seq_view(fs@)[j] == #[trigger] fs@[j]@,
                        forall|j: int|
                            0 <= j < seq_view(fs@).len() ==> wf_v(#[trigger] seq_view(fs@)[j]),
                        Some(acc) == eval_prod_v(seq_view(fs@).subrange(0, i as int), args@),
                    decreases fs.len() - i,
                {
                    proof {
                        assert(decreases_to!(*self => fs@[i as int]));
                        assert(seq_view(fs@).subrange(0, i as int + 1).drop_last()
                            =~= seq_view(fs@).subrange(0, i as int));
                        assert(seq_view(fs@).subrange(0, i as int + 1).last() == fs@[i as int]@);
                    }
                    let x = match fs[i].eval(args) {
                        Some(v) => v,
                        None => {
                            proof {
                                lemma_eval_prod_prefix_none(seq_view(fs@), args@, i as int + 1);
                            }
                            return None;
                        },
                    };
                    let a2 = match rat_mul(acc, x) {
                        Some(v) => v,
                        None => {
                            proof {
                                lemma_eval_prod_prefix_none(seq_view(fs@), args@, i as int + 1);
                            }
                            return None;
                        },
                    };
                    acc = a2;
                    i = i + 1;
                }
                proof {
                    assert(seq_view(fs@).subrange(0, seq_view(fs@).len() as int)
                        =~= seq_view(fs@));
                }
                Some(acc)
            },
            Function::PowI(g, n) => {
                let x = match g.eval(args) {
                    Some(v) => v,
                    None => {
                        return None;
                    },
                };
                rat_powi(x, *n)
            },
            Function::Poly(cs) => {
                let x = get_arg(args, 0);
                poly_eval(cs, x)
            },
            Function::PolyF(fs, j) => {
                let x = get_arg(args, *j);
                proof {
                    lemma_seq_view(fs@);
                    lemma_seq_wf_v(seq_view(fs@));
                    assert(seq_view(fs@).subrange(0, 0) =~= Seq::<FuncV>::empty());
                }
                let mut acc: Rat = zero();
                let mut i: usize = 0;
                while i < fs.len()
                    invariant
                        i <= fs.len(),
                        acc.wf(),
                        x.wf(),
                        x == arg_spec(args@, *j as int),
                        coeffs_wf(args@),
                        seq_view(fs@).len() == fs@.len(),
                        forall|k: int|
                            0 <= k < fs@.len() ==> seq_view(fs@)[k] == #[trigger] fs@[k]@,
                        forall|k: int|
                            0 <= k < seq_view(fs@).len() ==> wf_v(#[trigger] seq_view(fs@)[k]),
                        Some(acc) == eval_polyf_v(seq_view(fs@).subrange(0, i as int), args@, x),
                    decreases fs.len() - i,
                {
                    proof {
                        assert(decreases_to!(*self => fs@[i as int]));
                        assert(seq_view(fs@).subrange(0, i as int + 1).drop_last()
                            =~= seq_view(fs@).subrange(0, i as int));
                        assert(seq_view(fs@).subrange(0, i as int + 1).last() == fs@[i as int]@);
                    }
                    let fx = match fs[i].eval(args) {
                        Some(v) => v,
                        None => {
                            proof {
                                lemma_eval_polyf_prefix_none(seq_view(fs@), args@, x, i as int
                                    + 1);
                            }
                            return None;
                        },
                    };
                    let xp = match rat_pow_u(x, i as u64) {
                        Some(v) => v,
                        None => {
                            proof {
                                lemma_eval_polyf_prefix_none(seq_view(fs@), args@, x, i as int
                                    + 1);
                            }
                            return None;
                        },
                    };
                    let t = match rat_mul(fx, xp) {
                        Some(v) => v,
                        None => {
                            proof {
                                lemma_eval_polyf_prefix_none(seq_view(fs@), args@, x, i as int
                                    + 1);
                            }
                            return None;
                        },
                    };
                    let a2 = match rat_add(acc, t) {
                        Some(v) => v,
                        None => {
                            proof {
                                lemma_eval_polyf_prefix_none(seq_view(fs@), args@, x, i as int
                                    + 1);
                            }
                            return None;
                        },
                    };
                    acc = a2;
                    i = i + 1;
                }
                proof {
                    assert(seq_view(fs@).subrange(0, seq_view(fs@).len() as int)
                        =~= seq_view(fs@));
                }
                Some(acc)
            },
        }
    }
}

// ------------------------------------------------------------------------
// Sampling over an interval.

/// The first `m` sample pairs `(x_i, f(x_i))` with `x_i = a + delta * i`.
pub open spec fn sample_pre_v(e: FuncV, a: Rat, delta: Rat, m: int) -> Option<
    Seq<(Rat, Rat)>,
>
    decreases m,
{
    if m <= 0 {
        Some(Seq::empty())
    } else {
        match sample_pre_v(e, a, delta, m - 1) {
            Some(p) => match mul_spec(delta, Rat { num: (m - 1) as i128, den: 1 }) {
                Some(dx) => match add_spec(a, dx) {
                    Some(x) => match eval_v(e, seq![x]) {
                        Some(y) => Some(p.push((x, y))),
                        None => None,
                    },
                    None => None,
                },
                None => None,
            },
            None => None,
        }
    }
}

/// `steps + 1` pairs `(x_i, f(x_i))` with `x_i = a + i * (b - a) / steps`.
pub open spec fn sample_v(e: FuncV, a: Rat, b: Rat, steps: int) -> Option<Seq<(Rat, Rat)>>
    recommends
        steps >= 1,
{
    match sub_spec(b, a) {
        Some(w) => match div_spec(w, Rat { num: steps as i128, den: 1 }) {
            Some(delta) => sample_pre_v(e, a, delta, steps + 1),
            None => None,
        },
        None => None,
    }
}

proof fn lemma_sample_pre_none(e: FuncV, a: Rat, delta: Rat, m: int, j: int)
    requires
        m <= j,
        sample_pre_v(e, a, delta, m) is None,
    ensures
        sample_pre_v(e, a, delta, j) is None,
    decreases j - m,
{
    if m < j {
        lemma_sample_pre_none(e, a, delta, m, j - 1);
    }
}

impl Function {
    /// An ordered, finite sequence of `steps + 1` points of the graph of
    /// this function over `interval`, equidistributed from one endpoint to
    /// the other.
    pub fn sample(&self, interval: (Rat, Rat), steps: usize) -> (r: Option<Vec<(Rat, Rat)>>)
        requires
            wf_v(self@),
            interval.0.wf(),
            interval.1.wf(),
            1 <= steps <= 0x7fff_ffff,
        ensures
            ({
                match r {
                    Some(v) => Some(v@) == sample_v(self@, interval.0, interval.1, steps as int)
                        && v@.len() == steps + 1,
                    None => sample_v(self@, interval.0, interval.1, steps as int) is None,
                }
            }),
    {
        let (a, b) = interval;
        let w: Rat = match rat_sub(b, a) {
            Some(v) => v,
            None => {
                return None;
            },
        };
        let delta: Rat = match rat_div(w, from_i64(steps as i64)) {
            Some(v) => v,
            None => {
                return None;
            },
        };
        let mut out: Vec<(Rat, Rat)> = Vec::new();
        let mut i: usize = 0;
        while i <= steps
            invariant
                i <= steps + 1,
                steps <= 0x7fff_ffff,
                wf_v(self@),
                a == interval.0,
                b == interval.1,
                a.wf(),
                delta.wf(),
                out@.len() == i,
                Some(out@) == sample_pre_v(self@, a, delta, i as int),
                sample_v(self@, a, b, steps as int) == sample_pre_v(
                    self@,
                    a,
                    delta,
                    steps as int + 1,
                ),
            decreases steps + 1 - i,
        {
            let dx: Rat = match rat_mul(delta, from_i64(i as i64)) {
                Some(v) => v,
                None => {
                    proof {
                        lemma_sample_pre_none(self@, a, delta, i as int + 1, steps as int + 1);
                    }
                    return None;
                },
            };
            let x: Rat = match rat_add(a, dx) {
                Some(v) => v,
                None => {
                    proof {
                        lemma_sample_pre_none(self@, a, delta, i as int + 1, steps as int + 1);
                    }
                    return None;
                },
            };
            let mut argv: Vec<Rat> = Vec::new();
            argv.push(x);
            proof {
                assert(argv@ =~= seq![x]);
            }
            let y: Rat = match self.eval(&argv) {
                Some(v) => v,
                None => {
                    proof {
                        lemma_sample_pre_none(self@, a, delta, i as int + 1, steps as int + 1);
                    }
                    return None;
                },
            };
            out.push((x, y));
            i = i + 1;
        }
        Some(out)
    }
}

// ------------------------------------------------------------------------
// Simplifying constructors.  Each applies a fixed rewrite rule before
// building a generic node.  Where a fold would produce a constant
// that does not fit in `i128`, the generic node is built instead, so every
// constructor is total.  A transcendental of a constant has no exact
// rational value, so those constructors never fold.

pub open spec fn funcs_wf(s: Seq<Function>) -> bool {
    seq_wf_v(seq_view(s))
}

/// The function `x_i`.
pub fn fn_var(i: usize) -> (r: Function)
    ensures
        r@ == FuncV::Var(i as int),
        wf_v(r@),
{
    Function::Var(i)
}

/// The constant function `c`.
pub fn fn_const(c: Rat) -> (r: Function)
    requires
        c.wf(),
    ensures
        r@ == FuncV::Const(c),
        wf_v(r@),
{
    Function::Const(c)
}

pub open spec fn fn_add_v(a: FuncV, b: FuncV) -> FuncV {
    match (a, b) {
        (FuncV::Const(c1), FuncV::Const(c2)) => match add_spec(c1, c2) {
            Some(c) => FuncV::Const(c),
            None => FuncV::Add(Box::new(FuncV::Const(c1)), Box::new(FuncV::Const(c2))),
        },
        (FuncV::Const(c1), g) => if c1.num == 0 {
            g
        } else {
            FuncV::Add(Box::new(FuncV::Const(c1)), Box::new(g))
        },
        (g, FuncV::Const(c2)) => if c2.num == 0 {
            g
        } else {
            FuncV::Add(Box::new(g), Box::new(FuncV::Const(c2)))
        },
        (g1, g2) => FuncV::Add(Box::new(g1), Box::new(g2)),
    }
}

/// `f1 + f2`.  Folds constants and drops additive zeros.
pub fn fn_add(f1: Function, f2: Function) -> (r: Function)
    requires
        wf_v(f1@),
        wf_v(f2@),
    ensures
        r@ == fn_add_v(f1@, f2@),
        wf_v(r@),
{
    proof {
        lemma_view_variant(f1);
        lemma_view_variant(f2);
    }
    match (f1, f2) {
        (Function::Const(c1), Function::Const(c2)) => match rat_add(c1, c2) {
            Some(c) => Function::Const(c),
            None => Function::Add(
                Box::new(Function::Const(c1)),
                Box::new(Function::Const(c2)),
            ),
        },
        (Function::Const(c1), g) => {
            if c1.num == 0 {
                g
            } else {
                Function::Add(Box::new(Function::Const(c1)), Box::new(g))
            }
        },
        (g, Function::Const(c2)) => {
            if c2.num == 0 {
                g
            } else {
                Function::Add(Box::new(g), Box::new(Function::Const(c2)))
            }
        },
        (g1, g2) => Function::Add(Box::new(g1), Box::new(g2)),
    }
}

pub open spec fn fn_neg_v(a: FuncV) -> FuncV {
    match a {
        FuncV::Const(c) => FuncV::Const(neg_spec(c)),
        FuncV::Neg(g) => *g,
        g => FuncV::Neg(Box::new(g)),
    }
}

/// `-f`.  Negates constants and cancels a double negation.
pub fn fn_neg(f: Function) -> (r: Function)
    requires
        wf_v(f@),
    ensures
        r@ == fn_neg_v(f@),
        wf_v(r@),
{
    proof {
        lemma_view_variant(f);
    }
    match f {
        Function::Const(c) => Function::Const(rat_neg(c)),
        Function::Neg(g) => *g,
        g => Function::Neg(Box::new(g)),
    }
}

pub open spec fn fn_sub_v(a: FuncV, b: FuncV) -> FuncV {
    match (a, b) {
        (FuncV::Const(c1), FuncV::Const(c2)) => match sub_spec(c1, c2) {
            Some(c) => FuncV::Const(c),
            None => FuncV::Sub(Box::new(FuncV::Const(c1)), Box::new(FuncV::Const(c2))),
        },
        (g, FuncV::Const(c2)) => if c2.num == 0 {
            g
        } else {
            FuncV::Sub(Box::new(g), Box::new(FuncV::Const(c2)))
        },
        (FuncV::Const(c1), g) => if c1.num == 0 {
            fn_neg_v(g)
        } else {
            FuncV::Sub(Box::new(FuncV::Const(c1)), Box::new(g))
        },
        (g1, g2) => FuncV::Sub(Box::new(g1), Box::new(g2)),
    }
}

/// `f1 - f2`.  Folds constants, drops `- 0`, and turns `0 - f` into `-f`.
pub fn fn_sub(f1: Function, f2: Function) -> (r: Function)
    requires
        wf_v(f1@),
        wf_v(f2@),
    ensures
        r@ == fn_sub_v(f1@, f2@),
        wf_v(r@),
{
    proof {
        lemma_view_variant(f1);
        lemma_view_variant(f2);
    }
    match (f1, f2) {
        (Function::Const(c1), Function::Const(c2)) => match rat_sub(c1, c2) {
            Some(c) => Function::Const(c),
            None => Function::Sub(
                Box::new(Function::Const(c1)),
                Box::new(Function::Const(c2)),
            ),
        },
        (g, Function::Const(c2)) => {
            if c2.num == 0 {
                g
            } else {
                Function::Sub(Box::new(g), Box::new(Function::Const(c2)))
            }
        },
        (Function::Const(c1), g) => {
            if c1.num == 0 {
                fn_neg(g)
            } else {
                Function::Sub(Box::new(Function::Const(c1)), Box::new(g))
            }
        },
        (g1, g2) => Function::Sub(Box::new(g1), Box::new(g2)),
    }
}

pub open spec fn fn_poly_v(cs: Seq<Rat>) -> FuncV {
    let t = trim_spec(cs);
    if t.len() == 0 {
        FuncV::Const(rat_zero())
    } else if t.len() == 1 {
        FuncV::Const(t[0])
    } else {
        FuncV::Poly(t)
    }
}

/// The polynomial `sum_k c_k * x_0^k`.  Trailing zero coefficients are
/// stripped, and a polynomial of length at most one degenerates to a
/// `Const`, never to a `Poly`.
pub fn fn_poly(coeffs: Vec<Rat>) -> (r: Function)
    requires
        coeffs_wf(coeffs@),
        coeffs@.len() <= 0x7fff_ffff,
    ensures
        r@ == fn_poly_v(coeffs@),
        wf_v(r@),
{
    proof {
        crate::polynomial::lemma_trim_wf(coeffs@);
    }
    let t = poly_trim(&coeffs);
    if t.len() == 0 {
        Function::Const(zero())
    } else if t.len() == 1 {
        Function::Const(t[0])
    } else {
        Function::Poly(t)
    }
}

pub open spec fn fn_mul_v(a: FuncV, b: FuncV) -> FuncV {
    match (a, b) {
        (FuncV::Const(c1), FuncV::Const(c2)) => match mul_spec(c1, c2) {
            Some(c) => FuncV::Const(c),
            None => FuncV::Mul(Box::new(FuncV::Const(c1)), Box::new(FuncV::Const(c2))),
        },
        (FuncV::Const(c1), g) => if c1.num == 0 {
            FuncV::Const(rat_zero())
        } else if c1.num == c1.den {
            g
        } else {
            FuncV::Mul(Box::new(FuncV::Const(c1)), Box::new(g))
        },
        (g, FuncV::Const(c2)) => if c2.num == 0 {
            FuncV::Const(rat_zero())
        } else if c2.num == c2.den {
            g
        } else {
            FuncV::Mul(Box::new(g), Box::new(FuncV::Const(c2)))
        },
        (FuncV::Poly(a1), FuncV::Poly(a2)) => if a1.len() + a2.len() < usize::MAX {
            match crate::polynomial::conv_spec(a1, a2) {
                Some(v) => if v.len() <= 0x7fff_ffff {
                    fn_poly_v(v)
                } else {
                    FuncV::Mul(Box::new(FuncV::Poly(a1)), Box::new(FuncV::Poly(a2)))
                },
                None => FuncV::Mul(Box::new(FuncV::Poly(a1)), Box::new(FuncV::Poly(a2))),
            }
        } else {
            FuncV::Mul(Box::new(FuncV::Poly(a1)), Box::new(FuncV::Poly(a2)))
        },
        (g1, g2) => FuncV::Mul(Box::new(g1), Box::new(g2)),
    }
}

/// `f1 * f2`.  Folds constants, absorbs zeros, drops unit factors, and
/// keeps the product of two polynomials a polynomial.
pub fn fn_mul(f1: Function, f2: Function) -> (r: Function)
    requires
        wf_v(f1@),
        wf_v(f2@),
    ensures
        r@ == fn_mul_v(f1@, f2@),
        wf_v(r@),
{
    proof {
        lemma_view_variant(f1);
        lemma_view_variant(f2);
    }
    match (f1, f2) {
        (Function::Const(c1), Function::Const(c2)) => match rat_mul(c1, c2) {
            Some(c) => Function::Const(c),
            None => Function::Mul(
                Box::new(Function::Const(c1)),
                Box::new(Function::Const(c2)),
            ),
        },
        (Function::Const(c1), g) => {
            if c1.num == 0 {
                Function::Const(zero())
            } else if c1.num == c1.den {
                g
            } else {
                Function::Mul(Box::new(Function::Const(c1)), Box::new(g))
            }
        },
        (g, Function::Const(c2)) => {
            if c2.num == 0 {
                Function::Const(zero())
            } else if c2.num == c2.den {
                g
            } else {
                Function::Mul(Box::new(g), Box::new(Function::Const(c2)))
            }
        },
        (Function::Poly(c1), Function::Poly(c2)) => {
            if c1.len() < usize::MAX && c2.len() < usize::MAX - c1.len() {
                match poly_mul(&c1, &c2) {
                    Some(v) => {
                        if v.len() <= 0x7fff_ffff {
                            fn_poly(v)
                        } else {
                            Function::Mul(
                                Box::new(Function::Poly(c1)),
                                Box::new(Function::Poly(c2)),
                            )
                        }
                    },
                    None => Function::Mul(
                        Box::new(Function::Poly(c1)),
                        Box::new(Function::Poly(c2)),
                    ),
                }
            } else {
                Function::Mul(Box::new(Function::Poly(c1)), Box::new(Function::Poly(c2)))
            }
        },
        (g1, g2) => Function::Mul(Box::new(g1), Box::new(g2)),
    }
}

pub open spec fn fn_div_v(a: FuncV, b: FuncV) -> FuncV {
    match (a, b) {
        (FuncV::Const(c1), FuncV::Const(c2)) => match div_spec(c1, c2) {
            Some(c) => FuncV::Const(c),
            None => FuncV::Div(Box::new(FuncV::Const(c1)), Box::new(FuncV::Const(c2))),
        },
        (g, FuncV::Const(c2)) => if c2.num == c2.den {
            g
        } else {
            FuncV::Div(Box::new(g), Box::new(FuncV::Const(c2)))
        },
        (g1, g2) => FuncV::Div(Box::new(g1), Box::new(g2)),
    }
}

/// `f1 / f2`.  Folds constants (a zero divisor stays a `Div` node, whose
/// evaluation reports the error) and drops a unit divisor.
pub fn fn_div(f1: Function, f2: Function) -> (r: Function)
    requires
        wf_v(f1@),
        wf_v(f2@),
    ensures
        r@ == fn_div_v(f1@, f2@),
        wf_v(r@),
{
    proof {
        lemma_view_variant(f1);
        lemma_view_variant(f2);
    }
    match (f1, f2) {
        (Function::Const(c1), Function::Const(c2)) => match rat_div(c1, c2) {
            Some(c) => Function::Const(c),
            None => Function::Div(
                Box::new(Function::Const(c1)),
                Box::new(Function::Const(c2)),
            ),
        },
        (g, Function::Const(c2)) => {
            if c2.num == c2.den {
                g
            } else {
                Function::Div(Box::new(g), Box::new(Function::Const(c2)))
            }
        },
        (g1, g2) => Function::Div(Box::new(g1), Box::new(g2)),
    }
}

/// `sin(f)`.  A constant operand is kept symbolic: its sine has no exact
/// rational value.
pub fn fn_sin(f: Function) -> (r: Function)
    requires
        wf_v(f@),
    ensures
        r@ == FuncV::Sin(Box::new(f@)),
        wf_v(r@),
{
    Function::Sin(Box::new(f))
}

/// `cos(f)`, kept symbolic.
pub fn fn_cos(f: Function) -> (r: Function)
    requires
        wf_v(f@),
    ensures
        r@ == FuncV::Cos(Box::new(f@)),
        wf_v(r@),
{
    Function::Cos(Box::new(f))
}

/// `tan(f)`, kept symbolic.
pub fn fn_tan(f: Function) -> (r: Function)
    requires
        wf_v(f@),
    ensures
        r@ == FuncV::Tan(Box::new(f@)),
        wf_v(r@),
{
    Function::Tan(Box::new(f))
}

/// `exp(f)`, kept symbolic.
pub fn fn_exp(f: Function) -> (r: Function)
    requires
        wf_v(f@),
    ensures
        r@ == FuncV::Exp(Box::new(f@)),
        wf_v(r@),
{
    Function::Exp(Box::new(f))
}

/// `log(f)` (natural logarithm), kept symbolic.
pub fn fn_log(f: Function) -> (r: Function)
    requires
        wf_v(f@),
    ensures
        r@ == FuncV::Log(Box::new(f@)),
        wf_v(r@),
{
    Function::Log(Box::new(f))
}

/// `f1 + ... + fn` as an n-ary node; performs no simplification.
pub fn fn_sum(fs: Vec<Function>) -> (r: Function)
    requires
        funcs_wf(fs@),
    ensures
        r@ == FuncV::Sum(seq_view(fs@)),
        wf_v(r@),
{
    Function::Sum(fs)
}

/// `f1 * ... * fn` as an n-ary node; performs no simplification.
pub fn fn_prod(fs: Vec<Function>) -> (r: Function)
    requires
        funcs_wf(fs@),
    ensures
        r@ == FuncV::Prod(seq_view(fs@)),
        wf_v(r@),
{
    Function::Prod(fs)
}

pub open spec fn fn_powi_v(a: FuncV, n: int) -> FuncV {
    match a {
        FuncV::Const(c) => match powi_spec(c, n) {
            Some(v) => FuncV::Const(v),
            None => FuncV::PowI(Box::new(FuncV::Const(c)), n),
        },
        g => if n == 0 {
            FuncV::Const(rat_one())
        } else if n == 1 {
            g
        } else {
            FuncV::PowI(Box::new(g), n)
        },
    }
}

/// `f^n`.  Folds a constant base; `f^0` is `1` and `f^1` is `f`.
pub fn fn_powi(f: Function, n: i32) -> (r: Function)
    requires
        wf_v(f@),
    ensures
        r@ == fn_powi_v(f@, n as int),
        wf_v(r@),
{
    proof {
        lemma_view_variant(f);
    }
    match f {
        Function::Const(c) => match rat_powi(c, n) {
            Some(v) => Function::Const(v),
            None => Function::PowI(Box::new(Function::Const(c)), n),
        },
        g => {
            if n == 0 {
                Function::Const(one())
            } else if n == 1 {
                g
            } else {
                Function::PowI(Box::new(g), n)
            }
        },
    }
}

pub open spec fn poly_with_roots_v(rs: Seq<Rat>) -> FuncV
    decreases rs.len(),
{
    if rs.len() == 0 {
        FuncV::Const(rat_one())
    } else {
        fn_mul_v(
            poly_with_roots_v(rs.drop_last()),
            fn_poly_v(seq![neg_spec(rs.last()), rat_one()]),
        )
    }
}

/// The monic polynomial with the given roots: the product of `(x - r)`
/// over the roots, folded through `fn_mul`.
pub fn fn_poly_with_roots(roots: &Vec<Rat>) -> (r: Function)
    requires
        coeffs_wf(roots@),
    ensures
        r@ == poly_with_roots_v(roots@),
        wf_v(r@),
{
    let mut acc: Function = fn_const(one());
    let mut i: usize = 0;
    proof {
        assert(roots@.subrange(0, 0) =~= Seq::<Rat>::empty());
    }
    while i < roots.len()
        invariant
            i <= roots.len(),
            coeffs_wf(roots@),
            acc@ == poly_with_roots_v(roots@.subrange(0, i as int)),
            wf_v(acc@),
        decreases roots.len() - i,
    {
        let mut cs: Vec<Rat> = Vec::new();
        cs.push(rat_neg(roots[i]));
        cs.push(one());
        proof {
            assert(cs@ =~= seq![neg_spec(roots@[i as int]), rat_one()]);
            assert(roots@.subrange(0, i as int + 1).drop_last() =~= roots@.subrange(0, i as int));
            assert(roots@.subrange(0, i as int + 1).last() == roots@[i as int]);
        }
        let p = fn_poly(cs);
        acc = fn_mul(acc, p);
        i = i + 1;
    }
    proof {
        assert(roots@.subrange(0, roots@.len() as int) =~= roots@);
    }
    acc
}

// ------------------------------------------------------------------------
// Symbolic differentiation.

/// The derivative of `x_j^k` with respect to `x_x`, written out directly:
/// the closed result of applying the power and chain rules to that small
/// tree.
pub open spec fn pdv_xk_v(j: int, k: int, x: int) -> FuncV {
    if k == 0 {
        FuncV::Const(rat_zero())
    } else if k == 1 {
        if x == j {
            FuncV::Const(rat_one())
        } else {
            FuncV::Const(rat_zero())
        }
    } else {
        fn_mul_v(
            FuncV::Const(Rat { num: k as i128, den: 1 }),
            fn_mul_v(
                fn_powi_v(FuncV::Var(j), k - 1),
                if x == j {
                    FuncV::Const(rat_one())
                } else {
                    FuncV::Const(rat_zero())
                },
            ),
        )
    }
}

/// Elementwise differentiation of a sequence.
pub open spec fn pdv_seq_v(s: Seq<FuncV>, x: int) -> Seq<FuncV>
    decreases s,
{
    if s.len() == 0 {
        Seq::empty()
    } else {
        pdv_seq_v(s.drop_last(), x).push(pdv_v(s.last(), x))
    }
}

/// The first `m` summands of the generalized product rule:
/// summand `j` is `pdv(s[j]) * product(s with j removed)`.
pub open spec fn prod_pdv_terms_v(s: Seq<FuncV>, x: int, m: int) -> Seq<FuncV>
    decreases s, m,
    when 0 <= m <= s.len()
    via prod_pdv_terms_v_dec
{
    if m <= 0 {
        Seq::empty()
    } else {
        prod_pdv_terms_v(s, x, m - 1).push(
            fn_mul_v(pdv_v(s[m - 1], x), FuncV::Prod(s.remove(m - 1))),
        )
    }
}

#[via_fn]
proof fn prod_pdv_terms_v_dec(s: Seq<FuncV>, x: int, m: int) {
    if m > 0 {
        assert(decreases_to!(s => s[m - 1]));
    }
}

/// The first `m` terms of differentiating a polynomial with function
/// coefficients: term `k` is `pdv(f_k) * x_j^k + f_k * pdv(x_j^k)`.
pub open spec fn polyf_pdv_terms_v(s: Seq<FuncV>, j: int, x: int, m: int) -> Seq<FuncV>
    decreases s, m,
    when 0 <= m <= s.len()
    via polyf_pdv_terms_v_dec
{
    if m <= 0 {
        Seq::empty()
    } else {
        polyf_pdv_terms_v(s, j, x, m - 1).push(
            fn_add_v(
                fn_mul_v(pdv_v(s[m - 1], x), fn_powi_v(FuncV::Var(j), m - 1)),
                fn_mul_v(s[m - 1], pdv_xk_v(j, m - 1, x)),
            ),
        )
    }
}

#[via_fn]
proof fn polyf_pdv_terms_v_dec(s: Seq<FuncV>, j: int, x: int, m: int) {
    if m > 0 {
        assert(decreases_to!(s => s[m - 1]));
    }
}

/// Fallback summands for a polynomial whose folded derivative coefficients
/// do not fit: term `k` stays symbolic as `c_k * (k * x_0^(k-1))`.
pub open spec fn poly_pdv_fallback_v(cs: Seq<Rat>, m: int) -> Seq<FuncV>
    decreases m,
{
    if m <= 1 {
        Seq::empty()
    } else {
        poly_pdv_fallback_v(cs, m - 1).push(
            FuncV::Mul(
                Box::new(FuncV::Const(cs[m - 1])),
                Box::new(
                    FuncV::Mul(
                        Box::new(FuncV::Const(Rat { num: (m - 1) as i128, den: 1 })),
                        Box::new(FuncV::PowI(Box::new(FuncV::Var(0)), m - 2)),
                    ),
                ),
            ),
        )
    }
}

/// The partial derivative with respect to variable `x`: one structural
/// rule per variant, built from the simplifying constructors.
pub open spec fn pdv_v(e: FuncV, x: int) -> FuncV
    decreases e,
{
    match e {
        FuncV::Var(j) => if x == j {
            FuncV::Const(rat_one())
        } else {
            FuncV::Const(rat_zero())
        },
        FuncV::Const(_) => FuncV::Const(rat_zero()),
        FuncV::Add(f1, f2) => fn_add_v(pdv_v(*f1, x), pdv_v(*f2, x)),
        FuncV::Sub(f1, f2) => fn_sub_v(pdv_v(*f1, x), pdv_v(*f2, x)),
        FuncV::Neg(g) => fn_neg_v(pdv_v(*g, x)),
        FuncV::Mul(f1, f2) => fn_add_v(
            fn_mul_v(pdv_v(*f1, x), *f2),
            fn_mul_v(*f1, pdv_v(*f2, x)),
        ),
        FuncV::Div(f1, f2) => fn_div_v(
            fn_sub_v(fn_mul_v(pdv_v(*f1, x), *f2), fn_mul_v(*f1, pdv_v(*f2, x))),
            fn_mul_v(*f2, *f2),
        ),
        FuncV::Sin(g) => fn_mul_v(FuncV::Cos(Box::new(*g)), pdv_v(*g, x)),
        FuncV::Cos(g) => fn_mul_v(
            fn_sub_v(FuncV::Const(rat_zero()), FuncV::Sin(Box::new(*g))),
            pdv_v(*g, x),
        ),
        FuncV::Tan(g) => fn_mul_v(
            fn_div_v(FuncV::Const(rat_one()), fn_powi_v(FuncV::Cos(Box::new(*g)), 2)),
            pdv_v(*g, x),
        ),
        FuncV::Exp(g) => fn_mul_v(FuncV::Exp(Box::new(*g)), pdv_v(*g, x)),
        FuncV::Log(g) => fn_mul_v(fn_div_v(FuncV::Const(rat_one()), *g), pdv_v(*g, x)),
        FuncV::Sum(s) => FuncV::Sum(pdv_seq_v(s, x)),
        FuncV::Prod(s) => FuncV::Sum(prod_pdv_terms_v(s, x, s.len() as int)),
        FuncV::PowI(g, n) => if n == -0x8000_0000 {
            // the exponent below this one has no executable representation,
            // so the power rule keeps the quotient form n * (g^n / g) * g'
            fn_mul_v(
                FuncV::Const(Rat { num: n as i128, den: 1 }),
                fn_mul_v(
                    fn_div_v(FuncV::PowI(Box::new(*g), n), *g),
                    pdv_v(*g, x),
                ),
            )
        } else {
            fn_mul_v(
                FuncV::Const(Rat { num: n as i128, den: 1 }),
                fn_mul_v(fn_powi_v(*g, n - 1), pdv_v(*g, x)),
            )
        },
        FuncV::Poly(cs) => match crate::polynomial::deriv_spec(cs) {
            Some(d) => fn_poly_v(d),
            None => FuncV::Sum(poly_pdv_fallback_v(cs, cs.len() as int)),
        },
        FuncV::PolyF(s, j) => FuncV::Sum(polyf_pdv_terms_v(s, j, x, s.len() as int)),
    }
}

/// The derivative of `x_j^k` with respect to `x_x`, executable form.
fn pdv_xk(j: usize, k: usize, x: usize) -> (r: Function)
    requires
        k <= 0x7fff_ffff,
    ensures
        r@ == pdv_xk_v(j as int, k as int, x as int),
        wf_v(r@),
{
    if k == 0 {
        fn_const(zero())
    } else if k == 1 {
        if x == j {
            fn_const(one())
        } else {
            fn_const(zero())
        }
    } else {
        let kc: Rat = Rat { num: k as i128, den: 1 };
        let inner: Function = if x == j {
            fn_const(one())
        } else {
            fn_const(zero())
        };
        fn_mul(fn_const(kc), fn_mul(fn_powi(fn_var(j), (k as i32) - 1), inner))
    }
}

/// The elements of `fs` with element `j` removed, by structural copies.
fn clone_without(fs: &Vec<Function>, j: usize) -> (r: Vec<Function>)
    requires
        j < fs@.len(),
    ensures
        r@.len() == fs@.len() - 1,
        seq_view(r@) == seq_view(fs@).remove(j as int),
{
    let mut r: Vec<Function> = Vec::new();
    let mut i: usize = 0;
    while i < fs.len()
        invariant
            i <= fs@.len(),
            j < fs@.len(),
            r@.len() == if i <= j {
                i as int
            } else {
                i - 1
            },
            forall|m: int|
                0 <= m < r@.len() ==> #[trigger] r@[m]@ == (if m < j {
                    fs@[m]@
                } else {
                    fs@[m + 1]@
                }),
        decreases fs.len() - i,
    {
        if i != j {
            proof {
                assert(decreases_to!(fs@ => fs@[i as int]));
            }
            let c = fs[i].deep_copy();
            r.push(c);
        }
        i = i + 1;
    }
    proof {
        lemma_seq_view(r@);
        lemma_seq_view(fs@);
        assert forall|m: int| 0 <= m < seq_view(r@).len() implies seq_view(r@)[m] == seq_view(
            fs@,
        ).remove(j as int)[m] by {
            assert(seq_view(r@)[m] == r@[m]@);
            if m < j {
                assert(seq_view(fs@).remove(j as int)[m] == seq_view(fs@)[m]);
            } else {
                assert(seq_view(fs@).remove(j as int)[m] == seq_view(fs@)[m + 1]);
            }
        }
        assert(seq_view(r@) =~= seq_view(fs@).remove(j as int));
    }
    r
}

fn pdv_terms_sum(fs: &Vec<Function>, i: usize) -> (r: Vec<Function>)
    requires
        funcs_wf(fs@),
    ensures
        seq_view(r@) == pdv_seq_v(seq_view(fs@), i as int),
        funcs_wf(r@),
    decreases fs@,
{
    proof {
        lemma_seq_view(fs@);
        lemma_seq_wf_v(seq_view(fs@));
    }
    let mut terms: Vec<Function> = Vec::new();
    let mut k: usize = 0;
    while k < fs.len()
        invariant
            k <= fs@.len(),
            funcs_wf(fs@),
            seq_view(fs@).len() == fs@.len(),
            forall|m: int| 0 <= m < fs@.len() ==> seq_view(fs@)[m] == #[trigger] fs@[m]@,
            forall|m: int|
                0 <= m < seq_view(fs@).len() ==> wf_v(#[trigger] seq_view(fs@)[m]),
            seq_view(terms@) == pdv_seq_v(seq_view(fs@).subrange(0, k as int), i as int),
            funcs_wf(terms@),
        decreases fs@.len() - k,
    {
        proof {
            assert(decreases_to!(fs@ => fs@[k as int]));
            assert(seq_view(fs@).subrange(0, k as int + 1).drop_last() =~= seq_view(
                fs@,
            ).subrange(0, k as int));
            assert(seq_view(fs@).subrange(0, k as int + 1).last() == fs@[k as int]@);
        }
        let d = fn_pdv(&fs[k], i);
        proof {
            lemma_seq_view_push(terms@, d);
            lemma_seq_wf_push(seq_view(terms@), d@);
        }
        terms.push(d);
        k = k + 1;
    }
    proof {
        assert(seq_view(fs@).subrange(0, seq_view(fs@).len() as int) =~= seq_view(fs@));
    }
    terms
}

fn pdv_terms_prod(fs: &Vec<Function>, i: usize) -> (r: Vec<Function>)
    requires
        funcs_wf(fs@),
    ensures
        seq_view(r@) == prod_pdv_terms_v(seq_view(fs@), i as int, fs@.len() as int),
        funcs_wf(r@),
    decreases fs@,
{
    proof {
        lemma_seq_view(fs@);
        lemma_seq_wf_v(seq_view(fs@));
    }
    let mut terms: Vec<Function> = Vec::new();
    let mut k: usize = 0;
    while k < fs.len()
        invariant
            k <= fs@.len(),
            funcs_wf(fs@),
            seq_view(fs@).len() == fs@.len(),
            forall|m: int| 0 <= m < fs@.len() ==> seq_view(fs@)[m] == #[trigger] fs@[m]@,
            forall|m: int|
                0 <= m < seq_view(fs@).len() ==> wf_v(#[trigger] seq_view(fs@)[m]),
            seq_view(terms@) == prod_pdv_terms_v(seq_view(fs@), i as int, k as int),
            funcs_wf(terms@),
        decreases fs@.len() - k,
    {
        proof {
            assert(decreases_to!(fs@ => fs@[k as int]));
        }
        let d = fn_pdv(&fs[k], i);
        let factors = clone_without(fs, k);
        proof {
            assert forall|m: int| 0 <= m < seq_view(fs@).remove(k as int).len() implies wf_v(
                #[trigger] seq_view(fs@).remove(k as int)[m],
            ) by {
                if m < k {
                    assert(seq_view(fs@).remove(k as int)[m] == seq_view(fs@)[m]);
                } else {
                    assert(seq_view(fs@).remove(k as int)[m] == seq_view(fs@)[m + 1]);
                }
            }
            lemma_seq_wf_v(seq_view(fs@).remove(k as int));
        }
        let t = fn_mul(d, fn_prod(factors));
        proof {
            lemma_seq_view_push(terms@, t);
            lemma_seq_wf_push(seq_view(terms@), t@);
        }
        terms.push(t);
        k = k + 1;
    }
    terms
}

fn pdv_terms_polyf(fs: &Vec<Function>, j: usize, i: usize) -> (r: Vec<Function>)
    requires
        funcs_wf(fs@),
        fs@.len() <= 0x7fff_ffff,
    ensures
        seq_view(r@) == polyf_pdv_terms_v(seq_view(fs@), j as int, i as int, fs@.len() as int),
        funcs_wf(r@),
    decreases fs@,
{
    proof {
        lemma_seq_view(fs@);
        lemma_seq_wf_v(seq_view(fs@));
    }
    let mut terms: Vec<Function> = Vec::new();
    let mut k: usize = 0;
    while k < fs.len()
        invariant
            k <= fs@.len(),
            fs@.len() <= 0x7fff_ffff,
            funcs_wf(fs@),
            seq_view(fs@).len() == fs@.len(),
            forall|m: int| 0 <= m < fs@.len() ==> seq_view(fs@)[m] == #[trigger] fs@[m]@,
            forall|m: int|
                0 <= m < seq_view(fs@).len() ==> wf_v(#[trigger] seq_view(fs@)[m]),
            seq_view(terms@) == polyf_pdv_terms_v(seq_view(fs@), j as int, i as int, k as int),
            funcs_wf(terms@),
        decreases fs@.len() - k,
    {
        proof {
            assert(decreases_to!(fs@ => fs@[k as int]));
        }
        let df = fn_pdv(&fs[k], i);
        let xk_pow = fn_powi(fn_var(j), k as i32);
        let dxk = pdv_xk(j, k, i);
        let fk = fs[k].deep_copy();
        let t = fn_add(fn_mul(df, xk_pow), fn_mul(fk, dxk));
        proof {
            lemma_seq_view_push(terms@, t);
            lemma_seq_wf_push(seq_view(terms@), t@);
        }
        terms.push(t);
        k = k + 1;
    }
    terms
}

fn pdv_poly_fallback(cs: &Vec<Rat>) -> (r: Vec<Function>)
    requires
        coeffs_wf(cs@),
        cs@.len() <= 0x7fff_ffff,
    ensures
        seq_view(r@) == poly_pdv_fallback_v(cs@, cs@.len() as int),
        funcs_wf(r@),
{
    let mut terms: Vec<Function> = Vec::new();
    let mut k: usize = 1;
    while k < cs.len()
        invariant
            1 <= k <= cs@.len() || (cs@.len() <= 1 && k == 1),
            cs@.len() <= 0x7fff_ffff,
            coeffs_wf(cs@),
            seq_view(terms@) == poly_pdv_fallback_v(cs@, k as int),
            funcs_wf(terms@),
        decreases cs.len() - k,
    {
        let v0 = Function::Var(0);
        proof {
            assert(v0@ == FuncV::Var(0));
        }
        let xp = Function::PowI(Box::new(v0), (k as i32) - 1);
        let kc = Function::Const(Rat { num: k as i128, den: 1 });
        proof {
            assert(xp@ == FuncV::PowI(Box::new(FuncV::Var(0)), k as int - 1));
            assert(kc@ == FuncV::Const(Rat { num: k as i128, den: 1 }));
        }
        let inner = Function::Mul(Box::new(kc), Box::new(xp));
        let ck = Function::Const(cs[k]);
        proof {
            assert(inner@ == FuncV::Mul(Box::new(kc@), Box::new(xp@)));
            assert(ck@ == FuncV::Const(cs@[k as int]));
        }
        let t = Function::Mul(Box::new(ck), Box::new(inner));
        proof {
            assert(t@ == FuncV::Mul(Box::new(ck@), Box::new(inner@)));
            assert(cs@[k as int].wf());
            assert(wf_v(FuncV::Var(0)));
            assert(wf_v(xp@));
            assert(wf_v(kc@));
            assert(wf_v(inner@));
            assert(wf_v(ck@));
            assert(wf_v(t@));
            lemma_seq_view_push(terms@, t);
            lemma_seq_wf_push(seq_view(terms@), t@);
        }
        terms.push(t);
        k = k + 1;
    }
    terms
}

/// The partial derivative of `f` with respect to the `i`-th variable:
/// a total structural recursion producing a brand-new tree, one rule per
/// variant, folded through the simplifying constructors.
#[verifier::rlimit(100)]
pub fn fn_pdv(f: &Function, i: usize) -> (r: Function)
    requires
        wf_v(f@),
    ensures
        r@ == pdv_v(f@, i as int),
        wf_v(r@),
    decreases *f,
{
    match f {
        Function::Var(j) => {
            if i == *j {
                fn_const(one())
            } else {
                fn_const(zero())
            }
        },
        Function::Const(_) => fn_const(zero()),
        Function::Add(f1, f2) => fn_add(fn_pdv(f1, i), fn_pdv(f2, i)),
        Function::Sub(f1, f2) => fn_sub(fn_pdv(f1, i), fn_pdv(f2, i)),
        Function::Neg(g) => fn_neg(fn_pdv(g, i)),
        Function::Mul(f1, f2) => fn_add(
            fn_mul(fn_pdv(f1, i), f2.deep_copy()),
            fn_mul(f1.deep_copy(), fn_pdv(f2, i)),
        ),
        Function::Div(f1, f2) => fn_div(
            fn_sub(
                fn_mul(fn_pdv(f1, i), f2.deep_copy()),
                fn_mul(f1.deep_copy(), fn_pdv(f2, i)),
            ),
            fn_mul(f2.deep_copy(), f2.deep_copy()),
        ),
        Function::Sin(g) => fn_mul(fn_cos(g.deep_copy()), fn_pdv(g, i)),
        Function::Cos(g) => fn_mul(fn_sub(fn_const(zero()), fn_sin(g.deep_copy())), fn_pdv(g, i)),
        Function::Tan(g) => fn_mul(
            fn_div(fn_const(one()), fn_powi(fn_cos(g.deep_copy()), 2)),
            fn_pdv(g, i),
        ),
        Function::Exp(g) => fn_mul(fn_exp(g.deep_copy()), fn_pdv(g, i)),
        Function::Log(g) => fn_mul(fn_div(fn_const(one()), g.deep_copy()), fn_pdv(g, i)),
        Function::Sum(fs) => fn_sum(pdv_terms_sum(fs, i)),
        Function::Prod(fs) => {
            proof {
                lemma_seq_view(fs@);
            }
            fn_sum(pdv_terms_prod(fs, i))
        },
        Function::PowI(g, n) => {
            if *n == i32::MIN {
                // the exponent below this one has no executable
                // representation, so keep the quotient form n * (g^n / g) * g'
                let gc = g.deep_copy();
                let pnode = Function::PowI(Box::new(gc), *n);
                proof {
                    assert(pnode@ == FuncV::PowI(Box::new(g@), *n as int));
                }
                fn_mul(
                    fn_const(Rat { num: *n as i128, den: 1 }),
                    fn_mul(fn_div(pnode, g.deep_copy()), fn_pdv(g, i)),
                )
            } else {
                fn_mul(
                    fn_const(Rat { num: *n as i128, den: 1 }),
                    fn_mul(fn_powi(g.deep_copy(), *n - 1), fn_pdv(g, i)),
                )
            }
        },
        Function::Poly(cs) => {
            match crate::polynomial::poly_derivative(cs) {
                Some(d) => fn_poly(d),
                None => fn_sum(pdv_poly_fallback(cs)),
            }
        },
        Function::PolyF(fs, j) => {
            proof {
                lemma_seq_view(fs@);
            }
            fn_sum(pdv_terms_polyf(fs, *j, i))
        },
    }
}

} // verus!
