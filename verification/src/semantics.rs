//! The meaning of evaluation, over the views of expressions.
//!
//! `eval_v(fuel, e, env)` is `Some(v)` when evaluating `e` in `env` finishes
//! with `v` without a panic, in a run whose nesting of evaluations is less than
//! `fuel` deep; it is `None` when that run panics or needs more depth.
use vstd::prelude::*;
use crate::expr::{ExprV, PatternV, ProblemV, Operator};
use crate::render::render_v;

verus! {

/// What a scope binds.
pub type Env = Map<Seq<char>, ExprV>;

/// `True` or `False`, as variants without contents.
pub open spec fn bool_v(b: bool) -> ExprV {
    if b {
        ExprV::ApplyVariant("True"@, None)
    } else {
        ExprV::ApplyVariant("False"@, None)
    }
}

/// The value bound to `name`, or the problem that it is unbound.
pub open spec fn lookup_v(env: Env, name: Seq<char>) -> ExprV {
    if env.dom().contains(name) {
        env[name]
    } else {
        ExprV::Error(ProblemV::UnrecognizedVarName(name))
    }
}

pub open spec fn eq_mismatch_msg() -> Seq<char> {
    "tried to use == on two values with incompatible types"@
}

pub open spec fn non_bool_msg() -> Seq<char> {
    "non-Bool used in `if` condition"@
}

pub open spec fn non_function_msg(f: ExprV) -> Seq<char> {
    "Tried to call a non-function: "@ + render_v(f)
}

pub open spec fn wanted_msg(v: ExprV) -> Seq<char> {
    "Wanted a `{}`, but was given `"@ + render_v(v) + "`."@
}

pub open spec fn variant_msg(wanted: Seq<char>, given: Seq<char>) -> Seq<char> {
    "Wanted a `"@ + wanted + "` variant, but was given a `"@ + given + "` variant."@
}

pub open spec fn non_variant_msg(wanted: Seq<char>) -> Seq<char> {
    "Wanted to destructure a `"@ + wanted + "` variant, but was given a non-variant."@
}

/// `==` on two evaluated expressions; `None` where it panics (two fractions).
pub open spec fn eq_v(a: ExprV, b: ExprV) -> Option<ExprV> {
    match (a, b) {
        (ExprV::Closure(_, _), ExprV::Closure(_, _)) => Some(bool_v(true)),
        (ExprV::ApplyVariant(l, None), ExprV::ApplyVariant(r, None)) => Some(bool_v(l == r)),
        (ExprV::ApplyVariant(l, Some(la)), ExprV::ApplyVariant(r, Some(ra))) => Some(
            bool_v(l == r && la.len() == ra.len()),
        ),
        (ExprV::ApplyVariant(_, None), ExprV::ApplyVariant(_, Some(_))) => Some(bool_v(false)),
        (ExprV::ApplyVariant(_, Some(_)), ExprV::ApplyVariant(_, None)) => Some(bool_v(false)),
        (ExprV::Int(l), ExprV::Int(r)) => Some(bool_v(l == r)),
        (ExprV::Str(l), ExprV::Str(r)) => Some(bool_v(l == r)),
        (ExprV::Char(l), ExprV::Char(r)) => Some(bool_v(l == r)),
        (ExprV::Frac(_, _), ExprV::Frac(_, _)) => None,
        _ => Some(ExprV::Error(ProblemV::TypeMismatch(eq_mismatch_msg()))),
    }
}

/// Integer arithmetic of the operator; `None` where it overflows or divides by zero.
pub open spec fn arith_v(l: i64, op: Operator, r: i64) -> Option<i64> {
    match op {
        Operator::Plus => l.checked_add(r),
        Operator::Minus => l.checked_sub(r),
        Operator::Star => l.checked_mul(r),
        Operator::Slash => l.checked_div(r),
        Operator::DoubleSlash => l.checked_div(r),
        Operator::Equals => None,
    }
}

/// An operator applied to its two evaluated operands; `None` where it panics.
pub open spec fn operator_v(l: ExprV, op: Operator, r: ExprV) -> Option<ExprV> {
    if l is Error {
        Some(l)
    } else if r is Error {
        Some(r)
    } else if op == Operator::Equals {
        eq_v(l, r)
    } else {
        match (l, r) {
            (ExprV::Int(a), ExprV::Int(b)) => match arith_v(a, op, b) {
                Some(n) => Some(ExprV::Int(n)),
                None => None,
            },
            _ => None,
        }
    }
}

/// The text of an interpolated string's pairs, or the problem with the first
/// pair whose variable is unbound or not bound to a string.
pub open spec fn interp_v(pairs: Seq<(Seq<char>, Seq<char>)>, env: Env) -> Result<Seq<char>, ProblemV>
    decreases pairs.len(),
{
    if pairs.len() == 0 {
        Ok(Seq::empty())
    } else {
        let (text, var) = pairs[pairs.len() - 1];
        match interp_v(pairs.subrange(0, pairs.len() - 1), env) {
            Err(p) => Err(p),
            Ok(out) => if env.dom().contains(var) {
                match env[var] {
                    ExprV::Str(s) => Ok(out + text + s),
                    _ => Err(ProblemV::TypeMismatch(var)),
                }
            } else {
                Err(ProblemV::UnrecognizedVarName(var))
            },
        }
    }
}

/// Matching an evaluated expression against a pattern: the scope afterwards and
/// whether it matched. `None` where it panics (a fraction against a fraction pattern).
pub open spec fn match_v(v: ExprV, p: PatternV, env: Env) -> Option<(Env, Result<(), ProblemV>)>
    decreases p,
{
    match p {
        PatternV::Identifier(name) => Some((env.insert(name, v), Ok(()))),
        PatternV::Underscore => Some((env, Ok(()))),
        PatternV::EmptyRecord => match v {
            ExprV::EmptyRecord => Some((env, Ok(()))),
            _ => Some((env, Err(ProblemV::TypeMismatch(wanted_msg(v))))),
        },
        PatternV::Integer(n) => match v {
            ExprV::Int(m) => if n == m {
                Some((env, Ok(())))
            } else {
                Some((env, Err(ProblemV::NotEqual)))
            },
            _ => Some((env, Err(ProblemV::TypeMismatch(wanted_msg(v))))),
        },
        PatternV::Fraction(_, _) => match v {
            ExprV::Frac(_, _) => None,
            _ => Some((env, Err(ProblemV::TypeMismatch(wanted_msg(v))))),
        },
        PatternV::Variant(wanted, opt_pats) => match v {
            ExprV::ApplyVariant(given, opt_vals) => if wanted != given {
                Some((env, Err(ProblemV::TypeMismatch(variant_msg(wanted, given)))))
            } else {
                match (opt_pats, opt_vals) {
                    (Some(pats), Some(vals)) => if pats.len() == vals.len() {
                        match_seq_v(vals, pats, env)
                    } else {
                        Some((env, Err(ProblemV::WrongArity(pats.len() as u32, vals.len() as u32))))
                    },
                    (None, None) => Some((env, Ok(()))),
                    (None, Some(vals)) => Some((env, Err(ProblemV::WrongArity(vals.len() as u32, 0)))),
                    (Some(pats), None) => Some((env, Err(ProblemV::WrongArity(0, pats.len() as u32)))),
                }
            },
            _ => Some((env, Err(ProblemV::TypeMismatch(non_variant_msg(wanted))))),
        },
    }
}

/// Matching values against patterns pairwise, in order, stopping at the first
/// failure (for sequences of the same length).
pub open spec fn match_seq_v(vals: Seq<ExprV>, pats: Seq<PatternV>, env: Env) -> Option<(Env, Result<(), ProblemV>)>
    decreases pats,
{
    if pats.len() == 0 {
        Some((env, Ok(())))
    } else {
        match match_seq_v(vals.subrange(0, vals.len() - 1), pats.subrange(0, pats.len() - 1), env) {
            None => None,
            Some((env2, Err(p))) => Some((env2, Err(p))),
            Some((env2, Ok(()))) => match_v(vals[vals.len() - 1], pats[pats.len() - 1], env2),
        }
    }
}

/// Evaluation of `e` in `env` (see the module's documentation).
pub open spec fn eval_v(fuel: nat, e: ExprV, env: Env) -> Option<ExprV>
    decreases fuel, 0nat, 0nat,
{
    if fuel == 0 {
        None
    } else {
        let f = (fuel - 1) as nat;
        match e {
            ExprV::Error(_) => Some(e),
            ExprV::Int(_) => Some(e),
            ExprV::EmptyStr => Some(e),
            ExprV::Str(_) => Some(e),
            ExprV::Frac(_, _) => Some(e),
            ExprV::Char(_) => Some(e),
            ExprV::Closure(_, _) => Some(e),
            ExprV::EmptyRecord => Some(e),
            ExprV::Var(name) => Some(lookup_v(env, name)),
            ExprV::InterpolatedStr(pairs, trailing) => match interp_v(pairs, env) {
                Ok(out) => Some(ExprV::Str(out + trailing)),
                Err(p) => Some(ExprV::Error(p)),
            },
            ExprV::Assign(pat, defn, body) => match pat {
                PatternV::Identifier(name) => if env.dom().contains(name) {
                    Some(ExprV::Error(ProblemV::ReassignedVarName(name)))
                } else {
                    match eval_v(f, *defn, env) {
                        None => None,
                        Some(d) => eval_v(f, *body, env.insert(name, d)),
                    }
                },
                PatternV::Underscore => match eval_v(f, *defn, env) {
                    None => None,
                    Some(_) => eval_v(f, *body, env),
                },
                PatternV::EmptyRecord => match eval_v(f, *defn, env) {
                    None => None,
                    Some(_) => eval_v(f, *body, env),
                },
                _ => None,
            },
            ExprV::CallByName(name, args) => apply_v(f, lookup_v(env, name), args, env),
            ExprV::ApplyVariant(_, None) => Some(e),
            ExprV::ApplyVariant(name, Some(args)) => match eval_seq_v(f, args, env) {
                None => None,
                Some(vals) => Some(ExprV::ApplyVariant(name, Some(vals))),
            },
            ExprV::Apply(func, args) => match eval_v(f, *func, env) {
                None => None,
                Some(fv) => apply_v(f, fv, args, env),
            },
            ExprV::Case(cond, branches) => match eval_v(f, *cond, env) {
                None => None,
                Some(cv) => case_v(f, cv, branches, env),
            },
            ExprV::Operator(l, op, r) => match eval_v(f, *l, env) {
                None => None,
                Some(lv) => match eval_v(f, *r, env) {
                    None => None,
                    Some(rv) => operator_v(lv, op, rv),
                },
            },
            ExprV::If(cond, if_true, if_false) => match eval_v(f, *cond, env) {
                None => None,
                Some(cv) => match cv {
                    ExprV::ApplyVariant(name, None) => if name == "True"@ {
                        eval_v(f, *if_true, env)
                    } else if name == "False"@ {
                        eval_v(f, *if_false, env)
                    } else {
                        Some(ExprV::Error(ProblemV::TypeMismatch(non_bool_msg())))
                    },
                    _ => Some(ExprV::Error(ProblemV::TypeMismatch(non_bool_msg()))),
                },
            },
        }
    }
}

/// Evaluation of each expression, in order.
pub open spec fn eval_seq_v(fuel: nat, args: Seq<ExprV>, env: Env) -> Option<Seq<ExprV>>
    decreases fuel, 1nat, args.len(),
{
    if args.len() == 0 {
        Some(Seq::empty())
    } else {
        match eval_seq_v(fuel, args.subrange(0, args.len() - 1), env) {
            None => None,
            Some(vals) => match eval_v(fuel, args[args.len() - 1], env) {
                None => None,
                Some(v) => Some(vals.push(v)),
            },
        }
    }
}

/// Binding a closure's parameters to the evaluated arguments, in the caller's
/// scope: the scope for its body, or the problem; `None` where matching panics.
pub open spec fn bind_v(vals: Seq<ExprV>, pats: Seq<PatternV>, env: Env) -> Option<Result<Env, ProblemV>> {
    if pats.len() == vals.len() {
        match match_seq_v(vals, pats, env) {
            None => None,
            Some((env2, Ok(()))) => Some(Ok(env2)),
            Some((_, Err(p))) => Some(Err(p)),
        }
    } else {
        Some(Err(ProblemV::WrongArity(pats.len() as u32, vals.len() as u32)))
    }
}

/// A call of the evaluated function `func` on `args`: a closure evaluates the
/// arguments, binds its parameters in the caller's scope and evaluates its body there.
pub open spec fn apply_v(fuel: nat, func: ExprV, args: Seq<ExprV>, env: Env) -> Option<ExprV>
    decreases fuel, 2nat, 0nat,
{
    match func {
        ExprV::Closure(pats, body) => match eval_seq_v(fuel, args, env) {
            None => None,
            Some(vals) => match bind_v(vals, pats, env) {
                None => None,
                Some(Ok(env2)) => eval_v(fuel, *body, env2),
                Some(Err(p)) => Some(ExprV::Error(p)),
            },
        },
        _ => Some(ExprV::Error(ProblemV::TypeMismatch(non_function_msg(func)))),
    }
}

/// The first branch whose pattern matches `cond` is evaluated in the scope
/// that the match made.
pub open spec fn case_v(fuel: nat, cond: ExprV, branches: Seq<(PatternV, ExprV)>, env: Env) -> Option<ExprV>
    decreases fuel, 1nat, branches.len(),
{
    if branches.len() == 0 {
        Some(ExprV::Error(ProblemV::NoBranchesMatched))
    } else {
        match match_v(cond, branches[0].0, env) {
            None => None,
            Some((env2, Ok(()))) => eval_v(fuel, branches[0].1, env2),
            Some((_, Err(_))) => case_v(fuel, cond, branches.subrange(1, branches.len() as int), env),
        }
    }
}

/// Evaluation of `e` in `env` finishes without a panic.
pub open spec fn evaluates(e: ExprV, env: Env) -> bool {
    exists|fuel: nat| #[trigger] eval_v(fuel, e, env) is Some
}

/// What evaluation of `e` in `env` gives, where it finishes without a panic.
pub open spec fn result_v(e: ExprV, env: Env) -> ExprV {
    eval_v(choose|fuel: nat| #[trigger] eval_v(fuel, e, env) is Some, e, env)->0
}

/// Matching a prefix: where the whole sequence matches without a panic, so does
/// every prefix; and a failure of a prefix is the failure of the whole.
pub proof fn lemma_match_seq_prefix(vals: Seq<ExprV>, pats: Seq<PatternV>, env: Env, k: int)
    requires
        vals.len() == pats.len(),
        0 <= k <= pats.len(),
    ensures
        match_seq_v(vals, pats, env) is Some ==> match_seq_v(vals.subrange(0, k), pats.subrange(0, k), env) is Some,
        match_seq_v(vals.subrange(0, k), pats.subrange(0, k), env) matches Some((e, Err(p))) ==> match_seq_v(vals, pats, env) == match_seq_v(vals.subrange(0, k), pats.subrange(0, k), env),
    decreases pats.len(),
{
    let n = pats.len() as int;
    if k == n {
        assert(vals.subrange(0, k) =~= vals);
        assert(pats.subrange(0, k) =~= pats);
    } else {
        let vp = vals.subrange(0, n - 1);
        let pp = pats.subrange(0, n - 1);
        lemma_match_seq_prefix(vp, pp, env, k);
        assert(vp.subrange(0, k) =~= vals.subrange(0, k));
        assert(pp.subrange(0, k) =~= pats.subrange(0, k));
    }
}

/// One more step of matching a prefix.
pub proof fn lemma_match_seq_step(vals: Seq<ExprV>, pats: Seq<PatternV>, env: Env, k: int)
    requires
        vals.len() == pats.len(),
        0 <= k < pats.len(),
    ensures
        match_seq_v(vals.subrange(0, k + 1), pats.subrange(0, k + 1), env) == (
        match match_seq_v(vals.subrange(0, k), pats.subrange(0, k), env) {
            None => None,
            Some((env2, Err(p))) => Some((env2, Err(p))),
            Some((env2, Ok(()))) => match_v(vals[k], pats[k], env2),
        }),
{
    let vs = vals.subrange(0, k + 1);
    let ps = pats.subrange(0, k + 1);
    assert(vs.subrange(0, k) =~= vals.subrange(0, k));
    assert(ps.subrange(0, k) =~= pats.subrange(0, k));
}

/// Evaluating a prefix of a sequence: where the whole evaluates without a panic,
/// so does every prefix.
pub proof fn lemma_eval_seq_prefix(fuel: nat, args: Seq<ExprV>, env: Env, k: int)
    requires
        0 <= k <= args.len(),
    ensures
        eval_seq_v(fuel, args, env) is Some ==> eval_seq_v(fuel, args.subrange(0, k), env) is Some,
    decreases args.len(),
{
    let n = args.len() as int;
    if k == n {
        assert(args.subrange(0, k) =~= args);
    } else {
        let p = args.subrange(0, n - 1);
        lemma_eval_seq_prefix(fuel, p, env, k);
        assert(p.subrange(0, k) =~= args.subrange(0, k));
    }
}

/// One more step of evaluating a prefix.
pub proof fn lemma_eval_seq_step(fuel: nat, args: Seq<ExprV>, env: Env, k: int)
    requires
        0 <= k < args.len(),
    ensures
        eval_seq_v(fuel, args.subrange(0, k + 1), env) == (
        match eval_seq_v(fuel, args.subrange(0, k), env) {
            None => None,
            Some(vals) => match eval_v(fuel, args[k], env) {
                None => None,
                Some(v) => Some(vals.push(v)),
            },
        }),
{
    let s = args.subrange(0, k + 1);
    assert(s.subrange(0, k) =~= args.subrange(0, k));
}

/// A problem with a prefix of an interpolated string's pairs is the problem of the whole.
pub proof fn lemma_interp_prefix(pairs: Seq<(Seq<char>, Seq<char>)>, env: Env, k: int)
    requires
        0 <= k <= pairs.len(),
    ensures
        interp_v(pairs.subrange(0, k), env) is Err ==> interp_v(pairs, env) == interp_v(pairs.subrange(0, k), env),
    decreases pairs.len(),
{
    let n = pairs.len() as int;
    if k == n {
        assert(pairs.subrange(0, k) =~= pairs);
    } else {
        let p = pairs.subrange(0, n - 1);
        lemma_interp_prefix(p, env, k);
        assert(p.subrange(0, k) =~= pairs.subrange(0, k));
    }
}

/// One more step of an interpolated string's pairs.
pub proof fn lemma_interp_step(pairs: Seq<(Seq<char>, Seq<char>)>, env: Env, k: int)
    requires
        0 <= k < pairs.len(),
    ensures
        interp_v(pairs.subrange(0, k + 1), env) == (
        match interp_v(pairs.subrange(0, k), env) {
            Err(p) => Err(p),
            Ok(out) => if env.dom().contains(pairs[k].1) {
                match env[pairs[k].1] {
                    ExprV::Str(s) => Ok(out + pairs[k].0 + s),
                    _ => Err(ProblemV::TypeMismatch(pairs[k].1)),
                }
            } else {
                Err(ProblemV::UnrecognizedVarName(pairs[k].1))
            },
        }),
{
    let s = pairs.subrange(0, k + 1);
    assert(s.subrange(0, k) =~= pairs.subrange(0, k));
}

/// Trying the branches from the `i`-th on.
pub proof fn lemma_case_step(fuel: nat, cond: ExprV, branches: Seq<(PatternV, ExprV)>, env: Env, i: int)
    requires
        0 <= i < branches.len(),
    ensures
        case_v(fuel, cond, branches.subrange(i, branches.len() as int), env) == (
        match match_v(cond, branches[i].0, env) {
            None => None,
            Some((env2, Ok(()))) => eval_v(fuel, branches[i].1, env2),
            Some((_, Err(_))) => case_v(fuel, cond, branches.subrange(i + 1, branches.len() as int), env),
        }),
{
    let s = branches.subrange(i, branches.len() as int);
    assert(s.subrange(1, s.len() as int) =~= branches.subrange(i + 1, branches.len() as int));
    assert(s[0] == branches[i]);
}

} // verus!
