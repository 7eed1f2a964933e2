//! Evaluation of expressions.
use vstd::prelude::*;
use vstd::string::StringExecFns;
use crate::expr::{Expr, ExprV, Operator, Pattern, Problem, ProblemV, exprs_dv, patterns_dv, branches_dv, pairs_dv, lemma_exprs_dv, lemma_patterns_dv, lemma_branches_dv};
use crate::patterns::{Patterns, pattern_items, Branches, branch_items};
use crate::render::render_into;
use crate::scope::{Scope, scope_contents, scope_insert, scope_get, scope_contains, scope_clone, empty_env};
use crate::semantics::{
    Env, bool_v, eq_v, operator_v, match_v, match_seq_v, wanted_msg, variant_msg, non_variant_msg,
    bind_v, eval_v, eval_seq_v, apply_v, case_v, interp_v,
    evaluates, result_v, lemma_match_seq_prefix, lemma_match_seq_step, lemma_eval_seq_prefix,
    lemma_eval_seq_step, lemma_interp_prefix, lemma_interp_step, lemma_case_step,
};

verus! {

/// Wrapper indicating the expression has been evaluated.
#[derive(Debug, PartialEq)]
pub enum Evaluated {
    Evaluated(Expr),
}

impl Evaluated {
    pub open spec fn dv(self) -> ExprV {
        match self {
            Evaluated::Evaluated(e) => e.dv(),
        }
    }
}

fn problem(prob: Problem) -> (r: Evaluated)
    ensures
        r.dv() == ExprV::Error(prob.dv()),
{
    Evaluated::Evaluated(Expr::Error(prob))
}

fn literal(s: &str) -> (r: String)
    ensures
        r@ == s@,
{
    <String as StringExecFns>::from_str(s)
}

fn bool_variant(is_true: bool) -> (r: Expr)
    ensures
        r.dv() == bool_v(is_true),
{
    if is_true {
        Expr::ApplyVariant(literal("True"), None)
    } else {
        Expr::ApplyVariant(literal("False"), None)
    }
}

fn eq(expr1: &Expr, expr2: &Expr) -> (r: Expr)
    requires
        eq_v(expr1.dv(), expr2.dv()) is Some,
    ensures
        eq_v(expr1.dv(), expr2.dv()) == Some(r.dv()),
{
    match (expr1, expr2) {
        // All functions are defined as equal
        (Expr::Closure(_, _), Expr::Closure(_, _)) => bool_variant(true),
        (Expr::ApplyVariant(left, None), Expr::ApplyVariant(right, None)) => {
            bool_variant(*left == *right)
        },
        (Expr::ApplyVariant(left, Some(left_args)), Expr::ApplyVariant(right, Some(right_args))) => {
            proof {
                crate::expr::lemma_exprs_dv(left_args@);
                crate::expr::lemma_exprs_dv(right_args@);
            }
            bool_variant(*left == *right && left_args.len() == right_args.len())
        },
        (Expr::ApplyVariant(_, None), Expr::ApplyVariant(_, Some(_))) => bool_variant(false),
        (Expr::ApplyVariant(_, Some(_)), Expr::ApplyVariant(_, None)) => bool_variant(false),
        (Expr::Int(left), Expr::Int(right)) => bool_variant(*left == *right),
        (Expr::Str(left), Expr::Str(right)) => bool_variant(*left == *right),
        (Expr::Char(left), Expr::Char(right)) => bool_variant(*left == *right),
        (Expr::Frac(_, _), Expr::Frac(_, _)) => {
            // `==` on fractions panics: the precondition leaves it out.
            proof {
                assert(false);
            }
            bool_variant(false)
        },
        (_, _) => Expr::Error(
            Problem::TypeMismatch(literal("tried to use == on two values with incompatible types")),
        ),
    }
}

fn eval_operator(left: &Evaluated, op: Operator, right: &Evaluated) -> (r: Evaluated)
    requires
        operator_v(left.dv(), op, right.dv()) is Some,
    ensures
        operator_v(left.dv(), op, right.dv()) == Some(r.dv()),
{
    let Evaluated::Evaluated(left_expr) = left;
    let Evaluated::Evaluated(right_expr) = right;
    if let Expr::Error(prob) = left_expr {
        return problem(prob.copy());
    }
    if let Expr::Error(prob) = right_expr {
        return problem(prob.copy());
    }
    if op == Operator::Equals {
        return Evaluated::Evaluated(eq(left_expr, right_expr));
    }
    match (left_expr, right_expr) {
        (Expr::Int(left_num), Expr::Int(right_num)) => {
            let result = match op {
                Operator::Plus => left_num.checked_add(*right_num),
                Operator::Minus => left_num.checked_sub(*right_num),
                Operator::Star => left_num.checked_mul(*right_num),
                Operator::Slash => left_num.checked_div(*right_num),
                Operator::DoubleSlash => left_num.checked_div(*right_num),
                Operator::Equals => None,
            };
            match result {
                Some(n) => Evaluated::Evaluated(Expr::Int(n)),
                None => {
                    // Overflow and division by zero panic: the precondition leaves them out.
                    proof {
                        assert(false);
                    }
                    problem(Problem::NotEqual)
                },
            }
        },
        _ => {
            // Arithmetic on fractions or on non-numbers panics: the precondition leaves it out.
            proof {
                assert(false);
            }
            problem(Problem::NotEqual)
        },
    }
}

/// The view of the outcome of a match.
pub open spec fn res_dv(r: Result<(), Problem>) -> Result<(), ProblemV> {
    match r {
        Ok(()) => Ok(()),
        Err(p) => Err(p.dv()),
    }
}

fn wanted_message(expr: &Expr) -> (r: String)
    ensures
        r@ == wanted_msg(expr.dv()),
{
    let mut s = literal("Wanted a `{}`, but was given `");
    render_into(expr, &mut s);
    s.append("`.");
    s
}

fn variant_message(wanted: &String, given: &String) -> (r: String)
    ensures
        r@ == variant_msg(wanted@, given@),
{
    let mut s = literal("Wanted a `");
    s.append(wanted.as_str());
    s.append("` variant, but was given a `");
    s.append(given.as_str());
    s.append("` variant.");
    s
}

fn non_variant_message(wanted: &String) -> (r: String)
    ensures
        r@ == non_variant_msg(wanted@),
{
    let mut s = literal("Wanted to destructure a `");
    s.append(wanted.as_str());
    s.append("` variant, but was given a non-variant.");
    s
}

fn pattern_match(evaluated: Evaluated, pattern: &Pattern, vars: &mut Scope) -> (r: Result<(), Problem>)
    requires
        match_v(evaluated.dv(), pattern.dv(), scope_contents(*old(vars))) is Some,
    ensures
        match_v(evaluated.dv(), pattern.dv(), scope_contents(*old(vars))) == Some(
            (scope_contents(*final(vars)), res_dv(r)),
        ),
    decreases pattern,
{
    match pattern {
        Pattern::Identifier(name) => {
            scope_insert(vars, name.clone(), evaluated);
            Ok(())
        },
        Pattern::Underscore => {
            // Underscore matches anything, and records no new vars.
            Ok(())
        },
        Pattern::EmptyRecord => {
            match evaluated {
                Evaluated::Evaluated(Expr::EmptyRecord) => Ok(()),
                Evaluated::Evaluated(expr) => Err(Problem::TypeMismatch(wanted_message(&expr))),
            }
        },
        Pattern::Integer(pattern_num) => {
            match evaluated {
                Evaluated::Evaluated(Expr::Int(evaluated_num)) => {
                    if *pattern_num == evaluated_num {
                        Ok(())
                    } else {
                        Err(Problem::NotEqual)
                    }
                },
                Evaluated::Evaluated(expr) => Err(Problem::TypeMismatch(wanted_message(&expr))),
            }
        },
        Pattern::Fraction(_, _) => {
            match evaluated {
                Evaluated::Evaluated(Expr::Frac(_, _)) => {
                    // Matching a fraction against a fraction pattern panics: the precondition leaves it out.
                    proof {
                        assert(false);
                    }
                    Err(Problem::NotEqual)
                },
                Evaluated::Evaluated(expr) => Err(Problem::TypeMismatch(wanted_message(&expr))),
            }
        },
        Pattern::Variant(pattern_variant_name, opt_pattern_contents) => {
            match evaluated {
                Evaluated::Evaluated(Expr::ApplyVariant(applied_variant_name, opt_applied_contents)) => {
                    if !(*pattern_variant_name == applied_variant_name) {
                        return Err(
                            Problem::TypeMismatch(
                                variant_message(pattern_variant_name, &applied_variant_name),
                            ),
                        );
                    }
                    match (opt_pattern_contents, opt_applied_contents) {
                        (Some(pattern_contents), Some(applied_contents)) => {
                            proof {
                                lemma_exprs_dv(applied_contents@);
                                lemma_patterns_dv(pattern_contents@);
                            }
                            if pattern_contents.len() == applied_contents.len() {
                                let ghost vals = exprs_dv(applied_contents@);
                                let ghost pats = patterns_dv(pattern_contents@);
                                let ghost env0 = scope_contents(*vars);
                                let n = applied_contents.len();
                                let ghost aseq = applied_contents@;
                                let mut i: usize = 0;
                                #[verifier::loop_isolation(false)]
                                for applied_val in it: applied_contents.into_iter()
                                    invariant
                                        n == pattern_contents@.len(),
                                        it.seq() == aseq,
                                        aseq.len() == n,
                                        vals == exprs_dv(aseq),
                                        pats == patterns_dv(pattern_contents@),
                                        vals.len() == n,
                                        pats.len() == n,
                                        forall|j: int| 0 <= j < n ==> #[trigger] vals[j] == aseq[j].dv(),
                                        forall|j: int| 0 <= j < n ==> #[trigger] pats[j] == pattern_contents@[j].dv(),
                                        i == it.index(),
                                        i <= n,
                                        match_seq_v(vals, pats, env0) is Some,
                                        match_seq_v(vals.subrange(0, i as int), pats.subrange(0, i as int), env0) == Some(
                                            (scope_contents(*vars), Ok::<(), ProblemV>(())),
                                        ),
                                        decreases_to!(*pattern => pattern_contents@),
                                {
                                    assert(applied_val == aseq[i as int]);
                                    proof {
                                        lemma_match_seq_step(vals, pats, env0, i as int);
                                        lemma_match_seq_prefix(vals, pats, env0, i as int + 1);
                                        assert(decreases_to!(pattern_contents@ => pattern_contents@[i as int]));
                                    }
                                    let res = pattern_match(Evaluated::Evaluated(applied_val), &pattern_contents[i], vars);
                                    if let Err(p) = res {
                                        proof {
                                            assert(match_seq_v(vals.subrange(0, i + 1), pats.subrange(0, i + 1), env0)
                                                == Some((scope_contents(*vars), Err::<(), ProblemV>(p.dv()))));
                                            lemma_match_seq_prefix(vals, pats, env0, i as int + 1);
                                            assert(match_seq_v(vals, pats, env0) == Some((scope_contents(*vars), Err::<(), ProblemV>(p.dv()))));
                                        }
                                        return Err(p);
                                    }
                                    i = i + 1;
                                }
                                proof {
                                    assert(vals.subrange(0, n as int) =~= vals);
                                    assert(pats.subrange(0, n as int) =~= pats);
                                }
                                Ok(())
                            } else {
                                Err(Problem::WrongArity(pattern_contents.len() as u32, applied_contents.len() as u32))
                            }
                        },
                        (None, None) => {
                            // It's the variant we expected, but it has no values in it,
                            // so we don't insert anything into vars.
                            Ok(())
                        },
                        (None, Some(contents)) => {
                            // It's the variant we expected, but the arity is wrong.
                            proof {
                                lemma_exprs_dv(contents@);
                            }
                            Err(Problem::WrongArity(contents.len() as u32, 0))
                        },
                        (Some(patterns), None) => {
                            // It's the variant we expected, but the arity is wrong.
                            proof {
                                lemma_patterns_dv(patterns@);
                            }
                            Err(Problem::WrongArity(0, patterns.len() as u32))
                        },
                    }
                },
                _ => Err(Problem::TypeMismatch(non_variant_message(pattern_variant_name))),
            }
        },
    }
}

/// The view of the outcome of binding a closure's parameters.
pub open spec fn bound_dv(r: Result<Scope, Problem>) -> Result<Env, ProblemV> {
    match r {
        Ok(s) => Ok(scope_contents(s)),
        Err(p) => Err(p.dv()),
    }
}

fn eval_closure(args: Vec<Expr>, arg_patterns: Patterns, vars: &Scope) -> (r: Result<Scope, Problem>)
    requires
        bind_v(exprs_dv(args@), pattern_items(arg_patterns), scope_contents(*vars)) is Some,
    ensures
        bind_v(exprs_dv(args@), pattern_items(arg_patterns), scope_contents(*vars)) == Some(bound_dv(r)),
{
    let patterns = arg_patterns.into_vec();
    proof {
        lemma_exprs_dv(args@);
        lemma_patterns_dv(patterns@);
    }
    if patterns.len() == args.len() {
        // Create a new scope for the function to use.
        let mut new_vars = scope_clone(vars);
        let ghost vals = exprs_dv(args@);
        let ghost pats = patterns_dv(patterns@);
        let ghost env0 = scope_contents(*vars);
        let ghost aseq = args@;
        let n = args.len();
        let mut i: usize = 0;
        #[verifier::loop_isolation(false)]
        for arg in it: args.into_iter()
            invariant
                it.seq() == aseq,
                i == it.index(),
                i <= n,
                match_seq_v(vals.subrange(0, i as int), pats.subrange(0, i as int), env0) == Some(
                    (scope_contents(new_vars), Ok::<(), ProblemV>(())),
                ),
        {
            proof {
                lemma_match_seq_step(vals, pats, env0, i as int);
                lemma_match_seq_prefix(vals, pats, env0, i as int + 1);
            }
            let res = pattern_match(Evaluated::Evaluated(arg), &patterns[i], &mut new_vars);
            if let Err(p) = res {
                proof {
                    lemma_match_seq_prefix(vals, pats, env0, i as int + 1);
                }
                return Err(p);
            }
            i = i + 1;
        }
        proof {
            assert(vals.subrange(0, n as int) =~= vals);
            assert(pats.subrange(0, n as int) =~= pats);
        }
        Ok(new_vars)
    } else {
        Err(Problem::WrongArity(patterns.len() as u32, args.len() as u32))
    }
}

fn eval_each(args: Vec<Expr>, vars: &Scope, Ghost(fuel): Ghost<nat>) -> (r: Vec<Expr>)
    requires
        eval_seq_v(fuel, exprs_dv(args@), scope_contents(*vars)) is Some,
    ensures
        eval_seq_v(fuel, exprs_dv(args@), scope_contents(*vars)) == Some(exprs_dv(r@)),
    decreases fuel, 1nat, 0nat,
{
    let ghost a = exprs_dv(args@);
    let ghost env = scope_contents(*vars);
    let ghost aseq = args@;
    proof {
        lemma_exprs_dv(args@);
    }
    let n = args.len();
    let mut out: Vec<Expr> = Vec::new();
    let mut i: usize = 0;
    #[verifier::loop_isolation(false)]
    for arg in it: args.into_iter()
        invariant
            it.seq() == aseq,
            i == it.index(),
            i <= n,
            eval_seq_v(fuel, a.subrange(0, i as int), env) == Some(exprs_dv(out@)),
    {
        proof {
            lemma_eval_seq_step(fuel, a, env, i as int);
            lemma_eval_seq_prefix(fuel, a, env, i as int + 1);
        }
        let Evaluated::Evaluated(value) = eval_in(arg, vars, Ghost(fuel));
        let ghost before = out@;
        out.push(value);
        proof {
            assert(out@.subrange(0, out@.len() - 1) =~= before);
        }
        i = i + 1;
    }
    proof {
        assert(a.subrange(0, n as int) =~= a);
    }
    out
}

fn eval_apply(evaluated: Evaluated, args: Vec<Expr>, vars: &Scope, Ghost(fuel): Ghost<nat>) -> (r: Evaluated)
    requires
        apply_v(fuel, evaluated.dv(), exprs_dv(args@), scope_contents(*vars)) is Some,
    ensures
        apply_v(fuel, evaluated.dv(), exprs_dv(args@), scope_contents(*vars)) == Some(r.dv()),
    decreases fuel, 2nat, 0nat,
{
    match evaluated {
        Evaluated::Evaluated(Expr::Closure(arg_patterns, body)) => {
            let evaluated_args = eval_each(args, vars, Ghost(fuel));
            match eval_closure(evaluated_args, arg_patterns, vars) {
                Ok(new_vars) => eval_in(*body, &new_vars, Ghost(fuel)),
                Err(prob) => problem(prob),
            }
        },
        Evaluated::Evaluated(expr) => {
            let mut msg = literal("Tried to call a non-function: ");
            render_into(&expr, &mut msg);
            problem(Problem::TypeMismatch(msg))
        },
    }
}

fn eval_case(condition: Evaluated, branches: Branches, vars: &Scope, Ghost(fuel): Ghost<nat>) -> (r: Evaluated)
    requires
        case_v(fuel, condition.dv(), branch_items(branches), scope_contents(*vars)) is Some,
    ensures
        case_v(fuel, condition.dv(), branch_items(branches), scope_contents(*vars)) == Some(r.dv()),
    decreases fuel, 1nat, 0nat,
{
    let Evaluated::Evaluated(evaluated_expr) = condition;
    let branches = branches.into_vec();
    let ghost bs = branches_dv(branches@);
    let ghost env = scope_contents(*vars);
    let ghost bseq = branches@;
    proof {
        lemma_branches_dv(branches@);
        assert(bs.subrange(0, bs.len() as int) =~= bs);
    }
    let n = branches.len();
    let mut i: usize = 0;
    #[verifier::loop_isolation(false)]
    for branch in it: branches.into_iter()
        invariant
            it.seq() == bseq,
            i == it.index(),
            i <= n,
            case_v(fuel, evaluated_expr.dv(), bs, env) == case_v(fuel, evaluated_expr.dv(), bs.subrange(i as int, n as int), env),
    {
        let (pattern, definition) = branch;
        proof {
            lemma_case_step(fuel, evaluated_expr.dv(), bs, env, i as int);
        }
        let mut branch_vars = scope_clone(vars);
        let cloned_expr = Evaluated::Evaluated(evaluated_expr.copy());
        if pattern_match(cloned_expr, &pattern, &mut branch_vars).is_ok() {
            return eval_in(*definition, &branch_vars, Ghost(fuel));
        }
        i = i + 1;
    }
    proof {
        assert(bs.subrange(n as int, n as int) =~= Seq::<(crate::expr::PatternV, ExprV)>::empty());
    }
    problem(Problem::NoBranchesMatched)
}

fn lookup(vars: &Scope, name: String) -> (r: Evaluated)
    ensures
        r.dv() == crate::semantics::lookup_v(scope_contents(*vars), name@),
{
    match scope_get(vars, &name) {
        Some(resolved) => {
            let Evaluated::Evaluated(evaluated_expr) = resolved;
            Evaluated::Evaluated(evaluated_expr.copy())
        },
        None => problem(Problem::UnrecognizedVarName(name)),
    }
}

fn eval_in(expr: Expr, vars: &Scope, Ghost(fuel): Ghost<nat>) -> (r: Evaluated)
    requires
        eval_v(fuel, expr.dv(), scope_contents(*vars)) is Some,
    ensures
        eval_v(fuel, expr.dv(), scope_contents(*vars)) == Some(r.dv()),
    decreases fuel, 0nat, 0nat,
{
    let ghost f = (fuel - 1) as nat;
    let ghost env = scope_contents(*vars);
    match expr {
        // Primitives need no further evaluation
        Expr::Error(p) => Evaluated::Evaluated(Expr::Error(p)),
        Expr::Int(n) => Evaluated::Evaluated(Expr::Int(n)),
        Expr::EmptyStr => Evaluated::Evaluated(Expr::EmptyStr),
        Expr::Str(s) => Evaluated::Evaluated(Expr::Str(s)),
        Expr::Frac(n, d) => Evaluated::Evaluated(Expr::Frac(n, d)),
        Expr::Char(c) => Evaluated::Evaluated(Expr::Char(c)),
        Expr::Closure(ps, body) => Evaluated::Evaluated(Expr::Closure(ps, body)),
        Expr::EmptyRecord => Evaluated::Evaluated(Expr::EmptyRecord),
        // Resolve variable names
        Expr::Var(name) => lookup(vars, name),
        Expr::InterpolatedStr(pairs, trailing_str) => {
            let ghost ps = pairs_dv(pairs@);
            let mut output = String::new();
            let n = pairs.len();
            let mut i: usize = 0;
            #[verifier::loop_isolation(false)]
            while i < n
                invariant
                    n == pairs@.len(),
                    ps == pairs_dv(pairs@),
                    i <= n,
                    env == scope_contents(*vars),
                    interp_v(ps.subrange(0, i as int), env) == Ok::<Seq<char>, ProblemV>(output@),
                    eval_v(fuel, expr.dv(), env) is Some,
                decreases n - i,
            {
                proof {
                    lemma_interp_step(ps, env, i as int);
                }
                let (string, var_name) = &pairs[i];
                match scope_get(vars, var_name) {
                    Some(resolved) => {
                        match resolved {
                            Evaluated::Evaluated(Expr::Str(var_string)) => {
                                output.append(string.as_str());
                                output.append(var_string.as_str());
                                proof {
                                    assert(output@ =~= interp_v(ps.subrange(0, i + 1), env)->Ok_0);
                                }
                            },
                            _ => {
                                proof {
                                    lemma_interp_prefix(ps, env, i as int + 1);
                                }
                                return problem(Problem::TypeMismatch(var_name.clone()));
                            },
                        }
                    },
                    None => {
                        proof {
                            lemma_interp_prefix(ps, env, i as int + 1);
                        }
                        return problem(Problem::UnrecognizedVarName(var_name.clone()));
                    },
                }
                i = i + 1;
            }
            proof {
                assert(ps.subrange(0, n as int) =~= ps);
            }
            output.append(trailing_str.as_str());
            Evaluated::Evaluated(Expr::Str(output))
        },
        Expr::Assign(pattern, definition, in_expr) => {
            match pattern {
                Pattern::Identifier(name) => {
                    if scope_contains(vars, &name) {
                        problem(Problem::ReassignedVarName(name))
                    } else {
                        // Create a new scope containing the new declaration.
                        let mut new_vars = scope_clone(vars);
                        let evaluated_defn = eval_in(*definition, vars, Ghost(f));
                        scope_insert(&mut new_vars, name, evaluated_defn);
                        // Evaluate in_expr with that new scope's variables.
                        eval_in(*in_expr, &new_vars, Ghost(f))
                    }
                },
                Pattern::Underscore => {
                    // Faithfully eval this, but discard its result.
                    let _ = eval_in(*definition, vars, Ghost(f));
                    // Actually use this part.
                    eval_in(*in_expr, vars, Ghost(f))
                },
                Pattern::EmptyRecord => {
                    // Faithfully eval this, but discard its result.
                    let _ = eval_in(*definition, vars, Ghost(f));
                    // Actually use this part.
                    eval_in(*in_expr, vars, Ghost(f))
                },
                _ => {
                    // Assigning to an integer, a fraction or a variant pattern panics:
                    // the precondition leaves it out.
                    proof {
                        assert(false);
                    }
                    problem(Problem::NoBranchesMatched)
                },
            }
        },
        Expr::CallByName(name, args) => {
            let func_expr = lookup(vars, name);
            eval_apply(func_expr, args, vars, Ghost(f))
        },
        Expr::ApplyVariant(name, None) => Evaluated::Evaluated(Expr::ApplyVariant(name, None)),
        Expr::ApplyVariant(name, Some(exprs)) => {
            let values = eval_each(exprs, vars, Ghost(f));
            Evaluated::Evaluated(Expr::ApplyVariant(name, Some(values)))
        },
        Expr::Apply(func_expr, args) => {
            let evaluated_func = eval_in(*func_expr, vars, Ghost(f));
            eval_apply(evaluated_func, args, vars, Ghost(f))
        },
        Expr::Case(condition, branches) => {
            let evaluated_condition = eval_in(*condition, vars, Ghost(f));
            eval_case(evaluated_condition, branches, vars, Ghost(f))
        },
        Expr::Operator(left_arg, op, right_arg) => {
            let left = eval_in(*left_arg, vars, Ghost(f));
            let right = eval_in(*right_arg, vars, Ghost(f));
            eval_operator(&left, op, &right)
        },
        Expr::If(condition, if_true, if_false) => {
            match eval_in(*condition, vars, Ghost(f)) {
                Evaluated::Evaluated(Expr::ApplyVariant(variant_name, None)) => {
                    if variant_name == literal("True") {
                        eval_in(*if_true, vars, Ghost(f))
                    } else if variant_name == literal("False") {
                        eval_in(*if_false, vars, Ghost(f))
                    } else {
                        problem(Problem::TypeMismatch(literal("non-Bool used in `if` condition")))
                    }
                },
                _ => problem(Problem::TypeMismatch(literal("non-Bool used in `if` condition"))),
            }
        },
    }
}

/// Evaluates `expr` in `vars`.
///
/// The precondition asks that the evaluation finish without a panic: it panics
/// where it assigns to an integer, fraction or variant pattern, does arithmetic
/// on fractions or on non-numbers, overflows, divides by zero, compares two
/// fractions with `==` or matches a fraction against a fraction pattern; and it
/// does not finish where a function keeps calling itself.
pub fn scoped_eval(expr: Expr, vars: &Scope) -> (r: Evaluated)
    requires
        evaluates(expr.dv(), scope_contents(*vars)),
    ensures
        r.dv() == result_v(expr.dv(), scope_contents(*vars)),
{
    let ghost fuel = choose|fuel: nat| #[trigger] eval_v(fuel, expr.dv(), scope_contents(*vars)) is Some;
    eval_in(expr, vars, Ghost(fuel))
}

/// Evaluates `expr` in the scope that binds nothing: what `scoped_eval` gives
/// on `empty_scope()`.
pub fn eval(expr: Expr) -> (r: Evaluated)
    requires
        evaluates(expr.dv(), empty_env()),
    ensures
        r.dv() == result_v(expr.dv(), empty_env()),
{
    let vars = crate::scope::empty_scope();
    scoped_eval(expr, &vars)
}

/// The expression inside.
pub fn from_evaluated(evaluated: Evaluated) -> (r: Expr)
    ensures
        evaluated == Evaluated::Evaluated(r),
{
    let Evaluated::Evaluated(expr) = evaluated;
    expr
}

} // verus!
