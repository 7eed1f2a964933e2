//! Properties of evaluation that hold for all expressions and scopes.
use vstd::prelude::*;
use crate::expr::{ExprV, PatternV, ProblemV, Operator};
use crate::semantics::{
    Env, eval_v, eval_seq_v, apply_v, case_v, eq_v, operator_v, evaluates, result_v, match_v,
    match_seq_v, bind_v, lookup_v,
};

verus! {

pub(crate) proof fn lemma_eval_mono(f1: nat, f2: nat, e: ExprV, env: Env)
    requires
        f1 <= f2,
        eval_v(f1, e, env) is Some,
    ensures
        eval_v(f2, e, env) == eval_v(f1, e, env),
    decreases f1, 0nat, 0nat,
{
    let g1 = (f1 - 1) as nat;
    let g2 = (f2 - 1) as nat;
    match e {
        ExprV::Assign(pat, defn, body) => {
            match pat {
                PatternV::Identifier(name) => {
                    if !env.dom().contains(name) {
                        lemma_eval_mono(g1, g2, *defn, env);
                        let d = eval_v(g1, *defn, env)->0;
                        lemma_eval_mono(g1, g2, *body, env.insert(name, d));
                    }
                },
                PatternV::Underscore => {
                    lemma_eval_mono(g1, g2, *defn, env);
                    lemma_eval_mono(g1, g2, *body, env);
                },
                PatternV::EmptyRecord => {
                    lemma_eval_mono(g1, g2, *defn, env);
                    lemma_eval_mono(g1, g2, *body, env);
                },
                _ => {},
            }
        },
        ExprV::CallByName(name, args) => {
            lemma_apply_mono(g1, g2, crate::semantics::lookup_v(env, name), args, env);
        },
        ExprV::ApplyVariant(_, Some(args)) => {
            lemma_eval_seq_mono(g1, g2, args, env);
        },
        ExprV::Apply(func, args) => {
            lemma_eval_mono(g1, g2, *func, env);
            lemma_apply_mono(g1, g2, eval_v(g1, *func, env)->0, args, env);
        },
        ExprV::Case(cond, branches) => {
            lemma_eval_mono(g1, g2, *cond, env);
            lemma_case_mono(g1, g2, eval_v(g1, *cond, env)->0, branches, env);
        },
        ExprV::Operator(l, op, r) => {
            lemma_eval_mono(g1, g2, *l, env);
            lemma_eval_mono(g1, g2, *r, env);
        },
        ExprV::If(cond, if_true, if_false) => {
            lemma_eval_mono(g1, g2, *cond, env);
            match eval_v(g1, *cond, env)->0 {
                ExprV::ApplyVariant(name, None) => {
                    if name == "True"@ {
                        lemma_eval_mono(g1, g2, *if_true, env);
                    } else if name == "False"@ {
                        lemma_eval_mono(g1, g2, *if_false, env);
                    }
                },
                _ => {},
            }
        },
        _ => {},
    }
}

pub(crate) proof fn lemma_eval_seq_mono(f1: nat, f2: nat, args: Seq<ExprV>, env: Env)
    requires
        f1 <= f2,
        eval_seq_v(f1, args, env) is Some,
    ensures
        eval_seq_v(f2, args, env) == eval_seq_v(f1, args, env),
    decreases f1, 1nat, args.len(),
{
    if args.len() > 0 {
        lemma_eval_seq_mono(f1, f2, args.subrange(0, args.len() - 1), env);
        lemma_eval_mono(f1, f2, args[args.len() - 1], env);
    }
}

proof fn lemma_apply_mono(f1: nat, f2: nat, func: ExprV, args: Seq<ExprV>, env: Env)
    requires
        f1 <= f2,
        apply_v(f1, func, args, env) is Some,
    ensures
        apply_v(f2, func, args, env) == apply_v(f1, func, args, env),
    decreases f1, 2nat, 0nat,
{
    match func {
        ExprV::Closure(pats, body) => {
            lemma_eval_seq_mono(f1, f2, args, env);
            let vals = eval_seq_v(f1, args, env)->0;
            match crate::semantics::bind_v(vals, pats, env) {
                Some(Ok(env2)) => {
                    lemma_eval_mono(f1, f2, *body, env2);
                },
                _ => {},
            }
        },
        _ => {},
    }
}

pub(crate) proof fn lemma_case_mono(f1: nat, f2: nat, cond: ExprV, branches: Seq<(PatternV, ExprV)>, env: Env)
    requires
        f1 <= f2,
        case_v(f1, cond, branches, env) is Some,
    ensures
        case_v(f2, cond, branches, env) == case_v(f1, cond, branches, env),
    decreases f1, 1nat, branches.len(),
{
    if branches.len() > 0 {
        match crate::semantics::match_v(cond, branches[0].0, env) {
            Some((env2, Ok(()))) => {
                lemma_eval_mono(f1, f2, branches[0].1, env2);
            },
            Some((_, Err(_))) => {
                lemma_case_mono(f1, f2, cond, branches.subrange(1, branches.len() as int), env);
            },
            None => {},
        }
    }
}

/// Evaluation is deterministic: two runs of the same expression in the same
/// scope that both finish give the same value, however deep each was allowed to nest.
pub proof fn lemma_eval_deterministic(f1: nat, f2: nat, e: ExprV, env: Env)
    requires
        eval_v(f1, e, env) is Some,
        eval_v(f2, e, env) is Some,
    ensures
        eval_v(f1, e, env) == eval_v(f2, e, env),
{
    if f1 <= f2 {
        lemma_eval_mono(f1, f2, e, env);
    } else {
        lemma_eval_mono(f2, f1, e, env);
    }
}

/// A run that finishes gives the result of evaluation (`result_v`), which is
/// therefore the value that `scoped_eval` returns.
pub proof fn lemma_result_of_run(fuel: nat, e: ExprV, env: Env)
    requires
        eval_v(fuel, e, env) is Some,
    ensures
        evaluates(e, env),
        result_v(e, env) == eval_v(fuel, e, env)->0,
{
    let f = choose|f: nat| #[trigger] eval_v(f, e, env) is Some;
    lemma_eval_deterministic(f, fuel, e, env);
}

/// `==` is symmetric: comparing `b` with `a` gives what comparing `a` with `b` gives.
pub proof fn lemma_eq_symmetric(a: ExprV, b: ExprV)
    ensures
        eq_v(a, b) == eq_v(b, a),
{
}

/// The operator `==` is symmetric, except that where both operands are errors the
/// left one is the result.
pub proof fn lemma_equals_symmetric(a: ExprV, b: ExprV)
    requires
        !(a is Error && b is Error),
    ensures
        operator_v(a, Operator::Equals, b) == operator_v(b, Operator::Equals, a),
{
}

/// Runs of two expressions that finish, both allowed the same depth.
pub(crate) proof fn lemma_common_fuel(e1: ExprV, env1: Env, e2: ExprV, env2: Env) -> (f: nat)
    requires
        evaluates(e1, env1),
        evaluates(e2, env2),
    ensures
        eval_v(f, e1, env1) == Some(result_v(e1, env1)),
        eval_v(f, e2, env2) == Some(result_v(e2, env2)),
{
    let f1 = choose|f: nat| #[trigger] eval_v(f, e1, env1) is Some;
    let f2 = choose|f: nat| #[trigger] eval_v(f, e2, env2) is Some;
    let f = if f1 <= f2 { f2 } else { f1 };
    lemma_eval_mono(f1, f, e1, env1);
    lemma_eval_mono(f2, f, e2, env2);
    f
}

/// A variable reads back what was assigned to it: `name = defn` followed by
/// `name` gives the value of `defn`, where `name` was not yet bound.
pub proof fn lemma_assign_then_read(name: Seq<char>, defn: ExprV, env: Env)
    requires
        !env.dom().contains(name),
        evaluates(defn, env),
    ensures
        evaluates(ExprV::Assign(PatternV::Identifier(name), Box::new(defn), Box::new(ExprV::Var(name))), env),
        result_v(ExprV::Assign(PatternV::Identifier(name), Box::new(defn), Box::new(ExprV::Var(name))), env)
            == result_v(defn, env),
{
    let f = lemma_common_fuel(defn, env, defn, env);
    let d = result_v(defn, env);
    let a = ExprV::Assign(PatternV::Identifier(name), Box::new(defn), Box::new(ExprV::Var(name)));
    assert(eval_v(f, ExprV::Var(name), env.insert(name, d)) == Some(d));
    assert(eval_v(f + 1, a, env) == Some(d));
    lemma_result_of_run(f + 1, a, env);
}

/// A name that is already bound cannot be assigned again: the assignment gives
/// the `ReassignedVarName` problem, whatever its definition and body.
pub proof fn lemma_reassign_refused(name: Seq<char>, defn: ExprV, body: ExprV, env: Env)
    requires
        env.dom().contains(name),
    ensures
        evaluates(ExprV::Assign(PatternV::Identifier(name), Box::new(defn), Box::new(body)), env),
        result_v(ExprV::Assign(PatternV::Identifier(name), Box::new(defn), Box::new(body)), env)
            == ExprV::Error(ProblemV::ReassignedVarName(name)),
{
    let a = ExprV::Assign(PatternV::Identifier(name), Box::new(defn), Box::new(body));
    assert(eval_v(1, a, env) == Some(ExprV::Error(ProblemV::ReassignedVarName(name))));
    lemma_result_of_run(1, a, env);
}

/// Assigning to `_` evaluates the definition, discards its value, and gives
/// the value of the body in the unchanged scope.
pub proof fn lemma_underscore_discards(defn: ExprV, body: ExprV, env: Env)
    requires
        evaluates(defn, env),
        evaluates(body, env),
    ensures
        evaluates(ExprV::Assign(PatternV::Underscore, Box::new(defn), Box::new(body)), env),
        result_v(ExprV::Assign(PatternV::Underscore, Box::new(defn), Box::new(body)), env)
            == result_v(body, env),
{
    let f = lemma_common_fuel(defn, env, body, env);
    let a = ExprV::Assign(PatternV::Underscore, Box::new(defn), Box::new(body));
    assert(eval_v(f + 1, a, env) == Some(result_v(body, env)));
    lemma_result_of_run(f + 1, a, env);
}

/// An error on the left of an operator is the operator's result, once the
/// right operand has been evaluated.
pub proof fn lemma_error_propagates(left: ExprV, op: Operator, right: ExprV, env: Env)
    requires
        evaluates(left, env),
        evaluates(right, env),
        result_v(left, env) is Error,
    ensures
        evaluates(ExprV::Operator(Box::new(left), op, Box::new(right)), env),
        result_v(ExprV::Operator(Box::new(left), op, Box::new(right)), env) == result_v(left, env),
{
    let f = lemma_common_fuel(left, env, right, env);
    let e = ExprV::Operator(Box::new(left), op, Box::new(right));
    assert(eval_v(f + 1, e, env) == Some(result_v(left, env)));
    lemma_result_of_run(f + 1, e, env);
}

/// `if` evaluates the branch that its condition selects.
pub proof fn lemma_if_selects(cond: ExprV, b: bool, if_true: ExprV, if_false: ExprV, env: Env)
    requires
        evaluates(cond, env),
        result_v(cond, env) == crate::semantics::bool_v(b),
        evaluates(if b { if_true } else { if_false }, env),
    ensures
        evaluates(ExprV::If(Box::new(cond), Box::new(if_true), Box::new(if_false)), env),
        result_v(ExprV::If(Box::new(cond), Box::new(if_true), Box::new(if_false)), env)
            == result_v(if b { if_true } else { if_false }, env),
{
    let chosen = if b { if_true } else { if_false };
    let f = lemma_common_fuel(cond, env, chosen, env);
    let e = ExprV::If(Box::new(cond), Box::new(if_true), Box::new(if_false));
    reveal_strlit("True");
    reveal_strlit("False");
    assert(eval_v(f, cond, env) == Some(crate::semantics::bool_v(b)));
    if b {
        assert(eval_v(f + 1, e, env) == eval_v(f, if_true, env));
    } else {
        assert("False"@ != "True"@) by {
            assert("False"@[0] != "True"@[0]);
        }
        assert(eval_v(f + 1, e, env) == eval_v(f, if_false, env));
    }
    lemma_result_of_run(f + 1, e, env);
}

/// Calling a one-parameter closure binds the parameter to the argument's value
/// in the caller's scope and gives the value of the body there.
pub proof fn lemma_call_binds_parameter(param: Seq<char>, body: ExprV, arg: ExprV, env: Env)
    requires
        evaluates(arg, env),
        evaluates(body, env.insert(param, result_v(arg, env))),
    ensures
        evaluates(
            ExprV::Apply(Box::new(ExprV::Closure(seq![PatternV::Identifier(param)], Box::new(body))), seq![arg]),
            env,
        ),
        result_v(
            ExprV::Apply(Box::new(ExprV::Closure(seq![PatternV::Identifier(param)], Box::new(body))), seq![arg]),
            env,
        ) == result_v(body, env.insert(param, result_v(arg, env))),
{
    let v = result_v(arg, env);
    let env2 = env.insert(param, v);
    let f = lemma_common_fuel(arg, env, body, env2);
    let clo = ExprV::Closure(seq![PatternV::Identifier(param)], Box::new(body));
    let e = ExprV::Apply(Box::new(clo), seq![arg]);
    let args = seq![arg];
    let pats = seq![PatternV::Identifier(param)];
    assert(args.subrange(0, 0) =~= Seq::<ExprV>::empty());
    assert(eval_seq_v(f, args.subrange(0, 0), env) == Some(Seq::<ExprV>::empty()));
    assert(args[0] == arg);
    assert(eval_seq_v(f, args, env) == Some(seq![v])) by {
        assert(seq![v] =~= Seq::<ExprV>::empty().push(v));
    }
    assert(seq![v].subrange(0, 0) =~= Seq::<ExprV>::empty());
    assert(pats.subrange(0, 0) =~= Seq::<PatternV>::empty());
    assert(crate::semantics::match_seq_v(seq![v].subrange(0, 0), pats.subrange(0, 0), env) == Some((env, Ok::<(), ProblemV>(()))));
    assert(seq![v][0] == v);
    assert(pats[0] == PatternV::Identifier(param));
    assert(crate::semantics::match_v(v, PatternV::Identifier(param), env) == Some((env2, Ok::<(), ProblemV>(()))));
    assert(crate::semantics::match_seq_v(seq![v], pats, env) == Some((env2, Ok::<(), ProblemV>(()))));
    assert(apply_v(f, clo, args, env) == Some(result_v(body, env2)));
    assert(f > 0);
    assert(eval_v(f, clo, env) == Some(clo));
    assert(eval_v(f + 1, e, env) == Some(result_v(body, env2)));
    lemma_result_of_run(f + 1, e, env);
}

/// An evaluated expression: a literal, an error, a closure, or a variant whose
/// contents are evaluated expressions.
pub open spec fn is_value(e: ExprV) -> bool
    decreases e,
{
    match e {
        ExprV::Error(_) => true,
        ExprV::Int(_) => true,
        ExprV::EmptyStr => true,
        ExprV::Str(_) => true,
        ExprV::Frac(_, _) => true,
        ExprV::Char(_) => true,
        ExprV::Closure(_, _) => true,
        ExprV::EmptyRecord => true,
        ExprV::ApplyVariant(_, None) => true,
        ExprV::ApplyVariant(_, Some(args)) => all_values(args),
        _ => false,
    }
}

/// Each of the expressions is an evaluated expression.
pub open spec fn all_values(s: Seq<ExprV>) -> bool
    decreases s,
{
    if s.len() == 0 {
        true
    } else {
        all_values(s.subrange(0, s.len() - 1)) && is_value(s[s.len() - 1])
    }
}

proof fn lemma_all_values(s: Seq<ExprV>)
    ensures
        all_values(s) <==> forall|i: int| 0 <= i < s.len() ==> #[trigger] is_value(s[i]),
    decreases s.len(),
{
    if s.len() > 0 {
        let p = s.subrange(0, s.len() - 1);
        lemma_all_values(p);
        if forall|i: int| 0 <= i < s.len() ==> #[trigger] is_value(s[i]) {
            assert forall|i: int| 0 <= i < p.len() implies #[trigger] is_value(p[i]) by {
                assert(p[i] == s[i]);
            }
            assert(is_value(s[s.len() - 1]));
        }
        if all_values(s) {
            assert forall|i: int| 0 <= i < s.len() implies #[trigger] is_value(s[i]) by {
                if i < s.len() - 1 {
                    assert(p[i] == s[i]);
                }
            }
        }
    }
}

/// Every value that the scope binds is an evaluated expression.
pub open spec fn env_values(env: Env) -> bool {
    forall|k: Seq<char>| #[trigger] env.dom().contains(k) ==> is_value(env[k])
}

/// A depth at which an evaluated expression evaluates to itself.
proof fn value_fuel(v: ExprV, env: Env) -> (f: nat)
    requires
        is_value(v),
    ensures
        eval_v(f, v, env) == Some(v),
    decreases v,
{
    match v {
        ExprV::ApplyVariant(n, Some(args)) => {
            lemma_all_values(args);
            let g = values_fuel(args, env);
            assert(eval_v(g + 1, v, env) == Some(v));
            g + 1
        },
        _ => 1,
    }
}

/// A depth at which each of the evaluated expressions evaluates to itself.
proof fn values_fuel(args: Seq<ExprV>, env: Env) -> (f: nat)
    requires
        forall|i: int| 0 <= i < args.len() ==> #[trigger] is_value(args[i]),
    ensures
        eval_seq_v(f, args, env) == Some(args),
    decreases args,
{
    if args.len() == 0 {
        assert(args =~= Seq::<ExprV>::empty());
        0
    } else {
        let n = args.len() as int;
        let prefix = args.subrange(0, n - 1);
        assert forall|i: int| 0 <= i < prefix.len() implies #[trigger] is_value(prefix[i]) by {
            assert(prefix[i] == args[i]);
        }
        let f1 = values_fuel(prefix, env);
        assert(is_value(args[n - 1]));
        let f2 = value_fuel(args[n - 1], env);
        let f = if f1 <= f2 { f2 } else { f1 };
        lemma_eval_seq_mono(f1, f, prefix, env);
        lemma_eval_mono(f2, f, args[n - 1], env);
        assert(prefix.push(args[n - 1]) =~= args);
        f
    }
}

proof fn lemma_match_keeps_values(v: ExprV, p: PatternV, env: Env)
    requires
        is_value(v),
        env_values(env),
        match_v(v, p, env) is Some,
    ensures
        env_values((match_v(v, p, env)->0).0),
    decreases p,
{
    match p {
        PatternV::Variant(wanted, Some(pats)) => {
            match v {
                ExprV::ApplyVariant(given, Some(vals)) => {
                    lemma_all_values(vals);
                    if wanted == given && pats.len() == vals.len() {
                        lemma_match_seq_keeps_values(vals, pats, env);
                    }
                },
                _ => {},
            }
        },
        _ => {},
    }
}

proof fn lemma_match_seq_keeps_values(vals: Seq<ExprV>, pats: Seq<PatternV>, env: Env)
    requires
        vals.len() == pats.len(),
        forall|i: int| 0 <= i < vals.len() ==> #[trigger] is_value(vals[i]),
        env_values(env),
        match_seq_v(vals, pats, env) is Some,
    ensures
        env_values((match_seq_v(vals, pats, env)->0).0),
    decreases pats,
{
    if pats.len() > 0 {
        let n = pats.len() as int;
        let vp = vals.subrange(0, n - 1);
        let pp = pats.subrange(0, n - 1);
        assert forall|i: int| 0 <= i < vp.len() implies #[trigger] is_value(vp[i]) by {
            assert(vp[i] == vals[i]);
        }
        lemma_match_seq_keeps_values(vp, pp, env);
        match match_seq_v(vp, pp, env) {
            Some((env2, Ok(()))) => {
                assert(is_value(vals[n - 1]));
                lemma_match_keeps_values(vals[n - 1], pats[n - 1], env2);
            },
            _ => {},
        }
    }
}

proof fn lemma_eq_value(a: ExprV, b: ExprV)
    requires
        eq_v(a, b) is Some,
    ensures
        is_value(eq_v(a, b)->0),
{
}

proof fn lemma_eval_gives_value(f: nat, e: ExprV, env: Env)
    requires
        env_values(env),
        eval_v(f, e, env) is Some,
    ensures
        is_value(eval_v(f, e, env)->0),
    decreases f, 0nat, 0nat,
{
    let g = (f - 1) as nat;
    match e {
        ExprV::Var(name) => {
            if env.dom().contains(name) {
                assert(is_value(env[name]));
            }
        },
        ExprV::Assign(pat, defn, body) => {
            match pat {
                PatternV::Identifier(name) => {
                    if !env.dom().contains(name) {
                        lemma_eval_gives_value(g, *defn, env);
                        let d = eval_v(g, *defn, env)->0;
                        let env2 = env.insert(name, d);
                        assert forall|k: Seq<char>| #[trigger] env2.dom().contains(k) implies is_value(env2[k]) by {
                            if k != name {
                                assert(env.dom().contains(k));
                            }
                        }
                        lemma_eval_gives_value(g, *body, env2);
                    }
                },
                PatternV::Underscore => {
                    lemma_eval_gives_value(g, *body, env);
                },
                PatternV::EmptyRecord => {
                    lemma_eval_gives_value(g, *body, env);
                },
                _ => {},
            }
        },
        ExprV::CallByName(name, args) => {
            if env.dom().contains(name) {
                assert(is_value(env[name]));
            }
            lemma_apply_gives_value(g, lookup_v(env, name), args, env);
        },
        ExprV::ApplyVariant(_, Some(args)) => {
            lemma_eval_seq_gives_values(g, args, env);
            lemma_all_values(eval_seq_v(g, args, env)->0);
        },
        ExprV::Apply(func, args) => {
            lemma_apply_gives_value(g, eval_v(g, *func, env)->0, args, env);
        },
        ExprV::Case(cond, branches) => {
            lemma_eval_gives_value(g, *cond, env);
            lemma_case_gives_value(g, eval_v(g, *cond, env)->0, branches, env);
        },
        ExprV::Operator(l, op, r) => {
            lemma_eval_gives_value(g, *l, env);
            lemma_eval_gives_value(g, *r, env);
            let lv = eval_v(g, *l, env)->0;
            let rv = eval_v(g, *r, env)->0;
            if !(lv is Error) && !(rv is Error) && op == Operator::Equals {
                lemma_eq_value(lv, rv);
            }
        },
        ExprV::If(cond, if_true, if_false) => {
            match eval_v(g, *cond, env)->0 {
                ExprV::ApplyVariant(name, None) => {
                    if name == "True"@ {
                        lemma_eval_gives_value(g, *if_true, env);
                    } else if name == "False"@ {
                        lemma_eval_gives_value(g, *if_false, env);
                    }
                },
                _ => {},
            }
        },
        _ => {},
    }
}

proof fn lemma_eval_seq_gives_values(f: nat, args: Seq<ExprV>, env: Env)
    requires
        env_values(env),
        eval_seq_v(f, args, env) is Some,
    ensures
        eval_seq_v(f, args, env)->0.len() == args.len(),
        forall|i: int| 0 <= i < args.len() ==> #[trigger] is_value(eval_seq_v(f, args, env)->0[i]),
    decreases f, 1nat, args.len(),
{
    if args.len() > 0 {
        let n = args.len() as int;
        lemma_eval_seq_gives_values(f, args.subrange(0, n - 1), env);
        lemma_eval_gives_value(f, args[n - 1], env);
        let vals = eval_seq_v(f, args.subrange(0, n - 1), env)->0;
        let all = eval_seq_v(f, args, env)->0;
        assert forall|i: int| 0 <= i < args.len() implies #[trigger] is_value(all[i]) by {
            if i < n - 1 {
                assert(all[i] == vals[i]);
            }
        }
    }
}

proof fn lemma_apply_gives_value(f: nat, func: ExprV, args: Seq<ExprV>, env: Env)
    requires
        env_values(env),
        apply_v(f, func, args, env) is Some,
    ensures
        is_value(apply_v(f, func, args, env)->0),
    decreases f, 2nat, 0nat,
{
    match func {
        ExprV::Closure(pats, body) => {
            lemma_eval_seq_gives_values(f, args, env);
            let vals = eval_seq_v(f, args, env)->0;
            if pats.len() == vals.len() {
                match match_seq_v(vals, pats, env) {
                    Some((env2, Ok(()))) => {
                        lemma_match_seq_keeps_values(vals, pats, env);
                        lemma_eval_gives_value(f, *body, env2);
                    },
                    _ => {},
                }
            }
        },
        _ => {},
    }
}

proof fn lemma_case_gives_value(f: nat, cond: ExprV, branches: Seq<(PatternV, ExprV)>, env: Env)
    requires
        env_values(env),
        is_value(cond),
        case_v(f, cond, branches, env) is Some,
    ensures
        is_value(case_v(f, cond, branches, env)->0),
    decreases f, 1nat, branches.len(),
{
    if branches.len() > 0 {
        match match_v(cond, branches[0].0, env) {
            Some((env2, Ok(()))) => {
                lemma_match_keeps_values(cond, branches[0].0, env);
                lemma_eval_gives_value(f, branches[0].1, env2);
            },
            Some((_, Err(_))) => {
                lemma_case_gives_value(f, cond, branches.subrange(1, branches.len() as int), env);
            },
            None => {},
        }
    }
}

/// Evaluation gives an evaluated expression, which evaluates to itself in any
/// scope: evaluating the result of an evaluation again changes nothing (where
/// the scope of the first evaluation binds evaluated expressions only, as the
/// empty scope of `eval` does).
pub proof fn lemma_evaluation_idempotent(e: ExprV, env: Env, env2: Env)
    requires
        env_values(env),
        evaluates(e, env),
    ensures
        is_value(result_v(e, env)),
        evaluates(result_v(e, env), env2),
        result_v(result_v(e, env), env2) == result_v(e, env),
{
    let f = choose|f: nat| #[trigger] eval_v(f, e, env) is Some;
    lemma_eval_gives_value(f, e, env);
    let v = result_v(e, env);
    let g = value_fuel(v, env2);
    lemma_result_of_run(g, v, env2);
}

/// What matching `v` against `p` does to the scope that binds nothing: the
/// bindings it makes, and whether it matched.
pub open spec fn match_alone(v: ExprV, p: PatternV) -> Option<(Env, Result<(), ProblemV>)> {
    match_v(v, p, Map::empty())
}

/// Matching never reads the scope: in any scope it panics exactly where it
/// panics alone, gives the same outcome, and adds the same bindings on top of
/// the scope (replacing earlier bindings of the same names, keeping the rest).
pub proof fn lemma_match_ignores_scope(v: ExprV, p: PatternV, env: Env)
    ensures
        match_v(v, p, env) == (match match_alone(v, p) {
            None => None,
            Some((b, r)) => Some((env.union_prefer_right(b), r)),
        }),
    decreases p,
{
    let e0 = Map::<Seq<char>, ExprV>::empty();
    assert(env.union_prefer_right(e0) =~= env);
    match p {
        PatternV::Identifier(name) => {
            assert(env.union_prefer_right(e0.insert(name, v)) =~= env.insert(name, v));
        },
        PatternV::Variant(wanted, Some(pats)) => {
            match v {
                ExprV::ApplyVariant(given, Some(vals)) => {
                    if wanted == given && pats.len() == vals.len() {
                        lemma_match_seq_ignores_scope(vals, pats, env);
                        lemma_match_seq_ignores_scope(vals, pats, e0);
                    }
                },
                _ => {},
            }
        },
        _ => {},
    }
}

/// Matching a sequence of values against patterns never reads the scope either.
pub proof fn lemma_match_seq_ignores_scope(vals: Seq<ExprV>, pats: Seq<PatternV>, env: Env)
    requires
        vals.len() == pats.len(),
    ensures
        match_seq_v(vals, pats, env) == (match match_seq_v(vals, pats, Map::empty()) {
            None => None,
            Some((b, r)) => Some((env.union_prefer_right(b), r)),
        }),
    decreases pats,
{
    let e0 = Map::<Seq<char>, ExprV>::empty();
    if pats.len() == 0 {
        assert(env.union_prefer_right(e0) =~= env);
    } else {
        let n = pats.len() as int;
        let vp = vals.subrange(0, n - 1);
        let pp = pats.subrange(0, n - 1);
        lemma_match_seq_ignores_scope(vp, pp, env);
        match match_seq_v(vp, pp, e0) {
            Some((b1, Ok(()))) => {
                let last_v = vals[n - 1];
                let last_p = pats[n - 1];
                lemma_match_ignores_scope(last_v, last_p, env.union_prefer_right(b1));
                lemma_match_ignores_scope(last_v, last_p, b1);
                match match_alone(last_v, last_p) {
                    Some((b2, _)) => {
                        assert(env.union_prefer_right(b1).union_prefer_right(b2) =~= env.union_prefer_right(
                            b1.union_prefer_right(b2),
                        ));
                    },
                    None => {},
                }
            },
            _ => {},
        }
    }
}

} // verus!
