//! What each construct of the language computes, stated in terms of its
//! operands and proved of evaluation for all of them.
use vstd::prelude::*;
use crate::expr::{ExprV, Operator, PatternV, ProblemV};
use crate::semantics::{Env, eval_v, eval_seq_v, case_v, match_v, match_seq_v, operator_v, evaluates, result_v};
use crate::laws::{lemma_common_fuel, lemma_result_of_run, lemma_eval_mono, lemma_eval_seq_mono};

verus! {

/// `True` or `False`, the variants (without contents) that stand for a boolean.
pub open spec fn truth(b: bool) -> ExprV {
    if b {
        ExprV::ApplyVariant("True"@, None)
    } else {
        ExprV::ApplyVariant("False"@, None)
    }
}

/// The magnitude of an integer.
pub open spec fn magnitude(a: int) -> int {
    if a < 0 {
        -a
    } else {
        a
    }
}

/// The quotient of `a` by `b` rounded toward zero: the quotient of their
/// magnitudes, negated where exactly one of them is negative.
pub open spec fn quotient_toward_zero(a: int, b: int) -> int {
    let m = magnitude(a) / magnitude(b);
    if (a < 0) == (b < 0) {
        m
    } else {
        -m
    }
}

/// An operator whose operands evaluate gives what the operator makes of their values.
proof fn lemma_operator_of_values(l: ExprV, op: Operator, r: ExprV, env: Env)
    requires
        evaluates(l, env),
        evaluates(r, env),
        operator_v(result_v(l, env), op, result_v(r, env)) is Some,
    ensures
        evaluates(ExprV::Operator(Box::new(l), op, Box::new(r)), env),
        result_v(ExprV::Operator(Box::new(l), op, Box::new(r)), env)
            == operator_v(result_v(l, env), op, result_v(r, env))->0,
{
    let f = lemma_common_fuel(l, env, r, env);
    let e = ExprV::Operator(Box::new(l), op, Box::new(r));
    assert(eval_v(f + 1, e, env) == operator_v(result_v(l, env), op, result_v(r, env)));
    lemma_result_of_run(f + 1, e, env);
}

/// `+` on integers is their sum, where the sum fits in an `i64`.
pub proof fn lemma_plus_adds(l: ExprV, r: ExprV, a: i64, b: i64, env: Env)
    requires
        evaluates(l, env),
        evaluates(r, env),
        result_v(l, env) == ExprV::Int(a),
        result_v(r, env) == ExprV::Int(b),
        i64::MIN <= a + b <= i64::MAX,
    ensures
        evaluates(ExprV::Operator(Box::new(l), Operator::Plus, Box::new(r)), env),
        result_v(ExprV::Operator(Box::new(l), Operator::Plus, Box::new(r)), env) == ExprV::Int((a + b) as i64),
{
    lemma_operator_of_values(l, Operator::Plus, r, env);
}

/// `-` on integers is their difference, where it fits in an `i64`.
pub proof fn lemma_minus_subtracts(l: ExprV, r: ExprV, a: i64, b: i64, env: Env)
    requires
        evaluates(l, env),
        evaluates(r, env),
        result_v(l, env) == ExprV::Int(a),
        result_v(r, env) == ExprV::Int(b),
        i64::MIN <= a - b <= i64::MAX,
    ensures
        evaluates(ExprV::Operator(Box::new(l), Operator::Minus, Box::new(r)), env),
        result_v(ExprV::Operator(Box::new(l), Operator::Minus, Box::new(r)), env) == ExprV::Int((a - b) as i64),
{
    lemma_operator_of_values(l, Operator::Minus, r, env);
}

/// `*` on integers is their product, where it fits in an `i64`.
pub proof fn lemma_star_multiplies(l: ExprV, r: ExprV, a: i64, b: i64, env: Env)
    requires
        evaluates(l, env),
        evaluates(r, env),
        result_v(l, env) == ExprV::Int(a),
        result_v(r, env) == ExprV::Int(b),
        i64::MIN <= a * b <= i64::MAX,
    ensures
        evaluates(ExprV::Operator(Box::new(l), Operator::Star, Box::new(r)), env),
        result_v(ExprV::Operator(Box::new(l), Operator::Star, Box::new(r)), env) == ExprV::Int((a * b) as i64),
{
    lemma_operator_of_values(l, Operator::Star, r, env);
}

/// `/` and `//` on integers divide, rounding toward zero, where the divisor is
/// not zero and the quotient fits in an `i64`.
pub proof fn lemma_slash_divides(l: ExprV, r: ExprV, a: i64, b: i64, double: bool, env: Env)
    requires
        evaluates(l, env),
        evaluates(r, env),
        result_v(l, env) == ExprV::Int(a),
        result_v(r, env) == ExprV::Int(b),
        b != 0,
        !(a == i64::MIN && b == -1),
    ensures
        evaluates(
            ExprV::Operator(Box::new(l), if double { Operator::DoubleSlash } else { Operator::Slash }, Box::new(r)),
            env,
        ),
        result_v(
            ExprV::Operator(Box::new(l), if double { Operator::DoubleSlash } else { Operator::Slash }, Box::new(r)),
            env,
        ) == ExprV::Int(quotient_toward_zero(a as int, b as int) as i64),
{
    let op = if double { Operator::DoubleSlash } else { Operator::Slash };
    let q = quotient_toward_zero(a as int, b as int);
    assert(magnitude(a as int) / magnitude(b as int) <= magnitude(a as int)) by (nonlinear_arith)
        requires
            magnitude(b as int) >= 1,
            magnitude(a as int) >= 0,
    ;
    assert(i64::MIN <= q <= i64::MAX) by {
        if a == i64::MIN && magnitude(b as int) == 1 {
            assert(b == 1);
        } else if a == i64::MIN {
            assert(magnitude(a as int) / magnitude(b as int) <= magnitude(a as int) / 2) by (nonlinear_arith)
                requires
                    magnitude(b as int) >= 2,
                    magnitude(a as int) >= 0,
            ;
        }
    }
    lemma_operator_of_values(l, op, r, env);
}

/// `==` on integers is `True` exactly where they are equal.
pub proof fn lemma_equals_on_ints(l: ExprV, r: ExprV, a: i64, b: i64, env: Env)
    requires
        evaluates(l, env),
        evaluates(r, env),
        result_v(l, env) == ExprV::Int(a),
        result_v(r, env) == ExprV::Int(b),
    ensures
        evaluates(ExprV::Operator(Box::new(l), Operator::Equals, Box::new(r)), env),
        result_v(ExprV::Operator(Box::new(l), Operator::Equals, Box::new(r)), env) == truth(a == b),
{
    lemma_operator_of_values(l, Operator::Equals, r, env);
}

/// `==` on strings is `True` exactly where they hold the same characters in
/// the same order.
pub proof fn lemma_equals_on_strings(l: ExprV, r: ExprV, a: Seq<char>, b: Seq<char>, env: Env)
    requires
        evaluates(l, env),
        evaluates(r, env),
        result_v(l, env) == ExprV::Str(a),
        result_v(r, env) == ExprV::Str(b),
    ensures
        evaluates(ExprV::Operator(Box::new(l), Operator::Equals, Box::new(r)), env),
        result_v(ExprV::Operator(Box::new(l), Operator::Equals, Box::new(r)), env) == truth(
            a.len() == b.len() && forall|i: int| 0 <= i < a.len() ==> a[i] == b[i],
        ),
{
    lemma_operator_of_values(l, Operator::Equals, r, env);
    if a.len() == b.len() && forall|i: int| 0 <= i < a.len() ==> a[i] == b[i] {
        assert(a =~= b);
    }
}

/// `==` on characters is `True` exactly where they are the same character.
pub proof fn lemma_equals_on_chars(l: ExprV, r: ExprV, a: char, b: char, env: Env)
    requires
        evaluates(l, env),
        evaluates(r, env),
        result_v(l, env) == ExprV::Char(a),
        result_v(r, env) == ExprV::Char(b),
    ensures
        evaluates(ExprV::Operator(Box::new(l), Operator::Equals, Box::new(r)), env),
        result_v(ExprV::Operator(Box::new(l), Operator::Equals, Box::new(r)), env) == truth(a == b),
{
    lemma_operator_of_values(l, Operator::Equals, r, env);
}

/// `==` on variants without contents is `True` exactly where they have the same name.
pub proof fn lemma_equals_on_bare_variants(l: ExprV, r: ExprV, a: Seq<char>, b: Seq<char>, env: Env)
    requires
        evaluates(l, env),
        evaluates(r, env),
        result_v(l, env) == ExprV::ApplyVariant(a, None),
        result_v(r, env) == ExprV::ApplyVariant(b, None),
    ensures
        evaluates(ExprV::Operator(Box::new(l), Operator::Equals, Box::new(r)), env),
        result_v(ExprV::Operator(Box::new(l), Operator::Equals, Box::new(r)), env) == truth(a == b),
{
    lemma_operator_of_values(l, Operator::Equals, r, env);
}

/// `==` on variants with contents is `True` exactly where they have the same
/// name and the same number of contents; a variant with contents never equals
/// one without.
pub proof fn lemma_equals_on_variants_with_contents(l: ExprV, r: ExprV, a: Seq<char>, xs: Seq<ExprV>, b: Seq<char>, ys: Option<Seq<ExprV>>, env: Env)
    requires
        evaluates(l, env),
        evaluates(r, env),
        result_v(l, env) == ExprV::ApplyVariant(a, Some(xs)),
        result_v(r, env) == ExprV::ApplyVariant(b, ys),
    ensures
        evaluates(ExprV::Operator(Box::new(l), Operator::Equals, Box::new(r)), env),
        result_v(ExprV::Operator(Box::new(l), Operator::Equals, Box::new(r)), env) == truth(
            ys is Some && a == b && xs.len() == ys->0.len(),
        ),
{
    lemma_operator_of_values(l, Operator::Equals, r, env);
}

/// All functions are equal under `==`.
pub proof fn lemma_equals_on_functions(l: ExprV, r: ExprV, env: Env)
    requires
        evaluates(l, env),
        evaluates(r, env),
        result_v(l, env) is Closure,
        result_v(r, env) is Closure,
    ensures
        evaluates(ExprV::Operator(Box::new(l), Operator::Equals, Box::new(r)), env),
        result_v(ExprV::Operator(Box::new(l), Operator::Equals, Box::new(r)), env) == truth(true),
{
    lemma_operator_of_values(l, Operator::Equals, r, env);
}

/// The branches `(p0, body)` followed by `rest`.
pub open spec fn branches_with_first(p0: PatternV, body: ExprV, rest: Seq<(PatternV, ExprV)>) -> Seq<(PatternV, ExprV)> {
    seq![(p0, body)] + rest
}

/// A `case` whose first pattern matches the value of the scrutinee with the
/// scope `eb` evaluates that branch's body in `eb`.
proof fn lemma_case_takes(c: ExprV, p0: PatternV, body: ExprV, rest: Seq<(PatternV, ExprV)>, env: Env, eb: Env)
    requires
        evaluates(c, env),
        match_v(result_v(c, env), p0, env) == Some((eb, Ok::<(), ProblemV>(()))),
        evaluates(body, eb),
    ensures
        evaluates(ExprV::Case(Box::new(c), branches_with_first(p0, body, rest)), env),
        result_v(ExprV::Case(Box::new(c), branches_with_first(p0, body, rest)), env) == result_v(body, eb),
{
    let f = lemma_common_fuel(c, env, body, eb);
    let bs = branches_with_first(p0, body, rest);
    let e = ExprV::Case(Box::new(c), bs);
    assert(bs[0] == (p0, body));
    assert(case_v(f, result_v(c, env), bs, env) == eval_v(f, body, eb));
    assert(eval_v(f + 1, e, env) == Some(result_v(body, eb)));
    lemma_result_of_run(f + 1, e, env);
}

/// A `case` whose first pattern does not match the value of the scrutinee
/// gives what the `case` of the remaining branches gives.
proof fn lemma_case_skips(c: ExprV, p0: PatternV, body: ExprV, rest: Seq<(PatternV, ExprV)>, env: Env)
    requires
        evaluates(c, env),
        match_v(result_v(c, env), p0, env) is Some,
        (match_v(result_v(c, env), p0, env)->0).1 is Err,
        evaluates(ExprV::Case(Box::new(c), rest), env),
    ensures
        evaluates(ExprV::Case(Box::new(c), branches_with_first(p0, body, rest)), env),
        result_v(ExprV::Case(Box::new(c), branches_with_first(p0, body, rest)), env)
            == result_v(ExprV::Case(Box::new(c), rest), env),
{
    let cr = ExprV::Case(Box::new(c), rest);
    let f = lemma_common_fuel(c, env, cr, env);
    let g = (f - 1) as nat;
    assert(eval_v(g, c, env) is Some);
    lemma_result_of_run(g, c, env);
    let v = result_v(c, env);
    assert(case_v(g, v, rest, env) == Some(result_v(cr, env)));
    let bs = branches_with_first(p0, body, rest);
    assert(bs[0] == (p0, body));
    assert(bs.subrange(1, bs.len() as int) =~= rest);
    let e = ExprV::Case(Box::new(c), bs);
    assert(case_v(g, v, bs, env) == case_v(g, v, rest, env));
    assert(eval_v(f, e, env) == Some(result_v(cr, env)));
    lemma_result_of_run(f, e, env);
}

/// A `case` with no branches gives the `NoBranchesMatched` problem.
pub proof fn lemma_case_without_branches(c: ExprV, env: Env)
    requires
        evaluates(c, env),
    ensures
        evaluates(ExprV::Case(Box::new(c), Seq::empty()), env),
        result_v(ExprV::Case(Box::new(c), Seq::empty()), env) == ExprV::Error(ProblemV::NoBranchesMatched),
{
    let f = lemma_common_fuel(c, env, c, env);
    let e = ExprV::Case(Box::new(c), Seq::empty());
    assert(case_v(f, result_v(c, env), Seq::empty(), env) == Some(ExprV::Error(ProblemV::NoBranchesMatched)));
    assert(eval_v(f + 1, e, env) == Some(ExprV::Error(ProblemV::NoBranchesMatched)));
    lemma_result_of_run(f + 1, e, env);
}

/// A variant pattern without contents matches a variant value without
/// contents of the same name, binding nothing: its branch is evaluated in the
/// unchanged scope.
pub proof fn lemma_case_bare_variant_matches(c: ExprV, name: Seq<char>, body: ExprV, rest: Seq<(PatternV, ExprV)>, env: Env)
    requires
        evaluates(c, env),
        result_v(c, env) == ExprV::ApplyVariant(name, None),
        evaluates(body, env),
    ensures
        evaluates(ExprV::Case(Box::new(c), branches_with_first(PatternV::Variant(name, None), body, rest)), env),
        result_v(ExprV::Case(Box::new(c), branches_with_first(PatternV::Variant(name, None), body, rest)), env)
            == result_v(body, env),
{
    lemma_case_takes(c, PatternV::Variant(name, None), body, rest, env, env);
}

/// A variant pattern does not match a variant of another name, nor a value
/// that is not a variant: the `case` goes on with the remaining branches.
pub proof fn lemma_case_variant_pattern_skips(c: ExprV, name: Seq<char>, pats: Option<Seq<PatternV>>, body: ExprV, rest: Seq<(PatternV, ExprV)>, env: Env)
    requires
        evaluates(c, env),
        !(result_v(c, env) is ApplyVariant) || result_v(c, env)->ApplyVariant_0 != name,
        evaluates(ExprV::Case(Box::new(c), rest), env),
    ensures
        evaluates(ExprV::Case(Box::new(c), branches_with_first(PatternV::Variant(name, pats), body, rest)), env),
        result_v(ExprV::Case(Box::new(c), branches_with_first(PatternV::Variant(name, pats), body, rest)), env)
            == result_v(ExprV::Case(Box::new(c), rest), env),
{
    lemma_case_skips(c, PatternV::Variant(name, pats), body, rest, env);
}

/// An identifier pattern matches anything and binds the value to its name.
pub proof fn lemma_case_identifier_binds(c: ExprV, name: Seq<char>, body: ExprV, rest: Seq<(PatternV, ExprV)>, env: Env)
    requires
        evaluates(c, env),
        evaluates(body, env.insert(name, result_v(c, env))),
    ensures
        evaluates(ExprV::Case(Box::new(c), branches_with_first(PatternV::Identifier(name), body, rest)), env),
        result_v(ExprV::Case(Box::new(c), branches_with_first(PatternV::Identifier(name), body, rest)), env)
            == result_v(body, env.insert(name, result_v(c, env))),
{
    lemma_case_takes(c, PatternV::Identifier(name), body, rest, env, env.insert(name, result_v(c, env)));
}

/// `_` matches anything and binds nothing.
pub proof fn lemma_case_underscore_matches(c: ExprV, body: ExprV, rest: Seq<(PatternV, ExprV)>, env: Env)
    requires
        evaluates(c, env),
        evaluates(body, env),
    ensures
        evaluates(ExprV::Case(Box::new(c), branches_with_first(PatternV::Underscore, body, rest)), env),
        result_v(ExprV::Case(Box::new(c), branches_with_first(PatternV::Underscore, body, rest)), env)
            == result_v(body, env),
{
    lemma_case_takes(c, PatternV::Underscore, body, rest, env, env);
}

/// `{}` matches the empty record and binds nothing; it does not match any other value.
pub proof fn lemma_case_empty_record(c: ExprV, body: ExprV, rest: Seq<(PatternV, ExprV)>, env: Env)
    requires
        evaluates(c, env),
        result_v(c, env) == ExprV::EmptyRecord ==> evaluates(body, env),
        result_v(c, env) != ExprV::EmptyRecord ==> evaluates(ExprV::Case(Box::new(c), rest), env),
    ensures
        evaluates(ExprV::Case(Box::new(c), branches_with_first(PatternV::EmptyRecord, body, rest)), env),
        result_v(ExprV::Case(Box::new(c), branches_with_first(PatternV::EmptyRecord, body, rest)), env)
            == if result_v(c, env) == ExprV::EmptyRecord {
                result_v(body, env)
            } else {
                result_v(ExprV::Case(Box::new(c), rest), env)
            },
{
    if result_v(c, env) == ExprV::EmptyRecord {
        lemma_case_takes(c, PatternV::EmptyRecord, body, rest, env, env);
    } else {
        lemma_case_skips(c, PatternV::EmptyRecord, body, rest, env);
    }
}

/// An integer pattern matches exactly the equal integer, binding nothing; an
/// unequal integer goes on with the remaining branches.
pub proof fn lemma_case_integer(c: ExprV, k: i64, m: i64, body: ExprV, rest: Seq<(PatternV, ExprV)>, env: Env)
    requires
        evaluates(c, env),
        result_v(c, env) == ExprV::Int(m),
        k == m ==> evaluates(body, env),
        k != m ==> evaluates(ExprV::Case(Box::new(c), rest), env),
    ensures
        evaluates(ExprV::Case(Box::new(c), branches_with_first(PatternV::Integer(k), body, rest)), env),
        result_v(ExprV::Case(Box::new(c), branches_with_first(PatternV::Integer(k), body, rest)), env)
            == if k == m {
                result_v(body, env)
            } else {
                result_v(ExprV::Case(Box::new(c), rest), env)
            },
{
    if k == m {
        lemma_case_takes(c, PatternV::Integer(k), body, rest, env, env);
    } else {
        lemma_case_skips(c, PatternV::Integer(k), body, rest, env);
    }
}

/// No name occurs twice.
pub open spec fn distinct_names(ids: Seq<Seq<char>>) -> bool {
    forall|i: int, j: int| 0 <= i < j < ids.len() ==> ids[i] != ids[j]
}

/// `after` is `before` with each `ids[i]` bound to `vals[i]`: those names are
/// bound to those values, every other name keeps its binding, and nothing else
/// is bound.
pub open spec fn binds_each(before: Env, ids: Seq<Seq<char>>, vals: Seq<ExprV>, after: Env) -> bool {
    &&& forall|k: Seq<char>| #[trigger] after.dom().contains(k) <==> (before.dom().contains(k) || ids.contains(k))
    &&& forall|i: int| 0 <= i < ids.len() ==> #[trigger] after[ids[i]] == vals[i]
    &&& forall|k: Seq<char>| #[trigger] before.dom().contains(k) && !ids.contains(k) ==> after[k] == before[k]
}

/// Identifier patterns, one for each name, in order.
pub open spec fn identifier_patterns(ids: Seq<Seq<char>>) -> Seq<PatternV> {
    ids.map_values(|x: Seq<char>| PatternV::Identifier(x))
}

/// The values of the expressions, in order.
pub open spec fn values_of(args: Seq<ExprV>, env: Env) -> Seq<ExprV> {
    Seq::new(args.len(), |i: int| result_v(args[i], env))
}

proof fn lemma_match_identifiers(vals: Seq<ExprV>, ids: Seq<Seq<char>>, env: Env, after: Env)
    requires
        vals.len() == ids.len(),
        distinct_names(ids),
        binds_each(env, ids, vals, after),
    ensures
        match_seq_v(vals, identifier_patterns(ids), env) == Some((after, Ok::<(), ProblemV>(()))),
    decreases ids.len(),
{
    let pats = identifier_patterns(ids);
    if ids.len() == 0 {
        assert(after =~= env) by {
            assert forall|k: Seq<char>| after.dom().contains(k) <==> env.dom().contains(k) by {
                if ids.contains(k) {
                    let i = choose|i: int| 0 <= i < ids.len() && ids[i] == k;
                }
            }
            assert forall|k: Seq<char>| #[trigger] env.dom().contains(k) implies after[k] == env[k] by {
                if ids.contains(k) {
                    let i = choose|i: int| 0 <= i < ids.len() && ids[i] == k;
                }
            }
        }
        assert(match_seq_v(vals, pats, env) == Some((env, Ok::<(), ProblemV>(()))));
    } else {
        let n = ids.len() as int;
        let last = ids[n - 1];
        let ip = ids.subrange(0, n - 1);
        let vp = vals.subrange(0, n - 1);
        let mid = if env.dom().contains(last) {
            after.insert(last, env[last])
        } else {
            after.remove(last)
        };
        assert(!ip.contains(last)) by {
            if ip.contains(last) {
                let i = choose|i: int| 0 <= i < ip.len() && ip[i] == last;
                assert(ids[i] == last);
            }
        }
        assert forall|i: int, j: int| 0 <= i < j < ip.len() implies ip[i] != ip[j] by {
            assert(ip[i] == ids[i] && ip[j] == ids[j]);
        }
        assert forall|k: Seq<char>| #[trigger] mid.dom().contains(k) <==> (env.dom().contains(k) || ip.contains(k)) by {
            if ip.contains(k) {
                let i = choose|i: int| 0 <= i < ip.len() && ip[i] == k;
                assert(ids[i] == k);
                assert(ids.contains(k));
            }
            if k != last && ids.contains(k) {
                let i = choose|i: int| 0 <= i < ids.len() && ids[i] == k;
                assert(i != n - 1);
                assert(ip[i] == k);
            }
            if k == last {
                assert(ids[n - 1] == k);
                assert(ids.contains(k));
            }
        }
        assert forall|i: int| 0 <= i < ip.len() implies #[trigger] mid[ip[i]] == vp[i] by {
            assert(ip[i] == ids[i]);
            assert(ids[i] != last);
            assert(after[ids[i]] == vals[i]);
        }
        assert forall|k: Seq<char>| #[trigger] env.dom().contains(k) && !ip.contains(k) implies mid[k] == env[k] by {
            if k != last {
                if ids.contains(k) {
                    let i = choose|i: int| 0 <= i < ids.len() && ids[i] == k;
                    assert(i != n - 1);
                    assert(ip[i] == k);
                }
            }
        }
        lemma_match_identifiers(vp, ip, env, mid);
        assert(pats.subrange(0, n - 1) =~= identifier_patterns(ip));
        assert(pats[n - 1] == PatternV::Identifier(last));
        assert(after[ids[n - 1]] == vals[n - 1]);
        assert(after.dom().contains(last)) by {
            assert(ids.contains(last));
        }
        assert(mid.insert(last, vals[n - 1]) =~= after);
        assert(vals.subrange(0, n - 1) == vp);
        assert(match_seq_v(vp, pats.subrange(0, n - 1), env) == Some((mid, Ok::<(), ProblemV>(()))));
        assert(match_v(vals[n - 1], pats[n - 1], mid) == Some((after, Ok::<(), ProblemV>(()))));
    }
}

proof fn args_fuel(args: Seq<ExprV>, env: Env) -> (f: nat)
    requires
        forall|i: int| 0 <= i < args.len() ==> #[trigger] evaluates(args[i], env),
    ensures
        eval_seq_v(f, args, env) == Some(values_of(args, env)),
    decreases args.len(),
{
    if args.len() == 0 {
        assert(values_of(args, env) =~= Seq::<ExprV>::empty());
        0
    } else {
        let n = args.len() as int;
        let p = args.subrange(0, n - 1);
        assert forall|i: int| 0 <= i < p.len() implies #[trigger] evaluates(p[i], env) by {
            assert(p[i] == args[i]);
        }
        let f1 = args_fuel(p, env);
        assert(evaluates(args[n - 1], env));
        let f2 = lemma_common_fuel(args[n - 1], env, args[n - 1], env);
        let f = if f1 <= f2 { f2 } else { f1 };
        lemma_eval_seq_mono(f1, f, p, env);
        lemma_eval_mono(f2, f, args[n - 1], env);
        assert(values_of(p, env).push(result_v(args[n - 1], env)) =~= values_of(args, env));
        f
    }
}

/// Calling a closure whose parameters are distinct names evaluates the
/// arguments in the caller's scope and evaluates the body in that scope with
/// the `i`-th parameter bound to the value of the `i`-th argument.
pub proof fn lemma_call_binds_parameters(ids: Seq<Seq<char>>, body: ExprV, args: Seq<ExprV>, env: Env, inner: Env)
    requires
        ids.len() == args.len(),
        distinct_names(ids),
        forall|i: int| 0 <= i < args.len() ==> #[trigger] evaluates(args[i], env),
        binds_each(env, ids, values_of(args, env), inner),
        evaluates(body, inner),
    ensures
        evaluates(ExprV::Apply(Box::new(ExprV::Closure(identifier_patterns(ids), Box::new(body))), args), env),
        result_v(ExprV::Apply(Box::new(ExprV::Closure(identifier_patterns(ids), Box::new(body))), args), env)
            == result_v(body, inner),
{
    let fa = args_fuel(args, env);
    let fb = lemma_common_fuel(body, inner, body, inner);
    let f = if fa <= fb { fb + 1 } else { fa + 1 };
    lemma_eval_seq_mono(fa, f, args, env);
    lemma_eval_mono(fb, f, body, inner);
    let vals = values_of(args, env);
    lemma_match_identifiers(vals, ids, env, inner);
    let clo = ExprV::Closure(identifier_patterns(ids), Box::new(body));
    let e = ExprV::Apply(Box::new(clo), args);
    assert(identifier_patterns(ids).len() == vals.len());
    assert(crate::semantics::bind_v(vals, identifier_patterns(ids), env) == Some(Ok::<Env, ProblemV>(inner)));
    assert(crate::semantics::apply_v(f, clo, args, env) == Some(result_v(body, inner)));
    assert(eval_v(f, clo, env) == Some(clo));
    assert(eval_v(f + 1, e, env) == Some(result_v(body, inner)));
    lemma_result_of_run(f + 1, e, env);
}

/// A variant pattern whose contents are distinct names matches a variant of
/// the same name with as many contents, binding each name to the content in
/// its place.
pub proof fn lemma_case_variant_binds_contents(c: ExprV, name: Seq<char>, ids: Seq<Seq<char>>, vals: Seq<ExprV>, body: ExprV, rest: Seq<(PatternV, ExprV)>, env: Env, inner: Env)
    requires
        evaluates(c, env),
        result_v(c, env) == ExprV::ApplyVariant(name, Some(vals)),
        ids.len() == vals.len(),
        distinct_names(ids),
        binds_each(env, ids, vals, inner),
        evaluates(body, inner),
    ensures
        evaluates(ExprV::Case(Box::new(c), branches_with_first(PatternV::Variant(name, Some(identifier_patterns(ids))), body, rest)), env),
        result_v(ExprV::Case(Box::new(c), branches_with_first(PatternV::Variant(name, Some(identifier_patterns(ids))), body, rest)), env)
            == result_v(body, inner),
{
    lemma_match_identifiers(vals, ids, env, inner);
    lemma_case_takes(c, PatternV::Variant(name, Some(identifier_patterns(ids))), body, rest, env, inner);
}

/// The string bound to a name (where it is bound to a string).
pub open spec fn bound_text(env: Env, name: Seq<char>) -> Seq<char> {
    env[name]->Str_0
}

/// An interpolated string whose variables are all bound to strings is the
/// text of each pair followed by the string bound to its variable, the pairs
/// in order, then the trailing text.
pub proof fn lemma_interpolation_joins_in_order(pairs: Seq<(Seq<char>, Seq<char>)>, trailing: Seq<char>, env: Env)
    requires
        forall|i: int| 0 <= i < pairs.len() ==> #[trigger] env.dom().contains(pairs[i].1) && env[pairs[i].1] is Str,
    ensures
        evaluates(ExprV::InterpolatedStr(pairs, trailing), env),
        result_v(ExprV::InterpolatedStr(pairs, trailing), env) == ExprV::Str(
            Seq::new(pairs.len(), |i: int| pairs[i].0 + bound_text(env, pairs[i].1)).flatten() + trailing,
        ),
{
    lemma_interp_joins(pairs, env);
    let e = ExprV::InterpolatedStr(pairs, trailing);
    assert(eval_v(1, e, env) == Some(ExprV::Str(
        Seq::new(pairs.len(), |i: int| pairs[i].0 + bound_text(env, pairs[i].1)).flatten() + trailing,
    )));
    lemma_result_of_run(1, e, env);
}

proof fn lemma_interp_joins(pairs: Seq<(Seq<char>, Seq<char>)>, env: Env)
    requires
        forall|i: int| 0 <= i < pairs.len() ==> #[trigger] env.dom().contains(pairs[i].1) && env[pairs[i].1] is Str,
    ensures
        crate::semantics::interp_v(pairs, env) == Ok::<Seq<char>, ProblemV>(
            Seq::new(pairs.len(), |i: int| pairs[i].0 + bound_text(env, pairs[i].1)).flatten(),
        ),
    decreases pairs.len(),
{
    let parts = Seq::new(pairs.len(), |i: int| pairs[i].0 + bound_text(env, pairs[i].1));
    if pairs.len() == 0 {
        assert(parts =~= Seq::<Seq<char>>::empty());
    } else {
        let n = pairs.len() as int;
        let p = pairs.subrange(0, n - 1);
        assert forall|i: int| 0 <= i < p.len() implies #[trigger] env.dom().contains(p[i].1) && env[p[i].1] is Str by {
            assert(p[i] == pairs[i]);
        }
        lemma_interp_joins(p, env);
        let pparts = Seq::new(p.len(), |i: int| p[i].0 + bound_text(env, p[i].1));
        assert(pparts.push(parts[n - 1]) =~= parts);
        pparts.lemma_flatten_push(parts[n - 1]);
        assert(env.dom().contains(pairs[n - 1].1) && env[pairs[n - 1].1] is Str);
        assert(pparts.flatten() + pairs[n - 1].0 + bound_text(env, pairs[n - 1].1) =~= pparts.flatten() + parts[n - 1]);
    }
}

/// Whether two values are of kinds that `==` compares: two functions, two
/// variants, two integers, two strings, two characters or two fractions.
pub open spec fn same_kind(a: ExprV, b: ExprV) -> bool {
    ||| (a is Closure && b is Closure)
    ||| (a is ApplyVariant && b is ApplyVariant)
    ||| (a is Int && b is Int)
    ||| (a is Str && b is Str)
    ||| (a is Char && b is Char)
    ||| (a is Frac && b is Frac)
}

/// `==` on two values of kinds that it does not compare (neither an error)
/// gives a type mismatch.
pub proof fn lemma_equals_on_mismatched_kinds(l: ExprV, r: ExprV, env: Env)
    requires
        evaluates(l, env),
        evaluates(r, env),
        !(result_v(l, env) is Error),
        !(result_v(r, env) is Error),
        !same_kind(result_v(l, env), result_v(r, env)),
    ensures
        evaluates(ExprV::Operator(Box::new(l), Operator::Equals, Box::new(r)), env),
        result_v(ExprV::Operator(Box::new(l), Operator::Equals, Box::new(r)), env) == ExprV::Error(
            ProblemV::TypeMismatch("tried to use == on two values with incompatible types"@),
        ),
{
    lemma_operator_of_values(l, Operator::Equals, r, env);
}

/// An error on the right of an operator whose left operand is not an error is
/// the operator's result.
pub proof fn lemma_right_error_propagates(l: ExprV, op: Operator, r: ExprV, env: Env)
    requires
        evaluates(l, env),
        evaluates(r, env),
        !(result_v(l, env) is Error),
        result_v(r, env) is Error,
    ensures
        evaluates(ExprV::Operator(Box::new(l), op, Box::new(r)), env),
        result_v(ExprV::Operator(Box::new(l), op, Box::new(r)), env) == result_v(r, env),
{
    lemma_operator_of_values(l, op, r, env);
}

/// A name that is not bound reads as the `UnrecognizedVarName` problem.
pub proof fn lemma_unbound_variable(name: Seq<char>, env: Env)
    requires
        !env.dom().contains(name),
    ensures
        evaluates(ExprV::Var(name), env),
        result_v(ExprV::Var(name), env) == ExprV::Error(ProblemV::UnrecognizedVarName(name)),
{
    assert(eval_v(1, ExprV::Var(name), env) == Some(ExprV::Error(ProblemV::UnrecognizedVarName(name))));
    lemma_result_of_run(1, ExprV::Var(name), env);
}

/// A bound name reads as its value.
pub proof fn lemma_bound_variable(name: Seq<char>, env: Env)
    requires
        env.dom().contains(name),
    ensures
        evaluates(ExprV::Var(name), env),
        result_v(ExprV::Var(name), env) == env[name],
{
    assert(eval_v(1, ExprV::Var(name), env) == Some(env[name]));
    lemma_result_of_run(1, ExprV::Var(name), env);
}

/// A variant with contents evaluates each of them, in order, and keeps its name.
pub proof fn lemma_variant_evaluates_contents(name: Seq<char>, args: Seq<ExprV>, env: Env)
    requires
        forall|i: int| 0 <= i < args.len() ==> #[trigger] evaluates(args[i], env),
    ensures
        evaluates(ExprV::ApplyVariant(name, Some(args)), env),
        result_v(ExprV::ApplyVariant(name, Some(args)), env) == ExprV::ApplyVariant(name, Some(values_of(args, env))),
{
    let f = args_fuel(args, env);
    let e = ExprV::ApplyVariant(name, Some(args));
    assert(eval_v(f + 1, e, env) == Some(ExprV::ApplyVariant(name, Some(values_of(args, env)))));
    lemma_result_of_run(f + 1, e, env);
}

/// `if` on a condition that is neither `True` nor `False` gives a type mismatch.
pub proof fn lemma_if_needs_a_bool(cond: ExprV, if_true: ExprV, if_false: ExprV, env: Env)
    requires
        evaluates(cond, env),
        result_v(cond, env) != ExprV::ApplyVariant("True"@, None),
        result_v(cond, env) != ExprV::ApplyVariant("False"@, None),
    ensures
        evaluates(ExprV::If(Box::new(cond), Box::new(if_true), Box::new(if_false)), env),
        result_v(ExprV::If(Box::new(cond), Box::new(if_true), Box::new(if_false)), env) == ExprV::Error(
            ProblemV::TypeMismatch("non-Bool used in `if` condition"@),
        ),
{
    let f = lemma_common_fuel(cond, env, cond, env);
    let e = ExprV::If(Box::new(cond), Box::new(if_true), Box::new(if_false));
    assert(eval_v(f + 1, e, env) == Some(ExprV::Error(ProblemV::TypeMismatch("non-Bool used in `if` condition"@))));
    lemma_result_of_run(f + 1, e, env);
}

/// Calling a closure on a number of arguments other than its number of
/// parameters gives `WrongArity(parameters, arguments)`.
pub proof fn lemma_call_wrong_arity(pats: Seq<PatternV>, body: ExprV, args: Seq<ExprV>, env: Env)
    requires
        pats.len() != args.len(),
        forall|i: int| 0 <= i < args.len() ==> #[trigger] evaluates(args[i], env),
    ensures
        evaluates(ExprV::Apply(Box::new(ExprV::Closure(pats, Box::new(body))), args), env),
        result_v(ExprV::Apply(Box::new(ExprV::Closure(pats, Box::new(body))), args), env) == ExprV::Error(
            ProblemV::WrongArity(pats.len() as u32, args.len() as u32),
        ),
{
    let f = args_fuel(args, env) + 1;
    lemma_eval_seq_mono((f - 1) as nat, f, args, env);
    let clo = ExprV::Closure(pats, Box::new(body));
    let e = ExprV::Apply(Box::new(clo), args);
    assert(values_of(args, env).len() == args.len());
    assert(eval_seq_v(f, args, env) == Some(values_of(args, env)));
    assert(crate::semantics::bind_v(values_of(args, env), pats, env) == Some(
        Err::<Env, ProblemV>(ProblemV::WrongArity(pats.len() as u32, args.len() as u32)),
    ));
    assert(crate::semantics::apply_v(f, clo, args, env) == Some(
        ExprV::Error(ProblemV::WrongArity(pats.len() as u32, args.len() as u32)),
    ));
    assert(eval_v(f, clo, env) == Some(clo));
    assert(eval_v(f + 1, e, env) == Some(ExprV::Error(ProblemV::WrongArity(pats.len() as u32, args.len() as u32))));
    lemma_result_of_run(f + 1, e, env);
}

/// Calling a value that is not a function gives a type mismatch naming it,
/// without evaluating the arguments.
pub proof fn lemma_call_non_function(func: ExprV, args: Seq<ExprV>, env: Env)
    requires
        evaluates(func, env),
        !(result_v(func, env) is Closure),
    ensures
        evaluates(ExprV::Apply(Box::new(func), args), env),
        result_v(ExprV::Apply(Box::new(func), args), env) == ExprV::Error(
            ProblemV::TypeMismatch("Tried to call a non-function: "@ + crate::render::render_v(result_v(func, env))),
        ),
{
    let f = lemma_common_fuel(func, env, func, env);
    let e = ExprV::Apply(Box::new(func), args);
    assert(crate::semantics::apply_v(f, result_v(func, env), args, env) == Some(ExprV::Error(
        ProblemV::TypeMismatch("Tried to call a non-function: "@ + crate::render::render_v(result_v(func, env))),
    )));
    assert(eval_v(f + 1, e, env) == Some(ExprV::Error(
        ProblemV::TypeMismatch("Tried to call a non-function: "@ + crate::render::render_v(result_v(func, env))),
    )));
    lemma_result_of_run(f + 1, e, env);
}

/// Calling by name is calling the value that the name reads as.
pub proof fn lemma_call_by_name(name: Seq<char>, args: Seq<ExprV>, env: Env)
    requires
        evaluates(ExprV::Apply(Box::new(ExprV::Var(name)), args), env),
    ensures
        evaluates(ExprV::CallByName(name, args), env),
        result_v(ExprV::CallByName(name, args), env) == result_v(ExprV::Apply(Box::new(ExprV::Var(name)), args), env),
{
    let a = ExprV::Apply(Box::new(ExprV::Var(name)), args);
    let f = lemma_common_fuel(a, env, a, env);
    let g = (f - 1) as nat;
    assert(eval_v(g, ExprV::Var(name), env) == Some(crate::semantics::lookup_v(env, name)));
    assert(eval_v(f, ExprV::CallByName(name, args), env) == eval_v(f, a, env));
    lemma_result_of_run(f, ExprV::CallByName(name, args), env);
}

/// Assigning to `{}` evaluates the definition, discards its value, and gives
/// the value of the body in the unchanged scope.
pub proof fn lemma_empty_record_assignment_discards(defn: ExprV, body: ExprV, env: Env)
    requires
        evaluates(defn, env),
        evaluates(body, env),
    ensures
        evaluates(ExprV::Assign(PatternV::EmptyRecord, Box::new(defn), Box::new(body)), env),
        result_v(ExprV::Assign(PatternV::EmptyRecord, Box::new(defn), Box::new(body)), env) == result_v(body, env),
{
    let f = lemma_common_fuel(defn, env, body, env);
    let a = ExprV::Assign(PatternV::EmptyRecord, Box::new(defn), Box::new(body));
    assert(eval_v(f + 1, a, env) == Some(result_v(body, env)));
    lemma_result_of_run(f + 1, a, env);
}

/// An interpolated string whose first `k` variables are bound to strings and
/// whose `k`-th variable is unbound gives `UnrecognizedVarName` of it; bound
/// to something other than a string, it gives `TypeMismatch` of it.
pub proof fn lemma_interpolation_first_bad_variable(pairs: Seq<(Seq<char>, Seq<char>)>, trailing: Seq<char>, k: int, env: Env)
    requires
        0 <= k < pairs.len(),
        forall|i: int| 0 <= i < k ==> #[trigger] env.dom().contains(pairs[i].1) && env[pairs[i].1] is Str,
        !(env.dom().contains(pairs[k].1) && env[pairs[k].1] is Str),
    ensures
        evaluates(ExprV::InterpolatedStr(pairs, trailing), env),
        result_v(ExprV::InterpolatedStr(pairs, trailing), env) == ExprV::Error(
            if env.dom().contains(pairs[k].1) {
                ProblemV::TypeMismatch(pairs[k].1)
            } else {
                ProblemV::UnrecognizedVarName(pairs[k].1)
            },
        ),
{
    let p = pairs.subrange(0, k);
    assert forall|i: int| 0 <= i < p.len() implies #[trigger] env.dom().contains(p[i].1) && env[p[i].1] is Str by {
        assert(p[i] == pairs[i]);
        assert(env.dom().contains(pairs[i].1));
    }
    lemma_interp_joins(p, env);
    crate::semantics::lemma_interp_step(pairs, env, k);
    crate::semantics::lemma_interp_prefix(pairs, env, k + 1);
    let e = ExprV::InterpolatedStr(pairs, trailing);
    let err = if env.dom().contains(pairs[k].1) {
        ProblemV::TypeMismatch(pairs[k].1)
    } else {
        ProblemV::UnrecognizedVarName(pairs[k].1)
    };
    assert(crate::semantics::interp_v(pairs, env) == Err::<Seq<char>, ProblemV>(err));
    assert(eval_v(1, e, env) == Some(ExprV::Error(err)));
    lemma_result_of_run(1, e, env);
}

/// The number that a string of decimal digits stands for.
pub open spec fn decimal_value(s: Seq<char>) -> int
    decreases s.len(),
{
    if s.len() == 0 {
        0
    } else {
        decimal_value(s.subrange(0, s.len() - 1)) * 10 + ((s[s.len() - 1] as int) - ('0' as int))
    }
}

/// A decimal numeral: one or more digits, without a leading zero unless it is `0`.
pub open spec fn is_numeral(s: Seq<char>) -> bool {
    &&& s.len() >= 1
    &&& forall|i: int| 0 <= i < s.len() ==> '0' <= #[trigger] s[i] <= '9'
    &&& (s[0] == '0' ==> s.len() == 1)
}

proof fn lemma_digit_char(d: int)
    requires
        0 <= d < 10,
    ensures
        '0' <= crate::render::digit_char(d) <= '9',
        (crate::render::digit_char(d) as int) - ('0' as int) == d,
{
}

proof fn lemma_nat_text(n: nat)
    ensures
        is_numeral(crate::render::nat_text(n)),
        decimal_value(crate::render::nat_text(n)) == n,
    decreases n,
{
    let t = crate::render::nat_text(n);
    if n < 10 {
        lemma_digit_char(n as int);
        assert(t.subrange(0, 0) =~= Seq::<char>::empty());
        assert(decimal_value(Seq::<char>::empty()) == 0);
        assert(decimal_value(t) == decimal_value(t.subrange(0, 0)) * 10 + ((t[0] as int) - ('0' as int)));
    } else {
        lemma_nat_text(n / 10);
        lemma_digit_char((n % 10) as int);
        let p = crate::render::nat_text(n / 10);
        assert(t.subrange(0, t.len() - 1) =~= p);
        assert(t[0] == p[0]);
        assert(n / 10 > 0);
        assert(p.len() >= 2 || p[0] != '0') by {
            if p.len() == 1 && p[0] == '0' {
                assert(decimal_value(p) == decimal_value(p.subrange(0, 0)) * 10 + 0);
                assert(p.subrange(0, 0) =~= Seq::<char>::empty());
            }
        }
        assert forall|i: int| 0 <= i < t.len() implies '0' <= #[trigger] t[i] <= '9' by {
            if i < t.len() - 1 {
                assert(t[i] == p[i]);
            }
        }
        assert(decimal_value(t) == decimal_value(p) * 10 + (n % 10));
        assert((n / 10) * 10 + n % 10 == n);
    }
}

/// The text of an integer is a decimal numeral for its magnitude, preceded by
/// `-` exactly where it is negative.
pub proof fn lemma_integer_text(n: i64)
    ensures
        ({
            let t = crate::render::render_v(ExprV::Int(n));
            let digits = if n < 0 { t.subrange(1, t.len() as int) } else { t };
            &&& (n < 0) == (t.len() > 0 && t[0] == '-')
            &&& is_numeral(digits)
            &&& decimal_value(digits) == magnitude(n as int)
        }),
{
    let t = crate::render::render_v(ExprV::Int(n));
    if n < 0 {
        lemma_nat_text((-n) as nat);
        assert(t.subrange(1, t.len() as int) =~= crate::render::nat_text((-n) as nat));
    } else {
        lemma_nat_text(n as nat);
        let d = crate::render::nat_text(n as nat);
        assert(d[0] != '-') by {
            assert('0' <= d[0] <= '9');
        }
    }
}

} // verus!
