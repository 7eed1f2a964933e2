use std::rc::Rc;

use im_rc::hashmap::HashMap;
use roc::eval::{eval, from_evaluated, scoped_eval, Evaluated};
use roc::expr::{Expr, Operator, Pattern, Problem};
use roc::patterns::{Branches, Patterns};
use roc::scope::{bind, empty_scope};

fn boxed_int(n: i64) -> Box<Expr> {
    Box::new(Expr::Int(n))
}

fn s(text: &str) -> String {
    text.to_string()
}

fn op(l: Expr, o: Operator, r: Expr) -> Expr {
    Expr::Operator(Box::new(l), o, Box::new(r))
}

fn variant(name: &str) -> Expr {
    Expr::ApplyVariant(s(name), None)
}

fn closure(params: Vec<Pattern>, body: Expr) -> Expr {
    Expr::Closure(Patterns::from_vec(params), Box::new(body))
}

fn assign(name: &str, defn: Expr, body: Expr) -> Expr {
    Expr::Assign(Pattern::Identifier(s(name)), Box::new(defn), Box::new(body))
}

fn value(e: Expr) -> Expr {
    from_evaluated(eval(e))
}

fn mismatch(msg: &str) -> Expr {
    Expr::Error(Problem::TypeMismatch(s(msg)))
}

#[test]
fn primitives_evaluate_to_themselves() {
    assert_eq!(value(Expr::Int(1234)), Expr::Int(1234));
    assert_eq!(value(Expr::Str(s("hi"))), Expr::Str(s("hi")));
    assert_eq!(value(Expr::Char('x')), Expr::Char('x'));
    assert_eq!(value(Expr::Frac(1, 2)), Expr::Frac(1, 2));
    assert_eq!(value(Expr::EmptyStr), Expr::EmptyStr);
    assert_eq!(value(Expr::EmptyRecord), Expr::EmptyRecord);
    assert_eq!(value(Expr::Error(Problem::NotEqual)), Expr::Error(Problem::NotEqual));
    assert_eq!(value(variant("Nothing")), variant("Nothing"));
}

#[test]
fn integer_arithmetic() {
    assert_eq!(value(op(Expr::Int(1234), Operator::Plus, Expr::Int(567))), Expr::Int(1801));
    assert_eq!(value(op(Expr::Int(3), Operator::Minus, Expr::Int(10))), Expr::Int(-7));
    assert_eq!(value(op(Expr::Int(-6), Operator::Star, Expr::Int(7))), Expr::Int(-42));
    // Division truncates toward zero.
    assert_eq!(value(op(Expr::Int(-7), Operator::Slash, Expr::Int(2))), Expr::Int(-3));
    assert_eq!(value(op(Expr::Int(7), Operator::DoubleSlash, Expr::Int(2))), Expr::Int(3));
    // 1 + 2 * 3
    let e = op(Expr::Int(1), Operator::Plus, op(Expr::Int(2), Operator::Star, Expr::Int(3)));
    assert_eq!(value(e), Expr::Int(7));
}

#[test]
fn equality() {
    assert_eq!(value(op(Expr::Int(3), Operator::Equals, Expr::Int(3))), variant("True"));
    assert_eq!(value(op(Expr::Int(3), Operator::Equals, Expr::Int(4))), variant("False"));
    assert_eq!(value(op(Expr::Str(s("a")), Operator::Equals, Expr::Str(s("a")))), variant("True"));
    assert_eq!(value(op(Expr::Char('a'), Operator::Equals, Expr::Char('b'))), variant("False"));
    assert_eq!(value(op(variant("Red"), Operator::Equals, variant("Red"))), variant("True"));
    assert_eq!(value(op(variant("Red"), Operator::Equals, variant("Blue"))), variant("False"));
    let f = || closure(vec![Pattern::Underscore], Expr::Int(1));
    let g = || closure(vec![], Expr::Int(2));
    assert_eq!(value(op(f(), Operator::Equals, g())), variant("True"));
    let some = |n: i64| Expr::ApplyVariant(s("Some"), Some(vec![Expr::Int(n)]));
    // Variants with contents compare by name and number of contents.
    assert_eq!(value(op(some(1), Operator::Equals, some(2))), variant("True"));
    assert_eq!(value(op(some(1), Operator::Equals, variant("Some"))), variant("False"));
    let incompatible = "tried to use == on two values with incompatible types";
    assert_eq!(value(op(Expr::Int(1), Operator::Equals, Expr::Str(s("1")))), mismatch(incompatible));
    assert_eq!(value(op(Expr::EmptyStr, Operator::Equals, Expr::EmptyStr)), mismatch(incompatible));
}

#[test]
fn equality_is_symmetric() {
    let pairs = vec![
        (Expr::Int(1), Expr::Int(2)),
        (variant("A"), Expr::ApplyVariant(s("A"), Some(vec![Expr::Int(1)]))),
        (Expr::Str(s("x")), Expr::Char('x')),
        (Expr::Int(5), Expr::Error(Problem::NotEqual)),
    ];
    for (a, b) in pairs {
        let ab = value(op(a.copy(), Operator::Equals, b.copy()));
        let ba = value(op(b, Operator::Equals, a));
        assert_eq!(ab, ba);
    }
}

#[test]
fn errors_propagate_through_operators() {
    let unbound = Expr::Error(Problem::UnrecognizedVarName(s("x")));
    assert_eq!(value(op(Expr::Var(s("x")), Operator::Plus, Expr::Int(1))), unbound.copy());
    assert_eq!(value(op(Expr::Int(1), Operator::Star, Expr::Var(s("x")))), unbound.copy());
    let left_first = op(Expr::Var(s("x")), Operator::Equals, Expr::Var(s("y")));
    assert_eq!(value(left_first), unbound);
}

#[test]
fn variables_read_back_what_was_assigned() {
    let e = assign("x", op(Expr::Int(2), Operator::Plus, Expr::Int(3)), Expr::Var(s("x")));
    assert_eq!(value(e), Expr::Int(5));
    let e = assign("x", Expr::Int(1), assign("y", Expr::Int(2), op(Expr::Var(s("x")), Operator::Minus, Expr::Var(s("y")))));
    assert_eq!(value(e), Expr::Int(-1));
    assert_eq!(value(Expr::Var(s("nope"))), Expr::Error(Problem::UnrecognizedVarName(s("nope"))));
}

#[test]
fn reassignment_is_refused() {
    let e = assign("x", Expr::Int(1), assign("x", Expr::Int(2), Expr::Var(s("x"))));
    assert_eq!(value(e), Expr::Error(Problem::ReassignedVarName(s("x"))));
}

#[test]
fn underscore_and_empty_record_assignments_discard() {
    let e = Expr::Assign(Pattern::Underscore, boxed_int(1), Box::new(Expr::Str(s("kept"))));
    assert_eq!(value(e), Expr::Str(s("kept")));
    let e = Expr::Assign(Pattern::EmptyRecord, Box::new(Expr::EmptyRecord), boxed_int(9));
    assert_eq!(value(e), Expr::Int(9));
}

#[test]
fn string_interpolation() {
    let e = assign(
        "name",
        Expr::Str(s("Sam")),
        Expr::InterpolatedStr(vec![(s("Hi, "), s("name"))], s("!")),
    );
    assert_eq!(value(e), Expr::Str(s("Hi, Sam!")));
    let e = Expr::InterpolatedStr(vec![(s("Hi, "), s("name"))], s("!"));
    assert_eq!(value(e), Expr::Error(Problem::UnrecognizedVarName(s("name"))));
    let e = assign("n", Expr::Int(3), Expr::InterpolatedStr(vec![(s("n = "), s("n"))], s("")));
    assert_eq!(value(e), Expr::Error(Problem::TypeMismatch(s("n"))));
    // An empty string is not a `Str`.
    let e = assign("e", Expr::EmptyStr, Expr::InterpolatedStr(vec![(s(""), s("e"))], s("")));
    assert_eq!(value(e), Expr::Error(Problem::TypeMismatch(s("e"))));
}

#[test]
fn calling_closures() {
    let inc = closure(
        vec![Pattern::Identifier(s("n"))],
        op(Expr::Var(s("n")), Operator::Plus, Expr::Int(1)),
    );
    let e = assign("inc", inc, Expr::CallByName(s("inc"), vec![Expr::Int(41)]));
    assert_eq!(value(e), Expr::Int(42));

    let add = closure(
        vec![Pattern::Identifier(s("a")), Pattern::Identifier(s("b"))],
        op(Expr::Var(s("a")), Operator::Plus, Expr::Var(s("b"))),
    );
    let e = Expr::Apply(Box::new(add), vec![Expr::Int(2), op(Expr::Int(3), Operator::Star, Expr::Int(4))]);
    assert_eq!(value(e), Expr::Int(14));

    let one = closure(vec![Pattern::Underscore], Expr::Int(1));
    let e = Expr::Apply(Box::new(one), vec![]);
    assert_eq!(value(e), Expr::Error(Problem::WrongArity(1, 0)));

    let e = Expr::Apply(boxed_int(5), vec![Expr::Int(1)]);
    assert_eq!(value(e), mismatch("Tried to call a non-function: 5"));

    let e = Expr::CallByName(s("missing"), vec![]);
    assert_eq!(value(e), mismatch("Tried to call a non-function: <error>"));
}

#[test]
fn closures_see_the_callers_scope() {
    // The body reads `y`, which is bound where the closure is called.
    let f = closure(vec![Pattern::Underscore], Expr::Var(s("y")));
    let e = assign("f", f, assign("y", Expr::Int(7), Expr::CallByName(s("f"), vec![Expr::EmptyRecord])));
    assert_eq!(value(e), Expr::Int(7));
}

#[test]
fn parameter_patterns() {
    let unit = closure(vec![Pattern::EmptyRecord], Expr::Int(1));
    let e = Expr::Apply(Box::new(unit), vec![Expr::Int(5)]);
    assert_eq!(value(e), mismatch("Wanted a `{}`, but was given `5`."));

    let zero = closure(vec![Pattern::Integer(0)], Expr::Str(s("zero")));
    assert_eq!(value(Expr::Apply(Box::new(zero.copy()), vec![Expr::Int(0)])), Expr::Str(s("zero")));
    assert_eq!(value(Expr::Apply(Box::new(zero.copy()), vec![Expr::Int(1)])), Expr::Error(Problem::NotEqual));
    assert_eq!(
        value(Expr::Apply(Box::new(zero), vec![Expr::Char('0')])),
        mismatch("Wanted a `{}`, but was given `'0'`."),
    );

    let unwrap = closure(
        vec![Pattern::Variant(s("Some"), Some(vec![Pattern::Identifier(s("x"))]))],
        Expr::Var(s("x")),
    );
    let some = Expr::ApplyVariant(s("Some"), Some(vec![op(Expr::Int(4), Operator::Plus, Expr::Int(4))]));
    assert_eq!(value(Expr::Apply(Box::new(unwrap.copy()), vec![some])), Expr::Int(8));
    assert_eq!(
        value(Expr::Apply(Box::new(unwrap.copy()), vec![variant("None")])),
        mismatch("Wanted a `Some` variant, but was given a `None` variant."),
    );
    assert_eq!(
        value(Expr::Apply(Box::new(unwrap.copy()), vec![variant("Some")])),
        Expr::Error(Problem::WrongArity(0, 1)),
    );
    assert_eq!(
        value(Expr::Apply(Box::new(unwrap), vec![Expr::Int(3)])),
        mismatch("Wanted to destructure a `Some` variant, but was given a non-variant."),
    );
    let bare = closure(vec![Pattern::Variant(s("Some"), None)], Expr::Int(0));
    let two = Expr::ApplyVariant(s("Some"), Some(vec![Expr::Int(1), Expr::Int(2)]));
    assert_eq!(value(Expr::Apply(Box::new(bare), vec![two])), Expr::Error(Problem::WrongArity(2, 0)));
}

#[test]
fn variants_evaluate_their_contents() {
    let e = Expr::ApplyVariant(s("Pair"), Some(vec![op(Expr::Int(1), Operator::Plus, Expr::Int(1)), Expr::Str(s("b"))]));
    assert_eq!(value(e), Expr::ApplyVariant(s("Pair"), Some(vec![Expr::Int(2), Expr::Str(s("b"))])));
}

#[test]
fn case_takes_the_first_matching_branch() {
    let branches = || {
        Branches::from_vec(vec![
            (Pattern::Integer(1), Box::new(Expr::Str(s("one")))),
            (Pattern::Variant(s("Some"), Some(vec![Pattern::Identifier(s("v"))])), Box::new(Expr::Var(s("v")))),
            (Pattern::Identifier(s("other")), Box::new(Expr::Var(s("other")))),
        ])
    };
    assert_eq!(value(Expr::Case(boxed_int(1), branches())), Expr::Str(s("one")));
    let some = Expr::ApplyVariant(s("Some"), Some(vec![Expr::Char('q')]));
    assert_eq!(value(Expr::Case(Box::new(some), branches())), Expr::Char('q'));
    assert_eq!(value(Expr::Case(boxed_int(9), branches())), Expr::Int(9));
    let only_one = Branches::from_vec(vec![(Pattern::Integer(1), Box::new(Expr::Str(s("one"))))]);
    assert_eq!(value(Expr::Case(boxed_int(2), only_one)), Expr::Error(Problem::NoBranchesMatched));
}

#[test]
fn if_selects_by_condition() {
    let iff = |c: Expr| Expr::If(Box::new(c), boxed_int(1), boxed_int(2));
    assert_eq!(value(iff(variant("True"))), Expr::Int(1));
    assert_eq!(value(iff(variant("False"))), Expr::Int(2));
    assert_eq!(value(iff(op(Expr::Int(1), Operator::Equals, Expr::Int(2)))), Expr::Int(2));
    let non_bool = "non-Bool used in `if` condition";
    assert_eq!(value(iff(variant("Maybe"))), mismatch(non_bool));
    assert_eq!(value(iff(Expr::Int(1))), mismatch(non_bool));
}

#[test]
fn scoped_eval_reads_the_given_scope() {
    let mut vars = HashMap::new();
    vars.insert(s("x"), Rc::new(Evaluated::Evaluated(Expr::Int(10))));
    let e = op(Expr::Var(s("x")), Operator::Star, Expr::Int(3));
    assert_eq!(scoped_eval(e, &vars), Evaluated::Evaluated(Expr::Int(30)));
    let e = assign("x", Expr::Int(1), Expr::Var(s("x")));
    assert_eq!(scoped_eval(e, &vars), Evaluated::Evaluated(Expr::Error(Problem::ReassignedVarName(s("x")))));
    // The caller's scope is left as it was.
    assert_eq!(vars.len(), 1);
}

#[test]
fn evaluating_a_result_again_changes_nothing() {
    let exprs = vec![
        op(Expr::Int(2), Operator::Star, Expr::Int(21)),
        Expr::ApplyVariant(s("Wrap"), Some(vec![op(Expr::Int(1), Operator::Equals, Expr::Int(1))])),
        assign("f", closure(vec![Pattern::Underscore], Expr::Int(0)), Expr::Var(s("f"))),
        Expr::Var(s("unbound")),
    ];
    for e in exprs {
        let once = value(e);
        let twice = value(once.copy());
        assert_eq!(once, twice);
    }
}

#[test]
fn textual_form() {
    assert_eq!(Expr::Int(-1234).to_string(), "-1234");
    assert_eq!(Expr::Int(i64::MIN).to_string(), "-9223372036854775808");
    assert_eq!(Expr::Int(0).to_string(), "0");
    assert_eq!(Expr::Frac(1, -2).to_string(), "1/-2");
    assert_eq!(Expr::Str(s("a b")).to_string(), "\"a b\"");
    assert_eq!(Expr::EmptyStr.to_string(), "\"\"");
    assert_eq!(Expr::Char('z').to_string(), "'z'");
    assert_eq!(Expr::EmptyRecord.to_string(), "{}");
    assert_eq!(closure(vec![], Expr::Int(1)).to_string(), "<function>");
    let v = Expr::ApplyVariant(s("Pair"), Some(vec![Expr::Int(1), variant("None")]));
    assert_eq!(v.to_string(), "Pair(1, None)");
    assert_eq!(Expr::Var(s("x")).to_string(), "x");
    assert_eq!(Expr::Error(Problem::NotEqual).to_string(), "<error>");
    assert_eq!(op(Expr::Int(1), Operator::Plus, Expr::Int(2)).to_string(), "<expression>");
}

#[test]
fn parameter_lists_keep_their_order() {
    let ps = Patterns::from_vec(vec![Pattern::Identifier(s("a")), Pattern::Underscore, Pattern::Integer(3)]);
    assert_eq!(ps.as_slice().len(), 3);
    let back = ps.into_vec();
    assert_eq!(back, vec![Pattern::Identifier(s("a")), Pattern::Underscore, Pattern::Integer(3)]);
}

#[test]
fn case_branches_keep_their_order() {
    let bs = Branches::from_vec(vec![
        (Pattern::Integer(1), Box::new(Expr::Int(10))),
        (Pattern::Underscore, Box::new(Expr::Int(20))),
    ]);
    assert_eq!(bs.as_slice().len(), 2);
    let copied = Expr::Case(boxed_int(0), bs).copy();
    match copied {
        Expr::Case(_, bs) => {
            let back = bs.into_vec();
            assert_eq!(back[0], (Pattern::Integer(1), Box::new(Expr::Int(10))));
            assert_eq!(back[1], (Pattern::Underscore, Box::new(Expr::Int(20))));
        },
        _ => panic!("copy changed the kind of expression"),
    }
}

#[test]
fn scopes_built_with_bind() {
    let mut vars = empty_scope();
    assert_eq!(scoped_eval(Expr::Var(s("x")), &vars), Evaluated::Evaluated(Expr::Error(Problem::UnrecognizedVarName(s("x")))));
    bind(&mut vars, s("x"), Evaluated::Evaluated(Expr::Int(1)));
    bind(&mut vars, s("y"), Evaluated::Evaluated(Expr::Int(2)));
    bind(&mut vars, s("x"), Evaluated::Evaluated(Expr::Int(5)));
    let e = op(Expr::Var(s("x")), Operator::Minus, Expr::Var(s("y")));
    assert_eq!(scoped_eval(e, &vars), Evaluated::Evaluated(Expr::Int(3)));
    // `eval` is `scoped_eval` in a scope that binds nothing.
    let e = || op(Expr::Int(6), Operator::Star, Expr::Int(7));
    assert_eq!(eval(e()), scoped_eval(e(), &empty_scope()));
}

#[test]
fn matching_binds_over_the_scope() {
    // A pattern binds its name whatever the scope already holds.
    let mut vars = empty_scope();
    bind(&mut vars, s("v"), Evaluated::Evaluated(Expr::Str(s("old"))));
    bind(&mut vars, s("w"), Evaluated::Evaluated(Expr::Str(s("kept"))));
    let branches = Branches::from_vec(vec![(
        Pattern::Variant(s("Some"), Some(vec![Pattern::Identifier(s("v"))])),
        Box::new(Expr::ApplyVariant(s("Pair"), Some(vec![Expr::Var(s("v")), Expr::Var(s("w"))]))),
    )]);
    let some = Expr::ApplyVariant(s("Some"), Some(vec![Expr::Int(1)]));
    let r = scoped_eval(Expr::Case(Box::new(some), branches), &vars);
    assert_eq!(
        r,
        Evaluated::Evaluated(Expr::ApplyVariant(s("Pair"), Some(vec![Expr::Int(1), Expr::Str(s("kept"))]))),
    );
}
