//! The expression language: executable syntax trees and their mathematical
//! counterparts (`ExprV`, `PatternV`, `ProblemV`), which the contracts speak of.
use vstd::prelude::*;
use crate::patterns::{Patterns, pattern_items, Branches, branch_items};

verus! {

/// The binary operators of the language.
#[derive(Clone, Copy, Debug, PartialEq, Eq, Structural)]
pub enum Operator {
    Plus,
    Minus,
    Star,
    Slash,
    DoubleSlash,
    Equals,
}

/// What went wrong while evaluating; carried by `Expr::Error`.
#[derive(Debug, PartialEq)]
pub enum Problem {
    UnrecognizedVarName(String),
    TypeMismatch(String),
    ReassignedVarName(String),
    WrongArity(u32, u32),
    NoBranchesMatched,
    NotEqual,
}

/// The left-hand sides of assignments, closure parameters and `case` branches.
#[derive(Debug, PartialEq)]
pub enum Pattern {
    Identifier(String),
    Underscore,
    EmptyRecord,
    Integer(i64),
    Fraction(i64, i64),
    Variant(String, Option<Vec<Pattern>>),
}

/// An expression of the language.
#[derive(Debug, PartialEq)]
pub enum Expr {
    Error(Problem),
    Int(i64),
    EmptyStr,
    Str(String),
    Frac(i64, i64),
    Char(char),
    Closure(Patterns, Box<Expr>),
    EmptyRecord,
    Var(String),
    InterpolatedStr(Vec<(String, String)>, String),
    Assign(Pattern, Box<Expr>, Box<Expr>),
    CallByName(String, Vec<Expr>),
    ApplyVariant(String, Option<Vec<Expr>>),
    Apply(Box<Expr>, Vec<Expr>),
    Case(Box<Expr>, Branches),
    Operator(Box<Expr>, Operator, Box<Expr>),
    If(Box<Expr>, Box<Expr>, Box<Expr>),
}

/// Mathematical form of `Problem`.
pub enum ProblemV {
    UnrecognizedVarName(Seq<char>),
    TypeMismatch(Seq<char>),
    ReassignedVarName(Seq<char>),
    WrongArity(u32, u32),
    NoBranchesMatched,
    NotEqual,
}

/// Mathematical form of `Pattern`.
pub enum PatternV {
    Identifier(Seq<char>),
    Underscore,
    EmptyRecord,
    Integer(i64),
    Fraction(i64, i64),
    Variant(Seq<char>, Option<Seq<PatternV>>),
}

/// Mathematical form of `Expr`.
pub enum ExprV {
    Error(ProblemV),
    Int(i64),
    EmptyStr,
    Str(Seq<char>),
    Frac(i64, i64),
    Char(char),
    Closure(Seq<PatternV>, Box<ExprV>),
    EmptyRecord,
    Var(Seq<char>),
    InterpolatedStr(Seq<(Seq<char>, Seq<char>)>, Seq<char>),
    Assign(PatternV, Box<ExprV>, Box<ExprV>),
    CallByName(Seq<char>, Seq<ExprV>),
    ApplyVariant(Seq<char>, Option<Seq<ExprV>>),
    Apply(Box<ExprV>, Seq<ExprV>),
    Case(Box<ExprV>, Seq<(PatternV, ExprV)>),
    Operator(Box<ExprV>, Operator, Box<ExprV>),
    If(Box<ExprV>, Box<ExprV>, Box<ExprV>),
}

impl Problem {
    pub open spec fn dv(self) -> ProblemV {
        match self {
            Problem::UnrecognizedVarName(s) => ProblemV::UnrecognizedVarName(s@),
            Problem::TypeMismatch(s) => ProblemV::TypeMismatch(s@),
            Problem::ReassignedVarName(s) => ProblemV::ReassignedVarName(s@),
            Problem::WrongArity(a, b) => ProblemV::WrongArity(a, b),
            Problem::NoBranchesMatched => ProblemV::NoBranchesMatched,
            Problem::NotEqual => ProblemV::NotEqual,
        }
    }
}

pub open spec fn patterns_dv(s: Seq<Pattern>) -> Seq<PatternV>
    decreases s,
{
    if s.len() == 0 {
        Seq::empty()
    } else {
        patterns_dv(s.subrange(0, s.len() - 1)).push(s[s.len() - 1].dv())
    }
}

impl Pattern {
    pub open spec fn dv(self) -> PatternV
        decreases self,
    {
        match self {
            Pattern::Identifier(s) => PatternV::Identifier(s@),
            Pattern::Underscore => PatternV::Underscore,
            Pattern::EmptyRecord => PatternV::EmptyRecord,
            Pattern::Integer(n) => PatternV::Integer(n),
            Pattern::Fraction(n, d) => PatternV::Fraction(n, d),
            Pattern::Variant(s, None) => PatternV::Variant(s@, None),
            Pattern::Variant(s, Some(ps)) => PatternV::Variant(s@, Some(patterns_dv(ps@))),
        }
    }
}

pub open spec fn exprs_dv(s: Seq<Expr>) -> Seq<ExprV>
    decreases s,
{
    if s.len() == 0 {
        Seq::empty()
    } else {
        exprs_dv(s.subrange(0, s.len() - 1)).push(s[s.len() - 1].dv())
    }
}

pub open spec fn branches_dv(s: Seq<(Pattern, Box<Expr>)>) -> Seq<(PatternV, ExprV)>
    decreases s,
{
    if s.len() == 0 {
        Seq::empty()
    } else {
        branches_dv(s.subrange(0, s.len() - 1)).push(
            (s[s.len() - 1].0.dv(), s[s.len() - 1].1.dv()),
        )
    }
}

pub open spec fn pair_dv(p: (String, String)) -> (Seq<char>, Seq<char>) {
    (p.0@, p.1@)
}

pub open spec fn pairs_dv(s: Seq<(String, String)>) -> Seq<(Seq<char>, Seq<char>)> {
    s.map_values(|p: (String, String)| pair_dv(p))
}

impl Expr {
    pub open spec fn dv(self) -> ExprV
        decreases self,
    {
        match self {
            Expr::Error(p) => ExprV::Error(p.dv()),
            Expr::Int(n) => ExprV::Int(n),
            Expr::EmptyStr => ExprV::EmptyStr,
            Expr::Str(s) => ExprV::Str(s@),
            Expr::Frac(n, d) => ExprV::Frac(n, d),
            Expr::Char(c) => ExprV::Char(c),
            Expr::Closure(ps, b) => ExprV::Closure(pattern_items(ps), Box::new(b.dv())),
            Expr::EmptyRecord => ExprV::EmptyRecord,
            Expr::Var(s) => ExprV::Var(s@),
            Expr::InterpolatedStr(ps, t) => ExprV::InterpolatedStr(pairs_dv(ps@), t@),
            Expr::Assign(p, d, b) => ExprV::Assign(p.dv(), Box::new(d.dv()), Box::new(b.dv())),
            Expr::CallByName(n, args) => ExprV::CallByName(n@, exprs_dv(args@)),
            Expr::ApplyVariant(n, None) => ExprV::ApplyVariant(n@, None),
            Expr::ApplyVariant(n, Some(args)) => ExprV::ApplyVariant(n@, Some(exprs_dv(args@))),
            Expr::Apply(f, args) => ExprV::Apply(Box::new(f.dv()), exprs_dv(args@)),
            Expr::Case(c, bs) => ExprV::Case(Box::new(c.dv()), branch_items(bs)),
            Expr::Operator(l, op, r) => ExprV::Operator(Box::new(l.dv()), op, Box::new(r.dv())),
            Expr::If(c, t, e) => ExprV::If(Box::new(c.dv()), Box::new(t.dv()), Box::new(e.dv())),
        }
    }
}

pub proof fn lemma_patterns_dv(s: Seq<Pattern>)
    ensures
        patterns_dv(s).len() == s.len(),
        forall|i: int| 0 <= i < s.len() ==> #[trigger] patterns_dv(s)[i] == s[i].dv(),
    decreases s.len(),
{
    if s.len() > 0 {
        lemma_patterns_dv(s.subrange(0, s.len() - 1));
    }
}

pub proof fn lemma_exprs_dv(s: Seq<Expr>)
    ensures
        exprs_dv(s).len() == s.len(),
        forall|i: int| 0 <= i < s.len() ==> #[trigger] exprs_dv(s)[i] == s[i].dv(),
    decreases s.len(),
{
    if s.len() > 0 {
        lemma_exprs_dv(s.subrange(0, s.len() - 1));
    }
}

pub proof fn lemma_branches_dv(s: Seq<(Pattern, Box<Expr>)>)
    ensures
        branches_dv(s).len() == s.len(),
        forall|i: int|
            0 <= i < s.len() ==> #[trigger] branches_dv(s)[i] == (s[i].0.dv(), s[i].1.dv()),
    decreases s.len(),
{
    if s.len() > 0 {
        lemma_branches_dv(s.subrange(0, s.len() - 1));
    }
}

/// Two sequences of patterns with the same elements' views have the same view.
pub proof fn lemma_patterns_dv_ext(a: Seq<Pattern>, b: Seq<Pattern>)
    requires
        a.len() == b.len(),
        forall|i: int| 0 <= i < a.len() ==> #[trigger] a[i].dv() == b[i].dv(),
    ensures
        patterns_dv(a) == patterns_dv(b),
{
    lemma_patterns_dv(a);
    lemma_patterns_dv(b);
    assert(patterns_dv(a) =~= patterns_dv(b));
}

pub proof fn lemma_exprs_dv_ext(a: Seq<Expr>, b: Seq<Expr>)
    requires
        a.len() == b.len(),
        forall|i: int| 0 <= i < a.len() ==> #[trigger] a[i].dv() == b[i].dv(),
    ensures
        exprs_dv(a) == exprs_dv(b),
{
    lemma_exprs_dv(a);
    lemma_exprs_dv(b);
    assert(exprs_dv(a) =~= exprs_dv(b));
}

pub proof fn lemma_branches_dv_ext(a: Seq<(Pattern, Box<Expr>)>, b: Seq<(Pattern, Box<Expr>)>)
    requires
        a.len() == b.len(),
        forall|i: int|
            0 <= i < a.len() ==> #[trigger] a[i].0.dv() == b[i].0.dv() && a[i].1.dv()
                == b[i].1.dv(),
    ensures
        branches_dv(a) == branches_dv(b),
{
    lemma_branches_dv(a);
    lemma_branches_dv(b);
    assert(branches_dv(a) =~= branches_dv(b));
}

impl Problem {
    /// A copy of the problem.
    pub fn copy(&self) -> (r: Problem)
        ensures
            r.dv() == self.dv(),
    {
        match self {
            Problem::UnrecognizedVarName(s) => Problem::UnrecognizedVarName(s.clone()),
            Problem::TypeMismatch(s) => Problem::TypeMismatch(s.clone()),
            Problem::ReassignedVarName(s) => Problem::ReassignedVarName(s.clone()),
            Problem::WrongArity(a, b) => Problem::WrongArity(*a, *b),
            Problem::NoBranchesMatched => Problem::NoBranchesMatched,
            Problem::NotEqual => Problem::NotEqual,
        }
    }
}

/// Copies each pattern of a slice into a new vector.
fn copy_patterns(ps: &[Pattern]) -> (r: Vec<Pattern>)
    ensures
        patterns_dv(r@) == patterns_dv(ps@),
    decreases ps@,
{
    let mut out: Vec<Pattern> = Vec::new();
    let mut i: usize = 0;
    while i < ps.len()
        invariant
            i <= ps@.len(),
            out@.len() == i,
            forall|j: int| 0 <= j < i ==> #[trigger] out@[j].dv() == ps@[j].dv(),
        decreases ps@.len() - i,
    {
        proof {
            assert(decreases_to!(ps@ => ps@[i as int]));
        }
        let p = ps[i].copy();
        out.push(p);
        i = i + 1;
    }
    proof {
        lemma_patterns_dv_ext(out@, ps@);
    }
    out
}

impl Pattern {
    /// A copy of the pattern.
    pub fn copy(&self) -> (r: Pattern)
        ensures
            r.dv() == self.dv(),
        decreases self,
    {
        match self {
            Pattern::Identifier(s) => Pattern::Identifier(s.clone()),
            Pattern::Underscore => Pattern::Underscore,
            Pattern::EmptyRecord => Pattern::EmptyRecord,
            Pattern::Integer(n) => Pattern::Integer(*n),
            Pattern::Fraction(n, d) => Pattern::Fraction(*n, *d),
            Pattern::Variant(s, None) => Pattern::Variant(s.clone(), None),
            Pattern::Variant(s, Some(ps)) => {
                let v = copy_patterns(ps.as_slice());
                Pattern::Variant(s.clone(), Some(v))
            },
        }
    }
}

/// Copies each expression of a slice into a new vector.
fn copy_exprs(es: &[Expr]) -> (r: Vec<Expr>)
    ensures
        exprs_dv(r@) == exprs_dv(es@),
    decreases exprs_dv(es@),
{
    proof {
        lemma_exprs_dv(es@);
    }
    let mut out: Vec<Expr> = Vec::new();
    let mut i: usize = 0;
    while i < es.len()
        invariant
            i <= es@.len(),
            out@.len() == i,
            forall|j: int| 0 <= j < i ==> #[trigger] out@[j].dv() == es@[j].dv(),
            exprs_dv(es@).len() == es@.len(),
            forall|j: int| 0 <= j < es@.len() ==> #[trigger] exprs_dv(es@)[j] == es@[j].dv(),
        decreases es@.len() - i,
    {
        proof {
            assert(decreases_to!(exprs_dv(es@) => exprs_dv(es@)[i as int]));
        }
        let e = es[i].copy();
        out.push(e);
        i = i + 1;
    }
    proof {
        lemma_exprs_dv_ext(out@, es@);
    }
    out
}

/// Copies each `case` branch of a slice into a new vector.
fn copy_branches(bs: &[(Pattern, Box<Expr>)]) -> (r: Vec<(Pattern, Box<Expr>)>)
    ensures
        branches_dv(r@) == branches_dv(bs@),
    decreases branches_dv(bs@),
{
    proof {
        lemma_branches_dv(bs@);
    }
    let mut out: Vec<(Pattern, Box<Expr>)> = Vec::new();
    let mut i: usize = 0;
    while i < bs.len()
        invariant
            i <= bs@.len(),
            out@.len() == i,
            forall|j: int|
                0 <= j < i ==> #[trigger] out@[j].0.dv() == bs@[j].0.dv() && out@[j].1.dv()
                    == bs@[j].1.dv(),
            branches_dv(bs@).len() == bs@.len(),
            forall|j: int|
                0 <= j < bs@.len() ==> #[trigger] branches_dv(bs@)[j] == (bs@[j].0.dv(), bs@[j].1.dv()),
        decreases bs@.len() - i,
    {
        proof {
            assert(decreases_to!(branches_dv(bs@) => branches_dv(bs@)[i as int]));
            assert(decreases_to!(branches_dv(bs@)[i as int] => branches_dv(bs@)[i as int].1));
        }
        let p = bs[i].0.copy();
        let e = (*bs[i].1).copy();
        out.push((p, Box::new(e)));
        i = i + 1;
    }
    proof {
        lemma_branches_dv_ext(out@, bs@);
    }
    out
}

/// Copies each string pair of a slice into a new vector.
fn copy_pairs(ps: &[(String, String)]) -> (r: Vec<(String, String)>)
    ensures
        pairs_dv(r@) == pairs_dv(ps@),
{
    let mut out: Vec<(String, String)> = Vec::new();
    let mut i: usize = 0;
    while i < ps.len()
        invariant
            i <= ps@.len(),
            out@.len() == i,
            forall|j: int| 0 <= j < i ==> #[trigger] pair_dv(out@[j]) == pair_dv(ps@[j]),
        decreases ps@.len() - i,
    {
        let a = ps[i].0.clone();
        let b = ps[i].1.clone();
        out.push((a, b));
        i = i + 1;
    }
    assert(pairs_dv(out@) =~= pairs_dv(ps@));
    out
}

impl Expr {
    /// A copy of the expression.
    pub fn copy(&self) -> (r: Expr)
        ensures
            r.dv() == self.dv(),
        decreases self.dv(),
    {
        match self {
            Expr::Error(p) => Expr::Error(p.copy()),
            Expr::Int(n) => Expr::Int(*n),
            Expr::EmptyStr => Expr::EmptyStr,
            Expr::Str(s) => Expr::Str(s.clone()),
            Expr::Frac(n, d) => Expr::Frac(*n, *d),
            Expr::Char(c) => Expr::Char(*c),
            Expr::Closure(ps, b) => {
                let v = copy_patterns(ps.as_slice());
                proof {
                    assert(self.dv() == ExprV::Closure(pattern_items(*ps), Box::new((**b).dv())));
                    assert(decreases_to!(self.dv() => self.dv()->Closure_1));
                }
                let body = (**b).copy();
                Expr::Closure(Patterns::from_vec(v), Box::new(body))
            },
            Expr::EmptyRecord => Expr::EmptyRecord,
            Expr::Var(s) => Expr::Var(s.clone()),
            Expr::InterpolatedStr(ps, t) => Expr::InterpolatedStr(copy_pairs(ps.as_slice()), t.clone()),
            Expr::Assign(p, d, b) => {
                let p2 = p.copy();
                proof {
                    assert(self.dv() == ExprV::Assign(p.dv(), Box::new((**d).dv()), Box::new((**b).dv())));
                    assert(decreases_to!(self.dv() => self.dv()->Assign_1));
                    assert(decreases_to!(self.dv() => self.dv()->Assign_2));
                }
                let d2 = (**d).copy();
                let b2 = (**b).copy();
                Expr::Assign(p2, Box::new(d2), Box::new(b2))
            },
            Expr::CallByName(n, args) => {
                proof {
                    assert(self.dv() == ExprV::CallByName(n@, exprs_dv(args@)));
                    assert(decreases_to!(self.dv() => self.dv()->CallByName_1));
                }
                Expr::CallByName(n.clone(), copy_exprs(args.as_slice()))
            },
            Expr::ApplyVariant(n, None) => Expr::ApplyVariant(n.clone(), None),
            Expr::ApplyVariant(n, Some(args)) => {
                proof {
                    assert(self.dv() == ExprV::ApplyVariant(n@, Some(exprs_dv(args@))));
                    assert(decreases_to!(self.dv() => self.dv()->ApplyVariant_1));
                    assert(decreases_to!(self.dv()->ApplyVariant_1 => self.dv()->ApplyVariant_1->0));
                }
                Expr::ApplyVariant(n.clone(), Some(copy_exprs(args.as_slice())))
            },
            Expr::Apply(f, args) => {
                proof {
                    assert(self.dv() == ExprV::Apply(Box::new((**f).dv()), exprs_dv(args@)));
                    assert(decreases_to!(self.dv() => self.dv()->Apply_0));
                    assert(decreases_to!(self.dv() => self.dv()->Apply_1));
                }
                let f2 = (**f).copy();
                Expr::Apply(Box::new(f2), copy_exprs(args.as_slice()))
            },
            Expr::Case(c, bs) => {
                proof {
                    assert(self.dv() == ExprV::Case(Box::new((**c).dv()), branch_items(*bs)));
                    assert(decreases_to!(self.dv() => self.dv()->Case_0));
                    assert(decreases_to!(self.dv() => self.dv()->Case_1));
                }
                let c2 = (**c).copy();
                let v = copy_branches(bs.as_slice());
                Expr::Case(Box::new(c2), Branches::from_vec(v))
            },
            Expr::Operator(l, op, r) => {
                proof {
                    assert(self.dv() == ExprV::Operator(Box::new((**l).dv()), *op, Box::new((**r).dv())));
                    assert(decreases_to!(self.dv() => self.dv()->Operator_0));
                    assert(decreases_to!(self.dv() => self.dv()->Operator_2));
                }
                let l2 = (**l).copy();
                let r2 = (**r).copy();
                Expr::Operator(Box::new(l2), *op, Box::new(r2))
            },
            Expr::If(c, t, e) => {
                proof {
                    assert(self.dv() == ExprV::If(Box::new((**c).dv()), Box::new((**t).dv()), Box::new((**e).dv())));
                    assert(decreases_to!(self.dv() => self.dv()->If_0));
                    assert(decreases_to!(self.dv() => self.dv()->If_1));
                    assert(decreases_to!(self.dv() => self.dv()->If_2));
                }
                let c2 = (**c).copy();
                let t2 = (**t).copy();
                let e2 = (**e).copy();
                Expr::If(Box::new(c2), Box::new(t2), Box::new(e2))
            },
        }
    }
}

} // verus!
