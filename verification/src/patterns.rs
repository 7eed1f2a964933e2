//! The parameter list of a closure and the branches of a `case`, each held in
//! a `smallvec::SmallVec`.
use vstd::prelude::*;
use smallvec::SmallVec;
use crate::expr::{Expr, ExprV, Pattern, PatternV, patterns_dv, branches_dv};

verus! {

/// The parameter patterns of a closure. Most closures take one or two
/// parameters, which `SmallVec` keeps inline.
#[verifier::external_body]
#[derive(Debug, PartialEq)]
pub struct Patterns {
    inner: SmallVec<[Pattern; 2]>,
}

/// The patterns that the `SmallVec` inside a `Patterns` holds, in order, by
/// their views.
pub uninterp spec fn pattern_items(v: Patterns) -> Seq<PatternV>;

/// Calls `smallvec::SmallVec::as_slice`. Claimed: the slice holds the
/// patterns, in order.
#[verifier::external_body]
fn smallvec_as_slice(v: &Patterns) -> (r: &[Pattern])
    ensures
        patterns_dv(r@) == pattern_items(*v),
{
    v.inner.as_slice()
}

/// Calls `smallvec::SmallVec::from_vec`. Claimed: the list holds the vector's
/// patterns, in order.
#[verifier::external_body]
fn smallvec_from_vec(v: Vec<Pattern>) -> (r: Patterns)
    ensures
        pattern_items(r) == patterns_dv(v@),
{
    Patterns { inner: SmallVec::from_vec(v) }
}

/// Calls `smallvec::SmallVec::into_vec`. Claimed: the vector holds the
/// patterns, in order.
#[verifier::external_body]
fn smallvec_into_vec(v: Patterns) -> (r: Vec<Pattern>)
    ensures
        patterns_dv(r@) == pattern_items(v),
{
    v.inner.into_vec()
}

impl Patterns {
    /// Builds a parameter list from the given patterns, in order.
    pub fn from_vec(v: Vec<Pattern>) -> (r: Patterns)
        ensures
            pattern_items(r) == patterns_dv(v@),
    {
        smallvec_from_vec(v)
    }

    /// The patterns, in order.
    pub fn into_vec(self) -> (r: Vec<Pattern>)
        ensures
            patterns_dv(r@) == pattern_items(self),
    {
        smallvec_into_vec(self)
    }

    /// The patterns, borrowed, in order.
    pub fn as_slice(&self) -> (r: &[Pattern])
        ensures
            patterns_dv(r@) == pattern_items(*self),
    {
        smallvec_as_slice(self)
    }
}

/// The branches of a `case`: a pattern and the expression evaluated when it
/// matches. Most `case`s have one or two branches, which `SmallVec` keeps inline.
#[verifier::external_body]
#[derive(Debug, PartialEq)]
pub struct Branches {
    inner: SmallVec<[(Pattern, Box<Expr>); 2]>,
}

/// The branches that the `SmallVec` inside a `Branches` holds, in order, each
/// as the views of its pattern and its expression.
pub uninterp spec fn branch_items(b: Branches) -> Seq<(PatternV, ExprV)>;

/// Calls `smallvec::SmallVec::as_slice`. Claimed: the slice holds the
/// branches, in order.
#[verifier::external_body]
fn branches_smallvec_as_slice(b: &Branches) -> (r: &[(Pattern, Box<Expr>)])
    ensures
        branches_dv(r@) == branch_items(*b),
{
    b.inner.as_slice()
}

/// Calls `smallvec::SmallVec::from_vec`. Claimed: the list holds the vector's
/// branches, in order.
#[verifier::external_body]
fn branches_smallvec_from_vec(v: Vec<(Pattern, Box<Expr>)>) -> (r: Branches)
    ensures
        branch_items(r) == branches_dv(v@),
{
    Branches { inner: SmallVec::from_vec(v) }
}

/// Calls `smallvec::SmallVec::into_vec`. Claimed: the vector holds the
/// branches, in order.
#[verifier::external_body]
fn branches_smallvec_into_vec(b: Branches) -> (r: Vec<(Pattern, Box<Expr>)>)
    ensures
        branches_dv(r@) == branch_items(b),
{
    b.inner.into_vec()
}

impl Branches {
    /// Builds the branches of a `case` from the given ones, in order.
    pub fn from_vec(v: Vec<(Pattern, Box<Expr>)>) -> (r: Branches)
        ensures
            branch_items(r) == branches_dv(v@),
    {
        branches_smallvec_from_vec(v)
    }

    /// The branches, in order.
    pub fn into_vec(self) -> (r: Vec<(Pattern, Box<Expr>)>)
        ensures
            branches_dv(r@) == branch_items(self),
    {
        branches_smallvec_into_vec(self)
    }

    /// The branches, borrowed, in order.
    pub fn as_slice(&self) -> (r: &[(Pattern, Box<Expr>)])
        ensures
            branches_dv(r@) == branch_items(*self),
    {
        branches_smallvec_as_slice(self)
    }
}

} // verus!
