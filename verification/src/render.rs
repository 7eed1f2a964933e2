//! The textual form of expressions, used in the messages of `TypeMismatch` problems.
use vstd::prelude::*;
use vstd::string::StringExecFns;
use crate::expr::{Expr, ExprV};

verus! {

/// The decimal digit `d` (for `0 <= d < 10`).
pub open spec fn digit_char(d: int) -> char {
    if d == 0 {
        '0'
    } else if d == 1 {
        '1'
    } else if d == 2 {
        '2'
    } else if d == 3 {
        '3'
    } else if d == 4 {
        '4'
    } else if d == 5 {
        '5'
    } else if d == 6 {
        '6'
    } else if d == 7 {
        '7'
    } else if d == 8 {
        '8'
    } else {
        '9'
    }
}

/// The decimal digits of `n`, most significant first, without leading zeros.
pub open spec fn nat_text(n: nat) -> Seq<char>
    decreases n,
{
    if n < 10 {
        seq![digit_char(n as int)]
    } else {
        nat_text(n / 10).push(digit_char((n % 10) as int))
    }
}

/// The decimal form of an integer, with a leading `-` when it is negative.
pub open spec fn int_text(i: int) -> Seq<char> {
    if i < 0 {
        seq!['-'] + nat_text((-i) as nat)
    } else {
        nat_text(i as nat)
    }
}

/// The textual form of an expression: literals as written, `Name(a, b)` for an
/// applied variant, and a placeholder in angle brackets for the rest.
pub open spec fn render_v(e: ExprV) -> Seq<char>
    decreases e,
{
    match e {
        ExprV::Error(_) => "<error>"@,
        ExprV::Int(n) => int_text(n as int),
        ExprV::EmptyStr => "\"\""@,
        ExprV::Str(s) => "\""@ + s + "\""@,
        ExprV::Frac(n, d) => int_text(n as int) + "/"@ + int_text(d as int),
        ExprV::Char(c) => "'"@ + seq![c] + "'"@,
        ExprV::Closure(_, _) => "<function>"@,
        ExprV::EmptyRecord => "{}"@,
        ExprV::Var(n) => n,
        ExprV::ApplyVariant(n, None) => n,
        ExprV::ApplyVariant(n, Some(args)) => n + "("@ + render_list(args) + ")"@,
        _ => "<expression>"@,
    }
}

/// The textual forms of the expressions, separated by `, `.
pub open spec fn render_list(s: Seq<ExprV>) -> Seq<char>
    decreases s,
{
    if s.len() == 0 {
        Seq::empty()
    } else if s.len() == 1 {
        render_v(s[0])
    } else {
        render_list(s.subrange(0, s.len() - 1)) + ", "@ + render_v(s[s.len() - 1])
    }
}

/// Calls `String::push`. Claimed: the string afterwards is the old one with
/// the character appended.
#[verifier::external_body]
pub(crate) fn string_push(s: &mut String, c: char)
    ensures
        final(s)@ == old(s)@.push(c),
{
    s.push(c)
}

fn digit(d: u64) -> (c: char)
    requires
        d < 10,
    ensures
        c == digit_char(d as int),
{
    if d == 0 {
        '0'
    } else if d == 1 {
        '1'
    } else if d == 2 {
        '2'
    } else if d == 3 {
        '3'
    } else if d == 4 {
        '4'
    } else if d == 5 {
        '5'
    } else if d == 6 {
        '6'
    } else if d == 7 {
        '7'
    } else if d == 8 {
        '8'
    } else {
        '9'
    }
}

fn push_nat(out: &mut String, n: u64)
    ensures
        final(out)@ == old(out)@ + nat_text(n as nat),
    decreases n,
{
    if n >= 10 {
        push_nat(out, n / 10);
    }
    let c = digit(n % 10);
    string_push(out, c);
    proof {
        if n < 10 {
            assert(nat_text(n as nat) == seq![digit_char(n as int)]);
        }
    }
    assert(final(out)@ =~= old(out)@ + nat_text(n as nat)) by {
        if n >= 10 {
            assert(nat_text(n as nat) == nat_text((n / 10) as nat).push(digit_char((n % 10) as int)));
        }
    }
}

fn push_int(out: &mut String, i: i64)
    ensures
        final(out)@ == old(out)@ + int_text(i as int),
{
    if i < 0 {
        string_push(out, '-');
        let m: u64 = (0i128 - (i as i128)) as u64;
        push_nat(out, m);
        assert(final(out)@ =~= old(out)@ + int_text(i as int));
    } else {
        push_nat(out, i as u64);
    }
}

fn render_list_into(args: &[Expr], out: &mut String)
    ensures
        final(out)@ == old(out)@ + render_list(crate::expr::exprs_dv(args@)),
    decreases args@,
{
    let ghost s = crate::expr::exprs_dv(args@);
    proof {
        crate::expr::lemma_exprs_dv(args@);
    }
    let mut i: usize = 0;
    while i < args.len()
        invariant
            i <= args@.len(),
            s == crate::expr::exprs_dv(args@),
            s.len() == args@.len(),
            forall|j: int| 0 <= j < args@.len() ==> #[trigger] s[j] == args@[j].dv(),
            out@ == old(out)@ + render_list(s.subrange(0, i as int)),
        decreases args@.len() - i,
    {
        proof {
            assert(decreases_to!(args@ => args@[i as int]));
        }
        let ghost before = out@;
        if i > 0 {
            out.append(", ");
        }
        render_into(&args[i], out);
        proof {
            let t = s.subrange(0, i + 1);
            assert(t.subrange(0, i as int) =~= s.subrange(0, i as int));
            assert(t[i as int] == s[i as int]);
            if i == 0 {
                assert(render_list(t) == render_v(t[0]));
                assert(render_list(s.subrange(0, 0)) =~= Seq::<char>::empty());
            }
            assert(out@ =~= old(out)@ + render_list(t));
        }
        i = i + 1;
    }
    assert(s.subrange(0, args@.len() as int) =~= s);
}

/// Appends the textual form of `e` to `out`.
pub(crate) fn render_into(e: &Expr, out: &mut String)
    ensures
        final(out)@ == old(out)@ + render_v(e.dv()),
    decreases e,
{
    match e {
        Expr::Error(_) => out.append("<error>"),
        Expr::Int(n) => push_int(out, *n),
        Expr::EmptyStr => out.append("\"\""),
        Expr::Str(s) => {
            out.append("\"");
            out.append(s.as_str());
            out.append("\"");
            assert(final(out)@ =~= old(out)@ + render_v(e.dv()));
        },
        Expr::Frac(n, d) => {
            push_int(out, *n);
            out.append("/");
            push_int(out, *d);
            assert(final(out)@ =~= old(out)@ + render_v(e.dv()));
        },
        Expr::Char(c) => {
            out.append("'");
            string_push(out, *c);
            out.append("'");
            assert(final(out)@ =~= old(out)@ + render_v(e.dv()));
        },
        Expr::Closure(_, _) => out.append("<function>"),
        Expr::EmptyRecord => out.append("{}"),
        Expr::Var(n) => out.append(n.as_str()),
        Expr::ApplyVariant(n, None) => out.append(n.as_str()),
        Expr::ApplyVariant(n, Some(args)) => {
            out.append(n.as_str());
            out.append("(");
            render_list_into(args.as_slice(), out);
            out.append(")");
            assert(final(out)@ =~= old(out)@ + render_v(e.dv()));
        },
        _ => out.append("<expression>"),
    }
}

impl Expr {
    /// The textual form of the expression (see `render_v`).
    pub fn to_string(&self) -> (r: String)
        ensures
            r@ == render_v(self.dv()),
    {
        let mut out = String::new();
        render_into(self, &mut out);
        assert(out@ =~= render_v(self.dv()));
        out
    }
}

} // verus!
