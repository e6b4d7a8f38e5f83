//! Comparing syntax trees.

use vstd::prelude::*;
use crate::ast::{Args, Expr, KeyList, KeyPairs, LineKind, NodeHeader, NodeLine, Template};

verus! {

/// Whether two expressions are the same.
pub fn same_expr(a: &Expr, b: &Expr) -> (r: bool)
    ensures
        r == (*a == *b),
    decreases *a,
{
    match (a, b) {
        (Expr::Number(x), Expr::Number(y)) => *x == *y,
        (Expr::Text(x), Expr::Text(y)) => *x == *y,
        (Expr::Var(x), Expr::Var(y)) => *x == *y,
        (Expr::Call(f, x), Expr::Call(g, y)) => *f == *g && same_args(x, y),
        (Expr::Unary(o, x), Expr::Unary(p, y)) => *o == *p && same_expr(x, y),
        (Expr::Binary(o, x, u), Expr::Binary(p, y, v)) => *o == *p && same_expr(x, y) && same_expr(
            u,
            v,
        ),
        _ => false,
    }
}

/// Whether two lists of arguments are the same.
pub fn same_args(a: &Args, b: &Args) -> (r: bool)
    ensures
        r == (*a == *b),
    decreases *a,
{
    match (a, b) {
        (Args::Nil, Args::Nil) => true,
        (Args::Cons(x, u), Args::Cons(y, v)) => same_expr(x, y) && same_args(u, v),
        _ => false,
    }
}

/// Whether two templates are the same.
pub fn same_template(a: &Template, b: &Template) -> (r: bool)
    ensures
        r == (*a == *b),
    decreases *a,
{
    match (a, b) {
        (Template::End, Template::End) => true,
        (Template::Lit(x, u), Template::Lit(y, v)) => *x == *y && same_template(u, v),
        (Template::Hole(x, u), Template::Hole(y, v)) => same_expr(x, y) && same_template(u, v),
        _ => false,
    }
}

/// Whether two lists of keys are the same.
pub fn same_keys(a: &KeyList, b: &KeyList) -> (r: bool)
    ensures
        r == (*a == *b),
    decreases *a,
{
    match (a, b) {
        (KeyList::Nil, KeyList::Nil) => true,
        (KeyList::Cons(x, u), KeyList::Cons(y, v)) => *x == *y && same_keys(u, v),
        _ => false,
    }
}

/// Whether two lists of pairs are the same.
pub fn same_pairs(a: &KeyPairs, b: &KeyPairs) -> (r: bool)
    ensures
        r == (*a == *b),
    decreases *a,
{
    match (a, b) {
        (KeyPairs::Nil, KeyPairs::Nil) => true,
        (KeyPairs::Cons(x, s, u), KeyPairs::Cons(y, t, v)) => *x == *y && *s == *t && same_pairs(
            u,
            v,
        ),
        _ => false,
    }
}

/// Whether two lines are of the same kind, with the same parts.
pub fn same_kind(a: &LineKind, b: &LineKind) -> (r: bool)
    ensures
        r == (*a == *b),
{
    match (a, b) {
        (LineKind::Text(x), LineKind::Text(y)) => same_template(x, y),
        (LineKind::Label, LineKind::Label) => true,
        (LineKind::Assign(x, u), LineKind::Assign(y, v)) => *x == *y && same_expr(u, v),
        (LineKind::If(x), LineKind::If(y)) => same_expr(x, y),
        (LineKind::ElseIf(x), LineKind::ElseIf(y)) => same_expr(x, y),
        (LineKind::Else, LineKind::Else) => true,
        (LineKind::EndIf, LineKind::EndIf) => true,
        (LineKind::Jump(x), LineKind::Jump(y)) => *x == *y,
        (LineKind::Stop, LineKind::Stop) => true,
        (LineKind::Wait(x), LineKind::Wait(y)) => same_expr(x, y),
        (LineKind::WaitInput, LineKind::WaitInput) => true,
        (LineKind::Host(x, u), LineKind::Host(y, v)) => *x == *y && same_keys(u, v),
        (LineKind::Shortcut(x, None), LineKind::Shortcut(y, None)) => same_template(x, y),
        (LineKind::Shortcut(x, Some(u)), LineKind::Shortcut(y, Some(v))) => same_template(x, y)
            && same_expr(u, v),
        (LineKind::Choice(x, u), LineKind::Choice(y, v)) => *x == *y && *u == *v,
        _ => false,
    }
}

/// Whether two lines are the same.
pub fn same_line(a: &NodeLine, b: &NodeLine) -> (r: bool)
    ensures
        r == (*a == *b),
{
    a.label == b.label && a.indent == b.indent && a.tag == b.tag && same_kind(&a.kind, &b.kind)
}

/// Whether two headers are the same.
pub fn same_header(a: &NodeHeader, b: &NodeHeader) -> (r: bool)
    ensures
        r == (*a == *b),
{
    a.title == b.title && same_keys(&a.tags, &b.tags) && same_pairs(&a.custom, &b.custom)
}

/// Whether two bodies hold the same lines in the same order.
pub fn same_lines(a: &Vec<NodeLine>, b: &Vec<NodeLine>) -> (r: bool)
    ensures
        r == (a@ == b@),
{
    if a.len() != b.len() {
        return false;
    }
    let mut i: usize = 0;
    while i < a.len()
        invariant
            i <= a.len(),
            a.len() == b.len(),
            forall|k: int| 0 <= k < i ==> a@[k] == b@[k],
        decreases a.len() - i,
    {
        if !same_line(&a[i], &b[i]) {
            return false;
        }
        i += 1;
    }
    assert(a@ =~= b@);
    true
}

} // verus!
