//! The errors that the engine reports to its host.

use vstd::prelude::*;
use vstd::string::StringExecFns;
use crate::ast::{BinaryOp, UnaryOp};
use crate::ast::intern::Interner;
use crate::text::{decimal, push_decimal};
use crate::value::{Operator, push_text, RuntimeError, text_of, ValueKind};

verus! {

/// An error, as the host sees it.
#[derive(Clone, Debug, PartialEq)]
pub enum Error {
    /// The script's text is wrong: the line (counted from zero), what
    /// stands on it, and what is wrong with it.
    Syntax(u32, String, &'static str),
    /// A jump or a start names no node.
    UnknownNode(String),
    /// An expression calls a function that was not registered.
    UnknownFunction(String),
    /// A function was called with the wrong number of arguments: its name,
    /// the number it takes, the number given.
    ArityMismatch(String, usize, usize),
    /// An operator was applied to kinds of value that it does not take.
    TypeMismatch(Operator, ValueKind, ValueKind),
    /// The choice is none of those on offer: the index, and how many there
    /// are.
    InvalidChoice(usize, usize),
    /// The runner waits for nothing of that kind.
    NotWaiting,
    /// One call took more steps than the budget allows.
    RuntimeBudgetExceeded,
}

/// An error as a value of specifications: text in place of strings.
pub enum ErrorView {
    Syntax(u32, Seq<char>, Seq<char>),
    UnknownNode(Seq<char>),
    UnknownFunction(Seq<char>),
    ArityMismatch(Seq<char>, usize, usize),
    TypeMismatch(Operator, ValueKind, ValueKind),
    InvalidChoice(usize, usize),
    NotWaiting,
    RuntimeBudgetExceeded,
}

impl View for Error {
    type V = ErrorView;

    open spec fn view(&self) -> ErrorView {
        match *self {
            Error::Syntax(line, excerpt, message) => ErrorView::Syntax(line, excerpt@, message@),
            Error::UnknownNode(title) => ErrorView::UnknownNode(title@),
            Error::UnknownFunction(name) => ErrorView::UnknownFunction(name@),
            Error::ArityMismatch(name, takes, given) => ErrorView::ArityMismatch(
                name@,
                takes,
                given,
            ),
            Error::TypeMismatch(op, lhs, rhs) => ErrorView::TypeMismatch(op, lhs, rhs),
            Error::InvalidChoice(index, count) => ErrorView::InvalidChoice(index, count),
            Error::NotWaiting => ErrorView::NotWaiting,
            Error::RuntimeBudgetExceeded => ErrorView::RuntimeBudgetExceeded,
        }
    }
}

/// A runtime error with the names that its keys stand for.
pub open spec fn runtime_error_view(e: RuntimeError, table: Seq<Seq<char>>) -> ErrorView {
    match e {
        RuntimeError::UnknownNode(k) => ErrorView::UnknownNode(text_of(table, k)),
        RuntimeError::UnknownFunction(k) => ErrorView::UnknownFunction(text_of(table, k)),
        RuntimeError::ArityMismatch(k, takes, given) => ErrorView::ArityMismatch(
            text_of(table, k),
            takes,
            given,
        ),
        RuntimeError::TypeMismatch(op, lhs, rhs) => ErrorView::TypeMismatch(op, lhs, rhs),
        RuntimeError::BudgetExceeded => ErrorView::RuntimeBudgetExceeded,
    }
}

/// Resolves the keys of a runtime error.
pub fn runtime_error(e: RuntimeError, interner: &Interner) -> (r: Error)
    ensures
        r@ == runtime_error_view(e, interner@),
{
    match e {
        RuntimeError::UnknownNode(k) => {
            let mut s = String::new();
            push_text(&mut s, interner, k);
            assert(s@ =~= text_of(interner@, k));
            Error::UnknownNode(s)
        },
        RuntimeError::UnknownFunction(k) => {
            let mut s = String::new();
            push_text(&mut s, interner, k);
            assert(s@ =~= text_of(interner@, k));
            Error::UnknownFunction(s)
        },
        RuntimeError::ArityMismatch(k, takes, given) => {
            let mut s = String::new();
            push_text(&mut s, interner, k);
            assert(s@ =~= text_of(interner@, k));
            Error::ArityMismatch(s, takes, given)
        },
        RuntimeError::TypeMismatch(op, lhs, rhs) => Error::TypeMismatch(op, lhs, rhs),
        RuntimeError::BudgetExceeded => Error::RuntimeBudgetExceeded,
    }
}

/// The sign of an operator.
pub open spec fn operator_sign(op: Operator) -> &'static str {
    match op {
        Operator::Unary(UnaryOp::Neg) => "-",
        Operator::Unary(UnaryOp::Not) => "not",
        Operator::Binary(BinaryOp::Or) => "or",
        Operator::Binary(BinaryOp::And) => "and",
        Operator::Binary(BinaryOp::Eq) => "==",
        Operator::Binary(BinaryOp::Ne) => "!=",
        Operator::Binary(BinaryOp::Lt) => "<",
        Operator::Binary(BinaryOp::Le) => "<=",
        Operator::Binary(BinaryOp::Gt) => ">",
        Operator::Binary(BinaryOp::Ge) => ">=",
        Operator::Binary(BinaryOp::Add) => "+",
        Operator::Binary(BinaryOp::Sub) => "-",
        Operator::Binary(BinaryOp::Mul) => "*",
        Operator::Binary(BinaryOp::Div) => "/",
        Operator::Binary(BinaryOp::Rem) => "%",
    }
}

/// The name of a kind of value.
pub open spec fn kind_name(kind: ValueKind) -> &'static str {
    match kind {
        ValueKind::Number => "number",
        ValueKind::String => "string",
    }
}

/// An error in words.
pub open spec fn description(e: ErrorView) -> Seq<char> {
    match e {
        ErrorView::Syntax(line, excerpt, message) => "Syntax Error:\n\n"@ + decimal(line as nat)
            + " | "@ + excerpt + "\n\t-- "@ + message,
        ErrorView::UnknownNode(title) => "unknown node: "@ + title,
        ErrorView::UnknownFunction(name) => "unknown function: "@ + name,
        ErrorView::ArityMismatch(name, takes, given) => "function "@ + name + " takes "@
            + decimal(takes as nat) + " arguments, got "@ + decimal(given as nat),
        ErrorView::TypeMismatch(op, lhs, rhs) => "type mismatch: "@ + kind_name(lhs)@ + " "@
            + operator_sign(op)@ + " "@ + kind_name(rhs)@,
        ErrorView::InvalidChoice(index, count) => "invalid choice "@ + decimal(index as nat)
            + " of "@ + decimal(count as nat),
        ErrorView::NotWaiting => "not waiting"@,
        ErrorView::RuntimeBudgetExceeded => "runtime budget exceeded"@,
    }
}

/// The sign of an operator.
pub fn sign_of(op: Operator) -> (s: &'static str)
    ensures
        s == operator_sign(op),
{
    match op {
        Operator::Unary(UnaryOp::Neg) => "-",
        Operator::Unary(UnaryOp::Not) => "not",
        Operator::Binary(BinaryOp::Or) => "or",
        Operator::Binary(BinaryOp::And) => "and",
        Operator::Binary(BinaryOp::Eq) => "==",
        Operator::Binary(BinaryOp::Ne) => "!=",
        Operator::Binary(BinaryOp::Lt) => "<",
        Operator::Binary(BinaryOp::Le) => "<=",
        Operator::Binary(BinaryOp::Gt) => ">",
        Operator::Binary(BinaryOp::Ge) => ">=",
        Operator::Binary(BinaryOp::Add) => "+",
        Operator::Binary(BinaryOp::Sub) => "-",
        Operator::Binary(BinaryOp::Mul) => "*",
        Operator::Binary(BinaryOp::Div) => "/",
        Operator::Binary(BinaryOp::Rem) => "%",
    }
}

fn name_of(kind: ValueKind) -> (s: &'static str)
    ensures
        s == kind_name(kind),
{
    match kind {
        ValueKind::Number => "number",
        ValueKind::String => "string",
    }
}

impl Error {
    /// The error in words.
    pub fn describe(&self) -> (s: String)
        ensures
            s@ == description(self@),
    {
        match self {
            Error::Syntax(line, excerpt, message) => {
                let mut s = String::from_str("Syntax Error:\n\n");
                push_decimal(&mut s, *line as u64);
                s.append(" | ");
                s.append(excerpt.as_str());
                s.append("\n\t-- ");
                s.append(message);
                s
            },
            Error::UnknownNode(title) => {
                let mut s = String::from_str("unknown node: ");
                s.append(title.as_str());
                s
            },
            Error::UnknownFunction(name) => {
                let mut s = String::from_str("unknown function: ");
                s.append(name.as_str());
                s
            },
            Error::ArityMismatch(name, takes, given) => {
                let mut s = String::from_str("function ");
                s.append(name.as_str());
                s.append(" takes ");
                push_decimal(&mut s, *takes as u64);
                s.append(" arguments, got ");
                push_decimal(&mut s, *given as u64);
                s
            },
            Error::TypeMismatch(op, lhs, rhs) => {
                let mut s = String::from_str("type mismatch: ");
                s.append(name_of(*lhs));
                s.append(" ");
                s.append(sign_of(*op));
                s.append(" ");
                s.append(name_of(*rhs));
                s
            },
            Error::InvalidChoice(index, count) => {
                let mut s = String::from_str("invalid choice ");
                push_decimal(&mut s, *index as u64);
                s.append(" of ");
                push_decimal(&mut s, *count as u64);
                s
            },
            Error::NotWaiting => String::from_str("not waiting"),
            Error::RuntimeBudgetExceeded => String::from_str("runtime budget exceeded"),
        }
    }
}

} // verus!
