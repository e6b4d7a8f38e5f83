//! What the operators do to values, and how a value reads as text.

use vstd::prelude::*;
use vstd::string::StringExecFns;
use crate::ast::{BinaryOp, NodeLabel, UnaryOp, Value};
use crate::ast::expr::try_interned;
use crate::ast::intern::{InternedKey, Interner, lemma_interned};
use crate::text::{numeral, push_numeral};

verus! {

/// The two kinds of value.
#[derive(Clone, Copy, PartialEq, Eq, Debug, Structural)]
pub enum ValueKind {
    Number,
    String,
}

/// An operator of either arity.
#[derive(Clone, Copy, PartialEq, Eq, Debug, Structural)]
pub enum Operator {
    Unary(UnaryOp),
    Binary(BinaryOp),
}

/// What can go wrong while a node runs.
#[derive(Clone, Copy, PartialEq, Eq, Debug, Structural)]
pub enum RuntimeError {
    /// A jump or a start names no node.
    UnknownNode(NodeLabel),
    /// An expression calls a function that was not registered.
    UnknownFunction(NodeLabel),
    /// A function was called with the wrong number of arguments: its name,
    /// the number it takes, the number given.
    ArityMismatch(NodeLabel, usize, usize),
    /// An operator was applied to kinds of value that it does not take.
    TypeMismatch(Operator, ValueKind, ValueKind),
    /// The step budget of one call, or the interner's key space, ran out.
    BudgetExceeded,
}

pub open spec fn kind_of(v: Value) -> ValueKind {
    match v {
        Value::Number(_) => ValueKind::Number,
        Value::String(_) => ValueKind::String,
    }
}

/// Whether a value counts as true: a number other than zero.
pub open spec fn is_true(v: Value) -> bool {
    match v {
        Value::Number(n) => n != 0,
        Value::String(_) => false,
    }
}

/// The nearest signed 64-bit integer.
pub open spec fn clamp(x: int) -> i64 {
    if x < i64::MIN {
        i64::MIN
    } else if x > i64::MAX {
        i64::MAX
    } else {
        x as i64
    }
}

pub open spec fn magnitude(x: int) -> nat {
    if x < 0 {
        (-x) as nat
    } else {
        x as nat
    }
}

/// The quotient rounded toward zero; zero where the divisor is zero.
pub open spec fn quotient(a: int, b: int) -> int {
    if b == 0 {
        0
    } else if (a < 0) != (b < 0) {
        -((magnitude(a) / magnitude(b)) as int)
    } else {
        (magnitude(a) / magnitude(b)) as int
    }
}

/// The remainder that goes with `quotient`: it has the sign of the
/// dividend; zero where the divisor is zero.
pub open spec fn remainder(a: int, b: int) -> int {
    if b == 0 {
        0
    } else if a < 0 {
        -((magnitude(a) % magnitude(b)) as int)
    } else {
        (magnitude(a) % magnitude(b)) as int
    }
}

pub open spec fn truth(b: bool) -> i64 {
    if b {
        1
    } else {
        0
    }
}

/// A binary operator on two numbers. Arithmetic that leaves the 64-bit
/// range stops at its nearest end.
pub open spec fn number_op(op: BinaryOp, a: i64, b: i64) -> i64 {
    match op {
        BinaryOp::Or => truth(a != 0 || b != 0),
        BinaryOp::And => truth(a != 0 && b != 0),
        BinaryOp::Eq => truth(a == b),
        BinaryOp::Ne => truth(a != b),
        BinaryOp::Lt => truth(a < b),
        BinaryOp::Le => truth(a <= b),
        BinaryOp::Gt => truth(a > b),
        BinaryOp::Ge => truth(a >= b),
        BinaryOp::Add => clamp(a + b),
        BinaryOp::Sub => clamp(a - b),
        BinaryOp::Mul => clamp(a * b),
        BinaryOp::Div => clamp(quotient(a as int, b as int)),
        BinaryOp::Rem => clamp(remainder(a as int, b as int)),
    }
}

/// A unary operator on a value: both take numbers only.
pub open spec fn unary_value(op: UnaryOp, v: Value) -> Result<Value, RuntimeError> {
    match v {
        Value::Number(n) => match op {
            UnaryOp::Neg => Ok(Value::Number(clamp(-n))),
            UnaryOp::Not => Ok(Value::Number(truth(n == 0))),
        },
        Value::String(_) => Err(
            RuntimeError::TypeMismatch(Operator::Unary(op), ValueKind::String, ValueKind::String),
        ),
    }
}

/// The text of an interned string; empty for a key that the table did not
/// give.
pub open spec fn text_of(table: Seq<Seq<char>>, key: InternedKey) -> Seq<char> {
    if key.0 < table.len() {
        table[key.0 as int]
    } else {
        Seq::empty()
    }
}

/// How a value reads in a line of dialog.
pub open spec fn value_text(table: Seq<Seq<char>>, v: Value) -> Seq<char> {
    match v {
        Value::Number(n) => numeral(n as int),
        Value::String(k) => text_of(table, k),
    }
}

/// A binary operator on two values, with the interner's table afterwards.
///
/// Two numbers: `number_op`. Two strings: `==` and `!=` compare them, `+`
/// joins them and interns the result. A number and a string are never
/// equal. Every other combination is a type mismatch.
pub open spec fn binary_value(op: BinaryOp, a: Value, b: Value, table: Seq<Seq<char>>) -> (
    Seq<Seq<char>>,
    Result<Value, RuntimeError>,
) {
    match (a, b) {
        (Value::Number(x), Value::Number(y)) => (table, Ok(Value::Number(number_op(op, x, y)))),
        (Value::String(x), Value::String(y)) => match op {
            BinaryOp::Eq => (table, Ok(Value::Number(truth(x == y)))),
            BinaryOp::Ne => (table, Ok(Value::Number(truth(x != y)))),
            BinaryOp::Add => match try_interned(table, text_of(table, x) + text_of(table, y)) {
                (t, Some(key)) => (t, Ok(Value::String(key))),
                (t, None) => (t, Err(RuntimeError::BudgetExceeded)),
            },
            _ => (
                table,
                Err(
                    RuntimeError::TypeMismatch(
                        Operator::Binary(op),
                        ValueKind::String,
                        ValueKind::String,
                    ),
                ),
            ),
        },
        _ => match op {
            BinaryOp::Eq => (table, Ok(Value::Number(0))),
            BinaryOp::Ne => (table, Ok(Value::Number(1))),
            _ => (
                table,
                Err(RuntimeError::TypeMismatch(Operator::Binary(op), kind_of(a), kind_of(b))),
            ),
        },
    }
}

pub fn value_kind(v: Value) -> (k: ValueKind)
    ensures
        k == kind_of(v),
{
    match v {
        Value::Number(_) => ValueKind::Number,
        Value::String(_) => ValueKind::String,
    }
}

pub fn value_is_true(v: Value) -> (r: bool)
    ensures
        r == is_true(v),
{
    match v {
        Value::Number(n) => n != 0,
        Value::String(_) => false,
    }
}

fn clamp_wide(x: i128) -> (r: i64)
    ensures
        r == clamp(x as int),
{
    if x < -9223372036854775808i128 {
        i64::MIN
    } else if x > 9223372036854775807i128 {
        i64::MAX
    } else {
        x as i64
    }
}

fn magnitude_of(x: i64) -> (r: u64)
    ensures
        r == magnitude(x as int),
{
    if x == i64::MIN {
        9223372036854775808u64
    } else if x < 0 {
        (-x) as u64
    } else {
        x as u64
    }
}

fn truth_of(b: bool) -> (r: i64)
    ensures
        r == truth(b),
{
    if b {
        1
    } else {
        0
    }
}

/// Applies a binary operator to two numbers.
pub fn apply_number_op(op: BinaryOp, a: i64, b: i64) -> (r: i64)
    ensures
        r == number_op(op, a, b),
{
    match op {
        BinaryOp::Or => truth_of(a != 0 || b != 0),
        BinaryOp::And => truth_of(a != 0 && b != 0),
        BinaryOp::Eq => truth_of(a == b),
        BinaryOp::Ne => truth_of(a != b),
        BinaryOp::Lt => truth_of(a < b),
        BinaryOp::Le => truth_of(a <= b),
        BinaryOp::Gt => truth_of(a > b),
        BinaryOp::Ge => truth_of(a >= b),
        BinaryOp::Add => clamp_wide(a as i128 + b as i128),
        BinaryOp::Sub => clamp_wide(a as i128 - b as i128),
        BinaryOp::Mul => {
            assert(-0x4000_0000_0000_0000_0000_0000_0000_0000 <= (a as int) * (b as int)
                <= 0x4000_0000_0000_0000_0000_0000_0000_0000) by (nonlinear_arith)
                requires
                    -0x8000_0000_0000_0000 <= a <= 0x7fff_ffff_ffff_ffff,
                    -0x8000_0000_0000_0000 <= b <= 0x7fff_ffff_ffff_ffff,
            ;
            clamp_wide((a as i128) * (b as i128))
        },
        BinaryOp::Div => {
            if b == 0 {
                0
            } else {
                let q: u64 = magnitude_of(a) / magnitude_of(b);
                if (a < 0) != (b < 0) {
                    clamp_wide(-(q as i128))
                } else {
                    clamp_wide(q as i128)
                }
            }
        },
        BinaryOp::Rem => {
            if b == 0 {
                0
            } else {
                let m: u64 = magnitude_of(a) % magnitude_of(b);
                if a < 0 {
                    clamp_wide(-(m as i128))
                } else {
                    clamp_wide(m as i128)
                }
            }
        },
    }
}

/// Applies a unary operator to a value.
pub fn apply_unary(op: UnaryOp, v: Value) -> (r: Result<Value, RuntimeError>)
    ensures
        r == unary_value(op, v),
{
    match v {
        Value::Number(n) => match op {
            UnaryOp::Neg => Ok(Value::Number(clamp_wide(-(n as i128)))),
            UnaryOp::Not => Ok(Value::Number(truth_of(n == 0))),
        },
        Value::String(_) => Err(
            RuntimeError::TypeMismatch(Operator::Unary(op), ValueKind::String, ValueKind::String),
        ),
    }
}

/// Appends the text of an interned string to `out`.
pub fn push_text(out: &mut String, interner: &Interner, key: InternedKey)
    ensures
        final(out)@ == old(out)@ + text_of(interner@, key),
{
    match interner.get(key) {
        Some(s) => {
            out.append(s);
        },
        None => {
            assert(out@ =~= old(out)@ + Seq::<char>::empty());
        },
    }
}

/// Appends the text of a value to `out`.
pub fn push_value(out: &mut String, interner: &Interner, v: Value)
    ensures
        final(out)@ == old(out)@ + value_text(interner@, v),
{
    match v {
        Value::Number(n) => push_numeral(out, n),
        Value::String(k) => push_text(out, interner, k),
    }
}

/// Applies a binary operator to two values; joining two strings interns
/// the result.
pub fn apply_binary(op: BinaryOp, a: Value, b: Value, interner: &mut Interner) -> (r: Result<
    Value,
    RuntimeError,
>)
    requires
        old(interner).wf(),
    ensures
        final(interner).wf(),
        crate::ast::intern::extends(final(interner)@, old(interner)@),
        (final(interner)@, r) == binary_value(op, a, b, old(interner)@),
{
    match (a, b) {
        (Value::Number(x), Value::Number(y)) => Ok(Value::Number(apply_number_op(op, x, y))),
        (Value::String(x), Value::String(y)) => match op {
            BinaryOp::Eq => Ok(Value::Number(truth_of(x.0 == y.0))),
            BinaryOp::Ne => Ok(Value::Number(truth_of(x.0 != y.0))),
            BinaryOp::Add => {
                let mut joined = String::new();
                push_text(&mut joined, interner, x);
                push_text(&mut joined, interner, y);
                assert(joined@ =~= text_of(interner@, x) + text_of(interner@, y));
                proof {
                    interner.lemma_wf();
                    lemma_interned(interner@, joined@);
                }
                match interner.try_intern(joined.as_str()) {
                    Some(key) => Ok(Value::String(key)),
                    None => Err(RuntimeError::BudgetExceeded),
                }
            },
            _ => Err(
                RuntimeError::TypeMismatch(
                    Operator::Binary(op),
                    ValueKind::String,
                    ValueKind::String,
                ),
            ),
        },
        _ => match op {
            BinaryOp::Eq => Ok(Value::Number(0)),
            BinaryOp::Ne => Ok(Value::Number(1)),
            _ => Err(
                RuntimeError::TypeMismatch(Operator::Binary(op), value_kind(a), value_kind(b)),
            ),
        },
    }
}

} // verus!
