use yarnspinner::ast::intern::{InternedKey, Interner};
use yarnspinner::ast::{BinaryOp, UnaryOp, Value};
use yarnspinner::error::runtime_error;
use yarnspinner::host::{Context, MemoryContext};
use yarnspinner::text::{chars_of, push_numeral, read_digits, scan, string_of, string_of_range, CharClass};
use yarnspinner::value::{
    apply_binary, apply_number_op, apply_unary, push_value, value_is_true, Operator, RuntimeError,
    ValueKind,
};
use yarnspinner::Error;

fn numeral(n: i64) -> String {
    let mut s = String::new();
    push_numeral(&mut s, n);
    s
}

#[test]
fn numerals() {
    assert_eq!(numeral(0), "0");
    assert_eq!(numeral(7), "7");
    assert_eq!(numeral(10), "10");
    assert_eq!(numeral(-1), "-1");
    assert_eq!(numeral(1234567890), "1234567890");
    assert_eq!(numeral(i64::MAX), "9223372036854775807");
    assert_eq!(numeral(i64::MIN), "-9223372036854775808");
}

#[test]
fn characters_and_strings_round_trip() {
    let text = "héllo, wörld ✓";
    let chars = chars_of(text);
    assert_eq!(chars.len(), 14);
    assert_eq!(chars[1], 'é');
    assert_eq!(string_of(&chars), text);
    assert_eq!(string_of_range(&chars, 7, 12), "wörld");
    assert_eq!(string_of_range(&chars, 3, 3), "");
}

#[test]
fn scanning_and_digits() {
    let chars = chars_of("  12345x \t");
    assert_eq!(scan(&chars, 0, CharClass::Blank), 2);
    assert_eq!(scan(&chars, 2, CharClass::Digit), 7);
    assert_eq!(scan(&chars, 2, CharClass::Ident), 8);
    assert_eq!(scan(&chars, 8, CharClass::Blank), 10);
    assert_eq!(scan(&chars, 10, CharClass::Blank), 10);
    assert_eq!(read_digits(&chars, 2, 7), Some(12345));
    assert_eq!(read_digits(&chars, 2, 2), Some(0));
    let big = chars_of("9223372036854775807");
    assert_eq!(read_digits(&big, 0, big.len()), Some(i64::MAX));
    let bigger = chars_of("9223372036854775808");
    assert_eq!(read_digits(&bigger, 0, bigger.len()), None);
}

#[test]
fn number_operators() {
    assert_eq!(apply_number_op(BinaryOp::Add, 2, 3), 5);
    assert_eq!(apply_number_op(BinaryOp::Sub, 2, 3), -1);
    assert_eq!(apply_number_op(BinaryOp::Mul, -4, 3), -12);
    assert_eq!(apply_number_op(BinaryOp::Div, 7, 2), 3);
    assert_eq!(apply_number_op(BinaryOp::Div, -7, 2), -3);
    assert_eq!(apply_number_op(BinaryOp::Div, 7, -2), -3);
    assert_eq!(apply_number_op(BinaryOp::Div, -7, -2), 3);
    assert_eq!(apply_number_op(BinaryOp::Div, 7, 0), 0);
    assert_eq!(apply_number_op(BinaryOp::Div, i64::MIN, -1), i64::MAX);
    assert_eq!(apply_number_op(BinaryOp::Rem, 7, 3), 1);
    assert_eq!(apply_number_op(BinaryOp::Rem, -7, 3), -1);
    assert_eq!(apply_number_op(BinaryOp::Rem, 7, -3), 1);
    assert_eq!(apply_number_op(BinaryOp::Rem, 7, 0), 0);
    assert_eq!(apply_number_op(BinaryOp::Rem, i64::MIN, -1), 0);
    assert_eq!(apply_number_op(BinaryOp::Add, i64::MAX, 1), i64::MAX);
    assert_eq!(apply_number_op(BinaryOp::Sub, i64::MIN, 1), i64::MIN);
    assert_eq!(apply_number_op(BinaryOp::Mul, i64::MIN, -1), i64::MAX);
    assert_eq!(apply_number_op(BinaryOp::Mul, i64::MAX, i64::MIN), i64::MIN);
    assert_eq!(apply_number_op(BinaryOp::Lt, 1, 2), 1);
    assert_eq!(apply_number_op(BinaryOp::Le, 2, 2), 1);
    assert_eq!(apply_number_op(BinaryOp::Gt, 1, 2), 0);
    assert_eq!(apply_number_op(BinaryOp::Ge, 1, 2), 0);
    assert_eq!(apply_number_op(BinaryOp::Eq, 1, 1), 1);
    assert_eq!(apply_number_op(BinaryOp::Ne, 1, 1), 0);
    assert_eq!(apply_number_op(BinaryOp::And, 1, 0), 0);
    assert_eq!(apply_number_op(BinaryOp::And, 5, -1), 1);
    assert_eq!(apply_number_op(BinaryOp::Or, 0, 0), 0);
    assert_eq!(apply_number_op(BinaryOp::Or, 0, 9), 1);
}

#[test]
fn unary_operators() {
    assert_eq!(apply_unary(UnaryOp::Neg, Value::Number(5)), Ok(Value::Number(-5)));
    assert_eq!(apply_unary(UnaryOp::Neg, Value::Number(i64::MIN)), Ok(Value::Number(i64::MAX)));
    assert_eq!(apply_unary(UnaryOp::Not, Value::Number(0)), Ok(Value::Number(1)));
    assert_eq!(apply_unary(UnaryOp::Not, Value::Number(3)), Ok(Value::Number(0)));
    assert_eq!(
        apply_unary(UnaryOp::Not, Value::String(InternedKey(0))),
        Err(RuntimeError::TypeMismatch(
            Operator::Unary(UnaryOp::Not),
            ValueKind::String,
            ValueKind::String
        ))
    );
}

#[test]
fn binary_operators_on_values() {
    let mut interner = Interner::new();
    let a = Value::String(interner.intern("ab"));
    let b = Value::String(interner.intern("cd"));
    let joined = apply_binary(BinaryOp::Add, a, b, &mut interner).unwrap();
    match joined {
        Value::String(k) => assert_eq!(interner.resolve(k), "abcd"),
        _ => panic!("expected a string"),
    }
    assert_eq!(interner.len(), 3);
    assert_eq!(apply_binary(BinaryOp::Add, a, b, &mut interner), Ok(joined));
    assert_eq!(interner.len(), 3);
    assert_eq!(apply_binary(BinaryOp::Eq, a, a, &mut interner), Ok(Value::Number(1)));
    assert_eq!(apply_binary(BinaryOp::Eq, a, b, &mut interner), Ok(Value::Number(0)));
    assert_eq!(apply_binary(BinaryOp::Ne, a, b, &mut interner), Ok(Value::Number(1)));
    assert_eq!(
        apply_binary(BinaryOp::Eq, a, Value::Number(1), &mut interner),
        Ok(Value::Number(0))
    );
    assert_eq!(
        apply_binary(BinaryOp::Ne, Value::Number(1), a, &mut interner),
        Ok(Value::Number(1))
    );
    assert_eq!(
        apply_binary(BinaryOp::Lt, a, b, &mut interner),
        Err(RuntimeError::TypeMismatch(
            Operator::Binary(BinaryOp::Lt),
            ValueKind::String,
            ValueKind::String
        ))
    );
    assert_eq!(
        apply_binary(BinaryOp::Mul, Value::Number(2), a, &mut interner),
        Err(RuntimeError::TypeMismatch(
            Operator::Binary(BinaryOp::Mul),
            ValueKind::Number,
            ValueKind::String
        ))
    );
    assert_eq!(
        apply_binary(BinaryOp::Mul, Value::Number(2), Value::Number(4), &mut interner),
        Ok(Value::Number(8))
    );
}

#[test]
fn truth_and_text_of_values() {
    let mut interner = Interner::new();
    let key = interner.intern("word");
    assert!(value_is_true(Value::Number(2)));
    assert!(!value_is_true(Value::Number(0)));
    assert!(!value_is_true(Value::String(key)));
    let mut s = String::from("<");
    push_value(&mut s, &interner, Value::Number(-12));
    push_value(&mut s, &interner, Value::String(key));
    push_value(&mut s, &interner, Value::String(InternedKey(99)));
    s.push('>');
    assert_eq!(s, "<-12word>");
}

#[test]
fn memory_context_keeps_what_was_set() {
    let mut ctx = MemoryContext::new();
    assert_eq!(ctx.get_var(InternedKey(3)), None);
    ctx.set_var(InternedKey(3), Value::Number(9));
    ctx.set_var(InternedKey(4), Value::String(InternedKey(0)));
    ctx.set_var(InternedKey(3), Value::Number(10));
    assert_eq!(ctx.get_var(InternedKey(3)), Some(Value::Number(10)));
    assert_eq!(ctx.get_var(InternedKey(4)), Some(Value::String(InternedKey(0))));
    assert_eq!(ctx.get_var(InternedKey(5)), None);
}

#[test]
fn runtime_errors_name_what_they_are_about() {
    let mut interner = Interner::new();
    let key = interner.intern("Cellar");
    assert_eq!(
        runtime_error(RuntimeError::UnknownNode(key), &interner),
        Error::UnknownNode("Cellar".to_string())
    );
    assert_eq!(
        runtime_error(RuntimeError::ArityMismatch(key, 2, 0), &interner),
        Error::ArityMismatch("Cellar".to_string(), 2, 0)
    );
    assert_eq!(
        runtime_error(RuntimeError::BudgetExceeded, &interner),
        Error::RuntimeBudgetExceeded
    );
    assert_eq!(
        Error::ArityMismatch("roll".to_string(), 2, 1).describe(),
        "function roll takes 2 arguments, got 1"
    );
    assert_eq!(
        Error::TypeMismatch(Operator::Binary(BinaryOp::Add), ValueKind::Number, ValueKind::String)
            .describe(),
        "type mismatch: number + string"
    );
    assert_eq!(Error::InvalidChoice(3, 2).describe(), "invalid choice 3 of 2");
    assert_eq!(Error::UnknownNode("X".to_string()).describe(), "unknown node: X");
}
