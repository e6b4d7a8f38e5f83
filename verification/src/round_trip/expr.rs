//! Printing and parsing agree: the printed form of an expression parses
//! back to the expression.

use vstd::prelude::*;
use crate::ast::{Args, BinaryOp, Expr, UnaryOp};
use crate::ast::expr::{
    binary_op_at, parse_args, parse_expr, parse_level, parse_primary, parse_tail, parse_unary,
    parsed, span_end, spells, try_interned,
};
use crate::ast::intern::{distinct, InternedKey, lemma_index_of_unique};
use crate::ast::print::{args_text, expr_text};
use crate::round_trip::lexing::{
    lemma_ident_is_plain, lemma_tame_join, lemma_tame_plain, lemma_tame_quoted, plain_at, tame,
};

use crate::error::operator_sign;
use crate::text::{
    all_digits, CharClass, decimal, digit_char, digits_value, in_class, is_blank, is_digit,
    is_ident, is_ident_start, scan_end,
};
use crate::value::Operator;

verus! {

/// A run of characters of one class ends where the class ends.
pub proof fn lemma_scan_run(s: Seq<char>, pos: int, end: int, class: CharClass)
    requires
        0 <= pos <= end <= s.len(),
        forall|j: int| pos <= j < end ==> in_class(class, #[trigger] s[j]),
    ensures
        scan_end(s, pos, class) >= end,
        end == s.len() || !in_class(class, s[end]) ==> scan_end(s, pos, class) == end,
    decreases end - pos,
{
    if pos < end {
        lemma_scan_run(s, pos + 1, end, class);
    } else {
        crate::text::lemma_scan_end_bounds(s, pos, class);
    }
}

/// The same, cut off at `hi`.
pub proof fn lemma_span_run(s: Seq<char>, pos: int, end: int, hi: int, class: CharClass)
    requires
        0 <= pos <= end <= hi <= s.len(),
        forall|j: int| pos <= j < end ==> in_class(class, #[trigger] s[j]),
        end == hi || !in_class(class, s[end]),
    ensures
        span_end(s, pos, hi, class) == end,
{
    lemma_scan_run(s, pos, end, class);
}

/// A numeral is a run of digits that spells its number.
pub proof fn lemma_decimal(n: nat)
    ensures
        decimal(n).len() > 0,
        all_digits(decimal(n)),
        digits_value(decimal(n)) == n,
    decreases n,
{
    lemma_digit_char((n % 10) as int);
    if n >= 10 {
        lemma_decimal(n / 10);
        let d = decimal(n / 10);
        let s = decimal(n);
        assert(s == d.push(digit_char((n % 10) as int)));
        assert(s.drop_last() =~= d);
        assert(s.last() == digit_char((n % 10) as int));
        assert forall|j: int| 0 <= j < s.len() implies is_digit(#[trigger] s[j]) by {
            if j < d.len() {
                assert(s[j] == d[j]);
            }
        }
    } else {
        assert(decimal(n).drop_last() =~= Seq::<char>::empty());
        assert(decimal(n).last() == digit_char(n as int));
        assert(digits_value(Seq::<char>::empty()) == 0);
    }
}

/// The digit of `d` has the code of `0` plus `d`.
pub proof fn lemma_digit_char(d: int)
    requires
        0 <= d < 10,
    ensures
        digit_char(d) as u32 == 48 + d,
        is_digit(digit_char(d)),
{
}

/// The two halves of a text that stands in `s` stand in `s`.
pub proof fn lemma_split(s: Seq<char>, pos: int, a: Seq<char>, b: Seq<char>)
    requires
        0 <= pos,
        pos + a.len() + b.len() <= s.len(),
        s.subrange(pos, pos + a.len() + b.len()) == a + b,
    ensures
        s.subrange(pos, pos + a.len()) == a,
        s.subrange(pos + a.len(), pos + a.len() + b.len()) == b,
{
    let whole = s.subrange(pos, pos + a.len() + b.len());
    assert forall|j: int| 0 <= j < a.len() implies s.subrange(pos, pos + a.len())[j] == a[j] by {
        assert(whole[j] == (a + b)[j]);
    }
    assert(s.subrange(pos, pos + a.len()) =~= a);
    assert forall|j: int| 0 <= j < b.len() implies s.subrange(
        pos + a.len(),
        pos + a.len() + b.len(),
    )[j] == b[j] by {
        assert(whole[a.len() + j] == (a + b)[a.len() + j]);
    }
    assert(s.subrange(pos + a.len(), pos + a.len() + b.len()) =~= b);
}

/// A name: letters, digits and underscores, at least one.
pub open spec fn is_name(t: Seq<char>) -> bool {
    t.len() > 0 && forall|j: int| 0 <= j < t.len() ==> is_ident(#[trigger] t[j])
}

/// A text that can stand between double quotes.
pub open spec fn is_quotable(t: Seq<char>) -> bool {
    forall|j: int| 0 <= j < t.len() ==> #[trigger] t[j] != '"' && t[j] != '\n'
}

/// Whether the printed form of an expression parses back to it: its
/// numbers are not negative, its keys are keys of the table, its string
/// literals hold no quote and no line feed, its variables are names, and
/// its functions are names that start with no digit and are none of
/// `true`, `false` and `not`.
pub open spec fn printable(e: Expr, table: Seq<Seq<char>>) -> bool
    decreases e,
{
    match e {
        Expr::Number(n) => n >= 0,
        Expr::Text(k) => k.0 < table.len() && is_quotable(table[k.0 as int]),
        Expr::Var(k) => k.0 < table.len() && is_name(table[k.0 as int]),
        Expr::Call(k, args) => k.0 < table.len() && is_name(table[k.0 as int]) && is_ident_start(
            table[k.0 as int][0],
        ) && table[k.0 as int] != "true"@ && table[k.0 as int] != "false"@ && table[k.0 as int]
            != "not"@ && printable_args(args, table),
        Expr::Unary(_, a) => printable(*a, table),
        Expr::Binary(_, a, b) => printable(*a, table) && printable(*b, table),
    }
}

/// Whether every argument of a list is printable.
pub open spec fn printable_args(args: Args, table: Seq<Seq<char>>) -> bool
    decreases args,
{
    match args {
        Args::Nil => true,
        Args::Cons(e, rest) => printable(*e, table) && printable_args(*rest, table),
    }
}

/// What may stand behind a printed expression: the end of the text, a
/// blank, a closing bracket or a comma.
pub open spec fn ends_at(s: Seq<char>, q: int, hi: int) -> bool {
    0 <= q <= hi <= s.len() && (q == hi || s[q] == ' ' || s[q] == ')' || s[q] == ',')
}

/// No binary operator of level `level` or tighter follows at `q`.
pub open spec fn quiet(s: Seq<char>, q: int, hi: int, level: int) -> bool {
    forall|l: int|
        level <= l <= 4 ==> #[trigger] binary_op_at(s, span_end(s, q, hi, CharClass::Blank), hi, l)
            is None
}

/// Behind the end of the text, a closing bracket or a comma no operator
/// follows.
pub proof fn lemma_quiet_close(s: Seq<char>, q: int, hi: int)
    requires
        0 <= q <= hi <= s.len(),
        q == hi || s[q] == ')' || s[q] == ',',
    ensures
        quiet(s, q, hi, 0),
        span_end(s, q, hi, CharClass::Blank) == q,
{
    lemma_span_run(s, q, q, hi, CharClass::Blank);
    if q < hi {
        lemma_span_run(s, q, q, hi, CharClass::Ident);
        reveal_strlit("or");
        reveal_strlit("and");
        assert(s.subrange(q, q).len() == 0);
    }
}

/// The first character of a printed expression is no blank, and it tells
/// a negation, a `not` and a primary apart.
pub proof fn lemma_first_char(e: Expr, table: Seq<Seq<char>>)
    requires
        printable(e, table),
    ensures
        expr_text(e, table).len() > 0,
        !is_blank(expr_text(e, table)[0]),
        expr_text(e, table)[0] != ')',
        expr_text(e, table)[0] != ',',
        expr_text(e, table)[0] != '>',
        expr_text(e, table)[0] == '-' <==> e matches Expr::Unary(UnaryOp::Neg, _),
        e is Text ==> expr_text(e, table)[0] == '"',
        e is Var ==> expr_text(e, table)[0] == '$',
        e is Binary ==> expr_text(e, table)[0] == '(',
        e is Number ==> is_digit(expr_text(e, table)[0]),
        e matches Expr::Call(k, _) ==> expr_text(e, table)[0] == table[k.0 as int][0],
        e matches Expr::Unary(UnaryOp::Not, _) ==> expr_text(e, table)[0] == 'n',
{
    let t = expr_text(e, table);
    match e {
        Expr::Number(n) => {
            lemma_decimal(n as nat);
            assert(is_digit(decimal(n as nat)[0]));
        },
        Expr::Text(k) => {
            reveal_strlit("\"");
            assert(t[0] == '"');
        },
        Expr::Var(k) => {
            reveal_strlit("$");
            assert(t[0] == '$');
        },
        Expr::Unary(UnaryOp::Neg, a) => {
            reveal_strlit("-");
            assert(t[0] == '-');
        },
        Expr::Unary(UnaryOp::Not, a) => {
            reveal_strlit("not ");
            assert(t[0] == 'n');
        },
        Expr::Call(k, args) => {
            assert(t[0] == table[k.0 as int][0]);
        },
        Expr::Binary(op, a, b) => {
            reveal_strlit("(");
            assert(t[0] == '(');
        },
    }
}

/// The key of a string of the table is found again.
pub proof fn lemma_key_again(table: Seq<Seq<char>>, k: InternedKey)
    requires
        distinct(table),
        k.0 < table.len(),
    ensures
        try_interned(table, table[k.0 as int]) == (table, Some(k)),
{
    lemma_index_of_unique(table, k.0 as int);
}

/// A printed number, string or variable parses back as a primary.
pub proof fn lemma_atom(e: Expr, table: Seq<Seq<char>>, s: Seq<char>, pos: int, hi: int)
    requires
        distinct(table),
        printable(e, table),
        e is Number || e is Text || e is Var,
        0 <= pos,
        ends_at(s, pos + expr_text(e, table).len(), hi),
        s.subrange(pos, pos + expr_text(e, table).len()) == expr_text(e, table),
    ensures
        parse_primary(s, pos, hi, table) == parsed(table, e, pos + expr_text(e, table).len()),
{
    let t = expr_text(e, table);
    let q = pos + t.len();
    lemma_first_char(e, table);
    assert(s[pos] == s.subrange(pos, q)[0]);
    assert forall|j: int| 0 <= j < t.len() implies s[pos + j] == #[trigger] t[j] by {
        assert(s.subrange(pos, q)[j] == s[pos + j]);
    }
    match e {
        Expr::Number(n) => {
            lemma_decimal(n as nat);
            assert forall|j: int| pos <= j < q implies in_class(CharClass::Digit, #[trigger] s[j]) by {
                assert(s[j] == t[j - pos]);
            }
            lemma_span_run(s, pos, q, hi, CharClass::Digit);
        },
        Expr::Text(k) => {
            let body = table[k.0 as int];
            reveal_strlit("\"");
            assert(t =~= seq!['"'] + body + seq!['"']);
            assert(s[pos] == t[0]);
            assert forall|j: int| pos + 1 <= j < q - 1 implies in_class(
                CharClass::Quoted,
                #[trigger] s[j],
            ) by {
                assert(s[j] == t[j - pos]);
                assert(t[j - pos] == body[j - pos - 1]);
            }
            assert(s[q - 1] == t[t.len() - 1]);
            lemma_span_run(s, pos + 1, q - 1, hi, CharClass::Quoted);
            assert forall|j: int| 0 <= j < body.len() implies s.subrange(pos + 1, q - 1)[j]
                == body[j] by {
                assert(s[pos + 1 + j] == t[j + 1]);
                assert(t[j + 1] == body[j]);
            }
            assert(s.subrange(pos + 1, q - 1) =~= body);
            lemma_key_again(table, k);
        },
        Expr::Var(k) => {
            let name = table[k.0 as int];
            reveal_strlit("$");
            assert(t =~= seq!['$'] + name);
            assert(s[pos] == t[0]);
            assert forall|j: int| pos + 1 <= j < q implies in_class(
                CharClass::Ident,
                #[trigger] s[j],
            ) by {
                assert(s[j] == t[j - pos]);
                assert(t[j - pos] == name[j - pos - 1]);
            }
            lemma_span_run(s, pos + 1, q, hi, CharClass::Ident);
            assert forall|j: int| 0 <= j < name.len() implies s.subrange(pos + 1, q)[j]
                == name[j] by {
                assert(s[pos + 1 + j] == t[j + 1]);
                assert(t[j + 1] == name[j]);
            }
            assert(s.subrange(pos + 1, q) =~= name);
            lemma_key_again(table, k);
        },
        _ => {},
    }
}

/// The binding level of a binary operator.
pub open spec fn level_of(op: BinaryOp) -> int {
    match op {
        BinaryOp::Or => 0,
        BinaryOp::And => 1,
        BinaryOp::Eq | BinaryOp::Ne | BinaryOp::Lt | BinaryOp::Le | BinaryOp::Gt | BinaryOp::Ge => 2,
        BinaryOp::Add | BinaryOp::Sub => 3,
        BinaryOp::Mul | BinaryOp::Div | BinaryOp::Rem => 4,
    }
}

/// The text `t` stands in `s` at `pos`, behind nothing but blanks from
/// `from` on.
pub open spec fn stands(s: Seq<char>, from: int, pos: int, t: Seq<char>) -> bool {
    &&& 0 <= from <= pos
    &&& pos + t.len() <= s.len()
    &&& s.subrange(pos, pos + t.len()) == t
    &&& forall|j: int| from <= j < pos ==> is_blank(#[trigger] s[j])
}

/// A character of a text that stands in `s`.
pub proof fn lemma_at(s: Seq<char>, pos: int, t: Seq<char>, j: int)
    requires
        0 <= pos,
        pos + t.len() <= s.len(),
        s.subrange(pos, pos + t.len()) == t,
        0 <= j < t.len(),
    ensures
        s[pos + j] == t[j],
{
    assert(s.subrange(pos, pos + t.len())[j] == s[pos + j]);
}

/// The sign of an operator, between blanks, is read as that operator at
/// its own level and as none at a tighter level.
pub proof fn lemma_op_at(op: BinaryOp, s: Seq<char>, p: int, hi: int)
    requires
        0 <= p,
        p + operator_sign(Operator::Binary(op))@.len() < hi <= s.len(),
        s.subrange(p, p + operator_sign(Operator::Binary(op))@.len()) == operator_sign(
            Operator::Binary(op),
        )@,
        s[p + operator_sign(Operator::Binary(op))@.len()] == ' ',
    ensures
        operator_sign(Operator::Binary(op))@.len() > 0,
        !is_blank(s[p]),
        binary_op_at(s, p, hi, level_of(op)) == Some(
            (op, operator_sign(Operator::Binary(op))@.len() as int),
        ),
        forall|l: int| level_of(op) < l <= 4 ==> #[trigger] binary_op_at(s, p, hi, l) is None,
{
    let sign = operator_sign(Operator::Binary(op))@;
    reveal_strlit("or");
    reveal_strlit("and");
    reveal_strlit("==");
    reveal_strlit("!=");
    reveal_strlit("<");
    reveal_strlit("<=");
    reveal_strlit(">");
    reveal_strlit(">=");
    reveal_strlit("+");
    reveal_strlit("-");
    reveal_strlit("*");
    reveal_strlit("/");
    reveal_strlit("%");
    assert(sign.len() > 0);
    lemma_at(s, p, sign, 0);
    if sign.len() > 1 {
        lemma_at(s, p, sign, 1);
    }
    if sign.len() > 2 {
        lemma_at(s, p, sign, 2);
    }
    match op {
        BinaryOp::Or | BinaryOp::And => {
            assert forall|j: int| p <= j < p + sign.len() implies in_class(
                CharClass::Ident,
                #[trigger] s[j],
            ) by {
                lemma_at(s, p, sign, j - p);
            }
            lemma_span_run(s, p, p + sign.len(), hi, CharClass::Ident);
            assert(s.subrange(p, p + sign.len()).len() == sign.len());
        },
        _ => {},
    }
}

/// A printed expression parses back at every binding level, where no
/// operator of that level or a tighter one follows it.
pub proof fn lemma_level(
    e: Expr,
    level: int,
    table: Seq<Seq<char>>,
    s: Seq<char>,
    from: int,
    pos: int,
    hi: int,
)
    requires
        distinct(table),
        printable(e, table),
        0 <= level <= 4,
        stands(s, from, pos, expr_text(e, table)),
        ends_at(s, pos + expr_text(e, table).len(), hi),
        quiet(s, pos + expr_text(e, table).len(), hi, level),
    ensures
        parse_level(s, from, hi, table, level) == parsed(
            table,
            e,
            pos + expr_text(e, table).len(),
        ),
    decreases e, 24 - level,
{
    let q = pos + expr_text(e, table).len();
    lemma_first_char(e, table);
    if level == 4 {
        lemma_unary(e, table, s, from, pos, hi);
    } else {
        assert(quiet(s, q, hi, level + 1)) by {
            assert forall|l: int| level + 1 <= l <= 4 implies #[trigger] binary_op_at(
                s,
                span_end(s, q, hi, CharClass::Blank),
                hi,
                l,
            ) is None by {}
        }
        lemma_level(e, level + 1, table, s, from, pos, hi);
    }
    assert(binary_op_at(s, span_end(s, q, hi, CharClass::Blank), hi, level) is None);
    assert(parse_tail(s, q, hi, table, level, e) == parsed(table, e, q));
}

/// A printed expression parses back as a unary expression.
pub proof fn lemma_unary(
    e: Expr,
    table: Seq<Seq<char>>,
    s: Seq<char>,
    from: int,
    pos: int,
    hi: int,
)
    requires
        distinct(table),
        printable(e, table),
        stands(s, from, pos, expr_text(e, table)),
        ends_at(s, pos + expr_text(e, table).len(), hi),
    ensures
        parse_unary(s, from, hi, table) == parsed(table, e, pos + expr_text(e, table).len()),
    decreases e, 19int,
{
    let t = expr_text(e, table);
    let q = pos + t.len();
    lemma_first_char(e, table);
    lemma_at(s, pos, t, 0);
    lemma_span_run(s, from, pos, hi, CharClass::Blank);
    reveal_strlit("not");
    match e {
        Expr::Unary(UnaryOp::Neg, a) => {
            let ta = expr_text(*a, table);
            reveal_strlit("-");
            lemma_split(s, pos, "-"@, ta);
            lemma_unary(*a, table, s, pos + 1, pos + 1, hi);
        },
        Expr::Unary(UnaryOp::Not, a) => {
            let ta = expr_text(*a, table);
            reveal_strlit("not ");
            lemma_split(s, pos, "not "@, ta);
            lemma_at(s, pos, "not "@, 0);
            lemma_at(s, pos, "not "@, 1);
            lemma_at(s, pos, "not "@, 2);
            lemma_at(s, pos, "not "@, 3);
            assert forall|j: int| pos <= j < pos + 3 implies in_class(
                CharClass::Ident,
                #[trigger] s[j],
            ) by {}
            lemma_span_run(s, pos, pos + 3, hi, CharClass::Ident);
            assert(s.subrange(pos, pos + 3) =~= "not"@);
            assert forall|j: int| pos + 3 <= j < pos + 4 implies is_blank(#[trigger] s[j]) by {}
            lemma_unary(*a, table, s, pos + 3, pos + 4, hi);
        },
        _ => {
            let w = span_end(s, pos, hi, CharClass::Ident);
            if pos < w && spells(s, pos, w, "not"@) {
                assert(s.subrange(pos, w).len() == 3);
                lemma_at(s, pos, "not"@, 0);
                assert(s[pos] == 'n');
                match e {
                    Expr::Call(k, args) => {
                        let name = table[k.0 as int];
                        lemma_call_name(e, table, s, pos, hi);
                        assert(s.subrange(pos, w) == name);
                        assert(false);
                    },
                    _ => {
                        assert(false);
                    },
                }
            }
            lemma_primary(e, table, s, pos, hi);
        },
    }
}

/// The name of a printed call is the run of identifier characters at its
/// start, and an opening bracket follows it.
pub proof fn lemma_call_name(e: Expr, table: Seq<Seq<char>>, s: Seq<char>, pos: int, hi: int)
    requires
        printable(e, table),
        e is Call,
        0 <= pos,
        pos + expr_text(e, table).len() <= hi <= s.len(),
        s.subrange(pos, pos + expr_text(e, table).len()) == expr_text(e, table),
    ensures
        ({
            let name = table[e->Call_0.0 as int];
            &&& span_end(s, pos, hi, CharClass::Ident) == pos + name.len()
            &&& s.subrange(pos, pos + name.len()) == name
            &&& s[pos + name.len()] == '('
            &&& pos + name.len() + 1 < pos + expr_text(e, table).len()
            &&& s[pos + expr_text(e, table).len() - 1] == ')'
            &&& s.subrange(
                pos + name.len() + 1,
                pos + expr_text(e, table).len() - 1,
            ) == args_text(e->Call_1, table)
        }),
{
    let k = e->Call_0;
    let args = e->Call_1;
    let name = table[k.0 as int];
    let a = args_text(args, table);
    let t = expr_text(e, table);
    reveal_strlit("(");
    reveal_strlit(")");
    assert(t == ((name + "("@) + a) + ")"@);
    assert(t.len() == name.len() + 1 + a.len() + 1);
    lemma_split(s, pos, (name + "("@) + a, ")"@);
    lemma_split(s, pos, name + "("@, a);
    lemma_split(s, pos, name, "("@);
    lemma_at(s, pos + name.len(), "("@, 0);
    lemma_at(s, pos + name.len() + 1 + a.len(), ")"@, 0);
    assert forall|j: int| pos <= j < pos + name.len() implies in_class(
        CharClass::Ident,
        #[trigger] s[j],
    ) by {
        lemma_at(s, pos, name, j - pos);
    }
    lemma_span_run(s, pos, pos + name.len(), hi, CharClass::Ident);
}

/// A printed expression that is no negation and no `not` parses back as a
/// primary.
pub proof fn lemma_primary(e: Expr, table: Seq<Seq<char>>, s: Seq<char>, pos: int, hi: int)
    requires
        distinct(table),
        printable(e, table),
        !(e is Unary),
        stands(s, pos, pos, expr_text(e, table)),
        ends_at(s, pos + expr_text(e, table).len(), hi),
    ensures
        parse_primary(s, pos, hi, table) == parsed(table, e, pos + expr_text(e, table).len()),
    decreases e, 18int,
{
    let t = expr_text(e, table);
    let q = pos + t.len();
    lemma_first_char(e, table);
    lemma_at(s, pos, t, 0);
    match e {
        Expr::Binary(op, a, b) => {
            reveal_strlit("(");
            reveal_strlit(")");
            let inner = expr_text(*a, table) + " "@ + operator_sign(Operator::Binary(op))@ + " "@
                + expr_text(*b, table);
            assert(t =~= ("("@ + inner) + ")"@);
            lemma_split(s, pos, "("@ + inner, ")"@);
            lemma_split(s, pos, "("@, inner);
            lemma_at(s, q - 1, ")"@, 0);
            lemma_inner(e, 0, table, s, pos + 1, hi);
            lemma_quiet_close(s, q - 1, hi);
        },
        Expr::Call(k, args) => {
            let name = table[k.0 as int];
            lemma_call_name(e, table, s, pos, hi);
            lemma_key_again(table, k);
            reveal_strlit("true");
            reveal_strlit("false");
            let close = q - 1;
            match args {
                Args::Nil => {
                    lemma_span_run(s, pos + name.len() + 1, pos + name.len() + 1, hi, CharClass::Blank);
                },
                Args::Cons(first, _) => {
                    lemma_args_first(args, table);
                    lemma_at(s, pos + name.len() + 1, args_text(args, table), 0);
                    lemma_span_run(s, pos + name.len() + 1, pos + name.len() + 1, hi, CharClass::Blank);
                    lemma_args(
                        args,
                        table,
                        s,
                        pos + name.len() + 1,
                        pos + name.len() + 1,
                        hi,
                    );
                },
            }
        },
        _ => {
            lemma_atom(e, table, s, pos, hi);
        },
    }
}

/// The printed form of a list of arguments starts as its first argument
/// does.
pub proof fn lemma_args_first(args: Args, table: Seq<Seq<char>>)
    requires
        printable_args(args, table),
        args is Cons,
    ensures
        args_text(args, table).len() > 0,
        !is_blank(args_text(args, table)[0]),
        args_text(args, table)[0] != ')',
{
    match args {
        Args::Cons(e, rest) => {
            lemma_first_char(*e, table);
        },
        _ => {},
    }
}

/// Printed arguments with the closing bracket behind them parse back.
pub proof fn lemma_args(
    args: Args,
    table: Seq<Seq<char>>,
    s: Seq<char>,
    from: int,
    pos: int,
    hi: int,
)
    requires
        distinct(table),
        printable_args(args, table),
        args is Cons,
        stands(s, from, pos, args_text(args, table)),
        pos + args_text(args, table).len() < hi <= s.len(),
        s[pos + args_text(args, table).len()] == ')',
    ensures
        parse_args(s, from, hi, table) == parsed(
            table,
            args,
            pos + args_text(args, table).len() + 1,
        ),
    decreases args, 0int,
{
    match args {
        Args::Cons(e, rest) => {
            let te = expr_text(*e, table);
            let qe = pos + te.len();
            lemma_first_char(*e, table);
            match *rest {
                Args::Nil => {
                    lemma_quiet_close(s, qe, hi);
                    lemma_level(*e, 0, table, s, from, pos, hi);
                },
                Args::Cons(_, _) => {
                    let tr = args_text(*rest, table);
                    reveal_strlit(", ");
                    assert(args_text(args, table) == (te + ", "@) + tr);
                    lemma_split(s, pos, te + ", "@, tr);
                    lemma_split(s, pos, te, ", "@);
                    lemma_at(s, qe, ", "@, 0);
                    lemma_at(s, qe, ", "@, 1);
                    lemma_quiet_close(s, qe, hi);
                    lemma_level(*e, 0, table, s, from, pos, hi);
                    assert forall|j: int| qe + 1 <= j < qe + 2 implies is_blank(#[trigger] s[j]) by {}
                    lemma_args(*rest, table, s, qe + 1, qe + 2, hi);
                },
            }
        },
        _ => {},
    }
}

/// The inside of a printed binary operation, with the closing bracket
/// behind it: at a level tighter than the operator's, the left operand is
/// read; at the operator's level and every looser one, the whole operation.
pub proof fn lemma_inner(
    e: Expr,
    level: int,
    table: Seq<Seq<char>>,
    s: Seq<char>,
    pos: int,
    hi: int,
)
    requires
        distinct(table),
        printable(e, table),
        e is Binary,
        0 <= level <= 4,
        0 <= pos,
        pos + expr_text(e, table).len() - 2 < hi <= s.len(),
        s.subrange(pos - 1, pos - 1 + expr_text(e, table).len()) == expr_text(e, table),
        pos >= 1,
    ensures
        level > level_of(e->Binary_0) ==> parse_level(s, pos, hi, table, level) == parsed(
            table,
            *e->Binary_1,
            pos + expr_text(*e->Binary_1, table).len(),
        ),
        level <= level_of(e->Binary_0) ==> parse_level(s, pos, hi, table, level) == parsed(
            table,
            e,
            pos + expr_text(e, table).len() - 2,
        ),
    decreases e, 14 - level,
{
    let op = e->Binary_0;
    let a = *e->Binary_1;
    let b = *e->Binary_2;
    let ta = expr_text(a, table);
    let tb = expr_text(b, table);
    let sign = operator_sign(Operator::Binary(op))@;
    let t = expr_text(e, table);
    reveal_strlit("(");
    reveal_strlit(")");
    reveal_strlit(" ");
    assert(t == ((((("("@ + ta) + " "@) + sign) + " "@) + tb) + ")"@);
    let start = pos - 1;
    lemma_split(s, start, (((("("@ + ta) + " "@) + sign) + " "@) + tb, ")"@);
    lemma_split(s, start, ((("("@ + ta) + " "@) + sign) + " "@, tb);
    lemma_split(s, start, (("("@ + ta) + " "@) + sign, " "@);
    lemma_split(s, start, ("("@ + ta) + " "@, sign);
    lemma_split(s, start, "("@ + ta, " "@);
    lemma_split(s, start, "("@, ta);
    let qa = pos + ta.len();
    let p = qa + 1;
    let pb = p + sign.len() + 1;
    let qb = pb + tb.len();
    lemma_at(s, qa, " "@, 0);
    lemma_at(s, p + sign.len(), " "@, 0);
    lemma_at(s, qb, ")"@, 0);
    lemma_op_at(op, s, p, hi);
    lemma_first_char(a, table);
    lemma_first_char(b, table);
    assert forall|j: int| qa <= j < p implies is_blank(#[trigger] s[j]) by {}
    lemma_span_run(s, qa, p, hi, CharClass::Blank);
    lemma_quiet_close(s, qb, hi);
    if level > level_of(op) {
        assert(quiet(s, qa, hi, level));
        lemma_level(a, level, table, s, pos, pos, hi);
    } else if level == level_of(op) {
        if level == 4 {
            lemma_unary(a, table, s, pos, pos, hi);
        } else {
            lemma_inner(e, level + 1, table, s, pos, hi);
        }
        assert forall|j: int| p + sign.len() <= j < pb implies is_blank(#[trigger] s[j]) by {}
        if level == 4 {
            lemma_unary(b, table, s, p + sign.len(), pb, hi);
        } else {
            assert(quiet(s, qb, hi, level + 1));
            lemma_level(b, level + 1, table, s, p + sign.len(), pb, hi);
        }
        let whole = Expr::Binary(op, Box::new(a), Box::new(b));
        assert(whole == e);
        assert(binary_op_at(s, span_end(s, qb, hi, CharClass::Blank), hi, level) is None);
        assert(parse_tail(s, qb, hi, table, level, e) == parsed(table, e, qb));
        assert(parse_tail(s, qa, hi, table, level, a) == parsed(table, e, qb));
    } else {
        lemma_inner(e, level + 1, table, s, pos, hi);
        assert(binary_op_at(s, span_end(s, qb, hi, CharClass::Blank), hi, level) is None);
        assert(parse_tail(s, qb, hi, table, level, e) == parsed(table, e, qb));
    }
}

/// The printed form of a printable expression parses back to the
/// expression, and interns nothing new.
pub proof fn law_printed_expression_parses_back(e: Expr, table: Seq<Seq<char>>)
    requires
        distinct(table),
        printable(e, table),
    ensures
        parse_expr(expr_text(e, table), 0, expr_text(e, table).len() as int, table) == parsed(
            table,
            e,
            expr_text(e, table).len() as int,
        ),
{
    let t = expr_text(e, table);
    let hi = t.len() as int;
    assert(t.subrange(0, hi) =~= t);
    lemma_quiet_close(t, hi, hi);
    lemma_level(e, 0, table, t, 0, 0, hi);
}

/// The last character of a printed expression starts no token of two
/// characters and is no blank.
pub open spec fn closes_word(c: char) -> bool {
    c != '<' && c != '>' && c != '-' && c != '/' && c != ' ' && c != '\t'
}

/// The text of a printed expression is tame wherever it stands, and its
/// last character is a digit, a letter, an underscore, a closing bracket
/// or a quote.
pub proof fn lemma_tame_expr(e: Expr, table: Seq<Seq<char>>, s: Seq<char>, pos: int)
    requires
        printable(e, table),
        0 <= pos,
        pos + expr_text(e, table).len() <= s.len(),
        s.subrange(pos, pos + expr_text(e, table).len()) == expr_text(e, table),
    ensures
        tame(s, pos, pos + expr_text(e, table).len()),
        expr_text(e, table).len() > 0,
        closes_word(s[pos + expr_text(e, table).len() - 1]),
        is_ident(s[pos + expr_text(e, table).len() - 1]) || s[pos + expr_text(e, table).len() - 1]
            == ')' || s[pos + expr_text(e, table).len() - 1] == '"',
    decreases e,
{
    let t = expr_text(e, table);
    let q = pos + t.len();
    lemma_first_char(e, table);
    assert forall|j: int| 0 <= j < t.len() implies s[pos + j] == #[trigger] t[j] by {
        lemma_at(s, pos, t, j);
    }
    match e {
        Expr::Number(n) => {
            lemma_decimal(n as nat);
            assert forall|j: int| pos <= j < q implies plain_at(s, j) && #[trigger] s[j] != '"' by {
                assert(s[j] == t[j - pos]);
                assert(is_digit(t[j - pos]));
                lemma_ident_is_plain(s, j);
            }
            lemma_tame_plain(s, pos, q);
            assert(s[q - 1] == t[t.len() - 1]);
            assert(is_digit(t[t.len() - 1]));
        },
        Expr::Text(k) => {
            let body = table[k.0 as int];
            reveal_strlit("\"");
            assert(t =~= seq!['"'] + body + seq!['"']);
            assert(s[pos] == t[0]);
            assert(s[q - 1] == t[t.len() - 1]);
            assert forall|j: int| pos + 1 <= j < q - 1 implies #[trigger] s[j] != '"' && s[j]
                != '\n' by {
                assert(s[j] == t[j - pos]);
                assert(t[j - pos] == body[j - pos - 1]);
            }
            lemma_tame_quoted(s, pos, q);
        },
        Expr::Var(k) => {
            let name = table[k.0 as int];
            reveal_strlit("$");
            assert(t =~= seq!['$'] + name);
            assert forall|j: int| pos <= j < q implies plain_at(s, j) && #[trigger] s[j] != '"' by {
                assert(s[j] == t[j - pos]);
                if j > pos {
                    assert(t[j - pos] == name[j - pos - 1]);
                    lemma_ident_is_plain(s, j);
                } else {
                    assert(s[j] == '$');
                }
            }
            lemma_tame_plain(s, pos, q);
            assert(s[q - 1] == t[t.len() - 1]);
            assert(t[t.len() - 1] == name[name.len() - 1]);
        },
        Expr::Call(k, args) => {
            let name = table[k.0 as int];
            let a = args_text(args, table);
            reveal_strlit("(");
            reveal_strlit(")");
            assert(t == ((name + "("@) + a) + ")"@);
            lemma_split(s, pos, (name + "("@) + a, ")"@);
            lemma_split(s, pos, name + "("@, a);
            lemma_split(s, pos, name, "("@);
            let open = pos + name.len();
            lemma_at(s, open, "("@, 0);
            lemma_at(s, q - 1, ")"@, 0);
            assert forall|j: int| pos <= j < open + 1 implies plain_at(s, j) && #[trigger] s[j]
                != '"' by {
                if j < open {
                    lemma_at(s, pos, name, j - pos);
                    lemma_ident_is_plain(s, j);
                }
            }
            lemma_tame_plain(s, pos, open + 1);
            lemma_tame_args(args, table, s, open + 1);
            lemma_tame_join(s, pos, open + 1, q - 1);
            assert(plain_at(s, q - 1));
            lemma_tame_plain(s, q - 1, q);
            lemma_tame_join(s, pos, q - 1, q);
        },
        Expr::Unary(UnaryOp::Neg, a) => {
            let ta = expr_text(*a, table);
            reveal_strlit("-");
            lemma_split(s, pos, "-"@, ta);
            lemma_first_char(*a, table);
            lemma_at(s, pos + 1, ta, 0);
            lemma_tame_expr(*a, table, s, pos + 1);
            assert(s[pos] == '-');
            assert(plain_at(s, pos));
            lemma_tame_plain(s, pos, pos + 1);
            lemma_tame_join(s, pos, pos + 1, q);
        },
        Expr::Unary(UnaryOp::Not, a) => {
            let ta = expr_text(*a, table);
            reveal_strlit("not ");
            lemma_split(s, pos, "not "@, ta);
            lemma_at(s, pos, "not "@, 0);
            lemma_at(s, pos, "not "@, 1);
            lemma_at(s, pos, "not "@, 2);
            lemma_at(s, pos, "not "@, 3);
            lemma_tame_expr(*a, table, s, pos + 4);
            assert forall|j: int| pos <= j < pos + 4 implies plain_at(s, j) && #[trigger] s[j]
                != '"' by {}
            lemma_tame_plain(s, pos, pos + 4);
            lemma_tame_join(s, pos, pos + 4, q);
        },
        Expr::Binary(op, a, b) => {
            let ta = expr_text(*a, table);
            let tb = expr_text(*b, table);
            let sign = operator_sign(Operator::Binary(op))@;
            reveal_strlit("(");
            reveal_strlit(")");
            reveal_strlit(" ");
            assert(t == ((((("("@ + ta) + " "@) + sign) + " "@) + tb) + ")"@);
            lemma_split(s, pos, (((("("@ + ta) + " "@) + sign) + " "@) + tb, ")"@);
            lemma_split(s, pos, ((("("@ + ta) + " "@) + sign) + " "@, tb);
            lemma_split(s, pos, (("("@ + ta) + " "@) + sign, " "@);
            lemma_split(s, pos, ("("@ + ta) + " "@, sign);
            lemma_split(s, pos, "("@ + ta, " "@);
            lemma_split(s, pos, "("@, ta);
            let pa = pos + 1;
            let qa = pa + ta.len();
            let ps = qa + 1;
            let qs = ps + sign.len();
            let pb = qs + 1;
            let qb = pb + tb.len();
            lemma_at(s, pos, "("@, 0);
            lemma_at(s, qa, " "@, 0);
            lemma_at(s, qs, " "@, 0);
            lemma_at(s, qb, ")"@, 0);
            lemma_first_char(*a, table);
            lemma_at(s, pa, ta, 0);
            lemma_tame_expr(*a, table, s, pa);
            lemma_tame_expr(*b, table, s, pb);
            lemma_tame_sign(op, s, ps);
            assert(plain_at(s, pos));
            lemma_tame_plain(s, pos, pa);
            lemma_tame_join(s, pos, pa, qa);
            assert(plain_at(s, qa));
            lemma_tame_plain(s, qa, ps);
            lemma_tame_join(s, pos, qa, ps);
            lemma_tame_join(s, pos, ps, qs);
            assert(plain_at(s, qs));
            lemma_tame_plain(s, qs, pb);
            lemma_tame_join(s, pos, qs, pb);
            lemma_tame_join(s, pos, pb, qb);
            assert(plain_at(s, qb));
            lemma_tame_plain(s, qb, q);
            lemma_tame_join(s, pos, qb, q);
        },
    }
}

/// The sign of an operator with a blank behind it is tame.
pub proof fn lemma_tame_sign(op: BinaryOp, s: Seq<char>, p: int)
    requires
        0 <= p,
        p + operator_sign(Operator::Binary(op))@.len() < s.len(),
        s.subrange(p, p + operator_sign(Operator::Binary(op))@.len()) == operator_sign(
            Operator::Binary(op),
        )@,
        s[p + operator_sign(Operator::Binary(op))@.len()] == ' ',
    ensures
        tame(s, p, p + operator_sign(Operator::Binary(op))@.len()),
{
    let sign = operator_sign(Operator::Binary(op))@;
    reveal_strlit("or");
    reveal_strlit("and");
    reveal_strlit("==");
    reveal_strlit("!=");
    reveal_strlit("<");
    reveal_strlit("<=");
    reveal_strlit(">");
    reveal_strlit(">=");
    reveal_strlit("+");
    reveal_strlit("-");
    reveal_strlit("*");
    reveal_strlit("/");
    reveal_strlit("%");
    lemma_at(s, p, sign, 0);
    if sign.len() > 1 {
        lemma_at(s, p, sign, 1);
    }
    if sign.len() > 2 {
        lemma_at(s, p, sign, 2);
    }
    assert forall|j: int| p <= j < p + sign.len() implies plain_at(s, j) && #[trigger] s[j]
        != '"' by {}
    lemma_tame_plain(s, p, p + sign.len());
}

/// The text of printed arguments is tame wherever it stands.
pub proof fn lemma_tame_args(args: Args, table: Seq<Seq<char>>, s: Seq<char>, pos: int)
    requires
        printable_args(args, table),
        0 <= pos,
        pos + args_text(args, table).len() <= s.len(),
        s.subrange(pos, pos + args_text(args, table).len()) == args_text(args, table),
    ensures
        tame(s, pos, pos + args_text(args, table).len()),
    decreases args,
{
    match args {
        Args::Nil => {},
        Args::Cons(e, rest) => {
            let te = expr_text(*e, table);
            match *rest {
                Args::Nil => {
                    lemma_tame_expr(*e, table, s, pos);
                },
                Args::Cons(_, _) => {
                    let tr = args_text(*rest, table);
                    reveal_strlit(", ");
                    assert(args_text(args, table) == (te + ", "@) + tr);
                    lemma_split(s, pos, te + ", "@, tr);
                    lemma_split(s, pos, te, ", "@);
                    let qe = pos + te.len();
                    lemma_at(s, qe, ", "@, 0);
                    lemma_at(s, qe, ", "@, 1);
                    lemma_tame_expr(*e, table, s, pos);
                    lemma_tame_args(*rest, table, s, qe + 2);
                    assert forall|j: int| qe <= j < qe + 2 implies plain_at(s, j) && #[trigger] s[j]
                        != '"' by {}
                    lemma_tame_plain(s, qe, qe + 2);
                    lemma_tame_join(s, pos, qe, qe + 2);
                    lemma_tame_join(s, pos, qe + 2, qe + 2 + tr.len());
                },
            }
        },
    }
}

} // verus!
