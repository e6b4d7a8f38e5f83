//! The expression grammar.
//!
//! From the loosest binding to the tightest: `or`, `and`, comparison,
//! additive, multiplicative, unary, primary. Operators of one level group
//! from the left. A primary is a number, a quoted string, `true`, `false`,
//! a variable `$name`, a call `name(arg, ...)` or an expression in brackets.

use vstd::prelude::*;
use crate::ast::{Args, BinaryOp, Expr, SyntaxKind, UnaryOp};
use crate::ast::intern::{has_room, interned_key, interned_table, InternedKey, Interner};
use crate::text::{
    all_digits, char_is_digit, char_is_ident_start, CharClass, digits_value, in_class, is_digit,
    is_ident_start, lemma_scan_end_bounds, read_digits, scan, scan_end, string_of_range,
};

verus! {

/// The outcome of parsing one construct: the interner's table afterwards
/// and the construct with the position behind it, or what was wrong.
pub struct Parsed<T> {
    pub table: Seq<Seq<char>>,
    pub out: Result<(T, int), SyntaxKind>,
}

/// An executable parser's result `r` and table `table` are what `p` says.
pub open spec fn yields<T>(
    r: Result<(T, usize), SyntaxKind>,
    table: Seq<Seq<char>>,
    p: Parsed<T>,
) -> bool {
    &&& table == p.table
    &&& match r {
        Ok((v, e)) => p.out == Ok::<(T, int), SyntaxKind>((v, e as int)),
        Err(k) => p.out == Err::<(T, int), SyntaxKind>(k),
    }
}

pub open spec fn failed<T>(table: Seq<Seq<char>>, kind: SyntaxKind) -> Parsed<T> {
    Parsed { table, out: Err(kind) }
}

pub open spec fn parsed<T>(table: Seq<Seq<char>>, v: T, end: int) -> Parsed<T> {
    Parsed { table, out: Ok((v, end)) }
}

/// The table and the key after an attempt to intern `s`: no key where `s`
/// is new and the table is full.
pub open spec fn try_interned(table: Seq<Seq<char>>, s: Seq<char>) -> (
    Seq<Seq<char>>,
    Option<InternedKey>,
) {
    if has_room(table, s) {
        (interned_table(table, s), Some(InternedKey(interned_key(table, s) as u32)))
    } else {
        (table, None)
    }
}

/// Interns the characters `src[lo..hi]`.
pub fn intern_range(src: &Vec<char>, lo: usize, hi: usize, interner: &mut Interner) -> (r: Option<
    InternedKey,
>)
    requires
        old(interner).wf(),
        lo <= hi <= src.len(),
    ensures
        final(interner).wf(),
        crate::ast::intern::extends(final(interner)@, old(interner)@),
        (final(interner)@, r) == try_interned(old(interner)@, src@.subrange(lo as int, hi as int)),
{
    let s = string_of_range(src, lo, hi);
    proof {
        interner.lemma_wf();
        crate::ast::intern::lemma_interned(interner@, s@);
    }
    interner.try_intern(s.as_str())
}

/// The end of the run of characters of `class` that starts at `pos`, cut
/// off at `hi`.
pub open spec fn span_end(s: Seq<char>, pos: int, hi: int, class: CharClass) -> int {
    let e = scan_end(s, pos, class);
    if e < hi {
        e
    } else {
        hi
    }
}

pub fn span(src: &Vec<char>, pos: usize, hi: usize, class: CharClass) -> (e: usize)
    requires
        pos <= hi <= src.len(),
    ensures
        e == span_end(src@, pos as int, hi as int, class),
        pos <= e <= hi,
        forall|j: int| pos <= j < e ==> in_class(class, #[trigger] src@[j]),
        e < hi ==> !in_class(class, src@[e as int]),
{
    proof {
        lemma_scan_end_bounds(src@, pos as int, class);
    }
    let e = scan(src, pos, class);
    if e < hi {
        e
    } else {
        hi
    }
}

/// The characters `s[lo..hi]` spell the word `w`.
pub open spec fn spells(s: Seq<char>, lo: int, hi: int, w: Seq<char>) -> bool {
    0 <= lo <= hi <= s.len() && s.subrange(lo, hi) == w
}

pub fn range_spells(src: &Vec<char>, lo: usize, hi: usize, w: &str) -> (r: bool)
    requires
        lo <= hi <= src.len(),
    ensures
        r == spells(src@, lo as int, hi as int, w@),
{
    let n = w.unicode_len();
    if hi - lo != n {
        return false;
    }
    let mut i: usize = 0;
    while i < n
        invariant
            i <= n,
            n == w@.len(),
            hi - lo == n,
            hi <= src.len(),
            forall|j: int| 0 <= j < i ==> src@[lo + j] == w@[j],
        decreases n - i,
    {
        if src[lo + i] != w.get_char(i) {
            assert(src@.subrange(lo as int, hi as int)[i as int] != w@[i as int]);
            return false;
        }
        i += 1;
    }
    assert(src@.subrange(lo as int, hi as int) =~= w@);
    true
}

/// The operator of binding level `level` that stands at `pos`, with its
/// length. Levels: 0 `or`, 1 `and`, 2 comparison, 3 additive,
/// 4 multiplicative.
pub open spec fn binary_op_at(s: Seq<char>, pos: int, hi: int, level: int) -> Option<
    (BinaryOp, int),
> {
    if !(0 <= pos < hi <= s.len()) {
        None
    } else if level == 0 {
        let e = span_end(s, pos, hi, CharClass::Ident);
        if spells(s, pos, e, "or"@) {
            Some((BinaryOp::Or, e - pos))
        } else {
            None
        }
    } else if level == 1 {
        let e = span_end(s, pos, hi, CharClass::Ident);
        if spells(s, pos, e, "and"@) {
            Some((BinaryOp::And, e - pos))
        } else {
            None
        }
    } else if level == 2 {
        let two = pos + 1 < hi && s[pos + 1] == '=';
        if s[pos] == '=' && two {
            Some((BinaryOp::Eq, 2))
        } else if s[pos] == '!' && two {
            Some((BinaryOp::Ne, 2))
        } else if s[pos] == '<' && two {
            Some((BinaryOp::Le, 2))
        } else if s[pos] == '>' && two {
            Some((BinaryOp::Ge, 2))
        } else if s[pos] == '<' {
            Some((BinaryOp::Lt, 1))
        } else if s[pos] == '>' {
            Some((BinaryOp::Gt, 1))
        } else {
            None
        }
    } else if level == 3 {
        if s[pos] == '+' {
            Some((BinaryOp::Add, 1))
        } else if s[pos] == '-' {
            Some((BinaryOp::Sub, 1))
        } else {
            None
        }
    } else if level == 4 {
        if s[pos] == '*' {
            Some((BinaryOp::Mul, 1))
        } else if s[pos] == '/' {
            Some((BinaryOp::Div, 1))
        } else if s[pos] == '%' {
            Some((BinaryOp::Rem, 1))
        } else {
            None
        }
    } else {
        None
    }
}

fn find_binary_op(src: &Vec<char>, pos: usize, hi: usize, level: u8) -> (r: Option<
    (BinaryOp, usize),
>)
    requires
        pos <= hi <= src.len(),
    ensures
        match r {
            Some((op, n)) => binary_op_at(src@, pos as int, hi as int, level as int) == Some(
                (op, n as int),
            ) && 0 < n && pos + n <= hi,
            None => binary_op_at(src@, pos as int, hi as int, level as int) is None,
        },
{
    if pos >= hi {
        return None;
    }
    let c = src[pos];
    if level == 0 {
        let e = span(src, pos, hi, CharClass::Ident);
        if range_spells(src, pos, e, "or") {
            proof {
                reveal_strlit("or");
                assert(src@.subrange(pos as int, e as int).len() == e - pos);
            }
            Some((BinaryOp::Or, e - pos))
        } else {
            None
        }
    } else if level == 1 {
        let e = span(src, pos, hi, CharClass::Ident);
        if range_spells(src, pos, e, "and") {
            proof {
                reveal_strlit("and");
                assert(src@.subrange(pos as int, e as int).len() == e - pos);
            }
            Some((BinaryOp::And, e - pos))
        } else {
            None
        }
    } else if level == 2 {
        let two = pos + 1 < hi && src[pos + 1] == '=';
        if c == '=' && two {
            Some((BinaryOp::Eq, 2))
        } else if c == '!' && two {
            Some((BinaryOp::Ne, 2))
        } else if c == '<' && two {
            Some((BinaryOp::Le, 2))
        } else if c == '>' && two {
            Some((BinaryOp::Ge, 2))
        } else if c == '<' {
            Some((BinaryOp::Lt, 1))
        } else if c == '>' {
            Some((BinaryOp::Gt, 1))
        } else {
            None
        }
    } else if level == 3 {
        if c == '+' {
            Some((BinaryOp::Add, 1))
        } else if c == '-' {
            Some((BinaryOp::Sub, 1))
        } else {
            None
        }
    } else if level == 4 {
        if c == '*' {
            Some((BinaryOp::Mul, 1))
        } else if c == '/' {
            Some((BinaryOp::Div, 1))
        } else if c == '%' {
            Some((BinaryOp::Rem, 1))
        } else {
            None
        }
    } else {
        None
    }
}

/// The expression of binding level `level` or tighter that starts at
/// `pos`, within `s[..hi]`.
pub open spec fn parse_level(s: Seq<char>, pos: int, hi: int, table: Seq<Seq<char>>, level: int) -> Parsed<
    Expr,
>
    decreases hi - pos, 20 - 2 * level,
{
    if !(0 <= pos <= hi <= s.len()) || !(0 <= level <= 4) {
        failed(table, SyntaxKind::BadExpression)
    } else {
        let first = if level == 4 {
            parse_unary(s, pos, hi, table)
        } else {
            parse_level(s, pos, hi, table, level + 1)
        };
        match first.out {
            Err(_) => first,
            Ok((lhs, p)) => if pos < p <= hi {
                parse_tail(s, p, hi, first.table, level, lhs)
            } else {
                failed(first.table, SyntaxKind::BadExpression)
            },
        }
    }
}

/// The rest of a chain of operators of level `level`, with `lhs` the
/// expression read so far.
pub open spec fn parse_tail(
    s: Seq<char>,
    pos: int,
    hi: int,
    table: Seq<Seq<char>>,
    level: int,
    lhs: Expr,
) -> Parsed<Expr>
    decreases hi - pos, 30int,
{
    if !(0 <= pos <= hi <= s.len()) || !(0 <= level <= 4) {
        failed(table, SyntaxKind::BadExpression)
    } else {
        let p = span_end(s, pos, hi, CharClass::Blank);
        match binary_op_at(s, p, hi, level) {
            None => parsed(table, lhs, pos),
            Some((op, n)) => if n <= 0 || p < pos || p + n > hi {
                failed(table, SyntaxKind::BadExpression)
            } else {
                let next = if level == 4 {
                    parse_unary(s, p + n, hi, table)
                } else {
                    parse_level(s, p + n, hi, table, level + 1)
                };
                match next.out {
                    Err(_) => next,
                    Ok((rhs, q)) => if p + n < q <= hi {
                        parse_tail(
                            s,
                            q,
                            hi,
                            next.table,
                            level,
                            Expr::Binary(op, Box::new(lhs), Box::new(rhs)),
                        )
                    } else {
                        failed(next.table, SyntaxKind::BadExpression)
                    },
                }
            },
        }
    }
}

/// A primary with any number of `-` and `not` in front of it.
pub open spec fn parse_unary(s: Seq<char>, pos: int, hi: int, table: Seq<Seq<char>>) -> Parsed<
    Expr,
>
    decreases hi - pos, 2int,
{
    if !(0 <= pos <= hi <= s.len()) {
        failed(table, SyntaxKind::BadExpression)
    } else {
        let p = span_end(s, pos, hi, CharClass::Blank);
        if p < pos || p >= hi {
            failed(table, SyntaxKind::BadExpression)
        } else if s[p] == '-' {
            let inner = parse_unary(s, p + 1, hi, table);
            match inner.out {
                Err(_) => inner,
                Ok((e, q)) => parsed(inner.table, Expr::Unary(UnaryOp::Neg, Box::new(e)), q),
            }
        } else {
            let w = span_end(s, p, hi, CharClass::Ident);
            if p < w && spells(s, p, w, "not"@) {
                let inner = parse_unary(s, w, hi, table);
                match inner.out {
                    Err(_) => inner,
                    Ok((e, q)) => parsed(inner.table, Expr::Unary(UnaryOp::Not, Box::new(e)), q),
                }
            } else {
                parse_primary(s, p, hi, table)
            }
        }
    }
}

/// A primary that starts at `pos`, which holds no blank.
pub open spec fn parse_primary(s: Seq<char>, pos: int, hi: int, table: Seq<Seq<char>>) -> Parsed<
    Expr,
>
    decreases hi - pos, 1int,
{
    if !(0 <= pos < hi <= s.len()) {
        failed(table, SyntaxKind::BadExpression)
    } else if is_digit(s[pos]) {
        let e = span_end(s, pos, hi, CharClass::Digit);
        let v = digits_value(s.subrange(pos, e));
        if v <= i64::MAX {
            parsed(table, Expr::Number(v as i64), e)
        } else {
            failed(table, SyntaxKind::NumberTooLarge)
        }
    } else if s[pos] == '"' {
        let q = span_end(s, pos + 1, hi, CharClass::Quoted);
        if q < hi && s[q] == '"' {
            match try_interned(table, s.subrange(pos + 1, q)) {
                (t, Some(key)) => parsed(t, Expr::Text(key), q + 1),
                (t, None) => failed(t, SyntaxKind::TooManyStrings),
            }
        } else {
            failed(table, SyntaxKind::BadExpression)
        }
    } else if s[pos] == '$' {
        let e = span_end(s, pos + 1, hi, CharClass::Ident);
        if e <= pos + 1 {
            failed(table, SyntaxKind::BadExpression)
        } else {
            match try_interned(table, s.subrange(pos + 1, e)) {
                (t, Some(key)) => parsed(t, Expr::Var(key), e),
                (t, None) => failed(t, SyntaxKind::TooManyStrings),
            }
        }
    } else if s[pos] == '(' {
        let inner = parse_level(s, pos + 1, hi, table, 0);
        match inner.out {
            Err(_) => inner,
            Ok((e, q)) => {
                let c = span_end(s, q, hi, CharClass::Blank);
                if pos < q <= c < hi && s[c] == ')' {
                    parsed(inner.table, e, c + 1)
                } else {
                    failed(inner.table, SyntaxKind::BadExpression)
                }
            },
        }
    } else if is_ident_start(s[pos]) {
        let e = span_end(s, pos, hi, CharClass::Ident);
        if spells(s, pos, e, "true"@) {
            parsed(table, Expr::Number(1), e)
        } else if spells(s, pos, e, "false"@) {
            parsed(table, Expr::Number(0), e)
        } else if pos < e < hi && s[e] == '(' {
            match try_interned(table, s.subrange(pos, e)) {
                (t, Some(key)) => {
                    let c = span_end(s, e + 1, hi, CharClass::Blank);
                    if e < c < hi && s[c] == ')' {
                        parsed(t, Expr::Call(key, Args::Nil), c + 1)
                    } else {
                        let rest = parse_args(s, e + 1, hi, t);
                        match rest.out {
                            Err(k) => failed(rest.table, k),
                            Ok((args, q)) => parsed(rest.table, Expr::Call(key, args), q),
                        }
                    }
                },
                (t, None) => failed(t, SyntaxKind::TooManyStrings),
            }
        } else {
            failed(table, SyntaxKind::BadExpression)
        }
    } else {
        failed(table, SyntaxKind::BadExpression)
    }
}

/// One or more arguments with commas between them and the closing bracket
/// behind them.
pub open spec fn parse_args(s: Seq<char>, pos: int, hi: int, table: Seq<Seq<char>>) -> Parsed<Args>
    decreases hi - pos, 40int,
{
    if !(0 <= pos <= hi <= s.len()) {
        failed(table, SyntaxKind::BadExpression)
    } else {
        let first = parse_level(s, pos, hi, table, 0);
        match first.out {
            Err(k) => failed(first.table, k),
            Ok((e, q)) => {
                let c = span_end(s, q, hi, CharClass::Blank);
                if !(pos < q <= c < hi) {
                    failed(first.table, SyntaxKind::BadExpression)
                } else if s[c] == ')' {
                    parsed(first.table, Args::Cons(Box::new(e), Box::new(Args::Nil)), c + 1)
                } else if s[c] == ',' {
                    let rest = parse_args(s, c + 1, hi, first.table);
                    match rest.out {
                        Err(_) => rest,
                        Ok((more, r)) => parsed(
                            rest.table,
                            Args::Cons(Box::new(e), Box::new(more)),
                            r,
                        ),
                    }
                } else {
                    failed(first.table, SyntaxKind::BadExpression)
                }
            },
        }
    }
}

/// The expression that the characters `s[lo..hi]` spell, blanks around it
/// aside.
pub open spec fn parse_expr(s: Seq<char>, lo: int, hi: int, table: Seq<Seq<char>>) -> Parsed<Expr> {
    let r = parse_level(s, lo, hi, table, 0);
    match r.out {
        Err(_) => r,
        Ok((e, q)) => if lo <= q <= hi && span_end(s, q, hi, CharClass::Blank) == hi {
            parsed(r.table, e, hi)
        } else {
            failed(r.table, SyntaxKind::BadExpression)
        },
    }
}

fn read_level(src: &Vec<char>, pos: usize, hi: usize, interner: &mut Interner, level: u8) -> (r:
    Result<(Expr, usize), SyntaxKind>)
    requires
        old(interner).wf(),
        pos <= hi <= src.len(),
        level <= 4,
    ensures
        final(interner).wf(),
        crate::ast::intern::extends(final(interner)@, old(interner)@),
        yields(r, final(interner)@, parse_level(src@, pos as int, hi as int, old(interner)@, level as int)),
        r matches Ok((_, e)) ==> pos < e <= hi,
    decreases hi - pos, 20 - 2 * level,
{
    let first = if level == 4 {
        read_unary(src, pos, hi, interner)
    } else {
        read_level(src, pos, hi, interner, level + 1)
    };
    let (mut lhs, mut p) = match first {
        Err(k) => {
            return Err(k);
        },
        Ok(x) => x,
    };
    loop
        invariant
            pos < p <= hi <= src.len(),
            level <= 4,
            interner.wf(),
            crate::ast::intern::extends(interner@, old(interner)@),
            parse_tail(src@, p as int, hi as int, interner@, level as int, lhs) == parse_level(
                src@,
                pos as int,
                hi as int,
                old(interner)@,
                level as int,
            ),
        decreases hi - p,
    {
        let b = span(src, p, hi, CharClass::Blank);
        match find_binary_op(src, b, hi, level) {
            None => {
                return Ok((lhs, p));
            },
            Some((op, n)) => {
                let next = if level == 4 {
                    read_unary(src, b + n, hi, interner)
                } else {
                    read_level(src, b + n, hi, interner, level + 1)
                };
                match next {
                    Err(k) => {
                        return Err(k);
                    },
                    Ok((rhs, q)) => {
                        lhs = Expr::Binary(op, Box::new(lhs), Box::new(rhs));
                        p = q;
                    },
                }
            },
        }
    }
}

fn read_unary(src: &Vec<char>, pos: usize, hi: usize, interner: &mut Interner) -> (r: Result<
    (Expr, usize),
    SyntaxKind,
>)
    requires
        old(interner).wf(),
        pos <= hi <= src.len(),
    ensures
        final(interner).wf(),
        crate::ast::intern::extends(final(interner)@, old(interner)@),
        yields(r, final(interner)@, parse_unary(src@, pos as int, hi as int, old(interner)@)),
        r matches Ok((_, e)) ==> pos < e <= hi,
    decreases hi - pos, 2int,
{
    let p = span(src, pos, hi, CharClass::Blank);
    if p >= hi {
        return Err(SyntaxKind::BadExpression);
    }
    if src[p] == '-' {
        return match read_unary(src, p + 1, hi, interner) {
            Err(k) => Err(k),
            Ok((e, q)) => Ok((Expr::Unary(UnaryOp::Neg, Box::new(e)), q)),
        };
    }
    let w = span(src, p, hi, CharClass::Ident);
    if p < w && range_spells(src, p, w, "not") {
        match read_unary(src, w, hi, interner) {
            Err(k) => Err(k),
            Ok((e, q)) => Ok((Expr::Unary(UnaryOp::Not, Box::new(e)), q)),
        }
    } else {
        read_primary(src, p, hi, interner)
    }
}

fn read_primary(src: &Vec<char>, pos: usize, hi: usize, interner: &mut Interner) -> (r: Result<
    (Expr, usize),
    SyntaxKind,
>)
    requires
        old(interner).wf(),
        pos <= hi <= src.len(),
    ensures
        final(interner).wf(),
        crate::ast::intern::extends(final(interner)@, old(interner)@),
        yields(r, final(interner)@, parse_primary(src@, pos as int, hi as int, old(interner)@)),
        r matches Ok((_, e)) ==> pos < e <= hi,
    decreases hi - pos, 1int,
{
    if pos >= hi {
        return Err(SyntaxKind::BadExpression);
    }
    let c = src[pos];
    if char_is_digit(c) {
        let e = span(src, pos, hi, CharClass::Digit);
        assert(all_digits(src@.subrange(pos as int, e as int))) by {
            assert forall|j: int| 0 <= j < e - pos implies is_digit(
                #[trigger] src@.subrange(pos as int, e as int)[j],
            ) by {
                assert(in_class(CharClass::Digit, src@[pos + j]));
            }
        }
        match read_digits(src, pos, e) {
            Some(v) => Ok((Expr::Number(v), e)),
            None => Err(SyntaxKind::NumberTooLarge),
        }
    } else if c == '"' {
        let q = span(src, pos + 1, hi, CharClass::Quoted);
        if q < hi && src[q] == '"' {
            match intern_range(src, pos + 1, q, interner) {
                Some(key) => Ok((Expr::Text(key), q + 1)),
                None => Err(SyntaxKind::TooManyStrings),
            }
        } else {
            Err(SyntaxKind::BadExpression)
        }
    } else if c == '$' {
        let e = span(src, pos + 1, hi, CharClass::Ident);
        if e <= pos + 1 {
            Err(SyntaxKind::BadExpression)
        } else {
            match intern_range(src, pos + 1, e, interner) {
                Some(key) => Ok((Expr::Var(key), e)),
                None => Err(SyntaxKind::TooManyStrings),
            }
        }
    } else if c == '(' {
        match read_level(src, pos + 1, hi, interner, 0) {
            Err(k) => Err(k),
            Ok((e, q)) => {
                let c = span(src, q, hi, CharClass::Blank);
                if c < hi && src[c] == ')' {
                    Ok((e, c + 1))
                } else {
                    Err(SyntaxKind::BadExpression)
                }
            },
        }
    } else if char_is_ident_start(c) {
        let e = span(src, pos, hi, CharClass::Ident);
        if range_spells(src, pos, e, "true") {
            Ok((Expr::Number(1), e))
        } else if range_spells(src, pos, e, "false") {
            Ok((Expr::Number(0), e))
        } else if e < hi && src[e] == '(' {
            match intern_range(src, pos, e, interner) {
                Some(key) => {
                    let c = span(src, e + 1, hi, CharClass::Blank);
                    if c < hi && src[c] == ')' {
                        Ok((Expr::Call(key, Args::Nil), c + 1))
                    } else {
                        match read_args(src, e + 1, hi, interner) {
                            Err(k) => Err(k),
                            Ok((args, q)) => Ok((Expr::Call(key, args), q)),
                        }
                    }
                },
                None => Err(SyntaxKind::TooManyStrings),
            }
        } else {
            Err(SyntaxKind::BadExpression)
        }
    } else {
        Err(SyntaxKind::BadExpression)
    }
}

fn read_args(src: &Vec<char>, pos: usize, hi: usize, interner: &mut Interner) -> (r: Result<
    (Args, usize),
    SyntaxKind,
>)
    requires
        old(interner).wf(),
        pos <= hi <= src.len(),
    ensures
        final(interner).wf(),
        crate::ast::intern::extends(final(interner)@, old(interner)@),
        yields(r, final(interner)@, parse_args(src@, pos as int, hi as int, old(interner)@)),
        r matches Ok((_, e)) ==> pos < e <= hi,
    decreases hi - pos, 40int,
{
    match read_level(src, pos, hi, interner, 0) {
        Err(k) => Err(k),
        Ok((e, q)) => {
            let c = span(src, q, hi, CharClass::Blank);
            if c >= hi {
                Err(SyntaxKind::BadExpression)
            } else if src[c] == ')' {
                Ok((Args::Cons(Box::new(e), Box::new(Args::Nil)), c + 1))
            } else if src[c] == ',' {
                match read_args(src, c + 1, hi, interner) {
                    Err(k) => Err(k),
                    Ok((more, r)) => Ok((Args::Cons(Box::new(e), Box::new(more)), r)),
                }
            } else {
                Err(SyntaxKind::BadExpression)
            }
        },
    }
}

/// Parses the characters `src[lo..hi]` as one expression, and interns the
/// names and string literals in it.
pub fn expression(src: &Vec<char>, lo: usize, hi: usize, interner: &mut Interner) -> (r: Result<
    Expr,
    SyntaxKind,
>)
    requires
        old(interner).wf(),
        lo <= hi <= src.len(),
    ensures
        final(interner).wf(),
        crate::ast::intern::extends(final(interner)@, old(interner)@),
        final(interner)@ == parse_expr(src@, lo as int, hi as int, old(interner)@).table,
        match r {
            Ok(e) => parse_expr(src@, lo as int, hi as int, old(interner)@).out == Ok::<
                (Expr, int),
                SyntaxKind,
            >((e, hi as int)),
            Err(k) => parse_expr(src@, lo as int, hi as int, old(interner)@).out == Err::<
                (Expr, int),
                SyntaxKind,
            >(k),
        },
{
    match read_level(src, lo, hi, interner, 0) {
        Err(k) => Err(k),
        Ok((e, q)) => {
            if span(src, q, hi, CharClass::Blank) == hi {
                Ok(e)
            } else {
                Err(SyntaxKind::BadExpression)
            }
        },
    }
}

} // verus!
