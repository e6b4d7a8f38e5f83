//! Text with placeholders, lists of words, and text lines with their tags.

use vstd::prelude::*;
use crate::ast::{KeyList, NodeLabel, SyntaxKind, Template};
use crate::ast::expr::{
    expression, failed, intern_range, parse_expr, Parsed, parsed, try_interned, yields,
};
use crate::ast::intern::{InternedKey, Interner};
use crate::ast::scan::{find_kind, seek_kind};
use crate::lexer::{Token, TokenKind, tokens_ok};

verus! {

/// The spans of the tokens `i..stop`, each interned, as a list.
pub open spec fn parse_words(
    s: Seq<char>,
    toks: Seq<Token>,
    i: int,
    stop: int,
    table: Seq<Seq<char>>,
) -> Parsed<KeyList>
    decreases stop - i,
{
    if !(0 <= i < stop <= toks.len()) {
        parsed(table, KeyList::Nil, stop)
    } else if !(toks[i].start <= toks[i].end <= s.len()) {
        failed(table, SyntaxKind::BadToken)
    } else {
        match try_interned(table, s.subrange(toks[i].start as int, toks[i].end as int)) {
            (t, None) => failed(t, SyntaxKind::TooManyStrings),
            (t, Some(key)) => {
                let rest = parse_words(s, toks, i + 1, stop, t);
                match rest.out {
                    Err(_) => rest,
                    Ok((more, _)) => parsed(rest.table, KeyList::Cons(key, Box::new(more)), stop),
                }
            },
        }
    }
}

pub fn read_words(src: &Vec<char>, toks: &Vec<Token>, i: usize, stop: usize, interner: &mut Interner) -> (r:
    Result<(KeyList, usize), SyntaxKind>)
    requires
        old(interner).wf(),
        i <= stop <= toks.len(),
        tokens_ok(toks@, src@.len() as int),
    ensures
        final(interner).wf(),
        crate::ast::intern::extends(final(interner)@, old(interner)@),
        yields(r, final(interner)@, parse_words(src@, toks@, i as int, stop as int, old(interner)@)),
    decreases stop - i,
{
    if i >= stop {
        return Ok((KeyList::Nil, stop));
    }
    let t = toks[i];
    match intern_range(src, t.start, t.end, interner) {
        None => Err(SyntaxKind::TooManyStrings),
        Some(key) => match read_words(src, toks, i + 1, stop, interner) {
            Err(k) => Err(k),
            Ok((more, _)) => Ok((KeyList::Cons(key, Box::new(more)), stop)),
        },
    }
}

/// The literal piece `s[lo..hi]` in front of `rest`; an empty piece is left
/// out.
pub open spec fn with_literal(
    s: Seq<char>,
    lo: int,
    hi: int,
    table: Seq<Seq<char>>,
) -> (Seq<Seq<char>>, Result<Option<InternedKey>, SyntaxKind>) {
    if !(0 <= lo < hi <= s.len()) {
        (table, Ok(None))
    } else {
        match try_interned(table, s.subrange(lo, hi)) {
            (t, None) => (t, Err(SyntaxKind::TooManyStrings)),
            (t, Some(key)) => (t, Ok(Some(key))),
        }
    }
}

pub fn read_literal(src: &Vec<char>, lo: usize, hi: usize, interner: &mut Interner) -> (r: Result<
    Option<InternedKey>,
    SyntaxKind,
>)
    requires
        old(interner).wf(),
        hi <= src.len(),
    ensures
        final(interner).wf(),
        crate::ast::intern::extends(final(interner)@, old(interner)@),
        (final(interner)@, r) == with_literal(src@, lo as int, hi as int, old(interner)@),
{
    if lo >= hi {
        return Ok(None);
    }
    match intern_range(src, lo, hi, interner) {
        None => Err(SyntaxKind::TooManyStrings),
        Some(key) => Ok(Some(key)),
    }
}

pub open spec fn lit_before(key: Option<InternedKey>, rest: Template) -> Template {
    match key {
        Some(k) => Template::Lit(k, Box::new(rest)),
        None => rest,
    }
}

/// The template that the tokens `i..stop` spell. `cur` is where the text
/// not yet taken begins, `fin` where the whole text ends. Each `{` opens a
/// placeholder that runs to the next `}`; what stands between placeholders
/// is literal, blanks included.
pub open spec fn parse_template(
    s: Seq<char>,
    toks: Seq<Token>,
    i: int,
    stop: int,
    cur: int,
    fin: int,
    table: Seq<Seq<char>>,
) -> Parsed<Template>
    decreases stop - i,
{
    let j = find_kind(toks, i, stop, TokenKind::ExprStart);
    if !(0 <= i <= j < stop <= toks.len()) {
        match with_literal(s, cur, fin, table) {
            (t, Err(k)) => failed(t, k),
            (t, Ok(key)) => parsed(t, lit_before(key, Template::End), stop),
        }
    } else {
        let k = find_kind(toks, j + 1, stop, TokenKind::ExprEnd);
        if !(j < k < stop) {
            failed(table, SyntaxKind::BadExpression)
        } else {
            match with_literal(s, cur, toks[j].start as int, table) {
                (t, Err(e)) => failed(t, e),
                (t, Ok(key)) => {
                    let hole = parse_expr(s, toks[j].end as int, toks[k].start as int, t);
                    match hole.out {
                        Err(e) => failed(hole.table, e),
                        Ok((expr, _)) => {
                            let rest = parse_template(
                                s,
                                toks,
                                k + 1,
                                stop,
                                toks[k].end as int,
                                fin,
                                hole.table,
                            );
                            match rest.out {
                                Err(_) => rest,
                                Ok((more, _)) => parsed(
                                    rest.table,
                                    lit_before(
                                        key,
                                        Template::Hole(Box::new(expr), Box::new(more)),
                                    ),
                                    stop,
                                ),
                            }
                        },
                    }
                },
            }
        }
    }
}

pub fn read_template(
    src: &Vec<char>,
    toks: &Vec<Token>,
    i: usize,
    stop: usize,
    cur: usize,
    fin: usize,
    interner: &mut Interner,
) -> (r: Result<(Template, usize), SyntaxKind>)
    requires
        old(interner).wf(),
        i <= stop <= toks.len(),
        fin <= src.len(),
        tokens_ok(toks@, src@.len() as int),
    ensures
        final(interner).wf(),
        crate::ast::intern::extends(final(interner)@, old(interner)@),
        yields(
            r,
            final(interner)@,
            parse_template(
                src@,
                toks@,
                i as int,
                stop as int,
                cur as int,
                fin as int,
                old(interner)@,
            ),
        ),
    decreases stop - i,
{
    let j = seek_kind(toks, i, stop, TokenKind::ExprStart);
    if j >= stop {
        return match read_literal(src, cur, fin, interner) {
            Err(k) => Err(k),
            Ok(None) => Ok((Template::End, stop)),
            Ok(Some(key)) => Ok((Template::Lit(key, Box::new(Template::End)), stop)),
        };
    }
    let k = seek_kind(toks, j + 1, stop, TokenKind::ExprEnd);
    if k >= stop {
        return Err(SyntaxKind::BadExpression);
    }
    let open = toks[j];
    let close = toks[k];
    let key = match read_literal(src, cur, open.start, interner) {
        Err(e) => {
            return Err(e);
        },
        Ok(key) => key,
    };
    let expr = match expression(src, open.end, close.start, interner) {
        Err(e) => {
            return Err(e);
        },
        Ok(expr) => expr,
    };
    match read_template(src, toks, k + 1, stop, close.end, fin, interner) {
        Err(e) => Err(e),
        Ok((more, _)) => {
            let hole = Template::Hole(Box::new(expr), Box::new(more));
            match key {
                Some(k) => Ok((Template::Lit(k, Box::new(hole)), stop)),
                None => Ok((hole, stop)),
            }
        },
    }
}

/// The template of the tokens `i..stop`: from the start of the first to the
/// end of the last, or the empty template where there is none.
pub open spec fn parse_piece(
    s: Seq<char>,
    toks: Seq<Token>,
    i: int,
    stop: int,
    table: Seq<Seq<char>>,
) -> Parsed<Template> {
    if 0 <= i < stop <= toks.len() {
        parse_template(s, toks, i, stop, toks[i].start as int, toks[stop - 1].end as int, table)
    } else {
        parsed(table, Template::End, stop)
    }
}

pub fn read_piece(src: &Vec<char>, toks: &Vec<Token>, i: usize, stop: usize, interner: &mut Interner) -> (r:
    Result<(Template, usize), SyntaxKind>)
    requires
        old(interner).wf(),
        stop <= toks.len(),
        tokens_ok(toks@, src@.len() as int),
    ensures
        final(interner).wf(),
        crate::ast::intern::extends(final(interner)@, old(interner)@),
        yields(r, final(interner)@, parse_piece(src@, toks@, i as int, stop as int, old(interner)@)),
{
    if i < stop {
        read_template(src, toks, i, stop, toks[i].start, toks[stop - 1].end, interner)
    } else {
        Ok((Template::End, stop))
    }
}

/// Whether the text tokens `a..e` end in a line tag: `#` and a word right
/// behind it.
pub open spec fn has_line_tag(toks: Seq<Token>, a: int, e: int) -> bool {
    &&& 0 <= a && a + 2 <= e <= toks.len()
    &&& toks[e - 2].kind == TokenKind::Tag
    &&& toks[e - 1].kind == TokenKind::Word
    &&& toks[e - 2].end == toks[e - 1].start
}

/// The text of the tokens `a..e` and the line tag behind it.
pub open spec fn parse_text(
    s: Seq<char>,
    toks: Seq<Token>,
    a: int,
    e: int,
    table: Seq<Seq<char>>,
) -> Parsed<(Template, Option<NodeLabel>)> {
    if has_line_tag(toks, a, e) {
        let text = parse_piece(s, toks, a, e - 2, table);
        match text.out {
            Err(k) => failed(text.table, k),
            Ok((tpl, _)) => if !(toks[e - 1].start <= toks[e - 1].end <= s.len()) {
                failed(text.table, SyntaxKind::BadToken)
            } else {
                match try_interned(
                    text.table,
                    s.subrange(toks[e - 1].start as int, toks[e - 1].end as int),
                ) {
                    (t, None) => failed(t, SyntaxKind::TooManyStrings),
                    (t, Some(key)) => parsed(t, (tpl, Some(key)), e),
                }
            },
        }
    } else {
        let text = parse_piece(s, toks, a, e, table);
        match text.out {
            Err(k) => failed(text.table, k),
            Ok((tpl, _)) => parsed(text.table, (tpl, None), e),
        }
    }
}

pub fn read_text(src: &Vec<char>, toks: &Vec<Token>, a: usize, e: usize, interner: &mut Interner) -> (r:
    Result<((Template, Option<NodeLabel>), usize), SyntaxKind>)
    requires
        old(interner).wf(),
        e <= toks.len(),
        tokens_ok(toks@, src@.len() as int),
    ensures
        final(interner).wf(),
        crate::ast::intern::extends(final(interner)@, old(interner)@),
        yields(r, final(interner)@, parse_text(src@, toks@, a as int, e as int, old(interner)@)),
{
    if e >= 2 && a <= e - 2 && toks[e - 2].kind == TokenKind::Tag && toks[e - 1].kind
        == TokenKind::Word && toks[e - 2].end == toks[e - 1].start {
        match read_piece(src, toks, a, e - 2, interner) {
            Err(k) => Err(k),
            Ok((tpl, _)) => {
                let t = toks[e - 1];
                match intern_range(src, t.start, t.end, interner) {
                    None => Err(SyntaxKind::TooManyStrings),
                    Some(key) => Ok(((tpl, Some(key)), e)),
                }
            },
        }
    } else {
        match read_piece(src, toks, a, e, interner) {
            Err(k) => Err(k),
            Ok((tpl, _)) => Ok(((tpl, None), e)),
        }
    }
}

} // verus!
