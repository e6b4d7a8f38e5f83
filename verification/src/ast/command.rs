//! Commands `<< ... >>`, shortcut options `-> ...` and choices `[ ... ]`.

use vstd::prelude::*;
use crate::ast::{LineKind, SyntaxKind};
use crate::ast::expr::{
    expression, failed, intern_range, parse_expr, Parsed, parsed, range_spells, span, span_end,
    spells, try_interned, yields,
};
use crate::ast::intern::Interner;
use crate::ast::scan::{find_char, find_kind, seek_char, seek_kind, trim, trim_end};
use crate::ast::template::{parse_piece, parse_words, read_piece, read_words};
use crate::lexer::{Token, TokenKind, tokens_ok};
use crate::text::CharClass;

verus! {

/// A command without arguments: nothing but blanks may follow its name.
pub open spec fn parse_bare(s: Seq<char>, lo: int, hi: int, table: Seq<Seq<char>>, kind: LineKind) -> Parsed<
    LineKind,
> {
    if 0 <= lo <= hi <= s.len() && span_end(s, lo, hi, CharClass::Blank) == hi {
        parsed(table, kind, hi)
    } else {
        failed(table, SyntaxKind::BadCommand)
    }
}

/// `$name = expression` or `$name to expression`, in `s[lo..hi]`.
pub open spec fn parse_assign(s: Seq<char>, lo: int, hi: int, table: Seq<Seq<char>>) -> Parsed<
    LineKind,
> {
    if !(0 <= lo <= hi <= s.len()) {
        failed(table, SyntaxKind::BadCommand)
    } else {
        let p = span_end(s, lo, hi, CharClass::Blank);
        if !(p < hi && s[p] == '$') {
            failed(table, SyntaxKind::BadCommand)
        } else {
            let v = span_end(s, p + 1, hi, CharClass::Ident);
            let q = span_end(s, v, hi, CharClass::Blank);
            let w = span_end(s, q, hi, CharClass::Ident);
            if v <= p + 1 {
                failed(table, SyntaxKind::BadCommand)
            } else if !((q < hi && s[q] == '=') || spells(s, q, w, "to"@)) {
                failed(table, SyntaxKind::BadCommand)
            } else {
                let from = if q < hi && s[q] == '=' {
                    q + 1
                } else {
                    w
                };
                match try_interned(table, s.subrange(p + 1, v)) {
                    (t, None) => failed(t, SyntaxKind::TooManyStrings),
                    (t, Some(key)) => {
                        let value = parse_expr(s, from, hi, t);
                        match value.out {
                            Err(k) => failed(value.table, k),
                            Ok((e, _)) => parsed(value.table, LineKind::Assign(key, e), hi),
                        }
                    },
                }
            }
        }
    }
}

/// The target of a jump: `s[lo..hi]` without the blanks around it.
pub open spec fn parse_jump(s: Seq<char>, lo: int, hi: int, table: Seq<Seq<char>>) -> Parsed<
    LineKind,
> {
    if !(0 <= lo <= hi <= s.len()) {
        failed(table, SyntaxKind::BadCommand)
    } else {
        let p = span_end(s, lo, hi, CharClass::Blank);
        let e = trim_end(s, p, hi);
        if !(p < e <= hi) {
            failed(table, SyntaxKind::BadCommand)
        } else {
            match try_interned(table, s.subrange(p, e)) {
                (t, None) => failed(t, SyntaxKind::TooManyStrings),
                (t, Some(key)) => parsed(t, LineKind::Jump(key), hi),
            }
        }
    }
}

/// The command between the `<<` at token `a` and the `>>` at token `h`.
/// Its first token is its name: `set`, `if`, `elseif`, `else`, `endif`,
/// `jump`, `stop` and `wait` are the engine's own, any other name makes a
/// host command with the tokens behind it as its words.
pub open spec fn parse_command(
    s: Seq<char>,
    toks: Seq<Token>,
    a: int,
    h: int,
    table: Seq<Seq<char>>,
) -> Parsed<LineKind> {
    if !(0 <= a && a + 1 < h < toks.len()) {
        failed(table, SyntaxKind::BadCommand)
    } else {
        let lo = toks[a + 1].start as int;
        let ne = toks[a + 1].end as int;
        let hi = toks[h].start as int;
        if !(lo <= ne <= hi <= s.len()) {
            failed(table, SyntaxKind::BadCommand)
        } else if spells(s, lo, ne, "set"@) {
            parse_assign(s, ne, hi, table)
        } else if spells(s, lo, ne, "if"@) {
            let cond = parse_expr(s, ne, hi, table);
            match cond.out {
                Err(k) => failed(cond.table, k),
                Ok((e, _)) => parsed(cond.table, LineKind::If(e), hi),
            }
        } else if spells(s, lo, ne, "elseif"@) {
            let cond = parse_expr(s, ne, hi, table);
            match cond.out {
                Err(k) => failed(cond.table, k),
                Ok((e, _)) => parsed(cond.table, LineKind::ElseIf(e), hi),
            }
        } else if spells(s, lo, ne, "else"@) {
            parse_bare(s, ne, hi, table, LineKind::Else)
        } else if spells(s, lo, ne, "endif"@) {
            parse_bare(s, ne, hi, table, LineKind::EndIf)
        } else if spells(s, lo, ne, "stop"@) {
            parse_bare(s, ne, hi, table, LineKind::Stop)
        } else if spells(s, lo, ne, "jump"@) {
            parse_jump(s, ne, hi, table)
        } else if spells(s, lo, ne, "wait"@) {
            if span_end(s, ne, hi, CharClass::Blank) == hi {
                parsed(table, LineKind::WaitInput, hi)
            } else {
                let time = parse_expr(s, ne, hi, table);
                match time.out {
                    Err(k) => failed(time.table, k),
                    Ok((e, _)) => parsed(time.table, LineKind::Wait(e), hi),
                }
            }
        } else {
            match try_interned(table, s.subrange(lo, ne)) {
                (t, None) => failed(t, SyntaxKind::TooManyStrings),
                (t, Some(key)) => {
                    let words = parse_words(s, toks, a + 2, h, t);
                    match words.out {
                        Err(k) => failed(words.table, k),
                        Ok((list, _)) => parsed(words.table, LineKind::Host(key, list), hi),
                    }
                },
            }
        }
    }
}

pub fn read_assign(src: &Vec<char>, lo: usize, hi: usize, interner: &mut Interner) -> (r: Result<
    (LineKind, usize),
    SyntaxKind,
>)
    requires
        old(interner).wf(),
        lo <= hi <= src.len(),
    ensures
        final(interner).wf(),
        crate::ast::intern::extends(final(interner)@, old(interner)@),
        yields(r, final(interner)@, parse_assign(src@, lo as int, hi as int, old(interner)@)),
{
    let p = span(src, lo, hi, CharClass::Blank);
    if !(p < hi && src[p] == '$') {
        return Err(SyntaxKind::BadCommand);
    }
    let v = span(src, p + 1, hi, CharClass::Ident);
    let q = span(src, v, hi, CharClass::Blank);
    let w = span(src, q, hi, CharClass::Ident);
    if v <= p + 1 {
        return Err(SyntaxKind::BadCommand);
    }
    let from = if q < hi && src[q] == '=' {
        q + 1
    } else if range_spells(src, q, w, "to") {
        w
    } else {
        return Err(SyntaxKind::BadCommand);
    };
    match intern_range(src, p + 1, v, interner) {
        None => Err(SyntaxKind::TooManyStrings),
        Some(key) => match expression(src, from, hi, interner) {
            Err(k) => Err(k),
            Ok(e) => Ok((LineKind::Assign(key, e), hi)),
        },
    }
}

pub fn read_jump(src: &Vec<char>, lo: usize, hi: usize, interner: &mut Interner) -> (r: Result<
    (LineKind, usize),
    SyntaxKind,
>)
    requires
        old(interner).wf(),
        lo <= hi <= src.len(),
    ensures
        final(interner).wf(),
        crate::ast::intern::extends(final(interner)@, old(interner)@),
        yields(r, final(interner)@, parse_jump(src@, lo as int, hi as int, old(interner)@)),
{
    let p = span(src, lo, hi, CharClass::Blank);
    let e = trim(src, p, hi);
    if p >= e {
        return Err(SyntaxKind::BadCommand);
    }
    match intern_range(src, p, e, interner) {
        None => Err(SyntaxKind::TooManyStrings),
        Some(key) => Ok((LineKind::Jump(key), hi)),
    }
}

pub fn read_command(src: &Vec<char>, toks: &Vec<Token>, a: usize, h: usize, interner: &mut Interner) -> (r:
    Result<(LineKind, usize), SyntaxKind>)
    requires
        old(interner).wf(),
        h < toks.len(),
        tokens_ok(toks@, src@.len() as int),
    ensures
        final(interner).wf(),
        crate::ast::intern::extends(final(interner)@, old(interner)@),
        yields(r, final(interner)@, parse_command(src@, toks@, a as int, h as int, old(interner)@)),
{
    if h < 2 || a >= h - 1 {
        return Err(SyntaxKind::BadCommand);
    }
    let lo = toks[a + 1].start;
    let ne = toks[a + 1].end;
    let hi = toks[h].start;
    if range_spells(src, lo, ne, "set") {
        read_assign(src, ne, hi, interner)
    } else if range_spells(src, lo, ne, "if") {
        match expression(src, ne, hi, interner) {
            Err(k) => Err(k),
            Ok(e) => Ok((LineKind::If(e), hi)),
        }
    } else if range_spells(src, lo, ne, "elseif") {
        match expression(src, ne, hi, interner) {
            Err(k) => Err(k),
            Ok(e) => Ok((LineKind::ElseIf(e), hi)),
        }
    } else if range_spells(src, lo, ne, "else") {
        if span(src, ne, hi, CharClass::Blank) == hi {
            Ok((LineKind::Else, hi))
        } else {
            Err(SyntaxKind::BadCommand)
        }
    } else if range_spells(src, lo, ne, "endif") {
        if span(src, ne, hi, CharClass::Blank) == hi {
            Ok((LineKind::EndIf, hi))
        } else {
            Err(SyntaxKind::BadCommand)
        }
    } else if range_spells(src, lo, ne, "stop") {
        if span(src, ne, hi, CharClass::Blank) == hi {
            Ok((LineKind::Stop, hi))
        } else {
            Err(SyntaxKind::BadCommand)
        }
    } else if range_spells(src, lo, ne, "jump") {
        read_jump(src, ne, hi, interner)
    } else if range_spells(src, lo, ne, "wait") {
        if span(src, ne, hi, CharClass::Blank) == hi {
            Ok((LineKind::WaitInput, hi))
        } else {
            match expression(src, ne, hi, interner) {
                Err(k) => Err(k),
                Ok(e) => Ok((LineKind::Wait(e), hi)),
            }
        }
    } else {
        match intern_range(src, lo, ne, interner) {
            None => Err(SyntaxKind::TooManyStrings),
            Some(key) => match read_words(src, toks, a + 2, h, interner) {
                Err(k) => Err(k),
                Ok((list, _)) => Ok((LineKind::Host(key, list), hi)),
            },
        }
    }
}

/// The shortcut option whose `->` is token `a`, on a line that token `e`
/// ends: its text, and the condition where `<<if expression>>` closes the
/// line.
pub open spec fn parse_shortcut(
    s: Seq<char>,
    toks: Seq<Token>,
    a: int,
    e: int,
    table: Seq<Seq<char>>,
) -> Parsed<LineKind> {
    let g = find_kind(toks, a + 1, e, TokenKind::CmdStart);
    if !(0 <= a < e <= toks.len()) {
        failed(table, SyntaxKind::BadOption)
    } else if !(a < g < e) {
        let text = parse_piece(s, toks, a + 1, e, table);
        match text.out {
            Err(k) => failed(text.table, k),
            Ok((tpl, _)) => parsed(text.table, LineKind::Shortcut(tpl, None), e),
        }
    } else if !(g + 1 < e - 1 && toks[e - 1].kind == TokenKind::CmdEnd && toks[g + 1].start
        <= toks[g + 1].end <= toks[e - 1].start <= s.len() && spells(
        s,
        toks[g + 1].start as int,
        toks[g + 1].end as int,
        "if"@,
    )) {
        failed(table, SyntaxKind::BadOption)
    } else {
        let text = parse_piece(s, toks, a + 1, g, table);
        match text.out {
            Err(k) => failed(text.table, k),
            Ok((tpl, _)) => {
                let cond = parse_expr(
                    s,
                    toks[g + 1].end as int,
                    toks[e - 1].start as int,
                    text.table,
                );
                match cond.out {
                    Err(k) => failed(cond.table, k),
                    Ok((c, _)) => parsed(cond.table, LineKind::Shortcut(tpl, Some(c)), e),
                }
            },
        }
    }
}

pub fn read_shortcut(src: &Vec<char>, toks: &Vec<Token>, a: usize, e: usize, interner: &mut Interner) -> (r:
    Result<(LineKind, usize), SyntaxKind>)
    requires
        old(interner).wf(),
        a < e <= toks.len(),
        tokens_ok(toks@, src@.len() as int),
    ensures
        final(interner).wf(),
        crate::ast::intern::extends(final(interner)@, old(interner)@),
        yields(r, final(interner)@, parse_shortcut(src@, toks@, a as int, e as int, old(interner)@)),
{
    let g = seek_kind(toks, a + 1, e, TokenKind::CmdStart);
    if g >= e {
        return match read_piece(src, toks, a + 1, e, interner) {
            Err(k) => Err(k),
            Ok((tpl, _)) => Ok((LineKind::Shortcut(tpl, None), e)),
        };
    }
    if !(g + 1 < e - 1 && toks[e - 1].kind == TokenKind::CmdEnd && range_spells(
        src,
        toks[g + 1].start,
        toks[g + 1].end,
        "if",
    )) {
        return Err(SyntaxKind::BadOption);
    }
    match read_piece(src, toks, a + 1, g, interner) {
        Err(k) => Err(k),
        Ok((tpl, _)) => match expression(src, toks[g + 1].end, toks[e - 1].start, interner) {
            Err(k) => Err(k),
            Ok(c) => Ok((LineKind::Shortcut(tpl, Some(c)), e)),
        },
    }
}

/// The choice `[text|target]` whose `[` is token `a`, on a line that token
/// `e` ends. Without a bar the text is the target too.
pub open spec fn parse_choice(
    s: Seq<char>,
    toks: Seq<Token>,
    a: int,
    e: int,
    table: Seq<Seq<char>>,
) -> Parsed<LineKind> {
    if !(0 <= a && a + 1 < e <= toks.len() && toks[e - 1].kind == TokenKind::OptionEnd
        && toks[a].end <= toks[e - 1].start <= s.len()) {
        failed(table, SyntaxKind::BadOption)
    } else {
        let lo = toks[a].end as int;
        let hi = toks[e - 1].start as int;
        let bar = find_char(s, lo, hi, '|');
        let l0 = span_end(s, lo, bar, CharClass::Blank);
        let l1 = trim_end(s, l0, bar);
        let t0 = if bar < hi {
            span_end(s, bar + 1, hi, CharClass::Blank)
        } else {
            l0
        };
        let t1 = if bar < hi {
            trim_end(s, t0, hi)
        } else {
            l1
        };
        if !(lo <= l0 < l1 <= hi && lo <= t0 < t1 <= hi) {
            failed(table, SyntaxKind::BadOption)
        } else {
            match try_interned(table, s.subrange(l0, l1)) {
                (t, None) => failed(t, SyntaxKind::TooManyStrings),
                (t, Some(label)) => match try_interned(t, s.subrange(t0, t1)) {
                    (u, None) => failed(u, SyntaxKind::TooManyStrings),
                    (u, Some(target)) => parsed(u, LineKind::Choice(label, target), e),
                },
            }
        }
    }
}

pub fn read_choice(src: &Vec<char>, toks: &Vec<Token>, a: usize, e: usize, interner: &mut Interner) -> (r:
    Result<(LineKind, usize), SyntaxKind>)
    requires
        old(interner).wf(),
        a < e <= toks.len(),
        tokens_ok(toks@, src@.len() as int),
    ensures
        final(interner).wf(),
        crate::ast::intern::extends(final(interner)@, old(interner)@),
        yields(r, final(interner)@, parse_choice(src@, toks@, a as int, e as int, old(interner)@)),
{
    if !(a + 1 < e && toks[e - 1].kind == TokenKind::OptionEnd) {
        return Err(SyntaxKind::BadOption);
    }
    let lo = toks[a].end;
    let hi = toks[e - 1].start;
    let bar = seek_char(src, lo, hi, '|');
    let l0 = span(src, lo, bar, CharClass::Blank);
    let l1 = trim(src, l0, bar);
    let mut t0 = l0;
    let mut t1 = l1;
    if bar < hi {
        t0 = span(src, bar + 1, hi, CharClass::Blank);
        t1 = trim(src, t0, hi);
    }
    if !(l0 < l1 && t0 < t1) {
        return Err(SyntaxKind::BadOption);
    }
    match intern_range(src, l0, l1, interner) {
        None => Err(SyntaxKind::TooManyStrings),
        Some(label) => match intern_range(src, t0, t1, interner) {
            None => Err(SyntaxKind::TooManyStrings),
            Some(target) => Ok((LineKind::Choice(label, target), e)),
        },
    }
}

} // verus!
