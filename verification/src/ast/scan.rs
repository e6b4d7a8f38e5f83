//! Searches among tokens and characters that the parser is built on.

use vstd::prelude::*;
use crate::lexer::{Token, TokenKind};
use crate::text::{char_is_blank, is_blank};

verus! {

/// The first of the tokens `i..stop` that has kind `kind`, or `stop`.
pub open spec fn find_kind(toks: Seq<Token>, i: int, stop: int, kind: TokenKind) -> int
    decreases stop - i,
{
    if 0 <= i < stop <= toks.len() && toks[i].kind != kind {
        find_kind(toks, i + 1, stop, kind)
    } else if i < stop {
        i
    } else {
        stop
    }
}

/// The token that ends the line of token `i`: the first `LineEnd` or `Eof`
/// from `i` on.
pub open spec fn line_stop(toks: Seq<Token>, i: int) -> int
    decreases toks.len() - i,
{
    if 0 <= i < toks.len() && toks[i].kind != TokenKind::LineEnd && toks[i].kind
        != TokenKind::Eof {
        line_stop(toks, i + 1)
    } else {
        i
    }
}

/// The first token from `i` on that is no `Indent`.
pub open spec fn indent_stop(toks: Seq<Token>, i: int) -> int
    decreases toks.len() - i,
{
    if 0 <= i < toks.len() && toks[i].kind == TokenKind::Indent {
        indent_stop(toks, i + 1)
    } else {
        i
    }
}

/// Whether one of the tokens `i..stop` starts with the character `c`.
pub open spec fn starts_with(s: Seq<char>, toks: Seq<Token>, i: int, stop: int, c: char) -> bool
    decreases stop - i,
{
    if 0 <= i < stop <= toks.len() {
        (toks[i].start < s.len() && s[toks[i].start as int] == c) || starts_with(
            s,
            toks,
            i + 1,
            stop,
            c,
        )
    } else {
        false
    }
}

/// The end of `s[lo..hi]` without the blanks at its end.
pub open spec fn trim_end(s: Seq<char>, lo: int, hi: int) -> int
    decreases hi - lo,
{
    if 0 <= lo < hi <= s.len() && is_blank(s[hi - 1]) {
        trim_end(s, lo, hi - 1)
    } else {
        hi
    }
}

/// The first place in `lo..hi` that holds `c`, or `hi`.
pub open spec fn find_char(s: Seq<char>, lo: int, hi: int, c: char) -> int
    decreases hi - lo,
{
    if 0 <= lo < hi <= s.len() && s[lo] != c {
        find_char(s, lo + 1, hi, c)
    } else if lo < hi {
        lo
    } else {
        hi
    }
}

pub fn seek_kind(toks: &Vec<Token>, i: usize, stop: usize, kind: TokenKind) -> (j: usize)
    requires
        i <= stop <= toks.len(),
    ensures
        j == find_kind(toks@, i as int, stop as int, kind),
        i <= j <= stop,
        j < stop ==> toks@[j as int].kind == kind,
{
    let mut j: usize = i;
    while j < stop && toks[j].kind != kind
        invariant
            i <= j <= stop <= toks.len(),
            find_kind(toks@, j as int, stop as int, kind) == find_kind(
                toks@,
                i as int,
                stop as int,
                kind,
            ),
        decreases stop - j,
    {
        j += 1;
    }
    j
}

pub fn seek_line_stop(toks: &Vec<Token>, i: usize) -> (j: usize)
    requires
        i < toks.len(),
        toks@.last().kind == TokenKind::Eof,
    ensures
        j == line_stop(toks@, i as int),
        i <= j < toks.len(),
        toks@[j as int].kind == TokenKind::LineEnd || toks@[j as int].kind == TokenKind::Eof,
        forall|k: int|
            i <= k < j ==> (#[trigger] toks@[k]).kind != TokenKind::LineEnd && toks@[k].kind
                != TokenKind::Eof,
{
    let mut j: usize = i;
    while toks[j].kind != TokenKind::LineEnd && toks[j].kind != TokenKind::Eof
        invariant
            i <= j < toks.len(),
            toks@.last().kind == TokenKind::Eof,
            line_stop(toks@, j as int) == line_stop(toks@, i as int),
            forall|k: int|
                i <= k < j ==> (#[trigger] toks@[k]).kind != TokenKind::LineEnd && toks@[k].kind
                    != TokenKind::Eof,
        decreases toks.len() - j,
    {
        j += 1;
    }
    j
}

pub fn seek_indent_stop(toks: &Vec<Token>, i: usize) -> (j: usize)
    requires
        i < toks.len(),
        toks@.last().kind == TokenKind::Eof,
    ensures
        j == indent_stop(toks@, i as int),
        i <= j < toks.len(),
{
    let mut j: usize = i;
    while toks[j].kind == TokenKind::Indent
        invariant
            i <= j < toks.len(),
            toks@.last().kind == TokenKind::Eof,
            indent_stop(toks@, j as int) == indent_stop(toks@, i as int),
        decreases toks.len() - j,
    {
        j += 1;
    }
    j
}

pub fn any_starts_with(src: &Vec<char>, toks: &Vec<Token>, i: usize, stop: usize, c: char) -> (r:
    bool)
    requires
        i <= stop <= toks.len(),
    ensures
        r == starts_with(src@, toks@, i as int, stop as int, c),
{
    let mut j: usize = i;
    while j < stop
        invariant
            i <= j <= stop <= toks.len(),
            starts_with(src@, toks@, j as int, stop as int, c) == starts_with(
                src@,
                toks@,
                i as int,
                stop as int,
                c,
            ),
        decreases stop - j,
    {
        let at = toks[j].start;
        if at < src.len() && src[at] == c {
            return true;
        }
        j += 1;
    }
    false
}

pub fn trim(src: &Vec<char>, lo: usize, hi: usize) -> (e: usize)
    requires
        lo <= hi <= src.len(),
    ensures
        e == trim_end(src@, lo as int, hi as int),
        lo <= e <= hi,
{
    let mut e: usize = hi;
    while lo < e && char_is_blank(src[e - 1])
        invariant
            lo <= e <= hi <= src.len(),
            trim_end(src@, lo as int, e as int) == trim_end(src@, lo as int, hi as int),
        decreases e - lo,
    {
        e -= 1;
    }
    e
}

pub fn seek_char(src: &Vec<char>, lo: usize, hi: usize, c: char) -> (j: usize)
    requires
        lo <= hi <= src.len(),
    ensures
        j == find_char(src@, lo as int, hi as int, c),
        lo <= j <= hi,
{
    let mut j: usize = lo;
    while j < hi && src[j] != c
        invariant
            lo <= j <= hi <= src.len(),
            find_char(src@, j as int, hi as int, c) == find_char(src@, lo as int, hi as int, c),
        decreases hi - j,
    {
        j += 1;
    }
    j
}

} // verus!
