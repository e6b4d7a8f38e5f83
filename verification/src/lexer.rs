//! The lexer: source text to a sequence of tokens with their spans.
//!
//! The lexer classifies structural tokens only. It neither balances brackets
//! nor tracks blocks, and what a `Word` holds is for the parser to look at.

use vstd::prelude::*;
use crate::text::{
    char_is_blank, char_is_ident, CharClass, is_blank, is_ident, lemma_scan_end_bounds, scan,
    scan_end,
};

verus! {

/// The kinds of token.
#[derive(Clone, Copy, PartialEq, Eq, Debug, Structural)]
pub enum TokenKind {
    /// `---` on a line of its own: the end of a header.
    HeaderEnd,
    /// `===` on a line of its own: the end of a node.
    NodeEnd,
    /// A line feed, or a carriage return and a line feed.
    LineEnd,
    /// Four spaces or one tab, among the leading blanks of a line.
    Indent,
    /// A run of letters, digits and underscores with a colon behind it.
    Label,
    /// `<<`
    CmdStart,
    /// `>>`
    CmdEnd,
    /// `{`
    ExprStart,
    /// `}`
    ExprEnd,
    /// `[`
    OptionStart,
    /// `]`
    OptionEnd,
    /// `->`
    ShortcutOption,
    /// `#`
    Tag,
    /// An identifier, a number, an operator or a quoted string.
    Word,
    /// Characters that start no token.
    Error,
    /// The end of the text.
    Eof,
}

impl Default for TokenKind {
    /// The kind of the token that ends every text.
    fn default() -> (kind: TokenKind)
        ensures
            kind == TokenKind::Eof,
    {
        TokenKind::Eof
    }
}

/// A token: its kind and the positions `start..end` that it covers.
#[derive(Clone, Copy, PartialEq, Eq, Debug, Structural)]
pub struct Token {
    pub kind: TokenKind,
    pub start: usize,
    pub end: usize,
}

/// What stands at one position of the text: a token of some kind, or blanks
/// and comments that give none, and where it ends.
pub struct Lexeme {
    pub kind: Option<TokenKind>,
    pub end: int,
}

/// The characters `a`, `b` stand at `pos` and `pos + 1`.
pub open spec fn pair_at(s: Seq<char>, pos: int, a: char, b: char) -> bool {
    0 <= pos && pos + 1 < s.len() && s[pos] == a && s[pos + 1] == b
}

/// The character `c` stands at each of the `n` positions from `pos`.
pub open spec fn run_at(s: Seq<char>, pos: int, c: char, n: int) -> bool {
    0 <= pos && pos + n <= s.len() && forall|j: int| pos <= j < pos + n ==> s[j] == c
}

/// A delimiter line: `c` three times, then the end of the text, a blank or
/// a line end.
pub open spec fn rule_at(s: Seq<char>, pos: int, c: char) -> bool {
    &&& run_at(s, pos, c, 3)
    &&& (pos + 3 == s.len() || is_blank(s[pos + 3]) || s[pos + 3] == '\n' || s[pos + 3] == '\r')
}

/// A control character other than tab and line feed.
pub open spec fn is_control(c: char) -> bool {
    (c as u32) < 32 || c as u32 == 127
}

/// Whether the character at `pos` ends a word that began before it.
pub open spec fn breaks_word(s: Seq<char>, pos: int) -> bool {
    let c = s[pos];
    ||| is_blank(c)
    ||| is_control(c)
    ||| c == '{'
    ||| c == '}'
    ||| c == '['
    ||| c == ']'
    ||| c == '#'
    ||| c == '"'
    ||| pair_at(s, pos, '<', '<')
    ||| pair_at(s, pos, '>', '>')
    ||| pair_at(s, pos, '-', '>')
}

/// Where the word that runs through `pos` ends.
pub open spec fn word_end(s: Seq<char>, pos: int) -> int
    decreases s.len() - pos,
{
    if 0 <= pos < s.len() && !breaks_word(s, pos) {
        word_end(s, pos + 1)
    } else {
        pos
    }
}

/// A comment starts at `pos`: two slashes at the start of the text or
/// behind a blank or a line feed.
pub open spec fn comment_at(s: Seq<char>, pos: int) -> bool {
    pair_at(s, pos, '/', '/') && (pos == 0 || is_blank(s[pos - 1]) || s[pos - 1] == '\n')
}

/// The lexeme at `pos`, a position inside the text. `lead` says that only
/// indentation stands between the start of the line and `pos`.
pub open spec fn lexeme_at(s: Seq<char>, pos: int, lead: bool) -> Lexeme {
    let c = s[pos];
    if c == '\n' {
        Lexeme { kind: Some(TokenKind::LineEnd), end: pos + 1 }
    } else if pair_at(s, pos, '\r', '\n') {
        Lexeme { kind: Some(TokenKind::LineEnd), end: pos + 2 }
    } else if lead && c == '\t' {
        Lexeme { kind: Some(TokenKind::Indent), end: pos + 1 }
    } else if lead && run_at(s, pos, ' ', 4) {
        Lexeme { kind: Some(TokenKind::Indent), end: pos + 4 }
    } else if is_blank(c) {
        Lexeme { kind: None, end: pos + 1 }
    } else if comment_at(s, pos) {
        Lexeme { kind: None, end: scan_end(s, pos, CharClass::InLine) }
    } else if lead && rule_at(s, pos, '-') {
        Lexeme { kind: Some(TokenKind::HeaderEnd), end: pos + 3 }
    } else if lead && rule_at(s, pos, '=') {
        Lexeme { kind: Some(TokenKind::NodeEnd), end: pos + 3 }
    } else if pair_at(s, pos, '<', '<') {
        Lexeme { kind: Some(TokenKind::CmdStart), end: pos + 2 }
    } else if pair_at(s, pos, '>', '>') {
        Lexeme { kind: Some(TokenKind::CmdEnd), end: pos + 2 }
    } else if pair_at(s, pos, '-', '>') {
        Lexeme { kind: Some(TokenKind::ShortcutOption), end: pos + 2 }
    } else if c == '{' {
        Lexeme { kind: Some(TokenKind::ExprStart), end: pos + 1 }
    } else if c == '}' {
        Lexeme { kind: Some(TokenKind::ExprEnd), end: pos + 1 }
    } else if c == '[' {
        Lexeme { kind: Some(TokenKind::OptionStart), end: pos + 1 }
    } else if c == ']' {
        Lexeme { kind: Some(TokenKind::OptionEnd), end: pos + 1 }
    } else if c == '#' {
        Lexeme { kind: Some(TokenKind::Tag), end: pos + 1 }
    } else if c == '"' {
        let q = scan_end(s, pos + 1, CharClass::Quoted);
        if q < s.len() && s[q] == '"' {
            Lexeme { kind: Some(TokenKind::Word), end: q + 1 }
        } else {
            Lexeme { kind: Some(TokenKind::Error), end: q }
        }
    } else if is_control(c) {
        Lexeme { kind: Some(TokenKind::Error), end: pos + 1 }
    } else if is_ident(c) && scan_end(s, pos, CharClass::Ident) < s.len() && s[scan_end(
        s,
        pos,
        CharClass::Ident,
    )] == ':' {
        Lexeme { kind: Some(TokenKind::Label), end: scan_end(s, pos, CharClass::Ident) + 1 }
    } else {
        Lexeme { kind: Some(TokenKind::Word), end: word_end(s, pos + 1) }
    }
}

/// Whether the position behind a token of kind `kind` is still among the
/// leading indentation of its line.
pub open spec fn leads_after(kind: TokenKind) -> bool {
    kind == TokenKind::LineEnd || kind == TokenKind::Indent
}

/// The tokens of `s` from `pos` on, behind those in `acc`; the last one is
/// `Eof`.
pub open spec fn lex_from(s: Seq<char>, pos: int, lead: bool, acc: Seq<Token>) -> Seq<Token>
    decreases s.len() - pos,
{
    if 0 <= pos < s.len() {
        let lx = lexeme_at(s, pos, lead);
        if lx.end <= pos || lx.end > s.len() {
            acc
        } else {
            match lx.kind {
                None => lex_from(s, lx.end, lead, acc),
                Some(kind) => lex_from(
                    s,
                    lx.end,
                    leads_after(kind),
                    acc.push(Token { kind, start: pos as usize, end: lx.end as usize }),
                ),
            }
        }
    } else {
        acc.push(Token { kind: TokenKind::Eof, start: s.len() as usize, end: s.len() as usize })
    }
}

/// The tokens of a text.
pub open spec fn tokens_of(s: Seq<char>) -> Seq<Token> {
    lex_from(s, 0, true, Seq::empty())
}

/// The shape of a token sequence over a text of `len` characters: spans lie
/// in the text, in order and without overlap, no token but `Eof` is empty,
/// and `Eof` is the last token and no other.
pub open spec fn tokens_ok(toks: Seq<Token>, len: int) -> bool {
    &&& toks.len() > 0
    &&& toks.last().kind == TokenKind::Eof
    &&& forall|i: int| 0 <= i < toks.len() ==> (#[trigger] toks[i]).start <= toks[i].end <= len
    &&& forall|i: int|
        0 <= i < toks.len() - 1 ==> (#[trigger] toks[i]).kind != TokenKind::Eof && toks[i].start
            < toks[i].end
    &&& forall|i: int, j: int|
        0 <= i < j < toks.len() ==> (#[trigger] toks[i]).end <= (#[trigger] toks[j]).start
}

pub fn has_pair(src: &Vec<char>, pos: usize, a: char, b: char) -> (r: bool)
    requires
        pos < src.len(),
    ensures
        r == pair_at(src@, pos as int, a, b),
{
    src[pos] == a && pos + 1 < src.len() && src[pos + 1] == b
}

fn has_run(src: &Vec<char>, pos: usize, c: char, n: usize) -> (r: bool)
    requires
        pos < src.len(),
        n <= 4,
    ensures
        r == run_at(src@, pos as int, c, n as int),
{
    if n > src.len() - pos {
        return false;
    }
    let mut i: usize = 0;
    while i < n
        invariant
            i <= n,
            pos + n <= src.len(),
            forall|j: int| pos <= j < pos + i ==> src@[j] == c,
        decreases n - i,
    {
        if src[pos + i] != c {
            return false;
        }
        i += 1;
    }
    true
}

fn has_rule(src: &Vec<char>, pos: usize, c: char) -> (r: bool)
    requires
        pos < src.len(),
    ensures
        r == rule_at(src@, pos as int, c),
{
    if !has_run(src, pos, c, 3) {
        return false;
    }
    if pos + 3 == src.len() {
        return true;
    }
    let d = src[pos + 3];
    char_is_blank(d) || d == '\n' || d == '\r'
}

pub fn char_is_control(c: char) -> (r: bool)
    ensures
        r == is_control(c),
{
    let n: u32 = c as u32;
    n < 32 || n == 127
}

pub fn char_breaks_word(src: &Vec<char>, pos: usize) -> (r: bool)
    requires
        pos < src.len(),
    ensures
        r == breaks_word(src@, pos as int),
{
    let c = src[pos];
    char_is_blank(c) || char_is_control(c) || c == '{' || c == '}' || c == '[' || c == ']' || c
        == '#' || c == '"' || has_pair(src, pos, '<', '<') || has_pair(src, pos, '>', '>')
        || has_pair(src, pos, '-', '>')
}

fn scan_word(src: &Vec<char>, pos: usize) -> (end: usize)
    requires
        pos <= src.len(),
    ensures
        end == word_end(src@, pos as int),
        pos <= end <= src.len(),
{
    let mut i: usize = pos;
    while i < src.len() && !char_breaks_word(src, i)
        invariant
            pos <= i <= src.len(),
            word_end(src@, i as int) == word_end(src@, pos as int),
        decreases src.len() - i,
    {
        i += 1;
    }
    i
}

fn has_comment(src: &Vec<char>, pos: usize) -> (r: bool)
    requires
        pos < src.len(),
    ensures
        r == comment_at(src@, pos as int),
{
    has_pair(src, pos, '/', '/') && (pos == 0 || char_is_blank(src[pos - 1]) || src[pos - 1]
        == '\n')
}

/// Reads the lexeme at `pos`: its kind, `None` for blanks and comments, and
/// its end, which lies behind `pos`.
pub fn next_lexeme(src: &Vec<char>, pos: usize, lead: bool) -> (r: (Option<TokenKind>, usize))
    requires
        pos < src.len(),
    ensures
        r.0 == lexeme_at(src@, pos as int, lead).kind,
        r.1 == lexeme_at(src@, pos as int, lead).end,
        pos < r.1 <= src.len(),
{
    let c = src[pos];
    if c == '\n' {
        (Some(TokenKind::LineEnd), pos + 1)
    } else if has_pair(src, pos, '\r', '\n') {
        (Some(TokenKind::LineEnd), pos + 2)
    } else if lead && c == '\t' {
        (Some(TokenKind::Indent), pos + 1)
    } else if lead && has_run(src, pos, ' ', 4) {
        (Some(TokenKind::Indent), pos + 4)
    } else if char_is_blank(c) {
        (None, pos + 1)
    } else if has_comment(src, pos) {
        let end = scan(src, pos, CharClass::InLine);
        assert(pos < end) by {
            assert(scan_end(src@, pos as int, CharClass::InLine) == scan_end(
                src@,
                pos + 1,
                CharClass::InLine,
            ));
            lemma_scan_end_bounds(src@, pos + 1, CharClass::InLine);
        }
        (None, end)
    } else if lead && has_rule(src, pos, '-') {
        (Some(TokenKind::HeaderEnd), pos + 3)
    } else if lead && has_rule(src, pos, '=') {
        (Some(TokenKind::NodeEnd), pos + 3)
    } else if has_pair(src, pos, '<', '<') {
        (Some(TokenKind::CmdStart), pos + 2)
    } else if has_pair(src, pos, '>', '>') {
        (Some(TokenKind::CmdEnd), pos + 2)
    } else if has_pair(src, pos, '-', '>') {
        (Some(TokenKind::ShortcutOption), pos + 2)
    } else if c == '{' {
        (Some(TokenKind::ExprStart), pos + 1)
    } else if c == '}' {
        (Some(TokenKind::ExprEnd), pos + 1)
    } else if c == '[' {
        (Some(TokenKind::OptionStart), pos + 1)
    } else if c == ']' {
        (Some(TokenKind::OptionEnd), pos + 1)
    } else if c == '#' {
        (Some(TokenKind::Tag), pos + 1)
    } else if c == '"' {
        let q = scan(src, pos + 1, CharClass::Quoted);
        if q < src.len() && src[q] == '"' {
            (Some(TokenKind::Word), q + 1)
        } else {
            (Some(TokenKind::Error), q)
        }
    } else if char_is_control(c) {
        (Some(TokenKind::Error), pos + 1)
    } else {
        if char_is_ident(c) {
            let e = scan(src, pos, CharClass::Ident);
            if e < src.len() && src[e] == ':' {
                return (Some(TokenKind::Label), e + 1);
            }
        }
        (Some(TokenKind::Word), scan_word(src, pos + 1))
    }
}

/// The tokens of `src`, the last one `Eof`.
pub fn tokenize(src: &Vec<char>) -> (toks: Vec<Token>)
    ensures
        toks@ == tokens_of(src@),
        tokens_ok(toks@, src@.len() as int),
{
    let mut toks: Vec<Token> = Vec::new();
    let mut pos: usize = 0;
    let mut lead = true;
    while pos < src.len()
        invariant
            pos <= src.len(),
            lex_from(src@, pos as int, lead, toks@) == tokens_of(src@),
            forall|i: int| 0 <= i < toks.len() ==> (#[trigger] toks[i]).start < toks[i].end <= pos,
            forall|i: int| 0 <= i < toks.len() ==> (#[trigger] toks[i]).kind != TokenKind::Eof,
            forall|i: int, j: int|
                0 <= i < j < toks.len() ==> (#[trigger] toks[i]).end <= (#[trigger] toks[j]).start,
        decreases src.len() - pos,
    {
        let (kind, end) = next_lexeme(src, pos, lead);
        match kind {
            None => {},
            Some(k) => {
                toks.push(Token { kind: k, start: pos, end });
                lead = k == TokenKind::LineEnd || k == TokenKind::Indent;
            },
        }
        pos = end;
    }
    toks.push(Token { kind: TokenKind::Eof, start: pos, end: pos });
    toks
}

} // verus!
