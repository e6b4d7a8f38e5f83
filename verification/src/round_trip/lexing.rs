//! How the lexer moves through a text: facts about `tokens_of` that the
//! laws on printing stand on.

use vstd::prelude::*;
use crate::lexer::{
    breaks_word, comment_at, is_control, leads_after, lex_from, lexeme_at, pair_at, rule_at, Token,
    TokenKind, tokens_of, word_end,
};
use crate::ast::scan::{find_kind, indent_stop, line_stop, starts_with};
use crate::text::{CharClass, in_class, is_blank, is_ident, lemma_scan_end_bounds, scan_end};

verus! {

/// A word ends behind where it is looked for, and inside the text.
pub proof fn lemma_word_end_bounds(s: Seq<char>, pos: int)
    requires
        0 <= pos <= s.len(),
    ensures
        pos <= word_end(s, pos) <= s.len(),
        forall|j: int| pos <= j < word_end(s, pos) ==> !breaks_word(s, j),
        word_end(s, pos) < s.len() ==> breaks_word(s, word_end(s, pos)),
    decreases s.len() - pos,
{
    if pos < s.len() && !breaks_word(s, pos) {
        lemma_word_end_bounds(s, pos + 1);
    }
}

/// Every lexeme ends behind where it starts, and inside the text.
pub proof fn lemma_lexeme_advances(s: Seq<char>, pos: int, lead: bool)
    requires
        0 <= pos < s.len(),
    ensures
        pos < lexeme_at(s, pos, lead).end <= s.len(),
{
    lemma_scan_end_bounds(s, pos, CharClass::InLine);
    lemma_scan_end_bounds(s, pos + 1, CharClass::InLine);
    lemma_scan_end_bounds(s, pos + 1, CharClass::Quoted);
    lemma_scan_end_bounds(s, pos, CharClass::Ident);
    lemma_word_end_bounds(s, pos + 1);
}

/// The lexer keeps the tokens it has and adds at least the last one.
pub proof fn lemma_lex_prefix(s: Seq<char>, pos: int, lead: bool, acc: Seq<Token>)
    requires
        0 <= pos,
    ensures
        lex_from(s, pos, lead, acc).len() > acc.len(),
        lex_from(s, pos, lead, acc).take(acc.len() as int) == acc,
    decreases s.len() - pos,
{
    if pos < s.len() {
        lemma_lexeme_advances(s, pos, lead);
        let lx = lexeme_at(s, pos, lead);
        match lx.kind {
            None => {
                lemma_lex_prefix(s, lx.end, lead, acc);
            },
            Some(kind) => {
                let more = acc.push(Token { kind, start: pos as usize, end: lx.end as usize });
                lemma_lex_prefix(s, lx.end, leads_after(kind), more);
                let r = lex_from(s, lx.end, leads_after(kind), more);
                assert(r.take(acc.len() as int) =~= r.take(more.len() as int).take(
                    acc.len() as int,
                ));
                assert(more.take(acc.len() as int) =~= acc);
            },
        }
    } else {
        assert(acc.push(
            Token { kind: TokenKind::Eof, start: s.len() as usize, end: s.len() as usize },
        ).take(acc.len() as int) =~= acc);
    }
}

/// The lexer stands at `pos` with the flag `lead` and has given the first
/// `i` tokens of `toks`, which are the tokens of `s`.
pub open spec fn lexed_to(s: Seq<char>, toks: Seq<Token>, pos: int, lead: bool, i: int) -> bool {
    &&& 0 <= pos <= s.len() <= usize::MAX
    &&& 0 <= i <= toks.len()
    &&& lex_from(s, pos, lead, toks.take(i)) == toks
}

/// Wherever the lexer stands, a token is still to come.
pub proof fn lemma_lexed_more(s: Seq<char>, toks: Seq<Token>, pos: int, lead: bool, i: int)
    requires
        lexed_to(s, toks, pos, lead, i),
    ensures
        i < toks.len(),
{
    lemma_lex_prefix(s, pos, lead, toks.take(i));
}

/// At the start of a text the lexer has given no token.
pub proof fn lemma_lex_start(s: Seq<char>)
    requires
        s.len() <= usize::MAX,
    ensures
        lexed_to(s, tokens_of(s), 0, true, 0),
{
    assert(tokens_of(s).take(0) =~= Seq::<Token>::empty());
}

/// One lexeme on: the token it gives is the next token of the text.
pub proof fn lemma_lex_step(s: Seq<char>, toks: Seq<Token>, pos: int, lead: bool, i: int)
    requires
        lexed_to(s, toks, pos, lead, i),
        pos < s.len(),
    ensures
        pos < lexeme_at(s, pos, lead).end <= s.len(),
        match lexeme_at(s, pos, lead).kind {
            Some(kind) => i < toks.len() && toks[i] == (Token {
                kind,
                start: pos as usize,
                end: lexeme_at(s, pos, lead).end as usize,
            }) && lexed_to(s, toks, lexeme_at(s, pos, lead).end, leads_after(kind), i + 1),
            None => lexed_to(s, toks, lexeme_at(s, pos, lead).end, lead, i),
        },
{
    lemma_lexeme_advances(s, pos, lead);
    let lx = lexeme_at(s, pos, lead);
    let acc = toks.take(i);
    match lx.kind {
        None => {},
        Some(kind) => {
            let tok = Token { kind, start: pos as usize, end: lx.end as usize };
            let more = acc.push(tok);
            lemma_lex_prefix(s, lx.end, leads_after(kind), more);
            assert(toks.take(i + 1) =~= more) by {
                assert(toks.take(more.len() as int) == more);
            }
            assert(toks[i] == more[i]) by {
                assert(toks.take(i + 1)[i] == toks[i]);
            }
        },
    }
}

/// At the end of the text one token is left, `Eof`.
pub proof fn lemma_lex_end(s: Seq<char>, toks: Seq<Token>, lead: bool, i: int)
    requires
        lexed_to(s, toks, s.len() as int, lead, i),
    ensures
        toks.len() == i + 1,
        toks[i] == (Token { kind: TokenKind::Eof, start: s.len() as usize, end: s.len() as usize }),
{
    let acc = toks.take(i);
    assert(toks == acc.push(
        Token { kind: TokenKind::Eof, start: s.len() as usize, end: s.len() as usize },
    ));
}

/// Whether the character at `p` can stand in plain text: it is a blank, or
/// it breaks no word, and it starts no comment.
pub open spec fn plain_at(s: Seq<char>, p: int) -> bool {
    &&& 0 <= p < s.len()
    &&& is_blank(s[p]) || !breaks_word(s, p)
    &&& !pair_at(s, p, '/', '/')
}

/// Whether a label starts at `p`: a run of identifier characters with a
/// colon behind it.
pub open spec fn label_at(s: Seq<char>, p: int) -> bool {
    &&& 0 <= p < s.len()
    &&& is_ident(s[p])
    &&& scan_end(s, p, CharClass::Ident) < s.len()
    &&& s[scan_end(s, p, CharClass::Ident)] == ':'
}

/// Whether `s[p..end]` is tame: plain text, and strings in double quotes
/// that are closed before `end`.
pub open spec fn tame(s: Seq<char>, p: int, end: int) -> bool
    decreases end - p,
{
    if p >= end {
        p == end
    } else if 0 <= p < s.len() && s[p] == '"' {
        let q = scan_end(s, p + 1, CharClass::Quoted);
        p < q < end && q < s.len() && s[q] == '"' && tame(s, q + 1, end)
    } else {
        plain_at(s, p) && tame(s, p + 1, end)
    }
}

/// Whether a token is a word or a label: what tame text gives.
pub open spec fn is_wordy(t: Token) -> bool {
    t.kind == TokenKind::Word || t.kind == TokenKind::Label
}

/// Tame text stays tame from the end of a word in it.
pub proof fn lemma_tame_skips_word(s: Seq<char>, p: int, end: int)
    requires
        0 <= p <= end <= s.len(),
        tame(s, p, end),
        end == s.len() || breaks_word(s, end),
    ensures
        p <= word_end(s, p) <= end,
        tame(s, word_end(s, p), end),
    decreases end - p,
{
    if p < end && !breaks_word(s, p) {
        assert(s[p] != '"');
        lemma_tame_skips_word(s, p + 1, end);
    }
}

/// The lexer goes through tame text token by token up to its end, and
/// every token it gives there is a word or a label inside that text; the
/// first is a label only where a label starts there. Among the leading
/// blanks of a line the text must start with no blank and with no rule
/// of three `-` or `=`. The result is the number of tokens given when
/// the end is reached.
pub proof fn lemma_lex_tame(s: Seq<char>, toks: Seq<Token>, p: int, end: int, lead: bool, i: int) -> (n:
    int)
    requires
        lexed_to(s, toks, p, lead, i),
        p <= end <= s.len(),
        tame(s, p, end),
        end == s.len() || breaks_word(s, end),
        !lead || (p < end ==> !is_blank(s[p]) && !rule_at(s, p, '-') && !rule_at(s, p, '=')),
    ensures
        i <= n <= toks.len(),
        p < end ==> lexed_to(s, toks, end, lead && forall|j: int| p <= j < end ==> is_blank(#[trigger] s[j]), n),
        p == end ==> n == i,
        forall|j: int|
            i <= j < n ==> is_wordy(#[trigger] toks[j]) && p <= toks[j].start < toks[j].end <= end,
        (exists|j: int| p <= j < end && !is_blank(s[j])) ==> i < n && !is_blank(s[toks[i].start as int])
            && forall|j: int| p <= j < toks[i].start ==> is_blank(#[trigger] s[j]),
        p < end && !is_blank(s[end - 1]) ==> i < n && toks[n - 1].end == end,
        (forall|j: int| p <= j < end ==> is_blank(#[trigger] s[j])) ==> n == i,
        i < n ==> (toks[i].kind == TokenKind::Label <==> label_at(s, toks[i].start as int)),
    decreases end - p,
{
    if p >= end {
        return i;
    }
    let c = s[p];
    lemma_lex_step(s, toks, p, lead, i);
    let lx = lexeme_at(s, p, lead);
    if c == '"' {
        let q = scan_end(s, p + 1, CharClass::Quoted);
        assert(lx.kind == Some(TokenKind::Word) && lx.end == q + 1);
        let n = lemma_lex_tame(s, toks, q + 1, end, false, i + 1);
        assert(!is_blank(s[p]));
        return n;
    }
    assert(plain_at(s, p));
    if is_blank(c) {
        assert(!lead);
        assert(lx.kind is None && lx.end == p + 1);
        let n = lemma_lex_tame(s, toks, p + 1, end, lead, i);
        if exists|j: int| p <= j < end && !is_blank(s[j]) {
            let j = choose|j: int| p <= j < end && !is_blank(s[j]);
            assert(p + 1 <= j < end && !is_blank(s[j]));
        }
        return n;
    }
    assert(!breaks_word(s, p));
    assert(!comment_at(s, p));
    assert(!rule_at(s, p, '-') || !lead);
    assert(!rule_at(s, p, '=') || !lead);
    lemma_scan_end_bounds(s, p, CharClass::Ident);
    let e = scan_end(s, p, CharClass::Ident);
    if is_ident(c) && e < s.len() && s[e] == ':' {
        lemma_tame_label(s, p, end);
        assert(lx.kind == Some(TokenKind::Label) && lx.end == e + 1);
        let n = lemma_lex_tame(s, toks, e + 1, end, false, i + 1);
        return n;
    }
    assert(lx.kind == Some(TokenKind::Word) && lx.end == word_end(s, p + 1));
    assert(tame(s, p + 1, end));
    lemma_tame_skips_word(s, p + 1, end);
    let n = lemma_lex_tame(s, toks, lx.end, end, false, i + 1);
    n
}

/// A label that starts in tame text ends in it, and the text behind the
/// label is tame.
pub proof fn lemma_tame_label(s: Seq<char>, p: int, end: int)
    requires
        0 <= p < end <= s.len(),
        tame(s, p, end),
        end == s.len() || breaks_word(s, end),
        is_ident(s[p]),
        scan_end(s, p, CharClass::Ident) < s.len(),
        s[scan_end(s, p, CharClass::Ident)] == ':',
    ensures
        p < scan_end(s, p, CharClass::Ident) < end,
        tame(s, scan_end(s, p, CharClass::Ident) + 1, end),
    decreases end - p,
{
    assert(s[p] != '"');
    assert(tame(s, p + 1, end));
    lemma_scan_end_bounds(s, p + 1, CharClass::Ident);
    if p + 1 < end {
        if is_ident(s[p + 1]) {
            lemma_tame_label(s, p + 1, end);
        } else {
            assert(s[p + 1] == ':');
            assert(tame(s, p + 2, end));
        }
    } else {
        if p + 1 < s.len() {
            assert(breaks_word(s, p + 1));
            assert(!is_ident(s[p + 1]));
        }
    }
}

/// Tame text behind tame text is tame text.
pub proof fn lemma_tame_join(s: Seq<char>, p: int, mid: int, end: int)
    requires
        0 <= p <= mid <= end <= s.len(),
        tame(s, p, mid),
        tame(s, mid, end),
    ensures
        tame(s, p, end),
    decreases mid - p,
{
    if p < mid {
        if s[p] == '"' {
            let q = scan_end(s, p + 1, CharClass::Quoted);
            lemma_tame_join(s, q + 1, mid, end);
        } else {
            lemma_tame_join(s, p + 1, mid, end);
        }
    }
}

/// A run of plain characters is tame.
pub proof fn lemma_tame_plain(s: Seq<char>, p: int, end: int)
    requires
        0 <= p <= end <= s.len(),
        forall|j: int| p <= j < end ==> plain_at(s, j) && #[trigger] s[j] != '"',
    ensures
        tame(s, p, end),
    decreases end - p,
{
    if p < end {
        lemma_tame_plain(s, p + 1, end);
    }
}

/// A string between double quotes is tame.
pub proof fn lemma_tame_quoted(s: Seq<char>, p: int, end: int)
    requires
        0 <= p,
        p + 2 <= end <= s.len(),
        s[p] == '"',
        s[end - 1] == '"',
        forall|j: int| p + 1 <= j < end - 1 ==> #[trigger] s[j] != '"' && s[j] != '\n',
    ensures
        tame(s, p, end),
{
    assert forall|j: int| p + 1 <= j < end - 1 implies in_class(CharClass::Quoted, #[trigger] s[j]) by {}
    lemma_quoted_run(s, p + 1, end - 1);
    assert(tame(s, end, end));
}

/// A run of characters that are no quote and no line feed ends at the
/// quote behind it.
pub proof fn lemma_quoted_run(s: Seq<char>, p: int, end: int)
    requires
        0 <= p <= end < s.len(),
        forall|j: int| p <= j < end ==> in_class(CharClass::Quoted, #[trigger] s[j]),
        s[end] == '"',
    ensures
        scan_end(s, p, CharClass::Quoted) == end,
    decreases end - p,
{
    if p < end {
        lemma_quoted_run(s, p + 1, end);
    }
}

/// An identifier character is plain wherever it stands.
pub proof fn lemma_ident_is_plain(s: Seq<char>, p: int)
    requires
        0 <= p < s.len(),
        is_ident(s[p]),
    ensures
        plain_at(s, p),
        s[p] != '"',
        !is_blank(s[p]),
{
}

/// Whether a character can stand in steady text at all: no control
/// character, and none of the characters that stand for structure.
pub open spec fn is_steady(c: char) -> bool {
    &&& !is_control(c)
    &&& c != '{' && c != '}' && c != '[' && c != ']' && c != '#' && c != '"'
}

/// Whether the character at place `j` of `t` can stand there in steady
/// text: it is a steady character, and it does not start `<<`, `>>`, `->`
/// or `//`, neither with the character behind it nor, as the last of the
/// text, with what may follow the text.
pub open spec fn steady_at(t: Seq<char>, j: int) -> bool {
    let c = t[j];
    &&& is_steady(c)
    &&& c == '<' ==> j + 1 < t.len() && t[j + 1] != '<'
    &&& c == '>' ==> j + 1 < t.len() && t[j + 1] != '>'
    &&& c == '-' ==> j + 1 < t.len() && t[j + 1] != '>'
    &&& c == '/' ==> j + 1 < t.len() && t[j + 1] != '/'
}

/// Steady text: what the lexer reads as plain words wherever it stands.
pub open spec fn steady(t: Seq<char>) -> bool {
    forall|j: int| 0 <= j < t.len() ==> #[trigger] steady_at(t, j)
}

/// A word: steady text without a blank and without a colon, at least one
/// character.
pub open spec fn is_word(t: Seq<char>) -> bool {
    t.len() > 0 && steady(t) && forall|j: int|
        0 <= j < t.len() ==> !is_blank(#[trigger] t[j]) && t[j] != ':'
}

/// A phrase: steady text that neither starts nor ends with a blank, at
/// least one character.
pub open spec fn is_phrase(t: Seq<char>) -> bool {
    t.len() > 0 && steady(t) && !is_blank(t[0]) && !is_blank(t[t.len() - 1])
}

/// Steady text is tame wherever it stands.
pub proof fn lemma_steady_is_tame(s: Seq<char>, p: int, t: Seq<char>)
    requires
        0 <= p,
        p + t.len() <= s.len(),
        s.subrange(p, p + t.len()) == t,
        steady(t),
    ensures
        tame(s, p, p + t.len()),
        forall|j: int|
            p <= j < p + t.len() ==> is_steady(#[trigger] s[j]) && plain_at(s, j) && (is_blank(s[j])
                || !breaks_word(s, j)),
{
    assert forall|j: int| p <= j < p + t.len() implies is_steady(#[trigger] s[j]) && plain_at(s, j)
        && (is_blank(s[j]) || !breaks_word(s, j)) by {
        assert(s.subrange(p, p + t.len())[j - p] == s[j]);
        assert(steady_at(t, j - p));
        if j + 1 < p + t.len() {
            assert(s.subrange(p, p + t.len())[j + 1 - p] == s[j + 1]);
        }
    }
    assert forall|j: int| p <= j < p + t.len() implies plain_at(s, j) && #[trigger] s[j] != '"' by {
        assert(is_steady(s[j]));
    }
    lemma_tame_plain(s, p, p + t.len());
}

/// A word that stands where a lexeme starts, with a character behind it
/// that breaks words, is read as one `Word`.
pub proof fn lemma_lex_word(
    s: Seq<char>,
    toks: Seq<Token>,
    p: int,
    t: Seq<char>,
    lead: bool,
    i: int,
)
    requires
        lexed_to(s, toks, p, lead, i),
        p + t.len() <= s.len(),
        s.subrange(p, p + t.len()) == t,
        is_word(t),
        p + t.len() == s.len() || breaks_word(s, p + t.len()),
        p + t.len() == s.len() || s[p + t.len()] != ':',
        !lead || (!rule_at(s, p, '-') && !rule_at(s, p, '=')),
    ensures
        i < toks.len(),
        toks[i] == (Token { kind: TokenKind::Word, start: p as usize, end: (p + t.len()) as usize }),
        lexed_to(s, toks, p + t.len(), false, i + 1),
{
    let end = p + t.len();
    lemma_steady_is_tame(s, p, t);
    assert forall|j: int| p <= j < end implies !breaks_word(s, j) && #[trigger] s[j] != ':' by {
        assert(is_steady(s[j]));
        assert(s.subrange(p, end)[j - p] == s[j]);
        assert(!is_blank(t[j - p]));
    }
    lemma_word_run(s, p + 1, end);
    lemma_lex_step(s, toks, p, lead, i);
    lemma_scan_end_bounds(s, p, CharClass::Ident);
    lemma_ident_run_in_word(s, p, end);
    assert(is_steady(s[p]) && plain_at(s, p));
    assert(!is_blank(s[p])) by {
        assert(s.subrange(p, end)[0] == s[p]);
    }
    assert(!comment_at(s, p));
    assert(lexeme_at(s, p, lead).kind == Some(TokenKind::Word));
    assert(lexeme_at(s, p, lead).end == end);
}

/// A run of characters that break no word ends where a word breaks.
pub proof fn lemma_word_run(s: Seq<char>, p: int, end: int)
    requires
        0 <= p <= end <= s.len(),
        forall|j: int| p <= j < end ==> !breaks_word(s, j),
        end == s.len() || breaks_word(s, end),
    ensures
        word_end(s, p) == end,
    decreases end - p,
{
    if p < end {
        lemma_word_run(s, p + 1, end);
    }
}

/// Inside a run of characters that holds no colon and has none behind it,
/// no run of identifier characters has a colon behind it.
pub proof fn lemma_ident_run_in_word(s: Seq<char>, p: int, end: int)
    requires
        0 <= p <= end <= s.len(),
        forall|j: int| p <= j < end ==> #[trigger] s[j] != ':',
        end == s.len() || (!is_ident(s[end]) && s[end] != ':'),
    ensures
        scan_end(s, p, CharClass::Ident) == s.len() || s[scan_end(s, p, CharClass::Ident)] != ':',
    decreases end - p,
{
    lemma_scan_end_bounds(s, p, CharClass::Ident);
    if p < end {
        if is_ident(s[p]) {
            lemma_ident_run_in_word(s, p + 1, end);
        }
    }
}

/// The end of a line among the tokens.
pub proof fn lemma_line_stop(toks: Seq<Token>, a: int, n: int)
    requires
        0 <= a <= n < toks.len(),
        forall|j: int|
            a <= j < n ==> (#[trigger] toks[j]).kind != TokenKind::LineEnd && toks[j].kind
                != TokenKind::Eof,
        toks[n].kind == TokenKind::LineEnd || toks[n].kind == TokenKind::Eof,
    ensures
        line_stop(toks, a) == n,
    decreases n - a,
{
    if a < n {
        lemma_line_stop(toks, a + 1, n);
    }
}

/// A kind that none of the tokens has is not found.
pub proof fn lemma_find_none(toks: Seq<Token>, a: int, e: int, kind: TokenKind)
    requires
        0 <= a <= e <= toks.len(),
        forall|j: int| a <= j < e ==> (#[trigger] toks[j]).kind != kind,
    ensures
        find_kind(toks, a, e, kind) == e,
    decreases e - a,
{
    if a < e {
        lemma_find_none(toks, a + 1, e, kind);
    }
}

/// A kind is found at the first token that has it.
pub proof fn lemma_find_at(toks: Seq<Token>, a: int, at: int, e: int, kind: TokenKind)
    requires
        0 <= a <= at < e <= toks.len(),
        forall|j: int| a <= j < at ==> (#[trigger] toks[j]).kind != kind,
        toks[at].kind == kind,
    ensures
        find_kind(toks, a, e, kind) == at,
    decreases at - a,
{
    if a < at {
        lemma_find_at(toks, a + 1, at, e, kind);
    }
}

/// The end of the indentation among the tokens.
pub proof fn lemma_indent_stop(toks: Seq<Token>, i: int, a: int)
    requires
        0 <= i <= a < toks.len(),
        forall|j: int| i <= j < a ==> (#[trigger] toks[j]).kind == TokenKind::Indent,
        toks[a].kind != TokenKind::Indent,
    ensures
        indent_stop(toks, i) == a,
    decreases a - i,
{
    if i < a {
        lemma_indent_stop(toks, i + 1, a);
    }
}

/// Tokens that all start with another character than `c`.
pub proof fn lemma_starts_with_none(s: Seq<char>, toks: Seq<Token>, i: int, a: int, c: char)
    requires
        0 <= i <= a <= toks.len(),
        forall|j: int|
            i <= j < a ==> (#[trigger] toks[j]).start < s.len() && s[toks[j].start as int] != c,
    ensures
        !starts_with(s, toks, i, a, c),
    decreases a - i,
{
    if i < a {
        lemma_starts_with_none(s, toks, i + 1, a, c);
    }
}

/// The line feed at `p` gives the token that ends the line.
pub proof fn lemma_lex_line_end(s: Seq<char>, toks: Seq<Token>, p: int, lead: bool, i: int)
    requires
        lexed_to(s, toks, p, lead, i),
        p < s.len(),
        s[p] == '\n',
    ensures
        i < toks.len(),
        toks[i] == (Token { kind: TokenKind::LineEnd, start: p as usize, end: (p + 1) as usize }),
        lexed_to(s, toks, p + 1, true, i + 1),
{
    lemma_lex_step(s, toks, p, lead, i);
}

/// A closing brace or a square bracket: a character that is a token of its
/// own and does no harm inside text.
pub open spec fn is_mark(c: char) -> bool {
    c == '}' || c == '[' || c == ']'
}

/// Whether `s[p..end]` is loose: tame text with closing braces and square
/// brackets in it.
pub open spec fn loose(s: Seq<char>, p: int, end: int) -> bool
    decreases end - p,
{
    if p >= end {
        p == end
    } else if 0 <= p < s.len() && s[p] == '"' {
        let q = scan_end(s, p + 1, CharClass::Quoted);
        p < q < end && q < s.len() && s[q] == '"' && loose(s, q + 1, end)
    } else if 0 <= p < s.len() && is_mark(s[p]) {
        loose(s, p + 1, end)
    } else {
        plain_at(s, p) && loose(s, p + 1, end)
    }
}

/// Whether a token is one that loose text gives: a word, a label, or the
/// token of a closing brace or a square bracket.
pub open spec fn is_loose(s: Seq<char>, t: Token) -> bool {
    ||| is_wordy(t)
    ||| (t.start < s.len() && s[t.start as int] == '}' && t.kind == TokenKind::ExprEnd)
    ||| (t.start < s.len() && s[t.start as int] == '[' && t.kind == TokenKind::OptionStart)
    ||| (t.start < s.len() && s[t.start as int] == ']' && t.kind == TokenKind::OptionEnd)
}

/// Loose text stays loose from the end of a word in it.
pub proof fn lemma_loose_skips_word(s: Seq<char>, p: int, end: int)
    requires
        0 <= p <= end <= s.len(),
        loose(s, p, end),
        end == s.len() || breaks_word(s, end),
    ensures
        p <= word_end(s, p) <= end,
        loose(s, word_end(s, p), end),
    decreases end - p,
{
    if p < end && !breaks_word(s, p) {
        assert(s[p] != '"' && !is_mark(s[p]));
        lemma_loose_skips_word(s, p + 1, end);
    }
}

/// A label that starts in loose text ends in it, and the text behind the
/// label is loose.
pub proof fn lemma_loose_label(s: Seq<char>, p: int, end: int)
    requires
        0 <= p < end <= s.len(),
        loose(s, p, end),
        end == s.len() || breaks_word(s, end),
        is_ident(s[p]),
        scan_end(s, p, CharClass::Ident) < s.len(),
        s[scan_end(s, p, CharClass::Ident)] == ':',
    ensures
        p < scan_end(s, p, CharClass::Ident) < end,
        loose(s, scan_end(s, p, CharClass::Ident) + 1, end),
    decreases end - p,
{
    assert(s[p] != '"' && !is_mark(s[p]));
    assert(loose(s, p + 1, end));
    lemma_scan_end_bounds(s, p + 1, CharClass::Ident);
    if p + 1 < end {
        if is_ident(s[p + 1]) {
            lemma_loose_label(s, p + 1, end);
        } else {
            assert(s[p + 1] == ':');
            assert(loose(s, p + 2, end));
        }
    } else {
        if p + 1 < s.len() {
            assert(breaks_word(s, p + 1));
            assert(!is_ident(s[p + 1]));
        }
    }
}

/// The lexer goes through loose text token by token up to its end, and
/// every token it gives there is a word, a label or the token of a closing
/// brace or a square bracket, inside that text; the first is a label only
/// where a label starts there. Among the leading blanks of a line the text
/// must start with no blank, with none of these marks and with no rule of
/// three `-` or `=`. The result is the number of tokens given when the end
/// is reached.
pub proof fn lemma_lex_loose(s: Seq<char>, toks: Seq<Token>, p: int, end: int, lead: bool, i: int) -> (n:
    int)
    requires
        lexed_to(s, toks, p, lead, i),
        p <= end <= s.len(),
        loose(s, p, end),
        end == s.len() || breaks_word(s, end),
        !lead || (p < end ==> !is_blank(s[p]) && !is_mark(s[p]) && !rule_at(s, p, '-') && !rule_at(
            s,
            p,
            '=',
        )),
    ensures
        i <= n <= toks.len(),
        p < end ==> lexed_to(s, toks, end, lead && forall|j: int| p <= j < end ==> is_blank(#[trigger] s[j]), n),
        p == end ==> n == i,
        forall|j: int|
            i <= j < n ==> is_loose(s, #[trigger] toks[j]) && p <= toks[j].start < toks[j].end <= end,
        (exists|j: int| p <= j < end && !is_blank(s[j])) ==> i < n && !is_blank(s[toks[i].start as int])
            && forall|j: int| p <= j < toks[i].start ==> is_blank(#[trigger] s[j]),
        p < end && !is_blank(s[end - 1]) ==> i < n && toks[n - 1].end == end,
        (forall|j: int| p <= j < end ==> is_blank(#[trigger] s[j])) ==> n == i,
        i < n ==> (toks[i].kind == TokenKind::Label <==> label_at(s, toks[i].start as int)),
    decreases end - p,
{
    if p >= end {
        return i;
    }
    let c = s[p];
    lemma_lex_step(s, toks, p, lead, i);
    let lx = lexeme_at(s, p, lead);
    if c == '"' {
        let q = scan_end(s, p + 1, CharClass::Quoted);
        assert(lx.kind == Some(TokenKind::Word) && lx.end == q + 1);
        let n = lemma_lex_loose(s, toks, q + 1, end, false, i + 1);
        assert(!is_blank(s[p]));
        return n;
    }
    if is_mark(c) {
        assert(!lead);
        assert(lx.end == p + 1);
        assert(lx.kind is Some);
        let n = lemma_lex_loose(s, toks, p + 1, end, false, i + 1);
        assert(is_loose(s, toks[i]));
        assert(!is_blank(s[p]));
        return n;
    }
    assert(plain_at(s, p));
    if is_blank(c) {
        assert(!lead);
        assert(lx.kind is None && lx.end == p + 1);
        let n = lemma_lex_loose(s, toks, p + 1, end, lead, i);
        if exists|j: int| p <= j < end && !is_blank(s[j]) {
            let j = choose|j: int| p <= j < end && !is_blank(s[j]);
            assert(p + 1 <= j < end && !is_blank(s[j]));
        }
        return n;
    }
    assert(!breaks_word(s, p));
    assert(!comment_at(s, p));
    assert(!rule_at(s, p, '-') || !lead);
    assert(!rule_at(s, p, '=') || !lead);
    lemma_scan_end_bounds(s, p, CharClass::Ident);
    let e = scan_end(s, p, CharClass::Ident);
    if is_ident(c) && e < s.len() && s[e] == ':' {
        lemma_loose_label(s, p, end);
        assert(lx.kind == Some(TokenKind::Label) && lx.end == e + 1);
        let n = lemma_lex_loose(s, toks, e + 1, end, false, i + 1);
        return n;
    }
    assert(lx.kind == Some(TokenKind::Word) && lx.end == word_end(s, p + 1));
    assert(loose(s, p + 1, end));
    lemma_loose_skips_word(s, p + 1, end);
    let n = lemma_lex_loose(s, toks, lx.end, end, false, i + 1);
    n
}

/// Mild text: what can stand as a literal piece of text. It is plain text,
/// strings in double quotes that are closed inside it, closing braces and
/// square brackets; its last character starts none of `<<`, `>>`, `->` and
/// `//` with what may follow the text.
pub open spec fn mild(t: Seq<char>) -> bool {
    &&& loose(t.push(' '), 0, t.len() as int)
    &&& t.len() > 0 ==> t.last() != '<' && t.last() != '>' && t.last() != '-' && t.last() != '/'
}

/// Mild text is loose from each of its places on, wherever it stands.
pub proof fn lemma_mild_from(s: Seq<char>, p: int, t: Seq<char>, j: int)
    requires
        0 <= p,
        0 <= j <= t.len(),
        p + t.len() <= s.len(),
        s.subrange(p, p + t.len()) == t,
        loose(t.push(' '), j, t.len() as int),
        t.len() > 0 ==> t.last() != '<' && t.last() != '>' && t.last() != '-' && t.last() != '/',
    ensures
        loose(s, p + j, p + t.len()),
    decreases t.len() - j,
{
    let n = t.len() as int;
    let u = t.push(' ');
    if j < n {
        assert forall|x: int| 0 <= x < n implies s[p + x] == #[trigger] u[x] by {
            assert(s.subrange(p, p + n)[x] == s[p + x]);
        }
        assert(s[p + j] == u[j]);
        if u[j] == '"' {
            let q = scan_end(u, j + 1, CharClass::Quoted);
            lemma_scan_end_bounds(u, j + 1, CharClass::Quoted);
            assert forall|x: int| p + j + 1 <= x < p + q implies in_class(
                CharClass::Quoted,
                #[trigger] s[x],
            ) by {
                assert(s[x] == u[x - p]);
            }
            assert(s[p + q] == u[q]);
            lemma_quoted_run(s, p + j + 1, p + q);
            lemma_mild_from(s, p, t, q + 1);
        } else if is_mark(u[j]) {
            lemma_mild_from(s, p, t, j + 1);
        } else {
            assert(plain_at(u, j));
            if j + 1 < n {
                assert(s[p + j + 1] == u[j + 1]);
            } else {
                assert(u[j] == t.last());
            }
            assert(plain_at(s, p + j));
            lemma_mild_from(s, p, t, j + 1);
        }
    }
}

/// Mild text is loose wherever it stands.
pub proof fn lemma_mild_is_loose(s: Seq<char>, p: int, t: Seq<char>)
    requires
        0 <= p,
        p + t.len() <= s.len(),
        s.subrange(p, p + t.len()) == t,
        mild(t),
    ensures
        loose(s, p, p + t.len()),
{
    lemma_mild_from(s, p, t, 0);
}

} // verus!
