//! Printed lines parse back: what the lexer and the line parser make of the
//! text that the printer gives for a line.

use vstd::prelude::*;
use crate::ast::{Expr, KeyList, LineKind, NodeLabel, NodeLine};
use crate::ast::print::{expr_text, words_text};
use crate::round_trip::expr::{
    lemma_first_char, lemma_level, lemma_quiet_close, lemma_tame_expr, printable, stands,
};
use crate::ast::template::parse_words;
use crate::ast::command::{parse_assign, parse_choice};
use crate::ast::expr::parse_expr;
use crate::ast::scan::find_char;
use crate::round_trip::text::{
    lemma_lex_shortcut, lemma_lex_text, lemma_line_is_shortcut, lemma_line_is_text,
    lemma_parse_shortcut, lemma_parse_text, lemma_text_parts, printable_shortcut, printable_text,
};
use crate::ast::command::{parse_command, parse_jump};
use crate::ast::expr::{parsed, span_end};
use crate::ast::intern::distinct;
use crate::ast::line::{built, Item, parse_line};
use crate::ast::print::{indent_text, kind_text, line_text};
use crate::round_trip::lexing::{
    is_phrase, is_word, is_wordy, lemma_find_none, lemma_indent_stop, lemma_lex_line_end,
    lemma_lex_step, lemma_lex_tame, lemma_lex_word, lemma_line_stop, lemma_lexed_more,
    lemma_starts_with_none, lemma_steady_is_tame, lemma_tame_join, lemma_tame_plain, lexed_to,
    plain_at, tame,
};
use crate::round_trip::expr::{is_name, lemma_at, lemma_key_again, lemma_span_run, lemma_split};
use crate::ast::scan::{find_kind, indent_stop, line_stop, starts_with, trim_end};
use crate::lexer::{breaks_word, pair_at, run_at, Token, TokenKind};
use crate::text::{CharClass, in_class, is_blank, is_ident, scan_end};
use crate::value::text_of;

verus! {

/// Indentation is four blanks for each level.
pub proof fn lemma_indent_text(d: nat)
    ensures
        indent_text(d).len() == 4 * d,
        forall|j: int| 0 <= j < 4 * d ==> #[trigger] indent_text(d)[j] == ' ',
    decreases d,
{
    reveal_strlit("    ");
    if d > 0 {
        lemma_indent_text((d - 1) as nat);
    }
}

/// The lexer reads the indentation of a printed line as one `Indent` for
/// each level.
pub proof fn lemma_lex_indent(s: Seq<char>, toks: Seq<Token>, p: int, i: int, d: nat)
    requires
        lexed_to(s, toks, p, true, i),
        p + 4 * d <= s.len(),
        s.subrange(p, p + 4 * d) == indent_text(d),
    ensures
        i + d <= toks.len(),
        lexed_to(s, toks, p + 4 * d, true, i + d),
        forall|j: int|
            i <= j < i + d ==> (#[trigger] toks[j]).kind == TokenKind::Indent && toks[j].start
                < s.len() && s[toks[j].start as int] == ' ',
    decreases d,
{
    lemma_indent_text(d);
    if d > 0 {
        let before = (d - 1) as nat;
        lemma_indent_text(before);
        reveal_strlit("    ");
        assert(indent_text(d) == indent_text(before) + "    "@);
        lemma_split(s, p, indent_text(before), "    "@);
        lemma_lex_indent(s, toks, p, i, before);
        let q = p + 4 * before;
        assert forall|j: int| q <= j < q + 4 implies s[j] == ' ' by {
            lemma_at(s, q, "    "@, j - q);
        }
        assert(run_at(s, q, ' ', 4));
        lemma_lex_step(s, toks, q, true, i + before);
    }
}

/// The names that the engine keeps for its own commands.
pub open spec fn is_keyword(t: Seq<char>) -> bool {
    t == "set"@ || t == "if"@ || t == "elseif"@ || t == "else"@ || t == "endif"@ || t == "stop"@
        || t == "jump"@ || t == "wait"@
}

/// A text without `|`: what can stand in front of the bar of a choice.
pub open spec fn no_bar(t: Seq<char>) -> bool {
    forall|j: int| 0 <= j < t.len() ==> #[trigger] t[j] != '|'
}

/// Whether the printed form of a line parses back to it.
pub open spec fn printable_line(line: NodeLine, table: Seq<Seq<char>>) -> bool {
    match line.kind {
        LineKind::Label => line.tag is None && (match line.label {
            Some(k) => k.0 < table.len() && is_name(table[k.0 as int]),
            None => false,
        }),
        LineKind::Else | LineKind::EndIf | LineKind::Stop | LineKind::WaitInput => line.tag
            is None && line.label is None,
        LineKind::Jump(target) => line.tag is None && line.label is None && target.0 < table.len()
            && is_phrase(table[target.0 as int]),
        LineKind::If(e) | LineKind::ElseIf(e) | LineKind::Wait(e) => line.tag is None
            && line.label is None && printable(e, table),
        LineKind::Assign(var, e) => line.tag is None && line.label is None && var.0 < table.len()
            && is_name(table[var.0 as int]) && printable(e, table),
        LineKind::Host(name, words) => line.tag is None && line.label is None && name.0
            < table.len() && is_word(table[name.0 as int]) && !is_keyword(table[name.0 as int])
            && printable_words(words, table),
        LineKind::Choice(text, target) => line.tag is None && line.label is None && text.0
            < table.len() && target.0 < table.len() && is_phrase(table[text.0 as int])
            && no_bar(table[text.0 as int]) && is_phrase(table[target.0 as int]),
        LineKind::Text(_) => printable_text(line, table),
        LineKind::Shortcut(_, _) => printable_shortcut(line, table),
    }
}

/// Whether every key of a list is a key of the table and stands for a word.
pub open spec fn printable_words(list: KeyList, table: Seq<Seq<char>>) -> bool
    decreases list,
{
    match list {
        KeyList::Nil => true,
        KeyList::Cons(k, rest) => k.0 < table.len() && is_word(table[k.0 as int])
            && printable_words(*rest, table),
    }
}

/// The lexer reads a printed list of words as one `Word` for each, and the
/// parser interns them back to the list. The result is the number of
/// tokens given when the end of the list is reached.
pub proof fn lemma_words(
    list: KeyList,
    table: Seq<Seq<char>>,
    s: Seq<char>,
    toks: Seq<Token>,
    p: int,
    i: int,
) -> (n: int)
    requires
        distinct(table),
        printable_words(list, table),
        lexed_to(s, toks, p, false, i),
        p + words_text(list, table).len() < s.len(),
        s.subrange(p, p + words_text(list, table).len()) == words_text(list, table),
        breaks_word(s, p + words_text(list, table).len()),
        s[p + words_text(list, table).len()] != ':',
    ensures
        i <= n < toks.len(),
        n == i + list.len(),
        lexed_to(s, toks, p + words_text(list, table).len(), false, n),
        forall|j: int|
            i <= j < n ==> (#[trigger] toks[j]).kind == TokenKind::Word && p <= toks[j].start
                < toks[j].end <= p + words_text(list, table).len(),
        parse_words(s, toks, i, n, table) == parsed(table, list, n),
    decreases list,
{
    match list {
        KeyList::Nil => {
            lemma_lexed_more(s, toks, p, false, i);
            i
        },
        KeyList::Cons(k, rest) => {
            let w = table[k.0 as int];
            let r = words_text(*rest, table);
            reveal_strlit(" ");
            assert(" "@.len() == 1);
            assert(words_text(list, table) == (" "@ + w) + r);
            lemma_split(s, p, " "@ + w, r);
            lemma_split(s, p, " "@, w);
            lemma_at(s, p, " "@, 0);
            assert(" "@[0] == ' ');
            lemma_lex_step(s, toks, p, false, i);
            let q = p + 1 + w.len();
            assert(breaks_word(s, q) && s[q] != ':') by {
                match *rest {
                    KeyList::Nil => {},
                    KeyList::Cons(k2, rest2) => {
                        assert(printable_words(*rest, table));
                        assert(k2.0 < table.len());
                        let w2 = table[k2.0 as int];
                        let r2 = words_text(*rest2, table);
                        assert(text_of(table, k2) == w2);
                        assert(r == (" "@ + w2) + r2);
                        lemma_split(s, q, " "@ + w2, r2);
                        lemma_split(s, q, " "@, w2);
                        lemma_at(s, q, " "@, 0);
                    },
                }
            }
            lemma_lex_word(s, toks, p + 1, w, false, i);
            let n = lemma_words(*rest, table, s, toks, q, i + 1);
            lemma_key_again(table, k);
            assert(parse_words(s, toks, i + 1, n, table) == parsed(table, *rest, n));
            n
        },
    }
}

/// The lexer reads `<<`, a name, tame text and `>>` as a command: the
/// opening token, the name as one word, words, and the closing token. The
/// result is the place of the closing token.
pub proof fn lemma_lex_command(
    s: Seq<char>,
    toks: Seq<Token>,
    p: int,
    lead: bool,
    a: int,
    name: Seq<char>,
    close: int,
) -> (h: int)
    requires
        lexed_to(s, toks, p, lead, a),
        0 <= p,
        p + 2 + name.len() <= close,
        close + 2 <= s.len(),
        pair_at(s, p, '<', '<'),
        s.subrange(p + 2, p + 2 + name.len()) == name,
        is_word(name),
        tame(s, p + 2 + name.len(), close),
        p + 2 + name.len() == close || is_blank(s[p + 2 + name.len()]),
        pair_at(s, close, '>', '>'),
    ensures
        a + 1 < h < toks.len(),
        toks[a] == (Token { kind: TokenKind::CmdStart, start: p as usize, end: (p + 2) as usize }),
        toks[a + 1] == (Token {
            kind: TokenKind::Word,
            start: (p + 2) as usize,
            end: (p + 2 + name.len()) as usize,
        }),
        toks[h] == (Token {
            kind: TokenKind::CmdEnd,
            start: close as usize,
            end: (close + 2) as usize,
        }),
        forall|j: int|
            a + 2 <= j < h ==> is_wordy(#[trigger] toks[j]) && p + 2 + name.len() <= toks[j].start
                < toks[j].end <= close,
        close > p + 2 + name.len() && !is_blank(s[close - 1]) ==> a + 2 < h && toks[h - 1].end
            == close,
        lexed_to(s, toks, close + 2, false, h + 1),
{
    lemma_lex_step(s, toks, p, lead, a);
    let ne = p + 2 + name.len();
    assert(breaks_word(s, ne)) by {
        if ne < close {
        } else {
            assert(pair_at(s, ne, '>', '>'));
        }
    }
    lemma_lex_word(s, toks, p + 2, name, false, a + 1);
    assert(breaks_word(s, close));
    let h = lemma_lex_tame(s, toks, ne, close, false, a + 2);
    lemma_lex_step(s, toks, close, false, h);
    h
}

/// The eight names of the engine's own commands differ from each other.
pub proof fn lemma_keywords_differ()
    ensures
        "set"@ != "if"@,
        "set"@ != "elseif"@,
        "set"@ != "else"@,
        "set"@ != "endif"@,
        "set"@ != "stop"@,
        "set"@ != "jump"@,
        "set"@ != "wait"@,
        "if"@ != "elseif"@,
        "if"@ != "else"@,
        "if"@ != "endif"@,
        "if"@ != "stop"@,
        "if"@ != "jump"@,
        "if"@ != "wait"@,
        "elseif"@ != "else"@,
        "elseif"@ != "endif"@,
        "elseif"@ != "stop"@,
        "elseif"@ != "jump"@,
        "elseif"@ != "wait"@,
        "else"@ != "endif"@,
        "else"@ != "stop"@,
        "else"@ != "jump"@,
        "else"@ != "wait"@,
        "endif"@ != "stop"@,
        "endif"@ != "jump"@,
        "endif"@ != "wait"@,
        "stop"@ != "jump"@,
        "stop"@ != "wait"@,
        "jump"@ != "wait"@,
        is_word("set"@),
        is_word("if"@),
        is_word("elseif"@),
        is_word("else"@),
        is_word("endif"@),
        is_word("stop"@),
        is_word("jump"@),
        is_word("wait"@),
{
    reveal_strlit("set");
    reveal_strlit("if");
    reveal_strlit("elseif");
    reveal_strlit("else");
    reveal_strlit("endif");
    reveal_strlit("stop");
    reveal_strlit("jump");
    reveal_strlit("wait");
    assert("set"@.len() == 3);
    assert("if"@.len() == 2);
    assert("elseif"@.len() == 6);
    assert("else"@.len() == 4);
    assert("endif"@.len() == 5);
    assert("stop"@.len() == 4);
    assert("jump"@.len() == 4);
    assert("wait"@.len() == 4);
    assert("stop"@[0] != "jump"@[0]);
    assert("stop"@[0] != "wait"@[0]);
    assert("stop"@[0] != "else"@[0]);
    assert("jump"@[0] != "wait"@[0]);
    assert("else"@[0] != "jump"@[0]);
    assert("else"@[0] != "wait"@[0]);
}

/// The line that starts at token `i` is a command where its first token
/// behind the indentation opens one and its last closes it, and the line
/// is what the command is.
pub proof fn lemma_line_is_command(
    s: Seq<char>,
    toks: Seq<Token>,
    i: int,
    a: int,
    e: int,
    table: Seq<Seq<char>>,
    kind: LineKind,
    at: int,
)
    requires
        0 <= i <= a,
        a + 1 < e < toks.len(),
        a - i <= usize::MAX,
        indent_stop(toks, i) == a,
        line_stop(toks, a) == e,
        toks[e].kind == TokenKind::LineEnd,
        !starts_with(s, toks, i, a, '\t'),
        find_kind(toks, a, e, TokenKind::Error) == e,
        toks[a].kind == TokenKind::CmdStart,
        toks[e - 1].kind == TokenKind::CmdEnd,
        parse_command(s, toks, a, e - 1, table) == parsed(table, kind, at),
    ensures
        parse_line(s, toks, i, table) == built(
            table,
            Item::Line(NodeLine { label: None, indent: (a - i) as usize, tag: None, kind }),
            e + 1,
        ),
{
}

/// A command without arguments, from the tokens of its line.
pub proof fn lemma_parse_bare(
    s: Seq<char>,
    toks: Seq<Token>,
    a: int,
    table: Seq<Seq<char>>,
    name: Seq<char>,
)
    requires
        0 <= a,
        a + 2 < toks.len(),
        toks[a + 1].start <= toks[a + 1].end == toks[a + 2].start <= s.len(),
        s.subrange(toks[a + 1].start as int, toks[a + 1].end as int) == name,
        name == "else"@ || name == "endif"@ || name == "stop"@ || name == "wait"@,
    ensures
        parse_command(s, toks, a, a + 2, table) == parsed(
            table,
            if name == "else"@ {
                LineKind::Else
            } else if name == "endif"@ {
                LineKind::EndIf
            } else if name == "stop"@ {
                LineKind::Stop
            } else {
                LineKind::WaitInput
            },
            toks[a + 2].start as int,
        ),
{
    lemma_keywords_differ();
    let hi = toks[a + 2].start as int;
    lemma_span_run(s, hi, hi, hi, CharClass::Blank);
}

/// The characters of a printed command without arguments.
pub proof fn lemma_bare_text(line: NodeLine, table: Seq<Seq<char>>)
    requires
        line.kind is Else || line.kind is EndIf || line.kind is Stop || line.kind is WaitInput,
    ensures
        ({
            let k = kind_text(line, table);
            let name = k.subrange(2, k.len() - 2);
            &&& k.len() >= 8
            &&& k[0] == '<' && k[1] == '<' && k[k.len() - 2] == '>' && k[k.len() - 1] == '>'
            &&& line.kind is Else ==> name == "else"@
            &&& line.kind is EndIf ==> name == "endif"@
            &&& line.kind is Stop ==> name == "stop"@
            &&& line.kind is WaitInput ==> name == "wait"@
        }),
{
    reveal_strlit("<<else>>");
    reveal_strlit("<<endif>>");
    reveal_strlit("<<stop>>");
    reveal_strlit("<<wait>>");
    reveal_strlit("else");
    reveal_strlit("endif");
    reveal_strlit("stop");
    reveal_strlit("wait");
    let k = kind_text(line, table);
    let name = k.subrange(2, k.len() - 2);
    if line.kind is Else {
        assert(name =~= "else"@);
    } else if line.kind is EndIf {
        assert(name =~= "endif"@);
    } else if line.kind is Stop {
        assert(name =~= "stop"@);
    } else {
        assert(name =~= "wait"@);
    }
}

/// A printed command without arguments, from the first token behind the
/// indentation: the tokens up to the line feed, and what the parser makes
/// of the line. The result is the place of the line feed among the tokens.
#[verifier::rlimit(50)]
pub proof fn lemma_kind_bare(
    line: NodeLine,
    table: Seq<Seq<char>>,
    s: Seq<char>,
    toks: Seq<Token>,
    p: int,
    a: int,
) -> (e: int)
    requires
        line.kind is Else || line.kind is EndIf || line.kind is Stop || line.kind is WaitInput,
        lexed_to(s, toks, p, true, a),
        p + kind_text(line, table).len() < s.len(),
        s.subrange(p, p + kind_text(line, table).len()) == kind_text(line, table),
        s[p + kind_text(line, table).len()] == '\n',
    ensures
        e == a + 3,
        e < toks.len(),
        lexed_to(s, toks, p + kind_text(line, table).len() + 1, true, e + 1),
        toks[a].kind == TokenKind::CmdStart,
        toks[e - 1].kind == TokenKind::CmdEnd,
        toks[e].kind == TokenKind::LineEnd,
        line_stop(toks, a) == e,
        find_kind(toks, a, e, TokenKind::Error) == e,
        parse_command(s, toks, a, e - 1, table) == parsed(
            table,
            line.kind,
            p + kind_text(line, table).len() - 2,
        ),
{
    let k = kind_text(line, table);
    let end = p + k.len();
    lemma_bare_text(line, table);
    lemma_keywords_differ();
    let name = k.subrange(2, k.len() - 2);
    lemma_at(s, p, k, 0);
    lemma_at(s, p, k, 1);
    lemma_at(s, p, k, k.len() - 2);
    lemma_at(s, p, k, k.len() - 1);
    assert(s.subrange(p + 2, p + 2 + name.len()) =~= name) by {
        assert forall|j: int| 0 <= j < name.len() implies s[p + 2 + j] == #[trigger] name[j] by {
            lemma_at(s, p, k, j + 2);
        }
    }
    assert(tame(s, end - 2, end - 2));
    let h = lemma_lex_command(s, toks, p, true, a, name, end - 2);
    lemma_lex_line_end(s, toks, end, false, a + 3);
    lemma_line_stop(toks, a, a + 3);
    lemma_find_none(toks, a, a + 3, TokenKind::Error);
    lemma_parse_bare(s, toks, a, table, name);
    a + 3
}

/// The target of a jump, from the characters of the command.
pub proof fn lemma_parse_jump(
    s: Seq<char>,
    ne: int,
    hi: int,
    table: Seq<Seq<char>>,
    target: NodeLabel,
)
    requires
        distinct(table),
        target.0 < table.len(),
        is_phrase(table[target.0 as int]),
        0 <= ne,
        ne + 1 + table[target.0 as int].len() == hi,
        hi <= s.len(),
        s[ne] == ' ',
        s.subrange(ne + 1, hi) == table[target.0 as int],
    ensures
        parse_jump(s, ne, hi, table) == parsed(table, LineKind::Jump(target), hi),
{
    let t = table[target.0 as int];
    lemma_at(s, ne + 1, t, 0);
    lemma_at(s, ne + 1, t, t.len() - 1);
    assert forall|j: int| ne <= j < ne + 1 implies in_class(CharClass::Blank, #[trigger] s[j]) by {}
    lemma_span_run(s, ne, ne + 1, hi, CharClass::Blank);
    lemma_trim_none(s, ne + 1, hi);
    lemma_key_again(table, target);
}

/// The characters of a printed jump.
pub proof fn lemma_jump_text(s: Seq<char>, p: int, t: Seq<char>)
    requires
        0 <= p,
        p + 9 + t.len() <= s.len(),
        s.subrange(p, p + 9 + t.len()) == ("<<jump "@ + t) + ">>"@,
    ensures
        pair_at(s, p, '<', '<'),
        s.subrange(p + 2, p + 6) == "jump"@,
        s[p + 6] == ' ',
        s.subrange(p + 7, p + 7 + t.len()) == t,
        pair_at(s, p + 7 + t.len(), '>', '>'),
{
    reveal_strlit("<<jump ");
    reveal_strlit(">>");
    reveal_strlit("jump");
    let lit = "<<jump "@;
    assert(lit.len() == 7);
    assert(">>"@.len() == 2);
    lemma_split(s, p, lit + t, ">>"@);
    lemma_split(s, p, lit, t);
    lemma_at(s, p, lit, 0);
    lemma_at(s, p, lit, 1);
    lemma_at(s, p, lit, 2);
    lemma_at(s, p, lit, 3);
    lemma_at(s, p, lit, 4);
    lemma_at(s, p, lit, 5);
    lemma_at(s, p, lit, 6);
    assert(lit[0] == '<' && lit[1] == '<' && lit[2] == 'j' && lit[3] == 'u' && lit[4] == 'm'
        && lit[5] == 'p' && lit[6] == ' ');
    lemma_at(s, p + 7 + t.len(), ">>"@, 0);
    lemma_at(s, p + 7 + t.len(), ">>"@, 1);
    assert(">>"@[0] == '>' && ">>"@[1] == '>');
    assert("jump"@.len() == 4);
    assert("jump"@[0] == 'j' && "jump"@[1] == 'u' && "jump"@[2] == 'm' && "jump"@[3] == 'p');
    assert(s.subrange(p + 2, p + 6) =~= "jump"@);
}

/// A printed jump, from the first token behind the indentation.
pub proof fn lemma_kind_jump(
    line: NodeLine,
    table: Seq<Seq<char>>,
    s: Seq<char>,
    toks: Seq<Token>,
    p: int,
    a: int,
) -> (e: int)
    requires
        distinct(table),
        line.kind is Jump,
        printable_line(line, table),
        lexed_to(s, toks, p, true, a),
        p + kind_text(line, table).len() < s.len(),
        s.subrange(p, p + kind_text(line, table).len()) == kind_text(line, table),
        s[p + kind_text(line, table).len()] == '\n',
    ensures
        a + 1 < e < toks.len(),
        lexed_to(s, toks, p + kind_text(line, table).len() + 1, true, e + 1),
        toks[a].kind == TokenKind::CmdStart,
        toks[e - 1].kind == TokenKind::CmdEnd,
        toks[e].kind == TokenKind::LineEnd,
        line_stop(toks, a) == e,
        find_kind(toks, a, e, TokenKind::Error) == e,
        parse_command(s, toks, a, e - 1, table) == parsed(
            table,
            line.kind,
            p + kind_text(line, table).len() - 2,
        ),
{
    let target = line.kind->Jump_0;
    let t = table[target.0 as int];
    let k = kind_text(line, table);
    let end = p + k.len();
    reveal_strlit("<<jump ");
    reveal_strlit(">>");
    assert(k == ("<<jump "@ + t) + ">>"@);
    lemma_jump_text(s, p, t);
    lemma_keywords_differ();
    let ne = p + 6;
    let close = end - 2;
    lemma_steady_is_tame(s, p + 7, t);
    assert(plain_at(s, ne));
    lemma_tame_plain(s, ne, ne + 1);
    lemma_tame_join(s, ne, ne + 1, close);
    lemma_at(s, p + 7, t, t.len() - 1);
    let h = lemma_lex_command(s, toks, p, true, a, "jump"@, close);
    lemma_lex_line_end(s, toks, end, false, h + 1);
    lemma_line_stop(toks, a, h + 1);
    lemma_find_none(toks, a, h + 1, TokenKind::Error);
    lemma_parse_jump(s, ne, close, table, target);
    h + 1
}

/// The key of the label of a line, or the first key where it has none.
pub open spec fn label_key(line: NodeLine) -> NodeLabel {
    match line.label {
        Some(k) => k,
        None => NodeLabel { 0: 0 },
    }
}

/// The line that starts at token `i` is a label where a label is its only
/// token behind the indentation.
pub proof fn lemma_line_is_label(
    s: Seq<char>,
    toks: Seq<Token>,
    i: int,
    a: int,
    table: Seq<Seq<char>>,
    key: NodeLabel,
)
    requires
        distinct(table),
        0 <= i <= a,
        a + 1 < toks.len(),
        a - i <= usize::MAX,
        indent_stop(toks, i) == a,
        line_stop(toks, a) == a + 1,
        toks[a + 1].kind == TokenKind::LineEnd,
        !starts_with(s, toks, i, a, '\t'),
        find_kind(toks, a, a + 1, TokenKind::Error) == a + 1,
        toks[a].kind == TokenKind::Label,
        toks[a].start < toks[a].end <= s.len(),
        key.0 < table.len(),
        s.subrange(toks[a].start as int, toks[a].end - 1) == table[key.0 as int],
    ensures
        parse_line(s, toks, i, table) == built(
            table,
            Item::Line(
                NodeLine {
                    label: Some(key),
                    indent: (a - i) as usize,
                    tag: None,
                    kind: LineKind::Label,
                },
            ),
            a + 2,
        ),
{
    lemma_key_again(table, key);
}

/// A printed label, from the first token behind the indentation.
pub proof fn lemma_kind_label(
    line: NodeLine,
    table: Seq<Seq<char>>,
    s: Seq<char>,
    toks: Seq<Token>,
    p: int,
    a: int,
) -> (e: int)
    requires
        line.kind is Label,
        printable_line(line, table),
        lexed_to(s, toks, p, true, a),
        p + kind_text(line, table).len() < s.len(),
        s.subrange(p, p + kind_text(line, table).len()) == kind_text(line, table),
        s[p + kind_text(line, table).len()] == '\n',
    ensures
        e == a + 1,
        e < toks.len(),
        lexed_to(s, toks, p + kind_text(line, table).len() + 1, true, e + 1),
        toks[a].kind == TokenKind::Label,
        toks[a].start == p,
        toks[a].end == p + kind_text(line, table).len(),
        toks[e].kind == TokenKind::LineEnd,
        line_stop(toks, a) == e,
        find_kind(toks, a, e, TokenKind::Error) == e,
        s.subrange(p, p + kind_text(line, table).len() - 1) == table[label_key(line).0 as int],
{
    let k = kind_text(line, table);
    let end = p + k.len();
    let key = line.label->0;
    let name = table[key.0 as int];
    reveal_strlit(":");
    assert(":"@.len() == 1);
    lemma_split(s, p, name, ":"@);
    lemma_at(s, p + name.len(), ":"@, 0);
    assert forall|j: int| p <= j < p + name.len() implies in_class(
        CharClass::Ident,
        #[trigger] s[j],
    ) by {
        lemma_at(s, p, name, j - p);
    }
    crate::round_trip::expr::lemma_scan_run(s, p, p + name.len(), CharClass::Ident);
    lemma_at(s, p, name, 0);
    lemma_lex_label(s, toks, p, p + name.len(), a);
    lemma_lex_line_end(s, toks, end, false, a + 1);
    lemma_line_stop(toks, a, a + 1);
    lemma_find_none(toks, a, a + 1, TokenKind::Error);
    a + 1
}

/// A run of identifier characters with a colon behind it, where a lexeme
/// starts, is read as a `Label`.
pub proof fn lemma_lex_label(s: Seq<char>, toks: Seq<Token>, p: int, colon: int, a: int)
    requires
        lexed_to(s, toks, p, true, a),
        0 <= p < colon < s.len(),
        is_ident(s[p]),
        scan_end(s, p, CharClass::Ident) == colon,
        s[colon] == ':',
    ensures
        a < toks.len(),
        toks[a] == (Token {
            kind: TokenKind::Label,
            start: p as usize,
            end: (colon + 1) as usize,
        }),
        lexed_to(s, toks, colon + 1, false, a + 1),
{
    lemma_lex_step(s, toks, p, true, a);
}

/// Text that ends with no blank has nothing to trim.
pub proof fn lemma_trim_none(s: Seq<char>, lo: int, hi: int)
    requires
        0 <= lo < hi <= s.len(),
        !is_blank(s[hi - 1]),
    ensures
        trim_end(s, lo, hi) == hi,
{
}

/// An expression that stands behind one blank up to `hi` parses back.
pub proof fn lemma_parse_expr_behind_blank(
    e: Expr,
    table: Seq<Seq<char>>,
    s: Seq<char>,
    from: int,
    hi: int,
)
    requires
        distinct(table),
        printable(e, table),
        0 <= from,
        from + 1 + expr_text(e, table).len() == hi,
        hi <= s.len(),
        s[from] == ' ',
        s.subrange(from + 1, hi) == expr_text(e, table),
    ensures
        parse_expr(s, from, hi, table) == parsed(table, e, hi),
        span_end(s, from, hi, CharClass::Blank) == from + 1,
        from + 1 < hi,
{
    lemma_first_char(e, table);
    lemma_at(s, from + 1, expr_text(e, table), 0);
    assert forall|j: int| from <= j < from + 1 implies is_blank(#[trigger] s[j]) by {}
    assert forall|j: int| from <= j < from + 1 implies in_class(CharClass::Blank, #[trigger] s[j]) by {}
    lemma_span_run(s, from, from + 1, hi, CharClass::Blank);
    lemma_quiet_close(s, hi, hi);
    lemma_level(e, 0, table, s, from, from + 1, hi);
}

/// A blank and a printed expression behind it are tame.
pub proof fn lemma_tame_behind_blank(e: Expr, table: Seq<Seq<char>>, s: Seq<char>, from: int)
    requires
        printable(e, table),
        0 <= from,
        from + 1 + expr_text(e, table).len() <= s.len(),
        s[from] == ' ',
        s.subrange(from + 1, from + 1 + expr_text(e, table).len()) == expr_text(e, table),
    ensures
        tame(s, from, from + 1 + expr_text(e, table).len()),
        !is_blank(s[from + expr_text(e, table).len()]),
        expr_text(e, table).len() > 0,
{
    lemma_tame_expr(e, table, s, from + 1);
    assert(plain_at(s, from));
    lemma_tame_plain(s, from, from + 1);
    lemma_tame_join(s, from, from + 1, from + 1 + expr_text(e, table).len());
}

/// The characters of a printed command with one expression: `<<`, the
/// name, a blank, the expression, `>>`.
pub proof fn lemma_expr_command_text(
    s: Seq<char>,
    p: int,
    lit: Seq<char>,
    name: Seq<char>,
    t: Seq<char>,
)
    requires
        0 <= p,
        lit == ("<<"@ + name) + " "@,
        p + lit.len() + t.len() + 2 <= s.len(),
        s.subrange(p, p + lit.len() + t.len() + 2) == (lit + t) + ">>"@,
    ensures
        lit.len() == name.len() + 3,
        pair_at(s, p, '<', '<'),
        s.subrange(p + 2, p + 2 + name.len()) == name,
        s[p + 2 + name.len()] == ' ',
        s.subrange(p + lit.len(), p + lit.len() + t.len()) == t,
        pair_at(s, p + lit.len() + t.len(), '>', '>'),
{
    reveal_strlit("<<");
    reveal_strlit(">>");
    reveal_strlit(" ");
    assert("<<"@.len() == 2 && ">>"@.len() == 2 && " "@.len() == 1);
    assert("<<"@[0] == '<' && "<<"@[1] == '<' && ">>"@[0] == '>' && ">>"@[1] == '>' && " "@[0]
        == ' ');
    lemma_split(s, p, lit + t, ">>"@);
    lemma_split(s, p, lit, t);
    lemma_split(s, p, "<<"@ + name, " "@);
    lemma_split(s, p, "<<"@, name);
    lemma_at(s, p, "<<"@, 0);
    lemma_at(s, p, "<<"@, 1);
    lemma_at(s, p + 2 + name.len(), " "@, 0);
    lemma_at(s, p + lit.len() + t.len(), ">>"@, 0);
    lemma_at(s, p + lit.len() + t.len(), ">>"@, 1);
}

/// The lexer's and the parser's common part for a printed command: the
/// tokens up to the line feed. The result is the place of the line feed
/// among the tokens.
pub proof fn lemma_lex_command_line(
    s: Seq<char>,
    toks: Seq<Token>,
    p: int,
    a: int,
    name: Seq<char>,
    close: int,
) -> (e: int)
    requires
        lexed_to(s, toks, p, true, a),
        0 <= p,
        p + 2 + name.len() <= close,
        close + 2 < s.len(),
        pair_at(s, p, '<', '<'),
        s.subrange(p + 2, p + 2 + name.len()) == name,
        is_word(name),
        tame(s, p + 2 + name.len(), close),
        p + 2 + name.len() == close || is_blank(s[p + 2 + name.len()]),
        pair_at(s, close, '>', '>'),
        s[close + 2] == '\n',
    ensures
        a + 2 < e,
        e + 1 < toks.len(),
        lexed_to(s, toks, close + 3, true, e + 1),
        toks[a].kind == TokenKind::CmdStart,
        toks[a + 1] == (Token {
            kind: TokenKind::Word,
            start: (p + 2) as usize,
            end: (p + 2 + name.len()) as usize,
        }),
        toks[e - 1] == (Token {
            kind: TokenKind::CmdEnd,
            start: close as usize,
            end: (close + 2) as usize,
        }),
        toks[e].kind == TokenKind::LineEnd,
        line_stop(toks, a) == e,
        find_kind(toks, a, e, TokenKind::Error) == e,
{
    let h = lemma_lex_command(s, toks, p, true, a, name, close);
    lemma_lex_line_end(s, toks, close + 2, false, h + 1);
    lemma_lexed_more(s, toks, close + 3, true, h + 2);
    lemma_line_stop(toks, a, h + 1);
    lemma_find_none(toks, a, h + 1, TokenKind::Error);
    h + 1
}

/// A printed `if`, `elseif` or `wait` with its expression, from the first
/// token behind the indentation.
pub proof fn lemma_kind_expr_command(
    line: NodeLine,
    table: Seq<Seq<char>>,
    s: Seq<char>,
    toks: Seq<Token>,
    p: int,
    a: int,
) -> (e: int)
    requires
        distinct(table),
        line.kind is If || line.kind is ElseIf || line.kind is Wait,
        printable_line(line, table),
        lexed_to(s, toks, p, true, a),
        p + kind_text(line, table).len() < s.len(),
        s.subrange(p, p + kind_text(line, table).len()) == kind_text(line, table),
        s[p + kind_text(line, table).len()] == '\n',
    ensures
        a + 1 < e,
        e + 1 < toks.len(),
        lexed_to(s, toks, p + kind_text(line, table).len() + 1, true, e + 1),
        toks[a].kind == TokenKind::CmdStart,
        toks[e - 1].kind == TokenKind::CmdEnd,
        toks[e].kind == TokenKind::LineEnd,
        line_stop(toks, a) == e,
        find_kind(toks, a, e, TokenKind::Error) == e,
        parse_command(s, toks, a, e - 1, table) == parsed(
            table,
            line.kind,
            p + kind_text(line, table).len() - 2,
        ),
{
    let expr = match line.kind {
        LineKind::If(e) => e,
        LineKind::ElseIf(e) => e,
        LineKind::Wait(e) => e,
        _ => Expr::Number(0),
    };
    let name = match line.kind {
        LineKind::If(_) => "if"@,
        LineKind::ElseIf(_) => "elseif"@,
        _ => "wait"@,
    };
    let lit = match line.kind {
        LineKind::If(_) => "<<if "@,
        LineKind::ElseIf(_) => "<<elseif "@,
        _ => "<<wait "@,
    };
    let t = expr_text(expr, table);
    let k = kind_text(line, table);
    reveal_strlit("<<if ");
    reveal_strlit("<<elseif ");
    reveal_strlit("<<wait ");
    reveal_strlit("<<");
    reveal_strlit(" ");
    reveal_strlit(">>");
    reveal_strlit("if");
    reveal_strlit("elseif");
    reveal_strlit("wait");
    assert(">>"@.len() == 2);
    assert(lit =~= ("<<"@ + name) + " "@);
    assert(k == (lit + t) + ">>"@);
    lemma_expr_command_text(s, p, lit, name, t);
    lemma_keywords_differ();
    let ne = p + 2 + name.len();
    let close = p + lit.len() + t.len();
    lemma_tame_behind_blank(expr, table, s, ne);
    let e = lemma_lex_command_line(s, toks, p, a, name, close);
    lemma_parse_expr_behind_blank(expr, table, s, ne, close);
    e
}

/// The characters of a printed assignment, behind `<<set`.
pub proof fn lemma_assign_text(
    s: Seq<char>,
    p: int,
    var: Seq<char>,
    t: Seq<char>,
)
    requires
        0 <= p,
        p + 12 + var.len() + t.len() <= s.len(),
        s.subrange(p, p + 12 + var.len() + t.len()) == ((("<<set $"@ + var) + " = "@) + t)
            + ">>"@,
    ensures
        pair_at(s, p, '<', '<'),
        s.subrange(p + 2, p + 5) == "set"@,
        s[p + 5] == ' ',
        s[p + 6] == '$',
        s.subrange(p + 7, p + 7 + var.len()) == var,
        s[p + 7 + var.len()] == ' ',
        s[p + 8 + var.len()] == '=',
        s[p + 9 + var.len()] == ' ',
        s.subrange(p + 10 + var.len(), p + 10 + var.len() + t.len()) == t,
        pair_at(s, p + 10 + var.len() + t.len(), '>', '>'),
{
    let lit = "<<set $"@;
    reveal_strlit("<<set $");
    reveal_strlit(" = ");
    reveal_strlit(">>");
    reveal_strlit("set");
    assert(lit.len() == 7 && " = "@.len() == 3 && ">>"@.len() == 2 && "set"@.len() == 3);
    lemma_split(s, p, ((lit + var) + " = "@) + t, ">>"@);
    lemma_split(s, p, (lit + var) + " = "@, t);
    lemma_split(s, p, lit + var, " = "@);
    lemma_split(s, p, lit, var);
    lemma_at(s, p, lit, 0);
    lemma_at(s, p, lit, 1);
    lemma_at(s, p, lit, 2);
    lemma_at(s, p, lit, 3);
    lemma_at(s, p, lit, 4);
    lemma_at(s, p, lit, 5);
    lemma_at(s, p, lit, 6);
    assert(lit[0] == '<' && lit[1] == '<' && lit[2] == 's' && lit[3] == 'e' && lit[4] == 't'
        && lit[5] == ' ' && lit[6] == '$');
    assert("set"@[0] == 's' && "set"@[1] == 'e' && "set"@[2] == 't');
    assert(s.subrange(p + 2, p + 5) =~= "set"@);
    let q = p + 7 + var.len();
    lemma_at(s, q, " = "@, 0);
    lemma_at(s, q, " = "@, 1);
    lemma_at(s, q, " = "@, 2);
    assert(" = "@[0] == ' ' && " = "@[1] == '=' && " = "@[2] == ' ');
    lemma_at(s, q + 3 + t.len(), ">>"@, 0);
    lemma_at(s, q + 3 + t.len(), ">>"@, 1);
    assert(">>"@[0] == '>' && ">>"@[1] == '>');
}

/// An assignment, from the characters of the command.
pub proof fn lemma_parse_assign(
    var: NodeLabel,
    e: Expr,
    table: Seq<Seq<char>>,
    s: Seq<char>,
    ne: int,
    hi: int,
)
    requires
        distinct(table),
        var.0 < table.len(),
        is_name(table[var.0 as int]),
        printable(e, table),
        0 <= ne,
        ne + 5 + table[var.0 as int].len() + expr_text(e, table).len() == hi,
        hi <= s.len(),
        s[ne] == ' ',
        s[ne + 1] == '$',
        s.subrange(ne + 2, ne + 2 + table[var.0 as int].len()) == table[var.0 as int],
        s[ne + 2 + table[var.0 as int].len()] == ' ',
        s[ne + 3 + table[var.0 as int].len()] == '=',
        s[ne + 4 + table[var.0 as int].len()] == ' ',
        s.subrange(ne + 5 + table[var.0 as int].len(), hi) == expr_text(e, table),
    ensures
        parse_assign(s, ne, hi, table) == parsed(table, LineKind::Assign(var, e), hi),
        tame(s, ne, hi),
        !is_blank(s[hi - 1]),
{
    let name = table[var.0 as int];
    let v = ne + 2 + name.len();
    assert forall|j: int| ne <= j < ne + 1 implies in_class(CharClass::Blank, #[trigger] s[j]) by {}
    lemma_span_run(s, ne, ne + 1, hi, CharClass::Blank);
    assert forall|j: int| ne + 2 <= j < v implies in_class(CharClass::Ident, #[trigger] s[j]) by {
        lemma_at(s, ne + 2, name, j - ne - 2);
    }
    lemma_span_run(s, ne + 2, v, hi, CharClass::Ident);
    assert forall|j: int| v <= j < v + 1 implies in_class(CharClass::Blank, #[trigger] s[j]) by {}
    lemma_span_run(s, v, v + 1, hi, CharClass::Blank);
    lemma_key_again(table, var);
    lemma_parse_expr_behind_blank(e, table, s, v + 2, hi);
    lemma_tame_behind_blank(e, table, s, v + 2);
    assert forall|j: int| ne <= j < v + 2 implies plain_at(s, j) && #[trigger] s[j] != '"' by {
        if ne + 2 <= j < v {
            lemma_at(s, ne + 2, name, j - ne - 2);
            crate::round_trip::lexing::lemma_ident_is_plain(s, j);
        }
    }
    lemma_tame_plain(s, ne, v + 2);
    lemma_tame_join(s, ne, v + 2, hi);
}

/// A printed assignment, from the first token behind the indentation.
pub proof fn lemma_kind_assign(
    line: NodeLine,
    table: Seq<Seq<char>>,
    s: Seq<char>,
    toks: Seq<Token>,
    p: int,
    a: int,
) -> (e: int)
    requires
        distinct(table),
        line.kind is Assign,
        printable_line(line, table),
        lexed_to(s, toks, p, true, a),
        p + kind_text(line, table).len() < s.len(),
        s.subrange(p, p + kind_text(line, table).len()) == kind_text(line, table),
        s[p + kind_text(line, table).len()] == '\n',
    ensures
        a + 1 < e,
        e + 1 < toks.len(),
        lexed_to(s, toks, p + kind_text(line, table).len() + 1, true, e + 1),
        toks[a].kind == TokenKind::CmdStart,
        toks[e - 1].kind == TokenKind::CmdEnd,
        toks[e].kind == TokenKind::LineEnd,
        line_stop(toks, a) == e,
        find_kind(toks, a, e, TokenKind::Error) == e,
        parse_command(s, toks, a, e - 1, table) == parsed(
            table,
            line.kind,
            p + kind_text(line, table).len() - 2,
        ),
{
    let var = line.kind->Assign_0;
    let expr = line.kind->Assign_1;
    let name = table[var.0 as int];
    let t = expr_text(expr, table);
    let k = kind_text(line, table);
    reveal_strlit("<<set $");
    reveal_strlit(" = ");
    reveal_strlit(">>");
    assert("<<set $"@.len() == 7 && " = "@.len() == 3 && ">>"@.len() == 2);
    assert(k == ((("<<set $"@ + name) + " = "@) + t) + ">>"@);
    lemma_assign_text(s, p, name, t);
    lemma_keywords_differ();
    let ne = p + 5;
    let close = p + 10 + name.len() + t.len();
    lemma_parse_assign(var, expr, table, s, ne, close);
    let e = lemma_lex_command_line(s, toks, p, a, "set"@, close);
    e
}

/// A printed host command, from the first token behind the indentation.
pub proof fn lemma_kind_host(
    line: NodeLine,
    table: Seq<Seq<char>>,
    s: Seq<char>,
    toks: Seq<Token>,
    p: int,
    a: int,
) -> (e: int)
    requires
        distinct(table),
        line.kind is Host,
        printable_line(line, table),
        lexed_to(s, toks, p, true, a),
        p + kind_text(line, table).len() < s.len(),
        s.subrange(p, p + kind_text(line, table).len()) == kind_text(line, table),
        s[p + kind_text(line, table).len()] == '\n',
    ensures
        a + 1 < e,
        e + 1 < toks.len(),
        lexed_to(s, toks, p + kind_text(line, table).len() + 1, true, e + 1),
        toks[a].kind == TokenKind::CmdStart,
        toks[e - 1].kind == TokenKind::CmdEnd,
        toks[e].kind == TokenKind::LineEnd,
        line_stop(toks, a) == e,
        find_kind(toks, a, e, TokenKind::Error) == e,
        parse_command(s, toks, a, e - 1, table) == parsed(
            table,
            line.kind,
            p + kind_text(line, table).len() - 2,
        ),
{
    let key = line.kind->Host_0;
    let words = line.kind->Host_1;
    let name = table[key.0 as int];
    let w = words_text(words, table);
    let k = kind_text(line, table);
    reveal_strlit("<<");
    reveal_strlit(">>");
    assert("<<"@.len() == 2 && ">>"@.len() == 2);
    assert("<<"@[0] == '<' && "<<"@[1] == '<' && ">>"@[0] == '>' && ">>"@[1] == '>');
    assert(k == (("<<"@ + name) + w) + ">>"@);
    lemma_split(s, p, ("<<"@ + name) + w, ">>"@);
    lemma_split(s, p, "<<"@ + name, w);
    lemma_split(s, p, "<<"@, name);
    lemma_at(s, p, "<<"@, 0);
    lemma_at(s, p, "<<"@, 1);
    let ne = p + 2 + name.len();
    let close = ne + w.len();
    lemma_at(s, close, ">>"@, 0);
    lemma_at(s, close, ">>"@, 1);
    lemma_lex_step(s, toks, p, true, a);
    assert(breaks_word(s, ne) && s[ne] != ':') by {
        match words {
            KeyList::Nil => {},
            KeyList::Cons(k2, rest2) => {
                reveal_strlit(" ");
                assert(" "@.len() == 1 && " "@[0] == ' ');
                let w2 = table[k2.0 as int];
                let r2 = words_text(*rest2, table);
                assert(text_of(table, k2) == w2);
                assert(w == (" "@ + w2) + r2);
                lemma_split(s, ne, " "@ + w2, r2);
                lemma_split(s, ne, " "@, w2);
                lemma_at(s, ne, " "@, 0);
            },
        }
    }
    lemma_lex_word(s, toks, p + 2, name, false, a + 1);
    let h = lemma_words(words, table, s, toks, ne, a + 2);
    lemma_lex_step(s, toks, close, false, h);
    lemma_lex_line_end(s, toks, close + 2, false, h + 1);
    lemma_lexed_more(s, toks, close + 3, true, h + 2);
    lemma_line_stop(toks, a, h + 1);
    lemma_find_none(toks, a, h + 1, TokenKind::Error);
    lemma_key_again(table, key);
    lemma_keywords_differ();
    h + 1
}

/// A character is found at the first place that holds it.
pub proof fn lemma_find_char(s: Seq<char>, lo: int, at: int, hi: int, c: char)
    requires
        0 <= lo <= at < hi <= s.len(),
        forall|j: int| lo <= j < at ==> #[trigger] s[j] != c,
        s[at] == c,
    ensures
        find_char(s, lo, hi, c) == at,
    decreases at - lo,
{
    if lo < at {
        lemma_find_char(s, lo + 1, at, hi, c);
    }
}

/// A choice, from the characters between its brackets.
pub proof fn lemma_parse_choice(
    text: NodeLabel,
    target: NodeLabel,
    table: Seq<Seq<char>>,
    s: Seq<char>,
    toks: Seq<Token>,
    a: int,
    e: int,
)
    requires
        distinct(table),
        text.0 < table.len(),
        target.0 < table.len(),
        is_phrase(table[text.0 as int]),
        no_bar(table[text.0 as int]),
        is_phrase(table[target.0 as int]),
        0 <= a,
        a + 1 < e <= toks.len(),
        toks[e - 1].kind == TokenKind::OptionEnd,
        toks[a].end + table[text.0 as int].len() + 1 + table[target.0 as int].len() == toks[e
            - 1].start,
        toks[e - 1].start <= s.len(),
        s.subrange(toks[a].end as int, toks[a].end + table[text.0 as int].len()) == table[text.0 as int],
        s[toks[a].end + table[text.0 as int].len()] == '|',
        s.subrange(
            toks[a].end + table[text.0 as int].len() + 1,
            toks[e - 1].start as int,
        ) == table[target.0 as int],
    ensures
        parse_choice(s, toks, a, e, table) == parsed(table, LineKind::Choice(text, target), e),
{
    let ta = table[text.0 as int];
    let tb = table[target.0 as int];
    let lo = toks[a].end as int;
    let hi = toks[e - 1].start as int;
    let bar = lo + ta.len();
    assert forall|j: int| lo <= j < bar implies #[trigger] s[j] != '|' by {
        lemma_at(s, lo, ta, j - lo);
        assert(ta[j - lo] != '|');
    }
    lemma_find_char(s, lo, bar, hi, '|');
    lemma_at(s, lo, ta, 0);
    lemma_at(s, lo, ta, ta.len() - 1);
    lemma_at(s, bar + 1, tb, 0);
    lemma_at(s, bar + 1, tb, tb.len() - 1);
    lemma_span_run(s, lo, lo, bar, CharClass::Blank);
    lemma_span_run(s, bar + 1, bar + 1, hi, CharClass::Blank);
    lemma_trim_none(s, lo, bar);
    lemma_trim_none(s, bar + 1, hi);
    lemma_key_again(table, text);
    lemma_key_again(table, target);
    assert(s.subrange(lo, bar) == ta);
}

/// The line that starts at token `i` is a choice where its first token
/// behind the indentation opens one.
pub proof fn lemma_line_is_choice(
    s: Seq<char>,
    toks: Seq<Token>,
    i: int,
    a: int,
    e: int,
    table: Seq<Seq<char>>,
    kind: LineKind,
)
    requires
        0 <= i <= a,
        a + 1 < e < toks.len(),
        a - i <= usize::MAX,
        indent_stop(toks, i) == a,
        line_stop(toks, a) == e,
        toks[e].kind == TokenKind::LineEnd,
        !starts_with(s, toks, i, a, '\t'),
        find_kind(toks, a, e, TokenKind::Error) == e,
        toks[a].kind == TokenKind::OptionStart,
        parse_choice(s, toks, a, e, table) == parsed(table, kind, e),
    ensures
        parse_line(s, toks, i, table) == built(
            table,
            Item::Line(NodeLine { label: None, indent: (a - i) as usize, tag: None, kind }),
            e + 1,
        ),
{
}

/// A printed choice, from the first token behind the indentation.
pub proof fn lemma_kind_choice(
    line: NodeLine,
    table: Seq<Seq<char>>,
    s: Seq<char>,
    toks: Seq<Token>,
    p: int,
    a: int,
) -> (e: int)
    requires
        distinct(table),
        line.kind is Choice,
        printable_line(line, table),
        lexed_to(s, toks, p, true, a),
        p + kind_text(line, table).len() < s.len(),
        s.subrange(p, p + kind_text(line, table).len()) == kind_text(line, table),
        s[p + kind_text(line, table).len()] == '\n',
    ensures
        a + 1 < e,
        e + 1 < toks.len(),
        lexed_to(s, toks, p + kind_text(line, table).len() + 1, true, e + 1),
        toks[a].kind == TokenKind::OptionStart,
        toks[e].kind == TokenKind::LineEnd,
        line_stop(toks, a) == e,
        find_kind(toks, a, e, TokenKind::Error) == e,
        parse_choice(s, toks, a, e, table) == parsed(table, line.kind, e),
{
    let text = line.kind->Choice_0;
    let target = line.kind->Choice_1;
    let ta = table[text.0 as int];
    let tb = table[target.0 as int];
    let k = kind_text(line, table);
    reveal_strlit("[");
    reveal_strlit("|");
    reveal_strlit("]");
    assert("["@.len() == 1 && "|"@.len() == 1 && "]"@.len() == 1);
    assert("["@[0] == '[' && "|"@[0] == '|' && "]"@[0] == ']');
    assert(k == ((("["@ + ta) + "|"@) + tb) + "]"@);
    lemma_split(s, p, (("["@ + ta) + "|"@) + tb, "]"@);
    lemma_split(s, p, ("["@ + ta) + "|"@, tb);
    lemma_split(s, p, "["@ + ta, "|"@);
    lemma_split(s, p, "["@, ta);
    lemma_at(s, p, "["@, 0);
    let bar = p + 1 + ta.len();
    let close = bar + 1 + tb.len();
    lemma_at(s, bar, "|"@, 0);
    lemma_at(s, close, "]"@, 0);
    lemma_lex_step(s, toks, p, true, a);
    lemma_steady_is_tame(s, p + 1, ta);
    lemma_steady_is_tame(s, bar + 1, tb);
    assert(plain_at(s, bar));
    lemma_tame_plain(s, bar, bar + 1);
    lemma_tame_join(s, p + 1, bar, bar + 1);
    lemma_tame_join(s, p + 1, bar + 1, close);
    lemma_at(s, bar + 1, tb, tb.len() - 1);
    let h = lemma_lex_tame(s, toks, p + 1, close, false, a + 1);
    lemma_lex_step(s, toks, close, false, h);
    lemma_lex_line_end(s, toks, close + 1, false, h + 1);
    lemma_lexed_more(s, toks, close + 2, true, h + 2);
    lemma_line_stop(toks, a, h + 1);
    lemma_find_none(toks, a, h + 1, TokenKind::Error);
    lemma_parse_choice(text, target, table, s, toks, a, h + 1);
    h + 1
}

/// What holds behind the indentation of a printed line: the lexer has read
/// one `Indent` for each level and stands at the first character of what
/// stands on the line, at token `a`.
pub open spec fn line_started(
    line: NodeLine,
    table: Seq<Seq<char>>,
    s: Seq<char>,
    toks: Seq<Token>,
    i: int,
    p: int,
    a: int,
) -> bool {
    let k = kind_text(line, table);
    &&& 0 <= i <= a
    &&& a - i == line.indent
    &&& lexed_to(s, toks, p, true, a)
    &&& p + k.len() < s.len()
    &&& s.subrange(p, p + k.len()) == k
    &&& s[p + k.len()] == '\n'
    &&& forall|j: int| i <= j < a ==> (#[trigger] toks[j]).kind == TokenKind::Indent
    &&& !starts_with(s, toks, i, a, '\t')
}

/// The lexer reads the indentation of a printed line.
pub proof fn lemma_line_start(
    line: NodeLine,
    table: Seq<Seq<char>>,
    s: Seq<char>,
    toks: Seq<Token>,
    p: int,
    i: int,
)
    requires
        lexed_to(s, toks, p, true, i),
        p + line_text(line, table).len() <= s.len(),
        s.subrange(p, p + line_text(line, table).len()) == line_text(line, table),
    ensures
        line_text(line, table).len() == 4 * line.indent + kind_text(line, table).len() + 1,
        line_started(line, table, s, toks, i, p + 4 * line.indent, i + line.indent),
{
    let d = line.indent as nat;
    let k = kind_text(line, table);
    reveal_strlit("\n");
    assert("\n"@.len() == 1 && "\n"@[0] == '\n');
    lemma_indent_text(d);
    assert(line_text(line, table) == (indent_text(d) + k) + "\n"@);
    lemma_split(s, p, indent_text(d) + k, "\n"@);
    lemma_split(s, p, indent_text(d), k);
    let pa = p + 4 * d;
    lemma_at(s, pa + k.len(), "\n"@, 0);
    lemma_lex_indent(s, toks, p, i, d);
    lemma_starts_with_none(s, toks, i, i + d, '\t');
}

/// A printed command parses back, from behind its indentation. The result
/// is the place of the first token of the next line.
pub proof fn lemma_line_command(
    line: NodeLine,
    table: Seq<Seq<char>>,
    s: Seq<char>,
    toks: Seq<Token>,
    i: int,
    p: int,
    a: int,
) -> (n: int)
    requires
        distinct(table),
        printable_line(line, table),
        !(line.kind is Label || line.kind is Choice || line.kind is Text || line.kind is Shortcut),
        line_started(line, table, s, toks, i, p, a),
    ensures
        i < n < toks.len(),
        lexed_to(s, toks, p + kind_text(line, table).len() + 1, true, n),
        parse_line(s, toks, i, table) == built(table, Item::Line(line), n),
{
    let k = kind_text(line, table);
    let e = match line.kind {
        LineKind::Jump(_) => lemma_kind_jump(line, table, s, toks, p, a),
        LineKind::If(_) | LineKind::ElseIf(_) | LineKind::Wait(_) => lemma_kind_expr_command(
            line,
            table,
            s,
            toks,
            p,
            a,
        ),
        LineKind::Assign(_, _) => lemma_kind_assign(line, table, s, toks, p, a),
        LineKind::Host(_, _) => lemma_kind_host(line, table, s, toks, p, a),
        _ => lemma_kind_bare(line, table, s, toks, p, a),
    };
    lemma_indent_stop(toks, i, a);
    lemma_line_is_command(s, toks, i, a, e, table, line.kind, p + k.len() - 2);
    lemma_lexed_more(s, toks, p + k.len() + 1, true, e + 1);
    e + 1
}

/// A printed label parses back, from behind its indentation.
pub proof fn lemma_line_label(
    line: NodeLine,
    table: Seq<Seq<char>>,
    s: Seq<char>,
    toks: Seq<Token>,
    i: int,
    p: int,
    a: int,
) -> (n: int)
    requires
        distinct(table),
        printable_line(line, table),
        line.kind is Label,
        line_started(line, table, s, toks, i, p, a),
    ensures
        i < n < toks.len(),
        lexed_to(s, toks, p + kind_text(line, table).len() + 1, true, n),
        parse_line(s, toks, i, table) == built(table, Item::Line(line), n),
{
    let k = kind_text(line, table);
    let e = lemma_kind_label(line, table, s, toks, p, a);
    lemma_indent_stop(toks, i, a);
    lemma_line_is_label(s, toks, i, a, table, label_key(line));
    lemma_lexed_more(s, toks, p + k.len() + 1, true, e + 1);
    e + 1
}

/// A printed choice parses back, from behind its indentation.
pub proof fn lemma_line_choice(
    line: NodeLine,
    table: Seq<Seq<char>>,
    s: Seq<char>,
    toks: Seq<Token>,
    i: int,
    p: int,
    a: int,
) -> (n: int)
    requires
        distinct(table),
        printable_line(line, table),
        line.kind is Choice,
        line_started(line, table, s, toks, i, p, a),
    ensures
        i < n < toks.len(),
        lexed_to(s, toks, p + kind_text(line, table).len() + 1, true, n),
        parse_line(s, toks, i, table) == built(table, Item::Line(line), n),
{
    let e = lemma_kind_choice(line, table, s, toks, p, a);
    lemma_indent_stop(toks, i, a);
    lemma_line_is_choice(s, toks, i, a, e, table, line.kind);
    e + 1
}

/// A printed line of text parses back, from behind its indentation.
pub proof fn lemma_line_text(
    line: NodeLine,
    table: Seq<Seq<char>>,
    s: Seq<char>,
    toks: Seq<Token>,
    i: int,
    p: int,
    a: int,
) -> (n: int)
    requires
        distinct(table),
        printable_line(line, table),
        line.kind is Text,
        line_started(line, table, s, toks, i, p, a),
    ensures
        i < n < toks.len(),
        lexed_to(s, toks, p + kind_text(line, table).len() + 1, true, n),
        parse_line(s, toks, i, table) == built(table, Item::Line(line), n),
{
    let r = lemma_lex_text(line, table, s, toks, p, a);
    lemma_parse_text(line, table, s, toks, p, a, r.0, r.1, r.2);
    lemma_text_parts(line, table, s, p);
    lemma_indent_stop(toks, i, a);
    lemma_line_is_text(line, s, toks, i, a, r.0, r.2, table);
    r.2 + 1
}

/// A printed shortcut option parses back, from behind its indentation.
pub proof fn lemma_line_shortcut(
    line: NodeLine,
    table: Seq<Seq<char>>,
    s: Seq<char>,
    toks: Seq<Token>,
    i: int,
    p: int,
    a: int,
) -> (n: int)
    requires
        distinct(table),
        printable_line(line, table),
        line.kind is Shortcut,
        line_started(line, table, s, toks, i, p, a),
    ensures
        i < n < toks.len(),
        lexed_to(s, toks, p + kind_text(line, table).len() + 1, true, n),
        parse_line(s, toks, i, table) == built(table, Item::Line(line), n),
{
    let r = lemma_lex_shortcut(line, table, s, toks, p, a);
    lemma_parse_shortcut(line, table, s, toks, p, a, r.0, r.1);
    lemma_indent_stop(toks, i, a);
    lemma_line_is_shortcut(s, toks, i, a, r.1, table, line.kind);
    r.1 + 1
}

/// A printed line parses back: the lexer reads it up to and with its line
/// feed, and the parser makes the line of it. The result is the place of
/// the first token of the next line.
pub proof fn lemma_line(
    line: NodeLine,
    table: Seq<Seq<char>>,
    s: Seq<char>,
    toks: Seq<Token>,
    p: int,
    i: int,
) -> (n: int)
    requires
        distinct(table),
        printable_line(line, table),
        lexed_to(s, toks, p, true, i),
        p + line_text(line, table).len() <= s.len(),
        s.subrange(p, p + line_text(line, table).len()) == line_text(line, table),
    ensures
        i < n < toks.len(),
        lexed_to(s, toks, p + line_text(line, table).len(), true, n),
        parse_line(s, toks, i, table) == built(table, Item::Line(line), n),
{
    lemma_line_start(line, table, s, toks, p, i);
    let pa = p + 4 * line.indent;
    let a = i + line.indent;
    if line.kind is Label {
        lemma_line_label(line, table, s, toks, i, pa, a)
    } else if line.kind is Choice {
        lemma_line_choice(line, table, s, toks, i, pa, a)
    } else if line.kind is Text {
        lemma_line_text(line, table, s, toks, i, pa, a)
    } else if line.kind is Shortcut {
        lemma_line_shortcut(line, table, s, toks, i, pa, a)
    } else {
        lemma_line_command(line, table, s, toks, i, pa, a)
    }
}

} // verus!
