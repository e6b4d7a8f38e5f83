//! Printed lines of text and printed shortcut options parse back.

use vstd::prelude::*;
use crate::ast::{LineKind, NodeLine, Template};
use crate::ast::command::parse_shortcut;
use crate::ast::expr::parsed;
use crate::ast::intern::distinct;
use crate::ast::line::{built, Item, parse_line};
use crate::ast::print::{expr_text, kind_text, template_text};
use crate::round_trip::lexing::{
    is_word, is_wordy, lemma_find_at, lemma_find_none, lemma_lex_line_end, lemma_lex_step, lemma_lex_word,
    lemma_lexed_more, lemma_line_stop, lexed_to,
};
use crate::round_trip::line::{
    lemma_keywords_differ, lemma_lex_command, lemma_lex_label, lemma_parse_expr_behind_blank,
    lemma_tame_behind_blank,
};
use crate::round_trip::template::{
    is_piece, lemma_opens_line, lemma_template, opens_line, printable_template, template_done,
};
use crate::round_trip::expr::{is_name, lemma_at, lemma_key_again, lemma_scan_run, lemma_split, printable};
use crate::ast::scan::{find_kind, indent_stop, line_stop, starts_with};
use crate::ast::template::{has_line_tag, parse_piece, parse_text};
use crate::lexer::{breaks_word, pair_at, Token, TokenKind};
use crate::text::{CharClass, in_class};

verus! {

/// Whether the printed form of a line of text parses back to it: the
/// speaker is a name, the text a template that is not empty, the tag a
/// word; without a speaker the text starts with no rule of three `-` or
/// `=`, with no label and with no closing brace or square bracket.
pub open spec fn printable_text(line: NodeLine, table: Seq<Seq<char>>) -> bool {
    &&& line.kind is Text
    &&& match line.label {
        Some(k) => k.0 < table.len() && is_name(table[k.0 as int]),
        None => true,
    }
    &&& match line.tag {
        Some(t) => t.0 < table.len() && is_word(table[t.0 as int]),
        None => true,
    }
    &&& printable_template(line.kind->Text_0, table, true)
    &&& !(line.kind->Text_0 is End)
    &&& line.label is None ==> opens_line(line.kind->Text_0, table)
}

/// The text in front of the template of a printed line of text.
pub open spec fn speaker_text(line: NodeLine, table: Seq<Seq<char>>) -> Seq<char> {
    match line.label {
        Some(k) => table[k.0 as int] + ": "@,
        None => Seq::empty(),
    }
}

/// The text behind the template of a printed line of text.
pub open spec fn tag_text(line: NodeLine, table: Seq<Seq<char>>) -> Seq<char> {
    match line.tag {
        Some(t) => " #"@ + table[t.0 as int],
        None => Seq::empty(),
    }
}

/// A template that is not empty has a text that is not empty.
pub proof fn lemma_template_not_empty(tpl: Template, table: Seq<Seq<char>>, first: bool)
    requires
        printable_template(tpl, table, first),
        !(tpl is End),
    ensures
        template_text(tpl, table).len() > 0,
{
    reveal_strlit("{");
    assert("{"@.len() == 1);
}

/// The places of the parts of a printed line of text.
pub proof fn lemma_text_parts(line: NodeLine, table: Seq<Seq<char>>, s: Seq<char>, p: int)
    requires
        printable_text(line, table),
        0 <= p,
        p + kind_text(line, table).len() < s.len(),
        s.subrange(p, p + kind_text(line, table).len()) == kind_text(line, table),
        s[p + kind_text(line, table).len()] == '\n',
    ensures
        ({
            let sp = speaker_text(line, table);
            let tt = template_text(line.kind->Text_0, table);
            let tg = tag_text(line, table);
            let pt = p + sp.len();
            let pg = pt + tt.len();
            &&& kind_text(line, table).len() == sp.len() + tt.len() + tg.len()
            &&& tt.len() > 0
            &&& s.subrange(p, pt) == sp
            &&& s.subrange(pt, pg) == tt
            &&& s.subrange(pg, pg + tg.len()) == tg
            &&& breaks_word(s, pg)
            &&& line.label matches Some(k) ==> ({
                let name = table[k.0 as int];
                &&& sp.len() == name.len() + 2
                &&& s.subrange(p, p + name.len()) == name
                &&& s[p + name.len()] == ':'
                &&& s[p + name.len() + 1] == ' '
            })
            &&& line.tag matches Some(t) ==> ({
                let word = table[t.0 as int];
                &&& tg.len() == word.len() + 2
                &&& s[pg] == ' '
                &&& s[pg + 1] == '#'
                &&& s.subrange(pg + 2, pg + 2 + word.len()) == word
            })
        }),
{
    let sp = speaker_text(line, table);
    let tt = template_text(line.kind->Text_0, table);
    let tg = tag_text(line, table);
    let k = kind_text(line, table);
    reveal_strlit(": ");
    reveal_strlit(" #");
    assert(": "@.len() == 2 && " #"@.len() == 2);
    assert(": "@[0] == ':' && ": "@[1] == ' ' && " #"@[0] == ' ' && " #"@[1] == '#');
    lemma_template_not_empty(line.kind->Text_0, table, true);
    assert(k =~= (sp + tt) + tg);
    lemma_split(s, p, sp + tt, tg);
    lemma_split(s, p, sp, tt);
    let pt = p + sp.len();
    let pg = pt + tt.len();
    match line.label {
        Some(key) => {
            let name = table[key.0 as int];
            lemma_split(s, p, name, ": "@);
            lemma_at(s, p + name.len(), ": "@, 0);
            lemma_at(s, p + name.len(), ": "@, 1);
        },
        None => {},
    }
    match line.tag {
        Some(t) => {
            let word = table[t.0 as int];
            lemma_split(s, pg, " #"@, word);
            lemma_at(s, pg, " #"@, 0);
            lemma_at(s, pg, " #"@, 1);
        },
        None => {},
    }
}

/// What the lexer makes of a printed line of text, from the first token
/// behind the indentation: the speaker's label where there is one, the
/// tokens of the template from `t` to `n`, the two tokens of the tag where
/// there is one, and the line feed at `e`.
pub open spec fn text_lexed(
    line: NodeLine,
    table: Seq<Seq<char>>,
    s: Seq<char>,
    toks: Seq<Token>,
    p: int,
    a: int,
    t: int,
    n: int,
    e: int,
) -> bool {
    let sp = speaker_text(line, table);
    let tt = template_text(line.kind->Text_0, table);
    let pt = p + sp.len();
    let pg = pt + tt.len();
    &&& 0 <= a <= t < n <= e < toks.len()
    &&& e + 1 < toks.len()
    &&& toks[e].kind == TokenKind::LineEnd
    &&& template_done(line.kind->Text_0, table, s, toks, pt, line.label is None, true, t, n)
    &&& match line.label {
        Some(k) => t == a + 1 && toks[a].kind == TokenKind::Label && toks[a].start == p
            && toks[a].end == p + table[k.0 as int].len() + 1,
        None => t == a,
    }
    &&& match line.tag {
        Some(w) => e == n + 2 && toks[n].kind == TokenKind::Tag && toks[n + 1] == (Token {
            kind: TokenKind::Word,
            start: (pg + 2) as usize,
            end: (pg + 2 + table[w.0 as int].len()) as usize,
        }) && toks[n].end == pg + 2,
        None => e == n,
    }
}

/// The lexer reads a printed line of text. The results are the places of
/// the first and the last token of the template and of the line feed.
pub proof fn lemma_lex_text(
    line: NodeLine,
    table: Seq<Seq<char>>,
    s: Seq<char>,
    toks: Seq<Token>,
    p: int,
    a: int,
) -> (r: (int, int, int))
    requires
        distinct(table),
        printable_text(line, table),
        lexed_to(s, toks, p, true, a),
        p + kind_text(line, table).len() < s.len(),
        s.subrange(p, p + kind_text(line, table).len()) == kind_text(line, table),
        s[p + kind_text(line, table).len()] == '\n',
    ensures
        text_lexed(line, table, s, toks, p, a, r.0, r.1, r.2),
        lexed_to(s, toks, p + kind_text(line, table).len() + 1, true, r.2 + 1),
{
    lemma_text_parts(line, table, s, p);
    let tpl = line.kind->Text_0;
    let sp = speaker_text(line, table);
    let tt = template_text(tpl, table);
    let pt = p + sp.len();
    let pg = pt + tt.len();
    let end = p + kind_text(line, table).len();
    let t = match line.label {
        Some(k) => {
            let name = table[k.0 as int];
            assert forall|j: int| p <= j < p + name.len() implies in_class(
                CharClass::Ident,
                #[trigger] s[j],
            ) by {
                lemma_at(s, p, name, j - p);
            }
            lemma_scan_run(s, p, p + name.len(), CharClass::Ident);
            lemma_at(s, p, name, 0);
            lemma_lex_label(s, toks, p, p + name.len(), a);
            lemma_lex_step(s, toks, p + name.len() + 1, false, a + 1);
            a + 1
        },
        None => a,
    };
    if line.label is None {
        lemma_opens_line(tpl, table, s, pt);
    }
    let n = lemma_template(tpl, table, s, toks, pt, line.label is None, true, t);
    assert(t < n && lexed_to(s, toks, pg, false, n)) by {
        reveal(template_done);
    }
    let e = match line.tag {
        Some(w) => {
            let word = table[w.0 as int];
            lemma_lex_step(s, toks, pg, false, n);
            lemma_lex_step(s, toks, pg + 1, false, n);
            lemma_lex_word(s, toks, pg + 2, word, false, n + 1);
            lemma_lex_line_end(s, toks, end, false, n + 2);
            n + 2
        },
        None => {
            lemma_lex_line_end(s, toks, end, false, n);
            n
        },
    };
    lemma_lexed_more(s, toks, end + 1, true, e + 1);
    (t, n, e)
}

/// The parser reads the text and the tag of a printed line of text back
/// from its tokens.
pub proof fn lemma_parse_text(
    line: NodeLine,
    table: Seq<Seq<char>>,
    s: Seq<char>,
    toks: Seq<Token>,
    p: int,
    a: int,
    t: int,
    n: int,
    e: int,
)
    requires
        distinct(table),
        printable_text(line, table),
        0 <= p,
        p + kind_text(line, table).len() < s.len() <= usize::MAX,
        s.subrange(p, p + kind_text(line, table).len()) == kind_text(line, table),
        s[p + kind_text(line, table).len()] == '\n',
        text_lexed(line, table, s, toks, p, a, t, n, e),
    ensures
        parse_text(s, toks, t, e, table) == parsed(table, (line.kind->Text_0, line.tag), e),
        line_stop(toks, a) == e,
        find_kind(toks, a, e, TokenKind::Error) == e,
        toks[a].kind != TokenKind::Indent,
        line.label is None ==> is_piece(toks[a]) && toks[a].kind != TokenKind::Label && toks[a].kind
            != TokenKind::OptionStart,
{
    reveal(template_done);
    lemma_text_parts(line, table, s, p);
    if line.label is None {
        lemma_opens_line(line.kind->Text_0, table, s, p);
    }
    let tpl = line.kind->Text_0;
    let sp = speaker_text(line, table);
    let tt = template_text(tpl, table);
    let pt = p + sp.len();
    let pg = pt + tt.len();
    assert forall|j: int| a <= j < e implies (#[trigger] toks[j]).kind != TokenKind::LineEnd
        && toks[j].kind != TokenKind::Eof && toks[j].kind != TokenKind::Error by {
        if t <= j < n {
            assert(is_piece(toks[j]));
        }
    }
    lemma_line_stop(toks, a, e);
    lemma_find_none(toks, a, e, TokenKind::Error);
    match line.tag {
        Some(w) => {
            lemma_key_again(table, w);
            assert(has_line_tag(toks, t, e));
            assert(parse_piece(s, toks, t, n, table) == parsed(table, tpl, n));
        },
        None => {
            assert(!has_line_tag(toks, t, e)) by {
                if t + 2 <= e {
                    assert(is_piece(toks[e - 2]));
                }
            }
            assert(parse_piece(s, toks, t, n, table) == parsed(table, tpl, n));
        },
    }
}

/// The line that starts at token `i` is a line of text where its first
/// token behind the indentation is a word or a brace, or a label with
/// more behind it.
pub proof fn lemma_line_is_text(
    line: NodeLine,
    s: Seq<char>,
    toks: Seq<Token>,
    i: int,
    a: int,
    t: int,
    e: int,
    table: Seq<Seq<char>>,
)
    requires
        distinct(table),
        line.kind is Text,
        0 <= i <= a <= t,
        t < e < toks.len(),
        a - i == line.indent,
        indent_stop(toks, i) == a,
        line_stop(toks, a) == e,
        toks[e].kind == TokenKind::LineEnd,
        !starts_with(s, toks, i, a, '\t'),
        find_kind(toks, a, e, TokenKind::Error) == e,
        match line.label {
            Some(k) => t == a + 1 && toks[a].kind == TokenKind::Label && toks[a].start < toks[a].end
                <= s.len() && k.0 < table.len() && s.subrange(
                toks[a].start as int,
                toks[a].end - 1,
            ) == table[k.0 as int],
            None => t == a && is_piece(toks[a]) && toks[a].kind != TokenKind::Label && toks[a].kind
                != TokenKind::OptionStart,
        },
        parse_text(s, toks, t, e, table) == parsed(table, (line.kind->Text_0, line.tag), e),
    ensures
        parse_line(s, toks, i, table) == built(table, Item::Line(line), e + 1),
{
    match line.label {
        Some(k) => {
            lemma_key_again(table, k);
        },
        None => {},
    }
}

/// Whether the printed form of a shortcut option parses back to it.
pub open spec fn printable_shortcut(line: NodeLine, table: Seq<Seq<char>>) -> bool {
    &&& line.kind is Shortcut
    &&& line.label is None
    &&& line.tag is None
    &&& printable_template(line.kind->Shortcut_0, table, true)
    &&& match line.kind->Shortcut_1 {
        Some(e) => printable(e, table),
        None => true,
    }
}

/// The text of the condition behind a printed shortcut option.
pub open spec fn guard_text(line: NodeLine, table: Seq<Seq<char>>) -> Seq<char> {
    match line.kind->Shortcut_1 {
        Some(e) => (" <<if "@ + expr_text(e, table)) + ">>"@,
        None => Seq::empty(),
    }
}

/// The places of the parts of a printed shortcut option.
pub proof fn lemma_shortcut_parts(line: NodeLine, table: Seq<Seq<char>>, s: Seq<char>, p: int)
    requires
        printable_shortcut(line, table),
        0 <= p,
        p + kind_text(line, table).len() < s.len(),
        s.subrange(p, p + kind_text(line, table).len()) == kind_text(line, table),
        s[p + kind_text(line, table).len()] == '\n',
    ensures
        ({
            let tt = template_text(line.kind->Shortcut_0, table);
            let g = guard_text(line, table);
            let pt = p + 3;
            let pg = pt + tt.len();
            &&& kind_text(line, table).len() == 3 + tt.len() + g.len()
            &&& pair_at(s, p, '-', '>')
            &&& s[p + 2] == ' '
            &&& s.subrange(pt, pg) == tt
            &&& breaks_word(s, pg)
            &&& line.kind->Shortcut_1 matches Some(e) ==> ({
                let te = expr_text(e, table);
                &&& g.len() == te.len() + 8
                &&& s[pg] == ' '
                &&& pair_at(s, pg + 1, '<', '<')
                &&& s.subrange(pg + 3, pg + 5) == "if"@
                &&& s[pg + 5] == ' '
                &&& s.subrange(pg + 6, pg + 6 + te.len()) == te
                &&& pair_at(s, pg + 6 + te.len(), '>', '>')
            })
        }),
{
    let tt = template_text(line.kind->Shortcut_0, table);
    let g = guard_text(line, table);
    let k = kind_text(line, table);
    let lit = "-> "@;
    reveal_strlit("-> ");
    assert(lit.len() == 3);
    assert(lit[0] == '-' && lit[1] == '>' && lit[2] == ' ');
    match line.kind->Shortcut_1 {
        Some(e) => {
            let te = expr_text(e, table);
            let glit = " <<if "@;
            reveal_strlit(" <<if ");
            reveal_strlit(">>");
            reveal_strlit("if");
            assert(glit.len() == 6 && ">>"@.len() == 2 && "if"@.len() == 2);
            assert(glit[0] == ' ' && glit[1] == '<' && glit[2] == '<' && glit[3] == 'i' && glit[4]
                == 'f' && glit[5] == ' ');
            assert(">>"@[0] == '>' && ">>"@[1] == '>');
            assert("if"@[0] == 'i' && "if"@[1] == 'f');
            assert(k =~= (lit + tt) + g);
            lemma_split(s, p, lit + tt, g);
            lemma_split(s, p, lit, tt);
            let pg = p + 3 + tt.len();
            lemma_split(s, pg, glit + te, ">>"@);
            lemma_split(s, pg, glit, te);
            lemma_at(s, pg, glit, 0);
            lemma_at(s, pg, glit, 1);
            lemma_at(s, pg, glit, 2);
            lemma_at(s, pg, glit, 3);
            lemma_at(s, pg, glit, 4);
            lemma_at(s, pg, glit, 5);
            lemma_at(s, pg + 6 + te.len(), ">>"@, 0);
            lemma_at(s, pg + 6 + te.len(), ">>"@, 1);
            assert(s.subrange(pg + 3, pg + 5) =~= "if"@);
        },
        None => {
            assert(k =~= (lit + tt) + g);
            lemma_split(s, p, lit + tt, g);
            lemma_split(s, p, lit, tt);
        },
    }
    lemma_at(s, p, lit, 0);
    lemma_at(s, p, lit, 1);
    lemma_at(s, p, lit, 2);
}

/// What the lexer makes of a printed shortcut option, from the first token
/// behind the indentation: the arrow, the tokens of the text up to `n`,
/// the tokens of the condition where there is one, and the line feed at
/// `e`.
pub open spec fn shortcut_lexed(
    line: NodeLine,
    table: Seq<Seq<char>>,
    s: Seq<char>,
    toks: Seq<Token>,
    p: int,
    a: int,
    n: int,
    e: int,
) -> bool {
    let tt = template_text(line.kind->Shortcut_0, table);
    let pg = p + 3 + tt.len();
    &&& 0 <= a < n <= e < toks.len()
    &&& e + 1 < toks.len()
    &&& toks[a].kind == TokenKind::ShortcutOption
    &&& toks[e].kind == TokenKind::LineEnd
    &&& template_done(line.kind->Shortcut_0, table, s, toks, p + 3, false, true, a + 1, n)
    &&& match line.kind->Shortcut_1 {
        Some(c) => {
            &&& n + 2 < e - 1
            &&& toks[n].kind == TokenKind::CmdStart
            &&& toks[n + 1] == (Token {
                kind: TokenKind::Word,
                start: (pg + 3) as usize,
                end: (pg + 5) as usize,
            })
            &&& toks[e - 1] == (Token {
                kind: TokenKind::CmdEnd,
                start: (pg + 6 + expr_text(c, table).len()) as usize,
                end: (pg + 8 + expr_text(c, table).len()) as usize,
            })
            &&& forall|j: int| n + 2 <= j < e - 1 ==> is_wordy(#[trigger] toks[j])
        },
        None => e == n,
    }
}

/// The lexer reads a printed shortcut option. The results are the places
/// behind the last token of the text and of the line feed.
pub proof fn lemma_lex_shortcut(
    line: NodeLine,
    table: Seq<Seq<char>>,
    s: Seq<char>,
    toks: Seq<Token>,
    p: int,
    a: int,
) -> (r: (int, int))
    requires
        distinct(table),
        printable_shortcut(line, table),
        lexed_to(s, toks, p, true, a),
        p + kind_text(line, table).len() < s.len(),
        s.subrange(p, p + kind_text(line, table).len()) == kind_text(line, table),
        s[p + kind_text(line, table).len()] == '\n',
    ensures
        shortcut_lexed(line, table, s, toks, p, a, r.0, r.1),
        lexed_to(s, toks, p + kind_text(line, table).len() + 1, true, r.1 + 1),
{
    lemma_shortcut_parts(line, table, s, p);
    let tpl = line.kind->Shortcut_0;
    let tt = template_text(tpl, table);
    let pg = p + 3 + tt.len();
    let end = p + kind_text(line, table).len();
    lemma_lex_step(s, toks, p, true, a);
    lemma_lex_step(s, toks, p + 2, false, a + 1);
    let n = lemma_template(tpl, table, s, toks, p + 3, false, true, a + 1);
    assert(lexed_to(s, toks, pg, false, n)) by {
        reveal(template_done);
    }
    let e = match line.kind->Shortcut_1 {
        Some(c) => {
            let te = expr_text(c, table);
            lemma_keywords_differ();
            lemma_lex_step(s, toks, pg, false, n);
            lemma_tame_behind_blank(c, table, s, pg + 5);
            let h = lemma_lex_command(s, toks, pg + 1, false, n, "if"@, pg + 6 + te.len());
            lemma_lex_line_end(s, toks, end, false, h + 1);
            h + 1
        },
        None => {
            lemma_lex_line_end(s, toks, end, false, n);
            n
        },
    };
    lemma_lexed_more(s, toks, end + 1, true, e + 1);
    assert(toks[a].kind == TokenKind::ShortcutOption);
    assert(0 <= a < n <= e < toks.len()) by {
        reveal(template_done);
    }
    assert(toks[e].kind == TokenKind::LineEnd);
    assert(template_done(tpl, table, s, toks, p + 3, false, true, a + 1, n));
    match line.kind->Shortcut_1 {
        Some(c) => {
            assert(n + 2 < e - 1);
            assert(toks[n].kind == TokenKind::CmdStart);
            assert(toks[n + 1] == (Token {
                kind: TokenKind::Word,
                start: (pg + 3) as usize,
                end: (pg + 5) as usize,
            }));
            assert(toks[e - 1] == (Token {
                kind: TokenKind::CmdEnd,
                start: (pg + 6 + expr_text(c, table).len()) as usize,
                end: (pg + 8 + expr_text(c, table).len()) as usize,
            }));
        },
        None => {},
    }
    (n, e)
}

/// The parser reads a printed shortcut option back from its tokens.
pub proof fn lemma_parse_shortcut(
    line: NodeLine,
    table: Seq<Seq<char>>,
    s: Seq<char>,
    toks: Seq<Token>,
    p: int,
    a: int,
    n: int,
    e: int,
)
    requires
        distinct(table),
        printable_shortcut(line, table),
        0 <= p,
        p + kind_text(line, table).len() < s.len() <= usize::MAX,
        s.subrange(p, p + kind_text(line, table).len()) == kind_text(line, table),
        s[p + kind_text(line, table).len()] == '\n',
        shortcut_lexed(line, table, s, toks, p, a, n, e),
    ensures
        parse_shortcut(s, toks, a, e, table) == parsed(table, line.kind, e),
        line_stop(toks, a) == e,
        find_kind(toks, a, e, TokenKind::Error) == e,
{
    reveal(template_done);
    lemma_shortcut_parts(line, table, s, p);
    let tpl = line.kind->Shortcut_0;
    let tt = template_text(tpl, table);
    let pg = p + 3 + tt.len();
    assert forall|j: int| a <= j < e implies (#[trigger] toks[j]).kind != TokenKind::LineEnd
        && toks[j].kind != TokenKind::Eof && toks[j].kind != TokenKind::Error by {
        if a + 1 <= j < n {
            assert(is_piece(toks[j]));
        }
    }
    lemma_line_stop(toks, a, e);
    lemma_find_none(toks, a, e, TokenKind::Error);
    assert forall|j: int| a + 1 <= j < n implies (#[trigger] toks[j]).kind
        != TokenKind::CmdStart by {
        assert(is_piece(toks[j]));
    }
    match line.kind->Shortcut_1 {
        Some(c) => {
            lemma_find_at(toks, a + 1, n, e, TokenKind::CmdStart);
            lemma_parse_expr_behind_blank(c, table, s, pg + 5, pg + 6 + expr_text(c, table).len());
            assert(parse_piece(s, toks, a + 1, n, table) == parsed(table, tpl, n));
        },
        None => {
            lemma_find_none(toks, a + 1, e, TokenKind::CmdStart);
            assert(parse_piece(s, toks, a + 1, e, table) == parsed(table, tpl, e));
        },
    }
}

/// The line that starts at token `i` is a shortcut option where its first
/// token behind the indentation is the arrow.
pub proof fn lemma_line_is_shortcut(
    s: Seq<char>,
    toks: Seq<Token>,
    i: int,
    a: int,
    e: int,
    table: Seq<Seq<char>>,
    kind: LineKind,
)
    requires
        0 <= i <= a,
        a < e < toks.len(),
        a - i <= usize::MAX,
        indent_stop(toks, i) == a,
        line_stop(toks, a) == e,
        toks[e].kind == TokenKind::LineEnd,
        !starts_with(s, toks, i, a, '\t'),
        find_kind(toks, a, e, TokenKind::Error) == e,
        toks[a].kind == TokenKind::ShortcutOption,
        parse_shortcut(s, toks, a, e, table) == parsed(table, kind, e),
    ensures
        parse_line(s, toks, i, table) == built(
            table,
            Item::Line(NodeLine { label: None, indent: (a - i) as usize, tag: None, kind }),
            e + 1,
        ),
{
}

} // verus!
