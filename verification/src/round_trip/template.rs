//! Printed templates parse back: literal pieces and placeholders in turn.

use vstd::prelude::*;
use crate::ast::{Expr, Template};
use crate::ast::expr::{parse_expr, parsed};
use crate::ast::intern::distinct;
use crate::ast::print::{expr_text, template_text};
use crate::round_trip::lexing::{
    is_loose, is_mark, is_wordy, label_at, lemma_find_at, lemma_find_none, lemma_lex_loose,
    lemma_lex_step, lemma_lex_tame, lemma_mild_is_loose, lexed_to, mild,
};
use crate::round_trip::expr::{
    lemma_at, lemma_first_char, lemma_key_again, lemma_level, lemma_quiet_close, lemma_split,
    lemma_tame_expr, printable,
};
use crate::ast::scan::find_kind;
use crate::ast::template::parse_template;
use crate::lexer::{breaks_word, rule_at, run_at, Token, TokenKind};
use crate::text::{CharClass, is_blank, is_ident, scan_end};

verus! {

/// Whether the printed form of a template parses back to it. `first` says
/// that the template stands at the start of its text.
///
/// A literal piece is mild text, not empty; no literal follows a literal;
/// the first piece starts with no blank and the last ends with none.
pub open spec fn printable_template(tpl: Template, table: Seq<Seq<char>>, first: bool) -> bool
    decreases tpl,
{
    match tpl {
        Template::End => true,
        Template::Lit(k, rest) => {
            &&& k.0 < table.len()
            &&& table[k.0 as int].len() > 0
            &&& mild(table[k.0 as int])
            &&& (first ==> !is_blank(table[k.0 as int][0]))
            &&& (*rest is End ==> !is_blank(table[k.0 as int].last()))
            &&& !(*rest is Lit)
            &&& printable_template(*rest, table, false)
        },
        Template::Hole(e, rest) => printable(*e, table) && printable_template(*rest, table, false),
    }
}

/// Whether a token is one of those that a printed template gives: a word,
/// a label, a brace or a square bracket.
pub open spec fn is_piece(t: Token) -> bool {
    t.kind == TokenKind::Word || t.kind == TokenKind::Label || t.kind == TokenKind::ExprStart
        || t.kind == TokenKind::ExprEnd || t.kind == TokenKind::OptionStart || t.kind
        == TokenKind::OptionEnd
}

/// A printed placeholder: the lexer reads the braces and, between them,
/// words; the parser reads the expression back. The result is the number
/// of tokens given when the closing brace is passed.
pub proof fn lemma_hole(
    e: Expr,
    table: Seq<Seq<char>>,
    s: Seq<char>,
    toks: Seq<Token>,
    p: int,
    lead: bool,
    i: int,
) -> (n: int)
    requires
        distinct(table),
        printable(e, table),
        lexed_to(s, toks, p, lead, i),
        p + 2 + expr_text(e, table).len() <= s.len(),
        s[p] == '{',
        s.subrange(p + 1, p + 1 + expr_text(e, table).len()) == expr_text(e, table),
        s[p + 1 + expr_text(e, table).len()] == '}',
    ensures
        i + 1 < n <= toks.len(),
        lexed_to(s, toks, p + 2 + expr_text(e, table).len(), false, n),
        toks[i] == (Token { kind: TokenKind::ExprStart, start: p as usize, end: (p + 1) as usize }),
        toks[n - 1] == (Token {
            kind: TokenKind::ExprEnd,
            start: (p + 1 + expr_text(e, table).len()) as usize,
            end: (p + 2 + expr_text(e, table).len()) as usize,
        }),
        forall|j: int|
            i < j < n - 1 ==> is_wordy(#[trigger] toks[j]) && p < toks[j].start < toks[j].end <= p
                + 1 + expr_text(e, table).len(),
        parse_expr(s, p + 1, p + 1 + expr_text(e, table).len(), table) == parsed(
            table,
            e,
            p + 1 + expr_text(e, table).len(),
        ),
{
    let t = expr_text(e, table);
    let q = p + 1 + t.len();
    lemma_lex_step(s, toks, p, lead, i);
    lemma_tame_expr(e, table, s, p + 1);
    let m = lemma_lex_tame(s, toks, p + 1, q, false, i + 1);
    lemma_lex_step(s, toks, q, false, m);
    lemma_first_char(e, table);
    lemma_quiet_close(s, q, q);
    lemma_level(e, 0, table, s, p + 1, p + 1, q);
    m + 1
}

/// What the lexer has made of a printed template: the tokens `i..n`, each
/// a word or a brace inside the text `p..end`; the first starts the text
/// where the template stands first, and the last ends it.
pub open spec fn template_lexed(
    s: Seq<char>,
    toks: Seq<Token>,
    p: int,
    end: int,
    first: bool,
    i: int,
    n: int,
) -> bool {
    &&& i <= n <= toks.len()
    &&& forall|j: int|
        i <= j < n ==> is_piece(#[trigger] toks[j]) && p <= toks[j].start < toks[j].end <= end
    &&& p < end ==> i < n && toks[n - 1].end == end && !is_blank(s[end - 1])
    &&& p < end && first ==> toks[i].start == p
    &&& p == end ==> n == i
}

/// A literal piece that ends a template, from its tokens.
pub proof fn lemma_parse_last_literal(
    k: crate::ast::NodeLabel,
    table: Seq<Seq<char>>,
    s: Seq<char>,
    toks: Seq<Token>,
    p: int,
    end: int,
    i: int,
    n: int,
)
    requires
        distinct(table),
        k.0 < table.len(),
        0 <= p < end <= s.len(),
        s.subrange(p, end) == table[k.0 as int],
        0 <= i <= n <= toks.len(),
        forall|j: int| i <= j < n ==> (#[trigger] toks[j]).kind != TokenKind::ExprStart,
    ensures
        parse_template(s, toks, i, n, p, end, table) == parsed(
            table,
            Template::Lit(k, Box::new(Template::End)),
            n,
        ),
{
    lemma_find_none(toks, i, n, TokenKind::ExprStart);
    lemma_key_again(table, k);
}

/// A placeholder with the rest of its template behind it, from the tokens
/// and from what the rest parses to.
pub proof fn lemma_parse_hole_first(
    e: Expr,
    more: Template,
    table: Seq<Seq<char>>,
    s: Seq<char>,
    toks: Seq<Token>,
    p: int,
    end: int,
    i: int,
    n2: int,
    n: int,
)
    requires
        0 <= p,
        0 <= i,
        i + 1 < n2 <= n <= toks.len(),
        toks[i].kind == TokenKind::ExprStart,
        toks[i].start == p,
        toks[i].end == p + 1,
        toks[n2 - 1].kind == TokenKind::ExprEnd,
        forall|j: int| i < j < n2 - 1 ==> is_wordy(#[trigger] toks[j]),
        parse_expr(s, p + 1, toks[n2 - 1].start as int, table) == parsed(
            table,
            e,
            toks[n2 - 1].start as int,
        ),
        parse_template(s, toks, n2, n, toks[n2 - 1].end as int, end, table) == parsed(
            table,
            more,
            n,
        ),
    ensures
        parse_template(s, toks, i, n, p, end, table) == parsed(
            table,
            Template::Hole(Box::new(e), Box::new(more)),
            n,
        ),
{
    lemma_find_at(toks, i, i, n, TokenKind::ExprStart);
    lemma_find_at(toks, i + 1, n2 - 1, n, TokenKind::ExprEnd);
}

/// A literal piece with a placeholder behind it, from the tokens and from
/// what the template from the placeholder on parses to.
pub proof fn lemma_parse_literal_first(
    k: crate::ast::NodeLabel,
    e: Expr,
    more: Template,
    table: Seq<Seq<char>>,
    s: Seq<char>,
    toks: Seq<Token>,
    p: int,
    end: int,
    i: int,
    n1: int,
    n: int,
)
    requires
        distinct(table),
        k.0 < table.len(),
        0 <= p,
        0 <= i <= n1 < n <= toks.len(),
        forall|j: int| i <= j < n1 ==> (#[trigger] toks[j]).kind != TokenKind::ExprStart,
        toks[n1].kind == TokenKind::ExprStart,
        p < toks[n1].start <= s.len(),
        s.subrange(p, toks[n1].start as int) == table[k.0 as int],
        parse_template(s, toks, n1, n, toks[n1].start as int, end, table) == parsed(
            table,
            Template::Hole(Box::new(e), Box::new(more)),
            n,
        ),
    ensures
        parse_template(s, toks, i, n, p, end, table) == parsed(
            table,
            Template::Lit(k, Box::new(Template::Hole(Box::new(e), Box::new(more)))),
            n,
        ),
{
    lemma_find_at(toks, i, n1, n, TokenKind::ExprStart);
    lemma_find_at(toks, n1, n1, n, TokenKind::ExprStart);
    lemma_key_again(table, k);
    let from = parse_template(s, toks, n1, n, toks[n1].start as int, end, table);
    let whole = parse_template(s, toks, i, n, p, end, table);
    let close = find_kind(toks, n1 + 1, n, TokenKind::ExprEnd);
    assert(n1 < close < n);
}

/// What holds when a printed template was read from the place `p`, token
/// `i` on, up to token `n`: the lexer stands behind the text, the tokens
/// are those of a template, and the parser reads the template back.
#[verifier::opaque]
pub open spec fn template_done(
    tpl: Template,
    table: Seq<Seq<char>>,
    s: Seq<char>,
    toks: Seq<Token>,
    p: int,
    lead: bool,
    first: bool,
    i: int,
    n: int,
) -> bool {
    let end = p + template_text(tpl, table).len();
    &&& template_lexed(s, toks, p, end, first, i, n)
    &&& lexed_to(s, toks, end, lead && template_text(tpl, table).len() == 0, n)
    &&& parse_template(s, toks, i, n, p, end, table) == parsed(table, tpl, n)
    &&& tpl is Hole ==> i < n && toks[i].kind == TokenKind::ExprStart && toks[i].start == p
    &&& tpl is Lit ==> i < n && (toks[i].kind == TokenKind::Label <==> label_at(
        s,
        toks[i].start as int,
    )) && (toks[i].kind == TokenKind::OptionStart ==> toks[i].start < s.len() && s[toks[i].start as int]
        == '[')
}

/// The empty template.
pub proof fn lemma_template_end(
    table: Seq<Seq<char>>,
    s: Seq<char>,
    toks: Seq<Token>,
    p: int,
    lead: bool,
    first: bool,
    i: int,
)
    requires
        lexed_to(s, toks, p, lead, i),
    ensures
        template_done(Template::End, table, s, toks, p, lead, first, i, i),
{
    reveal(template_done);
    lemma_find_none(toks, i, i, TokenKind::ExprStart);
}

/// A template of one literal piece. The result is the number of tokens
/// given when its end is reached.
pub proof fn lemma_template_literal(
    k: crate::ast::NodeLabel,
    table: Seq<Seq<char>>,
    s: Seq<char>,
    toks: Seq<Token>,
    p: int,
    lead: bool,
    first: bool,
    i: int,
) -> (n: int)
    requires
        distinct(table),
        printable_template(Template::Lit(k, Box::new(Template::End)), table, first),
        lexed_to(s, toks, p, lead, i),
        p + table[k.0 as int].len() < s.len(),
        s.subrange(p, p + table[k.0 as int].len()) == table[k.0 as int],
        breaks_word(s, p + table[k.0 as int].len()),
        lead ==> first && !rule_at(s, p, '-') && !rule_at(s, p, '=') && !is_mark(s[p]),
    ensures
        template_text(Template::Lit(k, Box::new(Template::End)), table) =~= table[k.0 as int],
        template_done(
            Template::Lit(k, Box::new(Template::End)),
            table,
            s,
            toks,
            p,
            lead,
            first,
            i,
            n,
        ),
{
    reveal(template_done);
    let lit = table[k.0 as int];
    let end = p + lit.len();
    lemma_mild_is_loose(s, p, lit);
    lemma_at(s, p, lit, 0);
    lemma_at(s, p, lit, lit.len() - 1);
    let n = lemma_lex_loose(s, toks, p, end, lead, i);
    assert forall|j: int| i <= j < n implies is_piece(#[trigger] toks[j]) && toks[j].kind
        != TokenKind::ExprStart by {
        assert(is_loose(s, toks[j]));
    }
    lemma_parse_last_literal(k, table, s, toks, p, end, i, n);
    assert(template_text(Template::End, table).len() == 0);
    if first {
        assert(toks[i].start == p) by {
            if toks[i].start > p {
                assert(is_blank(s[p]));
            }
        }
    }
    n
}

/// A placeholder joined with the rest of its template.
#[verifier::rlimit(40)]
pub proof fn lemma_template_hole(
    e: Expr,
    more: Template,
    table: Seq<Seq<char>>,
    s: Seq<char>,
    toks: Seq<Token>,
    p: int,
    lead: bool,
    first: bool,
    i: int,
    n2: int,
    n: int,
)
    requires
        0 <= p,
        0 <= i,
        i + 1 < n2 <= toks.len(),
        toks[i] == (Token { kind: TokenKind::ExprStart, start: p as usize, end: (p + 1) as usize }),
        toks[n2 - 1] == (Token {
            kind: TokenKind::ExprEnd,
            start: (p + 1 + expr_text(e, table).len()) as usize,
            end: (p + 2 + expr_text(e, table).len()) as usize,
        }),
        p + 2 + expr_text(e, table).len() <= s.len() <= usize::MAX,
        forall|j: int|
            i < j < n2 - 1 ==> is_wordy(#[trigger] toks[j]) && p < toks[j].start < toks[j].end <= p
                + 1 + expr_text(e, table).len(),
        parse_expr(s, p + 1, p + 1 + expr_text(e, table).len(), table) == parsed(
            table,
            e,
            p + 1 + expr_text(e, table).len(),
        ),
        s[p + 1 + expr_text(e, table).len()] == '}',
        template_done(more, table, s, toks, p + 2 + expr_text(e, table).len(), false, false, n2, n),
        template_text(Template::Hole(Box::new(e), Box::new(more)), table).len() == expr_text(
            e,
            table,
        ).len() + 2 + template_text(more, table).len(),
    ensures
        template_done(
            Template::Hole(Box::new(e), Box::new(more)),
            table,
            s,
            toks,
            p,
            lead,
            first,
            i,
            n,
        ),
{
    reveal(template_done);
    let q = p + 1 + expr_text(e, table).len();
    let end = q + 1 + template_text(more, table).len();
    lemma_parse_hole_first(e, more, table, s, toks, p, end, i, n2, n);
    assert forall|j: int| i <= j < n implies is_piece(#[trigger] toks[j]) && p <= toks[j].start
        < toks[j].end <= end by {
        if j == i {
        } else if j < n2 - 1 {
            assert(is_wordy(toks[j]));
        } else if j == n2 - 1 {
        } else {
        }
    }
}

/// A literal piece joined with the template behind it, which starts with a
/// placeholder.
pub proof fn lemma_template_literal_first(
    k: crate::ast::NodeLabel,
    e: Expr,
    more: Template,
    table: Seq<Seq<char>>,
    s: Seq<char>,
    toks: Seq<Token>,
    p: int,
    lead: bool,
    first: bool,
    i: int,
    n1: int,
    n: int,
)
    requires
        distinct(table),
        k.0 < table.len(),
        table[k.0 as int].len() > 0,
        first ==> !is_blank(table[k.0 as int][0]),
        0 <= p,
        p + table[k.0 as int].len() <= s.len(),
        s.subrange(p, p + table[k.0 as int].len()) == table[k.0 as int],
        0 <= i <= n1 <= toks.len(),
        forall|j: int|
            i <= j < n1 ==> is_loose(s, #[trigger] toks[j]) && p <= toks[j].start < toks[j].end <= p
                + table[k.0 as int].len(),
        (exists|j: int| p <= j < p + table[k.0 as int].len() && !is_blank(s[j])) ==> i < n1
            && !is_blank(s[toks[i].start as int]) && forall|j: int|
            p <= j < toks[i].start ==> is_blank(#[trigger] s[j]),
        i < n1 ==> (toks[i].kind == TokenKind::Label <==> label_at(s, toks[i].start as int)),
        s[p + table[k.0 as int].len()] == '{',
        template_done(
            Template::Hole(Box::new(e), Box::new(more)),
            table,
            s,
            toks,
            p + table[k.0 as int].len(),
            false,
            false,
            n1,
            n,
        ),
    ensures
        template_done(
            Template::Lit(k, Box::new(Template::Hole(Box::new(e), Box::new(more)))),
            table,
            s,
            toks,
            p,
            lead,
            first,
            i,
            n,
        ),
{
    reveal(template_done);
    let lit = table[k.0 as int];
    let p1 = p + lit.len();
    let rest = Template::Hole(Box::new(e), Box::new(more));
    let whole = Template::Lit(k, Box::new(rest));
    assert(template_text(whole, table) == lit + template_text(rest, table));
    let end = p1 + template_text(rest, table).len();
    lemma_parse_literal_first(k, e, more, table, s, toks, p, end, i, n1, n);
    lemma_at(s, p, lit, 0);
    if first {
        assert(!is_blank(s[p]));
        assert(toks[i].start == p) by {
            if toks[i].start > p {
                assert(is_blank(s[p]));
            }
        }
    }
}

/// A printed template parses back. The result is the number of tokens
/// given when its end is reached.
pub proof fn lemma_template(
    tpl: Template,
    table: Seq<Seq<char>>,
    s: Seq<char>,
    toks: Seq<Token>,
    p: int,
    lead: bool,
    first: bool,
    i: int,
) -> (n: int)
    requires
        distinct(table),
        printable_template(tpl, table, first),
        lexed_to(s, toks, p, lead, i),
        p + template_text(tpl, table).len() < s.len(),
        s.subrange(p, p + template_text(tpl, table).len()) == template_text(tpl, table),
        breaks_word(s, p + template_text(tpl, table).len()),
        lead ==> first && !rule_at(s, p, '-') && !rule_at(s, p, '=') && (tpl is Lit ==> !is_mark(
            s[p],
        )),
    ensures
        template_done(tpl, table, s, toks, p, lead, first, i, n),
    decreases tpl,
{
    match tpl {
        Template::End => {
            lemma_template_end(table, s, toks, p, lead, first, i);
            i
        },
        Template::Lit(k, rest) => {
            let lit = table[k.0 as int];
            let r = template_text(*rest, table);
            assert(template_text(tpl, table) == lit + r);
            lemma_split(s, p, lit, r);
            let p1 = p + lit.len();
            assert(printable_template(*rest, table, false));
            match *rest {
                Template::End => {
                    assert(r.len() == 0);
                    lemma_template_literal(k, table, s, toks, p, lead, first, i)
                },
                Template::Hole(e, more) => {
                    lemma_hole_starts(*e, *more, table, s, p1);
                    lemma_mild_is_loose(s, p, lit);
                    lemma_at(s, p, lit, 0);
                    let n1 = lemma_lex_loose(s, toks, p, p1, lead, i);
                    let n = lemma_template(*rest, table, s, toks, p1, false, false, n1);
                    lemma_template_literal_first(
                        k,
                        *e,
                        *more,
                        table,
                        s,
                        toks,
                        p,
                        lead,
                        first,
                        i,
                        n1,
                        n,
                    );
                    n
                },
                Template::Lit(_, _) => {
                    i
                },
            }
        },
        Template::Hole(e, more) => {
            let te = expr_text(*e, table);
            lemma_hole_starts(*e, *more, table, s, p);
            let q = p + 1 + te.len();
            let n2 = lemma_hole(*e, table, s, toks, p, lead, i);
            let n = lemma_template(*more, table, s, toks, q + 1, false, false, n2);
            assert(0 <= i);
            lemma_template_hole(*e, *more, table, s, toks, p, lead, first, i, n2, n);
            n
        },
    }
}

/// The characters of a printed placeholder with the rest of its template
/// behind it.
pub proof fn lemma_hole_starts(
    e: Expr,
    more: Template,
    table: Seq<Seq<char>>,
    s: Seq<char>,
    p: int,
)
    requires
        0 <= p,
        p + template_text(Template::Hole(Box::new(e), Box::new(more)), table).len() <= s.len(),
        s.subrange(
            p,
            p + template_text(Template::Hole(Box::new(e), Box::new(more)), table).len(),
        ) == template_text(Template::Hole(Box::new(e), Box::new(more)), table),
    ensures
        template_text(Template::Hole(Box::new(e), Box::new(more)), table).len() == expr_text(
            e,
            table,
        ).len() + 2 + template_text(more, table).len(),
        s[p] == '{',
        breaks_word(s, p),
        s.subrange(p + 1, p + 1 + expr_text(e, table).len()) == expr_text(e, table),
        s[p + 1 + expr_text(e, table).len()] == '}',
        s.subrange(
            p + 2 + expr_text(e, table).len(),
            p + 2 + expr_text(e, table).len() + template_text(more, table).len(),
        ) == template_text(more, table),
{
    let te = expr_text(e, table);
    let tm = template_text(more, table);
    let t = template_text(Template::Hole(Box::new(e), Box::new(more)), table);
    reveal_strlit("{");
    reveal_strlit("}");
    assert("{"@.len() == 1 && "}"@.len() == 1);
    assert("{"@[0] == '{' && "}"@[0] == '}');
    assert(t == (("{"@ + te) + "}"@) + tm);
    lemma_split(s, p, ("{"@ + te) + "}"@, tm);
    lemma_split(s, p, "{"@ + te, "}"@);
    lemma_split(s, p, "{"@, te);
    lemma_at(s, p, "{"@, 0);
    lemma_at(s, p + 1 + te.len(), "}"@, 0);
}

/// Whether a text starts with three `-` or three `=`: what the lexer may
/// read as a rule at the start of a line.
pub open spec fn starts_rule(t: Seq<char>) -> bool {
    t.len() >= 3 && t[0] == t[1] && t[1] == t[2] && (t[0] == '-' || t[0] == '=')
}

/// Whether a text starts with a label: a run of identifier characters
/// with a colon behind it.
pub open spec fn starts_label(t: Seq<char>) -> bool {
    &&& t.len() > 0
    &&& is_ident(t[0])
    &&& scan_end(t, 0, CharClass::Ident) < t.len()
    &&& t[scan_end(t, 0, CharClass::Ident)] == ':'
}

/// Whether a template can open a line: its first piece, where that is a
/// literal, starts with no rule, with no label, and with no closing brace
/// or square bracket.
pub open spec fn opens_line(tpl: Template, table: Seq<Seq<char>>) -> bool {
    match tpl {
        Template::Lit(k, _) => k.0 < table.len() && !starts_rule(table[k.0 as int])
            && !starts_label(table[k.0 as int]) && (table[k.0 as int].len() > 0 ==> !is_mark(
            table[k.0 as int][0],
        )),
        _ => true,
    }
}

/// A run of characters of one class inside a text that stands in `s` ends
/// in `s` where it ends in the text, where the character behind the text
/// is not of the class.
pub proof fn lemma_scan_within(s: Seq<char>, p: int, t: Seq<char>, j: int, class: CharClass)
    requires
        0 <= p,
        0 <= j <= t.len(),
        p + t.len() <= s.len(),
        s.subrange(p, p + t.len()) == t,
        p + t.len() == s.len() || !crate::text::in_class(class, s[p + t.len()]),
    ensures
        scan_end(s, p + j, class) == p + scan_end(t, j, class),
    decreases t.len() - j,
{
    if j < t.len() {
        lemma_at(s, p, t, j);
        lemma_scan_within(s, p, t, j + 1, class);
    }
}

/// A template that can open a line gives the lexer no rule at its start.
pub proof fn lemma_opens_line(tpl: Template, table: Seq<Seq<char>>, s: Seq<char>, p: int)
    requires
        printable_template(tpl, table, true),
        opens_line(tpl, table),
        !(tpl is End),
        0 <= p,
        p + template_text(tpl, table).len() < s.len(),
        s.subrange(p, p + template_text(tpl, table).len()) == template_text(tpl, table),
        is_blank(s[p + template_text(tpl, table).len()]) || s[p + template_text(tpl, table).len()]
            == '\n',
    ensures
        !rule_at(s, p, '-'),
        !rule_at(s, p, '='),
        !label_at(s, p),
        tpl is Lit ==> !is_mark(s[p]),
{
    let t = template_text(tpl, table);
    match tpl {
        Template::Lit(k, rest) => {
            let lit = table[k.0 as int];
            let r = template_text(*rest, table);
            assert(t == lit + r);
            lemma_split(s, p, lit, r);
            let q = p + lit.len();
            lemma_at(s, p, lit, 0);
            assert(printable_template(*rest, table, false));
            match *rest {
                Template::Hole(e, more) => {
                    lemma_hole_starts(*e, *more, table, s, q);
                },
                _ => {
                    assert(r.len() == 0);
                },
            }
            assert(s[q] != '-' && s[q] != '=' && s[q] != ':' && !is_ident(s[q]));
            lemma_scan_within(s, p, lit, 0, CharClass::Ident);
            crate::text::lemma_scan_end_bounds(lit, 0, CharClass::Ident);
            if scan_end(lit, 0, CharClass::Ident) < lit.len() {
                lemma_at(s, p, lit, scan_end(lit, 0, CharClass::Ident));
            }
            if lit.len() >= 3 {
                lemma_at(s, p, lit, 0);
                lemma_at(s, p, lit, 1);
                lemma_at(s, p, lit, 2);
            }
            if rule_at(s, p, '-') {
                assert(run_at(s, p, '-', 3));
                assert(s[p] == '-' && s[p + 1] == '-' && s[p + 2] == '-');
            }
            if rule_at(s, p, '=') {
                assert(run_at(s, p, '=', 3));
                assert(s[p] == '=' && s[p + 1] == '=' && s[p + 2] == '=');
            }
        },
        Template::Hole(e, more) => {
            lemma_hole_starts(*e, *more, table, s, p);
            assert(!is_ident(s[p]));
        },
        Template::End => {},
    }
}

} // verus!
