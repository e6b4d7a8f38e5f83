//! The predicates of this module's siblings, computed: whether a node is
//! one of those whose printed form is known to parse back.

use vstd::prelude::*;
use crate::ast::{Args, Expr, KeyList, KeyPairs, LineKind, Node, NodeHeader, NodeLabel, NodeLine, Template};
use crate::ast::expr::range_spells;
use crate::ast::intern::Interner;
use crate::lexer::{char_breaks_word, char_is_control, has_pair};
use crate::round_trip::expr::{is_name, is_quotable, printable, printable_args};
use crate::round_trip::lexing::{is_phrase, is_word, loose, mild, steady, steady_at};
use crate::round_trip::line::{is_keyword, no_bar, printable_line, printable_words};
use crate::round_trip::node::{distinct_keys, printable_entries, printable_header};
use crate::round_trip::template::{opens_line, printable_template, starts_label, starts_rule};
use crate::round_trip::text::printable_text;
use crate::text::{
    char_is_blank, char_is_ident, char_is_ident_start, chars_of, CharClass, is_blank, is_ident,
    lemma_scan_end_bounds, scan,
};

verus! {

/// The characters of the string of `key`, or nothing for a key that the
/// interner did not give.
pub fn key_chars(interner: &Interner, key: NodeLabel) -> (r: Option<Vec<char>>)
    ensures
        r is Some <==> key.0 < interner@.len(),
        r matches Some(v) ==> v@ == interner@[key.0 as int],
{
    match interner.get(key) {
        Some(s) => Some(chars_of(s)),
        None => None,
    }
}

/// Whether `t` is a name.
pub fn text_is_name(t: &Vec<char>) -> (r: bool)
    ensures
        r == is_name(t@),
{
    if t.len() == 0 {
        return false;
    }
    let mut j: usize = 0;
    while j < t.len()
        invariant
            j <= t.len(),
            forall|x: int| 0 <= x < j ==> is_ident(#[trigger] t@[x]),
        decreases t.len() - j,
    {
        if !char_is_ident(t[j]) {
            return false;
        }
        j += 1;
    }
    true
}

/// Whether `t` can stand between double quotes.
pub fn text_is_quotable(t: &Vec<char>) -> (r: bool)
    ensures
        r == is_quotable(t@),
{
    let mut j: usize = 0;
    while j < t.len()
        invariant
            j <= t.len(),
            forall|x: int| 0 <= x < j ==> #[trigger] t@[x] != '"' && t@[x] != '\n',
        decreases t.len() - j,
    {
        if t[j] == '"' || t[j] == '\n' {
            return false;
        }
        j += 1;
    }
    true
}

fn char_is_steady(t: &Vec<char>, j: usize) -> (r: bool)
    requires
        j < t.len(),
    ensures
        r == steady_at(t@, j as int),
{
    let c = t[j];
    if char_is_control(c) || c == '{' || c == '}' || c == '[' || c == ']' || c == '#' || c == '"' {
        return false;
    }
    if c == '<' {
        return j + 1 < t.len() && t[j + 1] != '<';
    }
    if c == '>' {
        return j + 1 < t.len() && t[j + 1] != '>';
    }
    if c == '-' {
        return j + 1 < t.len() && t[j + 1] != '>';
    }
    if c == '/' {
        return j + 1 < t.len() && t[j + 1] != '/';
    }
    true
}

/// Whether `t` is steady text.
pub fn text_is_steady(t: &Vec<char>) -> (r: bool)
    ensures
        r == steady(t@),
{
    let mut j: usize = 0;
    while j < t.len()
        invariant
            j <= t.len(),
            forall|x: int| 0 <= x < j ==> #[trigger] steady_at(t@, x),
        decreases t.len() - j,
    {
        if !char_is_steady(t, j) {
            return false;
        }
        j += 1;
    }
    true
}

/// Whether `t` is a word.
pub fn text_is_word(t: &Vec<char>) -> (r: bool)
    ensures
        r == is_word(t@),
{
    if t.len() == 0 || !text_is_steady(t) {
        return false;
    }
    let mut j: usize = 0;
    while j < t.len()
        invariant
            j <= t.len(),
            forall|x: int| 0 <= x < j ==> !is_blank(#[trigger] t@[x]) && t@[x] != ':',
        decreases t.len() - j,
    {
        if char_is_blank(t[j]) || t[j] == ':' {
            return false;
        }
        j += 1;
    }
    true
}

/// Whether `t` is a phrase.
pub fn text_is_phrase(t: &Vec<char>) -> (r: bool)
    ensures
        r == is_phrase(t@),
{
    t.len() > 0 && text_is_steady(t) && !char_is_blank(t[0]) && !char_is_blank(t[t.len() - 1])
}

/// Whether `t` holds no `|`.
pub fn text_has_no_bar(t: &Vec<char>) -> (r: bool)
    ensures
        r == no_bar(t@),
{
    let mut j: usize = 0;
    while j < t.len()
        invariant
            j <= t.len(),
            forall|x: int| 0 <= x < j ==> #[trigger] t@[x] != '|',
        decreases t.len() - j,
    {
        if t[j] == '|' {
            return false;
        }
        j += 1;
    }
    true
}

/// Whether `t` is mild text.
pub fn text_is_mild(t: &Vec<char>) -> (r: bool)
    ensures
        r == mild(t@),
{
    let n = t.len();
    if n > 0 {
        let c = t[n - 1];
        if c == '<' || c == '>' || c == '-' || c == '/' {
            return false;
        }
    }
    let mut u: Vec<char> = Vec::new();
    let mut k: usize = 0;
    while k < n
        invariant
            k <= n,
            n == t.len(),
            u@ == t@.take(k as int),
        decreases n - k,
    {
        u.push(t[k]);
        k += 1;
        assert(t@.take(k as int) =~= t@.take(k - 1).push(t@[k - 1]));
    }
    assert(t@.take(n as int) =~= t@);
    u.push(' ');
    let mut j: usize = 0;
    while j < n
        invariant
            j <= n,
            n + 1 == u.len(),
            u@ == t@.push(' '),
            loose(u@, j as int, n as int) == loose(u@, 0, n as int),
        decreases n - j,
    {
        if u[j] == '"' {
            proof {
                lemma_scan_end_bounds(u@, j + 1, CharClass::Quoted);
            }
            let q = scan(&u, j + 1, CharClass::Quoted);
            if !(q < n && u[q] == '"') {
                return false;
            }
            j = q + 1;
        } else if u[j] == '}' || u[j] == '[' || u[j] == ']' {
            j += 1;
        } else {
            let plain = (char_is_blank(u[j]) || !char_breaks_word(&u, j)) && !has_pair(
                &u,
                j,
                '/',
                '/',
            );
            if !plain {
                return false;
            }
            j += 1;
        }
    }
    true
}

/// Whether `t` starts with a rule of three `-` or `=`.
pub fn text_starts_rule(t: &Vec<char>) -> (r: bool)
    ensures
        r == starts_rule(t@),
{
    t.len() >= 3 && t[0] == t[1] && t[1] == t[2] && (t[0] == '-' || t[0] == '=')
}

/// Whether `t` starts with a label.
pub fn text_starts_label(t: &Vec<char>) -> (r: bool)
    ensures
        r == starts_label(t@),
{
    if t.len() == 0 || !char_is_ident(t[0]) {
        return false;
    }
    let e = scan(t, 0, CharClass::Ident);
    e < t.len() && t[e] == ':'
}

/// Whether `t` is the word `w`.
pub fn text_is(t: &Vec<char>, w: &str) -> (r: bool)
    ensures
        r == (t@ == w@),
{
    assert(t@.subrange(0, t@.len() as int) =~= t@);
    range_spells(t, 0, t.len(), w)
}

/// Whether `t` is one of the names of the engine's own commands.
pub fn text_is_keyword(t: &Vec<char>) -> (r: bool)
    ensures
        r == is_keyword(t@),
{
    text_is(t, "set") || text_is(t, "if") || text_is(t, "elseif") || text_is(t, "else")
        || text_is(t, "endif") || text_is(t, "stop") || text_is(t, "jump") || text_is(
        t,
        "wait",
    )
}

/// Whether `key` stands for a name.
fn key_is_name(interner: &Interner, key: NodeLabel) -> (r: bool)
    ensures
        r == (key.0 < interner@.len() && is_name(interner@[key.0 as int])),
{
    match key_chars(interner, key) {
        Some(t) => text_is_name(&t),
        None => false,
    }
}

/// Whether `key` stands for a word.
fn key_is_word(interner: &Interner, key: NodeLabel) -> (r: bool)
    ensures
        r == (key.0 < interner@.len() && is_word(interner@[key.0 as int])),
{
    match key_chars(interner, key) {
        Some(t) => text_is_word(&t),
        None => false,
    }
}

/// Whether `key` stands for a phrase.
fn key_is_phrase(interner: &Interner, key: NodeLabel) -> (r: bool)
    ensures
        r == (key.0 < interner@.len() && is_phrase(interner@[key.0 as int])),
{
    match key_chars(interner, key) {
        Some(t) => text_is_phrase(&t),
        None => false,
    }
}

/// Whether `printable` admits `e`.
pub fn admits_expr(e: &Expr, interner: &Interner) -> (r: bool)
    ensures
        r == printable(*e, interner@),
    decreases *e,
{
    match e {
        Expr::Number(n) => *n >= 0,
        Expr::Text(k) => match key_chars(interner, *k) {
            Some(t) => text_is_quotable(&t),
            None => false,
        },
        Expr::Var(k) => key_is_name(interner, *k),
        Expr::Call(k, args) => match key_chars(interner, *k) {
            Some(t) => text_is_name(&t) && char_is_ident_start(t[0]) && !text_is(&t, "true")
                && !text_is(&t, "false") && !text_is(&t, "not") && admits_args(args, interner),
            None => false,
        },
        Expr::Unary(_, a) => admits_expr(a, interner),
        Expr::Binary(_, a, b) => admits_expr(a, interner) && admits_expr(b, interner),
    }
}

/// Whether `printable_args` admits `args`.
pub fn admits_args(args: &Args, interner: &Interner) -> (r: bool)
    ensures
        r == printable_args(*args, interner@),
    decreases *args,
{
    match args {
        Args::Nil => true,
        Args::Cons(e, rest) => admits_expr(e, interner) && admits_args(rest, interner),
    }
}

/// Whether `printable_template` admits `tpl`; `first` says that nothing of
/// the template stands in front of `tpl`.
pub fn admits_template(tpl: &Template, interner: &Interner, first: bool) -> (r: bool)
    ensures
        r == printable_template(*tpl, interner@, first),
    decreases *tpl,
{
    match tpl {
        Template::End => true,
        Template::Lit(k, rest) => {
            let t = match key_chars(interner, *k) {
                Some(t) => t,
                None => {
                    return false;
                },
            };
            if t.len() == 0 || !text_is_mild(&t) {
                return false;
            }
            if first && char_is_blank(t[0]) {
                return false;
            }
            assert(**rest is End ==> printable_template(**rest, interner@, false));
            assert(t@.last() == t@[t.len() - 1]);
            match &**rest {
                Template::End => !char_is_blank(t[t.len() - 1]),
                Template::Lit(_, _) => false,
                Template::Hole(_, _) => admits_template(rest, interner, false),
            }
        },
        Template::Hole(e, rest) => admits_expr(e, interner) && admits_template(
            rest,
            interner,
            false,
        ),
    }
}

/// Whether `tpl` can open a line.
pub fn template_opens_line(tpl: &Template, interner: &Interner) -> (r: bool)
    ensures
        r == opens_line(*tpl, interner@),
{
    match tpl {
        Template::Lit(k, _) => match key_chars(interner, *k) {
            Some(t) => !text_starts_rule(&t) && !text_starts_label(&t) && (t.len() == 0 || !(t[0]
                == '}' || t[0] == '[' || t[0] == ']')),
            None => false,
        },
        _ => true,
    }
}

/// Whether every key of `list` stands for a word.
pub fn admits_words(list: &KeyList, interner: &Interner) -> (r: bool)
    ensures
        r == printable_words(*list, interner@),
    decreases *list,
{
    match list {
        KeyList::Nil => true,
        KeyList::Cons(k, rest) => key_is_word(interner, *k) && admits_words(rest, interner),
    }
}

/// Whether `printable_entries` admits the entries, and no key stands twice
/// among them.
pub fn admits_entries(pairs: &KeyPairs, interner: &Interner) -> (r: bool)
    ensures
        r == (printable_entries(*pairs, interner@) && distinct_keys(*pairs)),
    decreases *pairs,
{
    match pairs {
        KeyPairs::Nil => true,
        KeyPairs::Cons(k, v, rest) => {
            let key = match key_chars(interner, *k) {
                Some(t) => t,
                None => {
                    return false;
                },
            };
            let value = match key_chars(interner, *v) {
                Some(t) => t,
                None => {
                    return false;
                },
            };
            text_is_name(&key) && !text_is(&key, "title") && !text_is(&key, "tags") && (
            text_is_phrase(&value) || value.len() == 0) && !rest.contains(*k) && admits_entries(
                rest,
                interner,
            )
        },
    }
}

/// Whether `printable_header` admits `header`.
pub fn admits_header(header: &NodeHeader, interner: &Interner) -> (r: bool)
    ensures
        r == printable_header(*header, interner@),
{
    key_is_phrase(interner, header.title) && admits_words(&header.tags, interner) && admits_entries(
        &header.custom,
        interner,
    )
}

/// Whether `printable_text` admits a line of text.
fn admits_text(line: &NodeLine, tpl: &Template, interner: &Interner) -> (r: bool)
    requires
        line.kind == LineKind::Text(*tpl),
    ensures
        r == printable_text(*line, interner@),
{
    let speaker = match line.label {
        Some(k) => key_is_name(interner, k),
        None => true,
    };
    let tag = match line.tag {
        Some(t) => key_is_word(interner, t),
        None => true,
    };
    let full = match tpl {
        Template::End => false,
        _ => true,
    };
    speaker && tag && full && admits_template(tpl, interner, true) && (line.label.is_some()
        || template_opens_line(tpl, interner))
}

/// Whether `printable_line` admits `line`.
pub fn admits_line(line: &NodeLine, interner: &Interner) -> (r: bool)
    ensures
        r == printable_line(*line, interner@),
{
    let bare = line.tag.is_none() && line.label.is_none();
    match &line.kind {
        LineKind::Label => line.tag.is_none() && (match line.label {
            Some(k) => key_is_name(interner, k),
            None => false,
        }),
        LineKind::Else | LineKind::EndIf | LineKind::Stop | LineKind::WaitInput => bare,
        LineKind::Jump(target) => bare && key_is_phrase(interner, *target),
        LineKind::If(e) | LineKind::ElseIf(e) | LineKind::Wait(e) => bare && admits_expr(
            e,
            interner,
        ),
        LineKind::Assign(var, e) => bare && key_is_name(interner, *var) && admits_expr(e, interner),
        LineKind::Host(name, words) => match key_chars(interner, *name) {
            Some(t) => bare && text_is_word(&t) && !text_is_keyword(&t) && admits_words(words, interner),
            None => false,
        },
        LineKind::Choice(text, target) => match key_chars(interner, *text) {
            Some(t) => bare && text_is_phrase(&t) && text_has_no_bar(&t) && key_is_phrase(
                interner,
                *target,
            ),
            None => false,
        },
        LineKind::Text(tpl) => admits_text(line, tpl, interner),
        LineKind::Shortcut(tpl, guard) => bare && admits_template(tpl, interner, true) && (match guard {
            Some(e) => admits_expr(e, interner),
            None => true,
        }),
    }
}

/// Whether `printable_header` admits the header of `node` and
/// `printable_line` every line of it.
pub fn admits_parts(node: &Node, interner: &Interner) -> (r: bool)
    ensures
        r == (printable_header(node.header, interner@) && forall|k: int|
            0 <= k < node.lines@.len() ==> printable_line(#[trigger] node.lines@[k], interner@)),
{
    if !admits_header(&node.header, interner) {
        return false;
    }
    let mut i: usize = 0;
    while i < node.lines.len()
        invariant
            i <= node.lines.len(),
            forall|k: int| 0 <= k < i ==> printable_line(#[trigger] node.lines@[k], interner@),
        decreases node.lines.len() - i,
    {
        if !admits_line(&node.lines[i], interner) {
            return false;
        }
        i += 1;
    }
    true
}

} // verus!
