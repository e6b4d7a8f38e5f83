//! Printed nodes parse back: the header, the body, and the node as a whole.

use vstd::prelude::*;
use crate::ast::{KeyList, KeyPairs, Node, NodeHeader, NodeLabel, NodeLine};

use crate::ast::header::{entry_value, HeaderAcc, parse_header};
use crate::ast::intern::distinct;
use crate::ast::line::{built, Item, parse_body, parse_line};
use crate::ast::parse::parse_node;
use crate::ast::print::{entries_text, header_text, line_text, lines_text, node_text, words_text};
use crate::round_trip::lexing::{
    is_phrase, lemma_find_none, lemma_indent_stop, lemma_lex_end, lemma_lex_line_end,
    lemma_lex_start, lemma_lex_step, lemma_lex_tame, lemma_lexed_more, lemma_line_stop,
    lemma_starts_with_none, lemma_steady_is_tame, lemma_tame_join, lemma_tame_plain, lexed_to,
    plain_at,
};
use crate::round_trip::line::{
    lemma_lex_label, lemma_line, lemma_words, printable_line, printable_words,
};
use crate::round_trip::expr::{is_name, lemma_at, lemma_key_again, lemma_scan_run, lemma_split};
use crate::ast::scan::{find_kind, indent_stop, line_stop};
use crate::lexer::{rule_at, run_at, Token, TokenKind, tokens_of};
use crate::text::{CharClass, in_class, is_blank};

verus! {

/// Whether no key stands twice among the pairs.
pub open spec fn distinct_keys(pairs: KeyPairs) -> bool
    decreases pairs,
{
    match pairs {
        KeyPairs::Nil => true,
        KeyPairs::Cons(k, _, rest) => !rest.has(k) && distinct_keys(*rest),
    }
}

/// Whether the printed form of the custom entries parses back: the keys
/// are names other than `title` and `tags`, the values phrases or empty.
pub open spec fn printable_entries(pairs: KeyPairs, table: Seq<Seq<char>>) -> bool
    decreases pairs,
{
    match pairs {
        KeyPairs::Nil => true,
        KeyPairs::Cons(k, v, rest) => {
            &&& k.0 < table.len()
            &&& v.0 < table.len()
            &&& is_name(table[k.0 as int])
            &&& table[k.0 as int] != "title"@
            &&& table[k.0 as int] != "tags"@
            &&& (is_phrase(table[v.0 as int]) || table[v.0 as int].len() == 0)
            &&& printable_entries(*rest, table)
        },
    }
}

/// Whether the printed form of a header parses back to it.
pub open spec fn printable_header(header: NodeHeader, table: Seq<Seq<char>>) -> bool {
    &&& header.title.0 < table.len()
    &&& is_phrase(table[header.title.0 as int])
    &&& printable_words(header.tags, table)
    &&& printable_entries(header.custom, table)
    &&& distinct_keys(header.custom)
}

/// Whether the printed form of a node parses back to it.
pub open spec fn printable_node(node: Node, table: Seq<Seq<char>>) -> bool {
    &&& printable_header(node.header, table)
    &&& forall|k: int| 0 <= k < node.lines@.len() ==> printable_line(#[trigger] node.lines@[k], table)
    &&& node_text(node, table).len() <= usize::MAX
}

/// A header line `key: value`: the lexer reads the key as a `Label` and the
/// value as words, up to and with the line feed. The result is the place
/// of the line feed among the tokens.
pub proof fn lemma_lex_entry(
    s: Seq<char>,
    toks: Seq<Token>,
    p: int,
    i: int,
    key: Seq<char>,
    value: Seq<char>,
) -> (e: int)
    requires
        lexed_to(s, toks, p, true, i),
        0 <= p,
        p + key.len() + 2 + value.len() < s.len(),
        is_name(key),
        s.subrange(p, p + key.len()) == key,
        s[p + key.len()] == ':',
        s[p + key.len() + 1] == ' ',
        s.subrange(p + key.len() + 2, p + key.len() + 2 + value.len()) == value,
        is_phrase(value) || value.len() == 0,
        s[p + key.len() + 2 + value.len()] == '\n',
    ensures
        i < e < toks.len(),
        e + 1 < toks.len(),
        toks[i] == (Token {
            kind: TokenKind::Label,
            start: p as usize,
            end: (p + key.len() + 1) as usize,
        }),
        toks[e].kind == TokenKind::LineEnd,
        indent_stop(toks, i) == i,
        line_stop(toks, i) == e,
        find_kind(toks, i, e, TokenKind::Error) == e,
        lexed_to(s, toks, p + key.len() + 2 + value.len() + 1, true, e + 1),
        entry_value(s, toks, i, e) == value,
        value.len() > 0 ==> i + 1 < e,
        value.len() == 0 ==> i + 1 == e,
{
    let colon = p + key.len();
    let vs = colon + 2;
    let end = vs + value.len();
    assert forall|j: int| p <= j < colon implies in_class(CharClass::Ident, #[trigger] s[j]) by {
        lemma_at(s, p, key, j - p);
    }
    lemma_scan_run(s, p, colon, CharClass::Ident);
    lemma_at(s, p, key, 0);
    lemma_lex_label(s, toks, p, colon, i);
    if value.len() > 0 {
        lemma_steady_is_tame(s, vs, value);
        lemma_at(s, vs, value, 0);
        lemma_at(s, vs, value, value.len() - 1);
    }
    assert(plain_at(s, colon + 1));
    lemma_tame_plain(s, colon + 1, vs);
    lemma_tame_join(s, colon + 1, vs, end);
    let n = lemma_lex_tame(s, toks, colon + 1, end, false, i + 1);
    lemma_lex_line_end(s, toks, end, false, n);
    lemma_lexed_more(s, toks, end + 1, true, n + 1);
    lemma_line_stop(toks, i, n);
    lemma_find_none(toks, i, n, TokenKind::Error);
    if value.len() > 0 {
        assert(!is_blank(s[vs]));
        assert(toks[i + 1].start == vs) by {
            if toks[i + 1].start > vs {
                assert(is_blank(s[vs]));
            }
            if toks[i + 1].start < vs {
                assert(toks[i + 1].start == colon + 1);
            }
        }
    } else {
        assert(forall|j: int| colon + 1 <= j < end ==> is_blank(#[trigger] s[j]));
        assert(n == i + 1);
        assert(s.subrange(0, 0) =~= Seq::<char>::empty());
        assert(value =~= Seq::<char>::empty());
    }
    n
}

/// The pairs of `done` with those of `rest` behind them.
pub open spec fn joined(done: KeyPairs, rest: KeyPairs) -> KeyPairs
    decreases done,
{
    match done {
        KeyPairs::Nil => rest,
        KeyPairs::Cons(k, v, more) => KeyPairs::Cons(k, v, Box::new(joined(*more, rest))),
    }
}

/// A pair added at the end is the first of what follows.
pub proof fn lemma_joined_with(done: KeyPairs, k: NodeLabel, v: NodeLabel, rest: KeyPairs)
    ensures
        joined(done.with(k, v), rest) == joined(done, KeyPairs::Cons(k, v, Box::new(rest))),
        forall|x: NodeLabel| done.with(k, v).has(x) == (done.has(x) || x == k),
        joined(done, KeyPairs::Nil) == done,
    decreases done,
{
    match done {
        KeyPairs::Nil => {
            let one = KeyPairs::Cons(k, v, Box::new(KeyPairs::Nil));
            assert(done.with(k, v) == one);
            assert(joined(KeyPairs::Nil, rest) == rest);
            assert(joined(one, rest) == KeyPairs::Cons(k, v, Box::new(rest)));
            assert forall|x: NodeLabel| one.has(x) == (done.has(x) || x == k) by {
                assert(!KeyPairs::Nil.has(x));
            }
        },
        KeyPairs::Cons(k0, v0, more) => {
            lemma_joined_with(*more, k, v, rest);
            assert forall|x: NodeLabel| done.with(k, v).has(x) == (done.has(x) || x == k) by {
                assert(more.with(k, v).has(x) == (more.has(x) || x == k));
            }
        },
    }
}

/// The characters of the two names that a header knows.
pub proof fn lemma_header_names()
    ensures
        is_name("title"@),
        is_name("tags"@),
        "title"@ != "tags"@,
        "title"@.len() == 5,
        "tags"@.len() == 4,
{
    reveal_strlit("title");
    reveal_strlit("tags");
    assert("title"@.len() == 5);
    assert("tags"@.len() == 4);
}

/// The title line of a printed header: the parser goes on behind it with
/// the title. The result is the place of the first token of the next line.
pub proof fn lemma_header_title(
    title: NodeLabel,
    table: Seq<Seq<char>>,
    s: Seq<char>,
    toks: Seq<Token>,
    p: int,
    i: int,
) -> (n: int)
    requires
        distinct(table),
        title.0 < table.len(),
        is_phrase(table[title.0 as int]),
        lexed_to(s, toks, p, true, i),
        p + 8 + table[title.0 as int].len() <= s.len(),
        s.subrange(p, p + 8 + table[title.0 as int].len()) == ("title: "@ + table[title.0 as int])
            + "\n"@,
    ensures
        i < n < toks.len(),
        lexed_to(s, toks, p + 8 + table[title.0 as int].len(), true, n),
        parse_header(s, toks, i, table, HeaderAcc::none()) == parse_header(
            s,
            toks,
            n,
            table,
            HeaderAcc { title: Some(title), tags: None, custom: KeyPairs::Nil },
        ),
{
    let t = table[title.0 as int];
    let lit = "title: "@;
    reveal_strlit("title: ");
    reveal_strlit("title");
    reveal_strlit("\n");
    assert(lit.len() == 7);
    assert("\n"@.len() == 1);
    lemma_header_names();
    lemma_split(s, p, lit + t, "\n"@);
    lemma_split(s, p, lit, t);
    lemma_at(s, p, lit, 0);
    lemma_at(s, p, lit, 1);
    lemma_at(s, p, lit, 2);
    lemma_at(s, p, lit, 3);
    lemma_at(s, p, lit, 4);
    lemma_at(s, p, lit, 5);
    lemma_at(s, p, lit, 6);
    assert(lit[0] == 't' && lit[1] == 'i' && lit[2] == 't' && lit[3] == 'l' && lit[4] == 'e'
        && lit[5] == ':' && lit[6] == ' ');
    assert("title"@[0] == 't' && "title"@[1] == 'i' && "title"@[2] == 't' && "title"@[3] == 'l'
        && "title"@[4] == 'e');
    assert(s.subrange(p, p + 5) =~= "title"@);
    lemma_at(s, p + 7 + t.len(), "\n"@, 0);
    assert("\n"@[0] == '\n');
    let e = lemma_lex_entry(s, toks, p, i, "title"@, t);
    lemma_key_again(table, title);
    assert(s.subrange(toks[i].start as int, toks[i].end - 1) == "title"@);
    e + 1
}

/// The tags line of a printed header. The result is the place of the first
/// token of the next line.
pub proof fn lemma_header_tags(
    title: NodeLabel,
    tags: KeyList,
    table: Seq<Seq<char>>,
    s: Seq<char>,
    toks: Seq<Token>,
    p: int,
    i: int,
) -> (n: int)
    requires
        distinct(table),
        tags is Cons,
        printable_words(tags, table),
        lexed_to(s, toks, p, true, i),
        p + 6 + words_text(tags, table).len() <= s.len(),
        s.subrange(p, p + 6 + words_text(tags, table).len()) == ("tags:"@ + words_text(
            tags,
            table,
        )) + "\n"@,
    ensures
        i < n < toks.len(),
        lexed_to(s, toks, p + 6 + words_text(tags, table).len(), true, n),
        parse_header(
            s,
            toks,
            i,
            table,
            HeaderAcc { title: Some(title), tags: None, custom: KeyPairs::Nil },
        ) == parse_header(
            s,
            toks,
            n,
            table,
            HeaderAcc { title: Some(title), tags: Some(tags), custom: KeyPairs::Nil },
        ),
{
    let w = words_text(tags, table);
    let lit = "tags:"@;
    reveal_strlit("tags:");
    reveal_strlit("tags");
    reveal_strlit("\n");
    assert(lit.len() == 5);
    assert("\n"@.len() == 1);
    lemma_header_names();
    lemma_split(s, p, lit + w, "\n"@);
    lemma_split(s, p, lit, w);
    lemma_at(s, p, lit, 0);
    lemma_at(s, p, lit, 1);
    lemma_at(s, p, lit, 2);
    lemma_at(s, p, lit, 3);
    lemma_at(s, p, lit, 4);
    assert(lit[0] == 't' && lit[1] == 'a' && lit[2] == 'g' && lit[3] == 's' && lit[4] == ':');
    assert("tags"@[0] == 't' && "tags"@[1] == 'a' && "tags"@[2] == 'g' && "tags"@[3] == 's');
    assert(s.subrange(p, p + 4) =~= "tags"@);
    let end = p + 5 + w.len();
    lemma_at(s, end, "\n"@, 0);
    assert("\n"@[0] == '\n');
    assert forall|j: int| p <= j < p + 4 implies in_class(CharClass::Ident, #[trigger] s[j]) by {}
    lemma_scan_run(s, p, p + 4, CharClass::Ident);
    lemma_lex_label(s, toks, p, p + 4, i);
    let e = lemma_words(tags, table, s, toks, p + 5, i + 1);
    lemma_lex_line_end(s, toks, end, false, e);
    lemma_lexed_more(s, toks, end + 1, true, e + 1);
    lemma_line_stop(toks, i, e);
    lemma_find_none(toks, i, e, TokenKind::Error);
    assert(s.subrange(toks[i].start as int, toks[i].end - 1) == "tags"@);
    e + 1
}

/// The custom entries of a printed header, behind those in `done`. The
/// result is the place of the first token behind them.
pub proof fn lemma_header_entries(
    title: NodeLabel,
    tags: Option<KeyList>,
    done: KeyPairs,
    rest: KeyPairs,
    table: Seq<Seq<char>>,
    s: Seq<char>,
    toks: Seq<Token>,
    p: int,
    i: int,
) -> (n: int)
    requires
        distinct(table),
        printable_entries(rest, table),
        distinct_keys(rest),
        forall|x: NodeLabel| rest.has(x) ==> !done.has(x),
        lexed_to(s, toks, p, true, i),
        p + entries_text(rest, table).len() <= s.len(),
        s.subrange(p, p + entries_text(rest, table).len()) == entries_text(rest, table),
    ensures
        i <= n <= toks.len(),
        lexed_to(s, toks, p + entries_text(rest, table).len(), true, n),
        parse_header(s, toks, i, table, HeaderAcc { title: Some(title), tags, custom: done })
            == parse_header(
            s,
            toks,
            n,
            table,
            HeaderAcc { title: Some(title), tags, custom: joined(done, rest) },
        ),
    decreases rest,
{
    match rest {
        KeyPairs::Nil => {
            lemma_joined_with(done, title, title, KeyPairs::Nil);
            i
        },
        KeyPairs::Cons(k, v, more) => {
            let key = table[k.0 as int];
            let value = table[v.0 as int];
            let r = entries_text(*more, table);
            reveal_strlit(": ");
            reveal_strlit("\n");
            assert(": "@.len() == 2);
            assert("\n"@.len() == 1);
            assert(entries_text(rest, table) == (((key + ": "@) + value) + "\n"@) + r);
            lemma_split(s, p, ((key + ": "@) + value) + "\n"@, r);
            lemma_split(s, p, (key + ": "@) + value, "\n"@);
            lemma_split(s, p, key + ": "@, value);
            lemma_split(s, p, key, ": "@);
            lemma_at(s, p + key.len(), ": "@, 0);
            lemma_at(s, p + key.len(), ": "@, 1);
            assert(": "@[0] == ':' && ": "@[1] == ' ');
            lemma_at(s, p + key.len() + 2 + value.len(), "\n"@, 0);
            assert("\n"@[0] == '\n');
            lemma_header_names();
            let e = lemma_lex_entry(s, toks, p, i, key, value);
            lemma_key_again(table, k);
            lemma_key_again(table, v);
            assert(s.subrange(toks[i].start as int, toks[i].end - 1) == key);
            assert(!done.has(k)) by {
                assert(rest.has(k));
            }
            lemma_joined_with(done, k, v, *more);
            assert forall|x: NodeLabel| more.has(x) implies !done.with(k, v).has(x) by {
                assert(rest.has(x));
            }
            let q = p + key.len() + 2 + value.len() + 1;
            let n = lemma_header_entries(
                title,
                tags,
                done.with(k, v),
                *more,
                table,
                s,
                toks,
                q,
                e + 1,
            );
            assert(parse_header(
                s,
                toks,
                i,
                table,
                HeaderAcc { title: Some(title), tags, custom: done },
            ) == parse_header(
                s,
                toks,
                e + 1,
                table,
                HeaderAcc { title: Some(title), tags, custom: done.with(k, v) },
            ));
            n
        },
    }
}

/// The line `---` that closes a printed header. The result is the place of
/// the first token of the body.
pub proof fn lemma_header_end(
    header: NodeHeader,
    tags: Option<KeyList>,
    table: Seq<Seq<char>>,
    s: Seq<char>,
    toks: Seq<Token>,
    p: int,
    i: int,
) -> (n: int)
    requires
        lexed_to(s, toks, p, true, i),
        p + 4 <= s.len(),
        s.subrange(p, p + 4) == "---\n"@,
        header.tags == (match tags {
            Some(list) => list,
            None => KeyList::Nil,
        }),
    ensures
        n == i + 2,
        n < toks.len(),
        lexed_to(s, toks, p + 4, true, n),
        parse_header(
            s,
            toks,
            i,
            table,
            HeaderAcc { title: Some(header.title), tags, custom: header.custom },
        ) == built(table, header, n),
{
    let lit = "---\n"@;
    reveal_strlit("---\n");
    assert(lit.len() == 4);
    lemma_at(s, p, lit, 0);
    lemma_at(s, p, lit, 1);
    lemma_at(s, p, lit, 2);
    lemma_at(s, p, lit, 3);
    assert(lit[0] == '-' && lit[1] == '-' && lit[2] == '-' && lit[3] == '\n');
    assert(run_at(s, p, '-', 3));
    assert(rule_at(s, p, '-'));
    lemma_lex_step(s, toks, p, true, i);
    lemma_lex_line_end(s, toks, p + 3, false, i + 1);
    lemma_lexed_more(s, toks, p + 4, true, i + 2);
    lemma_line_stop(toks, i, i + 1);
    lemma_find_none(toks, i, i + 1, TokenKind::Error);
    i + 2
}

/// A printed header parses back. The result is the place of the first
/// token of the body.
pub proof fn lemma_header(
    header: NodeHeader,
    table: Seq<Seq<char>>,
    s: Seq<char>,
    toks: Seq<Token>,
    p: int,
    i: int,
) -> (n: int)
    requires
        distinct(table),
        printable_header(header, table),
        lexed_to(s, toks, p, true, i),
        p + header_text(header, table).len() <= s.len(),
        s.subrange(p, p + header_text(header, table).len()) == header_text(header, table),
    ensures
        i < n < toks.len(),
        lexed_to(s, toks, p + header_text(header, table).len(), true, n),
        parse_header(s, toks, i, table, HeaderAcc::none()) == built(table, header, n),
{
    let t = table[header.title.0 as int];
    let tags_text = match header.tags {
        KeyList::Nil => Seq::<char>::empty(),
        _ => ("tags:"@ + words_text(header.tags, table)) + "\n"@,
    };
    let e = entries_text(header.custom, table);
    let first = ("title: "@ + t) + "\n"@;
    reveal_strlit("title: ");
    reveal_strlit("tags:");
    reveal_strlit("\n");
    reveal_strlit("---\n");
    assert("title: "@.len() == 7);
    assert("tags:"@.len() == 5);
    assert("\n"@.len() == 1);
    assert("---\n"@.len() == 4);
    assert(header_text(header, table) == ((first + tags_text) + e) + "---\n"@);
    lemma_split(s, p, (first + tags_text) + e, "---\n"@);
    lemma_split(s, p, first + tags_text, e);
    lemma_split(s, p, first, tags_text);
    let n1 = lemma_header_title(header.title, table, s, toks, p, i);
    let p1 = p + first.len();
    let p2 = p1 + tags_text.len();
    let p3 = p2 + e.len();
    match header.tags {
        KeyList::Nil => {
            lemma_joined_with(KeyPairs::Nil, header.title, header.title, header.custom);
            assert(joined(KeyPairs::Nil, header.custom) == header.custom);
            let n3 = lemma_header_entries(
                header.title,
                None,
                KeyPairs::Nil,
                header.custom,
                table,
                s,
                toks,
                p2,
                n1,
            );
            let n4 = lemma_header_end(header, None, table, s, toks, p3, n3);
            n4
        },
        KeyList::Cons(_, _) => {
            let n2 = lemma_header_tags(header.title, header.tags, table, s, toks, p1, n1);
            assert(joined(KeyPairs::Nil, header.custom) == header.custom);
            let n3 = lemma_header_entries(
                header.title,
                Some(header.tags),
                KeyPairs::Nil,
                header.custom,
                table,
                s,
                toks,
                p2,
                n2,
            );
            let n4 = lemma_header_end(header, Some(header.tags), table, s, toks, p3, n3);
            n4
        },
    }
}

/// The texts of the first lines stand where the text of all lines stands,
/// one behind the other.
pub proof fn lemma_lines_in_place(
    lines: Seq<NodeLine>,
    n: int,
    k: int,
    table: Seq<Seq<char>>,
    s: Seq<char>,
    p: int,
)
    requires
        0 <= k <= n <= lines.len(),
        0 <= p,
        p + lines_text(lines, n, table).len() <= s.len(),
        s.subrange(p, p + lines_text(lines, n, table).len()) == lines_text(lines, n, table),
    ensures
        lines_text(lines, k, table).len() <= lines_text(lines, n, table).len(),
        s.subrange(p, p + lines_text(lines, k, table).len()) == lines_text(lines, k, table),
        k < n ==> lines_text(lines, k + 1, table) == lines_text(lines, k, table) + line_text(
            lines[k],
            table,
        ) && lines_text(lines, k + 1, table).len() <= lines_text(lines, n, table).len()
            && s.subrange(
            p + lines_text(lines, k, table).len(),
            p + lines_text(lines, k + 1, table).len(),
        ) == line_text(lines[k], table),
    decreases n - k,
{
    if k < n {
        lemma_lines_in_place(lines, n, k + 1, table, s, p);
        lemma_split(s, p, lines_text(lines, k, table), line_text(lines[k], table));
    }
}

/// The line `===` that closes a printed node, at the end of the text.
pub proof fn lemma_node_end(
    table: Seq<Seq<char>>,
    s: Seq<char>,
    toks: Seq<Token>,
    p: int,
    i: int,
)
    requires
        lexed_to(s, toks, p, true, i),
        p + 4 == s.len(),
        s.subrange(p, p + 4) == "===\n"@,
    ensures
        toks.len() == i + 3,
        parse_line(s, toks, i, table) == built(table, Item::End, i + 2),
{
    let lit = "===\n"@;
    reveal_strlit("===\n");
    assert(lit.len() == 4);
    lemma_at(s, p, lit, 0);
    lemma_at(s, p, lit, 1);
    lemma_at(s, p, lit, 2);
    lemma_at(s, p, lit, 3);
    assert(lit[0] == '=' && lit[1] == '=' && lit[2] == '=' && lit[3] == '\n');
    assert(run_at(s, p, '=', 3));
    assert(rule_at(s, p, '='));
    lemma_lex_step(s, toks, p, true, i);
    lemma_lex_line_end(s, toks, p + 3, false, i + 1);
    lemma_lex_end(s, toks, true, i + 2);
    lemma_line_stop(toks, i, i + 1);
    lemma_find_none(toks, i, i + 1, TokenKind::Error);
    lemma_indent_stop(toks, i, i);
    lemma_starts_with_none(s, toks, i, i, '\t');
}

/// The lines of a printed body from line `k` on parse back, behind the
/// lines before them.
pub proof fn lemma_body(
    lines: Seq<NodeLine>,
    k: int,
    table: Seq<Seq<char>>,
    s: Seq<char>,
    toks: Seq<Token>,
    p: int,
    i: int,
)
    requires
        distinct(table),
        0 <= k <= lines.len(),
        forall|j: int| 0 <= j < lines.len() ==> printable_line(#[trigger] lines[j], table),
        0 <= p,
        p + lines_text(lines, lines.len() as int, table).len() + 4 == s.len(),
        s.subrange(p, p + lines_text(lines, lines.len() as int, table).len()) == lines_text(
            lines,
            lines.len() as int,
            table,
        ),
        s.subrange(p + lines_text(lines, lines.len() as int, table).len(), s.len() as int)
            == "===\n"@,
        lexed_to(s, toks, p + lines_text(lines, k, table).len(), true, i),
    ensures
        toks.len() > 0,
        parse_body(s, toks, i, table, lines.take(k)) == built(table, lines, toks.len() - 1),
    decreases lines.len() - k,
{
    let n = lines.len() as int;
    lemma_lines_in_place(lines, n, k, table, s, p);
    let pk = p + lines_text(lines, k, table).len();
    if k < n {
        let next = lemma_line(lines[k], table, s, toks, pk, i);
        assert(lines.take(k).push(lines[k]) =~= lines.take(k + 1));
        lemma_body(lines, k + 1, table, s, toks, p, next);
    } else {
        lemma_node_end(table, s, toks, pk, i);
        assert(lines.take(k) =~= lines);
    }
}

/// The printed form of a printable node parses back to the node: the same
/// header and the same lines, with nothing new interned and the whole text
/// taken.
pub proof fn law_printed_node_parses_back(node: Node, table: Seq<Seq<char>>)
    requires
        distinct(table),
        printable_node(node, table),
    ensures
        ({
            let text = node_text(node, table);
            let toks = tokens_of(text);
            toks.len() > 0 && parse_node(text, toks, 0, table) == built(
                table,
                (node.header, node.lines@),
                toks.len() - 1,
            )
        }),
{
    let text = node_text(node, table);
    let toks = tokens_of(text);
    let h = header_text(node.header, table);
    let l = lines_text(node.lines@, node.lines@.len() as int, table);
    reveal_strlit("===\n");
    assert("===\n"@.len() == 4);
    assert(text == (h + l) + "===\n"@);
    assert(text.subrange(0, text.len() as int) =~= text);
    lemma_split(text, 0, h + l, "===\n"@);
    lemma_split(text, 0, h, l);
    lemma_lex_start(text);
    let n = lemma_header(node.header, table, text, toks, 0, 0);
    assert(lines_text(node.lines@, 0, table).len() == 0);
    lemma_body(node.lines@, 0, table, text, toks, h.len() as int, n);
    assert(node.lines@.take(0) =~= Seq::<NodeLine>::empty());
}

} // verus!
