//! The header of a node: `key: value` lines closed by `---`.

use vstd::prelude::*;
use crate::ast::{KeyList, KeyPairs, NodeHeader, NodeLabel, SyntaxKind};
use crate::ast::expr::{intern_range, range_spells, spells, try_interned};
use crate::ast::intern::Interner;
use crate::ast::line::{builds, Built, built, Fault, fault, next_line};
use crate::ast::scan::{
    find_kind, indent_stop, line_stop, seek_indent_stop, seek_kind, seek_line_stop,
};
use crate::ast::template::{parse_words, read_words};
use crate::lexer::{Token, TokenKind, tokens_ok};

verus! {

/// The header entries read so far.
pub struct HeaderAcc {
    pub title: Option<NodeLabel>,
    pub tags: Option<KeyList>,
    pub custom: KeyPairs,
}

impl HeaderAcc {
    pub open spec fn none() -> HeaderAcc {
        HeaderAcc { title: None, tags: None, custom: KeyPairs::Nil }
    }

    pub open spec fn is_none(self) -> bool {
        self.title is None && self.tags is None && self.custom is Nil
    }
}

/// The value of the header entry whose key is token `a`, on a line that
/// token `e` ends: the text from the first token behind the key to the
/// last token of the line, or the empty text.
pub open spec fn entry_value(s: Seq<char>, toks: Seq<Token>, a: int, e: int) -> Seq<char> {
    if 0 <= a && a + 1 < e <= toks.len() && toks[a + 1].start <= toks[e - 1].end <= s.len() {
        s.subrange(toks[a + 1].start as int, toks[e - 1].end as int)
    } else {
        Seq::empty()
    }
}

/// The header from token `i` on, with `acc` the entries read before.
///
/// Each entry is a key with a colon and a value on one line; `---` alone
/// on its line closes the header. `title` is required and may stand once;
/// `tags` holds a list of words; any other key goes to the custom entries,
/// where no key may stand twice. Blank lines and `#` comments are passed
/// over. The first token of a line decides: a line that starts with
/// anything but a key is no header item, whatever follows on it; an entry
/// that holds unrecognized characters behind its key is refused for
/// those. The end of the text before any entry is the clean end of a
/// script, `Empty`.
pub open spec fn parse_header(
    s: Seq<char>,
    toks: Seq<Token>,
    i: int,
    table: Seq<Seq<char>>,
    acc: HeaderAcc,
) -> Built<NodeHeader>
    decreases toks.len() - i,
{
    let a = indent_stop(toks, i);
    let e = line_stop(toks, a);
    let next = next_line(toks, e);
    if !(0 <= i <= a <= e < toks.len()) {
        fault(table, SyntaxKind::UnexpectedEof, i)
    } else {
        match toks[a].kind {
            TokenKind::LineEnd | TokenKind::Tag => if i < next {
                parse_header(s, toks, next, table, acc)
            } else {
                fault(table, SyntaxKind::UnexpectedEof, a)
            },
            TokenKind::Eof => if acc.is_none() {
                fault(table, SyntaxKind::Empty, a)
            } else {
                fault(table, SyntaxKind::UnterminatedHeader, a)
            },
            TokenKind::NodeEnd => fault(table, SyntaxKind::UnterminatedHeader, a),
            TokenKind::HeaderEnd => if e != a + 1 {
                fault(table, SyntaxKind::HeaderItem, a)
            } else {
                match acc.title {
                    None => fault(table, SyntaxKind::MissingTitle, a),
                    Some(title) => built(
                        table,
                        NodeHeader {
                            title,
                            tags: match acc.tags {
                                Some(list) => list,
                                None => KeyList::Nil,
                            },
                            custom: acc.custom,
                        },
                        next,
                    ),
                }
            },
            TokenKind::Label => {
                let lo = toks[a].start as int;
                let hi = toks[a].end - 1;
                if !(0 <= lo <= hi < s.len() && i < next) || find_kind(
                    toks,
                    a,
                    e,
                    TokenKind::Error,
                ) < e {
                    fault(table, SyntaxKind::BadToken, a)
                } else if spells(s, lo, hi, "title"@) {
                    if acc.title is Some {
                        fault(table, SyntaxKind::DuplicateHeaderKey, a)
                    } else if a + 1 >= e {
                        fault(table, SyntaxKind::HeaderItem, a)
                    } else {
                        match try_interned(table, entry_value(s, toks, a, e)) {
                            (t, None) => fault(t, SyntaxKind::TooManyStrings, a),
                            (t, Some(key)) => parse_header(
                                s,
                                toks,
                                next,
                                t,
                                HeaderAcc { title: Some(key), tags: acc.tags, custom: acc.custom },
                            ),
                        }
                    }
                } else if spells(s, lo, hi, "tags"@) {
                    if acc.tags is Some {
                        fault(table, SyntaxKind::DuplicateHeaderKey, a)
                    } else {
                        let words = parse_words(s, toks, a + 1, e, table);
                        match words.out {
                            Err(k) => fault(words.table, k, a),
                            Ok((list, _)) => parse_header(
                                s,
                                toks,
                                next,
                                words.table,
                                HeaderAcc {
                                    title: acc.title,
                                    tags: Some(list),
                                    custom: acc.custom,
                                },
                            ),
                        }
                    }
                } else {
                    match try_interned(table, s.subrange(lo, hi)) {
                        (t, None) => fault(t, SyntaxKind::TooManyStrings, a),
                        (t, Some(key)) => if acc.custom.has(key) {
                            fault(t, SyntaxKind::DuplicateHeaderKey, a)
                        } else {
                            match try_interned(t, entry_value(s, toks, a, e)) {
                                (u, None) => fault(u, SyntaxKind::TooManyStrings, a),
                                (u, Some(value)) => parse_header(
                                    s,
                                    toks,
                                    next,
                                    u,
                                    HeaderAcc {
                                        title: acc.title,
                                        tags: acc.tags,
                                        custom: acc.custom.with(key, value),
                                    },
                                ),
                            }
                        },
                    }
                }
            },
            _ => fault(table, SyntaxKind::HeaderItem, a),
        }
    }
}

pub fn read_entry_value(src: &Vec<char>, toks: &Vec<Token>, a: usize, e: usize, interner: &mut Interner) -> (r:
    Option<NodeLabel>)
    requires
        old(interner).wf(),
        a < e < toks.len(),
        tokens_ok(toks@, src@.len() as int),
    ensures
        final(interner).wf(),
        crate::ast::intern::extends(final(interner)@, old(interner)@),
        (final(interner)@, r) == try_interned(
            old(interner)@,
            entry_value(src@, toks@, a as int, e as int),
        ),
{
    if a + 1 < e {
        intern_range(src, toks[a + 1].start, toks[e - 1].end, interner)
    } else {
        assert(src@.subrange(0, 0) =~= Seq::<char>::empty());
        intern_range(src, 0, 0, interner)
    }
}

/// The title of the header that starts at token `i`, as the text says it:
/// the value of the first entry whose key is `title`, or the empty text
/// where the header has none.
pub open spec fn title_value(s: Seq<char>, toks: Seq<Token>, i: int) -> Seq<char>
    decreases toks.len() - i,
{
    let a = indent_stop(toks, i);
    let e = line_stop(toks, a);
    let next = next_line(toks, e);
    if !(0 <= i <= a <= e < toks.len()) || next <= i {
        Seq::empty()
    } else if toks[a].kind == TokenKind::Label && spells(
        s,
        toks[a].start as int,
        toks[a].end - 1,
        "title"@,
    ) {
        entry_value(s, toks, a, e)
    } else if toks[a].kind == TokenKind::HeaderEnd || toks[a].kind == TokenKind::Eof || toks[a].kind
        == TokenKind::NodeEnd {
        Seq::empty()
    } else {
        title_value(s, toks, next)
    }
}

/// The custom entries of the header that starts at token `i`, as the text
/// says them: the key and the value of each entry whose key is neither
/// `title` nor `tags`, in order.
pub open spec fn entry_texts(s: Seq<char>, toks: Seq<Token>, i: int) -> Seq<(Seq<char>, Seq<char>)>
    decreases toks.len() - i,
{
    let a = indent_stop(toks, i);
    let e = line_stop(toks, a);
    let next = next_line(toks, e);
    if !(0 <= i <= a <= e < toks.len()) || next <= i {
        Seq::empty()
    } else if toks[a].kind == TokenKind::Label {
        let lo = toks[a].start as int;
        let hi = toks[a].end - 1;
        if spells(s, lo, hi, "title"@) || spells(s, lo, hi, "tags"@) || !(0 <= lo <= hi < s.len()) {
            entry_texts(s, toks, next)
        } else {
            seq![(s.subrange(lo, hi), entry_value(s, toks, a, e))] + entry_texts(s, toks, next)
        }
    } else if toks[a].kind == TokenKind::LineEnd || toks[a].kind == TokenKind::Tag {
        entry_texts(s, toks, next)
    } else {
        Seq::empty()
    }
}

/// Whether every key and every value of the pairs is a key of `table`.
pub open spec fn keys_in(pairs: KeyPairs, table: Seq<Seq<char>>) -> bool
    decreases pairs,
{
    match pairs {
        KeyPairs::Nil => true,
        KeyPairs::Cons(k, v, rest) => k.0 < table.len() && v.0 < table.len() && keys_in(
            *rest,
            table,
        ),
    }
}

/// The strings that the pairs stand for in `table`.
pub open spec fn entry_strings(pairs: KeyPairs, table: Seq<Seq<char>>) -> Seq<
    (Seq<char>, Seq<char>),
>
    decreases pairs,
{
    match pairs {
        KeyPairs::Nil => Seq::empty(),
        KeyPairs::Cons(k, v, rest) => seq![(table[k.0 as int], table[v.0 as int])] + entry_strings(
            *rest,
            table,
        ),
    }
}

/// Pairs stand for the same strings in a table that extends theirs.
pub proof fn lemma_entries_stay(pairs: KeyPairs, before: Seq<Seq<char>>, after: Seq<Seq<char>>)
    requires
        keys_in(pairs, before),
        crate::ast::intern::extends(after, before),
    ensures
        keys_in(pairs, after),
        entry_strings(pairs, after) == entry_strings(pairs, before),
    decreases pairs,
{
    match pairs {
        KeyPairs::Nil => {},
        KeyPairs::Cons(k, v, rest) => {
            lemma_entries_stay(*rest, before, after);
            assert(after[k.0 as int] == before[k.0 as int]);
            assert(after[v.0 as int] == before[v.0 as int]);
        },
    }
}

/// A pair put behind the others stands for its strings behind theirs.
pub proof fn lemma_entries_with(
    pairs: KeyPairs,
    key: NodeLabel,
    value: NodeLabel,
    table: Seq<Seq<char>>,
)
    requires
        keys_in(pairs, table),
        key.0 < table.len(),
        value.0 < table.len(),
    ensures
        keys_in(pairs.with(key, value), table),
        entry_strings(pairs.with(key, value), table) == entry_strings(pairs, table).push(
            (table[key.0 as int], table[value.0 as int]),
        ),
    decreases pairs,
{
    match pairs {
        KeyPairs::Nil => {
            assert(keys_in(KeyPairs::Nil, table));
            assert(entry_strings(KeyPairs::Nil, table) =~= Seq::empty());
            assert(entry_strings(pairs.with(key, value), table) =~= entry_strings(
                pairs,
                table,
            ).push((table[key.0 as int], table[value.0 as int])));
        },
        KeyPairs::Cons(k, v, rest) => {
            lemma_entries_with(*rest, key, value, table);
            assert(entry_strings(pairs.with(key, value), table) =~= entry_strings(
                pairs,
                table,
            ).push((table[key.0 as int], table[value.0 as int])));
        },
    }
}

/// Parses the header that starts at token `i`. The key of the title stands
/// for the title as the text says it, and the custom entries for their keys
/// and values as the text says them.
#[verifier::rlimit(80)]
pub fn read_header(src: &Vec<char>, toks: &Vec<Token>, i: usize, interner: &mut Interner) -> (r:
    Result<(NodeHeader, usize), Fault>)
    requires
        old(interner).wf(),
        i < toks.len(),
        tokens_ok(toks@, src@.len() as int),
    ensures
        final(interner).wf(),
        crate::ast::intern::extends(final(interner)@, old(interner)@),
        builds(
            r,
            final(interner)@,
            parse_header(src@, toks@, i as int, old(interner)@, HeaderAcc::none()),
        ),
        r matches Ok((_, next)) ==> i < next < toks.len(),
        r matches Ok((h, _)) ==> h.title.0 < final(interner)@.len() && final(interner)@[h.title.0 as int]
            == title_value(src@, toks@, i as int),
        r matches Ok((h, _)) ==> keys_in(h.custom, final(interner)@) && entry_strings(
            h.custom,
            final(interner)@,
        ) == entry_texts(src@, toks@, i as int),
{
    let mut title: Option<NodeLabel> = None;
    let mut tags: Option<KeyList> = None;
    let mut custom: KeyPairs = KeyPairs::Nil;
    let mut at: usize = i;
    loop
        invariant
            i <= at < toks.len(),
            interner.wf(),
            crate::ast::intern::extends(interner@, old(interner)@),
            tokens_ok(toks@, src@.len() as int),
            parse_header(src@, toks@, at as int, interner@, HeaderAcc { title, tags, custom })
                == parse_header(src@, toks@, i as int, old(interner)@, HeaderAcc::none()),
            match title {
                Some(k) => k.0 < interner@.len() && interner@[k.0 as int] == title_value(
                    src@,
                    toks@,
                    i as int,
                ),
                None => title_value(src@, toks@, at as int) == title_value(src@, toks@, i as int),
            },
            keys_in(custom, interner@),
            entry_strings(custom, interner@) + entry_texts(src@, toks@, at as int) == entry_texts(
                src@,
                toks@,
                i as int,
            ),
        decreases toks.len() - at,
    {
        let ghost table = interner@;
        let a = seek_indent_stop(toks, at);
        let e = seek_line_stop(toks, a);
        let next = if toks[e].kind == TokenKind::LineEnd {
            e + 1
        } else {
            e
        };
        let first = toks[a];
        match first.kind {
            TokenKind::LineEnd | TokenKind::Tag => {},
            TokenKind::Eof => {
                let none = title.is_none() && tags.is_none() && match custom {
                    KeyPairs::Nil => true,
                    _ => false,
                };
                if none {
                    return Err(Fault { kind: SyntaxKind::Empty, at: a });
                } else {
                    return Err(Fault { kind: SyntaxKind::UnterminatedHeader, at: a });
                }
            },
            TokenKind::NodeEnd => {
                return Err(Fault { kind: SyntaxKind::UnterminatedHeader, at: a });
            },
            TokenKind::HeaderEnd => {
                if e != a + 1 {
                    return Err(Fault { kind: SyntaxKind::HeaderItem, at: a });
                }
                return match title {
                    None => Err(Fault { kind: SyntaxKind::MissingTitle, at: a }),
                    Some(t) => Ok(
                        (
                            NodeHeader {
                                title: t,
                                tags: match tags {
                                    Some(list) => list,
                                    None => KeyList::Nil,
                                },
                                custom,
                            },
                            next,
                        ),
                    ),
                };
            },
            TokenKind::Label => {
                if seek_kind(toks, a, e, TokenKind::Error) < e {
                    return Err(Fault { kind: SyntaxKind::BadToken, at: a });
                }
                let lo = first.start;
                let hi = first.end - 1;
                if range_spells(src, lo, hi, "title") {
                    if title.is_some() {
                        return Err(Fault { kind: SyntaxKind::DuplicateHeaderKey, at: a });
                    }
                    if a + 1 >= e {
                        return Err(Fault { kind: SyntaxKind::HeaderItem, at: a });
                    }
                    proof {
                        interner.lemma_wf();
                        crate::ast::intern::lemma_interned(
                            interner@,
                            entry_value(src@, toks@, a as int, e as int),
                        );
                    }
                    match read_entry_value(src, toks, a, e, interner) {
                        None => {
                            return Err(Fault { kind: SyntaxKind::TooManyStrings, at: a });
                        },
                        Some(key) => {
                            proof {
                                lemma_entries_stay(custom, table, interner@);
                            }
                            title = Some(key);
                        },
                    }
                } else if range_spells(src, lo, hi, "tags") {
                    if tags.is_some() {
                        return Err(Fault { kind: SyntaxKind::DuplicateHeaderKey, at: a });
                    }
                    match read_words(src, toks, a + 1, e, interner) {
                        Err(kind) => {
                            return Err(Fault { kind, at: a });
                        },
                        Ok((list, _)) => {
                            proof {
                                lemma_entries_stay(custom, table, interner@);
                            }
                            tags = Some(list);
                        },
                    }
                } else {
                    proof {
                        interner.lemma_wf();
                        crate::ast::intern::lemma_interned(
                            table,
                            src@.subrange(lo as int, hi as int),
                        );
                    }
                    let key = match intern_range(src, lo, hi, interner) {
                        None => {
                            return Err(Fault { kind: SyntaxKind::TooManyStrings, at: a });
                        },
                        Some(key) => key,
                    };
                    if custom.contains(key) {
                        return Err(Fault { kind: SyntaxKind::DuplicateHeaderKey, at: a });
                    }
                    let ghost mid = interner@;
                    proof {
                        interner.lemma_wf();
                        crate::ast::intern::lemma_interned(
                            mid,
                            entry_value(src@, toks@, a as int, e as int),
                        );
                    }
                    match read_entry_value(src, toks, a, e, interner) {
                        None => {
                            return Err(Fault { kind: SyntaxKind::TooManyStrings, at: a });
                        },
                        Some(value) => {
                            proof {
                                crate::ast::intern::law_extends_is_transitive(
                                    table,
                                    mid,
                                    interner@,
                                );
                                lemma_entries_stay(custom, table, interner@);
                                assert(interner@[key.0 as int] == mid[key.0 as int]);
                                lemma_entries_with(custom, key, value, interner@);
                                let one = (
                                    src@.subrange(lo as int, hi as int),
                                    entry_value(src@, toks@, a as int, e as int),
                                );
                                assert(entry_strings(custom.with(key, value), interner@)
                                    + entry_texts(src@, toks@, next as int) =~= entry_strings(
                                    custom,
                                    table,
                                ) + (seq![one] + entry_texts(src@, toks@, next as int)));
                            }
                            custom = custom.push(key, value);
                        },
                    }
                }
            },
            _ => {
                return Err(Fault { kind: SyntaxKind::HeaderItem, at: a });
            },
        }
        at = next;
    }
}

} // verus!
