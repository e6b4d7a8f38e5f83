//! The lines of a body: each is classified by its first token behind the
//! indentation.

use vstd::prelude::*;
use crate::ast::{LineKind, NodeLabel, NodeLine, SyntaxKind, Template};
use crate::ast::command::{
    parse_choice, parse_command, parse_shortcut, read_choice, read_command, read_shortcut,
};
use crate::ast::expr::{intern_range, Parsed, parsed, try_interned, yields};
use crate::ast::intern::Interner;
use crate::ast::scan::{
    any_starts_with, find_kind, indent_stop, line_stop, seek_indent_stop, seek_kind,
    seek_line_stop, starts_with,
};
use crate::ast::template::{parse_text, read_text};
use crate::lexer::{Token, TokenKind, tokens_ok};

verus! {

/// A fault in a script: what is wrong, and the first token of the line
/// that holds it.
#[derive(Clone, Copy, PartialEq, Eq, Debug, Structural)]
pub struct Fault {
    pub kind: SyntaxKind,
    pub at: usize,
}

/// The outcome of parsing lines: the interner's table afterwards, and what
/// was built with the token behind it, or the fault.
pub struct Built<T> {
    pub table: Seq<Seq<char>>,
    pub out: Result<(T, int), Fault>,
}

pub open spec fn fault<T>(table: Seq<Seq<char>>, kind: SyntaxKind, at: int) -> Built<T> {
    Built { table, out: Err(Fault { kind, at: at as usize }) }
}

pub open spec fn built<T>(table: Seq<Seq<char>>, v: T, next: int) -> Built<T> {
    Built { table, out: Ok((v, next)) }
}

/// An executable parser's result `r` and table `table` are what `b` says.
pub open spec fn builds<T>(r: Result<(T, usize), Fault>, table: Seq<Seq<char>>, b: Built<T>) -> bool {
    &&& table == b.table
    &&& match r {
        Ok((v, next)) => b.out == Ok::<(T, int), Fault>((v, next as int)),
        Err(f) => b.out == Err::<(T, int), Fault>(f),
    }
}

/// What one source line gives.
#[derive(Debug)]
pub enum Item {
    /// A line of the node.
    Line(NodeLine),
    /// Nothing: the line is blank or a comment.
    Skip,
    /// The end of the node.
    End,
}

/// A parsed construct as the line at indentation `d` whose first token is
/// `a`, with the next line at token `next`.
pub open spec fn as_line(
    p: Parsed<LineKind>,
    label: Option<NodeLabel>,
    d: int,
    a: int,
    next: int,
) -> Built<Item> {
    match p.out {
        Err(k) => fault(p.table, k, a),
        Ok((kind, _)) => built(
            p.table,
            Item::Line(NodeLine { label, indent: d as usize, tag: None, kind }),
            next,
        ),
    }
}

/// A parsed text as a line.
pub open spec fn as_text_line(
    p: Parsed<(Template, Option<NodeLabel>)>,
    label: Option<NodeLabel>,
    d: int,
    a: int,
    next: int,
) -> Built<Item> {
    match p.out {
        Err(k) => fault(p.table, k, a),
        Ok(((tpl, tag), _)) => built(
            p.table,
            Item::Line(NodeLine { label, indent: d as usize, tag, kind: LineKind::Text(tpl) }),
            next,
        ),
    }
}

/// The token at which the line behind the one that token `e` ends begins.
pub open spec fn next_line(toks: Seq<Token>, e: int) -> int {
    if 0 <= e < toks.len() && toks[e].kind == TokenKind::LineEnd {
        e + 1
    } else {
        e
    }
}

/// The body line that starts at token `i`.
///
/// Behind the indentation, the first token decides: `<<` a command, `->` a
/// shortcut option, `[` a choice, `#` a comment, `===` the end of the
/// node, a label alone on its line a jump target, a label with text behind
/// it the speaker of that text, anything else text.
pub open spec fn parse_line(s: Seq<char>, toks: Seq<Token>, i: int, table: Seq<Seq<char>>) -> Built<
    Item,
> {
    let a = indent_stop(toks, i);
    let e = line_stop(toks, a);
    let next = next_line(toks, e);
    let d = a - i;
    if !(0 <= i <= a <= e < toks.len()) {
        fault(table, SyntaxKind::UnexpectedEof, i)
    } else if starts_with(s, toks, i, a, '\t') && starts_with(s, toks, i, a, ' ') {
        fault(table, SyntaxKind::MixedIndentation, a)
    } else if find_kind(toks, a, e, TokenKind::Error) < e {
        fault(table, SyntaxKind::BadToken, a)
    } else {
        match toks[a].kind {
            TokenKind::LineEnd => built(table, Item::Skip, next),
            TokenKind::Tag => built(table, Item::Skip, next),
            TokenKind::Eof => fault(table, SyntaxKind::UnterminatedNode, a),
            TokenKind::HeaderEnd => fault(table, SyntaxKind::BadToken, a),
            TokenKind::NodeEnd => if e == a + 1 {
                built(table, Item::End, next)
            } else {
                fault(table, SyntaxKind::BadToken, a)
            },
            TokenKind::CmdStart => if a + 1 < e && toks[e - 1].kind == TokenKind::CmdEnd {
                as_line(parse_command(s, toks, a, e - 1, table), None, d, a, next)
            } else {
                fault(table, SyntaxKind::BadCommand, a)
            },
            TokenKind::ShortcutOption => as_line(
                parse_shortcut(s, toks, a, e, table),
                None,
                d,
                a,
                next,
            ),
            TokenKind::OptionStart => as_line(parse_choice(s, toks, a, e, table), None, d, a, next),
            TokenKind::Label => if !(toks[a].start < toks[a].end <= s.len()) {
                fault(table, SyntaxKind::BadToken, a)
            } else {
                match try_interned(table, s.subrange(toks[a].start as int, toks[a].end - 1)) {
                    (t, None) => fault(t, SyntaxKind::TooManyStrings, a),
                    (t, Some(name)) => if a + 1 == e {
                        built(
                            t,
                            Item::Line(
                                NodeLine {
                                    label: Some(name),
                                    indent: d as usize,
                                    tag: None,
                                    kind: LineKind::Label,
                                },
                            ),
                            next,
                        )
                    } else {
                        as_text_line(parse_text(s, toks, a + 1, e, t), Some(name), d, a, next)
                    },
                }
            },
            _ => as_text_line(parse_text(s, toks, a, e, table), None, d, a, next),
        }
    }
}

pub fn line_from(r: Result<(LineKind, usize), SyntaxKind>, d: usize, a: usize, next: usize) -> (out:
    Result<(Item, usize), Fault>)
    ensures
        forall|table: Seq<Seq<char>>, p: Parsed<LineKind>|
            yields(r, table, p) ==> builds(out, table, as_line(p, None, d as int, a as int, next as int)),
{
    match r {
        Err(kind) => Err(Fault { kind, at: a }),
        Ok((kind, _)) => Ok((Item::Line(NodeLine { label: None, indent: d, tag: None, kind }), next)),
    }
}

pub fn text_line_from(
    r: Result<((Template, Option<NodeLabel>), usize), SyntaxKind>,
    label: Option<NodeLabel>,
    d: usize,
    a: usize,
    next: usize,
) -> (out: Result<(Item, usize), Fault>)
    ensures
        forall|table: Seq<Seq<char>>, p: Parsed<(Template, Option<NodeLabel>)>|
            yields(r, table, p) ==> builds(
                out,
                table,
                as_text_line(p, label, d as int, a as int, next as int),
            ),
{
    match r {
        Err(kind) => Err(Fault { kind, at: a }),
        Ok(((tpl, tag), _)) => Ok(
            (Item::Line(NodeLine { label, indent: d, tag, kind: LineKind::Text(tpl) }), next),
        ),
    }
}

/// Parses the body line that starts at token `i`.
pub fn read_line(src: &Vec<char>, toks: &Vec<Token>, i: usize, interner: &mut Interner) -> (r:
    Result<(Item, usize), Fault>)
    requires
        old(interner).wf(),
        i < toks.len(),
        tokens_ok(toks@, src@.len() as int),
    ensures
        final(interner).wf(),
        crate::ast::intern::extends(final(interner)@, old(interner)@),
        builds(r, final(interner)@, parse_line(src@, toks@, i as int, old(interner)@)),
        r matches Ok((_, next)) ==> i < next < toks.len(),
{
    let a = seek_indent_stop(toks, i);
    let e = seek_line_stop(toks, a);
    let next = if toks[e].kind == TokenKind::LineEnd {
        e + 1
    } else {
        e
    };
    let d = a - i;
    if any_starts_with(src, toks, i, a, '\t') && any_starts_with(src, toks, i, a, ' ') {
        return Err(Fault { kind: SyntaxKind::MixedIndentation, at: a });
    }
    if seek_kind(toks, a, e, TokenKind::Error) < e {
        return Err(Fault { kind: SyntaxKind::BadToken, at: a });
    }
    let first = toks[a];
    match first.kind {
        TokenKind::LineEnd => Ok((Item::Skip, next)),
        TokenKind::Tag => Ok((Item::Skip, next)),
        TokenKind::Eof => Err(Fault { kind: SyntaxKind::UnterminatedNode, at: a }),
        TokenKind::HeaderEnd => Err(Fault { kind: SyntaxKind::BadToken, at: a }),
        TokenKind::NodeEnd => if e == a + 1 {
            Ok((Item::End, next))
        } else {
            Err(Fault { kind: SyntaxKind::BadToken, at: a })
        },
        TokenKind::CmdStart => if a + 1 < e && toks[e - 1].kind == TokenKind::CmdEnd {
            let r = read_command(src, toks, a, e - 1, interner);
            line_from(r, d, a, next)
        } else {
            Err(Fault { kind: SyntaxKind::BadCommand, at: a })
        },
        TokenKind::ShortcutOption => {
            let r = read_shortcut(src, toks, a, e, interner);
            line_from(r, d, a, next)
        },
        TokenKind::OptionStart => {
            let r = read_choice(src, toks, a, e, interner);
            line_from(r, d, a, next)
        },
        TokenKind::Label => {
            match intern_range(src, first.start, first.end - 1, interner) {
                None => Err(Fault { kind: SyntaxKind::TooManyStrings, at: a }),
                Some(name) => if a + 1 == e {
                    Ok(
                        (
                            Item::Line(
                                NodeLine {
                                    label: Some(name),
                                    indent: d,
                                    tag: None,
                                    kind: LineKind::Label,
                                },
                            ),
                            next,
                        ),
                    )
                } else {
                    let r = read_text(src, toks, a + 1, e, interner);
                    text_line_from(r, Some(name), d, a, next)
                },
            }
        },
        _ => {
            let r = read_text(src, toks, a, e, interner);
            text_line_from(r, None, d, a, next)
        },
    }
}

/// The lines of a body from token `i` on, behind those in `acc`, up to the
/// line that ends the node.
pub open spec fn parse_body(
    s: Seq<char>,
    toks: Seq<Token>,
    i: int,
    table: Seq<Seq<char>>,
    acc: Seq<NodeLine>,
) -> Built<Seq<NodeLine>>
    decreases toks.len() - i,
{
    let line = parse_line(s, toks, i, table);
    match line.out {
        Err(f) => Built { table: line.table, out: Err(f) },
        Ok((item, next)) => if !(0 <= i < next <= toks.len()) {
            fault(line.table, SyntaxKind::UnexpectedEof, i)
        } else {
            match item {
                Item::End => built(line.table, acc, next),
                Item::Skip => parse_body(s, toks, next, line.table, acc),
                Item::Line(l) => parse_body(s, toks, next, line.table, acc.push(l)),
            }
        },
    }
}

/// Parses the body that starts at token `i`.
pub fn read_body(src: &Vec<char>, toks: &Vec<Token>, i: usize, interner: &mut Interner) -> (r:
    Result<(Vec<NodeLine>, usize), Fault>)
    requires
        old(interner).wf(),
        i < toks.len(),
        tokens_ok(toks@, src@.len() as int),
    ensures
        final(interner).wf(),
        crate::ast::intern::extends(final(interner)@, old(interner)@),
        final(interner)@ == parse_body(src@, toks@, i as int, old(interner)@, Seq::empty()).table,
        match r {
            Ok((lines, next)) => parse_body(
                src@,
                toks@,
                i as int,
                old(interner)@,
                Seq::empty(),
            ).out == Ok::<(Seq<NodeLine>, int), Fault>((lines@, next as int)) && i < next
                < toks.len(),
            Err(f) => parse_body(src@, toks@, i as int, old(interner)@, Seq::empty()).out
                == Err::<(Seq<NodeLine>, int), Fault>(f),
        },
{
    let mut lines: Vec<NodeLine> = Vec::new();
    let mut at: usize = i;
    loop
        invariant
            i <= at < toks.len(),
            interner.wf(),
            crate::ast::intern::extends(interner@, old(interner)@),
            tokens_ok(toks@, src@.len() as int),
            parse_body(src@, toks@, at as int, interner@, lines@) == parse_body(
                src@,
                toks@,
                i as int,
                old(interner)@,
                Seq::empty(),
            ),
        decreases toks.len() - at,
    {
        match read_line(src, toks, at, interner) {
            Err(f) => {
                return Err(f);
            },
            Ok((item, next)) => {
                match item {
                    Item::End => {
                        return Ok((lines, next));
                    },
                    Item::Skip => {},
                    Item::Line(l) => {
                        lines.push(l);
                    },
                }
                at = next;
            },
        }
    }
}

} // verus!
