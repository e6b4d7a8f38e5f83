//! The parser: source text to nodes.
//!
//! A node is a header, `key: value` lines closed by `---`, and a body closed
//! by `===`. A script is one node after another.

use vstd::prelude::*;
use vstd::string::StringSliceAdditionalSpecFns;
use vstd::utf8::{encode_scalar, encode_utf8};
use crate::ast::{Node, NodeHeader, NodeLabel, NodeLine, SyntaxKind};
use crate::ast::header::{
    entry_strings, entry_texts, HeaderAcc, keys_in, lemma_entries_stay, parse_header, read_header,
    title_value,
};
use crate::ast::intern::Interner;
use crate::ast::line::{Built, built, Fault, fault, parse_body, read_body};

use crate::lexer::{Token, tokenize, tokens_of, tokens_ok};
use crate::text::{chars_of, CharClass, lemma_scan_end_bounds, scan, scan_end, string_of_range};

verus! {

/// The node that starts at token `i`: its header, then its body.
pub open spec fn parse_node(s: Seq<char>, toks: Seq<Token>, i: int, table: Seq<Seq<char>>) -> Built<
    (NodeHeader, Seq<NodeLine>),
> {
    let head = parse_header(s, toks, i, table, HeaderAcc::none());
    match head.out {
        Err(f) => Built { table: head.table, out: Err(f) },
        Ok((header, at)) => {
            let body = parse_body(s, toks, at, head.table, Seq::empty());
            match body.out {
                Err(f) => Built { table: body.table, out: Err(f) },
                Ok((lines, next)) => built(body.table, (header, lines), next),
            }
        },
    }
}

/// Parses the node that starts at token `i`, and gives it with the token at
/// which the text behind it starts.
pub fn read_node(src: &Vec<char>, toks: &Vec<Token>, i: usize, interner: &mut Interner) -> (r:
    Result<(Node, usize), Fault>)
    requires
        old(interner).wf(),
        i < toks.len(),
        tokens_ok(toks@, src@.len() as int),
    ensures
        final(interner).wf(),
        crate::ast::intern::extends(final(interner)@, old(interner)@),
        final(interner)@ == parse_node(src@, toks@, i as int, old(interner)@).table,
        match r {
            Ok((node, next)) => parse_node(src@, toks@, i as int, old(interner)@).out == Ok::<
                ((NodeHeader, Seq<NodeLine>), int),
                Fault,
            >(((node.header, node.lines@), next as int)) && i < next < toks.len()
                && node.header.title.0 < final(interner)@.len() && final(interner)@[node.header.title.0 as int]
                == title_value(src@, toks@, i as int) && keys_in(
                node.header.custom,
                final(interner)@,
            ) && entry_strings(node.header.custom, final(interner)@) == entry_texts(
                src@,
                toks@,
                i as int,
            ),
            Err(f) => parse_node(src@, toks@, i as int, old(interner)@).out == Err::<
                ((NodeHeader, Seq<NodeLine>), int),
                Fault,
            >(f),
        },
{
    match read_header(src, toks, i, interner) {
        Err(f) => Err(f),
        Ok((header, at)) => {
            let ghost head = interner@;
            match read_body(src, toks, at, interner) {
                Err(f) => Err(f),
                Ok((lines, next)) => {
                    proof {
                        lemma_entries_stay(header.custom, head, interner@);
                    }
                    Ok((Node { header, lines }, next))
                },
            }
        },
    }
}

/// The nodes of a script from token `i` on, behind those in `acc`.
/// `taken` holds the titles that are in use: a node whose title is among
/// them is a fault, `DuplicateNodeTitle`. The script ends where nothing but
/// blank lines is left.
pub open spec fn parse_script(
    s: Seq<char>,
    toks: Seq<Token>,
    i: int,
    table: Seq<Seq<char>>,
    taken: Seq<NodeLabel>,
    acc: Seq<(NodeHeader, Seq<NodeLine>)>,
) -> Built<Seq<(NodeHeader, Seq<NodeLine>)>>
    decreases toks.len() - i,
{
    let r = parse_node(s, toks, i, table);
    match r.out {
        Err(f) => if f.kind == SyntaxKind::Empty {
            built(r.table, acc, i)
        } else {
            Built { table: r.table, out: Err(f) }
        },
        Ok((parts, next)) => if !(0 <= i < next < toks.len()) {
            fault(r.table, SyntaxKind::UnexpectedEof, i)
        } else if taken.contains(parts.0.title) {
            fault(r.table, SyntaxKind::DuplicateNodeTitle, i)
        } else {
            parse_script(s, toks, next, r.table, taken.push(parts.0.title), acc.push(parts))
        },
    }
}

/// The header and the lines of each node.
pub open spec fn parts(nodes: Seq<Node>) -> Seq<(NodeHeader, Seq<NodeLine>)> {
    Seq::new(nodes.len(), |i: int| (nodes[i].header, nodes[i].lines@))
}

/// The title of each node.
pub open spec fn titles(nodes: Seq<Node>) -> Seq<NodeLabel> {
    Seq::new(nodes.len(), |i: int| nodes[i].header.title)
}

pub fn has_key(keys: &Vec<NodeLabel>, key: NodeLabel) -> (r: bool)
    ensures
        r == keys@.contains(key),
{
    let mut i: usize = 0;
    while i < keys.len()
        invariant
            i <= keys.len(),
            forall|j: int| 0 <= j < i ==> keys@[j] != key,
        decreases keys.len() - i,
    {
        if keys[i].0 == key.0 {
            assert(keys@[i as int] == key);
            return true;
        }
        i += 1;
    }
    false
}

/// Parses a whole script. The titles of its nodes are added to `taken`.
pub fn read_script(
    src: &Vec<char>,
    toks: &Vec<Token>,
    interner: &mut Interner,
    taken: &mut Vec<NodeLabel>,
) -> (r: Result<Vec<Node>, Fault>)
    requires
        old(interner).wf(),
        tokens_ok(toks@, src@.len() as int),
        old(taken)@.no_duplicates(),
    ensures
        final(interner).wf(),
        crate::ast::intern::extends(final(interner)@, old(interner)@),
        final(interner)@ == parse_script(
            src@,
            toks@,
            0,
            old(interner)@,
            old(taken)@,
            Seq::empty(),
        ).table,
        match r {
            Ok(nodes) => parse_script(src@, toks@, 0, old(interner)@, old(taken)@, Seq::empty()).out
                is Ok && parse_script(
                src@,
                toks@,
                0,
                old(interner)@,
                old(taken)@,
                Seq::empty(),
            ).out->Ok_0.0 == parts(nodes@) && final(taken)@ == old(taken)@ + titles(nodes@)
                && final(taken)@.no_duplicates(),
            Err(f) => parse_script(src@, toks@, 0, old(interner)@, old(taken)@, Seq::empty()).out
                == Err::<(Seq<(NodeHeader, Seq<NodeLine>)>, int), Fault>(f),
        },
{
    let mut nodes: Vec<Node> = Vec::new();
    let mut at: usize = 0;
    assert(parts(nodes@) =~= Seq::empty());
    assert(old(taken)@ + titles(nodes@) =~= old(taken)@);
    loop
        invariant
            at < toks.len(),
            interner.wf(),
            crate::ast::intern::extends(interner@, old(interner)@),
            tokens_ok(toks@, src@.len() as int),
            taken@ == old(taken)@ + titles(nodes@),
            taken@.no_duplicates(),
            parse_script(src@, toks@, at as int, interner@, taken@, parts(nodes@)) == parse_script(
                src@,
                toks@,
                0,
                old(interner)@,
                old(taken)@,
                Seq::empty(),
            ),
        decreases toks.len() - at,
    {
        match read_node(src, toks, at, interner) {
            Err(f) => {
                if f.kind == SyntaxKind::Empty {
                    return Ok(nodes);
                }
                return Err(f);
            },
            Ok((node, next)) => {
                let title = node.title();
                if has_key(taken, title) {
                    return Err(Fault { kind: SyntaxKind::DuplicateNodeTitle, at });
                }
                proof {
                    assert(parts(nodes@.push(node)) =~= parts(nodes@).push(
                        (node.header, node.lines@),
                    ));
                    assert(old(taken)@ + titles(nodes@.push(node)) =~= taken@.push(title));
                    assert(taken@.push(title).no_duplicates()) by {
                        assert forall|a: int, b: int|
                            0 <= a < taken@.len() + 1 && 0 <= b < taken@.len() + 1 && a
                                != b implies taken@.push(title)[a] != taken@.push(title)[b] by {
                            if a < taken@.len() && b < taken@.len() {
                            } else if a < taken@.len() {
                                assert(taken@.contains(taken@[a]));
                            } else if b < taken@.len() {
                                assert(taken@.contains(taken@[b]));
                            }
                        }
                    }
                }
                taken.push(title);
                nodes.push(node);
                at = next;
            },
        }
    }
}

/// The place of a fault in the text: the first character of token `at`;
/// for a fault at the end of a text, the last character of the text.
pub open spec fn fault_place(s: Seq<char>, toks: Seq<Token>, at: int) -> int {
    if 0 <= at < toks.len() && toks[at].start < s.len() {
        toks[at].start as int
    } else if s.len() > 0 {
        s.len() - 1
    } else {
        0
    }
}

/// The number of line feeds in `s[..q]`.
pub open spec fn breaks_before(s: Seq<char>, q: int) -> nat
    decreases q,
{
    if q <= 0 || q > s.len() {
        0
    } else if s[q - 1] == '\n' {
        breaks_before(s, q - 1) + 1
    } else {
        breaks_before(s, q - 1)
    }
}

/// The number of lines of a text: one for each line feed, and one more for
/// what stands behind the last.
pub open spec fn line_count(s: Seq<char>) -> nat {
    if s.len() > 0 && s[s.len() - 1] != '\n' {
        breaks_before(s, s.len() as int) + 1
    } else {
        breaks_before(s, s.len() as int)
    }
}

/// Where the line of the place `q` starts: behind the last line feed
/// before `q`, or at the start of the text.
pub open spec fn line_start(s: Seq<char>, q: int) -> int
    decreases q,
{
    if q <= 0 || q > s.len() {
        0
    } else if s[q - 1] == '\n' {
        q
    } else {
        line_start(s, q - 1)
    }
}

/// Where the line of the place `q` ends: before its line feed, and before
/// the carriage return in front of that, or at the end of the text.
pub open spec fn line_end(s: Seq<char>, q: int) -> int {
    let e = scan_end(s, q, CharClass::InLine);
    if e < s.len() && line_start(s, q) < e && q < e && s[e - 1] == '\r' {
        e - 1
    } else {
        e
    }
}

/// The number of the line that holds the fault at token `at`, counted from
/// zero over the whole text, as far as 32 bits count.
pub open spec fn line_number(s: Seq<char>, toks: Seq<Token>, at: int) -> u32 {
    let n = breaks_before(s, fault_place(s, toks, at));
    if n > u32::MAX {
        u32::MAX
    } else {
        n as u32
    }
}

/// The line that holds the fault at token `at`: all of it, indentation and
/// blanks included, without its line break.
pub open spec fn excerpt(s: Seq<char>, toks: Seq<Token>, at: int) -> Seq<char> {
    let q = fault_place(s, toks, at);
    s.subrange(line_start(s, q), line_end(s, q))
}

/// A line starts at or before each of its places, behind a line feed or at
/// the start of the text, and holds no line feed up to that place.
pub proof fn lemma_line_start(s: Seq<char>, q: int)
    requires
        0 <= q <= s.len(),
    ensures
        0 <= line_start(s, q) <= q,
        line_start(s, q) == 0 || s[line_start(s, q) - 1] == '\n',
        forall|j: int| line_start(s, q) <= j < q ==> #[trigger] s[j] != '\n',
        breaks_before(s, line_start(s, q)) == breaks_before(s, q),
    decreases q,
{
    if q > 0 && s[q - 1] != '\n' {
        lemma_line_start(s, q - 1);
    }
}

/// There are no more line feeds before an earlier place than before a
/// later one.
pub proof fn lemma_breaks_grow(s: Seq<char>, p: int, q: int)
    requires
        0 <= p <= q <= s.len(),
    ensures
        breaks_before(s, p) <= breaks_before(s, q),
    decreases q - p,
{
    if p < q {
        lemma_breaks_grow(s, p, q - 1);
    }
}

/// The line that an error names is a line of the text, and the excerpt is
/// that line: it starts behind a line feed or at the start of the text,
/// ends before a line feed or at the end of the text, and holds no line
/// feed.
pub proof fn law_error_names_a_line(s: Seq<char>, toks: Seq<Token>, at: int)
    requires
        s.len() > 0,
    ensures
        breaks_before(s, fault_place(s, toks, at)) < line_count(s),
        ({
            let q = fault_place(s, toks, at);
            let lo = line_start(s, q);
            let hi = scan_end(s, q, CharClass::InLine);
            &&& 0 <= lo <= q <= hi <= s.len()
            &&& lo <= line_end(s, q) <= hi
            &&& lo == 0 || s[lo - 1] == '\n'
            &&& hi == s.len() || s[hi] == '\n'
            &&& breaks_before(s, lo) == breaks_before(s, q)
            &&& forall|j: int| lo <= j < hi ==> #[trigger] s[j] != '\n'
            &&& excerpt(s, toks, at) == s.subrange(lo, line_end(s, q))
        }),
{
    let q = fault_place(s, toks, at);
    let n = s.len() as int;
    lemma_line_start(s, q);
    lemma_scan_end_bounds(s, q, CharClass::InLine);
    lemma_breaks_grow(s, q, n - 1);
    assert(breaks_before(s, n) == breaks_before(s, n - 1) + if s[n - 1] == '\n' {
        1nat
    } else {
        0nat
    });
}

/// The place of the fault at token `at`.
pub fn fault_position(src: &Vec<char>, toks: &Vec<Token>, at: usize) -> (q: usize)
    ensures
        q == fault_place(src@, toks@, at as int),
        q <= src.len(),
{
    if at < toks.len() && toks[at].start < src.len() {
        toks[at].start
    } else if src.len() > 0 {
        src.len() - 1
    } else {
        0
    }
}

/// The number of the line that holds the fault at token `at`.
pub fn count_lines(src: &Vec<char>, toks: &Vec<Token>, at: usize) -> (n: u32)
    ensures
        n == line_number(src@, toks@, at as int),
{
    let q = fault_position(src, toks, at);
    let mut n: u32 = 0;
    let mut i: usize = 0;
    while i < q
        invariant
            i <= q <= src.len(),
            n == (if breaks_before(src@, i as int) > u32::MAX {
                u32::MAX
            } else {
                breaks_before(src@, i as int) as u32
            }),
        decreases q - i,
    {
        if src[i] == '\n' && n < u32::MAX {
            n += 1;
        }
        i += 1;
    }
    n
}

/// The line that holds the fault at token `at`, as a string.
pub fn excerpt_string(src: &Vec<char>, toks: &Vec<Token>, at: usize) -> (r: String)
    ensures
        r@ == excerpt(src@, toks@, at as int),
{
    let q = fault_position(src, toks, at);
    let mut lo: usize = q;
    while lo > 0 && src[lo - 1] != '\n'
        invariant
            lo <= q <= src.len(),
            line_start(src@, lo as int) == line_start(src@, q as int),
        decreases lo,
    {
        lo -= 1;
    }
    let e = scan(src, q, CharClass::InLine);
    let hi = if e < src.len() && lo < e && q < e && src[e - 1] == '\r' {
        e - 1
    } else {
        e
    };
    proof {
        lemma_line_start(src@, q as int);
    }
    string_of_range(src, lo, hi)
}

/// The number of bytes that a character takes in UTF-8.
pub open spec fn char_width(c: char) -> nat {
    encode_scalar(c as u32).len()
}

/// The number of bytes that `s[lo..hi]` takes in UTF-8.
pub open spec fn byte_len(s: Seq<char>, lo: int, hi: int) -> nat {
    encode_utf8(s.subrange(lo, hi)).len()
}

pub fn width_of(c: char) -> (n: usize)
    ensures
        n == char_width(c),
        1 <= n <= 4,
{
    let v: u32 = c as u32;
    if v <= 0x7f {
        1
    } else if v <= 0x7ff {
        2
    } else if v <= 0xffff {
        3
    } else {
        4
    }
}

/// Counts the bytes of `src[..hi]` in UTF-8; the largest `usize` where they
/// are more.
pub fn count_bytes(src: &Vec<char>, hi: usize) -> (n: usize)
    requires
        hi <= src.len(),
    ensures
        n == if byte_len(src@, 0, hi as int) <= usize::MAX {
            byte_len(src@, 0, hi as int)
        } else {
            usize::MAX as nat
        },
{
    let mut total: u128 = 0;
    let mut i: usize = hi;
    assert(src@.subrange(hi as int, hi as int) =~= Seq::<char>::empty());
    while i > 0
        invariant
            i <= hi <= src.len(),
            total == byte_len(src@, i as int, hi as int),
            total <= 4 * (hi - i),
        decreases i,
    {
        i -= 1;
        assert(src@.subrange(i as int, hi as int).drop_first() =~= src@.subrange(
            i + 1,
            hi as int,
        ));
        total = total + width_of(src[i]) as u128;
    }
    if total > usize::MAX as u128 {
        usize::MAX
    } else {
        total as usize
    }
}

/// The span of a token in bytes of the text in UTF-8, where the token's own
/// positions count characters.
pub fn byte_span(src: &Vec<char>, token: Token) -> (r: (usize, usize))
    requires
        token.start <= token.end <= src.len(),
    ensures
        r.0 == (if byte_len(src@, 0, token.start as int) <= usize::MAX {
            byte_len(src@, 0, token.start as int)
        } else {
            usize::MAX as nat
        }),
        r.1 == (if byte_len(src@, 0, token.end as int) <= usize::MAX {
            byte_len(src@, 0, token.end as int)
        } else {
            usize::MAX as nat
        }),
{
    (count_bytes(src, token.start), count_bytes(src, token.end))
}

/// The start of a text takes no more bytes than the whole text, and at
/// least one where it holds a character.
pub proof fn lemma_bytes_grow(s: Seq<char>, k: int)
    requires
        0 <= k <= s.len(),
    ensures
        byte_len(s, 0, k) <= byte_len(s, 0, s.len() as int),
        k > 0 ==> byte_len(s, 0, k) >= 1,
        byte_len(s, 0, s.len() as int) == encode_utf8(s).len(),
    decreases s.len(),
{
    assert(s.subrange(0, s.len() as int) =~= s);
    if k > 0 {
        let r = s.drop_first();
        lemma_bytes_grow(r, k - 1);
        assert(r.subrange(0, r.len() as int) =~= r);
        assert(s.subrange(0, k).drop_first() =~= r.subrange(0, k - 1));
        assert(s.subrange(0, k)[0] == s[0]);
        assert(encode_scalar(s[0] as u32).len() >= 1);
    } else {
        assert(s.subrange(0, 0) =~= Seq::<char>::empty());
    }
}

/// A parse error: the line that holds the fault, counted from zero, and what
/// is wrong.
#[derive(Debug)]
pub struct ParseError(pub u32, pub &'static str);

/// Parses the first node of `input`, and gives it with the number of bytes
/// of `input` that it takes: at least one, and no more than `input` has.
/// The key of its title stands for the title as `input` says it, the keys
/// and values of its custom entries for theirs, and every key that the
/// interner gave before stands for the same string as before. `Err` with the message `"empty"` where nothing
/// but blank lines is left.
pub fn node(input: &str, intern: &mut Interner) -> (r: Result<(Node, usize), ParseError>)
    requires
        old(intern).wf(),
    ensures
        final(intern).wf(),
        crate::ast::intern::extends(final(intern)@, old(intern)@),
        ({
            let toks = tokens_of(input@);
            let p = parse_node(input@, toks, 0, old(intern)@);
            &&& final(intern)@ == p.table
            &&& match r {
                Ok((node, consumed)) => p.out is Ok && p.out->Ok_0.0 == (node.header, node.lines@)
                    && node.header.title.0 < final(intern)@.len() && final(intern)@[node.header.title.0 as int]
                    == title_value(input@, toks, 0) && keys_in(node.header.custom, final(intern)@)
                    && entry_strings(node.header.custom, final(intern)@) == entry_texts(
                    input@,
                    toks,
                    0,
                )
                    && 0 <= p.out->Ok_0.1 < toks.len() && consumed == byte_len(
                    input@,
                    0,
                    toks[p.out->Ok_0.1].start as int,
                ) && 0 < consumed <= encode_utf8(input@).len(),
                Err(e) => p.out is Err && e.0 == line_number(
                    input@,
                    toks,
                    p.out->Err_0.at as int,
                ) && e.1
                    == p.out->Err_0.kind.message_of(),
            }
        }),
{
    let src = chars_of(input);
    let toks = tokenize(&src);
    match read_node(&src, &toks, 0, intern) {
        Ok((node, next)) => {
            let _whole = input.as_bytes().len();
            proof {
                lemma_bytes_grow(src@, toks@[next as int].start as int);
                assert(toks@[0].end <= toks@[next as int].start);
            }
            let consumed = count_bytes(&src, toks[next].start);
            Ok((node, consumed))
        },
        Err(f) => Err(ParseError(count_lines(&src, &toks, f.at), f.kind.message())),
    }
}

} // verus!
