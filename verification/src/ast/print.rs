//! Nodes back to text. `write_node` lays any node out as text;
//! `print_node` gives that text only where it parses back to the node.

use vstd::prelude::*;
use vstd::string::StringExecFns;
use crate::ast::{
    Args, Expr, KeyList, KeyPairs, LineKind, Node, NodeHeader, NodeLine, Template, UnaryOp,
};
use crate::ast::intern::Interner;
use crate::ast::line::built;
use crate::ast::parse::{parse_node, read_node};
use crate::ast::same::{same_header, same_lines};
use crate::error::{operator_sign, sign_of};
use crate::lexer::{tokenize, tokens_of};
use crate::round_trip::decide::admits_parts;
use crate::round_trip::node::{law_printed_node_parses_back, printable_node};
use crate::text::{chars_of, decimal, push_decimal};
use crate::value::{Operator, push_text, text_of};

verus! {

/// The text of a number literal. A negative number is printed as the
/// negation of its magnitude, and the least number as a difference, since
/// its magnitude is no literal.
pub open spec fn number_text(n: i64) -> Seq<char> {
    if n >= 0 {
        decimal(n as nat)
    } else if n == i64::MIN {
        "(-9223372036854775807 - 1)"@
    } else {
        "-"@ + decimal((-n) as nat)
    }
}

/// The text of an expression: every binary operation in brackets.
pub open spec fn expr_text(e: Expr, table: Seq<Seq<char>>) -> Seq<char>
    decreases e,
{
    match e {
        Expr::Number(n) => number_text(n),
        Expr::Text(k) => "\""@ + text_of(table, k) + "\""@,
        Expr::Var(k) => "$"@ + text_of(table, k),
        Expr::Call(k, args) => text_of(table, k) + "("@ + args_text(args, table) + ")"@,
        Expr::Unary(UnaryOp::Neg, a) => "-"@ + expr_text(*a, table),
        Expr::Unary(UnaryOp::Not, a) => "not "@ + expr_text(*a, table),
        Expr::Binary(op, a, b) => "("@ + expr_text(*a, table) + " "@ + operator_sign(
            Operator::Binary(op),
        )@ + " "@ + expr_text(*b, table) + ")"@,
    }
}

/// The text of the arguments of a call, with commas between them.
pub open spec fn args_text(args: Args, table: Seq<Seq<char>>) -> Seq<char>
    decreases args,
{
    match args {
        Args::Nil => Seq::empty(),
        Args::Cons(e, rest) => match *rest {
            Args::Nil => expr_text(*e, table),
            _ => expr_text(*e, table) + ", "@ + args_text(*rest, table),
        },
    }
}

/// The text of a template: each expression in braces.
pub open spec fn template_text(tpl: Template, table: Seq<Seq<char>>) -> Seq<char>
    decreases tpl,
{
    match tpl {
        Template::End => Seq::empty(),
        Template::Lit(k, rest) => text_of(table, k) + template_text(*rest, table),
        Template::Hole(e, rest) => "{"@ + expr_text(*e, table) + "}"@ + template_text(
            *rest,
            table,
        ),
    }
}

/// The text of a list of words, each with a blank before it.
pub open spec fn words_text(list: KeyList, table: Seq<Seq<char>>) -> Seq<char>
    decreases list,
{
    match list {
        KeyList::Nil => Seq::empty(),
        KeyList::Cons(k, rest) => " "@ + text_of(table, k) + words_text(*rest, table),
    }
}

/// The header's custom entries, one on each line.
pub open spec fn entries_text(pairs: KeyPairs, table: Seq<Seq<char>>) -> Seq<char>
    decreases pairs,
{
    match pairs {
        KeyPairs::Nil => Seq::empty(),
        KeyPairs::Cons(k, v, rest) => text_of(table, k) + ": "@ + text_of(table, v) + "\n"@
            + entries_text(*rest, table),
    }
}

/// Four blanks for each level of indentation.
pub open spec fn indent_text(levels: nat) -> Seq<char>
    decreases levels,
{
    if levels == 0 {
        Seq::empty()
    } else {
        indent_text((levels - 1) as nat) + "    "@
    }
}

/// What stands on a line behind its indentation.
pub open spec fn kind_text(line: NodeLine, table: Seq<Seq<char>>) -> Seq<char> {
    match line.kind {
        LineKind::Text(tpl) => (match line.label {
            Some(k) => text_of(table, k) + ": "@,
            None => Seq::empty(),
        }) + template_text(tpl, table) + (match line.tag {
            Some(t) => " #"@ + text_of(table, t),
            None => Seq::empty(),
        }),
        LineKind::Label => match line.label {
            Some(k) => text_of(table, k) + ":"@,
            None => Seq::empty(),
        },
        LineKind::Assign(var, e) => "<<set $"@ + text_of(table, var) + " = "@ + expr_text(e, table)
            + ">>"@,
        LineKind::If(e) => "<<if "@ + expr_text(e, table) + ">>"@,
        LineKind::ElseIf(e) => "<<elseif "@ + expr_text(e, table) + ">>"@,
        LineKind::Else => "<<else>>"@,
        LineKind::EndIf => "<<endif>>"@,
        LineKind::Jump(target) => "<<jump "@ + text_of(table, target) + ">>"@,
        LineKind::Stop => "<<stop>>"@,
        LineKind::Wait(e) => "<<wait "@ + expr_text(e, table) + ">>"@,
        LineKind::WaitInput => "<<wait>>"@,
        LineKind::Host(name, words) => "<<"@ + text_of(table, name) + words_text(words, table)
            + ">>"@,
        LineKind::Shortcut(tpl, guard) => "-> "@ + template_text(tpl, table) + (match guard {
            Some(e) => " <<if "@ + expr_text(e, table) + ">>"@,
            None => Seq::empty(),
        }),
        LineKind::Choice(text, target) => "["@ + text_of(table, text) + "|"@ + text_of(
            table,
            target,
        ) + "]"@,
    }
}

/// The text of a line: its indentation, what stands on it, and a line feed.
pub open spec fn line_text(line: NodeLine, table: Seq<Seq<char>>) -> Seq<char> {
    indent_text(line.indent as nat) + kind_text(line, table) + "\n"@
}

/// The text of the first `n` lines.
pub open spec fn lines_text(lines: Seq<NodeLine>, n: int, table: Seq<Seq<char>>) -> Seq<char>
    decreases n,
{
    if n <= 0 || n > lines.len() {
        Seq::empty()
    } else {
        lines_text(lines, n - 1, table) + line_text(lines[n - 1], table)
    }
}

/// The text of a header: the title, the tags where there are any, the
/// custom entries, and the closing `---`.
pub open spec fn header_text(header: NodeHeader, table: Seq<Seq<char>>) -> Seq<char> {
    "title: "@ + text_of(table, header.title) + "\n"@ + (match header.tags {
        KeyList::Nil => Seq::empty(),
        _ => "tags:"@ + words_text(header.tags, table) + "\n"@,
    }) + entries_text(header.custom, table) + "---\n"@
}

/// The text of a node: its header, its lines, and the closing `===`.
pub open spec fn node_text(node: Node, table: Seq<Seq<char>>) -> Seq<char> {
    header_text(node.header, table) + lines_text(node.lines@, node.lines@.len() as int, table)
        + "===\n"@
}

/// Appends the text of an expression to `out`.
pub fn print_expr(e: &Expr, interner: &Interner, out: &mut String)
    ensures
        final(out)@ == old(out)@ + expr_text(*e, interner@),
    decreases *e,
{
    match e {
        Expr::Number(n) => {
            if *n >= 0 {
                push_decimal(out, *n as u64);
            } else if *n == i64::MIN {
                out.append("(-9223372036854775807 - 1)");
            } else {
                out.append("-");
                push_decimal(out, (-*n) as u64);
            }
        },
        Expr::Text(k) => {
            out.append("\"");
            push_text(out, interner, *k);
            out.append("\"");
        },
        Expr::Var(k) => {
            out.append("$");
            push_text(out, interner, *k);
        },
        Expr::Call(k, args) => {
            push_text(out, interner, *k);
            out.append("(");
            print_args(args, interner, out);
            out.append(")");
        },
        Expr::Unary(UnaryOp::Neg, a) => {
            out.append("-");
            print_expr(a, interner, out);
        },
        Expr::Unary(UnaryOp::Not, a) => {
            out.append("not ");
            print_expr(a, interner, out);
        },
        Expr::Binary(op, a, b) => {
            out.append("(");
            print_expr(a, interner, out);
            out.append(" ");
            out.append(sign_of(Operator::Binary(*op)));
            out.append(" ");
            print_expr(b, interner, out);
            out.append(")");
        },
    }
    assert(out@ =~= old(out)@ + expr_text(*e, interner@));
}

/// Appends the text of the arguments of a call to `out`.
pub fn print_args(args: &Args, interner: &Interner, out: &mut String)
    ensures
        final(out)@ == old(out)@ + args_text(*args, interner@),
    decreases *args,
{
    match args {
        Args::Nil => {},
        Args::Cons(e, rest) => {
            print_expr(e, interner, out);
            match &**rest {
                Args::Nil => {},
                _ => {
                    out.append(", ");
                    print_args(rest, interner, out);
                },
            }
        },
    }
    assert(out@ =~= old(out)@ + args_text(*args, interner@));
}

/// Appends the text of a template to `out`.
pub fn print_template(tpl: &Template, interner: &Interner, out: &mut String)
    ensures
        final(out)@ == old(out)@ + template_text(*tpl, interner@),
    decreases *tpl,
{
    match tpl {
        Template::End => {},
        Template::Lit(k, rest) => {
            push_text(out, interner, *k);
            print_template(rest, interner, out);
        },
        Template::Hole(e, rest) => {
            out.append("{");
            print_expr(e, interner, out);
            out.append("}");
            print_template(rest, interner, out);
        },
    }
    assert(out@ =~= old(out)@ + template_text(*tpl, interner@));
}

/// Appends the words of a list to `out`, each with a blank before it.
pub fn print_words(list: &KeyList, interner: &Interner, out: &mut String)
    ensures
        final(out)@ == old(out)@ + words_text(*list, interner@),
    decreases *list,
{
    match list {
        KeyList::Nil => {},
        KeyList::Cons(k, rest) => {
            out.append(" ");
            push_text(out, interner, *k);
            print_words(rest, interner, out);
        },
    }
    assert(out@ =~= old(out)@ + words_text(*list, interner@));
}

/// Appends the custom entries of a header to `out`.
pub fn print_entries(pairs: &KeyPairs, interner: &Interner, out: &mut String)
    ensures
        final(out)@ == old(out)@ + entries_text(*pairs, interner@),
    decreases *pairs,
{
    match pairs {
        KeyPairs::Nil => {},
        KeyPairs::Cons(k, v, rest) => {
            push_text(out, interner, *k);
            out.append(": ");
            push_text(out, interner, *v);
            out.append("\n");
            print_entries(rest, interner, out);
        },
    }
    assert(out@ =~= old(out)@ + entries_text(*pairs, interner@));
}

/// Appends the text of a line to `out`.
pub fn print_line(line: &NodeLine, interner: &Interner, out: &mut String)
    ensures
        final(out)@ == old(out)@ + line_text(*line, interner@),
{
    let mut level: usize = 0;
    while level < line.indent
        invariant
            level <= line.indent,
            out@ == old(out)@ + indent_text(level as nat),
        decreases line.indent - level,
    {
        out.append("    ");
        level += 1;
        assert(out@ =~= old(out)@ + indent_text(level as nat));
    }
    let ghost indented = out@;
    match &line.kind {
        LineKind::Text(tpl) => {
            match line.label {
                Some(k) => {
                    push_text(out, interner, k);
                    out.append(": ");
                },
                None => {},
            }
            print_template(tpl, interner, out);
            match line.tag {
                Some(t) => {
                    out.append(" #");
                    push_text(out, interner, t);
                },
                None => {},
            }
        },
        LineKind::Label => {
            match line.label {
                Some(k) => {
                    push_text(out, interner, k);
                    out.append(":");
                },
                None => {},
            }
        },
        LineKind::Assign(var, e) => {
            out.append("<<set $");
            push_text(out, interner, *var);
            out.append(" = ");
            print_expr(e, interner, out);
            out.append(">>");
        },
        LineKind::If(e) => {
            out.append("<<if ");
            print_expr(e, interner, out);
            out.append(">>");
        },
        LineKind::ElseIf(e) => {
            out.append("<<elseif ");
            print_expr(e, interner, out);
            out.append(">>");
        },
        LineKind::Else => {
            out.append("<<else>>");
        },
        LineKind::EndIf => {
            out.append("<<endif>>");
        },
        LineKind::Jump(target) => {
            out.append("<<jump ");
            push_text(out, interner, *target);
            out.append(">>");
        },
        LineKind::Stop => {
            out.append("<<stop>>");
        },
        LineKind::Wait(e) => {
            out.append("<<wait ");
            print_expr(e, interner, out);
            out.append(">>");
        },
        LineKind::WaitInput => {
            out.append("<<wait>>");
        },
        LineKind::Host(name, words) => {
            out.append("<<");
            push_text(out, interner, *name);
            print_words(words, interner, out);
            out.append(">>");
        },
        LineKind::Shortcut(tpl, guard) => {
            out.append("-> ");
            print_template(tpl, interner, out);
            match guard {
                Some(e) => {
                    out.append(" <<if ");
                    print_expr(e, interner, out);
                    out.append(">>");
                },
                None => {},
            }
        },
        LineKind::Choice(text, target) => {
            out.append("[");
            push_text(out, interner, *text);
            out.append("|");
            push_text(out, interner, *target);
            out.append("]");
        },
    }
    assert(out@ =~= indented + kind_text(*line, interner@));
    out.append("\n");
    assert(out@ =~= old(out)@ + line_text(*line, interner@));
}

/// The text of a node, whatever its strings hold: the layout of
/// `node_text`, with nothing said of how the text reads back.
pub fn write_node(node: &Node, interner: &Interner) -> (out: String)
    ensures
        out@ == node_text(*node, interner@),
{
    let mut out = String::from_str("title: ");
    push_text(&mut out, interner, node.header.title);
    out.append("\n");
    match &node.header.tags {
        KeyList::Nil => {},
        _ => {
            out.append("tags:");
            print_words(&node.header.tags, interner, &mut out);
            out.append("\n");
        },
    }
    print_entries(&node.header.custom, interner, &mut out);
    out.append("---\n");
    assert(out@ =~= header_text(node.header, interner@));
    let mut i: usize = 0;
    while i < node.lines.len()
        invariant
            i <= node.lines.len(),
            out@ == header_text(node.header, interner@) + lines_text(
                node.lines@,
                i as int,
                interner@,
            ),
        decreases node.lines.len() - i,
    {
        print_line(&node.lines[i], interner, &mut out);
        i += 1;
        assert(out@ =~= header_text(node.header, interner@) + lines_text(
            node.lines@,
            i as int,
            interner@,
        ));
    }
    out.append("===\n");
    out
}

/// Whether the printed form of `node` reads back as `node`: parsing it
/// with the same table gives the same header and the same lines, takes the
/// whole text and interns nothing new.
pub open spec fn reads_back(node: Node, table: Seq<Seq<char>>) -> bool {
    let text = node_text(node, table);
    let toks = tokens_of(text);
    toks.len() > 0 && parse_node(text, toks, 0, table) == built(
        table,
        (node.header, node.lines@),
        toks.len() - 1,
    )
}

/// The text of a node, where that text reads back as the node, and `None`
/// where it does not. Every node that `printable_node` admits has such a
/// text; for another node the text is parsed to see.
pub fn print_node(node: &Node, interner: &Interner) -> (r: Option<String>)
    requires
        interner.wf(),
    ensures
        r is Some <==> reads_back(*node, interner@),
        r matches Some(out) ==> out@ == node_text(*node, interner@),
        printable_node(*node, interner@) ==> r is Some,
{
    let out = write_node(node, interner);
    if admits_parts(node, interner) {
        let _len: usize = out.as_str().unicode_len();
        proof {
            interner.lemma_wf();
            law_printed_node_parses_back(*node, interner@);
        }
        return Some(out);
    }
    let src = chars_of(out.as_str());
    let toks = tokenize(&src);
    let mut table = interner.copy();
    match read_node(&src, &toks, 0, &mut table) {
        Ok((again, next)) => {
            let same = table.len() == interner.len() && next + 1 == toks.len() && same_header(
                &again.header,
                &node.header,
            ) && same_lines(&again.lines, &node.lines);
            proof {
                if table@.len() == interner@.len() {
                    assert(table@ =~= interner@);
                }
            }
            if same {
                Some(out)
            } else {
                None
            }
        },
        Err(_) => None,
    }
}

} // verus!
