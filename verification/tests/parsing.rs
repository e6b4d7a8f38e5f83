use yarnspinner::ast::intern::{InternedKey, Interner};
use yarnspinner::ast::print::{print_node, write_node};
use yarnspinner::ast::parse::{byte_span, count_bytes};
use yarnspinner::ast::{node, LineKind, ParseError};
use yarnspinner::lexer::TokenKind::{
    CmdEnd, CmdStart, Eof, ExprEnd, ExprStart, HeaderEnd, Indent, Label, LineEnd, NodeEnd,
    OptionEnd, OptionStart, ShortcutOption, Tag, Word,
};
use yarnspinner::lexer::{tokenize, Token, TokenKind};
use yarnspinner::round_trip::decide::{
    admits_parts, text_is_mild, text_is_name, text_is_phrase, text_is_word,
};
use yarnspinner::text::chars_of;
use yarnspinner::{DialogRunner, Error};

fn kinds(text: &str) -> Vec<TokenKind> {
    tokenize(&chars_of(text)).iter().map(|t| t.kind).collect()
}

fn load_error(text: &str) -> Error {
    let mut runner = DialogRunner::new();
    match runner.load_yarn_file(text) {
        Err(e) => e,
        Ok(()) => panic!("expected an error"),
    }
}

#[test]
fn interner_gives_equal_keys_for_equal_strings() {
    let mut interner = Interner::with_capacity(4);
    let a = interner.intern("alpha");
    let b = interner.intern("beta");
    let c = interner.intern("alpha");
    assert_eq!(a, InternedKey(0));
    assert_eq!(b, InternedKey(1));
    assert_eq!(a, c);
    assert_ne!(a, b);
    assert_eq!(interner.resolve(a), "alpha");
    assert_eq!(interner.resolve(b), "beta");
    assert_eq!(interner.len(), 2);
    assert_eq!(interner.get(InternedKey(2)), None);
    assert_eq!(interner.lookup("gamma"), None);
    assert_eq!(interner.lookup("beta"), Some(b));
}

#[test]
fn tokens_of_a_small_node() {
    assert_eq!(
        kinds("title: A\n---\nHello\n===\n"),
        vec![Label, Word, LineEnd, HeaderEnd, LineEnd, Word, LineEnd, NodeEnd, LineEnd, Eof]
    );
}

#[test]
fn tokens_carry_spans() {
    let toks = tokenize(&chars_of("ab  <<x>>\r\n{"));
    assert_eq!(
        toks,
        vec![
            Token { kind: TokenKind::Word, start: 0, end: 2 },
            Token { kind: TokenKind::CmdStart, start: 4, end: 6 },
            Token { kind: TokenKind::Word, start: 6, end: 7 },
            Token { kind: TokenKind::CmdEnd, start: 7, end: 9 },
            Token { kind: TokenKind::LineEnd, start: 9, end: 11 },
            Token { kind: TokenKind::ExprStart, start: 11, end: 12 },
            Token { kind: TokenKind::Eof, start: 12, end: 12 },
        ]
    );
}

#[test]
fn indentation_counts_only_at_the_start_of_a_line() {
    assert_eq!(kinds("    a    b"), vec![Indent, Word, Word, Eof]);
    assert_eq!(kinds("\t\ta"), vec![Indent, Indent, Word, Eof]);
    assert_eq!(kinds("  a"), vec![Word, Eof]);
    assert_eq!(kinds("        -> x"), vec![Indent, Indent, ShortcutOption, Word, Eof]);
}

#[test]
fn structural_tokens() {
    assert_eq!(
        kinds("[a|b] {x} #t -> <<c>>"),
        vec![
            OptionStart, Word, OptionEnd, ExprStart, Word, ExprEnd, Tag, Word, ShortcutOption,
            CmdStart, Word, CmdEnd, Eof
        ]
    );
    assert_eq!(kinds("\"a b\" c"), vec![Word, Word, Eof]);
    assert_eq!(kinds("\"open"), vec![TokenKind::Error, Eof]);
    assert_eq!(kinds("a\u{1}b"), vec![Word, TokenKind::Error, Word, Eof]);
    assert_eq!(kinds("a // rest\nb"), vec![Word, LineEnd, Word, Eof]);
    assert_eq!(kinds("a --- b"), vec![Word, Word, Word, Eof]);
    assert_eq!(kinds(""), vec![Eof]);
    assert_eq!(TokenKind::default(), Eof);
}

#[test]
fn node_gives_the_bytes_it_took() {
    let mut interner = Interner::new();
    let text = "title: Début\n---\nHé\n===\ntitle: B\n---\n===\n";
    let (first, used) = node(text, &mut interner).unwrap();
    assert_eq!(interner.resolve(first.title()), "Début");
    assert_eq!(first.lines.len(), 1);
    assert_eq!(&text[used..], "title: B\n---\n===\n");
    let (second, more) = node(&text[used..], &mut interner).unwrap();
    assert_eq!(interner.resolve(second.title()), "B");
    assert_eq!(second.lines.len(), 0);
    assert_eq!(used + more, text.len());
    match node(&text[used + more..], &mut interner) {
        Err(ParseError(0, "empty")) => {}
        other => panic!("expected the end of the script, got {:?}", other),
    }
}

#[test]
fn node_classifies_lines() {
    let mut interner = Interner::new();
    let text = "title: A\n---\nplain\nSally: said\nmark:\n<<set $a = 1>>\n<<if $a>>\n<<elseif 2>>\n<<else>>\n<<endif>>\n<<jump B>>\n<<stop>>\n<<wait 5>>\n<<wait>>\n<<custom x>>\n-> opt\n[a|b]\n===\n";
    let (n, _) = node(text, &mut interner).unwrap();
    let got: Vec<&str> = n
        .lines
        .iter()
        .map(|l| match l.kind {
            LineKind::Text(_) => "text",
            LineKind::Label => "label",
            LineKind::Assign(_, _) => "set",
            LineKind::If(_) => "if",
            LineKind::ElseIf(_) => "elseif",
            LineKind::Else => "else",
            LineKind::EndIf => "endif",
            LineKind::Jump(_) => "jump",
            LineKind::Stop => "stop",
            LineKind::Wait(_) => "wait",
            LineKind::WaitInput => "input",
            LineKind::Host(_, _) => "host",
            LineKind::Shortcut(_, _) => "shortcut",
            LineKind::Choice(_, _) => "choice",
        })
        .collect();
    assert_eq!(
        got,
        vec![
            "text", "text", "label", "set", "if", "elseif", "else", "endif", "jump", "stop",
            "wait", "input", "host", "shortcut", "choice"
        ]
    );
    assert_eq!(interner.resolve(n.lines[1].label.unwrap()), "Sally");
    assert_eq!(interner.resolve(n.lines[2].label.unwrap()), "mark");
}

#[test]
fn header_errors() {
    assert_eq!(
        load_error("title: A\ntitle: B\n---\n===\n"),
        Error::Syntax(1, "title: B".to_string(), "duplicate header key")
    );
    assert_eq!(
        load_error("title: A\ncolor: red\ncolor: blue\n---\n===\n"),
        Error::Syntax(2, "color: blue".to_string(), "duplicate header key")
    );
    assert_eq!(
        load_error("title: A\nHello\n===\n"),
        Error::Syntax(1, "Hello".to_string(), "all header items have to be in key:value form")
    );
    assert_eq!(
        load_error("title: A\n===\n"),
        Error::Syntax(1, "===".to_string(), "unterminated header")
    );
    assert_eq!(
        load_error("title: A\n"),
        Error::Syntax(0, "title: A".to_string(), "unterminated header")
    );
    assert_eq!(
        load_error("title: A"),
        Error::Syntax(0, "title: A".to_string(), "unterminated header")
    );
    assert_eq!(
        load_error("tags: a\n---\n===\n"),
        Error::Syntax(1, "---".to_string(), "missing title")
    );
}

#[test]
fn body_errors() {
    assert_eq!(
        load_error("title: A\n---\nHello\n"),
        Error::Syntax(2, "Hello".to_string(), "unterminated node")
    );
    assert_eq!(
        load_error("title: A\n---\n    \tmixed\n===\n"),
        Error::Syntax(2, "    \tmixed".to_string(), "mixed indentation")
    );
    assert_eq!(
        load_error("title: A\n---\n<<set n = 1>>\n===\n"),
        Error::Syntax(2, "<<set n = 1>>".to_string(), "malformed command")
    );
    assert_eq!(
        load_error("title: A\n---\n{1 +}\n===\n"),
        Error::Syntax(2, "{1 +}".to_string(), "malformed expression")
    );
    assert_eq!(
        load_error("title: A\n---\n{2.5}\n===\n"),
        Error::Syntax(2, "{2.5}".to_string(), "malformed expression")
    );
    assert_eq!(
        load_error("title: A\n---\n{99999999999999999999}\n===\n"),
        Error::Syntax(2, "{99999999999999999999}".to_string(), "number literal too large")
    );
    assert_eq!(
        load_error("title: A\n---\n[ | x]\n===\n"),
        Error::Syntax(2, "[ | x]".to_string(), "malformed option")
    );
    assert_eq!(
        load_error("title: A\n---\nbad \u{1} byte\n===\n"),
        Error::Syntax(2, "bad \u{1} byte".to_string(), "unrecognized characters")
    );
}

#[test]
fn empty_text_loads_nothing() {
    let mut runner = DialogRunner::new();
    assert_eq!(runner.load_yarn_file(""), Ok(()));
    assert_eq!(runner.load_yarn_file("\n  \n\n"), Ok(()));
    assert_eq!(runner.nodes().len(), 0);
    assert_eq!(runner.next_event(), None);
}

#[test]
fn a_node_is_printed_in_a_fixed_layout() {
    let mut interner = Interner::new();
    let text = "title:   A  \ntags:  x   y\n---\n  You have {$n+1} coins.   \n\t<<set   $n=2*3-1>>\n<<custom  a   b>>\n===\n";
    let (n, _) = node(text, &mut interner).unwrap();
    assert_eq!(
        print_node(&n, &interner).unwrap(),
        "title: A\ntags: x y\n---\nYou have {($n + 1)} coins.\n    <<set $n = ((2 * 3) - 1)>>\n<<custom a b>>\n===\n"
    );
}

#[test]
fn a_printed_node_parses_to_the_same_node() {
    let text = "title: Start\ntags: a b\ncolor: red\nplace: 1,2\n---\nSally: Hello {$n + 1} there #tag\nmark:\n<<set $n = 2 * (3 + $m) - -4>>\n<<if $n >= 2 and not $done or roll(1, \"d6\") == 6>>\n    -> Yes, {$n}! <<if $n == 2>>\n        Fine.\n    -> No\n<<elseif $s == \"x\">>\n<<else>>\n<<endif>>\n<<jump Start>>\n<<wait 5>>\n<<wait>>\n<<stop>>\n<<shake camera 2.0>>\n[Go north|North]\n===\n";
    let mut interner = Interner::new();
    let (first, _) = node(text, &mut interner).unwrap();
    let printed = print_node(&first, &interner).unwrap();
    let known = interner.len();
    let (second, used) = node(&printed, &mut interner).unwrap();
    assert_eq!(used, printed.len());
    assert_eq!(interner.len(), known);
    assert_eq!(format!("{:?}", first), format!("{:?}", second));
    assert_eq!(print_node(&second, &interner), Some(printed));
}

#[test]
fn layout_does_not_change_what_a_node_means() {
    let mut interner = Interner::new();
    let (plain, _) = node("title: A\n---\nHello\n<<jump B>>\n===\n", &mut interner).unwrap();
    let (spaced, _) = node(
        "\n\ntitle:   A   \n---\n\n  Hello   // said softly\n# a comment\n<<jump   B  >>\n\n===",
        &mut interner,
    )
    .unwrap();
    assert_eq!(format!("{:?}", plain), format!("{:?}", spaced));
}

#[test]
fn spans_in_bytes() {
    let chars = chars_of("é ✓x y");
    let toks = tokenize(&chars);
    assert_eq!(toks[0], Token { kind: TokenKind::Word, start: 0, end: 1 });
    assert_eq!(toks[1], Token { kind: TokenKind::Word, start: 2, end: 4 });
    assert_eq!(toks[2], Token { kind: TokenKind::Word, start: 5, end: 6 });
    assert_eq!(byte_span(&chars, toks[0]), (0, 2));
    assert_eq!(byte_span(&chars, toks[1]), (3, 7));
    assert_eq!(byte_span(&chars, toks[2]), (8, 9));
    assert_eq!(count_bytes(&chars, chars.len()), "é ✓x y".len());
    assert_eq!(count_bytes(&chars, 0), 0);
}

#[test]
fn the_excerpt_is_the_whole_line() {
    assert_eq!(
        load_error(" x"),
        Error::Syntax(0, " x".to_string(), "all header items have to be in key:value form")
    );
    assert_eq!(
        load_error("title: A\r\n---\r\n    <<set n>>  \r\n===\r\n"),
        Error::Syntax(2, "    <<set n>>  ".to_string(), "malformed command")
    );
    assert_eq!(
        load_error("title: A\n---\n\n  {1 +}  // why\n===\n"),
        Error::Syntax(3, "  {1 +}  // why".to_string(), "malformed expression")
    );
    assert_eq!(
        load_error("title: A\n---\nlast"),
        Error::Syntax(2, "last".to_string(), "unterminated node")
    );
}

#[test]
fn the_line_of_an_error_is_a_line_of_the_text() {
    let mut interner = Interner::new();
    match node("a:\n", &mut interner) {
        Err(ParseError(0, "unterminated header")) => {}
        other => panic!("expected line 0, got {:?}", other),
    }
    match node("a: b\n\n\n", &mut interner) {
        Err(ParseError(2, "unterminated header")) => {}
        other => panic!("expected line 2, got {:?}", other),
    }
    match node("title: A\n---\nx\n", &mut interner) {
        Err(ParseError(2, "unterminated node")) => {}
        other => panic!("expected line 2, got {:?}", other),
    }
    for text in ["a:\n", "title: A\n---\n", "title: A\n---\nx", "x\n\n", "title: A\ntitle: B\n"] {
        match node(text, &mut interner) {
            Err(ParseError(line, _)) => assert!((line as usize) < text.lines().count()),
            Ok(_) => panic!("expected an error"),
        }
    }
}

#[test]
fn the_first_token_of_a_header_line_decides() {
    let key_value = "all header items have to be in key:value form";
    assert_eq!(
        load_error("title: A\n\u{1}color: red\n---\n===\n"),
        Error::Syntax(1, "\u{1}color: red".to_string(), key_value)
    );
    assert_eq!(
        load_error("title: A\n<<set $a = 1>>\n---\n===\n"),
        Error::Syntax(1, "<<set $a = 1>>".to_string(), key_value)
    );
    assert_eq!(
        load_error("title: A\n-> x \u{1}\n---\n===\n"),
        Error::Syntax(1, "-> x \u{1}".to_string(), key_value)
    );
    assert_eq!(
        load_error("title: A\ncolor: r\u{1}d\n---\n===\n"),
        Error::Syntax(1, "color: r\u{1}d".to_string(), "unrecognized characters")
    );
    let mut runner = DialogRunner::new();
    assert_eq!(runner.load_yarn_file("title: A\n# note \u{1}\n---\n===\n"), Ok(()));
}

#[test]
fn punctuation_in_text_survives_printing() {
    let text = "title: Well - known: a/b\nnote: x = y | z\n---\nHello - there: a/b = c | d < e > f\nSally: so - it: goes #t\n-> Yes - or: no <<if ($a >= 1)>>\n    fine = good\n<<jump Well - known: a/b>>\n[go - on: now|Well - known: a/b]\n===\n";
    let mut interner = Interner::new();
    let (first, _) = node(text, &mut interner).unwrap();
    let printed = print_node(&first, &interner).unwrap();
    assert_eq!(printed, text);
    let known = interner.len();
    let (second, used) = node(&printed, &mut interner).unwrap();
    assert_eq!(used, printed.len());
    assert_eq!(interner.len(), known);
    assert_eq!(format!("{:?}", first), format!("{:?}", second));
}

#[test]
fn quoted_text_survives_printing() {
    let text = "title: A\n---\n\"Well {yes}\", she said - \"#1\" [sic] } (no)\tthen x{1}y]\n-> [aside] ok\n===\n";
    let mut interner = Interner::new();
    let (first, _) = node(text, &mut interner).unwrap();
    assert_eq!(first.lines.len(), 2);
    let printed = print_node(&first, &interner).unwrap();
    assert_eq!(printed, text);
    let (second, used) = node(&printed, &mut interner).unwrap();
    assert_eq!(used, printed.len());
    assert_eq!(format!("{:?}", first), format!("{:?}", second));
}

#[test]
fn a_node_that_would_read_back_otherwise_is_not_printed() {
    let mut interner = Interner::new();
    let (n, _) = node("title: A\n---\n->//x\n===\n", &mut interner).unwrap();
    assert_eq!(n.lines.len(), 1);
    assert_eq!(print_node(&n, &interner), None);
    let written = write_node(&n, &interner);
    assert_eq!(written, "title: A\n---\n-> //x\n===\n");
    let (other, _) = node(&written, &mut interner).unwrap();
    assert_ne!(format!("{:?}", n), format!("{:?}", other));
}

#[test]
fn a_node_with_a_foreign_key_is_not_printed() {
    let mut interner = Interner::new();
    let (n, _) = node("title: A\n---\nHello\n===\n", &mut interner).unwrap();
    assert!(print_node(&n, &interner).is_some());
    let empty = Interner::new();
    assert_eq!(print_node(&n, &empty), None);
}

fn reads_back(body: &str) -> Option<bool> {
    let text = format!("title: A\n---\n{}\n===\n", body);
    let mut interner = Interner::new();
    let (first, _) = match node(&text, &mut interner) {
        Ok(r) => r,
        Err(_) => return None,
    };
    let known = interner.len();
    let printed = match print_node(&first, &interner) {
        Some(p) => p,
        None => return Some(false),
    };
    assert_eq!(printed, write_node(&first, &interner));
    let (second, used) = node(&printed, &mut interner).unwrap();
    assert_eq!(used, printed.len());
    assert_eq!(interner.len(), known);
    assert_eq!(format!("{:?}", first), format!("{:?}", second));
    Some(true)
}

#[test]
fn lines_that_are_printed() {
    let bodies = [
        "Hello",
        "Sally: it's \"fine\", no?",
        "Sally: #t",
        "a -",
        "a <",
        "a >",
        "a /",
        "x//c",
        "---x",
        "x #t:u",
        "a\tb",
        "{1} x {$y}{f(1, \"a\")}",
        "<<f a:b>>",
        "<<f \"a b\">>",
        "<<f {1}>>",
        "<<shake camera 2.0>>",
        "<<jump a\tb>>",
        "<<jump \"a\">>",
        "<<set $x = -1>>",
        "<<if f(1, $x) > 2>>\n<<endif>>",
        "[\"a\"|b]",
        "-> x #t",
        "-> x {1} <<if $y>>",
    ];
    for body in bodies {
        assert_eq!(reads_back(body), Some(true), "{:?}", body);
    }
}

#[test]
fn lines_that_are_not_printed() {
    for body in ["<<f > >>", "->//x", "Sally://x"] {
        assert_eq!(reads_back(body), Some(false), "{:?}", body);
    }
    for body in ["an open \" quote", "<<stop now>>", "[a|b] x", "--- x"] {
        assert_eq!(reads_back(body), None, "{:?}", body);
    }
}

#[test]
fn headers_that_are_printed() {
    let heads = [
        "title: A\ntags:\n---\n===\n",
        "title: A\ntags: a:b c\n---\n===\n",
        "title: A\nx:\n---\n===\n",
        "title: A\nx: a\tb\n---\n===\n",
        "title: A\nx: \"a\"\n---\n===\n",
        "title: A\nx: {a} [b] #c <<d>> -> e\n---\n===\n",
        "x: 1\ntitle: a  b\n---\n===\n",
    ];
    for text in heads {
        let mut interner = Interner::new();
        let (first, _) = node(text, &mut interner).unwrap();
        let printed = print_node(&first, &interner).unwrap();
        let (second, used) = node(&printed, &mut interner).unwrap();
        assert_eq!(used, printed.len());
        assert_eq!(format!("{:?}", first), format!("{:?}", second));
    }
}

#[test]
fn a_copy_of_an_interner_has_the_same_keys() {
    let mut interner = Interner::new();
    let a = interner.intern("a");
    let b = interner.intern("b");
    let mut copy = interner.copy();
    assert_eq!(copy.len(), 2);
    assert_eq!(copy.resolve(a), "a");
    assert_eq!(copy.resolve(b), "b");
    assert_eq!(copy.intern("b"), b);
    assert_eq!(copy.intern("c"), InternedKey(2));
    assert_eq!(interner.len(), 2);
    assert_eq!(interner.get(InternedKey(2)), None);
}

#[test]
fn custom_entries_stand_for_their_text() {
    let mut interner = Interner::new();
    let (n, _) = node("title: A\ncolor:   dark red \ntags: x\nplace: 1,2\nnote:\n---\n===\n", &mut interner).unwrap();
    let mut pairs = Vec::new();
    let mut rest = &n.header.custom;
    while let yarnspinner::ast::KeyPairs::Cons(k, v, next) = rest {
        pairs.push((interner.resolve(*k), interner.resolve(*v)));
        rest = next;
    }
    assert_eq!(pairs, vec![("color", "dark red"), ("place", "1,2"), ("note", "")]);
}

#[test]
fn kinds_of_text() {
    let mild = |t: &str| text_is_mild(&chars_of(t));
    assert!(mild(""));
    assert!(mild("it's \"so // <<\" [x] } a-b a/b"));
    assert!(!mild("a // b"));
    assert!(!mild("a -> b"));
    assert!(!mild("a << b"));
    assert!(!mild("a >> b"));
    assert!(!mild("a {b"));
    assert!(!mild("a #b"));
    assert!(!mild("an open \" quote"));
    assert!(!mild("a -"));
    let phrase = |t: &str| text_is_phrase(&chars_of(t));
    assert!(phrase("dark red: 1,2"));
    assert!(!phrase(""));
    assert!(!phrase(" a"));
    assert!(!phrase("a "));
    assert!(!phrase("a\tb"));
    assert!(!phrase("a \"b\""));
    assert!(!phrase("a [b]"));
    let word = |t: &str| text_is_word(&chars_of(t));
    assert!(word("2.0"));
    assert!(!word("a b"));
    assert!(!word("a:b"));
    assert!(!word(""));
    let name = |t: &str| text_is_name(&chars_of(t));
    assert!(name("_a1"));
    assert!(name("1a"));
    assert!(!name("a-b"));
    assert!(!name(""));
}

#[test]
fn nodes_known_to_read_back() {
    let known = |body: &str| {
        let text = format!("title: A\n---\n{}\n===\n", body);
        let mut interner = Interner::new();
        let (n, _) = node(&text, &mut interner).unwrap();
        admits_parts(&n, &interner)
    };
    assert!(known("Sally: Hello {$n + 1} there #tag"));
    assert!(known("<<set $n = 2 * (3 + $m)>>"));
    assert!(known("-> Yes <<if $n == 2>>\n    Fine."));
    assert!(known("[Go north|North]"));
    assert!(known("<<shake camera 2.0>>"));
    assert!(!known("<<shake a:b>>"));
    assert!(!known("---x"));
    assert!(known("a:b"));
    assert!(!known("a /"));
    assert!(!known("->//x"));
}
