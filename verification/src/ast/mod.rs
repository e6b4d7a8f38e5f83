//! The intermediate representation of a script: nodes, their headers and
//! their lines.

use vstd::prelude::*;

pub mod intern;
pub mod expr;
pub mod scan;
pub mod template;
pub mod command;
pub mod line;
pub mod header;
pub mod parse;
pub mod print;
pub mod same;
pub use parse::node;
pub use parse::ParseError;

verus! {

/// The key of an interned name: a node title, a variable, a function, a tag.
pub type NodeLabel = intern::InternedKey;

/// A runtime scalar: a number or an interned string. A number stands for a
/// truth value too: zero is false, anything else is true.
#[derive(Clone, Copy, PartialEq, Eq, Debug, Structural)]
pub enum Value {
    Number(i64),
    String(NodeLabel),
}

/// The operators with one operand.
#[derive(Clone, Copy, PartialEq, Eq, Debug, Structural)]
pub enum UnaryOp {
    Neg,
    Not,
}

/// The operators with two operands.
#[derive(Clone, Copy, PartialEq, Eq, Debug, Structural)]
pub enum BinaryOp {
    Or,
    And,
    Eq,
    Ne,
    Lt,
    Le,
    Gt,
    Ge,
    Add,
    Sub,
    Mul,
    Div,
    Rem,
}

/// An expression.
#[derive(Debug)]
pub enum Expr {
    /// A number literal, `true` (one) or `false` (zero).
    Number(i64),
    /// A string literal.
    Text(NodeLabel),
    /// A variable, `$name`.
    Var(NodeLabel),
    /// A call of a host function.
    Call(NodeLabel, Args),
    Unary(UnaryOp, Box<Expr>),
    Binary(BinaryOp, Box<Expr>, Box<Expr>),
}

/// The arguments of a call, first to last.
#[derive(Debug)]
pub enum Args {
    Nil,
    Cons(Box<Expr>, Box<Args>),
}

/// A text with placeholders: literal pieces and expressions, in order.
#[derive(Debug)]
pub enum Template {
    End,
    /// A literal piece, then the rest.
    Lit(NodeLabel, Box<Template>),
    /// An expression whose value is put in its place, then the rest.
    Hole(Box<Expr>, Box<Template>),
}

/// A list of interned strings, first to last.
#[derive(Debug)]
pub enum KeyList {
    Nil,
    Cons(NodeLabel, Box<KeyList>),
}

/// A list of pairs of a key and a value, both interned, first to last.
#[derive(Debug)]
pub enum KeyPairs {
    Nil,
    Cons(NodeLabel, NodeLabel, Box<KeyPairs>),
}

/// What a line of a node's body is.
#[derive(Debug)]
pub enum LineKind {
    /// Dialog text; the speaker, if any, is the line's label.
    Text(Template),
    /// A jump target inside the node; its name is the line's label.
    Label,
    /// `<<set $name = expression>>`
    Assign(NodeLabel, Expr),
    /// `<<if expression>>`
    If(Expr),
    /// `<<elseif expression>>`
    ElseIf(Expr),
    /// `<<else>>`
    Else,
    /// `<<endif>>`
    EndIf,
    /// `<<jump target>>`
    Jump(NodeLabel),
    /// `<<stop>>`
    Stop,
    /// `<<wait expression>>`: a pause of so many milliseconds.
    Wait(Expr),
    /// `<<wait>>`: a pause until the host resumes.
    WaitInput,
    /// Any other command: its name and its words as written.
    Host(NodeLabel, KeyList),
    /// `-> text`, with the condition of `<<if expression>>` where one
    /// follows the text. The lines of its body follow it, indented deeper.
    Shortcut(Template, Option<Expr>),
    /// `[text|target]`: a choice that jumps to `target`.
    Choice(NodeLabel, NodeLabel),
}

/// One line of a node's body.
#[derive(Debug)]
pub struct NodeLine {
    /// The speaker of a text line, or the name of a label line.
    pub label: Option<NodeLabel>,
    /// How many levels the line is indented.
    pub indent: usize,
    /// The `#tag` behind a text line.
    pub tag: Option<NodeLabel>,
    pub kind: LineKind,
}

/// The header of a node.
#[derive(Debug)]
pub struct NodeHeader {
    pub title: NodeLabel,
    pub tags: KeyList,
    /// The header's other entries, in source order; no key occurs twice.
    pub custom: KeyPairs,
}

/// A node: the unit of dialog and the target of jumps.
#[derive(Debug)]
pub struct Node {
    pub header: NodeHeader,
    pub lines: Vec<NodeLine>,
}

impl Node {
    pub fn title(&self) -> (t: NodeLabel)
        ensures
            t == self.header.title,
    {
        self.header.title
    }
}

impl KeyList {
    pub open spec fn len(self) -> nat
        decreases self,
    {
        match self {
            KeyList::Nil => 0,
            KeyList::Cons(_, rest) => 1 + rest.len(),
        }
    }

    /// The keys as a sequence.
    pub open spec fn keys(self) -> Seq<NodeLabel>
        decreases self,
    {
        match self {
            KeyList::Nil => Seq::empty(),
            KeyList::Cons(k, rest) => seq![k] + rest.keys(),
        }
    }
}

impl KeyPairs {
    /// Whether `key` is the key of one of the pairs.
    pub open spec fn has(self, key: NodeLabel) -> bool
        decreases self,
    {
        match self {
            KeyPairs::Nil => false,
            KeyPairs::Cons(k, _, rest) => k == key || rest.has(key),
        }
    }

    /// The list with the pair of `key` and `value` at its end.
    pub open spec fn with(self, key: NodeLabel, value: NodeLabel) -> KeyPairs
        decreases self,
    {
        match self {
            KeyPairs::Nil => KeyPairs::Cons(key, value, Box::new(KeyPairs::Nil)),
            KeyPairs::Cons(k, v, rest) => KeyPairs::Cons(k, v, Box::new(rest.with(key, value))),
        }
    }

    /// The pairs as a sequence.
    pub open spec fn pairs(self) -> Seq<(NodeLabel, NodeLabel)>
        decreases self,
    {
        match self {
            KeyPairs::Nil => Seq::empty(),
            KeyPairs::Cons(k, v, rest) => seq![(k, v)] + rest.pairs(),
        }
    }

    pub fn contains(&self, key: NodeLabel) -> (r: bool)
        ensures
            r == self.has(key),
        decreases *self,
    {
        match self {
            KeyPairs::Nil => false,
            KeyPairs::Cons(k, _, rest) => *k == key || rest.contains(key),
        }
    }

    pub fn push(self, key: NodeLabel, value: NodeLabel) -> (r: KeyPairs)
        ensures
            r == self.with(key, value),
        decreases self,
    {
        match self {
            KeyPairs::Nil => KeyPairs::Cons(key, value, Box::new(KeyPairs::Nil)),
            KeyPairs::Cons(k, v, rest) => KeyPairs::Cons(k, v, Box::new(rest.push(key, value))),
        }
    }
}

/// What can be wrong with a script's text.
#[derive(Clone, Copy, PartialEq, Eq, Debug, Structural)]
pub enum SyntaxKind {
    /// Nothing but blank lines is left: the clean end of a script.
    Empty,
    UnexpectedEof,
    HeaderItem,
    DuplicateHeaderKey,
    MissingTitle,
    UnterminatedHeader,
    UnterminatedNode,
    MixedIndentation,
    BadToken,
    BadCommand,
    BadExpression,
    NumberTooLarge,
    BadOption,
    TooManyStrings,
    DuplicateNodeTitle,
}

impl SyntaxKind {
    /// The message of each kind.
    pub open spec fn message_of(self) -> &'static str {
        match self {
            SyntaxKind::Empty => "empty",
            SyntaxKind::UnexpectedEof => "unexpected eof",
            SyntaxKind::HeaderItem => "all header items have to be in key:value form",
            SyntaxKind::DuplicateHeaderKey => "duplicate header key",
            SyntaxKind::MissingTitle => "missing title",
            SyntaxKind::UnterminatedHeader => "unterminated header",
            SyntaxKind::UnterminatedNode => "unterminated node",
            SyntaxKind::MixedIndentation => "mixed indentation",
            SyntaxKind::BadToken => "unrecognized characters",
            SyntaxKind::BadCommand => "malformed command",
            SyntaxKind::BadExpression => "malformed expression",
            SyntaxKind::NumberTooLarge => "number literal too large",
            SyntaxKind::BadOption => "malformed option",
            SyntaxKind::TooManyStrings => "too many distinct strings",
            SyntaxKind::DuplicateNodeTitle => "duplicate node title",
        }
    }

    pub fn message(&self) -> (m: &'static str)
        ensures
            m == self.message_of(),
    {
        match self {
            SyntaxKind::Empty => "empty",
            SyntaxKind::UnexpectedEof => "unexpected eof",
            SyntaxKind::HeaderItem => "all header items have to be in key:value form",
            SyntaxKind::DuplicateHeaderKey => "duplicate header key",
            SyntaxKind::MissingTitle => "missing title",
            SyntaxKind::UnterminatedHeader => "unterminated header",
            SyntaxKind::UnterminatedNode => "unterminated node",
            SyntaxKind::MixedIndentation => "mixed indentation",
            SyntaxKind::BadToken => "unrecognized characters",
            SyntaxKind::BadCommand => "malformed command",
            SyntaxKind::BadExpression => "malformed expression",
            SyntaxKind::NumberTooLarge => "number literal too large",
            SyntaxKind::BadOption => "malformed option",
            SyntaxKind::TooManyStrings => "too many distinct strings",
            SyntaxKind::DuplicateNodeTitle => "duplicate node title",
        }
    }
}

} // verus!
