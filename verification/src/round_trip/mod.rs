//! Printing and parsing agree: the printed form of a node parses back to
//! the node.
//!
//! The law itself is `node::law_printed_node_parses_back`. It stands on
//! what the lexer makes of printed text (`lexing`), and on the same law
//! for expressions (`expr`), templates (`template`) and lines (`line`,
//! `text`).
//!
//! The law is stated of the nodes that `node::printable_node` admits, and
//! that predicate says what it asks of each text in a node:
//!
//! - a literal piece of a line of text or of an option is *mild*: any
//!   characters but control characters, an opening brace and `#`, where
//!   none of `<<`, `>>`, `->` and `//` is formed; inside double quotes that
//!   are closed in the piece, anything but a line feed;
//! - a title, the value of a header entry, the target of a jump and both
//!   parts of a choice are *phrases*: steady text, which is mild text
//!   without quotes, closing braces, square brackets and tabs;
//! - a tag and a word of a host command are *words*: steady text without
//!   blanks and colons;
//! - a name (a speaker, a label, a variable, a function, a header key) is
//!   made of letters, digits and underscores;
//! - a number in an expression is not negative, which is all that the
//!   parser gives.
//!
//! The parser accepts texts that the predicate leaves out, and for some of
//! them no text in this layout parses back: a shortcut option written
//! `->//x` has the text `//x`, which behind `-> ` would start a comment.
//! `decide` computes the predicate, and `print_node` in `ast::print` prints
//! every node that it admits; a node that it leaves out is printed where
//! its text, parsed again, gives the node.

pub mod expr;
pub mod lexing;
pub mod template;
pub mod line;
pub mod text;
pub mod node;
pub mod decide;
