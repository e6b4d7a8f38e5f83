//! The events that a runner hands to its host.

use vstd::prelude::*;
use crate::ast::{KeyList, KeyPairs, NodeHeader};
use crate::ast::intern::Interner;
use crate::error::{Error, ErrorView};
use crate::value::{push_text, text_of};

verus! {

/// What a host is told of a node when the dialog enters it.
#[derive(Clone, Debug, PartialEq)]
pub struct NodeInfo {
    pub title: String,
    pub tags: Vec<String>,
    /// The header's custom entries, key and value, in source order.
    pub metadata: Vec<(String, String)>,
}

#[derive(Clone, Debug, PartialEq)]
pub enum Event {
    /// Start of a new node.
    NewNode(NodeInfo),
    /// A line of dialog, with its speaker where it has one.
    Line(Option<String>, String),
    /// A list of options to choose from.
    Options(Vec<String>),
    /// A command that the engine leaves to the host: its name and its words.
    Command(String, Vec<String>),
    /// The runner is paused, waiting for input.
    WaitInput,
    /// The runner is paused for so many milliseconds.
    Wait(usize),
    /// The dialog has ended.
    End,
    /// The node was ended by an error.
    Error(Error),
}

pub struct NodeInfoView {
    pub title: Seq<char>,
    pub tags: Seq<Seq<char>>,
    pub metadata: Seq<(Seq<char>, Seq<char>)>,
}

/// An event as a value of specifications: text in place of strings.
pub enum EventView {
    NewNode(NodeInfoView),
    Line(Option<Seq<char>>, Seq<char>),
    Options(Seq<Seq<char>>),
    Command(Seq<char>, Seq<Seq<char>>),
    WaitInput,
    Wait(usize),
    End,
    Error(ErrorView),
}

/// The texts of a vector of strings.
pub open spec fn texts(v: Seq<String>) -> Seq<Seq<char>> {
    Seq::new(v.len(), |i: int| v[i]@)
}

/// The texts of a vector of pairs of strings.
pub open spec fn pair_texts(v: Seq<(String, String)>) -> Seq<(Seq<char>, Seq<char>)> {
    Seq::new(v.len(), |i: int| (v[i].0@, v[i].1@))
}

impl View for NodeInfo {
    type V = NodeInfoView;

    open spec fn view(&self) -> NodeInfoView {
        NodeInfoView {
            title: self.title@,
            tags: texts(self.tags@),
            metadata: pair_texts(self.metadata@),
        }
    }
}

impl View for Event {
    type V = EventView;

    open spec fn view(&self) -> EventView {
        match *self {
            Event::NewNode(info) => EventView::NewNode(info@),
            Event::Line(speaker, text) => EventView::Line(
                match speaker {
                    Some(s) => Some(s@),
                    None => None,
                },
                text@,
            ),
            Event::Options(labels) => EventView::Options(texts(labels@)),
            Event::Command(name, words) => EventView::Command(name@, texts(words@)),
            Event::WaitInput => EventView::WaitInput,
            Event::Wait(ms) => EventView::Wait(ms),
            Event::End => EventView::End,
            Event::Error(e) => EventView::Error(e@),
        }
    }
}

/// The view of an event that may be absent.
pub open spec fn event_view(e: Option<Event>) -> Option<EventView> {
    match e {
        Some(e) => Some(e@),
        None => None,
    }
}

/// The texts of a list of keys.
pub open spec fn list_texts(list: KeyList, table: Seq<Seq<char>>) -> Seq<Seq<char>>
    decreases list,
{
    match list {
        KeyList::Nil => Seq::empty(),
        KeyList::Cons(k, rest) => seq![text_of(table, k)] + list_texts(*rest, table),
    }
}

/// The texts of a list of pairs of keys.
pub open spec fn pairs_texts(pairs: KeyPairs, table: Seq<Seq<char>>) -> Seq<
    (Seq<char>, Seq<char>),
>
    decreases pairs,
{
    match pairs {
        KeyPairs::Nil => Seq::empty(),
        KeyPairs::Cons(k, v, rest) => seq![(text_of(table, k), text_of(table, v))] + pairs_texts(
            *rest,
            table,
        ),
    }
}

/// What a host is told of a node with header `header`.
pub open spec fn node_info(header: NodeHeader, table: Seq<Seq<char>>) -> NodeInfoView {
    NodeInfoView {
        title: text_of(table, header.title),
        tags: list_texts(header.tags, table),
        metadata: pairs_texts(header.custom, table),
    }
}

/// The text of an interned string, as a string of its own.
pub fn text_string(interner: &Interner, key: crate::ast::NodeLabel) -> (s: String)
    ensures
        s@ == text_of(interner@, key),
{
    let mut s = String::new();
    push_text(&mut s, interner, key);
    assert(s@ =~= text_of(interner@, key));
    s
}

/// The strings of a list of keys.
pub fn list_strings(list: &KeyList, interner: &Interner) -> (v: Vec<String>)
    ensures
        texts(v@) == list_texts(*list, interner@),
{
    let mut v: Vec<String> = Vec::new();
    let mut cur = list;
    assert(texts(v@) =~= Seq::<Seq<char>>::empty());
    loop
        invariant
            texts(v@) + list_texts(*cur, interner@) == list_texts(*list, interner@),
        decreases *cur,
    {
        match cur {
            KeyList::Nil => {
                assert(texts(v@) + Seq::<Seq<char>>::empty() =~= texts(v@));
                return v;
            },
            KeyList::Cons(k, rest) => {
                let ghost before = texts(v@);
                v.push(text_string(interner, *k));
                assert(texts(v@) =~= before + seq![text_of(interner@, *k)]);
                assert((before + seq![text_of(interner@, *k)]) + list_texts(**rest, interner@)
                    =~= before + (seq![text_of(interner@, *k)] + list_texts(**rest, interner@)));
                cur = rest;
            },
        }
    }
}

/// The strings of a list of pairs of keys.
pub fn pairs_strings(pairs: &KeyPairs, interner: &Interner) -> (v: Vec<(String, String)>)
    ensures
        pair_texts(v@) == pairs_texts(*pairs, interner@),
{
    let mut v: Vec<(String, String)> = Vec::new();
    let mut cur = pairs;
    assert(pair_texts(v@) =~= Seq::<(Seq<char>, Seq<char>)>::empty());
    loop
        invariant
            pair_texts(v@) + pairs_texts(*cur, interner@) == pairs_texts(*pairs, interner@),
        decreases *cur,
    {
        match cur {
            KeyPairs::Nil => {
                assert(pair_texts(v@) + Seq::<(Seq<char>, Seq<char>)>::empty() =~= pair_texts(
                    v@,
                ));
                return v;
            },
            KeyPairs::Cons(k, val, rest) => {
                let ghost before = pair_texts(v@);
                let ghost item = (text_of(interner@, *k), text_of(interner@, *val));
                v.push((text_string(interner, *k), text_string(interner, *val)));
                assert(pair_texts(v@) =~= before + seq![item]);
                assert((before + seq![item]) + pairs_texts(**rest, interner@) =~= before + (
                seq![item] + pairs_texts(**rest, interner@)));
                cur = rest;
            },
        }
    }
}

/// What a host is told of a node with header `header`.
pub fn make_node_info(header: &NodeHeader, interner: &Interner) -> (info: NodeInfo)
    ensures
        info@ == node_info(*header, interner@),
{
    NodeInfo {
        title: text_string(interner, header.title),
        tags: list_strings(&header.tags, interner),
        metadata: pairs_strings(&header.custom, interner),
    }
}

} // verus!
