//! The dialog runner: it holds the nodes of the loaded scripts and the
//! execution state, and yields one event per call.

use vstd::prelude::*;
use crate::ast::{LineKind, Node, NodeLabel, Value};
use crate::ast::intern::{has_room, holds, index_of, interned_key, interned_table, Interner};
use crate::ast::line::Fault;
use crate::ast::parse::{
    count_lines, excerpt, excerpt_string, line_number, parse_script, parts, read_script, titles,
};
use crate::error::{Error, ErrorView};
use crate::eval::Outcome;
use crate::event::{Event, event_view};
use crate::host::{Context, FnSig, Functions, HostFunction, lookup, MemoryContext};
use crate::lexer::{tokenize, tokens_of};
use crate::machine::{
    cursor_in, find_node, Frame, idle, loaded, Mode, next, run, selected, started, State, step,
    ticked, World,
};
use crate::stepper::{Cursor, fail_with, seek_node, step_in, world};
use crate::text::chars_of;
use crate::value::RuntimeError;

verus! {

/// The titles of the nodes of a table.
pub fn node_titles(nodes: &Vec<Node>) -> (r: Vec<NodeLabel>)
    ensures
        r@ == titles(nodes@),
{
    let mut r: Vec<NodeLabel> = Vec::new();
    let mut i: usize = 0;
    while i < nodes.len()
        invariant
            i <= nodes.len(),
            r@ == titles(nodes@.take(i as int)),
        decreases nodes.len() - i,
    {
        r.push(nodes[i].title());
        i += 1;
        assert(titles(nodes@.take(i as int)) =~= titles(nodes@.take(i - 1)).push(
            nodes@[i - 1].header.title,
        ));
    }
    assert(nodes@.take(i as int) =~= nodes@);
    r
}

/// A fault as the error that the host gets: the number of the line that
/// holds it, counted over the whole text, that line, and the message.
pub open spec fn syntax_error(s: Seq<char>, toks: Seq<crate::lexer::Token>, f: Fault) -> ErrorView {
    ErrorView::Syntax(
        line_number(s, toks, f.at as int),
        excerpt(s, toks, f.at as int),
        f.kind.message_of()@,
    )
}

/// Runs dialog: it holds the nodes of the scripts that were loaded, the
/// table of interned strings, the host's store and functions, and the
/// execution state.
#[verifier::reject_recursive_types(C)]
pub struct DialogRunner<C: Context> {
    string_table: Interner,
    nodes: Vec<Node>,
    functions: Functions<C>,
    ctx: C,
    cursor: Cursor,
}

impl<C: Context> View for DialogRunner<C> {
    type V = World;

    closed spec fn view(&self) -> World {
        world(self.nodes@, self.string_table, self.ctx, self.functions, self.cursor)
    }
}

impl DialogRunner<MemoryContext> {
    /// A runner with a store of its own, without nodes, not started.
    pub fn new() -> (r: Self)
        ensures
            r.wf(),
            r@.nodes == Seq::<Node>::empty(),
            r@.table == Seq::<Seq<char>>::empty(),
            r@.vars == Map::<u32, Value>::empty(),
            r@.fns == Seq::<FnSig>::empty(),
            r.callables().len() == 0,
            r@.state == idle(),
    {
        Self::with_context(MemoryContext::new())
    }
}

impl<C: Context> DialogRunner<C> {
    /// The invariant of a runner: its interner and its functions are in
    /// order, no two of its nodes have one title, its cursor is in order,
    /// it has a current node as soon as it has a node at all, and without
    /// a current node it is idle, as a new runner is but for its clock and
    /// its step budget.
    pub closed spec fn wf(&self) -> bool {
        &&& self.string_table.wf()
        &&& self.functions.wf()
        &&& titles(self.nodes@).no_duplicates()
        &&& cursor_in(self.nodes@, self.cursor@)
        &&& self.cursor.node is None ==> self.nodes@.len() == 0 && self.cursor@ == (State {
            clock: self.cursor.clock,
            budget: self.cursor.budget,
            ..idle()
        })
    }

    /// The callables of the registered functions, in the order of
    /// registration: the one at a place is what the signature at that place
    /// of `self@.fns` calls.
    pub closed spec fn callables(&self) -> Seq<Box<dyn HostFunction<C>>> {
        self.functions.callables()
    }

    /// What the invariant says of the view: no two nodes of a runner have
    /// one title, the cursor is in order, every signature has its callable,
    /// and a runner without a current node has no node, so that the node a
    /// first load starts in is the first node of the loaded text.
    pub proof fn lemma_titles_unique(&self)
        requires
            self.wf(),
        ensures
            titles(self@.nodes).no_duplicates(),
            crate::ast::intern::distinct(self@.table),
            crate::machine::cursor_ok(self@),
            self@.state.node is None ==> self@.nodes.len() == 0 && self@.state == (State {
                clock: self@.state.clock,
                budget: self@.state.budget,
                ..idle()
            }),
            self.callables().len() == self@.fns.len(),
    {
        self.string_table.lemma_wf();
        self.functions.lemma_wf();
    }

    /// A runner on the store `ctx`, without nodes, not started.
    pub fn with_context(ctx: C) -> (r: Self)
        ensures
            r.wf(),
            r@.nodes == Seq::<Node>::empty(),
            r@.table == Seq::<Seq<char>>::empty(),
            r@.vars == ctx.vars(),
            r@.fns == Seq::<FnSig>::empty(),
            r.callables().len() == 0,
            r@.state == idle(),
    {
        DialogRunner {
            string_table: Interner::with_capacity(128),
            nodes: Vec::new(),
            functions: Functions::new(),
            ctx,
            cursor: Cursor::new(),
        }
    }

    /// Registers the host function `func` under `name`, to be called with
    /// `args` arguments. A later registration of a name takes the place of
    /// an earlier one. The signature and the callable are each added at the
    /// end of their list, so that `func` stands at the place of its
    /// signature.
    pub fn add_function(&mut self, name: &str, args: usize, func: Box<dyn HostFunction<C>>)
        requires
            old(self).wf(),
            has_room(old(self)@.table, name@),
        ensures
            final(self).wf(),
            final(self)@ == (World {
                table: interned_table(old(self)@.table, name@),
                fns: old(self)@.fns.push(
                    FnSig {
                        name: NodeLabel { 0: interned_key(old(self)@.table, name@) as u32 },
                        arity: args,
                    },
                ),
                ..old(self)@
            }),
            final(self).callables() == old(self).callables().push(func),
            final(self).callables().len() == final(self)@.fns.len(),
    {
        let key = self.string_table.intern(name);
        let ghost before = self.functions.callables@;
        proof {
            vstd::seq::axiom_seq_push_len(before, func);
        }
        self.functions.sigs.push(FnSig { name: key, arity: args });
        self.functions.callables.push(func);
    }

    /// Whether `name` can still be interned: it was before, or a key is
    /// left.
    pub fn can_intern(&self, name: &str) -> (r: bool)
        requires
            self.wf(),
        ensures
            r == has_room(self@.table, name@),
    {
        self.string_table.lookup(name).is_some() || self.string_table.len() < 0xffff_ffff
    }

    /// The value of the variable `name`.
    pub fn variable(&self, name: &str) -> (r: Option<Value>)
        requires
            self.wf(),
        ensures
            r == (if holds(self@.table, name@) {
                lookup(self@.vars, NodeLabel { 0: index_of(self@.table, name@) as u32 })
            } else {
                None
            }),
    {
        match self.string_table.lookup(name) {
            Some(key) => self.ctx.get_var(key),
            None => None,
        }
    }

    /// Sets the variable `name` to `val`.
    pub fn set_variable(&mut self, name: &str, val: Value)
        requires
            old(self).wf(),
            has_room(old(self)@.table, name@),
        ensures
            final(self).wf(),
            final(self).callables() == old(self).callables(),
            final(self)@ == (World {
                table: interned_table(old(self)@.table, name@),
                vars: old(self)@.vars.insert(interned_key(old(self)@.table, name@) as u32, val),
                ..old(self)@
            }),
    {
        let key = self.string_table.intern(name);
        self.ctx.set_var(key, val);
    }

    /// Sets the number of steps that one call of `next_event` may take.
    pub fn set_step_budget(&mut self, steps: usize)
        requires
            old(self).wf(),
        ensures
            final(self).wf(),
            final(self).callables() == old(self).callables(),
            final(self)@ == (World {
                state: State { budget: steps, ..old(self)@.state },
                ..old(self)@
            }),
    {
        self.cursor.budget = steps;
    }

    /// What the runner is doing.
    pub fn mode(&self) -> (m: Mode)
        ensures
            m == self@.state.mode,
    {
        self.cursor.mode
    }

    /// The table of interned strings.
    pub fn string_table(&self) -> (t: &Interner)
        ensures
            t@ == self@.table,
            self.wf() ==> t.wf(),
    {
        &self.string_table
    }

    /// The host's store.
    pub fn context(&self) -> (c: &C)
        ensures
            c.vars() == self@.vars,
    {
        &self.ctx
    }

    /// The nodes that were loaded.
    pub fn nodes(&self) -> (n: &Vec<Node>)
        ensures
            n@ == self@.nodes,
    {
        &self.nodes
    }

    /// Parses `text` and adds its nodes to the runner's table, all or none.
    ///
    /// A title that the table holds already, or that stands twice in
    /// `text`, is a syntax error, "duplicate node title". A runner without
    /// a current node starts in the first node of its table, which is then
    /// the first node of `text`; nothing else of its state changes, and
    /// neither the store nor the registered functions are touched.
    pub fn load_yarn_file(&mut self, text: &str) -> (r: Result<(), Error>)
        requires
            old(self).wf(),
        ensures
            final(self).wf(),
            final(self).callables() == old(self).callables(),
            titles(final(self)@.nodes).no_duplicates(),
            crate::ast::intern::extends(final(self)@.table, old(self)@.table),
            final(self)@.vars == old(self)@.vars,
            final(self)@.fns == old(self)@.fns,
            ({
                let toks = tokens_of(text@);
                let p = parse_script(
                    text@,
                    toks,
                    0,
                    old(self)@.table,
                    titles(old(self)@.nodes),
                    Seq::empty(),
                );
                let before = old(self)@.nodes.len() as int;
                &&& final(self)@.table == p.table
                &&& match p.out {
                    Ok((fresh, _)) => {
                        &&& r is Ok
                        &&& final(self)@.nodes.len() == before + fresh.len()
                        &&& final(self)@.nodes.subrange(0, before) == old(self)@.nodes
                        &&& parts(
                            final(self)@.nodes.subrange(before, final(self)@.nodes.len() as int),
                        ) == fresh
                        &&& final(self)@.state == loaded(
                            old(self)@.state,
                            final(self)@.nodes.len() as int,
                        )
                        &&& final(self)@.state == (if old(self)@.state.node is None && before
                            + fresh.len() > 0 {
                            State { mode: Mode::Running, node: Some(0), ..old(self)@.state }
                        } else {
                            old(self)@.state
                        })
                    },
                    Err(f) => {
                        &&& r is Err
                        &&& r->Err_0@ == syntax_error(text@, toks, f)
                        &&& final(self)@.nodes == old(self)@.nodes
                        &&& final(self)@.state == old(self)@.state
                    },
                }
            }),
    {
        let src = chars_of(text);
        let toks = tokenize(&src);
        let mut taken = node_titles(&self.nodes);
        match read_script(&src, &toks, &mut self.string_table, &mut taken) {
            Err(f) => Err(
                Error::Syntax(
                    count_lines(&src, &toks, f.at),
                    excerpt_string(&src, &toks, f.at),
                    f.kind.message(),
                ),
            ),
            Ok(fresh) => {
                let mut fresh = fresh;
                let ghost added = fresh@;
                self.nodes.append(&mut fresh);
                proof {
                    let before = old(self).nodes@.len() as int;
                    assert(self.nodes@.subrange(0, before) =~= old(self).nodes@);
                    assert(self.nodes@.subrange(before, self.nodes@.len() as int) =~= added);
                    assert(titles(self.nodes@) =~= titles(old(self).nodes@) + titles(added));
                    assert(self.nodes@.len() == self.nodes.len());
                    if let Some(n) = self.cursor.node {
                        assert(self.nodes@[n as int] == self.nodes@.subrange(0, before)[n as int]);
                    }
                    assert(cursor_in(self.nodes@, self.cursor@));
                }
                if self.cursor.node.is_none() && self.nodes.len() > 0 {
                    self.cursor.mode = Mode::Running;
                    self.cursor.node = Some(0);
                    self.cursor.line = 0;
                    self.cursor.entered = false;
                    self.cursor.testing = false;
                    self.cursor.frames = Vec::new();
                    self.cursor.choices = Vec::new();
                    self.cursor.resume = 0;
                    self.cursor.pending = None;
                }
                Ok(())
            },
        }
    }

    /// Starts the dialog in the node with the title `title`, from any
    /// state.
    pub fn start(&mut self, title: &str) -> (r: Result<(), Error>)
        requires
            old(self).wf(),
        ensures
            final(self).wf(),
            final(self).callables() == old(self).callables(),
            ({
                let w = old(self)@;
                let found = if holds(w.table, title@) {
                    find_node(w.nodes, 0, NodeLabel { 0: index_of(w.table, title@) as u32 })
                } else {
                    None
                };
                match found {
                    Some(m) => r is Ok && final(self)@ == (World {
                        state: started(w.state, m as usize),
                        ..w
                    }),
                    None => r is Err && r->Err_0@ == ErrorView::UnknownNode(title@) && final(self)@
                        == w,
                }
            }),
    {
        let found = match self.string_table.lookup(title) {
            Some(key) => seek_node(&self.nodes, key),
            None => None,
        };
        match found {
            Some(m) => {
                self.cursor.mode = Mode::Running;
                self.cursor.node = Some(m);
                self.cursor.line = 0;
                self.cursor.entered = false;
                self.cursor.testing = false;
                self.cursor.frames = Vec::new();
                self.cursor.choices = Vec::new();
                self.cursor.resume = 0;
                self.cursor.pending = None;
                Ok(())
            },
            None => Err(Error::UnknownNode(String::from_str(title))),
        }
    }

    /// Advances the dialog to its next event.
    ///
    /// While the runner is running, it takes steps until one yields an
    /// event, and gives that event; after as many steps as the budget
    /// allows without one, it ends the dialog with
    /// `RuntimeBudgetExceeded`. In any other state
    /// it gives `None` and changes nothing. Where the steps reach a call of
    /// a host function, the host decides what follows.
    pub fn next_event(&mut self) -> (r: Option<Event>)
        requires
            old(self).wf(),
        ensures
            final(self).wf(),
            final(self).callables().len() == old(self).callables().len(),
            final(self)@.nodes == old(self)@.nodes,
            final(self)@.fns == old(self)@.fns,
            crate::ast::intern::extends(final(self)@.table, old(self)@.table),
            match next(old(self)@) {
                Outcome::Done(s) => final(self)@ == s.world && event_view(r) == s.event,
                _ => true,
            },
    {
        let mut fuel: usize = self.cursor.budget;
        let ghost mut exact = true;
        loop
            invariant
                self.wf(),
                self.callables().len() == old(self).callables().len(),
                self@.nodes == old(self)@.nodes,
                self@.fns == old(self)@.fns,
                crate::ast::intern::extends(self@.table, old(self)@.table),
                !exact ==> !(next(old(self)@) is Done),
                exact ==> run(self@, fuel as nat) == next(old(self)@),
            decreases fuel,
        {
            let n = match self.cursor.node {
                Some(n) => n,
                None => {
                    return None;
                },
            };
            if self.cursor.mode != Mode::Running || n >= self.nodes.len() {
                return None;
            }
            if fuel == 0 {
                return fail_with(RuntimeError::BudgetExceeded, &self.string_table, &mut self.cursor);
            }
            let ghost before = step(self@, n as int);
            let e = step_in(
                &self.nodes,
                n,
                &mut self.string_table,
                &mut self.ctx,
                &mut self.functions,
                &mut self.cursor,
            );
            proof {
                if !(before is Done) {
                    exact = false;
                }
            }
            if e.is_some() {
                return e;
            }
            fuel -= 1;
        }
    }

    /// Chooses option `index`, counted from zero, of those on offer.
    pub fn select(&mut self, index: usize) -> (r: Result<(), Error>)
        requires
            old(self).wf(),
        ensures
            final(self).wf(),
            final(self).callables() == old(self).callables(),
            ({
                let w = old(self)@;
                if w.state.mode != Mode::AwaitingChoice {
                    r is Err && r->Err_0@ == ErrorView::NotWaiting && final(self)@ == w
                } else if index >= w.state.choices.len() {
                    r is Err && r->Err_0@ == ErrorView::InvalidChoice(
                        index,
                        w.state.choices.len() as usize,
                    ) && final(self)@ == w
                } else {
                    r is Ok && final(self)@ == (World { state: selected(w, index as int), ..w })
                }
            }),
    {
        if self.cursor.mode != Mode::AwaitingChoice {
            return Err(Error::NotWaiting);
        }
        let count = self.cursor.choices.len();
        if index >= count {
            return Err(Error::InvalidChoice(index, count));
        }
        let c = self.cursor.choices[index];
        self.cursor.mode = Mode::Running;
        self.cursor.choices = Vec::new();
        self.cursor.testing = false;
        let n = match self.cursor.node {
            Some(n) => n,
            None => {
                return Ok(());
            },
        };
        if n >= self.nodes.len() || c >= self.nodes[n].lines.len() {
            return Ok(());
        }
        match self.nodes[n].lines[c].kind {
            LineKind::Choice(_, target) => {
                self.cursor.pending = Some(target);
            },
            _ => {
                let depth = self.nodes[n].lines[c].indent;
                let resume = self.cursor.resume;
                self.cursor.line = c + 1;
                self.cursor.frames.push(Frame { depth, resume });
            },
        }
        Ok(())
    }

    /// Lets the dialog go on after a pause for input.
    pub fn resume(&mut self) -> (r: Result<(), Error>)
        requires
            old(self).wf(),
        ensures
            final(self).wf(),
            final(self).callables() == old(self).callables(),
            ({
                let w = old(self)@;
                if w.state.mode == Mode::AwaitingInput {
                    r is Ok && final(self)@ == (World {
                        state: State { mode: Mode::Running, ..w.state },
                        ..w
                    })
                } else {
                    r is Err && r->Err_0@ == ErrorView::NotWaiting && final(self)@ == w
                }
            }),
    {
        if self.cursor.mode == Mode::AwaitingInput {
            self.cursor.mode = Mode::Running;
            Ok(())
        } else {
            Err(Error::NotWaiting)
        }
    }

    /// Tells the runner the time, in milliseconds. A timed pause whose
    /// deadline `now` has reached is over.
    pub fn tick(&mut self, now: u64)
        requires
            old(self).wf(),
        ensures
            final(self).wf(),
            final(self).callables() == old(self).callables(),
            final(self)@ == (World { state: ticked(old(self)@.state, now), ..old(self)@ }),
    {
        self.cursor.clock = now;
        match self.cursor.mode {
            Mode::Timed(deadline) => {
                if now >= deadline {
                    self.cursor.mode = Mode::Running;
                }
            },
            _ => {},
        }
    }
}

} // verus!
