//! The executable steps of the dialog state machine.

use vstd::prelude::*;
use crate::ast::{Expr, KeyList, LineKind, Node, NodeLabel, NodeLine, Value};
use crate::ast::intern::Interner;
use crate::error::{Error, runtime_error, runtime_error_view};
use crate::eval::{eval, evaluate, Outcome, render, render_into};
use crate::event::{Event, event_view, EventView, list_strings, make_node_info, text_string, texts};
use crate::host::{Context, Functions};
use crate::machine::{
    after_endif, as_millis, at_line, branch, calls_command, count_keys, cursor_in, find_label,
    find_node, Frame, idle, jump, Mode, next_branch, Offer, offer, pause_of, saturating_sum, State,
    step, STEP_BUDGET, World,
};
use crate::value::{is_true, RuntimeError, text_of, value_is_true};

verus! {

/// The execution state of a runner.
pub struct Cursor {
    pub mode: Mode,
    pub node: Option<usize>,
    pub line: usize,
    pub entered: bool,
    pub testing: bool,
    pub frames: Vec<Frame>,
    pub choices: Vec<usize>,
    pub resume: usize,
    pub pending: Option<NodeLabel>,
    pub clock: u64,
    pub budget: usize,
}

impl View for Cursor {
    type V = State;

    open spec fn view(&self) -> State {
        State {
            mode: self.mode,
            node: self.node,
            line: self.line,
            entered: self.entered,
            testing: self.testing,
            frames: self.frames@,
            choices: self.choices@,
            resume: self.resume,
            pending: self.pending,
            clock: self.clock,
            budget: self.budget,
        }
    }
}

impl Cursor {
    /// The state of a runner that was not started.
    pub fn new() -> (c: Cursor)
        ensures
            c@ == idle(),
    {
        Cursor {
            mode: Mode::Idle,
            node: None,
            line: 0,
            entered: false,
            testing: false,
            frames: Vec::new(),
            choices: Vec::new(),
            resume: 0,
            pending: None,
            clock: 0,
            budget: STEP_BUDGET,
        }
    }
}

/// Looks a node up by its title.
pub fn seek_node(nodes: &Vec<Node>, title: NodeLabel) -> (r: Option<usize>)
    ensures
        match r {
            Some(i) => find_node(nodes@, 0, title) == Some(i as int) && i < nodes.len(),
            None => find_node(nodes@, 0, title) is None,
        },
{
    let mut i: usize = 0;
    while i < nodes.len()
        invariant
            i <= nodes.len(),
            find_node(nodes@, i as int, title) == find_node(nodes@, 0, title),
        decreases nodes.len() - i,
    {
        if nodes[i].header.title.0 == title.0 {
            return Some(i);
        }
        i += 1;
    }
    None
}

/// Looks a label up among the lines of a node.
pub fn seek_label(lines: &Vec<NodeLine>, name: NodeLabel) -> (r: Option<usize>)
    ensures
        match r {
            Some(i) => find_label(lines@, 0, name) == Some(i as int) && i < lines.len(),
            None => find_label(lines@, 0, name) is None,
        },
{
    let mut i: usize = 0;
    while i < lines.len()
        invariant
            i <= lines.len(),
            find_label(lines@, i as int, name) == find_label(lines@, 0, name),
        decreases lines.len() - i,
    {
        let is_label = match lines[i].kind {
            LineKind::Label => true,
            _ => false,
        };
        let named = match lines[i].label {
            Some(k) => k.0 == name.0,
            None => false,
        };
        if is_label && named {
            return Some(i);
        }
        i += 1;
    }
    None
}

/// Finds the `elseif`, `else` or `endif` that follows a failed condition.
pub fn seek_branch(lines: &Vec<NodeLine>, from: usize) -> (r: usize)
    requires
        from <= lines.len(),
    ensures
        r == next_branch(lines@, from as int, 0),
        from <= r <= lines.len(),
{
    let mut i: usize = from;
    let mut depth: usize = 0;
    while i < lines.len()
        invariant
            from <= i <= lines.len(),
            depth <= i - from,
            next_branch(lines@, i as int, depth as nat) == next_branch(lines@, from as int, 0),
        decreases lines.len() - i,
    {
        match lines[i].kind {
            LineKind::If(_) => {
                depth += 1;
            },
            LineKind::EndIf => {
                if depth == 0 {
                    return i;
                }
                depth -= 1;
            },
            LineKind::ElseIf(_) | LineKind::Else => {
                if depth == 0 {
                    return i;
                }
            },
            _ => {},
        }
        i += 1;
    }
    i
}

/// Finds the line behind the `endif` that closes the current `if`.
pub fn seek_endif(lines: &Vec<NodeLine>, from: usize) -> (r: usize)
    requires
        from <= lines.len(),
    ensures
        r == after_endif(lines@, from as int, 0),
        from <= r <= lines.len(),
{
    let mut i: usize = from;
    let mut depth: usize = 0;
    while i < lines.len()
        invariant
            from <= i <= lines.len(),
            depth <= i - from,
            after_endif(lines@, i as int, depth as nat) == after_endif(lines@, from as int, 0),
        decreases lines.len() - i,
    {
        match lines[i].kind {
            LineKind::If(_) => {
                depth += 1;
            },
            LineKind::EndIf => {
                if depth == 0 {
                    return i + 1;
                }
                depth -= 1;
            },
            _ => {},
        }
        i += 1;
    }
    i
}

pub fn keys_count(list: &KeyList) -> (n: usize)
    ensures
        n == count_keys(*list),
    decreases *list,
{
    match list {
        KeyList::Nil => 0,
        KeyList::Cons(_, rest) => {
            let m = keys_count(rest);
            if m < usize::MAX {
                m + 1
            } else {
                m
            }
        },
    }
}

/// The world that the parts of a runner make.
pub open spec fn world<C: Context>(
    nodes: Seq<Node>,
    interner: Interner,
    ctx: C,
    fns: Functions<C>,
    cur: Cursor,
) -> World {
    World { nodes, table: interner@, vars: ctx.vars(), fns: fns.sigs(), state: cur@ }
}

/// Ends the dialog with an error event.
pub fn fail_with(e: RuntimeError, interner: &Interner, cur: &mut Cursor) -> (r: Option<Event>)
    ensures
        final(cur)@ == (State { mode: Mode::Stopped, testing: false, ..old(cur)@ }),
        event_view(r) == Some(EventView::Error(runtime_error_view(e, interner@))),
{
    cur.mode = Mode::Stopped;
    cur.testing = false;
    Some(Event::Error(runtime_error(e, interner)))
}

/// Jumps to `target`.
pub fn do_jump(nodes: &Vec<Node>, n: usize, target: NodeLabel, interner: &Interner, cur: &mut Cursor) -> (r:
    Option<Event>)
    requires
        n < nodes.len(),
    ensures
        ({
            let w = World {
                nodes: nodes@,
                table: interner@,
                vars: Map::empty(),
                fns: Seq::empty(),
                state: old(cur)@,
            };
            final(cur)@ == jump(w, n as int, target).world.state && event_view(r) == jump(
                w,
                n as int,
                target,
            ).event
        }),
        cursor_in(nodes@, old(cur)@) && old(cur).node == Some(n) && old(cur).mode == Mode::Running
            ==> cursor_in(nodes@, final(cur)@),
        old(cur).node is Some ==> final(cur).node is Some,
{
    cur.pending = None;
    match seek_label(&nodes[n].lines, target) {
        Some(j) => {
            cur.line = j + 1;
            cur.testing = false;
            cur.frames = Vec::new();
            None
        },
        None => match seek_node(nodes, target) {
            Some(m) => {
                cur.node = Some(m);
                cur.entered = m == n;
                cur.line = 0;
                cur.testing = false;
                cur.frames = Vec::new();
                None
            },
            None => fail_with(RuntimeError::UnknownNode(target), interner, cur),
        },
    }
}

/// What `make_offer` gives: the lines of the options on offer, their
/// texts, and the line behind the group.
pub struct Offered {
    pub choices: Vec<usize>,
    pub labels: Vec<String>,
    pub end: usize,
}

impl View for Offered {
    type V = Offer;

    open spec fn view(&self) -> Offer {
        Offer { choices: self.choices@, labels: texts(self.labels@), end: self.end as int }
    }
}

/// Goes through the group of options that starts at line `i`.
pub fn make_offer<C: Context>(
    lines: &Vec<NodeLine>,
    i: usize,
    interner: &mut Interner,
    ctx: &mut C,
    fns: &mut Functions<C>,
) -> (r: Result<Offered, RuntimeError>)
    requires
        i < lines.len(),
        old(interner).wf(),
        old(fns).wf(),
    ensures
        final(interner).wf(),
        crate::ast::intern::extends(final(interner)@, old(interner)@),
        final(fns).wf(),
        final(fns).sigs() == old(fns).sigs(),
        final(fns).callables().len() == old(fns).callables().len(),
        ({
            let o = offer(
                lines@,
                i as int,
                lines@[i as int].indent,
                old(interner)@,
                old(ctx).vars(),
                old(fns).sigs(),
                Offer { choices: Seq::empty(), labels: Seq::empty(), end: i as int },
            );
            match o.out {
                Outcome::Done(v) => r is Ok && r->Ok_0@ == v && final(interner)@ == o.table
                    && final(ctx).vars() == old(ctx).vars(),
                Outcome::Fail(e) => r is Err && r->Err_0 == e && final(interner)@ == o.table
                    && final(ctx).vars() == old(ctx).vars(),
                Outcome::Host => true,
            }
        }),
        r matches Ok(o) ==> i <= o.end <= lines.len() && forall|k: int|
            0 <= k < o.choices@.len() ==> #[trigger] o.choices@[k] < lines.len(),
{
    let d = lines[i].indent;
    let mut choices: Vec<usize> = Vec::new();
    let mut labels: Vec<String> = Vec::new();
    let mut j: usize = i;
    let ghost mut exact = true;
    let ghost goal = offer(
        lines@,
        i as int,
        d,
        old(interner)@,
        old(ctx).vars(),
        old(fns).sigs(),
        Offer { choices: Seq::empty(), labels: Seq::empty(), end: i as int },
    );
    assert(texts(labels@) =~= Seq::<Seq<char>>::empty());
    loop
        invariant
            i <= j <= lines.len(),
            d == lines@[i as int].indent,
            interner.wf(),
            crate::ast::intern::extends(interner@, old(interner)@),
            fns.wf(),
            fns.sigs() == old(fns).sigs(),
            fns.callables().len() == old(fns).callables().len(),
            goal == offer(
                lines@,
                i as int,
                d,
                old(interner)@,
                old(ctx).vars(),
                old(fns).sigs(),
                Offer { choices: Seq::empty(), labels: Seq::empty(), end: i as int },
            ),
            !exact ==> goal.out is Host,
            forall|k: int| 0 <= k < choices@.len() ==> #[trigger] choices@[k] < lines.len(),
            exact ==> ctx.vars() == old(ctx).vars(),
            exact ==> goal == offer(
                lines@,
                j as int,
                d,
                interner@,
                ctx.vars(),
                fns.sigs(),
                Offer { choices: choices@, labels: texts(labels@), end: i as int },
            ),
        decreases lines.len() - j,
    {
        if j >= lines.len() || lines[j].indent < d {
            return Ok(Offered { choices, labels, end: j });
        }
        if lines[j].indent > d {
            j += 1;
            continue ;
        }
        match &lines[j].kind {
            LineKind::Shortcut(tpl, guard) => {
                let ghost before = eval(
                    match guard {
                        Some(e) => *e,
                        None => Expr::Number(1),
                    },
                    interner@,
                    ctx.vars(),
                    fns.sigs(),
                );
                let holds = match guard {
                    None => true,
                    Some(e) => match evaluate(e, interner, ctx, fns) {
                        Err(err) => {
                            return Err(err);
                        },
                        Ok(v) => value_is_true(v),
                    },
                };
                proof {
                    if guard is Some && before.out is Host {
                        exact = false;
                    }
                }
                if holds {
                    let ghost text = render(*tpl, interner@, ctx.vars(), fns.sigs());
                    let mut label = String::new();
                    match render_into(tpl, interner, ctx, fns, &mut label) {
                        Err(err) => {
                            return Err(err);
                        },
                        Ok(()) => {},
                    }
                    proof {
                        if text.out is Host {
                            exact = false;
                        }
                        if let Outcome::Done(t) = text.out {
                            assert(label@ =~= t);
                            assert(texts(labels@.push(label)) =~= texts(labels@).push(t));
                        }
                    }
                    choices.push(j);
                    labels.push(label);
                }
            },
            LineKind::Choice(label, _) => {
                let text = text_string(interner, *label);
                assert(texts(labels@.push(text)) =~= texts(labels@).push(text@));
                choices.push(j);
                labels.push(text);
            },
            _ => {
                return Ok(Offered { choices, labels, end: j });
            },
        }
        j += 1;
    }
}

/// What a `set` does with the value of its expression: the variable gets
/// the value, and the cursor moves behind line `i`.
pub fn assign_value<C: Context>(var: NodeLabel, v: Value, i: usize, ctx: &mut C, cur: &mut Cursor)
    requires
        i < usize::MAX,
    ensures
        final(ctx).vars() == old(ctx).vars().insert(var.0, v),
        final(cur)@ == at_line(old(cur)@, i + 1),
{
    ctx.set_var(var, v);
    cur.line = i + 1;
    cur.testing = false;
}

/// What a `wait` does with the value of its expression: the runner pauses
/// until the clock has gone on by so many milliseconds, none where the
/// value is no positive number, and the host is told how many.
pub fn wait_for(v: Value, i: usize, cur: &mut Cursor) -> (e: Event)
    requires
        i < usize::MAX,
    ensures
        final(cur)@ == (State {
            mode: Mode::Timed(saturating_sum(old(cur).clock, pause_of(v))),
            ..at_line(old(cur)@, i + 1)
        }),
        e@ == EventView::Wait(as_millis(pause_of(v))),
{
    let ms: u64 = match v {
        Value::Number(k) => if k > 0 {
            k as u64
        } else {
            0
        },
        Value::String(_) => 0,
    };
    let deadline: u64 = if ms > u64::MAX - cur.clock {
        u64::MAX
    } else {
        cur.clock + ms
    };
    let shown: usize = if ms > usize::MAX as u64 {
        usize::MAX
    } else {
        ms as usize
    };
    cur.mode = Mode::Timed(deadline);
    cur.line = i + 1;
    cur.testing = false;
    Event::Wait(shown)
}

/// What an `if` or a tried `elseif` on line `i` does with the value of its
/// condition: into the branch where the value is true, else on to the
/// next `elseif`, `else` or `endif`, to be tried there.
pub fn take_branch(lines: &Vec<NodeLine>, i: usize, v: Value, cur: &mut Cursor)
    requires
        i < lines.len(),
    ensures
        final(cur)@ == (if is_true(v) {
            at_line(old(cur)@, i + 1)
        } else {
            State { line: next_branch(lines@, i + 1, 0) as usize, testing: true, ..old(cur)@ }
        }),
        final(cur).line <= lines.len(),
{
    if value_is_true(v) {
        cur.line = i + 1;
        cur.testing = false;
    } else {
        cur.line = seek_branch(lines, i + 1);
        cur.testing = true;
    }
}

/// What a line of text does with its rendered text: the host gets the
/// line, with its speaker where it has one, and the cursor moves behind
/// line `i`.
pub fn say_line(
    speaker: Option<NodeLabel>,
    text: String,
    i: usize,
    interner: &Interner,
    cur: &mut Cursor,
) -> (e: Event)
    requires
        i < usize::MAX,
    ensures
        final(cur)@ == at_line(old(cur)@, i + 1),
        e@ == EventView::Line(
            match speaker {
                Some(k) => Some(text_of(interner@, k)),
                None => None,
            },
            text@,
        ),
{
    let name = match speaker {
        Some(k) => Some(text_string(interner, k)),
        None => None,
    };
    cur.line = i + 1;
    cur.testing = false;
    Event::Line(name, text)
}

/// What a group of options does with the options on offer: without any, the
/// cursor moves behind the group and the host is told nothing; else the
/// host gets their texts, and the runner waits for a choice among them.
pub fn give_offer(o: Offered, cur: &mut Cursor) -> (r: Option<Event>)
    ensures
        o.choices@.len() == 0 ==> r is None && final(cur)@ == at_line(old(cur)@, o.end as int),
        o.choices@.len() > 0 ==> event_view(r) == Some(EventView::Options(texts(o.labels@)))
            && final(cur)@ == (State {
            mode: Mode::AwaitingChoice,
            choices: o.choices@,
            resume: o.end,
            testing: false,
            ..old(cur)@
        }),
{
    if o.choices.len() == 0 {
        cur.line = o.end;
        cur.testing = false;
        None
    } else {
        cur.mode = Mode::AwaitingChoice;
        cur.choices = o.choices;
        cur.resume = o.end;
        cur.testing = false;
        Some(Event::Options(o.labels))
    }
}

/// Evaluates the condition of the `if` or `elseif` on line `i` and moves
/// the cursor.
pub fn do_branch<C: Context>(
    lines: &Vec<NodeLine>,
    i: usize,
    cond: &Expr,
    interner: &mut Interner,
    ctx: &mut C,
    fns: &mut Functions<C>,
    cur: &mut Cursor,
) -> (r: Option<Event>)
    requires
        i < lines.len(),
        old(interner).wf(),
        old(fns).wf(),
    ensures
        final(interner).wf(),
        crate::ast::intern::extends(final(interner)@, old(interner)@),
        final(fns).wf(),
        final(fns).sigs() == old(fns).sigs(),
        final(fns).callables().len() == old(fns).callables().len(),
        forall|nodes: Seq<Node>|
            match #[trigger] branch(
                world(nodes, *old(interner), *old(ctx), *old(fns), *old(cur)),
                lines@,
                i as int,
                *cond,
            ) {
                Outcome::Done(s) => s.world == world(
                    nodes,
                    *final(interner),
                    *final(ctx),
                    *final(fns),
                    *final(cur),
                ) && event_view(r) == s.event,
                _ => true,
            },
        final(cur).line <= lines.len() || final(cur)@ == (State {
            mode: Mode::Stopped,
            testing: false,
            ..old(cur)@
        }),
        final(cur)@ == (State {
            mode: final(cur).mode,
            line: final(cur).line,
            testing: final(cur).testing,
            ..old(cur)@
        }),
        final(cur).mode == old(cur).mode || final(cur).mode == Mode::Stopped,
{
    match evaluate(cond, interner, ctx, fns) {
        Err(e) => fail_with(e, interner, cur),
        Ok(v) => {
            take_branch(lines, i, v, cur);
            None
        },
    }
}

/// Takes one step in node `n`.
pub fn step_in<C: Context>(
    nodes: &Vec<Node>,
    n: usize,
    interner: &mut Interner,
    ctx: &mut C,
    fns: &mut Functions<C>,
    cur: &mut Cursor,
) -> (r: Option<Event>)
    requires
        n < nodes.len(),
        old(interner).wf(),
        old(fns).wf(),
        old(cur).node == Some(n),
        old(cur).mode == Mode::Running,
        cursor_in(nodes@, old(cur)@),
    ensures
        final(interner).wf(),
        crate::ast::intern::extends(final(interner)@, old(interner)@),
        final(fns).wf(),
        final(fns).sigs() == old(fns).sigs(),
        final(fns).callables().len() == old(fns).callables().len(),
        cursor_in(nodes@, final(cur)@),
        final(cur).node is Some,
        match step(world(nodes@, *old(interner), *old(ctx), *old(fns), *old(cur)), n as int) {
            Outcome::Done(s) => s.world == world(
                nodes@,
                *final(interner),
                *final(ctx),
                *final(fns),
                *final(cur),
            ) && event_view(r) == s.event,
            _ => true,
        },
        calls_command(world(nodes@, *old(interner), *old(ctx), *old(fns), *old(cur)), n as int)
            ==> r is None && final(interner)@ == old(interner)@ && final(cur)@ == at_line(
            old(cur)@,
            old(cur).line + 1,
        ),
{
    reveal(step);
    let node = &nodes[n];
    let lines = &node.lines;
    let i = cur.line;
    if let Some(target) = cur.pending {
        return do_jump(nodes, n, target, interner, cur);
    }
    if !cur.entered {
        cur.entered = true;
        return Some(Event::NewNode(make_node_info(&node.header, interner)));
    }
    let depth_now = cur.frames.len();
    if depth_now > 0 {
        let top = cur.frames[depth_now - 1];
        if i >= lines.len() || lines[i].indent <= top.depth {
            assert forall|k: int| 0 <= k < cur.frames@.drop_last().len() implies (
            #[trigger] cur.frames@.drop_last()[k]).resume <= lines.len() by {
                assert(cur.frames@.drop_last()[k] == cur.frames@[k]);
            }
            cur.frames.pop();
            cur.line = top.resume;
            cur.testing = false;
            return None;
        }
    }
    if i >= lines.len() {
        cur.mode = Mode::Stopped;
        cur.testing = false;
        return Some(Event::End);
    }
    let line = &lines[i];
    match &line.kind {
        LineKind::Text(tpl) => {
            let mut out = String::new();
            match render_into(tpl, interner, ctx, fns, &mut out) {
                Err(e) => fail_with(e, interner, cur),
                Ok(()) => {
                    proof {
                        let t = render(*tpl, old(interner)@, old(ctx).vars(), old(fns).sigs());
                        if let Outcome::Done(x) = t.out {
                            assert(out@ =~= x);
                        }
                    }
                    Some(say_line(line.label, out, i, interner, cur))
                },
            }
        },
        LineKind::Label => {
            cur.line = i + 1;
            cur.testing = false;
            None
        },
        LineKind::Assign(var, e) => match evaluate(e, interner, ctx, fns) {
            Err(err) => fail_with(err, interner, cur),
            Ok(v) => {
                assign_value(*var, v, i, ctx, cur);
                None
            },
        },
        LineKind::If(cond) => do_branch(lines, i, cond, interner, ctx, fns, cur),
        LineKind::ElseIf(cond) => if cur.testing {
            do_branch(lines, i, cond, interner, ctx, fns, cur)
        } else {
            cur.line = seek_endif(lines, i + 1);
            cur.testing = false;
            None
        },
        LineKind::Else => {
            if cur.testing {
                cur.line = i + 1;
            } else {
                cur.line = seek_endif(lines, i + 1);
            }
            cur.testing = false;
            None
        },
        LineKind::EndIf => {
            cur.line = i + 1;
            cur.testing = false;
            None
        },
        LineKind::Jump(target) => do_jump(nodes, n, *target, interner, cur),
        LineKind::Stop => {
            cur.mode = Mode::Stopped;
            cur.testing = false;
            Some(Event::End)
        },
        LineKind::Wait(e) => match evaluate(e, interner, ctx, fns) {
            Err(err) => fail_with(err, interner, cur),
            Ok(v) => Some(wait_for(v, i, cur)),
        },
        LineKind::WaitInput => {
            cur.mode = Mode::AwaitingInput;
            cur.line = i + 1;
            cur.testing = false;
            Some(Event::WaitInput)
        },
        LineKind::Host(name, words) => match fns.find(*name) {
            None => {
                cur.line = i + 1;
                cur.testing = false;
                Some(Event::Command(text_string(interner, *name), list_strings(words, interner)))
            },
            Some(f) => {
                let takes = fns.arity(f);
                let given = keys_count(words);
                if takes != given {
                    fail_with(RuntimeError::ArityMismatch(*name, takes, given), interner, cur)
                } else {
                    let args = list_strings(words, interner);
                    let _ = fns.invoke(f, ctx, &args);
                    cur.line = i + 1;
                    cur.testing = false;
                    None
                }
            },
        },
        LineKind::Shortcut(_, _) | LineKind::Choice(_, _) => {
            match make_offer(lines, i, interner, ctx, fns) {
                Err(e) => fail_with(e, interner, cur),
                Ok(o) => give_offer(o, cur),
            }
        },
    }
}

} // verus!
