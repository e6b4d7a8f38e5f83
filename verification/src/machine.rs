//! The dialog state machine, as a function from one state to the next.
//!
//! A step looks at the line under the cursor and either yields one event or
//! moves on without one. The runner of this crate does what these functions
//! say; they are the reference for what a script means.

use vstd::prelude::*;
use crate::ast::{Expr, KeyList, LineKind, Node, NodeLabel, NodeLine, Value};
use crate::error::runtime_error_view;
use crate::eval::{eval, Evaluated, Outcome, render};
use crate::event::{EventView, list_texts, node_info};
use crate::host::{find_fn, FnSig};
use crate::value::{is_true, RuntimeError, text_of};

verus! {

/// What the runner is doing.
#[derive(Clone, Copy, PartialEq, Eq, Debug, Structural)]
pub enum Mode {
    /// No node was started.
    Idle,
    /// Events are to be had.
    Running,
    /// Options were offered; the host is to select one.
    AwaitingChoice,
    /// The host is to resume.
    AwaitingInput,
    /// The clock is to reach the deadline.
    Timed(u64),
    /// The dialog has ended.
    Stopped,
}

/// The place to go back to when the body of a chosen option is done: the
/// body is every line indented deeper than `depth`, and `resume` is the line
/// behind the group of options.
#[derive(Clone, Copy, PartialEq, Eq, Debug, Structural)]
pub struct Frame {
    pub depth: usize,
    pub resume: usize,
}

/// The execution state of a runner.
pub struct State {
    pub mode: Mode,
    /// The current node, by its place in the node table.
    pub node: Option<usize>,
    /// The cursor: a line of the current node, or its number of lines.
    pub line: usize,
    /// Whether the host was told of the current node.
    pub entered: bool,
    /// Whether an `if` or `elseif` just failed, so that the `elseif` or
    /// `else` under the cursor is to be tried.
    pub testing: bool,
    /// The options that were chosen and whose bodies are not done.
    pub frames: Seq<Frame>,
    /// The lines of the options on offer.
    pub choices: Seq<usize>,
    /// The line behind the options on offer.
    pub resume: usize,
    /// The target of a chosen `[text|target]`, not yet jumped to.
    pub pending: Option<NodeLabel>,
    /// The latest time that the host told.
    pub clock: u64,
    /// The number of steps that one call of `next_event` may take.
    pub budget: usize,
}

/// All that a step depends on.
pub struct World {
    pub nodes: Seq<Node>,
    pub table: Seq<Seq<char>>,
    pub vars: Map<u32, Value>,
    pub fns: Seq<FnSig>,
    pub state: State,
}

/// What a step gives: the world afterwards and the event, if any.
pub struct Stepped {
    pub world: World,
    pub event: Option<EventView>,
}

/// The first node from `i` on with the title `title`.
pub open spec fn find_node(nodes: Seq<Node>, i: int, title: NodeLabel) -> Option<int>
    decreases nodes.len() - i,
{
    if 0 <= i < nodes.len() {
        if nodes[i].header.title == title {
            Some(i)
        } else {
            find_node(nodes, i + 1, title)
        }
    } else {
        None
    }
}

/// The first line from `i` on that is the label `name`.
pub open spec fn find_label(lines: Seq<NodeLine>, i: int, name: NodeLabel) -> Option<int>
    decreases lines.len() - i,
{
    if 0 <= i < lines.len() {
        if lines[i].kind is Label && lines[i].label == Some(name) {
            Some(i)
        } else {
            find_label(lines, i + 1, name)
        }
    } else {
        None
    }
}

/// From line `i` on, the `elseif`, `else` or `endif` that belongs to the
/// `if` whose branch failed; `depth` counts the `if`s opened on the way.
/// The number of lines where there is none.
pub open spec fn next_branch(lines: Seq<NodeLine>, i: int, depth: nat) -> int
    decreases lines.len() - i,
{
    if 0 <= i < lines.len() {
        match lines[i].kind {
            LineKind::If(_) => next_branch(lines, i + 1, depth + 1),
            LineKind::EndIf => if depth == 0 {
                i
            } else {
                next_branch(lines, i + 1, (depth - 1) as nat)
            },
            LineKind::ElseIf(_) | LineKind::Else => if depth == 0 {
                i
            } else {
                next_branch(lines, i + 1, depth)
            },
            _ => next_branch(lines, i + 1, depth),
        }
    } else {
        lines.len() as int
    }
}

/// From line `i` on, the line behind the `endif` that closes the `if` that
/// the cursor is in. The number of lines where there is none.
pub open spec fn after_endif(lines: Seq<NodeLine>, i: int, depth: nat) -> int
    decreases lines.len() - i,
{
    if 0 <= i < lines.len() {
        match lines[i].kind {
            LineKind::If(_) => after_endif(lines, i + 1, depth + 1),
            LineKind::EndIf => if depth == 0 {
                i + 1
            } else {
                after_endif(lines, i + 1, (depth - 1) as nat)
            },
            _ => after_endif(lines, i + 1, depth),
        }
    } else {
        lines.len() as int
    }
}

/// The options of a group that are on offer.
pub struct Offer {
    /// The lines of the options whose condition holds.
    pub choices: Seq<usize>,
    /// Their texts.
    pub labels: Seq<Seq<char>>,
    /// The line behind the group.
    pub end: int,
}

/// Goes through a group of options from line `i` on, at indentation `d`.
///
/// Lines indented deeper are bodies and are passed over. A `->` option is
/// on offer where it has no condition or its condition is true, and a
/// `[text|target]` choice always; the group ends before the first other
/// line at indentation `d`, or the first line indented less.
pub open spec fn offer(
    lines: Seq<NodeLine>,
    i: int,
    d: usize,
    table: Seq<Seq<char>>,
    vars: Map<u32, Value>,
    fns: Seq<FnSig>,
    acc: Offer,
) -> Evaluated<Offer>
    decreases lines.len() - i,
{
    if !(0 <= i < lines.len()) || lines[i].indent < d {
        Evaluated { table, out: Outcome::Done(Offer { end: i, ..acc }) }
    } else if lines[i].indent > d {
        offer(lines, i + 1, d, table, vars, fns, acc)
    } else {
        match lines[i].kind {
            LineKind::Shortcut(tpl, guard) => {
                let holds = match guard {
                    None => Evaluated { table, out: Outcome::Done(Value::Number(1)) },
                    Some(e) => eval(e, table, vars, fns),
                };
                match holds.out {
                    Outcome::Fail(e) => Evaluated { table: holds.table, out: Outcome::Fail(e) },
                    Outcome::Host => Evaluated { table: holds.table, out: Outcome::Host },
                    Outcome::Done(v) => if !is_true(v) {
                        offer(lines, i + 1, d, holds.table, vars, fns, acc)
                    } else {
                        let text = render(tpl, holds.table, vars, fns);
                        match text.out {
                            Outcome::Fail(e) => Evaluated {
                                table: text.table,
                                out: Outcome::Fail(e),
                            },
                            Outcome::Host => Evaluated { table: text.table, out: Outcome::Host },
                            Outcome::Done(t) => offer(
                                lines,
                                i + 1,
                                d,
                                text.table,
                                vars,
                                fns,
                                Offer {
                                    choices: acc.choices.push(i as usize),
                                    labels: acc.labels.push(t),
                                    end: acc.end,
                                },
                            ),
                        }
                    },
                }
            },
            LineKind::Choice(label, _) => offer(
                lines,
                i + 1,
                d,
                table,
                vars,
                fns,
                Offer {
                    choices: acc.choices.push(i as usize),
                    labels: acc.labels.push(text_of(table, label)),
                    end: acc.end,
                },
            ),
            _ => Evaluated { table, out: Outcome::Done(Offer { end: i, ..acc }) },
        }
    }
}

/// The number of keys in a list, as far as a `usize` counts.
pub open spec fn count_keys(list: KeyList) -> usize
    decreases list,
{
    match list {
        KeyList::Nil => 0,
        KeyList::Cons(_, rest) => if count_keys(*rest) < usize::MAX {
            (count_keys(*rest) + 1) as usize
        } else {
            usize::MAX
        },
    }
}

/// The length of a pause: the value where it is a positive number, else
/// zero.
pub open spec fn pause_of(v: Value) -> u64 {
    match v {
        Value::Number(n) => if n > 0 {
            n as u64
        } else {
            0
        },
        Value::String(_) => 0,
    }
}

pub open spec fn saturating_sum(a: u64, b: u64) -> u64 {
    if a + b > u64::MAX {
        u64::MAX
    } else {
        (a + b) as u64
    }
}

pub open spec fn as_millis(ms: u64) -> usize {
    if ms > usize::MAX {
        usize::MAX
    } else {
        ms as usize
    }
}

/// The world with another state and no event.
pub open spec fn moved(w: World, state: State) -> Stepped {
    Stepped { world: World { state, ..w }, event: None }
}

/// The world with another state and an event.
pub open spec fn yielded(w: World, state: State, event: EventView) -> Stepped {
    Stepped { world: World { state, ..w }, event: Some(event) }
}

/// The cursor on line `line`, with nothing being tried.
pub open spec fn at_line(s: State, line: int) -> State {
    State { line: line as usize, testing: false, ..s }
}

/// The dialog ended by an error.
pub open spec fn broken(w: World, e: RuntimeError) -> Stepped {
    yielded(
        w,
        State { mode: Mode::Stopped, testing: false, ..w.state },
        EventView::Error(runtime_error_view(e, w.table)),
    )
}

/// A jump to `target`: to the label of that name in the current node where
/// there is one, else to the node of that title, else an error. A jump
/// leaves the bodies of all chosen options. The host is told of the node
/// only where it is another node than the current one.
pub open spec fn jump(w: World, n: int, target: NodeLabel) -> Stepped {
    let s = State { pending: None, ..w.state };
    match find_label(w.nodes[n].lines@, 0, target) {
        Some(j) => moved(w, State { frames: Seq::empty(), ..at_line(s, j + 1) }),
        None => match find_node(w.nodes, 0, target) {
            Some(m) => moved(
                w,
                State {
                    node: Some(m as usize),
                    entered: m == n,
                    frames: Seq::empty(),
                    ..at_line(s, 0)
                },
            ),
            None => broken(World { state: s, ..w }, RuntimeError::UnknownNode(target)),
        },
    }
}

/// The outcome of a step that evaluated something: the step itself where
/// the evaluation is done, the error as an event where it failed.
pub open spec fn after<T>(w: World, r: Evaluated<T>, then: spec_fn(World, T) -> Stepped) -> Outcome<
    Stepped,
> {
    let world = World { table: r.table, ..w };
    match r.out {
        Outcome::Done(v) => Outcome::Done(then(world, v)),
        Outcome::Fail(e) => Outcome::Done(broken(world, e)),
        Outcome::Host => Outcome::Host,
    }
}

/// The step on an `if` or a tried `elseif`: into the branch where the
/// condition is true, else on to the next `elseif`, `else` or `endif`.
pub open spec fn branch(w: World, lines: Seq<NodeLine>, i: int, cond: Expr) -> Outcome<Stepped> {
    after(
        w,
        eval(cond, w.table, w.vars, w.fns),
        |x: World, v: Value|
            if is_true(v) {
                moved(x, at_line(x.state, i + 1))
            } else {
                moved(
                    x,
                    State {
                        line: next_branch(lines, i + 1, 0) as usize,
                        testing: true,
                        ..x.state
                    },
                )
            },
    )
}

/// One step of a running dialog in node `n`.
///
/// In this order: a pending jump is done; the host is told of a node that
/// was just entered; the body of a chosen option that is exhausted is left;
/// the end of the node ends the dialog; else the line under the cursor is
/// executed.
#[verifier::opaque]
pub open spec fn step(w: World, n: int) -> Outcome<Stepped> {
    let s = w.state;
    let lines = w.nodes[n].lines@;
    let i = s.line as int;
    if s.pending is Some {
        Outcome::Done(jump(w, n, s.pending->0))
    } else if !s.entered {
        Outcome::Done(
            yielded(
                w,
                State { entered: true, ..s },
                EventView::NewNode(node_info(w.nodes[n].header, w.table)),
            ),
        )
    } else if s.frames.len() > 0 && (i >= lines.len() || lines[i].indent <= s.frames.last().depth) {
        Outcome::Done(
            moved(
                w,
                State {
                    line: s.frames.last().resume,
                    frames: s.frames.drop_last(),
                    testing: false,
                    ..s
                },
            ),
        )
    } else if i >= lines.len() {
        Outcome::Done(yielded(w, State { mode: Mode::Stopped, testing: false, ..s }, EventView::End))
    } else {
        match lines[i].kind {
            LineKind::Text(tpl) => after(
                w,
                render(tpl, w.table, w.vars, w.fns),
                |x: World, t: Seq<char>|
                    yielded(
                        x,
                        at_line(x.state, i + 1),
                        EventView::Line(
                            match lines[i].label {
                                Some(k) => Some(text_of(x.table, k)),
                                None => None,
                            },
                            t,
                        ),
                    ),
            ),
            LineKind::Label => Outcome::Done(moved(w, at_line(s, i + 1))),
            LineKind::Assign(var, e) => after(
                w,
                eval(e, w.table, w.vars, w.fns),
                |x: World, v: Value|
                    moved(World { vars: x.vars.insert(var.0, v), ..x }, at_line(x.state, i + 1)),
            ),
            LineKind::If(cond) => branch(w, lines, i, cond),
            LineKind::ElseIf(cond) => if s.testing {
                branch(w, lines, i, cond)
            } else {
                Outcome::Done(moved(w, at_line(s, after_endif(lines, i + 1, 0))))
            },
            LineKind::Else => if s.testing {
                Outcome::Done(moved(w, at_line(s, i + 1)))
            } else {
                Outcome::Done(moved(w, at_line(s, after_endif(lines, i + 1, 0))))
            },
            LineKind::EndIf => Outcome::Done(moved(w, at_line(s, i + 1))),
            LineKind::Jump(target) => Outcome::Done(jump(w, n, target)),
            LineKind::Stop => Outcome::Done(
                yielded(w, State { mode: Mode::Stopped, testing: false, ..s }, EventView::End),
            ),
            LineKind::Wait(e) => after(
                w,
                eval(e, w.table, w.vars, w.fns),
                |x: World, v: Value|
                    yielded(
                        x,
                        State {
                            mode: Mode::Timed(saturating_sum(x.state.clock, pause_of(v))),
                            ..at_line(x.state, i + 1)
                        },
                        EventView::Wait(as_millis(pause_of(v))),
                    ),
            ),
            LineKind::WaitInput => Outcome::Done(
                yielded(
                    w,
                    State { mode: Mode::AwaitingInput, ..at_line(s, i + 1) },
                    EventView::WaitInput,
                ),
            ),
            LineKind::Host(name, words) => match find_fn(w.fns, name) {
                None => Outcome::Done(
                    yielded(
                        w,
                        at_line(s, i + 1),
                        EventView::Command(text_of(w.table, name), list_texts(words, w.table)),
                    ),
                ),
                Some(f) => if 0 <= f < w.fns.len() && w.fns[f].arity == count_keys(words) {
                    Outcome::Host
                } else {
                    Outcome::Done(
                        broken(
                            w,
                            RuntimeError::ArityMismatch(
                                name,
                                if 0 <= f < w.fns.len() {
                                    w.fns[f].arity
                                } else {
                                    0
                                },
                                count_keys(words),
                            ),
                        ),
                    )
                },
            },
            LineKind::Shortcut(_, _) | LineKind::Choice(_, _) => after(
                w,
                offer(
                    lines,
                    i,
                    lines[i].indent,
                    w.table,
                    w.vars,
                    w.fns,
                    Offer { choices: Seq::empty(), labels: Seq::empty(), end: i },
                ),
                |x: World, o: Offer|
                    if o.choices.len() == 0 {
                        moved(x, at_line(x.state, o.end))
                    } else {
                        yielded(
                            x,
                            State {
                                mode: Mode::AwaitingChoice,
                                choices: o.choices,
                                resume: o.end as usize,
                                testing: false,
                                ..x.state
                            },
                            EventView::Options(o.labels),
                        )
                    },
            ),
        }
    }
}

/// Whether the step in node `n` calls a host function as a command: the
/// line under the cursor is a command whose name is registered, with as
/// many words as the function takes arguments.
pub open spec fn calls_command(w: World, n: int) -> bool {
    let s = w.state;
    let lines = w.nodes[n].lines@;
    let i = s.line as int;
    &&& s.pending is None
    &&& s.entered
    &&& !(s.frames.len() > 0 && (i >= lines.len() || lines[i].indent <= s.frames.last().depth))
    &&& i < lines.len()
    &&& match lines[i].kind {
        LineKind::Host(name, words) => match find_fn(w.fns, name) {
            Some(f) => 0 <= f < w.fns.len() && w.fns[f].arity == count_keys(words),
            None => false,
        },
        _ => false,
    }
}

/// Whether a state is in order for a table of nodes: the current node is
/// in the table, the cursor is on one of its lines or behind the last, and
/// so is every line that the state remembers.
pub open spec fn cursor_in(nodes: Seq<Node>, s: State) -> bool {
    nodes.len() <= usize::MAX && match s.node {
        None => true,
        Some(n) => n < nodes.len() && ({
            let len = nodes[n as int].lines@.len();
            &&& s.line <= len
            &&& forall|k: int| 0 <= k < s.frames.len() ==> (#[trigger] s.frames[k]).resume <= len
            &&& s.mode == Mode::AwaitingChoice ==> s.resume <= len && forall|k: int|
                0 <= k < s.choices.len() ==> #[trigger] s.choices[k] < len
        }),
    }
}

/// Whether the cursor of a world is in order.
pub open spec fn cursor_ok(w: World) -> bool {
    cursor_in(w.nodes, w.state)
}

/// Whether events are to be had: the runner is running in a node of its
/// table.
pub open spec fn runs(w: World) -> bool {
    w.state.mode == Mode::Running && w.state.node is Some && w.state.node->0 < w.nodes.len()
}

/// Steps until an event is yielded, for at most `fuel` steps; then the
/// dialog is ended by `RuntimeBudgetExceeded`.
pub open spec fn run(w: World, fuel: nat) -> Outcome<Stepped>
    decreases fuel,
{
    if !runs(w) {
        Outcome::Done(Stepped { world: w, event: None })
    } else if fuel == 0 {
        Outcome::Done(broken(w, RuntimeError::BudgetExceeded))
    } else {
        match step(w, w.state.node->0 as int) {
            Outcome::Done(s) => if s.event is Some {
                Outcome::Done(s)
            } else {
                run(s.world, (fuel - 1) as nat)
            },
            other => other,
        }
    }
}

/// The number of steps that one call of `next_event` may take, unless the
/// host sets another.
pub const STEP_BUDGET: usize = 10000;

/// What `next_event` does: from a running state, steps to the next event
/// within the step budget; from any other state, nothing.
pub open spec fn next(w: World) -> Outcome<Stepped> {
    run(w, w.state.budget as nat)
}

/// What `select` does while options are on offer: into the body of a chosen
/// `->` option, with a frame that leads back behind the group, or towards
/// the target of a chosen `[text|target]`.
pub open spec fn selected(w: World, index: int) -> State {
    let s = w.state;
    let c = s.choices[index] as int;
    let lines = w.nodes[s.node->0 as int].lines@;
    let chosen = State { mode: Mode::Running, choices: Seq::empty(), testing: false, ..s };
    if !(s.node is Some && s.node->0 < w.nodes.len() && 0 <= c < lines.len()) {
        chosen
    } else {
        match lines[c].kind {
            LineKind::Choice(_, target) => State { pending: Some(target), ..chosen },
            _ => State {
                line: (c + 1) as usize,
                frames: s.frames.push(Frame { depth: lines[c].indent, resume: s.resume }),
                ..chosen
            },
        }
    }
}

/// What `tick` does: the clock shows `now`, and a deadline that it has
/// reached is over.
pub open spec fn ticked(s: State, now: u64) -> State {
    State {
        clock: now,
        mode: match s.mode {
            Mode::Timed(deadline) => if now >= deadline {
                Mode::Running
            } else {
                s.mode
            },
            _ => s.mode,
        },
        ..s
    }
}

/// The state of a runner that was not started.
pub open spec fn idle() -> State {
    State {
        mode: Mode::Idle,
        node: None,
        line: 0,
        entered: false,
        testing: false,
        frames: Seq::empty(),
        choices: Seq::empty(),
        resume: 0,
        pending: None,
        clock: 0,
        budget: STEP_BUDGET,
    }
}

/// What `start` does: the cursor on the first line of node `m`, nothing
/// chosen, nothing awaited, and the host not yet told of the node.
pub open spec fn started(s: State, m: usize) -> State {
    State {
        mode: Mode::Running,
        node: Some(m),
        line: 0,
        entered: false,
        testing: false,
        frames: Seq::empty(),
        choices: Seq::empty(),
        resume: 0,
        pending: None,
        clock: s.clock,
        budget: s.budget,
    }
}

/// What loading does to the state: a runner without a current node starts
/// in the first node of its table.
pub open spec fn loaded(s: State, count: int) -> State {
    if s.node is None && count > 0 {
        started(s, 0)
    } else {
        s
    }
}

} // verus!
