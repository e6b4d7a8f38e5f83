//! Laws of the engine: what holds of every script, every state and every
//! store, proved from the definitions in this crate.

use vstd::prelude::*;
use crate::ast::{
    Expr, LineKind, Node, NodeHeader, NodeLabel, NodeLine, SyntaxKind, Template, Value,
};
use crate::ast::line::fault;
use crate::ast::parse::{parse_node, parse_script, titles};
use crate::eval::{eval, Evaluated, Outcome};
use crate::event::{EventView, node_info};
use crate::host::FnSig;
use crate::lexer::Token;
use crate::machine::{at_line, 
    after_endif, cursor_ok, find_label, find_node, Mode, moved, next, next_branch, Offer, offer,
    run, runs, selected, started, State, step, Stepped, ticked, World, yielded,
};
use crate::value::is_true;

verus! {

/// The titles of parsed nodes.
pub open spec fn titles_of(nodes: Seq<(NodeHeader, Seq<NodeLine>)>) -> Seq<NodeLabel> {
    Seq::new(nodes.len(), |i: int| nodes[i].0.title)
}

/// A script that loads gives every node a title of its own: the nodes that
/// it adds differ in title from each other and from every title in use.
pub proof fn law_loaded_titles_differ(
    s: Seq<char>,
    toks: Seq<Token>,
    i: int,
    table: Seq<Seq<char>>,
    taken: Seq<NodeLabel>,
    acc: Seq<(NodeHeader, Seq<NodeLine>)>,
)
    requires
        taken.no_duplicates(),
    ensures
        match parse_script(s, toks, i, table, taken, acc).out {
            Ok((all, _)) => acc.len() <= all.len() && all.subrange(0, acc.len() as int) == acc && (
            taken + titles_of(all.subrange(acc.len() as int, all.len() as int))).no_duplicates(),
            Err(_) => true,
        },
    decreases toks.len() - i,
{
    let r = parse_node(s, toks, i, table);
    match r.out {
        Err(f) => {
            if f.kind == SyntaxKind::Empty {
                assert(acc.subrange(0, acc.len() as int) =~= acc);
                assert(taken + titles_of(acc.subrange(acc.len() as int, acc.len() as int))
                    =~= taken);
            }
        },
        Ok((node, after)) => {
            if 0 <= i < after < toks.len() && !taken.contains(node.0.title) {
                let title = node.0.title;
                let more = taken.push(title);
                assert(more.no_duplicates()) by {
                    assert forall|a: int, b: int|
                        0 <= a < more.len() && 0 <= b < more.len() && a != b implies more[a]
                        != more[b] by {
                        if a < taken.len() && b < taken.len() {
                        } else if a < taken.len() {
                            assert(taken.contains(taken[a]));
                        } else if b < taken.len() {
                            assert(taken.contains(taken[b]));
                        }
                    }
                }
                law_loaded_titles_differ(s, toks, after, r.table, more, acc.push(node));
                let out = parse_script(s, toks, after, r.table, more, acc.push(node)).out;
                if let Ok((all, _)) = out {
                    let n = acc.len() as int;
                    assert(all.subrange(0, n) =~= acc) by {
                        assert(all.subrange(0, n + 1) == acc.push(node));
                        assert forall|k: int| 0 <= k < n implies all[k] == acc[k] by {
                            assert(all.subrange(0, n + 1)[k] == acc.push(node)[k]);
                        }
                    }
                    assert(all[n] == node) by {
                        assert(all.subrange(0, n + 1)[n] == acc.push(node)[n]);
                    }
                    assert(taken + titles_of(all.subrange(n, all.len() as int)) =~= more
                        + titles_of(all.subrange(n + 1, all.len() as int)));
                }
            }
        },
    }
}

/// Two nodes with one title do not load: where a node parses, its title is
/// not in use, and the node behind it has the same title, the script fails
/// at that second node with "duplicate node title".
pub proof fn law_duplicate_title_is_refused(
    s: Seq<char>,
    toks: Seq<Token>,
    i: int,
    table: Seq<Seq<char>>,
    taken: Seq<NodeLabel>,
    acc: Seq<(NodeHeader, Seq<NodeLine>)>,
)
    requires
        parse_node(s, toks, i, table).out is Ok,
        0 <= i < parse_node(s, toks, i, table).out->Ok_0.1 < toks.len(),
        !taken.contains(parse_node(s, toks, i, table).out->Ok_0.0.0.title),
        ({
            let first = parse_node(s, toks, i, table);
            let second = parse_node(s, toks, first.out->Ok_0.1, first.table);
            second.out is Ok && second.out->Ok_0.1 < toks.len() && first.out->Ok_0.1
                < second.out->Ok_0.1 && second.out->Ok_0.0.0.title == first.out->Ok_0.0.0.title
        }),
    ensures
        ({
            let first = parse_node(s, toks, i, table);
            let second = parse_node(s, toks, first.out->Ok_0.1, first.table);
            parse_script(s, toks, i, table, taken, acc) == fault::<
                Seq<(NodeHeader, Seq<NodeLine>)>,
            >(second.table, SyntaxKind::DuplicateNodeTitle, first.out->Ok_0.1)
        }),
{
    let first = parse_node(s, toks, i, table);
    let title = first.out->Ok_0.0.0.title;
    let more = taken.push(title);
    assert(more[taken.len() as int] == title);
    assert(more.contains(title));
    let after = first.out->Ok_0.1;
    assert(parse_script(s, toks, i, table, taken, acc) == parse_script(
        s,
        toks,
        after,
        first.table,
        more,
        acc.push(first.out->Ok_0.0),
    ));
}

/// Once a call gives no event, every later call gives none and changes
/// nothing, until the host acts: a run ends without an event only in a
/// world that does not run.
pub proof fn law_none_stays_none(w: World, fuel: nat, again: nat)
    ensures
        match run(w, fuel) {
            Outcome::Done(s) => s.event is None ==> !runs(s.world) && run(s.world, again)
                == Outcome::Done(Stepped { world: s.world, event: None }),
            _ => true,
        },
    decreases fuel,
{
    if runs(w) && fuel > 0 {
        match step(w, w.state.node->0 as int) {
            Outcome::Done(s) => {
                if s.event is None {
                    law_none_stays_none(s.world, (fuel - 1) as nat, again);
                }
            },
            _ => {},
        }
    }
}

/// A stopped or idle runner gives no event and stays as it is.
pub proof fn law_terminal_gives_none(w: World)
    requires
        w.state.mode == Mode::Stopped || w.state.mode == Mode::Idle,
    ensures
        next(w) == Outcome::Done(Stepped { world: w, event: None }),
{
}

/// The step that yields `End` or an error stops the runner.
pub proof fn law_end_stops(w: World, n: int)
    requires
        0 <= n < w.nodes.len(),
    ensures
        match step(w, n) {
            Outcome::Done(s) => (s.event == Some(EventView::End) || s.event matches Some(
                EventView::Error(_),
            )) ==> s.world.state.mode == Mode::Stopped,
            _ => true,
        },
{
    reveal(step);
}

/// A line of dialog is yielded once: the step that yields it leaves the
/// cursor on the next line of the same node, so events of a node come in
/// source order until control is transferred.
pub proof fn law_line_moves_on(w: World, n: int)
    requires
        0 <= n < w.nodes.len(),
        w.state.node == Some(n as usize),
    ensures
        match step(w, n) {
            Outcome::Done(s) => (s.event matches Some(EventView::Line(_, _)) || s.event matches Some(
                EventView::Command(_, _),
            )) ==> s.world.state.line == w.state.line + 1 && s.world.state.node == w.state.node
                && s.world.nodes == w.nodes,
            _ => true,
        },
{
    reveal(step);
    assert(w.nodes[n].lines.len() == w.nodes[n].lines@.len());
}

/// The same choice in the same world gives the same events: what follows a
/// selection is a function of the world and the index alone.
pub proof fn law_selection_is_deterministic(a: World, b: World, index: int)
    requires
        a == b,
    ensures
        selected(a, index) == selected(b, index),
        next(World { state: selected(a, index), ..a }) == next(
            World { state: selected(b, index), ..b },
        ),
{
}

/// A node with an empty body yields `NewNode`, then `End`.
pub proof fn law_empty_body(w: World)
    requires
        runs(w),
        w.nodes[w.state.node->0 as int].lines@.len() == 0,
        !w.state.entered,
        w.state.pending is None,
        w.state.frames.len() == 0,
        w.state.budget > 0,
    ensures
        ({
            let n = w.state.node->0 as int;
            let entered = World { state: State { entered: true, ..w.state }, ..w };
            &&& next(w) == Outcome::Done(
                Stepped {
                    world: entered,
                    event: Some(EventView::NewNode(node_info(w.nodes[n].header, w.table))),
                },
            )
            &&& next(entered) == Outcome::Done(
                Stepped {
                    world: World {
                        state: State { mode: Mode::Stopped, testing: false, ..entered.state },
                        ..w
                    },
                    event: Some(EventView::End),
                },
            )
        }),
{
    reveal(step);
    let n = w.state.node->0 as int;
    let entered = World { state: State { entered: true, ..w.state }, ..w };
    assert(step(w, n) == Outcome::Done(
        yielded(
            w,
            State { entered: true, ..w.state },
            EventView::NewNode(node_info(w.nodes[n].header, w.table)),
        ),
    ));
    assert(runs(entered));
    assert(step(entered, n) == Outcome::Done(
        yielded(
            entered,
            State { mode: Mode::Stopped, testing: false, ..entered.state },
            EventView::End,
        ),
    ));
}

/// Whether every option of the group from line `i` on, at indentation `d`,
/// has a condition that is false.
pub open spec fn all_guards_false(
    lines: Seq<NodeLine>,
    i: int,
    d: usize,
    table: Seq<Seq<char>>,
    vars: Map<u32, Value>,
    fns: Seq<FnSig>,
) -> bool {
    forall|j: int|
        i <= j < lines.len() && (#[trigger] lines[j]).indent == d ==> match lines[j].kind {
            LineKind::Shortcut(_, Some(e)) => eval(e, table, vars, fns).table == table && (match eval(
                e,
                table,
                vars,
                fns,
            ).out {
                Outcome::Done(v) => !is_true(v),
                _ => false,
            }),
            LineKind::Shortcut(_, None) => false,
            LineKind::Choice(_, _) => false,
            _ => true,
        }
}

/// A group of options whose conditions are all false offers nothing.
pub proof fn law_false_guards_offer_nothing(
    lines: Seq<NodeLine>,
    i: int,
    d: usize,
    table: Seq<Seq<char>>,
    vars: Map<u32, Value>,
    fns: Seq<FnSig>,
    acc: Offer,
)
    requires
        0 <= i <= lines.len(),
        all_guards_false(lines, i, d, table, vars, fns),
    ensures
        offer(lines, i, d, table, vars, fns, acc).table == table,
        match offer(lines, i, d, table, vars, fns, acc).out {
            Outcome::Done(o) => o.choices == acc.choices && o.labels == acc.labels && i <= o.end
                <= lines.len(),
            _ => false,
        },
    decreases lines.len() - i,
{
    if i < lines.len() && lines[i].indent >= d {
        if lines[i].indent > d {
            law_false_guards_offer_nothing(lines, i + 1, d, table, vars, fns, acc);
        } else {
            match lines[i].kind {
                LineKind::Shortcut(_, Some(e)) => {
                    law_false_guards_offer_nothing(lines, i + 1, d, table, vars, fns, acc);
                },
                _ => {},
            }
        }
    }
}

/// A group of options whose conditions are all false is passed over
/// without an event: the step leaves the cursor behind the group.
pub proof fn law_false_guards_are_silent(w: World, n: int)
    requires
        0 <= n < w.nodes.len(),
        w.state.pending is None,
        w.state.entered,
        w.state.frames.len() == 0,
        w.state.line < w.nodes[n].lines@.len(),
        w.nodes[n].lines@[w.state.line as int].kind is Shortcut,
        all_guards_false(
            w.nodes[n].lines@,
            w.state.line as int,
            w.nodes[n].lines@[w.state.line as int].indent,
            w.table,
            w.vars,
            w.fns,
        ),
    ensures
        match step(w, n) {
            Outcome::Done(s) => s.event is None && s.world.table == w.table && s.world.vars
                == w.vars && s.world.state.mode == w.state.mode && w.state.line
                < s.world.state.line <= w.nodes[n].lines@.len(),
            _ => false,
        },
{
    reveal(step);
    let lines = w.nodes[n].lines@;
    let i = w.state.line as int;
    let d = lines[i].indent;
    let init = Offer { choices: Seq::empty(), labels: Seq::empty(), end: i };
    assert(w.nodes[n].lines.len() == lines.len());
    law_false_guards_offer_nothing(lines, i, d, w.table, w.vars, w.fns, init);
    law_false_guards_offer_nothing(lines, i + 1, d, w.table, w.vars, w.fns, init);
}

/// In a table where no two nodes have one title, a title leads to its node.
pub proof fn law_title_finds_node(nodes: Seq<Node>, n: int, from: int)
    requires
        0 <= from <= n < nodes.len(),
        titles(nodes).no_duplicates(),
    ensures
        find_node(nodes, from, nodes[n].header.title) == Some(n),
    decreases n - from,
{
    if from < n {
        assert(titles(nodes)[from] != titles(nodes)[n]);
        law_title_finds_node(nodes, n, from + 1);
    }
}

/// A jump to the current node's own title starts that node again from its
/// first line, without telling the host of the node anew.
pub proof fn law_jump_to_self_restarts(w: World, n: int, target: NodeLabel)
    requires
        0 <= n < w.nodes.len(),
        titles(w.nodes).no_duplicates(),
        w.state.pending is None,
        w.state.entered,
        w.state.frames.len() == 0,
        w.state.line < w.nodes[n].lines@.len(),
        w.nodes[n].lines@[w.state.line as int].kind == LineKind::Jump(target),
        target == w.nodes[n].header.title,
        crate::machine::find_label(w.nodes[n].lines@, 0, target) is None,
    ensures
        step(w, n) == Outcome::Done(
            moved(
                w,
                State {
                    node: Some(n as usize),
                    line: 0,
                    entered: true,
                    testing: false,
                    frames: Seq::empty(),
                    pending: None,
                    ..w.state
                },
            ),
        ),
{
    reveal(step);
    law_title_finds_node(w.nodes, n, 0);
}

/// `wait 0` yields `Wait(0)` with the deadline at the present time, and the
/// next tick that does not go back in time ends the pause.
pub proof fn law_wait_zero(w: World, n: int, e: Expr, now: u64)
    requires
        0 <= n < w.nodes.len(),
        w.state.pending is None,
        w.state.entered,
        w.state.frames.len() == 0,
        w.state.line < w.nodes[n].lines@.len(),
        w.nodes[n].lines@[w.state.line as int].kind == LineKind::Wait(e),
        eval(e, w.table, w.vars, w.fns) == (Evaluated {
            table: w.table,
            out: Outcome::Done(Value::Number(0)),
        }),
        now >= w.state.clock,
    ensures
        step(w, n) matches Outcome::Done(s) && s.event == Some(EventView::Wait(0))
            && s.world.state.mode == Mode::Timed(w.state.clock) && s.world.state.line
            == w.state.line + 1 && ticked(s.world.state, now).mode == Mode::Running,
{
    reveal(step);
    assert(w.nodes[n].lines.len() == w.nodes[n].lines@.len());
}

/// A branch of an `if` is looked for among the lines behind it.
pub proof fn law_next_branch_in_range(lines: Seq<NodeLine>, i: int, depth: nat)
    requires
        0 <= i <= lines.len(),
    ensures
        i <= next_branch(lines, i, depth) <= lines.len(),
        i <= after_endif(lines, i, depth) <= lines.len(),
    decreases lines.len() - i,
{
    if i < lines.len() {
        law_next_branch_in_range(lines, i + 1, depth);
        law_next_branch_in_range(lines, i + 1, depth + 1);
        if depth > 0 {
            law_next_branch_in_range(lines, i + 1, (depth - 1) as nat);
        }
    }
}

/// A label is found on a line of the node that carries it.
pub proof fn law_label_is_there(lines: Seq<NodeLine>, i: int, key: NodeLabel)
    requires
        0 <= i,
    ensures
        find_label(lines, i, key) matches Some(j) ==> i <= j < lines.len() && lines[j].kind
            is Label && lines[j].label == Some(key),
    decreases lines.len() - i,
{
    if i < lines.len() {
        law_label_is_there(lines, i + 1, key);
    }
}

/// A node is found in the table, under its title.
pub proof fn law_node_is_there(nodes: Seq<Node>, i: int, key: NodeLabel)
    requires
        0 <= i,
    ensures
        find_node(nodes, i, key) matches Some(m) ==> i <= m < nodes.len()
            && nodes[m].header.title == key,
    decreases nodes.len() - i,
{
    if i < nodes.len() {
        law_node_is_there(nodes, i + 1, key);
    }
}

/// The options on offer are lines of the group, and the group ends among
/// the lines of the node.
pub proof fn law_offer_in_range(
    lines: Seq<NodeLine>,
    i: int,
    d: usize,
    table: Seq<Seq<char>>,
    vars: Map<u32, Value>,
    fns: Seq<FnSig>,
    acc: Offer,
)
    requires
        0 <= i <= lines.len() <= usize::MAX,
        forall|k: int| 0 <= k < acc.choices.len() ==> #[trigger] acc.choices[k] < lines.len(),
        acc.choices.len() == acc.labels.len(),
    ensures
        match offer(lines, i, d, table, vars, fns, acc).out {
            Outcome::Done(o) => i <= o.end <= lines.len() && o.choices.len() == o.labels.len()
                && forall|k: int| 0 <= k < o.choices.len() ==> #[trigger] o.choices[k] < lines.len(),
            _ => true,
        },
    decreases lines.len() - i,
{
    if i < lines.len() && lines[i].indent >= d {
        if lines[i].indent > d {
            law_offer_in_range(lines, i + 1, d, table, vars, fns, acc);
        } else {
            match lines[i].kind {
                LineKind::Shortcut(tpl, guard) => {
                    let holds = match guard {
                        None => Evaluated { table, out: Outcome::Done(Value::Number(1)) },
                        Some(e) => eval(e, table, vars, fns),
                    };
                    if let Outcome::Done(v) = holds.out {
                        if is_true(v) {
                            let text = crate::eval::render(tpl, holds.table, vars, fns);
                            if let Outcome::Done(t) = text.out {
                                law_offer_in_range(
                                    lines,
                                    i + 1,
                                    d,
                                    text.table,
                                    vars,
                                    fns,
                                    Offer {
                                        choices: acc.choices.push(i as usize),
                                        labels: acc.labels.push(t),
                                        end: acc.end,
                                    },
                                );
                            }
                        } else {
                            law_offer_in_range(lines, i + 1, d, holds.table, vars, fns, acc);
                        }
                    }
                },
                LineKind::Choice(label, _) => {
                    law_offer_in_range(
                        lines,
                        i + 1,
                        d,
                        table,
                        vars,
                        fns,
                        Offer {
                            choices: acc.choices.push(i as usize),
                            labels: acc.labels.push(crate::value::text_of(table, label)),
                            end: acc.end,
                        },
                    );
                },
                _ => {},
            }
        }
    }
}

/// A step keeps the cursor in order: the current node stays in the table,
/// and the cursor on one of its lines or behind the last.
pub proof fn law_step_keeps_cursor(w: World)
    requires
        cursor_ok(w),
        runs(w),
    ensures
        match step(w, w.state.node->0 as int) {
            Outcome::Done(s) => cursor_ok(s.world) && s.world.nodes == w.nodes,
            _ => true,
        },
{
    reveal(step);
    let n = w.state.node->0 as int;
    let lines = w.nodes[n].lines@;
    let i = w.state.line as int;
    assert(w.nodes[n].lines.len() == lines.len());
    if w.state.pending is Some {
        law_label_is_there(lines, 0, w.state.pending->0);
        law_node_is_there(w.nodes, 0, w.state.pending->0);
    } else if i < lines.len() {
        if let LineKind::Jump(target) = lines[i].kind {
            law_label_is_there(lines, 0, target);
            law_node_is_there(w.nodes, 0, target);
        }
    }
    if w.state.frames.len() > 0 {
        let rest = w.state.frames.drop_last();
        assert forall|k: int| 0 <= k < rest.len() implies (#[trigger] rest[k]).resume
            <= lines.len() by {
            assert(rest[k] == w.state.frames[k]);
        }
        assert(w.state.frames[w.state.frames.len() - 1].resume <= lines.len());
    }
    if i < lines.len() {
        law_next_branch_in_range(lines, i + 1, 0);
        law_offer_in_range(
            lines,
            i,
            lines[i].indent,
            w.table,
            w.vars,
            w.fns,
            Offer { choices: Seq::empty(), labels: Seq::empty(), end: i },
        );
    }
}

/// Selecting an option on offer, and starting a node of the table, leave
/// the cursor in order.
pub proof fn law_select_keeps_cursor(w: World, index: int, m: usize)
    requires
        cursor_ok(w),
    ensures
        w.state.mode == Mode::AwaitingChoice && 0 <= index < w.state.choices.len() ==> cursor_ok(
            World { state: selected(w, index), ..w },
        ),
        m < w.nodes.len() ==> cursor_ok(World { state: started(w.state, m), ..w }),
{
    if w.state.mode == Mode::AwaitingChoice && 0 <= index < w.state.choices.len() {
        let n = w.state.node->0 as int;
        if w.state.node is Some {
            assert(w.nodes[n].lines.len() == w.nodes[n].lines@.len());
            let c = w.state.choices[index];
            let after = selected(w, index);
            assert forall|k: int| 0 <= k < after.frames.len() implies (#[trigger] after.frames[k]).resume
                <= w.nodes[n].lines@.len() by {
                if k < w.state.frames.len() {
                    assert(after.frames[k] == w.state.frames[k]);
                }
            }
        }
    }
}

/// A run keeps the cursor in order, however many steps it takes.
pub proof fn law_run_keeps_cursor(w: World, fuel: nat)
    requires
        cursor_ok(w),
    ensures
        match run(w, fuel) {
            Outcome::Done(s) => cursor_ok(s.world) && s.world.nodes == w.nodes,
            _ => true,
        },
    decreases fuel,
{
    if runs(w) && fuel > 0 {
        let n = w.state.node->0 as int;
        law_step_keeps_cursor(w);
        match step(w, n) {
            Outcome::Done(s) => {
                if s.event is None {
                    law_run_keeps_cursor(s.world, (fuel - 1) as nat);
                }
            },
            _ => {},
        }
    }
}

/// Only a jump goes back: the step on a line that is no jump leaves the
/// cursor behind that line, or on it where it offers options or stops.
pub proof fn law_steps_go_forward(w: World)
    requires
        cursor_ok(w),
        runs(w),
        w.state.pending is None,
        w.state.entered,
        w.state.frames.len() == 0,
        w.state.line < w.nodes[w.state.node->0 as int].lines@.len(),
        !(w.nodes[w.state.node->0 as int].lines@[w.state.line as int].kind is Jump),
    ensures
        match step(w, w.state.node->0 as int) {
            Outcome::Done(s) => s.world.state.node == w.state.node && (s.world.state.line
                > w.state.line || (s.world.state.line == w.state.line && s.world.state.mode
                != Mode::Running)),
            _ => true,
        },
{
    reveal(step);
    let n = w.state.node->0 as int;
    let lines = w.nodes[n].lines@;
    let i = w.state.line as int;
    assert(w.nodes[n].lines.len() == lines.len());
    law_next_branch_in_range(lines, i + 1, 0);
    let init = Offer { choices: Seq::empty(), labels: Seq::empty(), end: i };
    law_offer_in_range(lines, i, lines[i].indent, w.table, w.vars, w.fns, init);
    if lines[i].kind is Shortcut || lines[i].kind is Choice {
        law_offer_passes_first(lines, i, w.table, w.vars, w.fns, init);
    }
}

/// A group of options reaches behind its first line.
pub proof fn law_offer_passes_first(
    lines: Seq<NodeLine>,
    i: int,
    table: Seq<Seq<char>>,
    vars: Map<u32, Value>,
    fns: Seq<FnSig>,
    acc: Offer,
)
    requires
        0 <= i < lines.len() <= usize::MAX,
        lines[i].kind is Shortcut || lines[i].kind is Choice,
        forall|k: int| 0 <= k < acc.choices.len() ==> #[trigger] acc.choices[k] < lines.len(),
        acc.choices.len() == acc.labels.len(),
    ensures
        match offer(lines, i, lines[i].indent, table, vars, fns, acc).out {
            Outcome::Done(o) => i < o.end,
            _ => true,
        },
{
    let d = lines[i].indent;
    match lines[i].kind {
        LineKind::Shortcut(tpl, guard) => {
            let holds = match guard {
                None => Evaluated { table, out: Outcome::Done(Value::Number(1)) },
                Some(e) => eval(e, table, vars, fns),
            };
            if let Outcome::Done(v) = holds.out {
                if is_true(v) {
                    let text = crate::eval::render(tpl, holds.table, vars, fns);
                    if let Outcome::Done(t) = text.out {
                        law_offer_in_range(
                            lines,
                            i + 1,
                            d,
                            text.table,
                            vars,
                            fns,
                            Offer {
                                choices: acc.choices.push(i as usize),
                                labels: acc.labels.push(t),
                                end: acc.end,
                            },
                        );
                    }
                } else {
                    law_offer_in_range(lines, i + 1, d, holds.table, vars, fns, acc);
                }
            }
        },
        LineKind::Choice(label, _) => {
            law_offer_in_range(
                lines,
                i + 1,
                d,
                table,
                vars,
                fns,
                Offer {
                    choices: acc.choices.push(i as usize),
                    labels: acc.labels.push(crate::value::text_of(table, label)),
                    end: acc.end,
                },
            );
        },
        _ => {},
    }
}

/// Whether a template holds no placeholder.
pub open spec fn is_plain(tpl: Template) -> bool
    decreases tpl,
{
    match tpl {
        Template::End => true,
        Template::Lit(_, rest) => is_plain(*rest),
        Template::Hole(_, _) => false,
    }
}

/// The text of a template without placeholders.
pub open spec fn plain_text(tpl: Template, table: Seq<Seq<char>>) -> Seq<char>
    decreases tpl,
{
    match tpl {
        Template::Lit(k, rest) => crate::value::text_of(table, k) + plain_text(*rest, table),
        _ => Seq::empty(),
    }
}

/// A template without placeholders renders to its text, whatever the
/// variables and the functions are, and interns nothing.
pub proof fn law_plain_text_renders(
    tpl: Template,
    table: Seq<Seq<char>>,
    vars: Map<u32, Value>,
    fns: Seq<FnSig>,
)
    requires
        is_plain(tpl),
    ensures
        crate::eval::render(tpl, table, vars, fns) == (Evaluated {
            table,
            out: Outcome::Done(plain_text(tpl, table)),
        }),
    decreases tpl,
{
    match tpl {
        Template::Lit(_, rest) => {
            law_plain_text_renders(*rest, table, vars, fns);
        },
        _ => {},
    }
}

/// The world after `k` calls of `next_event`, as far as no host function
/// is reached.
pub open spec fn after_calls(w: World, k: nat) -> World
    decreases k,
{
    if k == 0 {
        w
    } else {
        match next(after_calls(w, (k - 1) as nat)) {
            Outcome::Done(s) => s.world,
            _ => after_calls(w, (k - 1) as nat),
        }
    }
}

/// What call `k` of `next_event` gives, counted from one, as far as no
/// host function is reached.
pub open spec fn event_of_call(w: World, k: nat) -> Option<EventView> {
    if k == 0 {
        None
    } else {
        match next(after_calls(w, (k - 1) as nat)) {
            Outcome::Done(s) => s.event,
            _ => None,
        }
    }
}

/// Whether the line `j` is a line of text without placeholders.
pub open spec fn is_plain_line(lines: Seq<NodeLine>, j: int) -> bool {
    0 <= j < lines.len() && lines[j].kind is Text && is_plain(lines[j].kind->Text_0)
}

/// The event of a line of text without placeholders.
pub open spec fn plain_line_event(line: NodeLine, table: Seq<Seq<char>>) -> EventView {
    EventView::Line(
        match line.label {
            Some(k) => Some(crate::value::text_of(table, k)),
            None => None,
        },
        plain_text(line.kind->Text_0, table),
    )
}

/// Whether a world stands in front of line `i` of its current node with
/// nothing pending: the host was told of the node, no option body is open,
/// and the step budget is not zero.
pub open spec fn stands_at(w: World, i: int) -> bool {
    &&& runs(w)
    &&& w.state.line == i
    &&& w.state.entered
    &&& !w.state.testing
    &&& w.state.pending is None
    &&& w.state.frames.len() == 0
    &&& w.state.budget > 0
}

/// One call on a line of text without placeholders gives that line and
/// moves to the next line; nothing else of the world changes.
pub proof fn law_plain_line_is_given(w: World, i: int)
    requires
        stands_at(w, i),
        is_plain_line(w.nodes[w.state.node->0 as int].lines@, i),
    ensures
        next(w) == Outcome::Done(
            Stepped {
                world: World { state: State { line: (i + 1) as usize, ..w.state }, ..w },
                event: Some(
                    plain_line_event(w.nodes[w.state.node->0 as int].lines@[i], w.table),
                ),
            },
        ),
        stands_at(World { state: State { line: (i + 1) as usize, ..w.state }, ..w }, i + 1),
{
    reveal(step);
    let n = w.state.node->0 as int;
    let lines = w.nodes[n].lines@;
    assert(w.nodes[n].lines.len() == lines.len());
    law_plain_text_renders(lines[i].kind->Text_0, w.table, w.vars, w.fns);
    let x = World { table: w.table, ..w };
    assert(x == w);
    assert(at_line(w.state, i + 1) == (State { line: (i + 1) as usize, ..w.state }));
}

/// Events come in source order: from in front of line `i`, with nothing
/// but lines of text without placeholders up to line `i + k`, the calls
/// `1..=k` of `next_event` give the lines `i..i + k`, each once and none
/// left out, and leave the runner in front of line `i + k`.
pub proof fn law_text_lines_come_in_order(w: World, i: int, k: nat)
    requires
        stands_at(w, i),
        forall|j: int|
            i <= j < i + k ==> is_plain_line(w.nodes[w.state.node->0 as int].lines@, j),
    ensures
        after_calls(w, k) == (World { state: State { line: (i + k) as usize, ..w.state }, ..w }),
        stands_at(after_calls(w, k), i + k),
        forall|c: nat|
            1 <= c <= k ==> #[trigger] event_of_call(w, c) == Some(
                plain_line_event(
                    w.nodes[w.state.node->0 as int].lines@[i + c - 1],
                    w.table,
                ),
            ),
    decreases k,
{
    if k == 0 {
        assert((State { line: i as usize, ..w.state }) == w.state);
        assert((World { state: w.state, ..w }) == w);
    } else {
        let before = (k - 1) as nat;
        law_text_lines_come_in_order(w, i, before);
        let v = after_calls(w, before);
        law_plain_line_is_given(v, i + before);
        assert forall|c: nat| 1 <= c <= k implies #[trigger] event_of_call(w, c) == Some(
            plain_line_event(w.nodes[w.state.node->0 as int].lines@[i + c - 1], w.table),
        ) by {
            if c == k {
            }
        }
    }
}

/// A node whose body is `n` lines of text without placeholders gives, call
/// by call: the node, its `n` lines in source order, the end, and then
/// nothing.
pub proof fn law_text_node_is_told_in_order(w: World)
    requires
        runs(w),
        w.state.line == 0,
        !w.state.entered,
        !w.state.testing,
        w.state.pending is None,
        w.state.frames.len() == 0,
        w.state.budget > 0,
        forall|j: int|
            0 <= j < w.nodes[w.state.node->0 as int].lines@.len() ==> is_plain_line(
                w.nodes[w.state.node->0 as int].lines@,
                j,
            ),
    ensures
        ({
            let node = w.nodes[w.state.node->0 as int];
            let n = node.lines@.len();
            &&& event_of_call(w, 1) == Some(EventView::NewNode(node_info(node.header, w.table)))
            &&& forall|c: nat|
                1 <= c <= n ==> #[trigger] event_of_call(w, c + 1) == Some(
                    plain_line_event(node.lines@[c - 1], w.table),
                )
            &&& event_of_call(w, n + 2) == Some(EventView::End)
            &&& event_of_call(w, n + 3) == None::<EventView>
        }),
{
    reveal(step);
    let idx = w.state.node->0 as int;
    let node = w.nodes[idx];
    let n = node.lines@.len();
    assert(node.lines.len() == n);
    let told = World { state: State { entered: true, ..w.state }, ..w };
    assert(step(w, idx) == Outcome::Done(
        yielded(
            w,
            State { entered: true, ..w.state },
            EventView::NewNode(node_info(node.header, w.table)),
        ),
    ));
    assert(after_calls(w, 0) == w);
    assert(after_calls(w, 1) == told);
    law_text_lines_come_in_order(told, 0, n);
    law_calls_add_up(w, 1, n);
    assert forall|c: nat| 1 <= c <= n implies #[trigger] event_of_call(w, c + 1) == Some(
        plain_line_event(node.lines@[c - 1], w.table),
    ) by {
        law_calls_add_up(w, 1, (c - 1) as nat);
        assert(event_of_call(told, c) == Some(plain_line_event(node.lines@[c - 1], w.table)));
    }
    let last = after_calls(told, n);
    assert(after_calls(w, n + 1) == last);
    assert(step(last, idx) == Outcome::Done(
        yielded(
            last,
            State { mode: Mode::Stopped, testing: false, ..last.state },
            EventView::End,
        ),
    ));
    let ended = World { state: State { mode: Mode::Stopped, testing: false, ..last.state }, ..last };
    assert(after_calls(w, n + 2) == ended);
}

/// Calls add up: the world after `a + b` calls is the world `b` calls
/// after the world after `a` calls.
pub proof fn law_calls_add_up(w: World, a: nat, b: nat)
    ensures
        after_calls(w, a + b) == after_calls(after_calls(w, a), b),
        b >= 1 ==> event_of_call(w, a + b) == event_of_call(after_calls(w, a), b),
    decreases b,
{
    if b > 0 {
        law_calls_add_up(w, a, (b - 1) as nat);
        assert((a + b - 1) as nat == a + (b - 1) as nat);
    }
}

/// Equal worlds give equal events, call after call, and stay equal: what a
/// runner gives is a function of its nodes, its table, its store, its
/// functions and its state alone, as far as no host function is reached.
pub proof fn law_same_world_same_events(a: World, b: World, index: int, k: nat)
    requires
        a == b,
    ensures
        after_calls(World { state: selected(a, index), ..a }, k) == after_calls(
            World { state: selected(b, index), ..b },
            k,
        ),
        event_of_call(World { state: selected(a, index), ..a }, k) == event_of_call(
            World { state: selected(b, index), ..b },
            k,
        ),
        after_calls(a, k) == after_calls(b, k),
        event_of_call(a, k) == event_of_call(b, k),
{
}

} // verus!
