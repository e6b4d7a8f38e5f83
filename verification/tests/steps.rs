use yarnspinner::ast::intern::{InternedKey, Interner};
use yarnspinner::ast::{node, Value};
use yarnspinner::event::Event;
use yarnspinner::host::{Context, MemoryContext};
use yarnspinner::machine::Mode;
use yarnspinner::stepper::{
    assign_value, give_offer, say_line, take_branch, wait_for, Cursor, Offered,
};

#[test]
fn a_set_stores_the_value_and_moves_on() {
    let mut ctx = MemoryContext::new();
    let mut cur = Cursor::new();
    cur.testing = true;
    assign_value(InternedKey(3), Value::Number(7), 4, &mut ctx, &mut cur);
    assert_eq!(ctx.get_var(InternedKey(3)), Some(Value::Number(7)));
    assert_eq!(ctx.get_var(InternedKey(4)), None);
    assert_eq!(cur.line, 5);
    assert!(!cur.testing);
    assign_value(InternedKey(3), Value::String(InternedKey(0)), 5, &mut ctx, &mut cur);
    assert_eq!(ctx.get_var(InternedKey(3)), Some(Value::String(InternedKey(0))));
    assert_eq!(cur.line, 6);
}

#[test]
fn a_wait_sets_the_deadline() {
    let mut cur = Cursor::new();
    cur.clock = 10;
    assert_eq!(wait_for(Value::Number(250), 2, &mut cur), Event::Wait(250));
    assert_eq!(cur.mode, Mode::Timed(260));
    assert_eq!(cur.line, 3);
    assert_eq!(cur.clock, 10);
}

#[test]
fn a_wait_for_nothing_is_due_at_once() {
    for v in [Value::Number(0), Value::Number(-5), Value::String(InternedKey(0))] {
        let mut cur = Cursor::new();
        cur.clock = 10;
        assert_eq!(wait_for(v, 0, &mut cur), Event::Wait(0));
        assert_eq!(cur.mode, Mode::Timed(10));
        assert_eq!(cur.line, 1);
    }
}

#[test]
fn a_deadline_stops_at_the_end_of_the_clock() {
    let mut cur = Cursor::new();
    cur.clock = u64::MAX - 1;
    assert_eq!(wait_for(Value::Number(5), 0, &mut cur), Event::Wait(5));
    assert_eq!(cur.mode, Mode::Timed(u64::MAX));
}

#[test]
fn a_branch_goes_by_the_value() {
    let mut interner = Interner::new();
    let text = "title: A\n---\n<<if $x>>\na\n<<elseif $y>>\nb\n<<else>>\nc\n<<endif>>\n===\n";
    let (n, _) = node(text, &mut interner).unwrap();
    let mut cur = Cursor::new();
    take_branch(&n.lines, 0, Value::Number(1), &mut cur);
    assert_eq!((cur.line, cur.testing), (1, false));
    take_branch(&n.lines, 0, Value::Number(0), &mut cur);
    assert_eq!((cur.line, cur.testing), (2, true));
    take_branch(&n.lines, 2, Value::Number(0), &mut cur);
    assert_eq!((cur.line, cur.testing), (4, true));
    take_branch(&n.lines, 2, Value::Number(-1), &mut cur);
    assert_eq!((cur.line, cur.testing), (3, false));
}

#[test]
fn a_branch_without_a_way_out_ends_behind_the_lines() {
    let mut interner = Interner::new();
    let (n, _) = node("title: A\n---\n<<if $x>>\na\n===\n", &mut interner).unwrap();
    let mut cur = Cursor::new();
    take_branch(&n.lines, 0, Value::Number(0), &mut cur);
    assert_eq!((cur.line, cur.testing), (2, true));
}

#[test]
fn a_line_is_said_with_its_speaker() {
    let mut interner = Interner::new();
    let sally = interner.intern("Sally");
    let mut cur = Cursor::new();
    assert_eq!(
        say_line(Some(sally), "Hi".to_string(), 0, &interner, &mut cur),
        Event::Line(Some("Sally".to_string()), "Hi".to_string())
    );
    assert_eq!(cur.line, 1);
    assert_eq!(
        say_line(None, "there".to_string(), 1, &interner, &mut cur),
        Event::Line(None, "there".to_string())
    );
    assert_eq!(cur.line, 2);
    assert_eq!(cur.mode, Mode::Idle);
}

#[test]
fn options_on_offer_wait_for_a_choice() {
    let mut cur = Cursor::new();
    cur.mode = Mode::Running;
    let o = Offered { choices: vec![1, 3], labels: vec!["Yes".to_string(), "No".to_string()], end: 5 };
    assert_eq!(
        give_offer(o, &mut cur),
        Some(Event::Options(vec!["Yes".to_string(), "No".to_string()]))
    );
    assert_eq!(cur.mode, Mode::AwaitingChoice);
    assert_eq!(cur.choices, vec![1, 3]);
    assert_eq!(cur.resume, 5);
    assert_eq!(cur.line, 0);
}

#[test]
fn no_option_on_offer_is_passed_over() {
    let mut cur = Cursor::new();
    cur.mode = Mode::Running;
    let o = Offered { choices: vec![], labels: vec![], end: 5 };
    assert_eq!(give_offer(o, &mut cur), None);
    assert_eq!(cur.mode, Mode::Running);
    assert_eq!(cur.line, 5);
}
