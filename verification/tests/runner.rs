use yarnspinner::ast::Value;
use yarnspinner::event::{Event, NodeInfo};
use yarnspinner::host::{Context, HostFunction, MemoryContext};
use yarnspinner::machine::Mode;
use yarnspinner::value::{Operator, ValueKind};
use yarnspinner::ast::BinaryOp;
use yarnspinner::{DialogRunner, Error};

fn line(text: &str) -> Event {
    Event::Line(None, text.to_string())
}

fn loaded(text: &str) -> DialogRunner<MemoryContext> {
    let mut runner = DialogRunner::new();
    runner.load_yarn_file(text).unwrap();
    assert!(matches!(runner.next_event(), Some(Event::NewNode(_))));
    runner
}

#[test]
fn new_runner_is_idle() {
    let mut runner = DialogRunner::new();
    assert_eq!(runner.mode(), Mode::Idle);
    assert_eq!(runner.next_event(), None);
    assert_eq!(runner.select(0), Err(Error::NotWaiting));
    assert_eq!(runner.resume(), Err(Error::NotWaiting));
}

#[test]
fn start_of_unknown_node_fails() {
    let mut runner = DialogRunner::new();
    runner.load_yarn_file("title: A\n---\nHi\n===\n").unwrap();
    assert_eq!(runner.start("B"), Err(Error::UnknownNode("B".to_string())));
    assert_eq!(runner.start("Hi"), Err(Error::UnknownNode("Hi".to_string())));
    assert_eq!(runner.start("A"), Ok(()));
}

#[test]
fn header_tags_and_metadata_reach_the_host() {
    let mut runner = DialogRunner::new();
    runner
        .load_yarn_file("title: Start\ntags: intro  calm\nposition: 10,20\ncolor: red\n---\nHi\n===\n")
        .unwrap();
    assert_eq!(
        runner.next_event(),
        Some(Event::NewNode(NodeInfo {
            title: "Start".to_string(),
            tags: vec!["intro".to_string(), "calm".to_string()],
            metadata: vec![
                ("position".to_string(), "10,20".to_string()),
                ("color".to_string(), "red".to_string())
            ],
        }))
    );
}

#[test]
fn speaker_and_line_tag() {
    let mut runner = loaded("title: A\n---\nSally: Hello there #line01\n===\n");
    assert_eq!(
        runner.next_event(),
        Some(Event::Line(Some("Sally".to_string()), "Hello there".to_string()))
    );
    assert_eq!(runner.nodes()[0].lines.len(), 1);
    assert!(runner.nodes()[0].lines[0].tag.is_some());
}

#[test]
fn comments_and_blank_lines_are_passed_over() {
    let mut runner = loaded("title: A\n---\n\n# a comment\nHi // trailing\n\n===\n");
    assert_eq!(runner.next_event(), Some(line("Hi")));
    assert_eq!(runner.next_event(), Some(Event::End));
}

#[test]
fn if_elseif_else() {
    let text = "title: A\n---\n<<if $x == 1>>\none\n<<elseif $x == 2>>\ntwo\n<<else>>\nmany\n<<endif>>\nend\n===\n";
    let mut runner = DialogRunner::new();
    runner.load_yarn_file(text).unwrap();
    runner.set_variable("x", Value::Number(2));
    assert!(matches!(runner.next_event(), Some(Event::NewNode(_))));
    assert_eq!(runner.next_event(), Some(line("two")));
    assert_eq!(runner.next_event(), Some(line("end")));
    assert_eq!(runner.next_event(), Some(Event::End));

    runner.set_variable("x", Value::Number(1));
    runner.start("A").unwrap();
    assert!(matches!(runner.next_event(), Some(Event::NewNode(_))));
    assert_eq!(runner.next_event(), Some(line("one")));
    assert_eq!(runner.next_event(), Some(line("end")));

    runner.set_variable("x", Value::Number(7));
    runner.start("A").unwrap();
    assert!(matches!(runner.next_event(), Some(Event::NewNode(_))));
    assert_eq!(runner.next_event(), Some(line("many")));
    assert_eq!(runner.next_event(), Some(line("end")));
}

#[test]
fn nested_if_is_skipped_as_a_whole() {
    let text = "title: A\n---\n<<if 0>>\n<<if 1>>\ninner\n<<else>>\nalso inner\n<<endif>>\n<<else>>\nouter else\n<<endif>>\n===\n";
    let mut runner = loaded(text);
    assert_eq!(runner.next_event(), Some(line("outer else")));
    assert_eq!(runner.next_event(), Some(Event::End));
}

#[test]
fn undefined_variable_is_zero() {
    let mut runner = loaded("title: A\n---\nValue {$nothing + 1}\n===\n");
    assert_eq!(runner.next_event(), Some(line("Value 1")));
}

#[test]
fn arithmetic_and_precedence() {
    let mut runner = loaded(
        "title: A\n---\n{1 + 2 * 3} {(1 + 2) * 3} {10 - 4 - 3} {7 / 2} {-7 / 2} {-7 % 3} {7 % 0} {- 5} {not 0} {1 < 2 and 2 < 1 or 1}\n===\n",
    );
    assert_eq!(runner.next_event(), Some(line("7 9 3 3 -3 -1 0 -5 1 1")));
}

#[test]
fn arithmetic_saturates() {
    let mut runner = loaded(
        "title: A\n---\n{9223372036854775807 + 1} {0 - 9223372036854775807 - 2} {9223372036854775807 * 2}\n===\n",
    );
    assert_eq!(
        runner.next_event(),
        Some(line("9223372036854775807 -9223372036854775808 9223372036854775807"))
    );
}

#[test]
fn strings_concatenate_and_compare() {
    let mut runner = loaded(
        "title: A\n---\n<<set $a = \"foo\" + \"bar\">>\n{$a} {$a == \"foobar\"} {$a != \"foobar\"} {$a == 1} {true} {false}\n===\n",
    );
    assert_eq!(runner.next_event(), Some(line("foobar 1 0 0 1 0")));
}

#[test]
fn mixed_arithmetic_is_a_type_mismatch() {
    let mut runner = loaded("title: A\n---\n{1 + \"a\"}\nnever\n===\n");
    assert_eq!(
        runner.next_event(),
        Some(Event::Error(Error::TypeMismatch(
            Operator::Binary(BinaryOp::Add),
            ValueKind::Number,
            ValueKind::String
        )))
    );
    assert_eq!(runner.mode(), Mode::Stopped);
    assert_eq!(runner.next_event(), None);
}

#[test]
fn jump_to_unknown_node_is_an_error_event() {
    let mut runner = loaded("title: A\n---\n<<jump Nowhere>>\n===\n");
    assert_eq!(
        runner.next_event(),
        Some(Event::Error(Error::UnknownNode("Nowhere".to_string())))
    );
    assert_eq!(runner.next_event(), None);
}

#[test]
fn jump_to_label_inside_the_node() {
    let mut runner = loaded("title: A\n---\n<<jump skip>>\nnot shown\nskip:\nshown\n===\n");
    assert_eq!(runner.next_event(), Some(line("shown")));
    assert_eq!(runner.next_event(), Some(Event::End));
}

#[test]
fn stop_ends_the_dialog() {
    let mut runner = loaded("title: A\n---\none\n<<stop>>\ntwo\n===\n");
    assert_eq!(runner.next_event(), Some(line("one")));
    assert_eq!(runner.next_event(), Some(Event::End));
    assert_eq!(runner.next_event(), None);
    assert_eq!(runner.mode(), Mode::Stopped);
}

#[test]
fn wait_without_time_waits_for_input() {
    let mut runner = loaded("title: A\n---\n<<wait>>\ngo\n===\n");
    assert_eq!(runner.next_event(), Some(Event::WaitInput));
    assert_eq!(runner.mode(), Mode::AwaitingInput);
    assert_eq!(runner.next_event(), None);
    assert_eq!(runner.select(0), Err(Error::NotWaiting));
    runner.resume().unwrap();
    assert_eq!(runner.next_event(), Some(line("go")));
}

#[test]
fn runaway_script_hits_the_step_budget() {
    let mut runner = loaded("title: A\n---\nloop:\n<<jump loop>>\n===\n");
    assert_eq!(runner.next_event(), Some(Event::Error(Error::RuntimeBudgetExceeded)));
    assert_eq!(runner.mode(), Mode::Stopped);
    assert_eq!(runner.next_event(), None);
}

#[test]
fn inline_choice_jumps_to_its_target() {
    let mut runner = loaded(
        "title: A\n---\nWhere to?\n[Go north|North]\n[ Stay ]\n===\ntitle: North\n---\nCold.\n===\ntitle: Stay\n---\nWarm.\n===\n",
    );
    assert_eq!(runner.next_event(), Some(line("Where to?")));
    assert_eq!(
        runner.next_event(),
        Some(Event::Options(vec!["Go north".to_string(), "Stay".to_string()]))
    );
    runner.select(0).unwrap();
    assert!(matches!(runner.next_event(), Some(Event::NewNode(_))));
    assert_eq!(runner.next_event(), Some(line("Cold.")));
    assert_eq!(runner.next_event(), Some(Event::End));
}

#[test]
fn nested_options() {
    let text = "title: A\n---\n-> Outer\n    In outer\n    -> Inner\n        In inner\n    Back in outer\n-> Other\n    In other\nDone\n===\n";
    let mut runner = loaded(text);
    assert_eq!(
        runner.next_event(),
        Some(Event::Options(vec!["Outer".to_string(), "Other".to_string()]))
    );
    runner.select(0).unwrap();
    assert_eq!(runner.next_event(), Some(line("In outer")));
    assert_eq!(runner.next_event(), Some(Event::Options(vec!["Inner".to_string()])));
    runner.select(0).unwrap();
    assert_eq!(runner.next_event(), Some(line("In inner")));
    assert_eq!(runner.next_event(), Some(line("Back in outer")));
    assert_eq!(runner.next_event(), Some(line("Done")));
    assert_eq!(runner.next_event(), Some(Event::End));
}

#[test]
fn same_choice_gives_the_same_events() {
    let text = "title: A\n---\n<<set $n = 2>>\n-> Yes\n    Agreed {$n * 2}.\n-> No\n    Declined.\n===\n";
    let mut first = loaded(text);
    let mut second = loaded(text);
    assert_eq!(first.next_event(), second.next_event());
    first.select(0).unwrap();
    second.select(0).unwrap();
    let a = vec![first.next_event(), first.next_event(), first.next_event()];
    let b = vec![second.next_event(), second.next_event(), second.next_event()];
    assert_eq!(a, b);
    assert_eq!(a[0], Some(line("Agreed 4.")));
    assert_eq!(a[1], Some(Event::End));
    assert_eq!(a[2], None);
}

struct Recorder {
    calls: usize,
}

impl HostFunction<MemoryContext> for Recorder {
    fn call(&mut self, _ctx: &mut MemoryContext, args: &Vec<String>) -> Value {
        self.calls += 1;
        Value::Number(args.len() as i64 * 10 + self.calls as i64)
    }
}

#[test]
fn registered_command_is_called_and_yields_no_event() {
    let mut runner = DialogRunner::new();
    runner.add_function("shake", 2, Box::new(Recorder { calls: 0 }));
    runner.load_yarn_file("title: A\n---\n<<shake camera 2.0>>\nok\n===\n").unwrap();
    assert!(matches!(runner.next_event(), Some(Event::NewNode(_))));
    assert_eq!(runner.next_event(), Some(line("ok")));
}

#[test]
fn registered_command_with_wrong_arity() {
    let mut runner = DialogRunner::new();
    runner.add_function("shake", 1, Box::new(Recorder { calls: 0 }));
    runner.load_yarn_file("title: A\n---\n<<shake camera 2.0>>\nok\n===\n").unwrap();
    assert!(matches!(runner.next_event(), Some(Event::NewNode(_))));
    assert_eq!(
        runner.next_event(),
        Some(Event::Error(Error::ArityMismatch("shake".to_string(), 1, 2)))
    );
}

#[test]
fn function_call_in_an_expression() {
    let mut runner = DialogRunner::new();
    runner.add_function("roll", 2, Box::new(Recorder { calls: 0 }));
    runner
        .load_yarn_file("title: A\n---\n{roll(1, \"x\")} {roll(2, 3) + 1}\n{roll(1)}\n===\n")
        .unwrap();
    assert!(matches!(runner.next_event(), Some(Event::NewNode(_))));
    assert_eq!(runner.next_event(), Some(line("21 23")));
    assert_eq!(
        runner.next_event(),
        Some(Event::Error(Error::ArityMismatch("roll".to_string(), 2, 1)))
    );
}

#[test]
fn unknown_function_in_an_expression() {
    let mut runner = loaded("title: A\n---\n{nothing()}\n===\n");
    assert_eq!(
        runner.next_event(),
        Some(Event::Error(Error::UnknownFunction("nothing".to_string())))
    );
}

#[test]
fn variables_can_be_read_back() {
    let mut runner = loaded("title: A\n---\n<<set $n = 3>>\n<<set $s to \"hi\">>\nx\n===\n");
    assert_eq!(runner.variable("n"), None);
    assert_eq!(runner.next_event(), Some(line("x")));
    assert_eq!(runner.variable("n"), Some(Value::Number(3)));
    let s = runner.variable("s");
    match s {
        Some(Value::String(key)) => assert_eq!(runner.string_table().resolve(key), "hi"),
        _ => panic!("expected a string"),
    }
    assert_eq!(runner.variable("unknown"), None);
}

#[test]
fn errors_describe_themselves() {
    let e = Error::Syntax(3, "bad line".to_string(), "unterminated header");
    assert_eq!(e.describe(), "Syntax Error:\n\n3 | bad line\n\t-- unterminated header");
}

#[test]
fn step_budget_can_be_set() {
    let mut runner = loaded("title: A\n---\n<<set $a = 1>>\n<<set $b = 2>>\n<<set $c = 3>>\nx\n===\n");
    runner.set_step_budget(2);
    assert_eq!(runner.next_event(), Some(Event::Error(Error::RuntimeBudgetExceeded)));
    let mut runner = loaded("title: A\n---\n<<set $a = 1>>\n<<set $b = 2>>\n<<set $c = 3>>\nx\n===\n");
    runner.set_step_budget(4);
    assert_eq!(runner.next_event(), Some(line("x")));
}

#[test]
fn a_later_registration_takes_the_place_of_an_earlier_one() {
    let mut runner = DialogRunner::new();
    runner.add_function("f", 0, Box::new(Recorder { calls: 100 }));
    runner.add_function("f", 1, Box::new(Recorder { calls: 0 }));
    runner.load_yarn_file("title: A\n---\n{f(7)}\n{f()}\n===\n").unwrap();
    assert!(matches!(runner.next_event(), Some(Event::NewNode(_))));
    assert_eq!(runner.next_event(), Some(line("11")));
    assert_eq!(
        runner.next_event(),
        Some(Event::Error(Error::ArityMismatch("f".to_string(), 1, 0)))
    );
}

#[test]
fn start_restarts_a_stopped_dialog() {
    let mut runner = loaded("title: A\n---\nHi\n===\n");
    assert_eq!(runner.next_event(), Some(line("Hi")));
    assert_eq!(runner.next_event(), Some(Event::End));
    assert_eq!(runner.next_event(), None);
    runner.start("A").unwrap();
    assert_eq!(runner.mode(), Mode::Running);
    assert!(matches!(runner.next_event(), Some(Event::NewNode(_))));
    assert_eq!(runner.next_event(), Some(line("Hi")));
}

#[test]
fn tick_before_the_deadline_keeps_waiting() {
    let mut runner = loaded("title: A\n---\n<<wait 10>>\n<<wait 5>>\nx\n===\n");
    assert_eq!(runner.next_event(), Some(Event::Wait(10)));
    runner.tick(9);
    assert_eq!(runner.mode(), Mode::Timed(10));
    runner.tick(12);
    assert_eq!(runner.mode(), Mode::Running);
    assert_eq!(runner.next_event(), Some(Event::Wait(5)));
    assert_eq!(runner.mode(), Mode::Timed(17));
    runner.tick(17);
    assert_eq!(runner.next_event(), Some(line("x")));
}

#[test]
fn the_store_can_be_looked_into() {
    let mut runner = loaded("title: A\n---\n<<set $n = 40 + 2>>\nx\n===\n");
    assert_eq!(runner.next_event(), Some(line("x")));
    let key = runner.string_table().lookup("n").unwrap();
    assert_eq!(runner.context().get_var(key), Some(Value::Number(42)));
    assert!(runner.can_intern("anything"));
}

struct Echo;

impl HostFunction<MemoryContext> for Echo {
    fn call(&mut self, ctx: &mut MemoryContext, args: &Vec<String>) -> Value {
        ctx.set_var(yarnspinner::ast::intern::InternedKey(1000), Value::Number(args.len() as i64));
        let mut sum = 0;
        for a in args {
            sum = sum * 100 + a.parse::<i64>().unwrap_or(99);
        }
        Value::Number(sum)
    }
}

#[test]
fn a_function_gets_the_text_of_each_argument_in_order() {
    let mut runner = DialogRunner::new();
    runner.add_function("cat", 3, Box::new(Echo));
    runner
        .load_yarn_file("title: A\n---\n{cat(1 + 1, \"x\", 7)}\n===\n")
        .unwrap();
    assert!(matches!(runner.next_event(), Some(Event::NewNode(_))));
    assert_eq!(runner.next_event(), Some(line("29907")));
}

#[test]
fn a_first_load_starts_in_the_first_node_of_the_text() {
    let mut runner = DialogRunner::new();
    assert_eq!(runner.load_yarn_file("\n\n"), Ok(()));
    assert_eq!(runner.mode(), Mode::Idle);
    runner.load_yarn_file("title: B\n---\nb\n===\ntitle: A\n---\na\n===\n").unwrap();
    assert_eq!(runner.mode(), Mode::Running);
    assert!(matches!(runner.next_event(), Some(Event::NewNode(i)) if i.title == "B"));
    assert_eq!(runner.next_event(), Some(line("b")));
}

#[test]
fn a_later_load_leaves_the_dialog_where_it_is() {
    let mut runner = loaded("title: A\n---\none\n-> x\n    two\n<<jump B>>\n===\n");
    assert_eq!(runner.next_event(), Some(line("one")));
    assert_eq!(runner.next_event(), Some(Event::Options(vec!["x".to_string()])));
    assert_eq!(runner.mode(), Mode::AwaitingChoice);
    runner.load_yarn_file("title: B\n---\nthree\n===\n").unwrap();
    assert_eq!(runner.mode(), Mode::AwaitingChoice);
    assert_eq!(runner.nodes().len(), 2);
    assert_eq!(runner.select(0), Ok(()));
    assert_eq!(runner.next_event(), Some(line("two")));
    assert!(matches!(runner.next_event(), Some(Event::NewNode(i)) if i.title == "B"));
    assert_eq!(runner.next_event(), Some(line("three")));
    assert_eq!(runner.next_event(), Some(Event::End));
}

#[test]
fn a_failed_load_leaves_the_dialog_where_it_is() {
    let mut runner = loaded("title: A\n---\none\ntwo\n===\n");
    assert_eq!(runner.next_event(), Some(line("one")));
    assert!(runner.load_yarn_file("title: A\n---\nagain\n===\n").is_err());
    assert_eq!(runner.nodes().len(), 1);
    assert_eq!(runner.mode(), Mode::Running);
    assert_eq!(runner.next_event(), Some(line("two")));
    assert_eq!(runner.next_event(), Some(Event::End));
}
