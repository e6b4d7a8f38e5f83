use yarnspinner::event::{Event, NodeInfo};
use yarnspinner::machine::Mode;
use yarnspinner::{DialogRunner, Error};

fn info(title: &str) -> NodeInfo {
    NodeInfo { title: title.to_string(), tags: vec![], metadata: vec![] }
}

fn line(text: &str) -> Event {
    Event::Line(None, text.to_string())
}

#[test]
fn it_works() {
    assert_eq!(2 + 2, 4);
}

#[test]
fn minimal_script() {
    let mut runner = DialogRunner::new();
    runner.load_yarn_file("title: A\n---\nHello\n===\n").unwrap();
    assert_eq!(runner.next_event(), Some(Event::NewNode(info("A"))));
    assert_eq!(runner.next_event(), Some(line("Hello")));
    assert_eq!(runner.next_event(), Some(Event::End));
    assert_eq!(runner.next_event(), None);
    assert_eq!(runner.next_event(), None);
    assert_eq!(runner.mode(), Mode::Stopped);
}

#[test]
fn interpolation() {
    let mut runner = DialogRunner::new();
    runner.load_yarn_file("title: A\n---\n<<set $n = 3>>\nYou have {$n} coins.\n===\n").unwrap();
    assert_eq!(runner.next_event(), Some(Event::NewNode(info("A"))));
    assert_eq!(runner.next_event(), Some(line("You have 3 coins.")));
    assert_eq!(runner.next_event(), Some(Event::End));
    assert_eq!(runner.next_event(), None);
}

#[test]
fn choice() {
    let mut runner = DialogRunner::new();
    runner
        .load_yarn_file("title: A\n---\n-> Yes\n    Agreed.\n-> No\n    Declined.\n===\n")
        .unwrap();
    runner.start("A").unwrap();
    assert_eq!(runner.next_event(), Some(Event::NewNode(info("A"))));
    assert_eq!(
        runner.next_event(),
        Some(Event::Options(vec!["Yes".to_string(), "No".to_string()]))
    );
    assert_eq!(runner.mode(), Mode::AwaitingChoice);
    assert_eq!(runner.next_event(), None);
    runner.select(1).unwrap();
    assert_eq!(runner.next_event(), Some(line("Declined.")));
    assert_eq!(runner.next_event(), Some(Event::End));
    assert_eq!(runner.next_event(), None);
}

#[test]
fn choice_first_option_skips_the_second_body() {
    let mut runner = DialogRunner::new();
    runner
        .load_yarn_file("title: A\n---\n-> Yes\n    Agreed.\n-> No\n    Declined.\nAfter\n===\n")
        .unwrap();
    assert_eq!(runner.next_event(), Some(Event::NewNode(info("A"))));
    assert_eq!(
        runner.next_event(),
        Some(Event::Options(vec!["Yes".to_string(), "No".to_string()]))
    );
    runner.select(0).unwrap();
    assert_eq!(runner.next_event(), Some(line("Agreed.")));
    assert_eq!(runner.next_event(), Some(line("After")));
    assert_eq!(runner.next_event(), Some(Event::End));
}

#[test]
fn jump_to_another_node() {
    let mut runner = DialogRunner::new();
    runner
        .load_yarn_file("title: A\n---\nHi\n<<jump B>>\n===\ntitle: B\n---\nBye\n===\n")
        .unwrap();
    assert_eq!(runner.next_event(), Some(Event::NewNode(info("A"))));
    assert_eq!(runner.next_event(), Some(line("Hi")));
    assert_eq!(runner.next_event(), Some(Event::NewNode(info("B"))));
    assert_eq!(runner.next_event(), Some(line("Bye")));
    assert_eq!(runner.next_event(), Some(Event::End));
    assert_eq!(runner.next_event(), None);
}

#[test]
fn host_command_passthrough() {
    let mut runner = DialogRunner::new();
    runner.load_yarn_file("title: A\n---\n<<shake camera 2.0>>\nok\n===\n").unwrap();
    assert_eq!(runner.next_event(), Some(Event::NewNode(info("A"))));
    assert_eq!(
        runner.next_event(),
        Some(Event::Command(
            "shake".to_string(),
            vec!["camera".to_string(), "2.0".to_string()]
        ))
    );
    assert_eq!(runner.next_event(), Some(line("ok")));
    assert_eq!(runner.next_event(), Some(Event::End));
}

#[test]
fn timer() {
    let mut runner = DialogRunner::new();
    runner.load_yarn_file("title: A\n---\n<<wait 500>>\ndone\n===\n").unwrap();
    assert_eq!(runner.next_event(), Some(Event::NewNode(info("A"))));
    assert_eq!(runner.next_event(), Some(Event::Wait(500)));
    assert_eq!(runner.mode(), Mode::Timed(500));
    assert_eq!(runner.next_event(), None);
    runner.tick(499);
    assert_eq!(runner.next_event(), None);
    runner.tick(500);
    assert_eq!(runner.mode(), Mode::Running);
    assert_eq!(runner.next_event(), Some(line("done")));
    assert_eq!(runner.next_event(), Some(Event::End));
}

#[test]
fn empty_body_yields_new_node_then_end() {
    let mut runner = DialogRunner::new();
    runner.load_yarn_file("title: A\n---\n===\n").unwrap();
    assert_eq!(runner.next_event(), Some(Event::NewNode(info("A"))));
    assert_eq!(runner.next_event(), Some(Event::End));
    assert_eq!(runner.next_event(), None);
}

#[test]
fn option_group_with_all_guards_false_is_skipped() {
    let mut runner = DialogRunner::new();
    runner
        .load_yarn_file(
            "title: A\n---\n-> Yes <<if false>>\n    Agreed.\n-> No <<if 1 > 2>>\n    Declined.\nAfter\n===\n",
        )
        .unwrap();
    assert_eq!(runner.next_event(), Some(Event::NewNode(info("A"))));
    assert_eq!(runner.next_event(), Some(line("After")));
    assert_eq!(runner.next_event(), Some(Event::End));
}

#[test]
fn option_guard_keeps_only_true_options() {
    let mut runner = DialogRunner::new();
    runner
        .load_yarn_file(
            "title: A\n---\n<<set $gold = 5>>\n-> Buy <<if $gold >= 10>>\n    Bought.\n-> Leave <<if $gold < 10>>\n    Left.\n===\n",
        )
        .unwrap();
    assert_eq!(runner.next_event(), Some(Event::NewNode(info("A"))));
    assert_eq!(runner.next_event(), Some(Event::Options(vec!["Leave".to_string()])));
    assert_eq!(runner.select(1), Err(Error::InvalidChoice(1, 1)));
    assert_eq!(runner.mode(), Mode::AwaitingChoice);
    runner.select(0).unwrap();
    assert_eq!(runner.next_event(), Some(line("Left.")));
    assert_eq!(runner.next_event(), Some(Event::End));
}

#[test]
fn jump_to_own_title_restarts_the_node() {
    let mut runner = DialogRunner::new();
    runner
        .load_yarn_file(
            "title: A\n---\n<<set $n = $n + 1>>\nRound {$n}\n<<if $n < 3>>\n<<jump A>>\n<<endif>>\nOut\n===\n",
        )
        .unwrap();
    assert_eq!(runner.next_event(), Some(Event::NewNode(info("A"))));
    assert_eq!(runner.next_event(), Some(line("Round 1")));
    assert_eq!(runner.next_event(), Some(line("Round 2")));
    assert_eq!(runner.next_event(), Some(line("Round 3")));
    assert_eq!(runner.next_event(), Some(line("Out")));
    assert_eq!(runner.next_event(), Some(Event::End));
}

#[test]
fn wait_zero_runs_again_on_the_next_tick() {
    let mut runner = DialogRunner::new();
    runner.load_yarn_file("title: A\n---\n<<wait 0>>\ndone\n===\n").unwrap();
    assert_eq!(runner.next_event(), Some(Event::NewNode(info("A"))));
    assert_eq!(runner.next_event(), Some(Event::Wait(0)));
    assert_eq!(runner.mode(), Mode::Timed(0));
    runner.tick(0);
    assert_eq!(runner.mode(), Mode::Running);
    assert_eq!(runner.next_event(), Some(line("done")));
}

#[test]
fn duplicate_node_title_is_a_syntax_error() {
    let mut runner = DialogRunner::new();
    let r = runner.load_yarn_file("title: A\n---\nHi\n===\ntitle: A\n---\nBye\n===\n");
    assert_eq!(
        r,
        Err(Error::Syntax(4, "title: A".to_string(), "duplicate node title"))
    );
    assert_eq!(runner.nodes().len(), 0);
    assert_eq!(runner.next_event(), None);
}

#[test]
fn duplicate_node_title_across_loads() {
    let mut runner = DialogRunner::new();
    runner.load_yarn_file("title: A\n---\nHi\n===\n").unwrap();
    let r = runner.load_yarn_file("title: B\n---\nHi\n===\ntitle: A\n---\nBye\n===\n");
    assert_eq!(
        r,
        Err(Error::Syntax(4, "title: A".to_string(), "duplicate node title"))
    );
    assert_eq!(runner.nodes().len(), 1);
}
