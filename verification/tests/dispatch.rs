use reedline_repl_rs::command::{CommandNode, CommandTree};
use reedline_repl_rs::dispatch::{
    split_words, Action, DispatchEngine, Event, Outcome, Output, Reaction,
};
use reedline_repl_rs::help::{entry_line, ShellInfo};
use reedline_repl_rs::registry::CallbackRegistry;

fn node(name: &str, about: Option<&str>) -> CommandNode {
    CommandNode {
        name: name.to_string(),
        about: about.map(|a| a.to_string()),
        after_help: None,
        arguments: Vec::new(),
        subcommands: Vec::new(),
    }
}

fn tree() -> CommandTree {
    let mut tree = CommandTree::new();
    assert!(tree.register(node("append", Some("Append name to end of list"))).is_ok());
    assert!(tree.register(node("prepend", Some("Prepend name to front of list"))).is_ok());
    assert!(tree.register(node("orphan", None)).is_ok());
    tree
}

fn engine(before_hook: bool, after_hook: bool) -> DispatchEngine<&'static str> {
    let mut callbacks = CallbackRegistry::new();
    assert!(callbacks.bind("prepend".to_string(), "do prepend").is_ok());
    assert!(callbacks.bind("append".to_string(), "do append").is_ok());
    DispatchEngine::new(tree(), callbacks, before_hook, after_hook)
}

fn line(text: &str) -> Event {
    Event::Line(text.to_string())
}

fn words(list: &[&str]) -> Vec<Vec<u8>> {
    list.iter().map(|w| w.as_bytes().to_vec()).collect()
}

fn silent(next: Action) -> Reaction {
    Reaction { output: Vec::new(), next }
}

fn says(output: Output, next: Action) -> Reaction {
    Reaction { output: vec![output], next }
}

#[test]
fn session_starts_by_reading() {
    let e = engine(false, false);
    assert_eq!(e.pending(), Action::ReadLine);
    assert!(!e.is_over());
    assert!(e.words().is_empty());
    assert_eq!(*e.outcome(), None);
    assert_eq!(e.tree().len(), 3);
    assert_eq!(e.callbacks().len(), 2);
}

#[test]
fn blank_lines_are_skipped() {
    let mut e = engine(true, true);
    assert_eq!(e.step(line("")), silent(Action::ReadLine));
    assert_eq!(e.step(line("   \t \r\n")), silent(Action::ReadLine));
    assert_eq!(e.pending(), Action::ReadLine);
}

#[test]
fn callback_text_is_printed_and_the_session_goes_on() {
    let mut e = engine(false, false);
    assert_eq!(e.step(line("append  alice ")), silent(Action::Parse { command: 0 }));
    assert_eq!(*e.words(), words(&["append", "alice"]));
    assert_eq!(e.step(Event::Parsed), silent(Action::Invoke { command: 0, callback: 1 }));
    assert_eq!(*e.callbacks().callback(1), "do append");
    let r = e.step(Event::CallbackDone(Some("alice".to_string())));
    assert_eq!(r, says(Output::Line("alice".to_string()), Action::ReadLine));
    assert!(!e.is_over());
    assert!(e.words().is_empty());
    assert_eq!(e.step(line("prepend bob")), silent(Action::Parse { command: 1 }));
}

#[test]
fn callback_without_text_prints_nothing() {
    let mut e = engine(false, false);
    e.step(line("prepend bob"));
    assert_eq!(e.step(Event::Parsed), silent(Action::Invoke { command: 1, callback: 0 }));
    assert_eq!(e.step(Event::CallbackDone(None)), silent(Action::ReadLine));
    assert!(!e.is_over());
}

#[test]
fn callback_error_is_printed_and_the_session_goes_on() {
    let mut e = engine(false, true);
    e.step(line("append alice"));
    e.step(Event::Parsed);
    let r = e.step(Event::CallbackFailed("list is full".to_string()));
    assert_eq!(r, says(Output::Error("list is full".to_string()), Action::ReadLine));
    assert!(!e.is_over());
    assert_eq!(*e.outcome(), None);
    assert_eq!(e.step(line("append bob")), silent(Action::Parse { command: 0 }));
}

#[test]
fn command_without_callback_does_not_end_the_session() {
    let mut e = engine(true, true);
    assert_eq!(e.step(line("orphan now")), silent(Action::Parse { command: 2 }));
    let r = e.step(Event::Parsed);
    assert_eq!(
        r,
        says(Output::Error("no callback is bound to command orphan".to_string()), Action::ReadLine)
    );
    assert!(!e.is_over());
    assert_eq!(*e.outcome(), None);
    assert_eq!(e.step(line("append alice")), silent(Action::Parse { command: 0 }));
    assert_eq!(e.step(Event::Parsed), silent(Action::RunBeforeHook { command: 0, callback: 1 }));
}

#[test]
fn syntax_error_is_printed_and_the_turn_ends() {
    let mut e = engine(true, true);
    e.step(line("append"));
    let r = e.step(Event::SyntaxError("missing <name>".to_string()));
    assert_eq!(r, says(Output::Error("missing <name>".to_string()), Action::ReadLine));
    assert!(e.words().is_empty());
    assert!(!e.is_over());
}

#[test]
fn hooks_run_around_the_callback() {
    let mut e = engine(true, true);
    e.step(line("append alice"));
    assert_eq!(e.step(Event::Parsed), silent(Action::RunBeforeHook { command: 0, callback: 1 }));
    assert_eq!(
        e.step(Event::HookDone(Some("before".to_string()))),
        says(Output::Line("before".to_string()), Action::Invoke { command: 0, callback: 1 })
    );
    assert_eq!(*e.words(), words(&["append", "alice"]));
    assert_eq!(
        e.step(Event::CallbackDone(Some("alice".to_string()))),
        says(Output::Line("alice".to_string()), Action::RunAfterHook)
    );
    assert_eq!(
        e.step(Event::HookDone(Some("MyList [1]".to_string()))),
        says(Output::Line("MyList [1]".to_string()), Action::ReadLine)
    );
    assert!(!e.is_over());
}

#[test]
fn silent_hooks_print_nothing() {
    let mut e = engine(true, true);
    e.step(line("append alice"));
    e.step(Event::Parsed);
    assert_eq!(e.step(Event::HookDone(None)), silent(Action::Invoke { command: 0, callback: 1 }));
    assert_eq!(e.step(Event::CallbackDone(None)), silent(Action::RunAfterHook));
    assert_eq!(e.step(Event::HookDone(None)), silent(Action::ReadLine));
}

#[test]
fn failed_callback_skips_the_hook_that_follows() {
    let mut e = engine(true, true);
    e.step(line("append alice"));
    e.step(Event::Parsed);
    e.step(Event::HookDone(None));
    let r = e.step(Event::CallbackFailed("no".to_string()));
    assert_eq!(r.next, Action::ReadLine);
}

#[test]
fn hook_abort_ends_the_session() {
    let mut e = engine(true, true);
    e.step(line("append alice"));
    e.step(Event::Parsed);
    assert_eq!(e.step(Event::HookAborted("stop".to_string())), silent(Action::Stop));
    assert!(e.is_over());
    assert_eq!(*e.outcome(), Some(Outcome::HookAborted("stop".to_string())));

    let mut e = engine(false, true);
    e.step(line("append alice"));
    e.step(Event::Parsed);
    e.step(Event::CallbackDone(None));
    assert_eq!(e.step(Event::HookAborted("late".to_string())), silent(Action::Stop));
    assert_eq!(*e.outcome(), Some(Outcome::HookAborted("late".to_string())));
}

#[test]
fn help_shows_the_topic() {
    let mut e = engine(true, true);
    assert_eq!(e.step(line("help")), says(Output::Help(Vec::new()), Action::ReadLine));
    assert_eq!(
        e.step(line(" help append  now")),
        says(Output::Help(words(&["append", "now"])), Action::ReadLine)
    );
    assert!(e.words().is_empty());
}

#[test]
fn unknown_command_shows_the_overview() {
    let mut e = engine(true, true);
    assert_eq!(e.step(line("frobnicate 1 2")), says(Output::Help(Vec::new()), Action::ReadLine));
    assert_eq!(e.step(line("app")), says(Output::Help(Vec::new()), Action::ReadLine));
    assert!(!e.is_over());
}

#[test]
fn session_ends_on_quit_and_on_the_end_of_input() {
    let mut e = engine(false, false);
    assert_eq!(e.step(Event::Quit), silent(Action::Stop));
    assert!(e.is_over());
    assert_eq!(*e.outcome(), Some(Outcome::Quit));

    let mut e = engine(false, false);
    assert_eq!(e.step(Event::EndOfStream), silent(Action::Stop));
    assert_eq!(*e.outcome(), Some(Outcome::StreamEnded));

    let mut e = engine(false, false);
    assert_eq!(e.step(Event::InputFailed("broken pipe".to_string())), silent(Action::Stop));
    assert_eq!(*e.outcome(), Some(Outcome::InputFailed("broken pipe".to_string())));
}

#[test]
fn ended_session_stays_ended() {
    let mut e = engine(false, false);
    e.step(Event::Quit);
    assert_eq!(e.step(line("append alice")), silent(Action::Stop));
    assert_eq!(e.step(Event::Parsed), silent(Action::Stop));
    assert_eq!(*e.outcome(), Some(Outcome::Quit));
}

#[test]
fn event_out_of_turn_changes_nothing() {
    let mut e = engine(true, true);
    assert_eq!(e.step(Event::Parsed), silent(Action::ReadLine));
    assert_eq!(e.step(Event::CallbackDone(Some("x".to_string()))), silent(Action::ReadLine));
    e.step(line("append alice"));
    assert_eq!(e.step(Event::Quit), silent(Action::Parse { command: 0 }));
    assert_eq!(e.step(line("prepend bob")), silent(Action::Parse { command: 0 }));
    assert_eq!(*e.words(), words(&["append", "alice"]));
    assert!(!e.is_over());
}

#[test]
fn words_are_the_stretches_between_blanks() {
    assert_eq!(split_words(b""), Vec::<Vec<u8>>::new());
    assert_eq!(split_words(b" \t\n\r\x0c"), Vec::<Vec<u8>>::new());
    assert_eq!(split_words(b"a"), words(&["a"]));
    assert_eq!(split_words(b"  ab\tc  d\n"), words(&["ab", "c", "d"]));
    assert_eq!(split_words("é è".as_bytes()), words(&["é", "è"]));
}

#[test]
fn overview_lists_the_commands_and_help() {
    let info = ShellInfo::new()
        .with_name("MyApp")
        .with_version("v0.1.0")
        .with_description("My very cool app");
    assert_eq!(info.summary_line(), "MyApp v0.1.0: My very cool app");
    assert_eq!(
        info.overview_lines(&tree()),
        vec![
            "MyApp v0.1.0: My very cool app",
            "",
            "COMMANDS:",
            "    append    Append name to end of list",
            "    prepend    Prepend name to front of list",
            "    orphan",
            "    help    show help",
        ]
    );
    assert_eq!(ShellInfo::new().summary_line(), " : ");
    assert_eq!(entry_line("x", &None), "    x");
    assert_eq!(entry_line("x", &Some("y".to_string())), "    x    y");
}
