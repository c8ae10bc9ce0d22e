use reedline_repl_rs::command::{ArgumentSpec, CommandNode, CommandTree, PossibleValue};
use reedline_repl_rs::completer::{begins, find_command, position_of, resolve, ReplCompleter};
use reedline_repl_rs::suggestion::{Span, Suggestion};

fn text(s: &str) -> Option<String> {
    Some(s.to_string())
}

fn help_flag() -> ArgumentSpec {
    ArgumentSpec {
        long: text("help"),
        short: Some('h'),
        help: text("Print help"),
        possible_values: Vec::new(),
        global: true,
    }
}

fn positional() -> ArgumentSpec {
    ArgumentSpec { long: None, short: None, help: None, possible_values: Vec::new(), global: false }
}

fn leaf(name: &str, about: Option<String>, arguments: Vec<ArgumentSpec>) -> CommandNode {
    CommandNode { name: name.to_string(), about, after_help: None, arguments, subcommands: Vec::new() }
}

fn value(name: &str, help: Option<String>) -> PossibleValue {
    PossibleValue { name: name.to_string(), help }
}

fn list_tree() -> CommandTree {
    let mut tree = CommandTree::new();
    let append = leaf("append", text("Append name to end of list"), vec![positional(), help_flag()]);
    let prepend =
        leaf("prepend", text("Prepend name to front of list"), vec![positional(), help_flag()]);
    assert!(tree.register(append).is_ok());
    assert!(tree.register(prepend).is_ok());
    tree
}

fn deploy_tree() -> CommandTree {
    let state = ArgumentSpec {
        long: text("state"),
        short: Some('s'),
        help: text("Expected state"),
        possible_values: vec![value("ok", text("all fine")), value("fail", None)],
        global: false,
    };
    let mut status = leaf("status", text("Show the status"), vec![state, help_flag()]);
    status.after_help = text("See also: start");
    let start = leaf("start", text("Start a deployment"), vec![help_flag()]);
    let deploy = CommandNode {
        name: "deploy".to_string(),
        about: text("Deployments"),
        after_help: None,
        arguments: vec![help_flag()],
        subcommands: vec![status, start],
    };
    let mut tree = CommandTree::new();
    assert!(tree.register(deploy).is_ok());
    tree
}

fn offered(list: &[Suggestion]) -> Vec<&str> {
    list.iter().map(|s| s.value.as_str()).collect()
}

#[test]
fn first_token_prefix_offers_the_one_matching_command() {
    let tree = list_tree();
    let completer = ReplCompleter::new(&tree);
    let got = completer.complete("ap", 2);
    assert_eq!(
        got,
        vec![Suggestion {
            value: "append".to_string(),
            description: text("Append name to end of list"),
            span: Span { start: 0, end: 2 },
            append_whitespace: true,
        }]
    );
}

#[test]
fn command_without_values_flags_or_subcommands_offers_nothing() {
    let tree = list_tree();
    let completer = ReplCompleter::new(&tree);
    assert_eq!(completer.complete("append ", 7), Vec::<Suggestion>::new());
}

#[test]
fn enumerated_value_is_offered_for_the_last_token() {
    let tree = deploy_tree();
    let completer = ReplCompleter::new(&tree);
    let line = "deploy status --state f";
    let got = completer.complete(line, line.len());
    assert_eq!(
        got,
        vec![Suggestion {
            value: "fail".to_string(),
            description: None,
            span: Span { start: 22, end: 23 },
            append_whitespace: true,
        }]
    );
}

#[test]
fn empty_line_offers_every_command_and_help() {
    let tree = list_tree();
    let completer = ReplCompleter::new(&tree);
    let got = completer.complete("", 0);
    assert_eq!(offered(&got), vec!["append", "prepend", "help"]);
    for s in &got {
        assert_eq!(s.span, Span { start: 0, end: 0 });
        assert!(s.append_whitespace);
    }
    assert_eq!(got[0].description, text("Append name to end of list"));
    assert_eq!(got[2].description, text("show help"));
}

#[test]
fn empty_tree_offers_help_only() {
    let tree = CommandTree::new();
    let completer = ReplCompleter::new(&tree);
    assert_eq!(offered(&completer.complete("", 0)), vec!["help"]);
    assert_eq!(offered(&completer.complete("he", 2)), vec!["help"]);
    assert_eq!(offered(&completer.complete("x", 1)), Vec::<&str>::new());
}

#[test]
fn text_behind_the_cursor_is_ignored() {
    let tree = list_tree();
    let completer = ReplCompleter::new(&tree);
    let got = completer.complete("append more words", 2);
    assert_eq!(offered(&got), vec!["append"]);
    assert_eq!(got[0].span, Span { start: 0, end: 2 });
    let got = completer.complete("p zzz", 1);
    assert_eq!(offered(&got), vec!["prepend"]);
}

#[test]
fn span_of_a_later_token_ends_at_the_cursor() {
    let tree = deploy_tree();
    let completer = ReplCompleter::new(&tree);
    let got = completer.complete("deploy st and more", 9);
    assert_eq!(offered(&got), vec!["status", "start"]);
    for s in &got {
        assert_eq!(s.span, Span { start: 7, end: 9 });
    }
}

#[test]
fn cursor_outside_the_line_offers_nothing() {
    let tree = list_tree();
    let completer = ReplCompleter::new(&tree);
    assert!(completer.complete("ap", 3).is_empty());
    assert!(completer.complete("", 1).is_empty());
}

#[test]
fn cursor_inside_a_character_offers_nothing() {
    let tree = list_tree();
    let completer = ReplCompleter::new(&tree);
    assert!(completer.complete("é", 1).is_empty());
    assert!(completer.complete("append é", 8).is_empty());
}

#[test]
fn top_level_commands_are_not_offered_below_a_command() {
    let tree = deploy_tree();
    let completer = ReplCompleter::new(&tree);
    let got = completer.complete("deploy ", 7);
    assert_eq!(offered(&got), vec!["status", "start"]);
    let got = completer.complete("deploy d", 8);
    assert!(got.is_empty());
    let got = completer.complete("deploy h", 8);
    assert!(got.is_empty());
}

#[test]
fn unknown_first_token_offers_nothing_after_a_space() {
    let tree = deploy_tree();
    let completer = ReplCompleter::new(&tree);
    assert!(completer.complete("dep ", 4).is_empty());
    assert!(completer.complete(" deploy", 7).is_empty());
}

#[test]
fn later_token_can_still_name_a_top_level_command() {
    let tree = deploy_tree();
    let completer = ReplCompleter::new(&tree);
    let got = completer.complete("junk deploy st", 14);
    assert_eq!(offered(&got), vec!["status", "start"]);
    assert_eq!(got[0].span, Span { start: 12, end: 14 });
}

#[test]
fn garbage_token_does_not_reset_the_resolved_command() {
    let tree = deploy_tree();
    let completer = ReplCompleter::new(&tree);
    let got = completer.complete("deploy status junk --st", 23);
    assert_eq!(offered(&got), vec!["--state"]);
    assert_eq!(got[0].description, text("Expected state"));
    assert_eq!(got[0].span, Span { start: 19, end: 23 });
}

#[test]
fn candidates_come_in_discovery_order() {
    let tree = deploy_tree();
    let completer = ReplCompleter::new(&tree);
    let got = completer.complete("deploy status ", 14);
    assert_eq!(offered(&got), vec!["ok", "fail", "--state", "-s"]);
    assert_eq!(got[0].description, text("all fine"));
    assert_eq!(got[1].description, None);
    assert_eq!(got[2].description, text("Expected state"));
    assert_eq!(got[3].description, text("Expected state"));
    for s in &got {
        assert_eq!(s.span, Span { start: 14, end: 14 });
    }
}

#[test]
fn short_flag_is_a_dash_and_the_letter() {
    let tree = deploy_tree();
    let completer = ReplCompleter::new(&tree);
    let got = completer.complete("deploy status -", 15);
    assert_eq!(offered(&got), vec!["--state", "-s"]);
    let got = completer.complete("deploy status -s", 16);
    assert_eq!(offered(&got), vec!["-s"]);
    assert_eq!(got[0].span, Span { start: 14, end: 16 });
}

#[test]
fn global_arguments_are_never_offered() {
    let tree = deploy_tree();
    let completer = ReplCompleter::new(&tree);
    assert!(completer.complete("deploy status --h", 17).is_empty());
    assert!(completer.complete("deploy status -h", 16).is_empty());
    assert!(completer.complete("deploy start -", 14).is_empty());
}

#[test]
fn matching_is_case_sensitive() {
    let tree = list_tree();
    let completer = ReplCompleter::new(&tree);
    assert!(completer.complete("AP", 2).is_empty());
    assert!(completer.complete("Append ", 7).is_empty());
}

#[test]
fn subcommand_is_described_by_its_after_help() {
    let tree = deploy_tree();
    let completer = ReplCompleter::new(&tree);
    let got = completer.complete("deploy sta", 10);
    assert_eq!(offered(&got), vec!["status", "start"]);
    assert_eq!(got[0].description, text("See also: start"));
    assert_eq!(got[1].description, None);
}

#[test]
fn exact_last_token_descends_before_it_is_completed() {
    let tree = deploy_tree();
    let completer = ReplCompleter::new(&tree);
    let got = completer.complete("deploy status", 13);
    assert!(got.is_empty());
}

#[test]
fn value_and_subcommand_of_one_name_collapse_to_the_first() {
    let mode = ArgumentSpec {
        long: None,
        short: None,
        help: None,
        possible_values: vec![value("fast", text("a value"))],
        global: false,
    };
    let mut fast = leaf("fast", None, Vec::new());
    fast.after_help = text("a command");
    let run = CommandNode {
        name: "run".to_string(),
        about: None,
        after_help: None,
        arguments: vec![mode],
        subcommands: vec![fast, leaf("slow", None, Vec::new())],
    };
    let mut tree = CommandTree::new();
    assert!(tree.register(run).is_ok());
    let completer = ReplCompleter::new(&tree);
    let got = completer.complete("run ", 4);
    assert_eq!(offered(&got), vec!["fast", "slow"]);
    assert_eq!(got[0].description, text("a value"));
}

#[test]
fn registered_help_command_collapses_with_the_built_in_one() {
    let mut tree = CommandTree::new();
    assert!(tree.register(leaf("help", text("my own help"), Vec::new())).is_ok());
    assert!(tree.register(leaf("hello", None, Vec::new())).is_ok());
    let completer = ReplCompleter::new(&tree);
    let got = completer.complete("hel", 3);
    assert_eq!(offered(&got), vec!["help", "hello"]);
    assert_eq!(got[0].description, text("my own help"));
}

#[test]
fn completing_twice_gives_the_same_list() {
    let tree = deploy_tree();
    let completer = ReplCompleter::new(&tree);
    for (line, pos) in [("", 0), ("d", 1), ("deploy st", 9), ("deploy status --state ", 22)] {
        let first = completer.complete(line, pos);
        let second = completer.complete(line, pos);
        assert_eq!(first, second);
    }
}

#[test]
fn names_beyond_ascii_are_matched_by_their_bytes() {
    let mut tree = CommandTree::new();
    assert!(tree.register(leaf("écrire", None, Vec::new())).is_ok());
    let completer = ReplCompleter::new(&tree);
    let got = completer.complete("éc", 3);
    assert_eq!(offered(&got), vec!["écrire"]);
    assert_eq!(got[0].span, Span { start: 0, end: 3 });
}

#[test]
fn resolve_reports_the_token_that_named_the_command() {
    let tree = deploy_tree();
    let (reached, start) = resolve(tree.commands(), b"junk deploy x status y");
    let reached = reached.unwrap();
    assert_eq!(reached.node.name, "status");
    assert_eq!(reached.token_index, 3);
    assert_eq!(start, 21);
    let (reached, start) = resolve(tree.commands(), b"deploy  ");
    let reached = reached.unwrap();
    assert_eq!(reached.node.name, "deploy");
    assert_eq!(reached.token_index, 0);
    assert_eq!(start, 8);
    let (reached, start) = resolve(tree.commands(), b"nothing here");
    assert!(reached.is_none());
    assert_eq!(start, 8);
}

#[test]
fn lookup_is_exact_and_takes_the_first() {
    let tree = deploy_tree();
    assert_eq!(position_of(tree.commands(), b"deploy"), Some(0));
    assert_eq!(position_of(tree.commands(), b"dep"), None);
    assert_eq!(position_of(tree.commands(), b"deploys"), None);
    let subs = &tree.commands()[0].subcommands;
    assert_eq!(position_of(subs, b"start"), Some(1));
    assert_eq!(find_command(subs, b"status").map(|n| n.name.as_str()), Some("status"));
    assert!(find_command(subs, b"").is_none());
}

#[test]
fn begins_compares_bytes() {
    assert!(begins("append", b""));
    assert!(begins("append", b"app"));
    assert!(begins("append", b"append"));
    assert!(!begins("append", b"appendx"));
    assert!(!begins("append", b"b"));
}

#[test]
fn parts_of_the_answer_before_collapsing() {
    let tree = deploy_tree();
    let completer = ReplCompleter::new(&tree);
    let span = Span { start: 3, end: 4 };
    let got = completer.commands_starting_with(b"", span);
    assert_eq!(offered(&got), vec!["deploy", "help"]);
    assert_eq!(got[0].span, span);
    let status = &tree.commands()[0].subcommands[0];
    let got = completer.parameter_values_starting_with(status, b"", span);
    assert_eq!(offered(&got), vec!["ok", "fail", "--state", "-s"]);
    let got = completer.parameter_values_starting_with(&tree.commands()[0], b"s", span);
    assert_eq!(offered(&got), vec!["status", "start"]);
    let built = completer.build_suggestion("x", &text("y"), span);
    assert_eq!(
        built,
        Suggestion { value: "x".to_string(), description: text("y"), span, append_whitespace: true }
    );
}

#[test]
fn tabs_separate_tokens_like_spaces() {
    let tree = deploy_tree();
    let completer = ReplCompleter::new(&tree);
    let got = completer.complete("deploy\tst", 9);
    assert_eq!(offered(&got), vec!["status", "start"]);
    assert_eq!(got[0].span, Span { start: 7, end: 9 });
    assert!(completer.complete("dep\t", 4).is_empty());
}

#[test]
fn every_span_ends_at_the_cursor() {
    let tree = deploy_tree();
    let completer = ReplCompleter::new(&tree);
    let line = "deploy status --state ok";
    for pos in 0..=line.len() {
        for s in completer.complete(line, pos) {
            assert!(s.span.start <= s.span.end);
            assert_eq!(s.span.end, pos);
        }
    }
}
