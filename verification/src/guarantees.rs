//! What holds of completion on every tree, line and cursor, and of the
//! dispatch engine in every state.

use crate::command::{name_taken, names_distinct, ArgumentView, CommandView, PossibleValueView};
use crate::completer::{
    arguments_candidates, command_candidates, completions, cursor_in_line,
    first_token_candidates, lookup, node_candidates, offers, position_from,
    subcommand_candidates, value_candidates, walk,
};
use crate::dispatch::{
    react, state_after, state_well_formed, unbound_message, words, Action, EngineView, Event,
    OutputView,
};
use crate::registry::{bound_position, lemma_bound_from};
use crate::suggestion::{
    candidate, collapse, distinct_targets, lemma_collapse, lemma_collapse_distinct, same_target,
    Span, SuggestionView,
};
use crate::text::{
    has_blank, is_blank, last_token_start, lemma_last_token_start_bounds, lemma_tokens_last,
    tokens,
};
use vstd::prelude::*;
use vstd::utf8::{encode_utf8, is_char_boundary};

verus! {

/// Every top-level command of `tree` as a candidate for `span`, in
/// registration order.
pub open spec fn every_command(tree: Seq<CommandView>, span: Span) -> Seq<SuggestionView> {
    tree.map_values(|c: CommandView| candidate(c.name, c.about, span))
}

/// The candidate for the built-in `help` command.
pub open spec fn help_candidate(span: Span) -> SuggestionView {
    candidate("help"@, Some("show help"@), span)
}

/// `inner` is `outer` itself or lies somewhere below it.
pub open spec fn within(outer: CommandView, inner: CommandView) -> bool
    decreases outer,
{
    inner == outer || exists|i: int|
        0 <= i < outer.subcommands.len() && within(#[trigger] outer.subcommands[i], inner)
}

/// Every entry of `list` replaces `span` and asks for a space behind it.
pub open spec fn all_for_span(list: Seq<SuggestionView>, span: Span) -> bool {
    forall|i: int|
        0 <= i < list.len() ==> (#[trigger] list[i]).span == span && list[i].append_whitespace
}

/// The empty text begins every text.
pub proof fn lemma_empty_search_offers(value: Seq<char>)
    ensures
        offers(value, Seq::empty()),
{
    assert(encode_utf8(value).subrange(0, 0) =~= Seq::<u8>::empty());
}

proof fn lemma_command_candidates_all(tree: Seq<CommandView>, span: Span)
    ensures
        command_candidates(tree, Seq::empty(), span) == every_command(tree, span),
    decreases tree.len(),
{
    if tree.len() > 0 {
        lemma_command_candidates_all(tree.drop_last(), span);
        lemma_empty_search_offers(tree.last().name);
        assert(every_command(tree.drop_last(), span).push(
            candidate(tree.last().name, tree.last().about, span),
        ) =~= every_command(tree, span));
    } else {
        assert(every_command(tree, span) =~= Seq::empty());
    }
}

/// On the empty line, with the cursor at its only position, completion
/// offers every top-level command in registration order and then `help`,
/// each for the empty span at offset 0, with repeated names collapsed. Where
/// the names differ from one another and none is `help`, that is the whole
/// list.
pub proof fn lemma_empty_line_offers_everything(tree: Seq<CommandView>)
    ensures
        completions(tree, Seq::empty(), 0) == collapse(
            every_command(tree, Span { start: 0, end: 0 }).push(
                help_candidate(Span { start: 0, end: 0 }),
            ),
        ),
        names_distinct(tree) && !name_taken(tree, "help"@) ==> completions(tree, Seq::empty(), 0)
            == every_command(tree, Span { start: 0, end: 0 }).push(
            help_candidate(Span { start: 0, end: 0 }),
        ),
{
    let line = Seq::<u8>::empty();
    let span = Span { start: 0, end: 0 };
    assert(is_char_boundary(line, 0));
    assert(line.take(0) =~= line);
    assert(!has_blank(line));
    lemma_command_candidates_all(tree, span);
    lemma_empty_search_offers("help"@);
    let all = every_command(tree, span).push(help_candidate(span));
    assert(first_token_candidates(tree, line, span) =~= all);
    if names_distinct(tree) && !name_taken(tree, "help"@) {
        assert forall|i: int, j: int| 0 <= i < j < all.len() implies !same_target(
            #[trigger] all[i],
            #[trigger] all[j],
        ) by {
            assert(all[i].value == tree[i].name);
            if j < tree.len() {
                assert(all[j].value == tree[j].name);
            }
        }
        lemma_collapse_distinct(all);
    }
}

/// Completion is a function of the tree, the line and the cursor: asked
/// twice about the same three, it answers with the same candidates in the
/// same order.
pub proof fn lemma_completion_repeats(
    tree: Seq<CommandView>,
    line: Seq<u8>,
    cursor: int,
    first: Seq<SuggestionView>,
    second: Seq<SuggestionView>,
)
    requires
        first == completions(tree, line, cursor),
        second == completions(tree, line, cursor),
    ensures
        first == second,
{
}

/// Being within is transitive over one step down.
pub proof fn lemma_within_child(outer: CommandView, inner: CommandView, i: int)
    requires
        within(outer, inner),
        0 <= i < inner.subcommands.len(),
    ensures
        within(outer, inner.subcommands[i]),
    decreases outer,
{
    if inner == outer {
        assert(within(outer.subcommands[i], inner.subcommands[i]));
    } else {
        let k = choose|k: int|
            0 <= k < outer.subcommands.len() && within(#[trigger] outer.subcommands[k], inner);
        lemma_within_child(outer.subcommands[k], inner, i);
    }
}

/// What a lookup finds is one of the nodes searched.
pub proof fn lemma_lookup_finds_member(nodes: Seq<CommandView>, token: Seq<u8>, from: int)
    requires
        0 <= from,
    ensures
        match position_from(nodes, token, from) {
            Some(i) => from <= i < nodes.len() && encode_utf8(nodes[i].name) == token,
            None => true,
        },
    decreases nodes.len() - from,
{
    if from < nodes.len() && encode_utf8(nodes[from].name) != token {
        lemma_lookup_finds_member(nodes, token, from + 1);
    }
}

/// Once the first token names the command `root`, the walk never leaves the
/// commands below `root`, whatever the later tokens are.
pub proof fn lemma_walk_stays_within(
    tree: Seq<CommandView>,
    toks: Seq<Seq<u8>>,
    root: CommandView,
)
    requires
        toks.len() >= 1,
        lookup(tree, toks[0]) == Some(root),
    ensures
        walk(tree, toks) is Some,
        within(root, walk(tree, toks)->0.node),
    decreases toks.len(),
{
    if toks.len() == 1 {
        reveal_with_fuel(walk, 2);
        assert(toks.drop_last() =~= Seq::<Seq<u8>>::empty());
    } else {
        let head = toks.drop_last();
        assert(head[0] == toks[0]);
        lemma_walk_stays_within(tree, head, root);
        let reached = walk(tree, head)->0;
        lemma_lookup_finds_member(reached.node.subcommands, toks.last(), 0);
        match position_from(reached.node.subcommands, toks.last(), 0) {
            Some(i) => {
                lemma_within_child(root, reached.node, i);
            },
            None => {},
        }
    }
}

/// Where the first separator of `s` stands at `n`, the first token of `s` is
/// the text before it.
pub proof fn lemma_first_token(s: Seq<u8>, n: int)
    requires
        0 <= n < s.len(),
        is_blank(s[n]),
        forall|k: int| 0 <= k < n ==> !is_blank(s[k]),
    ensures
        tokens(s).len() >= 2,
        tokens(s)[0] == s.take(n),
    decreases s.len(),
{
    lemma_last_token_start_bounds(s);
    let start = last_token_start(s);
    assert(has_blank(s));
    let head = s.subrange(0, start - 1);
    if start - 1 == n {
        lemma_last_token_start_bounds(head);
        assert(!has_blank(head)) by {
            if has_blank(head) {
                let k = choose|k: int| 0 <= k < head.len() && is_blank(head[k]);
                assert(is_blank(s[k]));
            }
        }
        assert(tokens(head) == seq![head]);
        assert(head =~= s.take(n));
    } else {
        assert(start - 1 > n) by {
            if start - 1 < n {
                assert(!is_blank(s[n]));
            }
        }
        assert(head[n] == s[n]);
        assert forall|k: int| 0 <= k < n implies !is_blank(head[k]) by {
            assert(head[k] == s[k]);
        }
        lemma_first_token(head, n);
        assert(head.take(n) =~= s.take(n));
    }
}

/// Where the text before the cursor begins with the name of a top-level
/// command and a separator, completion moves within that command: it
/// resolves to the command or to one below it, and offers what that one
/// accepts next, for the span of the last token. The top-level commands are
/// not offered again.
pub proof fn lemma_completion_stays_within_command(
    tree: Seq<CommandView>,
    line: Seq<u8>,
    cursor: int,
    n: int,
    root: CommandView,
)
    requires
        cursor_in_line(line, cursor),
        0 <= n < cursor,
        is_blank(line[n]),
        forall|k: int| 0 <= k < n ==> !is_blank(line[k]),
        lookup(tree, line.take(n)) == Some(root),
    ensures
        walk(tree, tokens(line.take(cursor))) is Some,
        within(root, walk(tree, tokens(line.take(cursor)))->0.node),
        completions(tree, line, cursor) == collapse(
            node_candidates(
                walk(tree, tokens(line.take(cursor)))->0.node,
                tokens(line.take(cursor)).last(),
                Span {
                    start: (cursor - tokens(line.take(cursor)).last().len()) as usize,
                    end: cursor as usize,
                },
            ),
        ),
{
    let typed = line.take(cursor);
    assert(is_blank(typed[n]));
    assert forall|k: int| 0 <= k < n implies !is_blank(typed[k]) by {
        assert(typed[k] == line[k]);
    }
    lemma_first_token(typed, n);
    assert(typed.take(n) =~= line.take(n));
    lemma_walk_stays_within(tree, tokens(typed), root);
    assert(has_blank(typed));
}

proof fn lemma_values_for_span(
    values: Seq<PossibleValueView>,
    search: Seq<u8>,
    span: Span,
)
    ensures
        all_for_span(value_candidates(values, search, span), span),
    decreases values.len(),
{
    if values.len() > 0 {
        lemma_values_for_span(values.drop_last(), search, span);
    }
}

proof fn lemma_arguments_for_span(
    args: Seq<ArgumentView>,
    search: Seq<u8>,
    span: Span,
)
    ensures
        all_for_span(arguments_candidates(args, search, span), span),
    decreases args.len(),
{
    if args.len() > 0 {
        lemma_arguments_for_span(args.drop_last(), search, span);
        lemma_values_for_span(args.last().possible_values, search, span);
    }
}

proof fn lemma_subcommands_for_span(subs: Seq<CommandView>, search: Seq<u8>, span: Span)
    ensures
        all_for_span(subcommand_candidates(subs, search, span), span),
    decreases subs.len(),
{
    if subs.len() > 0 {
        lemma_subcommands_for_span(subs.drop_last(), search, span);
    }
}

proof fn lemma_commands_for_span(tree: Seq<CommandView>, search: Seq<u8>, span: Span)
    ensures
        all_for_span(command_candidates(tree, search, span), span),
    decreases tree.len(),
{
    if tree.len() > 0 {
        lemma_commands_for_span(tree.drop_last(), search, span);
    }
}

proof fn lemma_collapse_for_span(list: Seq<SuggestionView>, span: Span)
    requires
        all_for_span(list, span),
    ensures
        all_for_span(collapse(list), span),
{
    lemma_collapse(list);
    assert forall|i: int| 0 <= i < collapse(list).len() implies (#[trigger] collapse(
        list,
    )[i]).span == span && collapse(list)[i].append_whitespace by {
        assert(list.contains(collapse(list)[i]));
        let k = choose|k: int| 0 <= k < list.len() && list[k] == collapse(list)[i];
        assert(list[k].span == span);
    }
}

/// Every candidate that completion returns replaces a span that ends at the
/// cursor and starts at or before it, all candidates of one answer replace
/// the same span, and no two of them put the same text there.
pub proof fn lemma_completion_spans(tree: Seq<CommandView>, line: Seq<u8>, cursor: int)
    requires
        cursor <= usize::MAX,
    ensures
        distinct_targets(completions(tree, line, cursor)),
        forall|i: int|
            0 <= i < completions(tree, line, cursor).len() ==> {
                let s = #[trigger] completions(tree, line, cursor)[i];
                &&& 0 <= s.span.start <= s.span.end == cursor
                &&& s.span == completions(tree, line, cursor)[0].span
                &&& s.append_whitespace
            },
{
    if cursor_in_line(line, cursor) {
        let typed = line.take(cursor);
        if !has_blank(typed) {
            let span = Span { start: 0, end: cursor as usize };
            let list = first_token_candidates(tree, typed, span);
            lemma_commands_for_span(tree, typed, span);
            assert(all_for_span(list, span));
            lemma_collapse_for_span(list, span);
            lemma_collapse(list);
        } else {
            match walk(tree, tokens(typed)) {
                None => {},
                Some(reached) => {
                    let search = tokens(typed).last();
                    lemma_tokens_last(typed);
                    lemma_last_token_start_bounds(typed);
                    let span = Span {
                        start: (cursor - search.len()) as usize,
                        end: cursor as usize,
                    };
                    let list = node_candidates(reached.node, search, span);
                    lemma_arguments_for_span(reached.node.arguments, search, span);
                    lemma_subcommands_for_span(reached.node.subcommands, search, span);
                    assert(all_for_span(list, span));
                    lemma_collapse_for_span(list, span);
                    lemma_collapse(list);
                },
            }
        }
    }
}

/// A callback's result is shown as it is and never ends the session: a
/// produced text is the only line shown, no text shows nothing, and an error
/// shows its message on the error stream and the next line is read.
pub proof fn lemma_callback_result_is_shown(
    s: EngineView,
    command: usize,
    callback: usize,
    text: String,
)
    requires
        s.pending == (Action::Invoke { command, callback }),
    ensures
        react(s, Event::CallbackDone(Some(text))).output == seq![OutputView::Line(text@)],
        react(s, Event::CallbackDone(None)).output == Seq::<OutputView>::empty(),
        react(s, Event::CallbackFailed(text)).output == seq![OutputView::Error(text@)],
        react(s, Event::CallbackFailed(text)).next == Action::ReadLine,
        react(s, Event::CallbackDone(Some(text))).next != Action::Stop,
        react(s, Event::CallbackDone(None)).next != Action::Stop,
        state_after(s, Event::CallbackDone(Some(text))).outcome is None,
        state_after(s, Event::CallbackDone(None)).outcome is None,
        state_after(s, Event::CallbackFailed(text)).outcome is None,
{
}

/// A command of the tree without a callback is reported on the error stream
/// and the session goes on with the next line.
pub proof fn lemma_unbound_command_keeps_session(s: EngineView, command: usize)
    requires
        state_well_formed(s),
        s.pending == (Action::Parse { command }),
        bound_position(s.bound, s.tree[command as int].name) is None,
    ensures
        react(s, Event::Parsed).output == seq![
            OutputView::Error(unbound_message(s.tree[command as int].name)),
        ],
        react(s, Event::Parsed).next == Action::ReadLine,
        state_after(s, Event::Parsed).outcome is None,
        state_well_formed(state_after(s, Event::Parsed)),
{
}

/// A session ends only when the user asks to leave, when the input is
/// exhausted or fails, or when a hook abandons it. Nothing that a command
/// does, and no line, ends it.
pub proof fn lemma_session_ends_only_on_request(s: EngineView, event: Event)
    requires
        s.pending != Action::Stop,
        react(s, event).next == Action::Stop,
    ensures
        event is Quit || event is EndOfStream || event is InputFailed || event is HookAborted,
        event is HookAborted ==> s.pending is RunBeforeHook || s.pending is RunAfterHook,
        !(event is HookAborted) ==> s.pending == Action::ReadLine,
{
}

/// A session that is over stays over, and shows nothing more.
pub proof fn lemma_ended_session_stays_ended(s: EngineView, event: Event)
    requires
        s.pending == Action::Stop,
    ensures
        state_after(s, event) == s,
        react(s, event).output == Seq::<OutputView>::empty(),
{
}

/// Every step of a well-formed engine leaves it well formed.
pub proof fn lemma_step_keeps_well_formed(s: EngineView, event: Event)
    requires
        state_well_formed(s),
    ensures
        state_well_formed(state_after(s, event)),
{
    match (s.pending, event) {
        (Action::ReadLine, Event::Line(text)) => {
            let w = words(encode_utf8(text@));
            if w.len() > 0 && w[0] != encode_utf8("help"@) {
                lemma_lookup_finds_member(s.tree, w[0], 0);
            }
        },
        (Action::Parse { command }, Event::Parsed) => {
            lemma_bound_from(s.bound, s.tree[command as int].name, 0);
        },
        _ => {},
    }
}

} // verus!
