//! The completion resolver: from a line and a cursor to the candidates for
//! the token under the cursor.
//!
//! The line is read as UTF-8 bytes and the cursor is a byte offset into it.
//! Only the text before the cursor takes part. While that text holds no
//! whitespace the first token is being typed, and the top-level commands are
//! offered. Otherwise the tokens are walked from the left to the deepest
//! command they name, and what that command accepts next is offered.

use crate::command::{
    node_views, text_view, ArgumentSpec, ArgumentView, CommandNode, CommandTree, CommandView,
    PossibleValue, PossibleValueView,
};
use crate::suggestion::{
    candidate, collapse, copy_text, dedup, suggestion_views, Span, Suggestion, SuggestionView,
};
use crate::text::{
    contains_blank, has_blank, is_prefix, last_token_start,
    lemma_last_token_start_is, lemma_tokens_last, same_bytes, starts_with, tokens, blank, is_blank,
};
use vstd::prelude::*;
use vstd::slice::slice_subrange;
use vstd::string::*;
use vstd::utf8::{encode_utf8, is_char_boundary};

verus! {

/// `value`, written in UTF-8, begins with `search`.
pub open spec fn offers(value: Seq<char>, search: Seq<u8>) -> bool {
    is_prefix(search, encode_utf8(value))
}

/// Index of the first node from `from` on whose name, written in UTF-8, is
/// exactly `token`.
pub open spec fn position_from(nodes: Seq<CommandView>, token: Seq<u8>, from: int) -> Option<int>
    decreases nodes.len() - from,
{
    if from < 0 || from >= nodes.len() {
        None
    } else if encode_utf8(nodes[from].name) == token {
        Some(from)
    } else {
        position_from(nodes, token, from + 1)
    }
}

/// The first of `nodes` that is called `token`.
pub open spec fn lookup(nodes: Seq<CommandView>, token: Seq<u8>) -> Option<CommandView> {
    match position_from(nodes, token, 0) {
        Some(i) => Some(nodes[i]),
        None => None,
    }
}

/// Model of a [`Resolution`].
pub struct ResolutionView {
    pub node: CommandView,
    pub token_index: int,
}

/// How one token moves the walk on. Before any command is found the token
/// is looked up among the top-level commands; afterwards among the
/// sub-commands of the command reached. A token that names nothing leaves
/// the walk where it is.
pub open spec fn step(
    tree: Seq<CommandView>,
    before: Option<ResolutionView>,
    token: Seq<u8>,
    index: int,
) -> Option<ResolutionView> {
    match before {
        Some(reached) => match lookup(reached.node.subcommands, token) {
            Some(child) => Some(ResolutionView { node: child, token_index: index }),
            None => before,
        },
        None => match lookup(tree, token) {
            Some(command) => Some(ResolutionView { node: command, token_index: index }),
            None => None,
        },
    }
}

/// The deepest command that `toks` name, walked from the left, with the
/// index of the token that named it.
pub open spec fn walk(tree: Seq<CommandView>, toks: Seq<Seq<u8>>) -> Option<ResolutionView>
    decreases toks.len(),
{
    if toks.len() == 0 {
        None
    } else {
        step(tree, walk(tree, toks.drop_last()), toks.last(), toks.len() - 1)
    }
}

/// The enumerated values that `search` begins, in order.
pub open spec fn value_candidates(
    values: Seq<PossibleValueView>,
    search: Seq<u8>,
    span: Span,
) -> Seq<SuggestionView>
    decreases values.len(),
{
    if values.len() == 0 {
        Seq::empty()
    } else {
        let rest = value_candidates(values.drop_last(), search, span);
        let value = values.last();
        if offers(value.name, search) {
            rest.push(candidate(value.name, value.help, span))
        } else {
            rest
        }
    }
}

/// The long flag as it is typed: two dashes and the word.
pub open spec fn long_flag(word: Seq<char>) -> Seq<char> {
    "--"@ + word
}

/// The short flag as it is typed: a dash and the letter.
pub open spec fn short_flag(letter: char) -> Seq<char> {
    "-"@.push(letter)
}

/// The long flag of `arg`, where it has one that `search` begins.
pub open spec fn long_candidates(arg: ArgumentView, search: Seq<u8>, span: Span) -> Seq<
    SuggestionView,
> {
    match arg.long {
        Some(word) if offers(long_flag(word), search) => seq![
            candidate(long_flag(word), arg.help, span),
        ],
        _ => Seq::empty(),
    }
}

/// The short flag of `arg`, where it has one that `search` begins.
pub open spec fn short_candidates(arg: ArgumentView, search: Seq<u8>, span: Span) -> Seq<
    SuggestionView,
> {
    match arg.short {
        Some(letter) if offers(short_flag(letter), search) => seq![
            candidate(short_flag(letter), arg.help, span),
        ],
        _ => Seq::empty(),
    }
}

/// What one argument contributes: its matching values, then its long flag,
/// then its short flag. A global argument contributes nothing.
pub open spec fn argument_candidates(arg: ArgumentView, search: Seq<u8>, span: Span) -> Seq<
    SuggestionView,
> {
    if arg.global {
        Seq::empty()
    } else {
        value_candidates(arg.possible_values, search, span) + long_candidates(arg, search, span)
            + short_candidates(arg, search, span)
    }
}

/// What the arguments contribute, in declaration order.
pub open spec fn arguments_candidates(
    args: Seq<ArgumentView>,
    search: Seq<u8>,
    span: Span,
) -> Seq<SuggestionView>
    decreases args.len(),
{
    if args.len() == 0 {
        Seq::empty()
    } else {
        arguments_candidates(args.drop_last(), search, span) + argument_candidates(
            args.last(),
            search,
            span,
        )
    }
}

/// The sub-commands whose names `search` begins, in declaration order.
pub open spec fn subcommand_candidates(
    subs: Seq<CommandView>,
    search: Seq<u8>,
    span: Span,
) -> Seq<SuggestionView>
    decreases subs.len(),
{
    if subs.len() == 0 {
        Seq::empty()
    } else {
        let rest = subcommand_candidates(subs.drop_last(), search, span);
        let sub = subs.last();
        if offers(sub.name, search) {
            rest.push(candidate(sub.name, sub.after_help, span))
        } else {
            rest
        }
    }
}

/// The candidates below a resolved command: those of its arguments, then its
/// sub-commands.
pub open spec fn node_candidates(node: CommandView, search: Seq<u8>, span: Span) -> Seq<
    SuggestionView,
> {
    arguments_candidates(node.arguments, search, span) + subcommand_candidates(
        node.subcommands,
        search,
        span,
    )
}

/// The top-level commands whose names `search` begins, in registration order.
pub open spec fn command_candidates(
    tree: Seq<CommandView>,
    search: Seq<u8>,
    span: Span,
) -> Seq<SuggestionView>
    decreases tree.len(),
{
    if tree.len() == 0 {
        Seq::empty()
    } else {
        let rest = command_candidates(tree.drop_last(), search, span);
        let command = tree.last();
        if offers(command.name, search) {
            rest.push(candidate(command.name, command.about, span))
        } else {
            rest
        }
    }
}

/// The built-in `help` command, where `search` begins it.
pub open spec fn help_candidates(search: Seq<u8>, span: Span) -> Seq<SuggestionView> {
    if offers("help"@, search) {
        seq![candidate("help"@, Some("show help"@), span)]
    } else {
        Seq::empty()
    }
}

/// The candidates for the first token: the matching top-level commands, then
/// `help`.
pub open spec fn first_token_candidates(
    tree: Seq<CommandView>,
    search: Seq<u8>,
    span: Span,
) -> Seq<SuggestionView> {
    command_candidates(tree, search, span) + help_candidates(search, span)
}

/// The cursor sits inside the line, between two characters or at an end.
pub open spec fn cursor_in_line(line: Seq<u8>, cursor: int) -> bool {
    0 <= cursor <= line.len() && is_char_boundary(line, cursor)
}

/// What completion returns for `line` with the cursor at byte `cursor`.
///
/// Nothing is offered for a cursor outside the line or inside a character,
/// nor where the text before the cursor holds a separator and names no
/// command. The span of every candidate covers the last token before the
/// cursor.
pub open spec fn completions(tree: Seq<CommandView>, line: Seq<u8>, cursor: int) -> Seq<
    SuggestionView,
> {
    if !cursor_in_line(line, cursor) {
        Seq::empty()
    } else {
        let typed = line.take(cursor);
        if !has_blank(typed) {
            collapse(first_token_candidates(tree, typed, Span { start: 0, end: cursor as usize }))
        } else {
            match walk(tree, tokens(typed)) {
                None => Seq::empty(),
                Some(reached) => {
                    let search = tokens(typed).last();
                    collapse(
                        node_candidates(
                            reached.node,
                            search,
                            Span { start: (cursor - search.len()) as usize, end: cursor as usize },
                        ),
                    )
                },
            }
        }
    }
}

/// The walk over a text whose last token starts at `start` is the walk over
/// the text before that token's separator, moved on by the token.
pub proof fn lemma_walk_last_token(tree: Seq<CommandView>, s: Seq<u8>, start: int)
    requires
        0 <= start <= s.len(),
        start > 0 ==> is_blank(s[start - 1]),
        forall|k: int| start <= k < s.len() ==> !is_blank(s[k]),
    ensures
        last_token_start(s) == start,
        tokens(s).last() == s.subrange(start, s.len() as int),
        start == 0 ==> tokens(s).len() == 1 && walk(tree, tokens(s)) == step(
            tree,
            None,
            s.subrange(start, s.len() as int),
            0,
        ),
        start > 0 ==> tokens(s).len() == tokens(s.subrange(0, start - 1)).len() + 1 && walk(
            tree,
            tokens(s),
        ) == step(
            tree,
            walk(tree, tokens(s.subrange(0, start - 1))),
            s.subrange(start, s.len() as int),
            tokens(s.subrange(0, start - 1)).len() as int,
        ),
{
    lemma_last_token_start_is(s, start);
    lemma_tokens_last(s);
    if start == 0 {
        reveal_with_fuel(walk, 2);
        assert(tokens(s) == seq![s]);
        assert(tokens(s).drop_last() =~= Seq::<Seq<u8>>::empty());
        assert(s.subrange(0, s.len() as int) =~= s);
    } else {
        let head = tokens(s.subrange(0, start - 1));
        lemma_tokens_last(s.subrange(0, start - 1));
        assert(tokens(s) == head.push(s.subrange(start, s.len() as int)));
        assert(tokens(s).drop_last() =~= head);
    }
}

/// The deepest command that a line names, and the token that named it.
pub struct Resolution<'a> {
    pub node: &'a CommandNode,
    /// Index, among the tokens of the text, of the token that named `node`.
    pub token_index: usize,
}

impl<'a> View for Resolution<'a> {
    type V = ResolutionView;

    open spec fn view(&self) -> ResolutionView {
        ResolutionView { node: self.node@, token_index: self.token_index as int }
    }
}

/// Model of an optional resolution.
pub open spec fn resolution_view(r: Option<Resolution<'_>>) -> Option<ResolutionView> {
    match r {
        Some(reached) => Some(reached@),
        None => None,
    }
}

/// Decides whether `value` begins with `search`.
pub fn begins(value: &str, search: &[u8]) -> (r: bool)
    ensures
        r == offers(value@, search@),
{
    starts_with(value.as_bytes(), search)
}

/// Finds the index of the first of `nodes` that is called `token`.
pub fn position_of(nodes: &Vec<CommandNode>, token: &[u8]) -> (r: Option<usize>)
    ensures
        match r {
            Some(i) => i < nodes@.len() && position_from(node_views(nodes@), token@, 0) == Some(
                i as int,
            ),
            None => position_from(node_views(nodes@), token@, 0) is None,
        },
{
    let ghost views = node_views(nodes@);
    let mut i: usize = 0;
    while i < nodes.len()
        invariant
            i <= nodes@.len(),
            views == node_views(nodes@),
            position_from(views, token@, 0) == position_from(views, token@, i as int),
        decreases nodes@.len() - i,
    {
        assert(views[i as int] == nodes@[i as int]@);
        if same_bytes(nodes[i].name.as_str().as_bytes(), token) {
            return Some(i);
        }
        i += 1;
    }
    None
}

/// Finds the first of `nodes` that is called `token`.
pub fn find_command<'a>(nodes: &'a Vec<CommandNode>, token: &[u8]) -> (r: Option<&'a CommandNode>)
    ensures
        match r {
            Some(node) => lookup(node_views(nodes@), token@) == Some(node@),
            None => lookup(node_views(nodes@), token@) is None,
        },
{
    match position_of(nodes, token) {
        Some(i) => {
            assert(node_views(nodes@)[i as int] == nodes@[i as int]@);
            Some(&nodes[i])
        },
        None => None,
    }
}

/// Moves a walk on by one token: see [`step`].
pub fn advance<'a>(
    tree: &'a Vec<CommandNode>,
    before: Option<Resolution<'a>>,
    token: &[u8],
    index: usize,
) -> (r: Option<Resolution<'a>>)
    ensures
        resolution_view(r) == step(
            node_views(tree@),
            resolution_view(before),
            token@,
            index as int,
        ),
{
    match before {
        Some(reached) => match find_command(&reached.node.subcommands, token) {
            Some(child) => Some(Resolution { node: child, token_index: index }),
            None => Some(reached),
        },
        None => match find_command(tree, token) {
            Some(command) => Some(Resolution { node: command, token_index: index }),
            None => None,
        },
    }
}

/// Walks the tokens of `typed` from the left and returns the deepest command
/// they name, together with the offset at which the last token begins.
pub fn resolve<'a>(tree: &'a Vec<CommandNode>, typed: &[u8]) -> (r: (Option<Resolution<'a>>, usize))
    ensures
        resolution_view(r.0) == walk(node_views(tree@), tokens(typed@)),
        r.1 == last_token_start(typed@),
        r.1 <= typed@.len(),
{
    let ghost views = node_views(tree@);
    let mut reached: Option<Resolution<'a>> = None;
    let mut start: usize = 0;
    let mut count: usize = 0;
    let mut i: usize = 0;
    while i < typed.len()
        invariant
            start <= i <= typed@.len(),
            count <= start,
            views == node_views(tree@),
            start > 0 ==> is_blank(typed@[start - 1]),
            forall|k: int| start <= k < i ==> !is_blank(typed@[k]),
            start == 0 ==> reached is None && count == 0,
            start > 0 ==> resolution_view(reached) == walk(
                views,
                tokens(typed@.take(start - 1)),
            ) && count == tokens(typed@.take(start - 1)).len(),
        decreases typed@.len() - i,
    {
        if blank(typed[i]) {
            let token = slice_subrange(typed, start, i);
            proof {
                let s = typed@.take(i as int);
                if start > 0 {
                    assert(s.subrange(0, start - 1) =~= typed@.take(start - 1));
                }
                assert(s.subrange(start as int, s.len() as int) =~= token@);
                lemma_walk_last_token(views, s, start as int);
            }
            reached = advance(tree, reached, token, count);
            count += 1;
            start = i + 1;
        }
        i += 1;
    }
    let token = slice_subrange(typed, start, typed.len());
    proof {
        if start > 0 {
            assert(typed@.subrange(0, start - 1) =~= typed@.take(start - 1));
        }
        lemma_walk_last_token(views, typed@, start as int);
    }
    reached = advance(tree, reached, token, count);
    (reached, start)
}

/// Appends one character to a text.
///
/// Stands for `String::push` of the standard library, which is trusted to
/// add exactly the given character at the end.
#[verifier::external_body]
fn push_char(text: &mut String, c: char)
    ensures
        final(text)@ == old(text)@.push(c),
{
    text.push(c)
}

/// Resolves completions against a command tree that it only reads.
pub struct ReplCompleter<'a> {
    tree: &'a CommandTree,
}

impl<'a> ReplCompleter<'a> {
    /// The commands that completion is resolved against.
    pub closed spec fn commands(&self) -> Seq<CommandView> {
        self.tree@
    }

    /// A completer over `tree`.
    pub fn new(tree: &'a CommandTree) -> (r: ReplCompleter<'a>)
        ensures
            r.commands() == tree@,
    {
        ReplCompleter { tree }
    }

    /// The suggestion that offers `value` for `span`. A space is to follow
    /// the value once the user accepts it.
    pub fn build_suggestion(&self, value: &str, help: &Option<String>, span: Span) -> (r:
        Suggestion)
        ensures
            r@ == candidate(value@, text_view(*help), span),
    {
        Suggestion {
            value: String::from_str(value),
            description: copy_text(help),
            span,
            append_whitespace: true,
        }
    }

    /// Adds to `out` the enumerated values of `values` that `search` begins.
    fn push_values(
        &self,
        values: &Vec<PossibleValue>,
        search: &[u8],
        span: Span,
        out: &mut Vec<Suggestion>,
    )
        ensures
            suggestion_views(final(out)@) == suggestion_views(old(out)@) + value_candidates(
                values@.map_values(|v: PossibleValue| v@),
                search@,
                span,
            ),
    {
        let ghost views = values@.map_values(|v: PossibleValue| v@);
        let ghost base = suggestion_views(out@);
        let mut i: usize = 0;
        assert(views.take(0) =~= Seq::empty());
        assert(base + Seq::empty() =~= base);
        while i < values.len()
            invariant
                i <= values@.len(),
                views == values@.map_values(|v: PossibleValue| v@),
                suggestion_views(out@) == base + value_candidates(
                    views.take(i as int),
                    search@,
                    span,
                ),
            decreases values@.len() - i,
        {
            let ghost before = out@;
            assert(views.take(i + 1).drop_last() =~= views.take(i as int));
            assert(views.take(i + 1).last() == values@[i as int]@);
            if begins(values[i].name.as_str(), search) {
                let item = self.build_suggestion(values[i].name.as_str(), &values[i].help, span);
                out.push(item);
                assert(suggestion_views(out@) =~= suggestion_views(before).push(item@));
                assert(suggestion_views(out@) =~= base + value_candidates(
                    views.take(i + 1),
                    search@,
                    span,
                ));
            }
            i += 1;
        }
        assert(views.take(values@.len() as int) =~= views);
    }

    /// Adds to `out` what `arg` contributes: see [`argument_candidates`].
    fn push_argument(
        &self,
        arg: &ArgumentSpec,
        search: &[u8],
        span: Span,
        out: &mut Vec<Suggestion>,
    )
        ensures
            suggestion_views(final(out)@) == suggestion_views(old(out)@) + argument_candidates(
                arg@,
                search@,
                span,
            ),
    {
        let ghost base = suggestion_views(out@);
        if arg.global {
            assert(base + Seq::empty() =~= base);
            return ;
        }
        self.push_values(&arg.possible_values, search, span, out);
        let ghost with_values = suggestion_views(out@);
        match &arg.long {
            Some(word) => {
                let mut value = String::from_str("--");
                value.append(word.as_str());
                if begins(value.as_str(), search) {
                    let ghost before = out@;
                    let item = self.build_suggestion(value.as_str(), &arg.help, span);
                    out.push(item);
                    assert(suggestion_views(out@) =~= suggestion_views(before).push(item@));
                }
            },
            None => {},
        }
        assert(suggestion_views(out@) =~= with_values + long_candidates(arg@, search@, span));
        let ghost with_long = suggestion_views(out@);
        match arg.short {
            Some(letter) => {
                let mut value = String::from_str("-");
                push_char(&mut value, letter);
                if begins(value.as_str(), search) {
                    let ghost before = out@;
                    let item = self.build_suggestion(value.as_str(), &arg.help, span);
                    out.push(item);
                    assert(suggestion_views(out@) =~= suggestion_views(before).push(item@));
                }
            },
            None => {},
        }
        assert(suggestion_views(out@) =~= with_long + short_candidates(arg@, search@, span));
        assert(suggestion_views(out@) =~= base + argument_candidates(arg@, search@, span));
    }

    /// The candidates below `command` that `search` begins: for each
    /// argument that is not global its matching values, its long flag and
    /// its short flag, then the matching sub-commands. Repeated candidates
    /// are still in the list.
    pub fn parameter_values_starting_with(
        &self,
        command: &CommandNode,
        search: &[u8],
        span: Span,
    ) -> (r: Vec<Suggestion>)
        ensures
            suggestion_views(r@) == node_candidates(command@, search@, span),
    {
        let mut out: Vec<Suggestion> = Vec::new();
        let ghost args = command@.arguments;
        let ghost subs = command@.subcommands;
        assert(suggestion_views(out@) =~= Seq::empty());
        assert(args.take(0) =~= Seq::empty());
        let mut i: usize = 0;
        while i < command.arguments.len()
            invariant
                i <= command.arguments@.len(),
                args == command@.arguments,
                args == command.arguments@.map_values(|a: ArgumentSpec| a@),
                suggestion_views(out@) == arguments_candidates(args.take(i as int), search@, span),
            decreases command.arguments@.len() - i,
        {
            assert(args.take(i + 1).drop_last() =~= args.take(i as int));
            assert(args.take(i + 1).last() == command.arguments@[i as int]@);
            self.push_argument(&command.arguments[i], search, span, &mut out);
            i += 1;
        }
        assert(args.take(command.arguments@.len() as int) =~= args);
        let ghost from_args = suggestion_views(out@);
        assert(subs.take(0) =~= Seq::empty());
        assert(from_args + Seq::empty() =~= from_args);
        let mut j: usize = 0;
        while j < command.subcommands.len()
            invariant
                j <= command.subcommands@.len(),
                subs == command@.subcommands,
                subs == node_views(command.subcommands@),
                suggestion_views(out@) == from_args + subcommand_candidates(
                    subs.take(j as int),
                    search@,
                    span,
                ),
            decreases command.subcommands@.len() - j,
        {
            let ghost before = out@;
            assert(subs.take(j + 1).drop_last() =~= subs.take(j as int));
            assert(subs.take(j + 1).last() == command.subcommands@[j as int]@);
            let sub = &command.subcommands[j];
            if begins(sub.name.as_str(), search) {
                let item = self.build_suggestion(sub.name.as_str(), &sub.after_help, span);
                out.push(item);
                assert(suggestion_views(out@) =~= suggestion_views(before).push(item@));
                assert(suggestion_views(out@) =~= from_args + subcommand_candidates(
                    subs.take(j + 1),
                    search@,
                    span,
                ));
            }
            j += 1;
        }
        assert(subs.take(command.subcommands@.len() as int) =~= subs);
        out
    }

    /// The candidates for the first token: the top-level commands whose
    /// names `search` begins, in registration order, then `help` where
    /// `search` begins it. Repeated candidates are still in the list.
    pub fn commands_starting_with(&self, search: &[u8], span: Span) -> (r: Vec<Suggestion>)
        ensures
            suggestion_views(r@) == first_token_candidates(self.commands(), search@, span),
    {
        let commands = self.tree.commands();
        let ghost views = node_views(commands@);
        let mut out: Vec<Suggestion> = Vec::new();
        assert(suggestion_views(out@) =~= Seq::empty());
        assert(views.take(0) =~= Seq::empty());
        let mut i: usize = 0;
        while i < commands.len()
            invariant
                i <= commands@.len(),
                views == node_views(commands@),
                suggestion_views(out@) == command_candidates(views.take(i as int), search@, span),
            decreases commands@.len() - i,
        {
            let ghost before = out@;
            assert(views.take(i + 1).drop_last() =~= views.take(i as int));
            assert(views.take(i + 1).last() == commands@[i as int]@);
            let command = &commands[i];
            if begins(command.name.as_str(), search) {
                let item = self.build_suggestion(command.name.as_str(), &command.about, span);
                out.push(item);
                assert(suggestion_views(out@) =~= suggestion_views(before).push(item@));
            }
            i += 1;
        }
        assert(views.take(commands@.len() as int) =~= views);
        let ghost from_commands = suggestion_views(out@);
        if begins("help", search) {
            let help = Some(String::from_str("show help"));
            let item = self.build_suggestion("help", &help, span);
            let ghost before = out@;
            out.push(item);
            assert(suggestion_views(out@) =~= suggestion_views(before).push(item@));
        }
        assert(suggestion_views(out@) =~= from_commands + help_candidates(search@, span));
        out
    }

    /// The completions for `line` with the cursor at byte `pos`: see
    /// [`completions`]. The tree is only read, and the result depends on
    /// nothing but the tree, the line and the cursor. Every span ends at the
    /// cursor.
    pub fn complete(&self, line: &str, pos: usize) -> (r: Vec<Suggestion>)
        ensures
            suggestion_views(r@) == completions(self.commands(), line.spec_bytes(), pos as int),
            forall|i: int|
                0 <= i < r@.len() ==> (#[trigger] r@[i]).span.start <= r@[i].span.end == pos,
    {
        let r = self.answer(line, pos);
        proof {
            crate::guarantees::lemma_completion_spans(
                self.commands(),
                line.spec_bytes(),
                pos as int,
            );
            assert forall|i: int| 0 <= i < r@.len() implies (#[trigger] r@[i]).span.start
                <= r@[i].span.end == pos by {
                assert(suggestion_views(r@)[i] == r@[i]@);
            }
        }
        r
    }

    /// Computes the completions: see [`completions`].
    fn answer(&self, line: &str, pos: usize) -> (r: Vec<Suggestion>)
        ensures
            suggestion_views(r@) == completions(self.commands(), line.spec_bytes(), pos as int),
    {
        let bytes = line.as_bytes();
        if pos > bytes.len() || !line.is_char_boundary(pos) {
            let none: Vec<Suggestion> = Vec::new();
            assert(suggestion_views(none@) =~= Seq::empty());
            return none;
        }
        let typed = slice_subrange(bytes, 0, pos);
        assert(typed@ =~= line.spec_bytes().take(pos as int));
        if !contains_blank(typed) {
            return dedup(self.commands_starting_with(typed, Span { start: 0, end: pos }));
        }
        let (reached, start) = resolve(self.tree.commands(), typed);
        proof {
            lemma_tokens_last(typed@);
        }
        match reached {
            Some(found) => {
                let search = slice_subrange(typed, start, pos);
                dedup(
                    self.parameter_values_starting_with(
                        found.node,
                        search,
                        Span { start, end: pos },
                    ),
                )
            },
            None => {
                let none: Vec<Suggestion> = Vec::new();
                assert(suggestion_views(none@) =~= Seq::empty());
                none
            },
        }
    }
}

} // verus!
