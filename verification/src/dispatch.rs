//! The decisions of the dispatch loop.
//!
//! The engine owns the command tree and the callback registry and decides,
//! turn by turn, what is done next. Whoever drives it performs each action
//! (reads a line, has the grammar judge the arguments, runs a hook or a
//! callback) and reports what came of it as an event. The engine answers
//! with what is to be printed and with the next action.

use crate::command::{CommandTree, CommandView};
use crate::completer::{position_from, position_of};
use crate::registry::{bound_position, CallbackRegistry};
use crate::text::{blank, is_blank, same_bytes};
use vstd::prelude::*;
use vstd::slice::{slice_subrange, slice_to_vec};
use vstd::string::*;
use vstd::utf8::encode_utf8;

verus! {

/// Offset at which the last word of `s` begins, or the length of `s` where
/// it ends in a blank.
pub open spec fn word_start(s: Seq<u8>) -> int
    decreases s.len(),
{
    if s.len() == 0 {
        0
    } else if is_blank(s.last()) {
        s.len() as int
    } else {
        word_start(s.drop_last())
    }
}

/// The words of `s`: its longest stretches without a blank, in order.
pub open spec fn words(s: Seq<u8>) -> Seq<Seq<u8>>
    decreases s.len(),
{
    if s.len() == 0 {
        Seq::empty()
    } else if is_blank(s.last()) {
        words(s.drop_last())
    } else {
        let start = word_start(s);
        if 0 <= start < s.len() {
            words(s.take(start)).push(s.subrange(start, s.len() as int))
        } else {
            Seq::empty()
        }
    }
}

/// A stretch without blanks that begins right behind a blank, or at the
/// beginning, is where the last word starts.
pub proof fn lemma_word_start_is(s: Seq<u8>, start: int)
    requires
        0 <= start < s.len(),
        start > 0 ==> is_blank(s[start - 1]),
        forall|k: int| start <= k < s.len() ==> !is_blank(s[k]),
    ensures
        word_start(s) == start,
    decreases s.len(),
{
    reveal_with_fuel(word_start, 2);
    let init = s.drop_last();
    if start < init.len() {
        assert(start > 0 ==> init[start - 1] == s[start - 1]);
        assert forall|k: int| start <= k < init.len() implies !is_blank(init[k]) by {
            assert(init[k] == s[k]);
        }
        lemma_word_start_is(init, start);
    } else if init.len() > 0 {
        assert(init.last() == s[start - 1]);
    }
}

/// Models of a list of words.
pub open spec fn word_views(list: Seq<Vec<u8>>) -> Seq<Seq<u8>> {
    list.map_values(|w: Vec<u8>| w@)
}

/// Splits a line into its words.
pub fn split_words(line: &[u8]) -> (r: Vec<Vec<u8>>)
    ensures
        word_views(r@) == words(line@),
{
    let mut out: Vec<Vec<u8>> = Vec::new();
    let mut i: usize = 0;
    assert(line@.take(0) =~= Seq::empty());
    assert(word_views(out@) =~= Seq::empty());
    while i < line.len()
        invariant
            i <= line@.len(),
            word_views(out@) == words(line@.take(i as int)),
            i < line@.len() && !is_blank(line@[i as int]) ==> i == 0 || is_blank(line@[i - 1]),
        decreases line@.len() - i,
    {
        if blank(line[i]) {
            assert(line@.take(i + 1).drop_last() =~= line@.take(i as int));
            i += 1;
        } else {
            let start = i;
            while i < line.len() && !blank(line[i])
                invariant
                    start <= i <= line@.len(),
                    start < line@.len(),
                    !is_blank(line@[start as int]),
                    forall|k: int| start <= k < i ==> !is_blank(line@[k]),
                decreases line@.len() - i,
            {
                i += 1;
            }
            let word = slice_to_vec(slice_subrange(line, start, i));
            proof {
                let s = line@.take(i as int);
                assert(s.last() == line@[i - 1]);
                lemma_word_start_is(s, start as int);
                assert(s.take(start as int) =~= line@.take(start as int));
                assert(s.subrange(start as int, s.len() as int) =~= word@);
            }
            let ghost before = out@;
            out.push(word);
            assert(word_views(out@) =~= word_views(before).push(word@));
        }
    }
    assert(line@.take(line@.len() as int) =~= line@);
    out
}

/// What the driver of the engine is to do next.
#[derive(Clone, Copy, Debug, PartialEq, Eq, Structural)]
pub enum Action {
    /// Read one line from the input.
    ReadLine,
    /// Have the grammar of the command at this index of the tree judge the
    /// words of the line.
    Parse { command: usize },
    /// Run the hook that precedes every command.
    RunBeforeHook { command: usize, callback: usize },
    /// Call the callback at this index of the registry with the parsed
    /// arguments of the command.
    Invoke { command: usize, callback: usize },
    /// Run the hook that follows every command.
    RunAfterHook,
    /// Leave the loop: the session is over.
    Stop,
}

/// What came of the last action.
#[derive(Clone, Debug, PartialEq, Eq)]
pub enum Event {
    /// A line was read.
    Line(String),
    /// The user asked to leave.
    Quit,
    /// The input is exhausted.
    EndOfStream,
    /// The input failed; the text says how.
    InputFailed(String),
    /// The grammar accepted the words.
    Parsed,
    /// The grammar refused the words; the text says why.
    SyntaxError(String),
    /// A hook ran and may have produced a line.
    HookDone(Option<String>),
    /// A hook asked for the session to be abandoned; the text says why.
    HookAborted(String),
    /// The callback succeeded and may have produced a line.
    CallbackDone(Option<String>),
    /// The callback failed; the text is its error message.
    CallbackFailed(String),
}

/// Why a session ended.
#[derive(Clone, Debug, PartialEq, Eq)]
pub enum Outcome {
    /// The user asked to leave.
    Quit,
    /// The input was exhausted.
    StreamEnded,
    /// The input failed.
    InputFailed(String),
    /// A hook abandoned the session.
    HookAborted(String),
}

/// Model of an [`Outcome`].
pub enum OutcomeView {
    Quit,
    StreamEnded,
    InputFailed(Seq<char>),
    HookAborted(Seq<char>),
}

impl View for Outcome {
    type V = OutcomeView;

    open spec fn view(&self) -> OutcomeView {
        match self {
            Outcome::Quit => OutcomeView::Quit,
            Outcome::StreamEnded => OutcomeView::StreamEnded,
            Outcome::InputFailed(text) => OutcomeView::InputFailed(text@),
            Outcome::HookAborted(text) => OutcomeView::HookAborted(text@),
        }
    }
}

/// Model of an optional outcome.
pub open spec fn outcome_view(outcome: Option<Outcome>) -> Option<OutcomeView> {
    match outcome {
        Some(o) => Some(o@),
        None => None,
    }
}

/// Something the driver is to show to the user.
#[derive(Clone, Debug, PartialEq, Eq)]
pub enum Output {
    /// A line for the output stream.
    Line(String),
    /// A line for the error stream.
    Error(String),
    /// The generated help: the overview where the topic is empty, else the
    /// help of the command that the topic names.
    Help(Vec<Vec<u8>>),
}

/// Model of an [`Output`].
pub enum OutputView {
    Line(Seq<char>),
    Error(Seq<char>),
    Help(Seq<Seq<u8>>),
}

impl View for Output {
    type V = OutputView;

    open spec fn view(&self) -> OutputView {
        match self {
            Output::Line(text) => OutputView::Line(text@),
            Output::Error(text) => OutputView::Error(text@),
            Output::Help(topic) => OutputView::Help(word_views(topic@)),
        }
    }
}

/// Models of a list of outputs, in order.
pub open spec fn output_views(list: Seq<Output>) -> Seq<OutputView> {
    list.map_values(|o: Output| o@)
}

/// The engine's answer to an event.
#[derive(Clone, Debug, PartialEq, Eq)]
pub struct Reaction {
    /// What is to be shown, in order, before the next action.
    pub output: Vec<Output>,
    pub next: Action,
}

/// Model of the engine.
pub struct EngineView {
    pub tree: Seq<CommandView>,
    /// The names that have a callback, in binding order.
    pub bound: Seq<Seq<char>>,
    pub before_hook: bool,
    pub after_hook: bool,
    /// The action whose event the engine is waiting for.
    pub pending: Action,
    /// The words of the line being dispatched.
    pub words: Seq<Seq<u8>>,
    pub outcome: Option<OutcomeView>,
}

/// What an event leads to: the next action, what is shown before it, and
/// what the engine keeps of the turn.
pub struct Turn {
    pub next: Action,
    pub output: Seq<OutputView>,
    pub words: Seq<Seq<u8>>,
    pub outcome: Option<OutcomeView>,
}

/// The turn is over: show `output`, then read the next line.
pub open spec fn turn_over(output: Seq<OutputView>) -> Turn {
    Turn { next: Action::ReadLine, output, words: Seq::empty(), outcome: None }
}

/// The session is over, for the reason given.
pub open spec fn session_over(outcome: OutcomeView) -> Turn {
    Turn { next: Action::Stop, output: Seq::empty(), words: Seq::empty(), outcome: Some(outcome) }
}

/// The line that a hook or a callback produced, if it produced one.
pub open spec fn produced(line: Option<String>) -> Seq<OutputView> {
    match line {
        Some(text) => seq![OutputView::Line(text@)],
        None => Seq::empty(),
    }
}

/// The message shown for a command of the tree that has no callback.
pub open spec fn unbound_message(name: Seq<char>) -> Seq<char> {
    "no callback is bound to command "@ + name
}

/// What a line leads to. A line without words is skipped. The word `help`
/// in front shows the help for the words behind it. A first word that names
/// no command shows the overview. Any other line goes to the grammar of the
/// command that its first word names.
pub open spec fn on_line(tree: Seq<CommandView>, line: Seq<u8>) -> Turn {
    let w = words(line);
    if w.len() == 0 {
        turn_over(Seq::empty())
    } else if w[0] == encode_utf8("help"@) {
        turn_over(seq![OutputView::Help(w.drop_first())])
    } else {
        match position_from(tree, w[0], 0) {
            Some(i) => Turn {
                next: Action::Parse { command: i as usize },
                output: Seq::empty(),
                words: w,
                outcome: None,
            },
            None => turn_over(seq![OutputView::Help(Seq::empty())]),
        }
    }
}

/// What follows once the grammar has accepted the words of `command`. A
/// command without a callback is reported on the error stream and the turn
/// ends. Otherwise the hook that precedes commands runs, where there is one,
/// and else the callback.
pub open spec fn on_parsed(s: EngineView, command: usize) -> Turn {
    match bound_position(s.bound, s.tree[command as int].name) {
        Some(c) => Turn {
            next: if s.before_hook {
                Action::RunBeforeHook { command, callback: c as usize }
            } else {
                Action::Invoke { command, callback: c as usize }
            },
            output: Seq::empty(),
            words: s.words,
            outcome: None,
        },
        None => turn_over(seq![OutputView::Error(unbound_message(s.tree[command as int].name))]),
    }
}

/// What the engine in state `s` makes of `event`.
///
/// An event answers the pending action. One that does not is ignored: the
/// same action stays pending and nothing is shown.
pub open spec fn react(s: EngineView, event: Event) -> Turn {
    match (s.pending, event) {
        (Action::ReadLine, Event::Line(text)) => on_line(s.tree, encode_utf8(text@)),
        (Action::ReadLine, Event::Quit) => session_over(OutcomeView::Quit),
        (Action::ReadLine, Event::EndOfStream) => session_over(OutcomeView::StreamEnded),
        (Action::ReadLine, Event::InputFailed(text)) => session_over(
            OutcomeView::InputFailed(text@),
        ),
        (Action::Parse { command }, Event::Parsed) => on_parsed(s, command),
        (Action::Parse { command }, Event::SyntaxError(text)) => turn_over(
            seq![OutputView::Error(text@)],
        ),
        (Action::RunBeforeHook { command, callback }, Event::HookDone(line)) => Turn {
            next: Action::Invoke { command, callback },
            output: produced(line),
            words: s.words,
            outcome: None,
        },
        (Action::RunBeforeHook { command, callback }, Event::HookAborted(text)) => session_over(
            OutcomeView::HookAborted(text@),
        ),
        (Action::Invoke { command, callback }, Event::CallbackDone(line)) => Turn {
            next: if s.after_hook {
                Action::RunAfterHook
            } else {
                Action::ReadLine
            },
            output: produced(line),
            words: Seq::empty(),
            outcome: None,
        },
        (Action::Invoke { command, callback }, Event::CallbackFailed(text)) => turn_over(
            seq![OutputView::Error(text@)],
        ),
        (Action::RunAfterHook, Event::HookDone(line)) => turn_over(produced(line)),
        (Action::RunAfterHook, Event::HookAborted(text)) => session_over(
            OutcomeView::HookAborted(text@),
        ),
        _ => Turn { next: s.pending, output: Seq::empty(), words: s.words, outcome: s.outcome },
    }
}

/// The state after `event`: the tree, the registry and the hooks stay, the
/// rest is as the turn says.
pub open spec fn state_after(s: EngineView, event: Event) -> EngineView {
    let turn = react(s, event);
    EngineView {
        tree: s.tree,
        bound: s.bound,
        before_hook: s.before_hook,
        after_hook: s.after_hook,
        pending: turn.next,
        words: turn.words,
        outcome: turn.outcome,
    }
}

/// What a well-formed engine state promises: the commands and the bound
/// names can be counted in a machine word; the pending action points at a
/// command of the tree, and at the callback bound to its name; words are
/// kept while a command is dispatched; the outcome is known exactly when the
/// session is over.
pub open spec fn state_well_formed(s: EngineView) -> bool {
    &&& s.tree.len() <= usize::MAX
    &&& s.bound.len() <= usize::MAX
    &&& match s.pending {
        Action::Parse { command } => command < s.tree.len() && s.words.len() >= 1,
        Action::RunBeforeHook { command, callback } => {
            &&& command < s.tree.len()
            &&& bound_position(s.bound, s.tree[command as int].name) == Some(callback as int)
            &&& callback < s.bound.len()
        },
        Action::Invoke { command, callback } => {
            &&& command < s.tree.len()
            &&& bound_position(s.bound, s.tree[command as int].name) == Some(callback as int)
            &&& callback < s.bound.len()
        },
        _ => true,
    }
    &&& s.pending == Action::Stop <==> s.outcome is Some
}

/// The dispatch engine of one session.
pub struct DispatchEngine<F> {
    tree: CommandTree,
    callbacks: CallbackRegistry<F>,
    before_hook: bool,
    after_hook: bool,
    pending: Action,
    words: Vec<Vec<u8>>,
    outcome: Option<Outcome>,
}

impl<F> View for DispatchEngine<F> {
    type V = EngineView;

    closed spec fn view(&self) -> EngineView {
        EngineView {
            tree: self.tree@,
            bound: self.callbacks.names(),
            before_hook: self.before_hook,
            after_hook: self.after_hook,
            pending: self.pending,
            words: word_views(self.words@),
            outcome: outcome_view(self.outcome),
        }
    }
}

impl<F> DispatchEngine<F> {
    /// The invariant of the engine.
    pub closed spec fn well_formed(&self) -> bool {
        &&& self.tree.well_formed()
        &&& self.callbacks.well_formed()
        &&& state_well_formed(self@)
    }

    /// The callbacks of the registry, in binding order.
    pub closed spec fn bound_callbacks(&self) -> Seq<F> {
        self.callbacks.callbacks()
    }

    /// Starts a session over `tree` and `callbacks`. From here on the tree
    /// and the registry are only read. The first action is to read a line.
    pub fn new(
        tree: CommandTree,
        callbacks: CallbackRegistry<F>,
        before_hook: bool,
        after_hook: bool,
    ) -> (r: DispatchEngine<F>)
        requires
            tree.well_formed(),
            callbacks.well_formed(),
        ensures
            r.well_formed(),
            r@ == (EngineView {
                tree: tree@,
                bound: callbacks.names(),
                before_hook,
                after_hook,
                pending: Action::ReadLine,
                words: Seq::empty(),
                outcome: None,
            }),
            r.bound_callbacks() == callbacks.callbacks(),
    {
        proof {
            tree.lemma_len_bounded();
            callbacks.lemma_len_bounded();
        }
        let r = DispatchEngine {
            tree,
            callbacks,
            before_hook,
            after_hook,
            pending: Action::ReadLine,
            words: Vec::new(),
            outcome: None,
        };
        assert(word_views(r.words@) =~= Seq::empty());
        r
    }

    /// The command tree.
    pub fn tree(&self) -> (r: &CommandTree)
        ensures
            r@ == self@.tree,
    {
        &self.tree
    }

    /// The callback registry.
    pub fn callbacks(&self) -> (r: &CallbackRegistry<F>)
        ensures
            r.names() == self@.bound,
            r.callbacks() == self.bound_callbacks(),
    {
        &self.callbacks
    }

    /// The action whose event the engine is waiting for.
    pub fn pending(&self) -> (r: Action)
        ensures
            r == self@.pending,
    {
        self.pending
    }

    /// The words of the line being dispatched, the name of the command
    /// first. Empty between two commands.
    pub fn words(&self) -> (r: &Vec<Vec<u8>>)
        ensures
            word_views(r@) == self@.words,
    {
        &self.words
    }

    /// Why the session ended, once it has.
    pub fn outcome(&self) -> (r: &Option<Outcome>)
        ensures
            outcome_view(*r) == self@.outcome,
    {
        &self.outcome
    }

    /// Whether the session is over.
    pub fn is_over(&self) -> (r: bool)
        ensures
            r == (self@.pending == Action::Stop),
    {
        self.pending == Action::Stop
    }

    /// Ends the turn: `output` is shown and the next line is read.
    fn finish_turn(&mut self, output: Vec<Output>) -> (r: Reaction)
        requires
            old(self).tree.well_formed(),
            old(self).callbacks.well_formed(),
        ensures
            final(self).well_formed(),
            final(self)@ == (EngineView {
                pending: Action::ReadLine,
                words: Seq::empty(),
                outcome: None,
                ..old(self)@
            }),
            final(self).bound_callbacks() == old(self).bound_callbacks(),
            r.output == output,
            r.next == Action::ReadLine,
    {
        proof {
            self.tree.lemma_len_bounded();
            self.callbacks.lemma_len_bounded();
        }
        self.pending = Action::ReadLine;
        self.words = Vec::new();
        self.outcome = None;
        assert(word_views(self.words@) =~= Seq::empty());
        Reaction { output, next: Action::ReadLine }
    }

    /// Ends the session for the reason given.
    fn end_session(&mut self, outcome: Outcome) -> (r: Reaction)
        requires
            old(self).tree.well_formed(),
            old(self).callbacks.well_formed(),
        ensures
            final(self).well_formed(),
            final(self)@ == (EngineView {
                pending: Action::Stop,
                words: Seq::empty(),
                outcome: Some(outcome@),
                ..old(self)@
            }),
            final(self).bound_callbacks() == old(self).bound_callbacks(),
            r.output@ == Seq::<Output>::empty(),
            r.next == Action::Stop,
    {
        proof {
            self.tree.lemma_len_bounded();
            self.callbacks.lemma_len_bounded();
        }
        self.pending = Action::Stop;
        self.words = Vec::new();
        self.outcome = Some(outcome);
        assert(word_views(self.words@) =~= Seq::empty());
        Reaction { output: Vec::new(), next: Action::Stop }
    }

    /// Leaves everything as it is and names the pending action again.
    fn keep_waiting(&self) -> (r: Reaction)
        ensures
            r.output@ == Seq::<Output>::empty(),
            r.next == self@.pending,
    {
        Reaction { output: Vec::new(), next: self.pending }
    }

    /// Shows the line that a hook or a callback produced, if any.
    fn show(line: Option<String>) -> (r: Vec<Output>)
        ensures
            output_views(r@) == produced(line),
    {
        let mut output: Vec<Output> = Vec::new();
        match line {
            Some(text) => {
                output.push(Output::Line(text));
                assert(output_views(output@) =~= seq![OutputView::Line(text@)]);
            },
            None => {
                assert(output_views(output@) =~= Seq::empty());
            },
        }
        output
    }

    /// Reports `text` on the error stream.
    fn complain(text: String) -> (r: Vec<Output>)
        ensures
            output_views(r@) == seq![OutputView::Error(text@)],
    {
        let mut output: Vec<Output> = Vec::new();
        output.push(Output::Error(text));
        assert(output_views(output@) =~= seq![OutputView::Error(text@)]);
        output
    }

    /// Shows the help for `topic`.
    fn help(topic: Vec<Vec<u8>>) -> (r: Vec<Output>)
        ensures
            output_views(r@) == seq![OutputView::Help(word_views(topic@))],
    {
        let mut output: Vec<Output> = Vec::new();
        output.push(Output::Help(topic));
        assert(output_views(output@) =~= seq![OutputView::Help(word_views(topic@))]);
        output
    }

    /// Decides what a line leads to: see [`on_line`].
    fn take_line(&mut self, text: String) -> (r: Reaction)
        requires
            old(self).well_formed(),
            old(self)@.pending == Action::ReadLine,
        ensures
            final(self).well_formed(),
            final(self)@ == state_after(old(self)@, Event::Line(text)),
            output_views(r.output@) == react(old(self)@, Event::Line(text)).output,
            r.next == react(old(self)@, Event::Line(text)).next,
            final(self).bound_callbacks() == old(self).bound_callbacks(),
    {
        let mut w = split_words(text.as_str().as_bytes());
        if w.len() == 0 {
            let nothing: Vec<Output> = Vec::new();
            assert(output_views(nothing@) =~= Seq::empty());
            return self.finish_turn(nothing);
        }
        assert(word_views(w@)[0] == w@[0]@);
        if same_bytes(w[0].as_slice(), "help".as_bytes()) {
            let ghost all = w@;
            w.remove(0);
            assert(word_views(w@) =~= word_views(all).drop_first());
            return self.finish_turn(Self::help(w));
        }
        match position_of(self.tree.commands(), w[0].as_slice()) {
            Some(i) => {
                self.pending = Action::Parse { command: i };
                self.words = w;
                self.outcome = None;
                let nothing: Vec<Output> = Vec::new();
                assert(output_views(nothing@) =~= Seq::empty());
                Reaction { output: nothing, next: Action::Parse { command: i } }
            },
            None => {
                let overview: Vec<Vec<u8>> = Vec::new();
                assert(word_views(overview@) =~= Seq::empty());
                self.finish_turn(Self::help(overview))
            },
        }
    }

    /// Decides what follows an accepted line: see [`on_parsed`].
    fn dispatch(&mut self, command: usize) -> (r: Reaction)
        requires
            old(self).well_formed(),
            old(self)@.pending == (Action::Parse { command }),
        ensures
            final(self).well_formed(),
            final(self)@ == state_after(old(self)@, Event::Parsed),
            output_views(r.output@) == react(old(self)@, Event::Parsed).output,
            r.next == react(old(self)@, Event::Parsed).next,
            final(self).bound_callbacks() == old(self).bound_callbacks(),
    {
        let commands = self.tree.commands();
        assert(self.tree@[command as int] == commands@[command as int]@);
        let found = self.callbacks.find(&commands[command].name);
        match found {
            Some(callback) => {
                let next = if self.before_hook {
                    Action::RunBeforeHook { command, callback }
                } else {
                    Action::Invoke { command, callback }
                };
                self.pending = next;
                let nothing: Vec<Output> = Vec::new();
                assert(output_views(nothing@) =~= Seq::empty());
                Reaction { output: nothing, next }
            },
            None => {
                let mut message = String::from_str("no callback is bound to command ");
                message.append(commands[command].name.as_str());
                self.finish_turn(Self::complain(message))
            },
        }
    }

    /// Takes the event that answers the pending action and decides what is
    /// shown and what is done next: see [`react`]. The tree, the registry
    /// and the hooks stay as they are. An event that does not answer the
    /// pending action changes nothing.
    pub fn step(&mut self, event: Event) -> (r: Reaction)
        requires
            old(self).well_formed(),
        ensures
            final(self).well_formed(),
            final(self)@ == state_after(old(self)@, event),
            output_views(r.output@) == react(old(self)@, event).output,
            r.next == react(old(self)@, event).next,
            final(self).bound_callbacks() == old(self).bound_callbacks(),
    {
        match self.pending {
            Action::ReadLine => match event {
                Event::Line(text) => self.take_line(text),
                Event::Quit => self.end_session(Outcome::Quit),
                Event::EndOfStream => self.end_session(Outcome::StreamEnded),
                Event::InputFailed(text) => self.end_session(Outcome::InputFailed(text)),
                _ => self.keep_waiting(),
            },
            Action::Parse { command } => match event {
                Event::Parsed => self.dispatch(command),
                Event::SyntaxError(text) => self.finish_turn(Self::complain(text)),
                _ => self.keep_waiting(),
            },
            Action::RunBeforeHook { command, callback } => match event {
                Event::HookDone(line) => {
                    self.pending = Action::Invoke { command, callback };
                    Reaction { output: Self::show(line), next: Action::Invoke { command, callback } }
                },
                Event::HookAborted(text) => self.end_session(Outcome::HookAborted(text)),
                _ => self.keep_waiting(),
            },
            Action::Invoke { command, callback } => match event {
                Event::CallbackDone(line) => {
                    if self.after_hook {
                        self.pending = Action::RunAfterHook;
                        self.words = Vec::new();
                        assert(word_views(self.words@) =~= Seq::empty());
                        Reaction { output: Self::show(line), next: Action::RunAfterHook }
                    } else {
                        self.finish_turn(Self::show(line))
                    }
                },
                Event::CallbackFailed(text) => self.finish_turn(Self::complain(text)),
                _ => self.keep_waiting(),
            },
            Action::RunAfterHook => match event {
                Event::HookDone(line) => self.finish_turn(Self::show(line)),
                Event::HookAborted(text) => self.end_session(Outcome::HookAborted(text)),
                _ => self.keep_waiting(),
            },
            Action::Stop => self.keep_waiting(),
        }
    }
}

} // verus!
