//! The command tree: commands with their arguments, enumerated values and
//! sub-commands, each with the mathematical model the contracts speak of.

use vstd::prelude::*;

verus! {

/// One enumerated value that an argument accepts.
#[derive(Clone, Debug)]
pub struct PossibleValue {
    pub name: String,
    pub help: Option<String>,
}

/// Model of a [`PossibleValue`].
pub struct PossibleValueView {
    pub name: Seq<char>,
    pub help: Option<Seq<char>>,
}

/// One argument of a command.
#[derive(Clone, Debug)]
pub struct ArgumentSpec {
    /// The word of the long flag, without its two dashes.
    pub long: Option<String>,
    /// The letter of the short flag, without its dash.
    pub short: Option<char>,
    pub help: Option<String>,
    /// The values the argument is restricted to, in declaration order.
    pub possible_values: Vec<PossibleValue>,
    /// Set for engine-reserved flags, which completion never offers.
    pub global: bool,
}

/// Model of an [`ArgumentSpec`].
pub struct ArgumentView {
    pub long: Option<Seq<char>>,
    pub short: Option<char>,
    pub help: Option<Seq<char>>,
    pub possible_values: Seq<PossibleValueView>,
    pub global: bool,
}

/// A command or sub-command.
#[derive(Debug)]
pub struct CommandNode {
    pub name: String,
    /// One-line description, shown beside a top-level suggestion.
    pub about: Option<String>,
    /// Text that follows the generated help, shown beside a sub-command
    /// suggestion.
    pub after_help: Option<String>,
    /// Arguments in declaration order.
    pub arguments: Vec<ArgumentSpec>,
    /// Sub-commands in declaration order.
    pub subcommands: Vec<CommandNode>,
}

/// Model of a [`CommandNode`].
pub struct CommandView {
    pub name: Seq<char>,
    pub about: Option<Seq<char>>,
    pub after_help: Option<Seq<char>>,
    pub arguments: Seq<ArgumentView>,
    pub subcommands: Seq<CommandView>,
}

/// Model of an optional text.
pub open spec fn text_view(t: Option<String>) -> Option<Seq<char>> {
    match t {
        Some(s) => Some(s@),
        None => None,
    }
}

impl View for PossibleValue {
    type V = PossibleValueView;

    open spec fn view(&self) -> PossibleValueView {
        PossibleValueView { name: self.name@, help: text_view(self.help) }
    }
}

impl View for ArgumentSpec {
    type V = ArgumentView;

    open spec fn view(&self) -> ArgumentView {
        ArgumentView {
            long: text_view(self.long),
            short: self.short,
            help: text_view(self.help),
            possible_values: self.possible_values@.map_values(|v: PossibleValue| v@),
            global: self.global,
        }
    }
}

/// Models of a sequence of nodes, in order.
pub open spec fn node_views(nodes: Seq<CommandNode>) -> Seq<CommandView>
    decreases nodes, 0int,
{
    Seq::new(
        nodes.len(),
        |i: int|
            if 0 <= i < nodes.len() {
                node_view(nodes[i])
            } else {
                arbitrary()
            },
    )
}

/// Model of one node.
pub open spec fn node_view(node: CommandNode) -> CommandView
    decreases node, 1int,
{
    CommandView {
        name: node.name@,
        about: text_view(node.about),
        after_help: text_view(node.after_help),
        arguments: node.arguments@.map_values(|a: ArgumentSpec| a@),
        subcommands: node_views(node.subcommands@),
    }
}

impl View for CommandNode {
    type V = CommandView;

    open spec fn view(&self) -> CommandView {
        node_view(*self)
    }
}

/// No two of `nodes` carry the same name.
pub open spec fn names_distinct(nodes: Seq<CommandView>) -> bool {
    forall|i: int, j: int|
        0 <= i < j < nodes.len() ==> (#[trigger] nodes[i]).name != (#[trigger] nodes[j]).name
}

/// One of `nodes` is called `name`.
pub open spec fn name_taken(nodes: Seq<CommandView>, name: Seq<char>) -> bool {
    exists|i: int| 0 <= i < nodes.len() && (#[trigger] nodes[i]).name == name
}

/// Below `node`, at every depth, the direct children of one parent carry
/// different names.
pub open spec fn node_well_formed(node: CommandView) -> bool
    decreases node,
{
    &&& names_distinct(node.subcommands)
    &&& forall|i: int|
        0 <= i < node.subcommands.len() ==> node_well_formed(#[trigger] node.subcommands[i])
}

/// The top-level names differ from one another, and every command is well
/// formed.
pub open spec fn tree_well_formed(tree: Seq<CommandView>) -> bool {
    &&& names_distinct(tree)
    &&& forall|i: int| 0 <= i < tree.len() ==> node_well_formed(#[trigger] tree[i])
}

/// Why a command could not be registered.
#[derive(Clone, Copy, Debug, PartialEq, Eq, Structural)]
pub enum ConfigurationError {
    /// The tree already holds a top-level command of that name.
    DuplicateCommand,
    /// Somewhere below the command two children of one parent share a name.
    DuplicateSubcommand,
    /// The registry already holds a callback for that name.
    DuplicateCallback,
}

/// Appending a node to a list appends its model to the list's models.
pub proof fn lemma_node_views_push(nodes: Seq<CommandNode>, node: CommandNode)
    ensures
        node_views(nodes.push(node)) == node_views(nodes).push(node@),
{
    assert(node_views(nodes.push(node)) =~= node_views(nodes).push(node@));
}

/// Decides whether one of the first `end` nodes is called `name`.
pub fn holds_name(nodes: &Vec<CommandNode>, end: usize, name: &String) -> (r: bool)
    requires
        end <= nodes@.len(),
    ensures
        r == name_taken(node_views(nodes@).take(end as int), name@),
{
    let ghost head = node_views(nodes@).take(end as int);
    let mut i: usize = 0;
    while i < end
        invariant
            i <= end <= nodes@.len(),
            head == node_views(nodes@).take(end as int),
            forall|k: int| 0 <= k < i ==> (#[trigger] head[k]).name != name@,
        decreases end - i,
    {
        assert(head[i as int] == nodes@[i as int]@);
        if nodes[i].name == *name {
            return true;
        }
        i += 1;
    }
    false
}

/// Decides whether the names of `nodes` differ from one another.
pub fn has_distinct_names(nodes: &Vec<CommandNode>) -> (r: bool)
    ensures
        r == names_distinct(node_views(nodes@)),
{
    let ghost all = node_views(nodes@);
    let mut j: usize = 0;
    while j < nodes.len()
        invariant
            j <= nodes@.len(),
            all == node_views(nodes@),
            forall|a: int, b: int|
                0 <= a < b < j ==> (#[trigger] all[a]).name != (#[trigger] all[b]).name,
        decreases nodes@.len() - j,
    {
        assert(all[j as int] == nodes@[j as int]@);
        if holds_name(nodes, j, &nodes[j].name) {
            let ghost a = choose|a: int|
                0 <= a < all.take(j as int).len() && (#[trigger] all.take(j as int)[a]).name
                    == nodes@[j as int].name@;
            assert(all[a].name == all[j as int].name);
            return false;
        }
        assert forall|a: int| 0 <= a < j implies (#[trigger] all[a]).name != all[j as int].name by {
            assert(all.take(j as int)[a] == all[a]);
        }
        j += 1;
    }
    true
}

/// Decides whether `node` is well formed.
pub fn is_well_formed(node: &CommandNode) -> (r: bool)
    ensures
        r == node_well_formed(node@),
    decreases node,
{
    if !has_distinct_names(&node.subcommands) {
        return false;
    }
    let ghost subs = node@.subcommands;
    let mut i: usize = 0;
    while i < node.subcommands.len()
        invariant
            i <= node.subcommands@.len(),
            subs == node@.subcommands,
            subs == node_views(node.subcommands@),
            names_distinct(subs),
            forall|k: int| 0 <= k < i ==> node_well_formed(#[trigger] subs[k]),
        decreases node.subcommands@.len() - i,
    {
        assert(subs[i as int] == node.subcommands@[i as int]@);
        if !is_well_formed(&node.subcommands[i]) {
            return false;
        }
        i += 1;
    }
    true
}

/// The commands of a shell, in registration order. No two top-level commands
/// share a name, and every command is well formed.
pub struct CommandTree {
    commands: Vec<CommandNode>,
}

impl View for CommandTree {
    type V = Seq<CommandView>;

    closed spec fn view(&self) -> Seq<CommandView> {
        node_views(self.commands@)
    }
}

impl CommandTree {
    /// The invariant of the tree: see [`tree_well_formed`].
    pub open spec fn well_formed(&self) -> bool {
        tree_well_formed(self@)
    }

    /// The tree without commands.
    pub fn new() -> (r: CommandTree)
        ensures
            r@ == Seq::<CommandView>::empty(),
            r.well_formed(),
    {
        let r = CommandTree { commands: Vec::new() };
        assert(node_views(r.commands@) =~= Seq::empty());
        r
    }

    /// The commands in registration order.
    pub fn commands(&self) -> (r: &Vec<CommandNode>)
        ensures
            node_views(r@) == self@,
    {
        &self.commands
    }

    /// A tree holds no more commands than a machine word counts.
    pub proof fn lemma_len_bounded(&self)
        ensures
            self@.len() <= usize::MAX,
    {
        assert(self.commands@.len() == self.commands.len());
    }

    /// The number of top-level commands.
    pub fn len(&self) -> (r: usize)
        ensures
            r == self@.len(),
    {
        self.commands.len()
    }

    /// Adds `command` behind the commands registered so far. A command whose
    /// name is taken, or that is not well formed, is refused and the tree
    /// stays as it was.
    pub fn register(&mut self, command: CommandNode) -> (r: Result<(), ConfigurationError>)
        requires
            old(self).well_formed(),
        ensures
            final(self).well_formed(),
            match r {
                Ok(_) => {
                    &&& !name_taken(old(self)@, command@.name)
                    &&& node_well_formed(command@)
                    &&& final(self)@ == old(self)@.push(command@)
                },
                Err(ConfigurationError::DuplicateCommand) => {
                    &&& name_taken(old(self)@, command@.name)
                    &&& final(self)@ == old(self)@
                },
                Err(ConfigurationError::DuplicateSubcommand) => {
                    &&& !name_taken(old(self)@, command@.name)
                    &&& !node_well_formed(command@)
                    &&& final(self)@ == old(self)@
                },
                Err(ConfigurationError::DuplicateCallback) => false,
            },
    {
        let ghost before = node_views(self.commands@);
        assert(before.take(before.len() as int) =~= before);
        if holds_name(&self.commands, self.commands.len(), &command.name) {
            return Err(ConfigurationError::DuplicateCommand);
        }
        if !is_well_formed(&command) {
            return Err(ConfigurationError::DuplicateSubcommand);
        }
        proof {
            lemma_node_views_push(self.commands@, command);
            let after = before.push(command@);
            assert forall|i: int, j: int| 0 <= i < j < after.len() implies (#[trigger] after[i]).name
                != (#[trigger] after[j]).name by {
                if j < before.len() {
                    assert(after[i] == before[i] && after[j] == before[j]);
                } else {
                    assert(after[i] == before[i]);
                }
            }
            assert forall|i: int| 0 <= i < after.len() implies node_well_formed(
                #[trigger] after[i],
            ) by {
                if i < before.len() {
                    assert(after[i] == before[i]);
                }
            }
        }
        self.commands.push(command);
        Ok(())
    }
}

} // verus!
