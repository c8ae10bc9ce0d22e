//! The overview that `help` shows: who the shell is and which commands it
//! has.

use crate::command::{node_views, text_view, CommandTree, CommandView};
use vstd::prelude::*;
use vstd::string::*;

verus! {

/// How a shell presents itself.
#[derive(Clone, Debug)]
pub struct ShellInfo {
    pub name: String,
    pub version: String,
    pub description: String,
}

/// Model of a [`ShellInfo`].
pub struct ShellInfoView {
    pub name: Seq<char>,
    pub version: Seq<char>,
    pub description: Seq<char>,
}

impl View for ShellInfo {
    type V = ShellInfoView;

    open spec fn view(&self) -> ShellInfoView {
        ShellInfoView { name: self.name@, version: self.version@, description: self.description@ }
    }
}

/// The first line of the overview: name, version, a colon, description.
pub open spec fn summary(info: ShellInfoView) -> Seq<char> {
    info.name + " "@ + info.version + ": "@ + info.description
}

/// The line that lists one command: indented, with its description behind
/// it where it has one.
pub open spec fn entry(name: Seq<char>, about: Option<Seq<char>>) -> Seq<char> {
    match about {
        Some(text) => "    "@ + name + "    "@ + text,
        None => "    "@ + name,
    }
}

/// The lines that list the commands of `tree`, in registration order.
pub open spec fn entries(tree: Seq<CommandView>) -> Seq<Seq<char>> {
    tree.map_values(|c: CommandView| entry(c.name, c.about))
}

/// The overview: the summary, an empty line, the heading, one line for each
/// command and one for `help`.
pub open spec fn overview(info: ShellInfoView, tree: Seq<CommandView>) -> Seq<Seq<char>> {
    seq![summary(info), ""@, "COMMANDS:"@] + entries(tree) + seq![
        entry("help"@, Some("show help"@)),
    ]
}

/// Models of a list of lines.
pub open spec fn line_views(lines: Seq<String>) -> Seq<Seq<char>> {
    lines.map_values(|l: String| l@)
}

/// Writes the line that lists one command.
pub fn entry_line(name: &str, about: &Option<String>) -> (r: String)
    ensures
        r@ == entry(name@, text_view(*about)),
{
    let mut line = String::from_str("    ");
    line.append(name);
    match about {
        Some(text) => {
            line.append("    ");
            line.append(text.as_str());
        },
        None => {},
    }
    line
}

impl ShellInfo {
    /// A shell without name, version or description.
    pub fn new() -> (r: ShellInfo)
        ensures
            r@ == (ShellInfoView {
                name: Seq::empty(),
                version: Seq::empty(),
                description: Seq::empty(),
            }),
    {
        ShellInfo { name: String::new(), version: String::new(), description: String::new() }
    }

    /// The same shell under the name `name`.
    pub fn with_name(self, name: &str) -> (r: ShellInfo)
        ensures
            r@ == (ShellInfoView { name: name@, ..self@ }),
    {
        ShellInfo { name: String::from_str(name), version: self.version, description: self.description }
    }

    /// The same shell with the version `version`.
    pub fn with_version(self, version: &str) -> (r: ShellInfo)
        ensures
            r@ == (ShellInfoView { version: version@, ..self@ }),
    {
        ShellInfo { name: self.name, version: String::from_str(version), description: self.description }
    }

    /// The same shell with the description `description`.
    pub fn with_description(self, description: &str) -> (r: ShellInfo)
        ensures
            r@ == (ShellInfoView { description: description@, ..self@ }),
    {
        ShellInfo {
            name: self.name,
            version: self.version,
            description: String::from_str(description),
        }
    }

    /// Writes the first line of the overview.
    pub fn summary_line(&self) -> (r: String)
        ensures
            r@ == summary(self@),
    {
        let mut line = self.name.clone();
        line.append(" ");
        line.append(self.version.as_str());
        line.append(": ");
        line.append(self.description.as_str());
        line
    }

    /// Writes the overview of the shell and the commands of `tree`.
    pub fn overview_lines(&self, tree: &CommandTree) -> (r: Vec<String>)
        ensures
            line_views(r@) == overview(self@, tree@),
    {
        let commands = tree.commands();
        let ghost views = tree@;
        let ghost head = seq![summary(self@), ""@, "COMMANDS:"@];
        let mut lines: Vec<String> = Vec::new();
        lines.push(self.summary_line());
        lines.push(String::from_str(""));
        lines.push(String::from_str("COMMANDS:"));
        assert(line_views(lines@) =~= head);
        assert(entries(views.take(0)) =~= Seq::empty());
        assert(head + Seq::empty() =~= head);
        let mut i: usize = 0;
        while i < commands.len()
            invariant
                i <= commands@.len(),
                views == tree@,
                views == node_views(commands@),
                line_views(lines@) == head + entries(views.take(i as int)),
            decreases commands@.len() - i,
        {
            let ghost before = lines@;
            assert(views[i as int] == commands@[i as int]@);
            let line = entry_line(commands[i].name.as_str(), &commands[i].about);
            lines.push(line);
            assert(line_views(lines@) =~= line_views(before).push(line@));
            assert(entries(views.take(i + 1)) =~= entries(views.take(i as int)).push(line@));
            assert(line_views(lines@) =~= head + entries(views.take(i + 1)));
            i += 1;
        }
        assert(views.take(commands@.len() as int) =~= views);
        let ghost before = lines@;
        let about = Some(String::from_str("show help"));
        let last = entry_line("help", &about);
        lines.push(last);
        assert(line_views(lines@) =~= line_views(before).push(last@));
        assert(line_views(lines@) =~= overview(self@, tree@));
        lines
    }
}

} // verus!
