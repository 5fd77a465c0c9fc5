//! Installing prompts into the configuration directory of the companion
//! tool: what is written where, and how what is installed is listed.

use crate::order::{sort_names, sorted_form};
use crate::prompt::{Prompt, PromptView};
use crate::text::{chars_of, join, joined, same_text, string_of_range};
use std::path::PathBuf;
use vstd::prelude::*;
use vstd::string::StringExecFns;

verus! {

/// The tools that an installed skill may use.
pub const ALLOWED_TOOLS: &'static str = "Read, Write, Edit, Bash, Glob, Grep, Task";

/// The configuration directory that prompts are installed into.
pub struct ClaudeIntegration {
    claude_dir: PathBuf,
}

/// The two ways to install a prompt.
#[derive(Debug, Clone, Copy, PartialEq, Eq, Structural)]
pub enum InstallType {
    /// As a skill: a directory of its own with a manifest in it.
    Skill,
    /// As a command: one file that holds the content.
    Command,
}

/// What an installation writes: a file named `file_name` with the content
/// `content`, inside the directory that `directory` leads to from the
/// configuration directory, component by component.
#[derive(Debug)]
pub struct InstallPlan {
    pub directory: Vec<String>,
    pub file_name: String,
    pub content: String,
}

/// The hint at the arguments of a skill: each variable in angle brackets,
/// with a blank between them; empty where there is no variable.
pub open spec fn argument_hint(variables: Seq<Seq<char>>) -> Seq<char> {
    if variables.len() == 0 {
        Seq::empty()
    } else {
        "<"@ + joined(variables, "> <"@) + ">"@
    }
}

/// The line of the manifest that gives the hint; no line where the hint is
/// empty.
pub open spec fn hint_line(variables: Seq<Seq<char>>) -> Seq<char> {
    if variables.len() == 0 {
        Seq::empty()
    } else {
        "argument-hint: \""@ + argument_hint(variables) + "\"\n"@
    }
}

/// The manifest of a skill: a header with the name, the description, the
/// hint at the arguments and the tools allowed, and then the content.
pub open spec fn skill_document(p: PromptView) -> Seq<char> {
    "---\n"@ + "name: "@ + p.name + "\n"@ + "description: "@ + p.description + "\n"@ + hint_line(
        p.variables,
    ) + "allowed-tools: "@ + ALLOWED_TOOLS@ + "\n"@ + "---\n\n"@ + p.content
}

/// The file name of a command: the name with `.md` after it.
pub open spec fn command_file_name(name: Seq<char>) -> Seq<char> {
    name + ".md"@
}

/// What installing a prompt in a given way writes.
pub open spec fn planned(p: PromptView, install_type: InstallType, plan: InstallPlan) -> bool {
    match install_type {
        InstallType::Skill => {
            &&& plan.directory.deep_view() == seq!["skills"@, p.name]
            &&& plan.file_name@ == "SKILL.md"@
            &&& plan.content@ == skill_document(p)
        },
        InstallType::Command => {
            &&& plan.directory.deep_view() == seq!["commands"@]
            &&& plan.file_name@ == command_file_name(p.name)
            &&& plan.content@ == p.content
        },
    }
}

/// The position of the last `.` of `name` before `upto`, or -1 where there
/// is none.
pub open spec fn last_dot(name: Seq<char>, upto: int) -> int
    decreases upto,
{
    if upto <= 0 || upto > name.len() {
        -1
    } else if name[upto - 1] == '.' {
        upto - 1
    } else {
        last_dot(name, upto - 1)
    }
}

/// The command that a file of the commands directory holds: the file name
/// without its extension, where the extension is `md`. The extension is what
/// follows the last `.`; a name without `.`, or with its only `.` in front,
/// has none.
pub open spec fn command_of(file_name: Seq<char>) -> Option<Seq<char>> {
    let dot = last_dot(file_name, file_name.len() as int);
    if dot > 0 && file_name.skip(dot + 1) == "md"@ {
        Some(file_name.take(dot))
    } else {
        None
    }
}

/// The commands that a list of file names holds, in the order of the list.
pub open spec fn commands_among(file_names: Seq<Seq<char>>) -> Seq<Seq<char>>
    decreases file_names.len(),
{
    if file_names.len() == 0 {
        Seq::empty()
    } else {
        let before = commands_among(file_names.drop_last());
        match command_of(file_names.last()) {
            Some(name) => before.push(name),
            None => before,
        }
    }
}

/// The entries of a directory as pairs of character sequences and flags.
pub open spec fn entries_of(entries: Seq<(String, bool)>) -> Seq<(Seq<char>, bool)> {
    entries.map_values(|e: (String, bool)| (e.0@, e.1))
}

/// The names of the entries that are directories, in the order of the list.
pub open spec fn directories_among(entries: Seq<(Seq<char>, bool)>) -> Seq<Seq<char>>
    decreases entries.len(),
{
    if entries.len() == 0 {
        Seq::empty()
    } else {
        let before = directories_among(entries.drop_last());
        if entries.last().1 {
            before.push(entries.last().0)
        } else {
            before
        }
    }
}

impl ClaudeIntegration {
    /// The configuration directory.
    pub closed spec fn dir(&self) -> PathBuf {
        self.claude_dir
    }

    /// An integration with the configuration directory at `claude_dir`.
    pub fn new(claude_dir: PathBuf) -> (integration: ClaudeIntegration)
        ensures
            integration.dir() == claude_dir,
    {
        ClaudeIntegration { claude_dir }
    }

    /// The configuration directory.
    pub fn claude_dir(&self) -> (path: &PathBuf)
        ensures
            *path == self.dir(),
    {
        &self.claude_dir
    }

    /// Writes the manifest of the skill that a prompt becomes.
    pub fn generate_skill_content(&self, prompt: &Prompt) -> (content: String)
        ensures
            content@ == skill_document(prompt@),
    {
        let mut content = String::from_str("---\n");
        content.append("name: ");
        content.append(prompt.name.as_str());
        content.append("\n");
        content.append("description: ");
        content.append(prompt.description.as_str());
        content.append("\n");
        if prompt.variables.len() > 0 {
            let names = join(&prompt.variables, "> <");
            content.append("argument-hint: \"");
            content.append("<");
            content.append(names.as_str());
            content.append(">");
            content.append("\"\n");
        }
        content.append("allowed-tools: ");
        content.append(ALLOWED_TOOLS);
        content.append("\n");
        content.append("---\n\n");
        content.append(prompt.content.as_str());
        content
    }

    /// Says what installing a prompt writes. A skill gets the directory
    /// `skills/<name>` with the manifest `SKILL.md` in it; a command becomes
    /// the file `commands/<name>.md`, which holds the content.
    pub fn install_plan(&self, prompt: &Prompt, install_type: InstallType) -> (plan: InstallPlan)
        ensures
            planned(prompt@, install_type, plan),
    {
        match install_type {
            InstallType::Skill => {
                let mut directory: Vec<String> = Vec::new();
                directory.push(String::from_str("skills"));
                directory.push(prompt.name.clone());
                proof {
                    assert(directory.deep_view() =~= seq!["skills"@, prompt@.name]);
                }
                InstallPlan {
                    directory,
                    file_name: String::from_str("SKILL.md"),
                    content: self.generate_skill_content(prompt),
                }
            },
            InstallType::Command => {
                let mut directory: Vec<String> = Vec::new();
                directory.push(String::from_str("commands"));
                proof {
                    assert(directory.deep_view() =~= seq!["commands"@]);
                }
                let mut file_name = prompt.name.clone();
                file_name.append(".md");
                InstallPlan { directory, file_name, content: prompt.content.clone() }
            },
        }
    }

    /// Where the directory of an installed skill lies, from the
    /// configuration directory on: `skills/<name>`.
    pub fn skill_dir(&self, name: &str) -> (parts: Vec<String>)
        ensures
            parts.deep_view() == seq!["skills"@, name@],
    {
        let mut parts: Vec<String> = Vec::new();
        parts.push(String::from_str("skills"));
        parts.push(String::from_str(name));
        parts
    }

    /// Where the file of an installed command lies, from the configuration
    /// directory on: `commands/<name>.md`.
    pub fn command_file(&self, name: &str) -> (parts: Vec<String>)
        ensures
            parts.deep_view() == seq!["commands"@, command_file_name(name@)],
    {
        let mut file_name = String::from_str(name);
        file_name.append(".md");
        let mut parts: Vec<String> = Vec::new();
        parts.push(String::from_str("commands"));
        parts.push(file_name);
        parts
    }

    /// The name of the command that a file of the commands directory holds,
    /// if it holds one.
    pub fn command_name(file_name: &str) -> (name: Option<String>)
        ensures
            match name {
                Some(n) => command_of(file_name@) == Some(n@),
                None => command_of(file_name@) is None,
            },
    {
        let chars = chars_of(file_name);
        let mut end: usize = chars.len();
        while end > 0 && chars[end - 1] != '.'
            invariant
                end <= chars.len(),
                last_dot(chars@, chars.len() as int) == last_dot(chars@, end as int),
            decreases end,
        {
            end -= 1;
        }
        if end <= 1 {
            return None;
        }
        let dot = end - 1;
        let extension = string_of_range(&chars, end, chars.len());
        if same_text(extension.as_str(), "md") {
            Some(string_of_range(&chars, 0, dot))
        } else {
            None
        }
    }

    /// The installed skills, sorted: the names of the directories among the
    /// entries of the skills directory. Each entry is a name and whether it
    /// is a directory.
    pub fn installed_skills(&self, entries: &Vec<(String, bool)>) -> (skills: Vec<String>)
        ensures
            sorted_form(skills.deep_view(), directories_among(entries_of(entries@))),
    {
        let mut names: Vec<String> = Vec::new();
        let mut i: usize = 0;
        while i < entries.len()
            invariant
                i <= entries.len(),
                names.deep_view() == directories_among(entries_of(entries@).take(i as int)),
            decreases entries.len() - i,
        {
            proof {
                let next = entries_of(entries@).take(i + 1);
                assert(next.drop_last() =~= entries_of(entries@).take(i as int));
            }
            if entries[i].1 {
                names.push(entries[i].0.clone());
            }
            i += 1;
        }
        proof {
            assert(entries_of(entries@).take(entries.len() as int) =~= entries_of(entries@));
        }
        sort_names(names)
    }

    /// The installed commands, sorted: the names of the commands that the
    /// files of the commands directory hold.
    pub fn installed_commands(&self, file_names: &Vec<String>) -> (commands: Vec<String>)
        ensures
            sorted_form(commands.deep_view(), commands_among(file_names.deep_view())),
    {
        let mut names: Vec<String> = Vec::new();
        let mut i: usize = 0;
        while i < file_names.len()
            invariant
                i <= file_names.len(),
                names.deep_view() == commands_among(file_names.deep_view().take(i as int)),
            decreases file_names.len() - i,
        {
            proof {
                let next = file_names.deep_view().take(i + 1);
                assert(next.drop_last() =~= file_names.deep_view().take(i as int));
            }
            match ClaudeIntegration::command_name(file_names[i].as_str()) {
                Some(name) => {
                    names.push(name);
                },
                None => {},
            }
            i += 1;
        }
        proof {
            assert(file_names.deep_view().take(file_names.len() as int)
                =~= file_names.deep_view());
        }
        sort_names(names)
    }
}

} // verus!
