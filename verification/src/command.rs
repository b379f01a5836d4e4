//! A typed line: the built-in commands, and the program that any other command names.
use crate::error::{failure, ErrorKind, ErrorView, ShellError};
use crate::launch::{c_string, terminated};
use crate::metadata::{app_entry, join_path, path_below, resolve_app_entry, text_of};
use crate::policy::{external_options, parse_external_options, ExecutionPromptPolicy, PolicyView};
use crate::text::{
    chars_of, ends_with, join, joined, same_text, split_words, text_ends_with, text_has, words,
};
use vstd::prelude::*;
use vstd::string::*;

verus! {

/// What is printed when options stand without a command.
pub const USAGE: &'static str =
    "usage: [--deny-prompts] [--allow-session capability] [--allow-all-user] [--background] command [args...]";

/// What is printed when no file of a program's path exists.
pub const NOT_FOUND: &'static str = "notfound";

/// What a typed line asks for.
#[derive(Clone, Debug, PartialEq, Eq)]
pub enum CommandAction {
    /// The line is blank.
    Nothing,
    /// The shell ends.
    Exit,
    /// The text is printed.
    Echo(String),
    /// The working directory is printed.
    PrintDirectory,
    /// The working directory changes.
    ChangeDirectory(String),
    /// The usage of the options is printed.
    Usage,
    /// A program is run under a policy.
    External { policy: ExecutionPromptPolicy, argv: Vec<String> },
}

/// What a [`CommandAction`] says.
#[verifier::ext_equal]
pub enum CommandActionView {
    Nothing,
    Exit,
    Echo(Seq<char>),
    PrintDirectory,
    ChangeDirectory(Seq<char>),
    Usage,
    External { policy: PolicyView, argv: Seq<Seq<char>> },
}

impl View for CommandAction {
    type V = CommandActionView;

    open spec fn view(&self) -> CommandActionView {
        match self {
            CommandAction::Nothing => CommandActionView::Nothing,
            CommandAction::Exit => CommandActionView::Exit,
            CommandAction::Echo(text) => CommandActionView::Echo(text@),
            CommandAction::PrintDirectory => CommandActionView::PrintDirectory,
            CommandAction::ChangeDirectory(target) => CommandActionView::ChangeDirectory(target@),
            CommandAction::Usage => CommandActionView::Usage,
            CommandAction::External { policy, argv } => CommandActionView::External {
                policy: policy@,
                argv: argv.deep_view(),
            },
        }
    }
}

/// What a typed line asks for: its first word names the command.
pub open spec fn command_action(line: Seq<char>) -> Result<CommandActionView, ErrorView> {
    let argv = words(line);
    if argv.len() == 0 {
        Ok(CommandActionView::Nothing)
    } else if argv[0] == "exit"@ {
        Ok(CommandActionView::Exit)
    } else if argv[0] == "echo"@ {
        Ok(CommandActionView::Echo(join(argv.skip(1), " "@)))
    } else if argv[0] == "pwd"@ {
        Ok(CommandActionView::PrintDirectory)
    } else if argv[0] == "cd"@ {
        Ok(
            CommandActionView::ChangeDirectory(
                if argv.len() > 1 {
                    argv[1]
                } else {
                    "/"@
                },
            ),
        )
    } else {
        match external_options(argv) {
            Ok((policy, at)) => if at < argv.len() {
                Ok(CommandActionView::External { policy, argv: argv.skip(at) })
            } else {
                Ok(CommandActionView::Usage)
            },
            Err(e) => Err(e),
        }
    }
}

fn owned(list: &[String]) -> (r: Vec<String>)
    ensures
        r.deep_view() == list.deep_view(),
{
    let mut r: Vec<String> = Vec::new();
    let mut i: usize = 0;
    while i < list.len()
        invariant
            i <= list@.len(),
            r@ == list@.take(i as int),
        decreases list@.len() - i,
    {
        r.push(list[i].clone());
        i = i + 1;
        assert(r@ =~= list@.take(i as int));
    }
    assert(r.deep_view() =~= list.deep_view());
    r
}

/// Finds out what a typed line asks for.
pub fn run_command(line: &str) -> (r: Result<CommandAction, ShellError>)
    ensures
        match command_action(line@) {
            Ok(a) => r matches Ok(action) && action@ == a,
            Err(e) => r matches Err(m) && m@ == e,
        },
{
    let argv = split_words(chars_of(line).as_slice());
    let ghost view = argv.deep_view();
    if argv.len() == 0 {
        return Ok(CommandAction::Nothing);
    }
    let name = argv[0].as_str();
    assert(view[0] == name@);
    if same_text(name, "exit") {
        return Ok(CommandAction::Exit);
    }
    if same_text(name, "echo") {
        let rest = &argv.as_slice()[1..argv.len()];
        assert(rest.deep_view() =~= view.skip(1));
        return Ok(CommandAction::Echo(joined(rest, " ")));
    }
    if same_text(name, "pwd") {
        return Ok(CommandAction::PrintDirectory);
    }
    if same_text(name, "cd") {
        if argv.len() > 1 {
            assert(view[1] == argv@[1]@);
            return Ok(CommandAction::ChangeDirectory(argv[1].clone()));
        }
        return Ok(CommandAction::ChangeDirectory("/".to_string()));
    }
    let all = argv.as_slice();
    assert(all.deep_view() =~= view);
    let (policy, external) = parse_external_options(all)?;
    if external.len() == 0 {
        return Ok(CommandAction::Usage);
    }
    assert(external.deep_view() =~= view.skip(external_options(view)->Ok_0.1));
    Ok(CommandAction::External { policy, argv: owned(external) })
}

/// Writes the directory that is changed to as the kernel reads it: its bytes and a zero byte.
pub fn change_dir(target: &str) -> (r: Result<Vec<u8>, ShellError>)
    ensures
        match terminated(target@) {
            Some(bytes) => r matches Ok(v) && v@ == bytes,
            None => r matches Err(m) && m@ == failure(
                ErrorKind::InvalidInput,
                "path contains NUL"@,
            ),
        },
{
    match c_string(target) {
        Some(bytes) => Ok(bytes),
        None => Err(ShellError::new(ErrorKind::InvalidInput, "path contains NUL")),
    }
}

/// The directory of the application that a command names, if it names one. An application's name
/// ends in `.app`; without a slash in it, it stands in `/applications`.
pub open spec fn app_directory(cmd: Seq<char>) -> Option<Seq<char>> {
    if !ends_with(cmd, ".app"@) {
        None
    } else if cmd.contains('/') {
        Some(cmd)
    } else {
        Some(path_below("/applications"@, cmd))
    }
}

/// The directory of the application that a command names, if it names one.
pub fn app_root(cmd: &str) -> (r: Option<String>)
    ensures
        match app_directory(cmd@) {
            Some(root) => r matches Some(s) && s@ == root,
            None => r is None,
        },
{
    if !text_ends_with(cmd, ".app") {
        None
    } else if text_has(cmd, '/') {
        Some(cmd.to_string())
    } else {
        Some(join_path("/applications", cmd))
    }
}

/// Where the metadata of an application lies: its `about.toml` and its `manifest.toml`.
pub fn metadata_paths(app_root: &str) -> (r: (String, String))
    ensures
        r.0@ == path_below(app_root@, "about.toml"@),
        r.1@ == path_below(app_root@, "manifest.toml"@),
{
    (join_path(app_root, "about.toml"), join_path(app_root, "manifest.toml"))
}

/// The program that a command names: the entry of an application, the command itself where it
/// holds a slash, and otherwise the program of that name in `/bin`.
pub open spec fn command_path(
    cmd: Seq<char>,
    about: Option<Seq<char>>,
    manifest: Option<Seq<char>>,
) -> Result<Seq<char>, ErrorView> {
    match app_directory(cmd) {
        Some(root) => app_entry(root, about, manifest),
        None => if cmd.contains('/') {
            Ok(cmd)
        } else {
            Ok("/bin/"@ + cmd)
        },
    }
}

/// Finds the program that a command names. The texts of the two metadata files matter only where
/// [`app_root`] gives the directory of an application; `None` stands for one that could not be
/// read.
pub fn resolve_command_path(
    cmd: &str,
    about: &Option<String>,
    manifest: &Option<String>,
) -> (r: Result<String, ShellError>)
    ensures
        match command_path(cmd@, text_of(*about), text_of(*manifest)) {
            Ok(path) => r matches Ok(s) && s@ == path,
            Err(e) => r matches Err(m) && m@ == e,
        },
{
    match app_root(cmd) {
        Some(root) => resolve_app_entry(root.as_str(), about, manifest),
        None => if text_has(cmd, '/') {
            Ok(cmd.to_string())
        } else {
            Ok("/bin/".to_string().concat(cmd))
        },
    }
}

/// Whether a program is reported as not found, given whether a file of that path exists. A path
/// that names an application is not looked up.
pub fn is_missing(path: &str, exists: bool) -> (r: bool)
    ensures
        r == (!ends_with(path@, ".app"@) && !exists),
{
    !text_ends_with(path, ".app") && !exists
}

/// What has become of a program that a line asks for.
#[derive(Clone, Copy, Debug, PartialEq, Eq, Structural)]
pub enum ExternalEvent {
    /// The command names no program.
    Unresolved,
    /// The command names a program; whether it is reported as not found.
    Resolved { missing: bool },
    /// The program was started, and is no longer waited for.
    Started,
    /// The program could not be started, or waiting for it failed.
    NotStarted,
}

/// What the shell does next about a program that a line asks for.
#[derive(Clone, Copy, Debug, PartialEq, Eq, Structural)]
pub enum ExternalStep {
    /// The error is printed behind the name of the command.
    ReportError,
    /// The program is reported as not found.
    ReportMissing,
    /// The program is started.
    Start,
    /// There is nothing left to do.
    Done,
}

/// What the shell does next about a program that a line asks for.
pub open spec fn next_external(event: ExternalEvent) -> ExternalStep {
    match event {
        ExternalEvent::Unresolved => ExternalStep::ReportError,
        ExternalEvent::Resolved { missing } => if missing {
            ExternalStep::ReportMissing
        } else {
            ExternalStep::Start
        },
        ExternalEvent::Started => ExternalStep::Done,
        ExternalEvent::NotStarted => ExternalStep::ReportError,
    }
}

/// Decides what the shell does next about a program that a line asks for.
pub fn external_step(event: ExternalEvent) -> (r: ExternalStep)
    ensures
        r == next_external(event),
{
    match event {
        ExternalEvent::Unresolved => ExternalStep::ReportError,
        ExternalEvent::Resolved { missing } => if missing {
            ExternalStep::ReportMissing
        } else {
            ExternalStep::Start
        },
        ExternalEvent::Started => ExternalStep::Done,
        ExternalEvent::NotStarted => ExternalStep::ReportError,
    }
}

/// How a line comes to its end.
#[derive(Clone, Copy, Debug, PartialEq, Eq, Structural)]
pub enum LineEnd {
    /// The shell goes on to the next line.
    NextLine,
    /// The shell ends.
    Exit,
    /// The shell ends with the error of the command.
    Failure,
}

impl ExternalStep {
    /// How the line ends after the step, or `None` while something of the program is still to
    /// come.
    pub open spec fn end(self) -> Option<LineEnd> {
        match self {
            ExternalStep::ReportError => Some(LineEnd::NextLine),
            ExternalStep::ReportMissing => Some(LineEnd::NextLine),
            ExternalStep::Start => None,
            ExternalStep::Done => Some(LineEnd::NextLine),
        }
    }

    /// How the line ends after the step, or `None` while something of the program is still to
    /// come.
    pub fn line_end(self) -> (r: Option<LineEnd>)
        ensures
            r == self.end(),
    {
        match self {
            ExternalStep::ReportError => Some(LineEnd::NextLine),
            ExternalStep::ReportMissing => Some(LineEnd::NextLine),
            ExternalStep::Start => None,
            ExternalStep::Done => Some(LineEnd::NextLine),
        }
    }
}

impl CommandActionView {
    /// How the line ends once the action has been tried, given whether it failed, or `None` where
    /// a program has to be looked after first. Only what has to do with the working directory can
    /// fail.
    pub open spec fn end(self, failed: bool) -> Option<LineEnd> {
        match self {
            CommandActionView::Exit => Some(LineEnd::Exit),
            CommandActionView::External { .. } => None,
            CommandActionView::PrintDirectory => if failed {
                Some(LineEnd::Failure)
            } else {
                Some(LineEnd::NextLine)
            },
            CommandActionView::ChangeDirectory(_) => if failed {
                Some(LineEnd::Failure)
            } else {
                Some(LineEnd::NextLine)
            },
            _ => Some(LineEnd::NextLine),
        }
    }
}

impl CommandAction {
    /// How the line ends once the action has been tried, given whether it failed, or `None` where
    /// a program has to be looked after first.
    pub fn line_end(&self, failed: bool) -> (r: Option<LineEnd>)
        ensures
            r == self@.end(failed),
    {
        match self {
            CommandAction::Exit => Some(LineEnd::Exit),
            CommandAction::External { .. } => None,
            CommandAction::PrintDirectory | CommandAction::ChangeDirectory(_) => if failed {
                Some(LineEnd::Failure)
            } else {
                Some(LineEnd::NextLine)
            },
            _ => Some(LineEnd::NextLine),
        }
    }
}

} // verus!
