//! What holds of every typed line.
use crate::command::{
    app_directory, app_root, change_dir, command_action, command_path, external_step, is_missing,
    metadata_paths, next_external, resolve_command_path, run_command, CommandAction,
    CommandActionView, ExternalEvent, ExternalStep, LineEnd,
};
use crate::error::{failure, ErrorKind, ErrorView, ShellError};
use crate::metadata::{path_below, resolve_app_entry, text_of};
use crate::metadata_laws::{application_starts_with_its_entry, field_line};
use crate::policy::{external_options, lemma_options_from, PolicyView};
use crate::policy_laws::command_without_options_stays_whole;
use crate::text::{ends_with, join, lemma_skip_white, skip_white, white_space, words};
use crate::text_laws::{end_stands_behind_something, joined_words_come_apart, solid};
use vstd::prelude::*;
use vstd::string::*;
use vstd::utf8::encode_utf8;

verus! {

/// A line of white space asks for nothing.
pub proof fn blank_line_does_nothing(line: Seq<char>)
    requires
        forall|i: int| 0 <= i < line.len() ==> white_space(#[trigger] line[i]),
    ensures
        command_action(line) == Ok::<CommandActionView, ErrorView>(CommandActionView::Nothing),
{
    lemma_skip_white(line, 0);
    assert(skip_white(line, 0) == line.len());
    assert(words(line) =~= Seq::<Seq<char>>::empty());
}

/// `echo` prints its words, with one space between neighbours.
pub proof fn echo_prints_its_words(list: Seq<Seq<char>>)
    requires
        forall|k: int| 0 <= k < list.len() ==> solid(#[trigger] list[k]),
    ensures
        command_action(join(seq!["echo"@] + list, seq![' '])) == Ok::<CommandActionView, ErrorView>(
            CommandActionView::Echo(join(list, " "@)),
        ),
{
    let argv = seq!["echo"@] + list;
    reveal_strlit("echo");
    reveal_strlit("exit");
    reveal_strlit(" ");
    assert(solid("echo"@));
    assert forall|k: int| 0 <= k < argv.len() implies solid(#[trigger] argv[k]) by {
        if k > 0 {
            assert(argv[k] == list[k - 1]);
        }
    }
    joined_words_come_apart(argv);
    assert("echo"@[1] != "exit"@[1]);
    assert(argv.skip(1) =~= list);
}

/// A command that is neither built in nor an option is run with its arguments as they were
/// typed, and its requests are put before the user.
pub proof fn other_commands_are_run(argv: Seq<Seq<char>>)
    requires
        argv.len() > 0,
        forall|k: int| 0 <= k < argv.len() ==> solid(#[trigger] argv[k]),
        argv[0] != "exit"@ && argv[0] != "echo"@ && argv[0] != "pwd"@ && argv[0] != "cd"@,
        argv[0] != "--deny-prompts"@ && argv[0] != "--allow-all-user"@,
        argv[0] != "--background"@ && argv[0] != "--allow-session"@ && argv[0] != "--"@,
    ensures
        command_action(join(argv, seq![' '])) == Ok::<CommandActionView, ErrorView>(
            CommandActionView::External { policy: PolicyView::ask_user(), argv },
        ),
{
    joined_words_come_apart(argv);
    command_without_options_stays_whole(argv);
    assert(argv.skip(0) =~= argv);
}

/// The metadata files matter only to a command that names an application.
pub proof fn metadata_matters_only_to_applications(
    cmd: Seq<char>,
    about: Option<Seq<char>>,
    manifest: Option<Seq<char>>,
)
    requires
        !ends_with(cmd, ".app"@),
    ensures
        command_path(cmd, about, manifest) == command_path(cmd, None, None),
        command_path(cmd, about, manifest) is Ok,
{
}

/// An application that is named without a slash starts with the entry that the `about.toml` in
/// its directory below `/applications` gives.
pub proof fn named_application_is_found(cmd: Seq<char>, entry: Seq<char>, manifest: Seq<char>)
    requires
        ends_with(cmd, ".app"@),
        !cmd.contains('/'),
    ensures
        app_directory(cmd) == Some("/applications/"@ + cmd),
        command_path(
            cmd,
            Some(field_line("entry"@, entry) + seq!['\n']),
            Some(manifest),
        ) == Ok::<Seq<char>, ErrorView>(path_below("/applications/"@ + cmd, entry)),
{
    reveal_strlit("/applications");
    reveal_strlit("/applications/");
    assert(cmd.len() > 0 && cmd[0] == '/' ==> cmd.contains('/'));
    assert(path_below("/applications"@, cmd) =~= "/applications/"@ + cmd);
    let root = "/applications/"@ + cmd;
    application_starts_with_its_entry(root, entry, seq![], manifest);
    assert(field_line("entry"@, entry) + seq!['\n'] + Seq::<char>::empty() =~= field_line(
        "entry"@,
        entry,
    ) + seq!['\n']);
}

/// How the line ends after what became of a program, event by event: the first step that leaves
/// nothing to come decides. `None` while something is still to come.
pub open spec fn external_end(events: Seq<ExternalEvent>) -> Option<LineEnd>
    decreases events.len(),
{
    if events.len() == 0 {
        None
    } else {
        match next_external(events[0]).end() {
            Some(end) => Some(end),
            None => external_end(events.drop_first()),
        }
    }
}

/// How a line that asks for an action ends: whether the action failed matters to the built-in
/// commands, and the events tell what became of a program.
pub open spec fn action_end(
    action: CommandActionView,
    failed: bool,
    events: Seq<ExternalEvent>,
) -> Option<LineEnd> {
    match action.end(failed) {
        Some(end) => Some(end),
        None => external_end(events),
    }
}

/// No external command ends the shell, whatever becomes of it.
pub proof fn external_command_never_ends_the_shell(
    line: Seq<char>,
    failed: bool,
    events: Seq<ExternalEvent>,
)
    ensures
        command_action(line) matches Ok(action) ==> (action is External ==> (action_end(
            action,
            failed,
            events,
        ) matches Some(end) ==> end == LineEnd::NextLine)),
{
    lemma_external_end(events);
}

proof fn lemma_external_end(events: Seq<ExternalEvent>)
    ensures
        external_end(events) matches Some(end) ==> end == LineEnd::NextLine,
    decreases events.len(),
{
    if events.len() > 0 {
        lemma_external_end(events.drop_first());
    }
}

/// A line ends the shell exactly where its first word is `exit`, and ends it with an error
/// exactly where its first word is `pwd` or `cd` and that failed.
pub proof fn what_ends_the_shell(line: Seq<char>, failed: bool, events: Seq<ExternalEvent>)
    ensures
        command_action(line) matches Ok(action) ==> {
            &&& action_end(action, failed, events) == Some(LineEnd::Exit) <==> words(line).len()
                > 0 && words(line)[0] == "exit"@
            &&& action_end(action, failed, events) == Some(LineEnd::Failure) <==> failed && words(
                line,
            ).len() > 0 && (words(line)[0] == "pwd"@ || words(line)[0] == "cd"@)
        },
{
    lemma_external_end(events);
    reveal_strlit("exit");
    reveal_strlit("echo");
    reveal_strlit("pwd");
    reveal_strlit("cd");
    assert("exit"@.len() == 4 && "echo"@.len() == 4 && "pwd"@.len() == 3 && "cd"@.len() == 2);
}

/// A program is started at most once, only where the command names one that is not missing, and
/// then the shell goes on whether or not it could be started. In every other case the shell goes
/// on without starting it, and has reported why.
pub proof fn external_command_is_started_once(found: ExternalEvent, started: ExternalEvent)
    requires
        found is Unresolved || found is Resolved,
        started is Started || started is NotStarted,
    ensures
        next_external(found) == ExternalStep::Start <==> found == (ExternalEvent::Resolved {
            missing: false,
        }),
        next_external(found) != ExternalStep::Start ==> external_end(seq![found]) == Some(
            LineEnd::NextLine,
        ) && (next_external(found) == ExternalStep::ReportError || next_external(found)
            == ExternalStep::ReportMissing),
        next_external(started) != ExternalStep::Start,
        external_end(seq![found, started]) == Some(LineEnd::NextLine),
{
    reveal_with_fuel(external_end, 3);
    assert(seq![found, started].drop_first() =~= seq![started]);
}

/// The first word of a line decides what it asks for. `exit` and `pwd` take no notice of further
/// words, `echo` prints all of them, and `cd` takes the first, or else the root. Any other line is
/// options and a command, which keeps its words; without a command it asks for the usage.
pub proof fn first_word_decides(line: &str, r: Result<CommandAction, ShellError>)
    requires
        call_ensures(run_command, (line,), r),
    ensures
        ({
            let w = words(line@);
            &&& w.len() == 0 ==> (r matches Ok(a) && a is Nothing)
            &&& w.len() > 0 && w[0] == "exit"@ ==> (r matches Ok(a) && a is Exit)
            &&& w.len() > 0 && w[0] == "echo"@ ==> (r matches Ok(CommandAction::Echo(text))
                && text@ == join(w.skip(1), seq![' ']))
            &&& w.len() > 0 && w[0] == "pwd"@ ==> (r matches Ok(a) && a is PrintDirectory)
            &&& w.len() > 1 && w[0] == "cd"@ ==> (r matches Ok(CommandAction::ChangeDirectory(t))
                && t@ == w[1])
            &&& w.len() == 1 && w[0] == "cd"@ ==> (r matches Ok(CommandAction::ChangeDirectory(t))
                && t@ == seq!['/'])
            &&& w.len() > 0 && w[0] != "exit"@ && w[0] != "echo"@ && w[0] != "pwd"@ && w[0]
                != "cd"@ ==> match external_options(w) {
                Err(e) => r matches Err(m) && m@ == e,
                Ok((policy, at)) => if at == w.len() {
                    r matches Ok(a) && a is Usage
                } else {
                    r matches Ok(CommandAction::External { policy: p, argv }) && p@ == policy
                        && argv.deep_view() == w.skip(at)
                },
            }
        }),
{
    reveal_strlit("exit");
    reveal_strlit("echo");
    reveal_strlit("pwd");
    reveal_strlit("cd");
    reveal_strlit(" ");
    reveal_strlit("/");
    assert(" "@ =~= seq![' ']);
    assert("/"@ =~= seq!['/']);
    assert("exit"@[1] != "echo"@[1]);
    assert("exit"@.len() == 4 && "echo"@.len() == 4 && "pwd"@.len() == 3 && "cd"@.len() == 2);
    lemma_options_from(words(line@), 0, PolicyView::ask_user());
    if let Ok(action) = r {
        if let CommandAction::External { policy, argv } = action {
            assert(action@ == CommandActionView::External {
                policy: policy@,
                argv: argv.deep_view(),
            });
        }
    }
}

/// A command that holds a slash and does not end in `.app` names itself, and one without a slash
/// names the program of that name in `/bin`. The metadata of applications do not matter to either.
pub proof fn command_names_itself_or_a_program(
    cmd: &str,
    about: &Option<String>,
    manifest: &Option<String>,
    r: Result<String, ShellError>,
    i: int,
)
    requires
        call_ensures(resolve_command_path, (cmd, about, manifest), r),
        !ends_with(cmd@, ".app"@),
    ensures
        0 <= i < cmd@.len() && cmd@[i] == '/' ==> (r matches Ok(path) && path@ == cmd@),
        (forall|k: int| 0 <= k < cmd@.len() ==> #[trigger] cmd@[k] != '/') ==> (r matches Ok(path)
            && path@ == seq!['/', 'b', 'i', 'n', '/'] + cmd@),
        command_path(cmd@, text_of(*about), text_of(*manifest)) matches Ok(path) && r->Ok_0@
            == path,
{
    reveal_strlit("/bin/");
    assert("/bin/"@ =~= seq!['/', 'b', 'i', 'n', '/']);
    if 0 <= i < cmd@.len() && cmd@[i] == '/' {
        assert(cmd@.contains('/'));
    }
}

/// A command that ends in `.app` names an application: the directory itself where it holds a
/// slash, and else the one of that name in `/applications`. No other command names one.
pub proof fn applications_end_in_app(cmd: &str, r: Option<String>, front: Seq<char>, i: int)
    requires
        call_ensures(app_root, (cmd,), r),
    ensures
        r is Some <==> ends_with(cmd@, ".app"@),
        cmd@ == front + ".app"@ ==> r is Some,
        r is Some && 0 <= i < cmd@.len() && cmd@[i] == '/' ==> r->0@ == cmd@,
        r is Some && (forall|k: int| 0 <= k < cmd@.len() ==> #[trigger] cmd@[k] != '/') ==> r->0@
            == "/applications/"@ + cmd@,
{
    end_stands_behind_something(cmd@, front, ".app"@);
    reveal_strlit("/applications");
    reveal_strlit("/applications/");
    if 0 <= i < cmd@.len() && cmd@[i] == '/' {
        assert(cmd@.contains('/'));
    }
    if r is Some && forall|k: int| 0 <= k < cmd@.len() ==> #[trigger] cmd@[k] != '/' {
        assert(!cmd@.contains('/'));
        assert(path_below("/applications"@, cmd@) =~= "/applications/"@ + cmd@);
    }
}

/// An application starts with the entry that its metadata give for its directory.
pub proof fn applications_start_with_their_entry(
    cmd: &str,
    about: &Option<String>,
    manifest: &Option<String>,
    r: Result<String, ShellError>,
    root: &str,
    entry: Result<String, ShellError>,
)
    requires
        call_ensures(resolve_command_path, (cmd, about, manifest), r),
        call_ensures(resolve_app_entry, (root, about, manifest), entry),
        ends_with(cmd@, ".app"@),
        root@ == (if cmd@.contains('/') {
            cmd@
        } else {
            "/applications/"@ + cmd@
        }),
    ensures
        r is Ok <==> entry is Ok,
        r matches Ok(path) ==> path@ == entry->Ok_0@,
        r matches Err(e) ==> e@ == entry->Err_0@,
{
    reveal_strlit("/applications");
    reveal_strlit("/applications/");
    if !cmd@.contains('/') {
        assert(cmd@.len() > 0 && cmd@[0] == '/' ==> cmd@.contains('/'));
        assert(path_below("/applications"@, cmd@) =~= "/applications/"@ + cmd@);
    }
}

/// The metadata of an application lie in its directory.
pub proof fn metadata_lie_in_the_directory(root: &str, r: (String, String))
    requires
        call_ensures(metadata_paths, (root,), r),
        root@.len() > 0,
        root@.last() != '/',
    ensures
        r.0@ == root@ + "/about.toml"@,
        r.1@ == root@ + "/manifest.toml"@,
{
    reveal_strlit("about.toml");
    reveal_strlit("/about.toml");
    reveal_strlit("manifest.toml");
    reveal_strlit("/manifest.toml");
    assert(r.0@ =~= root@ + "/about.toml"@);
    assert(r.1@ =~= root@ + "/manifest.toml"@);
}

/// A program is missing exactly where no file of its path exists and the path does not end in
/// `.app`.
pub proof fn missing_programs_do_not_exist(path: &str, exists: bool, r: bool, front: Seq<char>)
    requires
        call_ensures(is_missing, (path, exists), r),
    ensures
        exists ==> !r,
        path@ == front + ".app"@ ==> !r,
        !exists && !ends_with(path@, ".app"@) ==> r,
{
    end_stands_behind_something(path@, front, ".app"@);
}

/// A directory is handed to the kernel with a zero behind it, and refused where it holds a zero.
pub proof fn directories_are_terminated(target: &str, r: Result<Vec<u8>, ShellError>)
    requires
        call_ensures(change_dir, (target,), r),
    ensures
        encode_utf8(target@).contains(0u8) <==> r is Err,
        r matches Ok(bytes) ==> bytes@ == encode_utf8(target@).push(0u8),
        r matches Err(e) ==> e@ == failure(ErrorKind::InvalidInput, "path contains NUL"@),
{
}

/// What the shell does next about a program, for each thing that can become of it.
pub proof fn steps_follow_events(event: ExternalEvent, step: ExternalStep, end: Option<LineEnd>)
    requires
        call_ensures(external_step, (event,), step),
        call_ensures(ExternalStep::line_end, (step,), end),
    ensures
        event is Unresolved || event is NotStarted ==> step is ReportError,
        event == (ExternalEvent::Resolved { missing: true }) ==> step is ReportMissing,
        event == (ExternalEvent::Resolved { missing: false }) ==> step is Start,
        event is Started ==> step is Done,
        step is Start ==> end is None,
        !(step is Start) ==> end == Some(LineEnd::NextLine),
{
}

/// How a line ends once its action has been tried.
pub proof fn lines_end(action: &CommandAction, failed: bool, end: Option<LineEnd>)
    requires
        call_ensures(CommandAction::line_end, (action, failed), end),
    ensures
        action is Exit ==> end == Some(LineEnd::Exit),
        action is External ==> end is None,
        (action is PrintDirectory || action is ChangeDirectory) && failed ==> end == Some(
            LineEnd::Failure,
        ),
        (action is PrintDirectory || action is ChangeDirectory) && !failed ==> end == Some(
            LineEnd::NextLine,
        ),
        action is Nothing || action is Echo || action is Usage ==> end == Some(LineEnd::NextLine),
{
}

} // verus!
