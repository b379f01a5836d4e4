use msh::capability::{
    put_request, CapabilityPromptRequest, CAPABILITY_PROMPT_OPCODE, PROMPT_REQUEST_SIZE,
};
use msh::command::{
    change_dir, external_step, run_command, CommandAction, ExternalEvent, ExternalStep, LineEnd,
    NOT_FOUND, USAGE,
};
use msh::error::{ErrorKind, ShellError};
use msh::input::{
    handle_key_event, parse_input_event, prompt_string, redraw_line, InputEvent, KeyAction,
    KEY_A, KEY_BACKSPACE, KEY_ENTER, KEY_ESCAPE, KEY_N, KEY_S, KEY_TAB, KEY_U, KEY_Y,
};
use msh::policy::ExecutionPromptPolicy;
use msh::prompt::{handle_prompt_key_event, PendingPrompt, PromptDecision};
use msh::session::{
    background_message, foreground_message, incoming_prompt, policy_accepts,
    wait_foreground_child, wait_foreground_pid, BackgroundStep, BackgroundWait, ChildStatus,
    ChildStep, ForegroundStep, NextStep, PromptAction, Session, SessionAction,
};

fn key(keycode: u16, codepoint: u32) -> InputEvent {
    InputEvent { kind: 1, flags: 1, keycode, codepoint, ..InputEvent::default() }
}

fn event_bytes(event: InputEvent) -> [u8; PROMPT_REQUEST_SIZE] {
    let mut buf = [0u8; PROMPT_REQUEST_SIZE];
    buf[0..2].copy_from_slice(&event.kind.to_le_bytes());
    buf[2..4].copy_from_slice(&event.flags.to_le_bytes());
    buf[4..6].copy_from_slice(&event.keycode.to_le_bytes());
    buf[6..8].copy_from_slice(&event.detail.to_le_bytes());
    buf[8..12].copy_from_slice(&event.codepoint.to_le_bytes());
    buf[12..16].copy_from_slice(&event.value_x.to_le_bytes());
    buf[16..20].copy_from_slice(&event.value_y.to_le_bytes());
    buf[20..24].copy_from_slice(&event.value_z.to_le_bytes());
    buf[24..28].copy_from_slice(&event.modifiers.to_le_bytes());
    buf[28..32].copy_from_slice(&event.reserved.to_le_bytes());
    buf
}

fn request(name: &str) -> CapabilityPromptRequest {
    let mut r = CapabilityPromptRequest::default();
    r.opcode = CAPABILITY_PROMPT_OPCODE;
    r.capability_len = name.len() as u16;
    r.capability[..name.len()].copy_from_slice(name.as_bytes());
    r
}

fn request_bytes(r: &CapabilityPromptRequest) -> [u8; PROMPT_REQUEST_SIZE] {
    let mut out = Vec::new();
    put_request(&mut out, r);
    out.try_into().unwrap()
}

fn word(sender: u64, len: u64) -> u64 {
    sender << 32 | len
}

fn pending(sender: u64, name: &str) -> PendingPrompt {
    PendingPrompt { sender, request: request(name) }
}

fn policy() -> ExecutionPromptPolicy {
    ExecutionPromptPolicy::default()
}

#[test]
fn events_are_read_from_their_bytes() {
    let event = InputEvent {
        kind: 0x0102,
        flags: 0x0304,
        keycode: 0x0506,
        detail: 0x0708,
        codepoint: 0x090a_0b0c,
        value_x: -1,
        value_y: i32::MIN,
        value_z: 7,
        modifiers: 0xffff_fffe,
        reserved: 0x8000_0001,
    };
    assert_eq!(parse_input_event(&event_bytes(event)), event);
    assert_eq!(parse_input_event(&event_bytes(event)[..32]), event);
}

#[test]
fn typing_a_line() {
    let mut line = String::new();
    assert_eq!(handle_key_event(&mut line, key(0, 'é' as u32)), KeyAction::Print("é".to_string()));
    assert_eq!(handle_key_event(&mut line, key(KEY_TAB, 0)), KeyAction::Print("    ".to_string()));
    assert_eq!(line, "é    ");
    assert_eq!(handle_key_event(&mut line, key(KEY_BACKSPACE, 0)), KeyAction::Redraw);
    assert_eq!(line, "é   ");
    assert_eq!(
        handle_key_event(&mut line, key(KEY_ENTER, 0)),
        KeyAction::Completed("é   ".to_string())
    );
    assert_eq!(line, "");
    assert_eq!(handle_key_event(&mut line, key(KEY_BACKSPACE, 0)), KeyAction::Nothing);
    assert_eq!(handle_key_event(&mut line, key(KEY_ENTER, 0)), KeyAction::Completed(String::new()));
}

#[test]
fn a_character_goes_before_its_key() {
    let mut line = String::new();
    assert_eq!(handle_key_event(&mut line, key(KEY_ENTER, 'x' as u32)), KeyAction::Print("x".to_string()));
    assert_eq!(handle_key_event(&mut line, key(KEY_ENTER, 0xd800)), KeyAction::Nothing);
    assert_eq!(handle_key_event(&mut line, key(KEY_ENTER, 0x11_0000)), KeyAction::Nothing);
    assert_eq!(line, "x");
}

#[test]
fn other_events_do_nothing() {
    let mut line = "ab".to_string();
    let mut release = key(KEY_ENTER, 0);
    release.flags = 2;
    assert_eq!(handle_key_event(&mut line, release), KeyAction::Nothing);
    let mut pointer = key(KEY_ENTER, 0);
    pointer.kind = 2;
    assert_eq!(handle_key_event(&mut line, pointer), KeyAction::Nothing);
    assert_eq!(handle_key_event(&mut line, key(77, 0)), KeyAction::Nothing);
    let mut repeat = key(KEY_BACKSPACE, 0);
    repeat.flags = 3;
    assert_eq!(handle_key_event(&mut line, repeat), KeyAction::Redraw);
    assert_eq!(line, "a");
}

#[test]
fn backspace_undoes_a_character() {
    let mut line = "ls".to_string();
    handle_key_event(&mut line, key(0, '漢' as u32));
    handle_key_event(&mut line, key(KEY_BACKSPACE, 0));
    assert_eq!(line, "ls");
}

#[test]
fn the_prompt_shows_the_directory() {
    assert_eq!(prompt_string("/home"), "/home $ ");
    assert_eq!(redraw_line("/", "ls"), "\n/ $ ls");
}

#[test]
fn keys_answer_a_prompt() {
    let p = pending(1, "a");
    let decide = |keycode: u16, codepoint: u32| handle_prompt_key_event(&p, key(keycode, codepoint));
    assert_eq!(decide(KEY_Y, 0), Some(PromptDecision::AllowOnce));
    assert_eq!(decide(KEY_S, 0), Some(PromptDecision::AllowForProcess));
    assert_eq!(decide(KEY_A, 0), Some(PromptDecision::AllowPersistently));
    assert_eq!(decide(KEY_U, 0), Some(PromptDecision::AllowAllUserGrantable));
    assert_eq!(decide(KEY_N, 0), Some(PromptDecision::Deny));
    assert_eq!(decide(KEY_ENTER, 0), Some(PromptDecision::Deny));
    assert_eq!(decide(KEY_ESCAPE, 0), Some(PromptDecision::Deny));
    assert_eq!(decide(KEY_Y, 'n' as u32), Some(PromptDecision::Deny));
    assert_eq!(decide(KEY_Y, 'x' as u32), Some(PromptDecision::AllowOnce));
    assert_eq!(decide(KEY_Y, 0xd800), Some(PromptDecision::AllowOnce));
    assert_eq!(decide(77, 'S' as u32), Some(PromptDecision::AllowForProcess));
    assert_eq!(decide(77, 0), None);
    let mut release = key(KEY_Y, 'y' as u32);
    release.flags = 0;
    assert_eq!(handle_prompt_key_event(&p, release), None);
}

#[test]
fn typed_lines_ask_for_commands() {
    assert_eq!(run_command(" \t"), Ok(CommandAction::Nothing));
    assert_eq!(run_command(" exit now"), Ok(CommandAction::Exit));
    assert_eq!(run_command("echo  a   b "), Ok(CommandAction::Echo("a b".to_string())));
    assert_eq!(run_command("echo"), Ok(CommandAction::Echo(String::new())));
    assert_eq!(run_command("pwd"), Ok(CommandAction::PrintDirectory));
    assert_eq!(run_command("cd"), Ok(CommandAction::ChangeDirectory("/".to_string())));
    assert_eq!(run_command("cd /tmp x"), Ok(CommandAction::ChangeDirectory("/tmp".to_string())));
    assert_eq!(run_command("--background"), Ok(CommandAction::Usage));
    assert_eq!(run_command("--"), Ok(CommandAction::Usage));
    assert_eq!(
        run_command("--deny-prompts ls -l"),
        Ok(CommandAction::External {
            policy: ExecutionPromptPolicy { deny_prompts: true, ..policy() },
            argv: vec!["ls".to_string(), "-l".to_string()],
        })
    );
    assert_eq!(
        run_command("Exit"),
        Ok(CommandAction::External { policy: policy(), argv: vec!["Exit".to_string()] })
    );
    assert_eq!(
        run_command("--allow-session"),
        Err(ShellError::Failure {
            kind: ErrorKind::InvalidInput,
            message: "--allow-session requires capability".to_string(),
        })
    );
    assert!(USAGE.starts_with("usage: [--deny-prompts] "));
    assert!(USAGE.ends_with(" command [args...]"));
}

#[test]
fn steps_of_an_external_command() {
    assert_eq!(external_step(ExternalEvent::Unresolved), ExternalStep::ReportError);
    assert_eq!(
        external_step(ExternalEvent::Resolved { missing: true }),
        ExternalStep::ReportMissing
    );
    assert_eq!(external_step(ExternalEvent::Resolved { missing: false }), ExternalStep::Start);
    assert_eq!(external_step(ExternalEvent::Started), ExternalStep::Done);
    assert_eq!(external_step(ExternalEvent::NotStarted), ExternalStep::ReportError);
    assert_eq!(NOT_FOUND, "notfound");
}

#[test]
fn no_external_command_ends_the_shell() {
    assert_eq!(ExternalStep::ReportError.line_end(), Some(LineEnd::NextLine));
    assert_eq!(ExternalStep::ReportMissing.line_end(), Some(LineEnd::NextLine));
    assert_eq!(ExternalStep::Done.line_end(), Some(LineEnd::NextLine));
    assert_eq!(ExternalStep::Start.line_end(), None);
    assert_eq!(run_command("ls").unwrap().line_end(false), None);
    assert_eq!(run_command("ls").unwrap().line_end(true), None);
}

#[test]
fn what_ends_the_shell() {
    let end = |line: &str, failed: bool| run_command(line).unwrap().line_end(failed);
    assert_eq!(end("exit", false), Some(LineEnd::Exit));
    for line in ["", "echo exit", "pwd", "cd /", "--background"] {
        assert_eq!(end(line, false), Some(LineEnd::NextLine), "{line}");
    }
    assert_eq!(end("pwd", true), Some(LineEnd::Failure));
    assert_eq!(end("cd /", true), Some(LineEnd::Failure));
    assert_eq!(end("echo", true), Some(LineEnd::NextLine));
}

#[test]
fn directories_are_handed_to_the_kernel() {
    assert_eq!(change_dir("/tmp"), Ok(b"/tmp\0".to_vec()));
    assert_eq!(
        change_dir("a\0b"),
        Err(ShellError::Failure {
            kind: ErrorKind::InvalidInput,
            message: "path contains NUL".to_string(),
        })
    );
}

#[test]
fn requests_in_messages() {
    let bytes = request_bytes(&request("fs"));
    assert_eq!(incoming_prompt(word(5, 784), &bytes), Some(pending(5, "fs")));
    assert_eq!(incoming_prompt(word(0xffff_ffff, 9999), &bytes), Some(pending(0xffff_ffff, "fs")));
    assert_eq!(incoming_prompt(word(5, 783), &bytes), None);
    assert_eq!(incoming_prompt(word(5, 784), &[0; PROMPT_REQUEST_SIZE]), None);
}

#[test]
fn a_session() {
    let mut session = Session::new();
    assert_eq!(session, Session { line: String::new(), prompt: None });
    let typed = event_bytes(key(0, 'l' as u32));
    assert_eq!(
        session.receive(word(1, 32), &typed),
        SessionAction::Key(KeyAction::Print("l".to_string()))
    );
    // A request brings up its prompt and leaves the line alone.
    let asked = request_bytes(&request("fs"));
    assert!(Session::accepts(word(4, 784), &asked));
    assert_eq!(session.receive(word(4, 784), &asked), SessionAction::Show(pending(4, "fs")));
    assert_eq!(session.line, "l");
    // Keys now belong to the prompt.
    assert_eq!(session.receive(word(1, 32), &typed), SessionAction::Nothing);
    assert_eq!(session.line, "l");
    assert_eq!(session.prompt, Some(pending(4, "fs")));
    // Another request takes the place of the first.
    let other = request_bytes(&request("net"));
    assert_eq!(session.receive(word(6, 784), &other), SessionAction::Show(pending(6, "net")));
    assert_eq!(
        session.receive(word(1, 32), &event_bytes(key(0, 'y' as u32))),
        SessionAction::Reply(pending(6, "net"), PromptDecision::AllowOnce)
    );
    assert_eq!(session.prompt, None);
    assert_eq!(
        session.receive(word(1, 32), &event_bytes(key(KEY_ENTER, 0))),
        SessionAction::Key(KeyAction::Completed("l".to_string()))
    );
    assert_eq!(session, Session::new());
    assert_eq!(session.receive(word(1, 5), &typed), SessionAction::Nothing);
}

#[test]
fn requests_with_false_lengths_are_not_accepted() {
    let mut r = request("fs");
    r.executable.path_len = 300;
    assert!(!Session::accepts(word(4, 784), &request_bytes(&r)));
    assert!(Session::accepts(word(4, 32), &request_bytes(&r)));
    assert!(!policy_accepts(&policy(), word(4, 784), &request_bytes(&r)));
    let deny = ExecutionPromptPolicy { deny_prompts: true, ..policy() };
    assert!(policy_accepts(&deny, word(4, 784), &request_bytes(&r)));
    let allow = ExecutionPromptPolicy { allow_session: vec!["fs".to_string()], ..policy() };
    assert!(policy_accepts(&allow, word(4, 784), &request_bytes(&r)));
    r.capability_len = 65;
    assert!(!policy_accepts(&allow, word(4, 784), &request_bytes(&r)));
}

#[test]
fn a_command_in_the_foreground() {
    let ask = policy();
    let bytes = request_bytes(&request("fs"));
    let idle = ForegroundStep {
        prompt: None,
        action: PromptAction::Nothing,
        next: NextStep::PollChild,
    };
    assert_eq!(foreground_message(None, &ask, None, &bytes), idle);
    let shown = foreground_message(None, &ask, Some(word(4, 784)), &bytes);
    assert_eq!(
        shown,
        ForegroundStep {
            prompt: Some(pending(4, "fs")),
            action: PromptAction::Show(pending(4, "fs")),
            next: NextStep::PollChild,
        }
    );
    let other_key = event_bytes(key(77, 0));
    assert_eq!(
        foreground_message(shown.prompt, &ask, Some(word(1, 32)), &other_key),
        ForegroundStep {
            prompt: shown.prompt,
            action: PromptAction::Nothing,
            next: NextStep::Receive,
        }
    );
    let yes = event_bytes(key(KEY_Y, 0));
    assert_eq!(
        foreground_message(shown.prompt, &ask, Some(word(1, 32)), &yes),
        ForegroundStep {
            prompt: None,
            action: PromptAction::Reply(pending(4, "fs"), PromptDecision::AllowOnce),
            next: NextStep::Receive,
        }
    );
    assert_eq!(foreground_message(None, &ask, Some(word(1, 32)), &yes), idle);
}

#[test]
fn policies_answer_in_the_foreground() {
    let deny = ExecutionPromptPolicy { deny_prompts: true, ..policy() };
    let bytes = request_bytes(&request("fs"));
    let step = foreground_message(None, &deny, Some(word(4, 784)), &bytes);
    assert_eq!(
        step,
        ForegroundStep {
            prompt: None,
            action: PromptAction::Reply(pending(4, "fs"), PromptDecision::Deny),
            next: NextStep::PollChild,
        }
    );
    let background = ExecutionPromptPolicy { background: true, allow_all_user: true, ..policy() };
    let waiting = Some(pending(9, "net"));
    assert_eq!(
        foreground_message(waiting, &background, Some(word(4, 784)), &bytes),
        ForegroundStep {
            prompt: waiting,
            action: PromptAction::Reply(pending(4, "fs"), PromptDecision::AllowAllUserGrantable),
            next: NextStep::Done,
        }
    );
}

#[test]
fn looking_after_a_child() {
    let ask = policy();
    let background = ExecutionPromptPolicy { background: true, ..policy() };
    let failed = |errno: Option<i32>, would_block: bool| ChildStatus::Failed { errno, would_block };
    assert_eq!(
        wait_foreground_child(true, &ask, ChildStatus::Exited),
        ChildStep::Finish { newline: true }
    );
    assert_eq!(
        wait_foreground_child(false, &ask, ChildStatus::Exited),
        ChildStep::Finish { newline: false }
    );
    assert_eq!(wait_foreground_child(true, &ask, ChildStatus::Running), ChildStep::Yield);
    assert_eq!(wait_foreground_child(true, &ask, failed(Some(11), false)), ChildStep::Yield);
    assert_eq!(wait_foreground_child(true, &ask, failed(None, true)), ChildStep::Yield);
    assert_eq!(wait_foreground_child(true, &ask, failed(Some(10), false)), ChildStep::Fail);
    assert_eq!(wait_foreground_child(true, &background, failed(Some(10), false)), ChildStep::Yield);
}

#[test]
fn looking_after_a_process() {
    let finish = ChildStep::Finish { newline: true };
    assert_eq!(wait_foreground_pid(true, 42, 42, None, false), finish);
    assert_eq!(wait_foreground_pid(true, 42, 0, None, false), ChildStep::Yield);
    assert_eq!(wait_foreground_pid(true, 42, 7, None, false), ChildStep::Yield);
    assert_eq!(wait_foreground_pid(true, 42, -1, Some(10), false), ChildStep::Fail);
    assert_eq!(wait_foreground_pid(true, 42, -1, Some(11), false), ChildStep::Yield);
    assert_eq!(wait_foreground_pid(true, 42, -1, Some(35), true), ChildStep::Yield);
}

#[test]
fn a_command_in_the_background() {
    let ask = policy();
    let allow = ExecutionPromptPolicy { allow_session: vec!["fs".to_string()], ..policy() };
    let bytes = request_bytes(&request("fs"));
    assert_eq!(background_message(&ask, Err(ShellError::Os(11)), &bytes), BackgroundStep::Yield);
    assert_eq!(
        background_message(&ask, Err(ShellError::Os(5)), &bytes),
        BackgroundStep::Fail(ShellError::Os(5))
    );
    let other = ShellError::new(ErrorKind::NotFound, "x");
    assert_eq!(
        background_message(&ask, Err(other.clone()), &bytes),
        BackgroundStep::Fail(other)
    );
    assert_eq!(background_message(&ask, Ok(word(4, 32)), &bytes), BackgroundStep::Again);
    assert_eq!(
        background_message(&ask, Ok(word(4, 784)), &bytes),
        BackgroundStep::Show(pending(4, "fs"))
    );
    assert_eq!(
        background_message(&allow, Ok(word(4, 784)), &bytes),
        BackgroundStep::Reply(pending(4, "fs"), PromptDecision::AllowForProcess)
    );
}

#[test]
fn patience_in_the_background_ends() {
    let mut wait = BackgroundWait::new();
    for _ in 0..65_536 {
        assert_eq!(wait.next_attempt(), Ok(()));
    }
    let expired = Err(ShellError::Failure {
        kind: ErrorKind::TimedOut,
        message: "background command did not request a session capability".to_string(),
    });
    assert_eq!(wait.next_attempt(), expired);
    assert_eq!(wait.next_attempt(), expired);
    assert_eq!(wait.attempts, 65_536);
}
