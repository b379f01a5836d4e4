//! The messages that reach the shell, and what each makes it do: while a line is typed, while a
//! command runs in the foreground, and after one was started in the background.
use crate::capability::{
    parse_capability_request, request_in, CapabilityClass, CapabilityPromptRequest,
    PROMPT_REQUEST_SIZE,
};
use crate::error::{failure, ErrorKind, ShellError};
use crate::input::{
    event_at, handle_key_event, key_outcome, parse_input_event, KeyAction, KeyActionView,
    INPUT_EVENT_SIZE,
};
use crate::policy::{
    decided_at_once, policy_decision, prompt_policy_decision, ExecutionPromptPolicy, PolicyView,
};
use crate::prompt::{
    event_decision, handle_prompt_key_event, message_len, message_length, message_sender,
    PendingPrompt, PromptDecision,
};
use crate::system::EAGAIN;
use vstd::prelude::*;
use vstd::string::*;

verus! {

/// How often a message of a background command is waited for.
pub const BACKGROUND_ATTEMPTS: u32 = 65536;

/// The bytes of a message: as many as its word says, at most what the buffer holds.
pub open spec fn received(msg: u64, buf: Seq<u8>) -> Seq<u8> {
    if message_length(msg) < buf.len() {
        buf.take(message_length(msg) as int)
    } else {
        buf
    }
}

/// The prompt that a message asks for, if it is a request for a capability.
pub open spec fn incoming(msg: u64, buf: Seq<u8>) -> Option<PendingPrompt> {
    match request_in(received(msg, buf)) {
        Some(request) => Some(PendingPrompt { sender: message_sender(msg), request }),
        None => None,
    }
}

/// Reads the prompt that a message asks for, if it is a request for a capability.
pub fn incoming_prompt(msg: u64, buf: &[u8; PROMPT_REQUEST_SIZE]) -> (r: Option<PendingPrompt>)
    ensures
        r == incoming(msg, buf@),
{
    let len = message_len(msg);
    let end = if len < PROMPT_REQUEST_SIZE {
        len
    } else {
        PROMPT_REQUEST_SIZE
    };
    let bytes = &buf[0..end];
    assert(bytes@ =~= received(msg, buf@));
    match parse_capability_request(bytes) {
        Some(request) => Some(PendingPrompt { sender: msg / 4294967296, request }),
        None => None,
    }
}

/// The shell while it waits for a line: the line so far, and the prompt that waits for its
/// answer.
#[derive(Clone, Debug, PartialEq, Eq)]
pub struct Session {
    pub line: String,
    pub prompt: Option<PendingPrompt>,
}

/// What a [`Session`] holds.
#[verifier::ext_equal]
pub struct SessionView {
    pub line: Seq<char>,
    pub prompt: Option<PendingPrompt>,
}

impl View for Session {
    type V = SessionView;

    open spec fn view(&self) -> SessionView {
        SessionView { line: self.line@, prompt: self.prompt }
    }
}

/// What the shell does after a message.
#[derive(Clone, Debug, PartialEq, Eq)]
pub enum SessionAction {
    Nothing,
    /// A key changed the line.
    Key(KeyAction),
    /// A prompt is shown.
    Show(PendingPrompt),
    /// A prompt is answered.
    Reply(PendingPrompt, PromptDecision),
}

/// What a [`SessionAction`] says.
#[verifier::ext_equal]
pub enum SessionActionView {
    Nothing,
    Key(KeyActionView),
    Show(PendingPrompt),
    Reply(PendingPrompt, PromptDecision),
}

impl View for SessionAction {
    type V = SessionActionView;

    open spec fn view(&self) -> SessionActionView {
        match self {
            SessionAction::Nothing => SessionActionView::Nothing,
            SessionAction::Key(action) => SessionActionView::Key(action@),
            SessionAction::Show(prompt) => SessionActionView::Show(*prompt),
            SessionAction::Reply(prompt, decision) => SessionActionView::Reply(*prompt, *decision),
        }
    }
}

/// The session after a message, and what the shell does.
///
/// A message of the length of an input event is one: it belongs to the prompt that waits, or else
/// to the line. A request for a capability brings up its prompt, in place of one that waits.
pub open spec fn session_step(s: SessionView, msg: u64, buf: Seq<u8>) -> (
    SessionView,
    SessionActionView,
) {
    if message_length(msg) == INPUT_EVENT_SIZE {
        match s.prompt {
            None => {
                let (line, action) = key_outcome(s.line, event_at(buf));
                (SessionView { line, prompt: None }, SessionActionView::Key(action))
            },
            Some(prompt) => match event_decision(event_at(buf)) {
                Some(decision) => (
                    SessionView { line: s.line, prompt: None },
                    SessionActionView::Reply(prompt, decision),
                ),
                None => (s, SessionActionView::Nothing),
            },
        }
    } else {
        match incoming(msg, buf) {
            Some(prompt) => (
                SessionView { line: s.line, prompt: Some(prompt) },
                SessionActionView::Show(prompt),
            ),
            None => (s, SessionActionView::Nothing),
        }
    }
}

/// Whether a message, if it is a request, can be shown as a prompt.
pub open spec fn showable(msg: u64, buf: Seq<u8>) -> bool {
    incoming(msg, buf) matches Some(prompt) ==> prompt.request.can_be_shown()
}

impl Session {
    /// The shell with an empty line and no prompt.
    pub fn new() -> (r: Session)
        ensures
            r@ == (SessionView { line: seq![], prompt: None }),
    {
        Session { line: String::new(), prompt: None }
    }

    /// Whether a message, if it is a request, can be shown as a prompt.
    pub fn accepts(msg: u64, buf: &[u8; PROMPT_REQUEST_SIZE]) -> (r: bool)
        ensures
            r == showable(msg, buf@),
    {
        match incoming_prompt(msg, buf) {
            Some(prompt) => prompt.request.is_showable(),
            None => true,
        }
    }

    /// Takes a message in.
    pub fn receive(&mut self, msg: u64, buf: &[u8; PROMPT_REQUEST_SIZE]) -> (r: SessionAction)
        requires
            showable(msg, buf@),
        ensures
            (final(self)@, r@) == session_step(old(self)@, msg, buf@),
    {
        if message_len(msg) == INPUT_EVENT_SIZE {
            let event = parse_input_event(buf);
            match self.prompt {
                None => SessionAction::Key(handle_key_event(&mut self.line, event)),
                Some(prompt) => match handle_prompt_key_event(&prompt, event) {
                    Some(decision) => {
                        self.prompt = None;
                        SessionAction::Reply(prompt, decision)
                    },
                    None => SessionAction::Nothing,
                },
            }
        } else {
            match incoming_prompt(msg, buf) {
                Some(prompt) => {
                    self.prompt = Some(prompt);
                    SessionAction::Show(prompt)
                },
                None => SessionAction::Nothing,
            }
        }
    }
}

/// What the shell does about a prompt.
#[derive(Clone, Copy, Debug, PartialEq, Eq)]
pub enum PromptAction {
    Nothing,
    Show(PendingPrompt),
    Reply(PendingPrompt, PromptDecision),
}

/// What follows a message while a command runs in the foreground.
#[derive(Clone, Copy, Debug, PartialEq, Eq, Structural)]
pub enum NextStep {
    /// The next message is looked for.
    Receive,
    /// The command is looked after.
    PollChild,
    /// The command is no longer waited for.
    Done,
}

/// One step of waiting for a command: the prompt that waits after it, what the shell does, and
/// what follows.
#[derive(Clone, Copy, Debug, PartialEq, Eq)]
pub struct ForegroundStep {
    pub prompt: Option<PendingPrompt>,
    pub action: PromptAction,
    pub next: NextStep,
}

/// The step that a message makes while a command runs, or that its absence makes.
///
/// While a prompt waits, an input event belongs to it. A request is answered by the policy where
/// the policy answers it, and brings up its prompt otherwise.
pub open spec fn foreground_step(
    prompt: Option<PendingPrompt>,
    policy: PolicyView,
    msg: Option<u64>,
    buf: Seq<u8>,
) -> ForegroundStep {
    match msg {
        None => ForegroundStep { prompt, action: PromptAction::Nothing, next: NextStep::PollChild },
        Some(m) => if prompt is Some && message_length(m) == INPUT_EVENT_SIZE {
            match event_decision(event_at(buf)) {
                Some(decision) => ForegroundStep {
                    prompt: None,
                    action: PromptAction::Reply(prompt->0, decision),
                    next: NextStep::Receive,
                },
                None => ForegroundStep {
                    prompt,
                    action: PromptAction::Nothing,
                    next: NextStep::Receive,
                },
            }
        } else {
            match incoming(m, buf) {
                Some(current) => match policy_decision(policy, current.request) {
                    Some(decision) => ForegroundStep {
                        prompt,
                        action: PromptAction::Reply(current, decision),
                        next: if policy.background {
                            NextStep::Done
                        } else {
                            NextStep::PollChild
                        },
                    },
                    None => ForegroundStep {
                        prompt: Some(current),
                        action: PromptAction::Show(current),
                        next: NextStep::PollChild,
                    },
                },
                None => ForegroundStep {
                    prompt,
                    action: PromptAction::Nothing,
                    next: NextStep::PollChild,
                },
            }
        },
    }
}

/// Whether a request can be answered under a policy: the texts that the answer needs can be read.
pub open spec fn answerable(policy: PolicyView, request: CapabilityPromptRequest) -> bool {
    &&& decided_at_once(policy, request) || request.capability_fits()
    &&& policy_decision(policy, request) is None ==> request.can_be_shown()
}

/// Whether a message, if it is a request, can be answered under a policy.
pub open spec fn message_answerable(policy: PolicyView, msg: u64, buf: Seq<u8>) -> bool {
    incoming(msg, buf) matches Some(prompt) ==> answerable(policy, prompt.request)
}

/// Whether a message, if it is a request, can be answered under a policy.
pub fn policy_accepts(
    policy: &ExecutionPromptPolicy,
    msg: u64,
    buf: &[u8; PROMPT_REQUEST_SIZE],
) -> (r: bool)
    ensures
        r == message_answerable(policy@, msg, buf@),
{
    match incoming_prompt(msg, buf) {
        Some(prompt) => {
            let at_once = policy.deny_prompts || (policy.allow_all_user
                && prompt.request.capability_class == CapabilityClass::UserGrantable);
            if !at_once && prompt.request.capability_len > 64 {
                return false;
            }
            match prompt_policy_decision(policy, &prompt.request) {
                Some(_) => true,
                None => prompt.request.is_showable(),
            }
        },
        None => true,
    }
}

/// Takes in a message, or the absence of one, while a command runs.
pub fn foreground_message(
    prompt: Option<PendingPrompt>,
    policy: &ExecutionPromptPolicy,
    msg: Option<u64>,
    buf: &[u8; PROMPT_REQUEST_SIZE],
) -> (r: ForegroundStep)
    requires
        msg matches Some(m) ==> message_answerable(policy@, m, buf@),
    ensures
        r == foreground_step(prompt, policy@, msg, buf@),
{
    let m = match msg {
        Some(m) => m,
        None => {
            return ForegroundStep {
                prompt,
                action: PromptAction::Nothing,
                next: NextStep::PollChild,
            };
        },
    };
    if let Some(current) = prompt {
        if message_len(m) == INPUT_EVENT_SIZE {
            let event = parse_input_event(buf);
            return match handle_prompt_key_event(&current, event) {
                Some(decision) => ForegroundStep {
                    prompt: None,
                    action: PromptAction::Reply(current, decision),
                    next: NextStep::Receive,
                },
                None => ForegroundStep {
                    prompt,
                    action: PromptAction::Nothing,
                    next: NextStep::Receive,
                },
            };
        }
    }
    match incoming_prompt(m, buf) {
        Some(current) => match prompt_policy_decision(policy, &current.request) {
            Some(decision) => ForegroundStep {
                prompt,
                action: PromptAction::Reply(current, decision),
                next: if policy.background {
                    NextStep::Done
                } else {
                    NextStep::PollChild
                },
            },
            None => ForegroundStep {
                prompt: Some(current),
                action: PromptAction::Show(current),
                next: NextStep::PollChild,
            },
        },
        None => ForegroundStep { prompt, action: PromptAction::Nothing, next: NextStep::PollChild },
    }
}

/// What looking after a command found.
#[derive(Clone, Copy, Debug, PartialEq, Eq)]
pub enum ChildStatus {
    Exited,
    Running,
    /// Looking failed, with the error number of the system if there is one, and whether the
    /// operation would have had to wait.
    Failed { errno: Option<i32>, would_block: bool },
}

/// What follows after a command was looked after.
#[derive(Clone, Copy, Debug, PartialEq, Eq, Structural)]
pub enum ChildStep {
    /// Waiting is over; a line feed sets a prompt that still waits apart from what follows.
    Finish { newline: bool },
    /// The processor is yielded before the next message is looked for.
    Yield,
    /// Waiting ends with the error.
    Fail,
}

/// Whether a failure only says that there is nothing to report yet.
pub open spec fn only_busy(errno: Option<i32>, would_block: bool) -> bool {
    errno == Some(EAGAIN) || would_block
}

fn is_only_busy(errno: Option<i32>, would_block: bool) -> (r: bool)
    ensures
        r == only_busy(errno, would_block),
{
    match errno {
        Some(code) => code == EAGAIN || would_block,
        None => would_block,
    }
}

/// Decides what follows after a child process was looked after.
pub fn wait_foreground_child(
    prompt_waits: bool,
    policy: &ExecutionPromptPolicy,
    status: ChildStatus,
) -> (r: ChildStep)
    ensures
        r == match status {
            ChildStatus::Exited => ChildStep::Finish { newline: prompt_waits },
            ChildStatus::Running => ChildStep::Yield,
            ChildStatus::Failed { errno, would_block } => if policy@.background || only_busy(
                errno,
                would_block,
            ) {
                ChildStep::Yield
            } else {
                ChildStep::Fail
            },
        },
{
    match status {
        ChildStatus::Exited => ChildStep::Finish { newline: prompt_waits },
        ChildStatus::Running => ChildStep::Yield,
        ChildStatus::Failed { errno, would_block } => if policy.background || is_only_busy(
            errno,
            would_block,
        ) {
            ChildStep::Yield
        } else {
            ChildStep::Fail
        },
    }
}

/// Decides what follows after a forked process was looked after: the system call gave the number
/// of the process where it ended, and a negative number where it failed.
pub fn wait_foreground_pid(
    prompt_waits: bool,
    pid: i32,
    wait_result: i32,
    errno: Option<i32>,
    would_block: bool,
) -> (r: ChildStep)
    ensures
        r == (if wait_result == pid {
            ChildStep::Finish { newline: prompt_waits }
        } else if wait_result < 0 && !only_busy(errno, would_block) {
            ChildStep::Fail
        } else {
            ChildStep::Yield
        }),
{
    if wait_result == pid {
        return ChildStep::Finish { newline: prompt_waits };
    }
    if wait_result < 0 && !is_only_busy(errno, would_block) {
        ChildStep::Fail
    } else {
        ChildStep::Yield
    }
}

/// What follows after a message of a background command was waited for.
#[derive(Clone, Debug, PartialEq, Eq)]
pub enum BackgroundStep {
    /// The next message is waited for.
    Again,
    /// The processor is yielded and the next message is waited for.
    Yield,
    /// Waiting ends with the error.
    Fail(ShellError),
    /// The request is answered and waiting ends.
    Reply(PendingPrompt, PromptDecision),
    /// The prompt is shown and waiting ends.
    Show(PendingPrompt),
}

/// The step after a message of a background command was waited for.
pub open spec fn background_step(
    policy: PolicyView,
    outcome: Result<u64, ShellError>,
    buf: Seq<u8>,
) -> BackgroundStep {
    match outcome {
        Err(e) => if e == ShellError::Os(EAGAIN) {
            BackgroundStep::Yield
        } else {
            BackgroundStep::Fail(e)
        },
        Ok(msg) => match incoming(msg, buf) {
            Some(current) => match policy_decision(policy, current.request) {
                Some(decision) => BackgroundStep::Reply(current, decision),
                None => BackgroundStep::Show(current),
            },
            None => BackgroundStep::Again,
        },
    }
}

/// Takes in what waiting for a message of a background command gave.
pub fn background_message(
    policy: &ExecutionPromptPolicy,
    outcome: Result<u64, ShellError>,
    buf: &[u8; PROMPT_REQUEST_SIZE],
) -> (r: BackgroundStep)
    requires
        outcome matches Ok(msg) ==> message_answerable(policy@, msg, buf@),
    ensures
        r == background_step(policy@, outcome, buf@),
{
    match outcome {
        Err(e) => match e {
            ShellError::Os(code) => if code == EAGAIN {
                BackgroundStep::Yield
            } else {
                BackgroundStep::Fail(ShellError::Os(code))
            },
            other => BackgroundStep::Fail(other),
        },
        Ok(msg) => match incoming_prompt(msg, buf) {
            Some(current) => match prompt_policy_decision(policy, &current.request) {
                Some(decision) => BackgroundStep::Reply(current, decision),
                None => BackgroundStep::Show(current),
            },
            None => BackgroundStep::Again,
        },
    }
}

/// The patience with a background command.
#[derive(Clone, Copy, Debug, PartialEq, Eq, Structural)]
pub struct BackgroundWait {
    /// How often a message was waited for.
    pub attempts: u32,
}

impl BackgroundWait {
    /// Nothing was waited for yet.
    pub fn new() -> (r: BackgroundWait)
        ensures
            r.attempts == 0,
    {
        BackgroundWait { attempts: 0 }
    }

    /// Permits one more attempt, or gives up.
    pub fn next_attempt(&mut self) -> (r: Result<(), ShellError>)
        ensures
            old(self).attempts < BACKGROUND_ATTEMPTS ==> r is Ok && final(self).attempts == old(
                self,
            ).attempts + 1,
            old(self).attempts >= BACKGROUND_ATTEMPTS ==> final(self).attempts == old(self).attempts
                && (r matches Err(m) && m@ == failure(
                ErrorKind::TimedOut,
                "background command did not request a session capability"@,
            )),
    {
        if self.attempts < BACKGROUND_ATTEMPTS {
            self.attempts = self.attempts + 1;
            Ok(())
        } else {
            Err(
                ShellError::new(
                    ErrorKind::TimedOut,
                    "background command did not request a session capability",
                ),
            )
        }
    }
}

} // verus!
