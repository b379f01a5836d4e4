//! What holds of every state of the shell and every message: lines and prompts do not disturb
//! each other, and a policy decides before the user does.
use crate::capability::{
    request_bytes, request_reads_back, CapabilityClass, CapabilityPromptRequest,
    PROMPT_REQUEST_SIZE,
};
use crate::error::{failure, ErrorKind, ShellError};
use crate::input::{event_at, key_outcome, INPUT_EVENT_SIZE};
use crate::policy::{policy_decision, ExecutionPromptPolicy, PolicyView};
use crate::prompt::{
    event_decision, handle_prompt_key_event, message_length, message_sender, PendingPrompt,
    PromptDecision,
};
use crate::session::{
    background_message, foreground_message, foreground_step, incoming, incoming_prompt,
    message_answerable, policy_accepts, received, session_step, showable, wait_foreground_child,
    wait_foreground_pid, BackgroundStep, BackgroundWait, ChildStatus, ChildStep, ForegroundStep,
    NextStep, PromptAction, Session, SessionAction, SessionActionView, SessionView,
};
use crate::wire::u32_at;
use vstd::prelude::*;

verus! {

/// While a prompt waits, no message changes the line, and no command is run.
pub proof fn waiting_prompt_keeps_the_line(s: SessionView, msg: u64, buf: Seq<u8>)
    requires
        s.prompt is Some,
    ensures
        session_step(s, msg, buf).0.line == s.line,
        !(session_step(s, msg, buf).1 is Key),
{
}

/// An answer goes to the prompt that waited, only by a key that stands for it, and the prompt
/// waits no longer.
pub proof fn answer_belongs_to_the_waiting_prompt(s: SessionView, msg: u64, buf: Seq<u8>)
    ensures
        session_step(s, msg, buf).1 matches SessionActionView::Reply(prompt, decision) ==> {
            &&& s.prompt == Some(prompt)
            &&& message_length(msg) == INPUT_EVENT_SIZE
            &&& event_decision(event_at(buf)) == Some(decision)
            &&& session_step(s, msg, buf).0.prompt is None
        },
{
}

/// A prompt is shown exactly when it begins to wait, and stops waiting only when it is answered
/// or another one takes its place.
pub proof fn shown_prompt_waits(s: SessionView, msg: u64, buf: Seq<u8>)
    ensures
        session_step(s, msg, buf).1 matches SessionActionView::Show(prompt) ==> session_step(
            s,
            msg,
            buf,
        ).0.prompt == Some(prompt),
        session_step(s, msg, buf).0.prompt != s.prompt ==> {
            ||| session_step(s, msg, buf).1 is Show
            ||| session_step(s, msg, buf).1 is Reply
        },
{
}

/// The word of a message is its sender and its length.
pub proof fn message_word_is_sender_and_length(msg: u64)
    ensures
        msg == message_sender(msg) * 4294967296 + message_length(msg),
{
}

/// A message of the length of an input event is no request.
pub proof fn input_event_is_no_request(msg: u64, buf: Seq<u8>)
    requires
        message_length(msg) == INPUT_EVENT_SIZE,
        buf.len() >= INPUT_EVENT_SIZE,
    ensures
        incoming(msg, buf) is None,
{
    assert(received(msg, buf).len() == INPUT_EVENT_SIZE);
}

/// Keys that are pressed while a command runs and no prompt waits do nothing.
pub proof fn keys_without_prompt_do_nothing(policy: PolicyView, msg: u64, buf: Seq<u8>)
    requires
        message_length(msg) == INPUT_EVENT_SIZE,
        buf.len() >= INPUT_EVENT_SIZE,
    ensures
        foreground_step(None, policy, Some(msg), buf) == (ForegroundStep {
            prompt: None,
            action: PromptAction::Nothing,
            next: NextStep::PollChild,
        }),
{
    input_event_is_no_request(msg, buf);
}

/// Under a policy that denies prompts none is ever shown: none waits after a message if none
/// waited before it, and every answer is a denial.
pub proof fn denying_policy_shows_no_prompt(policy: PolicyView, msg: Option<u64>, buf: Seq<u8>)
    requires
        policy.deny_prompts,
    ensures
        foreground_step(None, policy, msg, buf).prompt is None,
        !(foreground_step(None, policy, msg, buf).action is Show),
        foreground_step(None, policy, msg, buf).action matches PromptAction::Reply(_, decision)
            ==> decision == PromptDecision::Deny,
{
}

/// While a command runs, a prompt is shown only for a request that the policy leaves open; an
/// answer is the policy's answer to the request that arrived, or the user's to the prompt that
/// waited.
pub proof fn policy_decides_before_the_user(
    prompt: Option<PendingPrompt>,
    policy: PolicyView,
    msg: Option<u64>,
    buf: Seq<u8>,
)
    ensures
        foreground_step(prompt, policy, msg, buf).action matches PromptAction::Show(shown) ==> {
            &&& msg matches Some(m) && incoming(m, buf) == Some(shown)
            &&& policy_decision(policy, shown.request) is None
            &&& foreground_step(prompt, policy, msg, buf).prompt == Some(shown)
        },
        foreground_step(prompt, policy, msg, buf).action matches PromptAction::Reply(
            answered,
            decision,
        ) ==> {
            ||| (msg matches Some(m) && incoming(m, buf) == Some(answered) && policy_decision(
                policy,
                answered.request,
            ) == Some(decision))
            ||| (prompt == Some(answered) && event_decision(event_at(buf)) == Some(decision))
        },
{
}

/// Waiting for a command stops at a message only where the command runs in the background and
/// its request has been answered.
pub proof fn foreground_waits_for_the_command(
    prompt: Option<PendingPrompt>,
    policy: PolicyView,
    msg: Option<u64>,
    buf: Seq<u8>,
)
    ensures
        foreground_step(prompt, policy, msg, buf).next == NextStep::Done ==> policy.background
            && foreground_step(prompt, policy, msg, buf).action is Reply,
{
}

/// The prompt that waits after a series of messages and silences while a command runs.
pub open spec fn prompt_after(
    prompt: Option<PendingPrompt>,
    policy: PolicyView,
    messages: Seq<(Option<u64>, Seq<u8>)>,
) -> Option<PendingPrompt>
    decreases messages.len(),
{
    if messages.len() == 0 {
        prompt
    } else {
        let (msg, buf) = messages.last();
        foreground_step(
            prompt_after(prompt, policy, messages.drop_last()),
            policy,
            msg,
            buf,
        ).prompt
    }
}

/// A command under a policy that denies prompts never has a prompt that waits, however many
/// messages arrive while it runs.
pub proof fn denied_command_never_waits(
    policy: PolicyView,
    messages: Seq<(Option<u64>, Seq<u8>)>,
)
    requires
        policy.deny_prompts,
    ensures
        prompt_after(None, policy, messages) is None,
    decreases messages.len(),
{
    if messages.len() > 0 {
        denied_command_never_waits(policy, messages.drop_last());
        let (msg, buf) = messages.last();
        denying_policy_shows_no_prompt(policy, msg, buf);
    }
}

/// Every prompt that waits while a command runs is one that its policy leaves open.
pub proof fn waiting_prompts_are_open(
    policy: PolicyView,
    messages: Seq<(Option<u64>, Seq<u8>)>,
)
    ensures
        prompt_after(None, policy, messages) matches Some(prompt) ==> policy_decision(
            policy,
            prompt.request,
        ) is None,
    decreases messages.len(),
{
    if messages.len() > 0 {
        waiting_prompts_are_open(policy, messages.drop_last());
    }
}

/// A message is the request whose bytes it holds, from the sender that its word names. One that is
/// shorter than a request, is not marked as one or names no class is none.
pub proof fn request_is_taken_from_the_message(
    msg: u64,
    buf: &[u8; PROMPT_REQUEST_SIZE],
    r: Option<PendingPrompt>,
    sent: CapabilityPromptRequest,
)
    requires
        call_ensures(incoming_prompt, (msg, buf), r),
    ensures
        r == incoming(msg, buf@),
        buf@.len() == 784,
        msg % 0x1_0000_0000 >= 784 && buf@ == request_bytes(sent) && sent.opcode == 0x4350_5251
            ==> r == Some(PendingPrompt { sender: msg / 0x1_0000_0000, request: sent }),
        msg % 0x1_0000_0000 < 784 ==> r is None,
        u32_at(buf@, 0) != 0x4350_5251 ==> r is None,
        u32_at(buf@, 308) == 0 || u32_at(buf@, 308) > 3 ==> r is None,
        msg % 0x1_0000_0000 >= 784 && u32_at(buf@, 0) == 0x4350_5251 && 1 <= u32_at(buf@, 308) <= 3
            ==> r is Some,
        r matches Some(prompt) ==> prompt.sender == msg / 0x1_0000_0000,
{
    request_reads_back(sent, seq![]);
    assert(request_bytes(sent) + Seq::<u8>::empty() =~= request_bytes(sent));
    if message_length(msg) < 784 {
        assert(received(msg, buf@).len() == message_length(msg));
    } else {
        assert(received(msg, buf@) == buf@);
    }
}

/// A shell that has just begun has typed nothing and asks nothing.
pub proof fn session_begins_empty(r: Session)
    requires
        call_ensures(Session::new, (), r),
    ensures
        r.line@.len() == 0,
        r.prompt is None,
{
}

/// A message can be taken in exactly where it is no request, or one that can be shown.
pub proof fn only_requests_can_be_refused(
    msg: u64,
    buf: &[u8; PROMPT_REQUEST_SIZE],
    r: bool,
    prompt: Option<PendingPrompt>,
)
    requires
        call_ensures(Session::accepts, (msg, buf), r),
        call_ensures(incoming_prompt, (msg, buf), prompt),
    ensures
        prompt is None ==> r,
        prompt matches Some(p) ==> (r <==> p.request.can_be_shown()),
        r == showable(msg, buf@),
{
}

/// While a prompt waits, every key that stands for a decision answers it with that decision, a
/// denial too, and no prompt waits any longer. Any other key leaves the prompt waiting and does
/// nothing. The line stays as it is.
pub proof fn every_decision_answers_the_prompt(
    session: &mut Session,
    msg: u64,
    buf: &[u8; PROMPT_REQUEST_SIZE],
    r: SessionAction,
    waiting: PendingPrompt,
    decision: Option<PromptDecision>,
)
    requires
        call_ensures(Session::receive, (session, msg, buf), r),
        old(session).prompt == Some(waiting),
        msg % 0x1_0000_0000 == 32,
        call_ensures(handle_prompt_key_event, (&waiting, event_at(buf@)), decision),
    ensures
        decision matches Some(d) ==> {
            &&& r == SessionAction::Reply(waiting, d)
            &&& final(session).prompt is None
        },
        decision is None ==> {
            &&& r is Nothing
            &&& final(session).prompt == Some(waiting)
        },
        final(session).line@ == old(session).line@,
{
}

/// The same of the step that a session makes: a decision, a denial too, is answered, and no
/// prompt waits any longer.
pub proof fn decision_is_answered(s: SessionView, msg: u64, buf: Seq<u8>, d: PromptDecision)
    requires
        s.prompt is Some,
        message_length(msg) == 32,
        event_decision(event_at(buf)) == Some(d),
    ensures
        session_step(s, msg, buf).1 == SessionActionView::Reply(s.prompt->0, d),
        session_step(s, msg, buf).0 == (SessionView { line: s.line, prompt: None }),
{
}

/// While no prompt waits, a key does to the line what it does to any line, and no prompt begins
/// to wait.
pub proof fn keys_without_a_prompt_edit_the_line(
    session: &mut Session,
    msg: u64,
    buf: &[u8; PROMPT_REQUEST_SIZE],
    r: SessionAction,
)
    requires
        call_ensures(Session::receive, (session, msg, buf), r),
        old(session).prompt is None,
        msg % 0x1_0000_0000 == 32,
    ensures
        final(session).prompt is None,
        final(session).line@ == key_outcome(old(session).line@, event_at(buf@)).0,
        r matches SessionAction::Key(action) && action@ == key_outcome(
            old(session).line@,
            event_at(buf@),
        ).1,
{
}

/// A request brings up its prompt, whether or not another one waits, and leaves the line as it
/// is. A message that is neither an event nor a request does nothing.
pub proof fn requests_bring_up_their_prompt(
    session: &mut Session,
    msg: u64,
    buf: &[u8; PROMPT_REQUEST_SIZE],
    r: SessionAction,
    prompt: Option<PendingPrompt>,
)
    requires
        call_ensures(Session::receive, (session, msg, buf), r),
        call_ensures(incoming_prompt, (msg, buf), prompt),
        msg % 0x1_0000_0000 != 32,
    ensures
        final(session).line@ == old(session).line@,
        prompt matches Some(p) ==> r == SessionAction::Show(p) && final(session).prompt == Some(p),
        prompt is None ==> r is Nothing && final(session).prompt == old(session).prompt,
{
}

/// A message can be taken in under a policy exactly where it is no request, or one that the
/// policy answers, or one that it leaves open and that can be shown. To look at the name of the
/// capability, the policy needs one that fits.
pub proof fn only_unreadable_requests_can_be_refused(
    policy: &ExecutionPromptPolicy,
    msg: u64,
    buf: &[u8; PROMPT_REQUEST_SIZE],
    r: bool,
    prompt: Option<PendingPrompt>,
)
    requires
        call_ensures(policy_accepts, (policy, msg, buf), r),
        call_ensures(incoming_prompt, (msg, buf), prompt),
    ensures
        r == message_answerable(policy@, msg, buf@),
        prompt is None ==> r,
        prompt matches Some(p) ==> (r <==> {
            ||| policy.deny_prompts
            ||| policy.allow_all_user && p.request.capability_class
                == CapabilityClass::UserGrantable
            ||| p.request.capability_len <= 64 && policy_decision(policy@, p.request) is Some
            ||| p.request.capability_len <= 64 && p.request.executable.path_len <= 256
                && p.request.resource.path_len <= 256
        }),
{
}

/// While a command runs and a prompt waits, a key that stands for a decision answers the prompt,
/// and any other key leaves it waiting; either way the next message is looked for at once.
pub proof fn keys_answer_while_a_command_runs(
    waiting: PendingPrompt,
    policy: &ExecutionPromptPolicy,
    msg: u64,
    buf: &[u8; PROMPT_REQUEST_SIZE],
    r: ForegroundStep,
    decision: Option<PromptDecision>,
)
    requires
        call_ensures(foreground_message, (Some(waiting), policy, Some(msg), buf), r),
        call_ensures(handle_prompt_key_event, (&waiting, event_at(buf@)), decision),
        msg % 0x1_0000_0000 == 32,
    ensures
        r.next is Receive,
        decision matches Some(d) ==> r.prompt is None && r.action == PromptAction::Reply(waiting, d),
        decision is None ==> r.prompt == Some(waiting) && r.action is Nothing,
{
}

/// While a command runs, a request is answered as its policy says, which leaves a prompt that
/// waits as it is; one that the policy leaves open brings up its prompt. After an answer a command
/// in the background is no longer waited for; in every other case the command is looked after.
pub proof fn requests_are_answered_while_a_command_runs(
    waiting: Option<PendingPrompt>,
    policy: &ExecutionPromptPolicy,
    msg: u64,
    buf: &[u8; PROMPT_REQUEST_SIZE],
    r: ForegroundStep,
    prompt: Option<PendingPrompt>,
)
    requires
        call_ensures(foreground_message, (waiting, policy, Some(msg), buf), r),
        call_ensures(incoming_prompt, (msg, buf), prompt),
        msg % 0x1_0000_0000 != 32,
    ensures
        prompt is None ==> r.prompt == waiting && r.action is Nothing && r.next is PollChild,
        prompt matches Some(p) ==> match policy_decision(policy@, p.request) {
            Some(d) => {
                &&& r.prompt == waiting
                &&& r.action == PromptAction::Reply(p, d)
                &&& policy.background ==> r.next is Done
                &&& !policy.background ==> r.next is PollChild
            },
            None => {
                &&& r.prompt == Some(p)
                &&& r.action == PromptAction::Show(p)
                &&& r.next is PollChild
            },
        },
{
}

/// While a command runs, silence and keys without a prompt change nothing.
pub proof fn silence_changes_nothing(
    waiting: Option<PendingPrompt>,
    policy: &ExecutionPromptPolicy,
    msg: Option<u64>,
    buf: &[u8; PROMPT_REQUEST_SIZE],
    r: ForegroundStep,
)
    requires
        call_ensures(foreground_message, (waiting, policy, msg, buf), r),
        msg matches Some(m) ==> m % 0x1_0000_0000 == 32 && waiting is None,
    ensures
        r.prompt == waiting,
        r.action is Nothing,
        r.next is PollChild,
{
    if let Some(m) = msg {
        input_event_is_no_request(m, buf@);
    }
}

/// Waiting for a child ends where it has ended, and goes on while it runs. A failure to look ends
/// the waiting with the error, unless it says to try again (11), would have had to wait, or the
/// command runs in the background.
pub proof fn children_are_waited_for(
    prompt_waits: bool,
    policy: &ExecutionPromptPolicy,
    status: ChildStatus,
    r: ChildStep,
)
    requires
        call_ensures(wait_foreground_child, (prompt_waits, policy, status), r),
    ensures
        status is Exited ==> r == (ChildStep::Finish { newline: prompt_waits }),
        status is Running ==> r is Yield,
        status matches ChildStatus::Failed { errno, would_block } ==> {
            &&& policy.background || would_block || errno == Some(11i32) ==> r is Yield
            &&& !policy.background && !would_block && errno != Some(11i32) ==> r is Fail
        },
{
}

/// Waiting for a process ends where the system names it, and goes on where it names none or
/// another. A failure ends the waiting with the error, unless it says to try again (11) or would
/// have had to wait.
pub proof fn processes_are_waited_for(
    prompt_waits: bool,
    pid: i32,
    found: i32,
    errno: Option<i32>,
    would_block: bool,
    r: ChildStep,
)
    requires
        call_ensures(wait_foreground_pid, (prompt_waits, pid, found, errno, would_block), r),
    ensures
        found == pid ==> r == (ChildStep::Finish { newline: prompt_waits }),
        found != pid && found >= 0 ==> r is Yield,
        found != pid && found < 0 && (would_block || errno == Some(11i32)) ==> r is Yield,
        found != pid && found < 0 && !would_block && errno != Some(11i32) ==> r is Fail,
{
}

/// After a command was started in the background, its first request ends the waiting: it is
/// answered as the policy says, or shown where the policy leaves it open. Other messages are
/// passed over, trying again (11) yields first, and any other error ends the waiting.
pub proof fn background_waits_for_a_request(
    policy: &ExecutionPromptPolicy,
    outcome: Result<u64, ShellError>,
    buf: &[u8; PROMPT_REQUEST_SIZE],
    r: BackgroundStep,
    prompt: Option<PendingPrompt>,
)
    requires
        call_ensures(background_message, (policy, outcome, buf), r),
        outcome matches Ok(msg) ==> call_ensures(incoming_prompt, (msg, buf), prompt),
    ensures
        outcome is Ok && prompt is None ==> r is Again,
        outcome is Ok && prompt is Some ==> match policy_decision(policy@, prompt->0.request) {
            Some(d) => r == BackgroundStep::Reply(prompt->0, d),
            None => r == BackgroundStep::Show(prompt->0),
        },
        outcome == Err::<u64, ShellError>(ShellError::Os(11)) ==> r is Yield,
        outcome is Err && outcome->Err_0 != ShellError::Os(11) ==> r == BackgroundStep::Fail(
            outcome->Err_0,
        ),
{
}

/// A message of a background command is waited for 65536 times and no more.
pub proof fn patience_is_limited(
    wait: &mut BackgroundWait,
    r: Result<(), ShellError>,
    fresh: BackgroundWait,
)
    requires
        call_ensures(BackgroundWait::next_attempt, (wait,), r),
        call_ensures(BackgroundWait::new, (), fresh),
    ensures
        fresh.attempts == 0,
        r is Ok <==> old(wait).attempts < 65536,
        r is Ok ==> final(wait).attempts == old(wait).attempts + 1,
        r matches Err(e) ==> final(wait).attempts == old(wait).attempts && e@ == failure(
            ErrorKind::TimedOut,
            "background command did not request a session capability"@,
        ),
{
}

} // verus!
