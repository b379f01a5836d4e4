//! The prompt for a capability: what it shows, how it is answered, and what the capability
//! service has to say to the answer.
use crate::capability::{put_request, request_bytes, CapabilityPromptRequest};
use crate::error::ShellError;
use crate::input::{InputEvent, KEY_A, KEY_ENTER, KEY_ESCAPE, KEY_N, KEY_S, KEY_U, KEY_Y};
use crate::wire::{le32, le64, put_u32, put_u64, read_u64, u64_at, zeros};
use vstd::prelude::*;
use vstd::string::*;
use vstd::utf8::is_scalar;

verus! {

/// The number that marks a decision sent to the capability service.
pub const CAPABILITY_DECISION_OPCODE: u32 = 0x4350_5244;

/// The name under which the capability service is found.
pub const CAPABILITY_SERVICE_NAME: &'static str = "capability.service";

/// The answer to a prompt.
#[derive(Clone, Copy, Debug, PartialEq, Eq, Structural)]
pub enum PromptDecision {
    AllowOnce,
    AllowForProcess,
    AllowPersistently,
    AllowAllUserGrantable,
    Deny,
}

/// The answer in the words of the capability service.
#[derive(Clone, Copy, Debug, PartialEq, Eq, Structural)]
pub enum CapabilityDecision {
    AllowOnce,
    AllowForProcess,
    AllowPersistently,
    AllowAllUserGrantable,
    Deny,
}

/// A prompt that waits for its answer, and whom to answer.
#[derive(Clone, Copy, Debug, PartialEq, Eq)]
pub struct PendingPrompt {
    pub sender: u64,
    pub request: CapabilityPromptRequest,
}

/// A decision for the capability service to check.
#[derive(Clone, Copy, Debug, PartialEq, Eq)]
pub struct CapabilityDecisionRequest {
    pub opcode: u32,
    pub decision: CapabilityDecision,
    pub reserved: u64,
    pub request: CapabilityPromptRequest,
}

/// What the capability service sent back: the word of the message, which holds its length, and
/// the bytes.
#[derive(Clone, Copy, Debug, PartialEq, Eq)]
pub struct ServiceReply {
    pub msg: u64,
    pub bytes: [u8; 8],
}

/// The decision that a character stands for.
pub open spec fn key_decision(ch: char) -> Option<PromptDecision> {
    if ch == 'y' || ch == 'Y' {
        Some(PromptDecision::AllowOnce)
    } else if ch == 's' || ch == 'S' {
        Some(PromptDecision::AllowForProcess)
    } else if ch == 'a' || ch == 'A' {
        Some(PromptDecision::AllowPersistently)
    } else if ch == 'u' || ch == 'U' {
        Some(PromptDecision::AllowAllUserGrantable)
    } else if ch == 'n' || ch == 'N' {
        Some(PromptDecision::Deny)
    } else {
        None
    }
}

/// The decision that a character stands for.
pub fn decision_from_key(ch: char) -> (r: Option<PromptDecision>)
    ensures
        r == key_decision(ch),
{
    match ch {
        'y' | 'Y' => Some(PromptDecision::AllowOnce),
        's' | 'S' => Some(PromptDecision::AllowForProcess),
        'a' | 'A' => Some(PromptDecision::AllowPersistently),
        'u' | 'U' => Some(PromptDecision::AllowAllUserGrantable),
        'n' | 'N' => Some(PromptDecision::Deny),
        _ => None,
    }
}

/// The decision in the words of the capability service.
pub open spec fn service_decision(decision: PromptDecision) -> CapabilityDecision {
    match decision {
        PromptDecision::AllowOnce => CapabilityDecision::AllowOnce,
        PromptDecision::AllowForProcess => CapabilityDecision::AllowForProcess,
        PromptDecision::AllowPersistently => CapabilityDecision::AllowPersistently,
        PromptDecision::AllowAllUserGrantable => CapabilityDecision::AllowAllUserGrantable,
        PromptDecision::Deny => CapabilityDecision::Deny,
    }
}

impl CapabilityDecision {
    /// The number that stands for a decision.
    pub open spec fn code(self) -> u32 {
        match self {
            CapabilityDecision::AllowOnce => 1,
            CapabilityDecision::AllowForProcess => 2,
            CapabilityDecision::AllowPersistently => 3,
            CapabilityDecision::AllowAllUserGrantable => 4,
            CapabilityDecision::Deny => 5,
        }
    }

    /// The number that stands for a decision.
    pub fn value(self) -> (r: u32)
        ensures
            r == self.code(),
    {
        match self {
            CapabilityDecision::AllowOnce => 1,
            CapabilityDecision::AllowForProcess => 2,
            CapabilityDecision::AllowPersistently => 3,
            CapabilityDecision::AllowAllUserGrantable => 4,
            CapabilityDecision::Deny => 5,
        }
    }
}

/// The decision in the words of the capability service.
pub fn capability_decision(decision: PromptDecision) -> (r: CapabilityDecision)
    ensures
        r == service_decision(decision),
{
    match decision {
        PromptDecision::AllowOnce => CapabilityDecision::AllowOnce,
        PromptDecision::AllowForProcess => CapabilityDecision::AllowForProcess,
        PromptDecision::AllowPersistently => CapabilityDecision::AllowPersistently,
        PromptDecision::AllowAllUserGrantable => CapabilityDecision::AllowAllUserGrantable,
        PromptDecision::Deny => CapabilityDecision::Deny,
    }
}

/// The number that stands for a decision.
pub fn prompt_decision_value(decision: PromptDecision) -> (r: u32)
    ensures
        r == service_decision(decision).code(),
{
    capability_decision(decision).value()
}

/// The decision that an event stands for. A character that stands for one goes before the key;
/// enter and escape deny.
pub open spec fn event_decision(event: InputEvent) -> Option<PromptDecision> {
    if !event.is_key_press() {
        None
    } else if is_scalar(event.codepoint) && key_decision(event.codepoint as char) is Some {
        key_decision(event.codepoint as char)
    } else if event.keycode == KEY_Y {
        Some(PromptDecision::AllowOnce)
    } else if event.keycode == KEY_S {
        Some(PromptDecision::AllowForProcess)
    } else if event.keycode == KEY_A {
        Some(PromptDecision::AllowPersistently)
    } else if event.keycode == KEY_U {
        Some(PromptDecision::AllowAllUserGrantable)
    } else if event.keycode == KEY_N || event.keycode == KEY_ENTER || event.keycode
        == KEY_ESCAPE {
        Some(PromptDecision::Deny)
    } else {
        None
    }
}

/// The decision that an event stands for while a prompt waits.
pub fn handle_prompt_key_event(_prompt: &PendingPrompt, event: InputEvent) -> (r: Option<
    PromptDecision,
>)
    ensures
        r == event_decision(event),
{
    if !event.key_pressed() {
        return None;
    }
    if let Some(ch) = char::from_u32(event.codepoint) {
        if let Some(decision) = decision_from_key(ch) {
            return Some(decision);
        }
    }
    if event.keycode == KEY_Y {
        Some(PromptDecision::AllowOnce)
    } else if event.keycode == KEY_S {
        Some(PromptDecision::AllowForProcess)
    } else if event.keycode == KEY_A {
        Some(PromptDecision::AllowPersistently)
    } else if event.keycode == KEY_U {
        Some(PromptDecision::AllowAllUserGrantable)
    } else if event.keycode == KEY_N || event.keycode == KEY_ENTER || event.keycode == KEY_ESCAPE {
        Some(PromptDecision::Deny)
    } else {
        None
    }
}

/// What the prompt for a request shows.
pub open spec fn shown_prompt(request: CapabilityPromptRequest) -> Seq<char> {
    let resource = match request.resource_path_text() {
        Some(t) => t,
        None => "(none)"@,
    };
    "\n"@ + request.executable_path_text()
        + " is requesting an additional permission.\n\nPermission:\n  "@
        + request.capability_text() + "\n\nResource:\n  "@ + resource + "\n\n"@
        + "[y] Allow once\n"@ + "[s] Allow for this process\n"@
        + "[a] Always allow this permission\n"@
        + "[u] Allow all user-grantable permissions without asking again\n"@ + "[n] Deny\n"@
}

/// The text of the prompt for a request.
pub fn capability_prompt_text(request: &CapabilityPromptRequest) -> (r: String)
    requires
        request.can_be_shown(),
    ensures
        r@ == shown_prompt(*request),
{
    let resource = match request.resource_path() {
        Some(path) => path,
        None => "(none)",
    };
    let mut text = "\n".to_string();
    text.append(request.executable_path());
    text.append(" is requesting an additional permission.\n\nPermission:\n  ");
    text.append(request.capability());
    text.append("\n\nResource:\n  ");
    text.append(resource);
    text.append("\n\n");
    text.append("[y] Allow once\n");
    text.append("[s] Allow for this process\n");
    text.append("[a] Always allow this permission\n");
    text.append("[u] Allow all user-grantable permissions without asking again\n");
    text.append("[n] Deny\n");
    text
}

/// The length of a message, from its word.
pub open spec fn message_length(msg: u64) -> nat {
    (msg % 4294967296) as nat
}

/// The sender of a message, from its word.
pub open spec fn message_sender(msg: u64) -> u64 {
    msg / 4294967296
}

/// The length of a message, from its word.
pub fn message_len(msg: u64) -> (r: usize)
    ensures
        r == message_length(msg),
{
    (msg % 4294967296) as usize
}

/// The bytes of a decision for the capability service.
pub open spec fn decision_request_bytes(r: CapabilityDecisionRequest) -> Seq<u8> {
    le32(r.opcode) + le32(r.decision.code()) + le64(r.reserved) + request_bytes(r.request)
}

/// What is sent to the capability service before a decision takes effect. A denial takes effect
/// without it.
pub open spec fn service_question(prompt: PendingPrompt, decision: PromptDecision) -> Option<
    Seq<u8>,
> {
    if decision == PromptDecision::Deny {
        None
    } else {
        Some(
            decision_request_bytes(
                CapabilityDecisionRequest {
                    opcode: CAPABILITY_DECISION_OPCODE,
                    decision: service_decision(decision),
                    reserved: prompt.request.process_id,
                    request: prompt.request,
                },
            ),
        )
    }
}

/// Writes what is sent to the capability service before a decision takes effect.
pub fn authorization_request(prompt: &PendingPrompt, decision: PromptDecision) -> (r: Option<
    Vec<u8>,
>)
    ensures
        match service_question(*prompt, decision) {
            Some(bytes) => r matches Some(v) && v@ == bytes,
            None => r is None,
        },
{
    if decision == PromptDecision::Deny {
        return None;
    }
    let request = CapabilityDecisionRequest {
        opcode: CAPABILITY_DECISION_OPCODE,
        decision: capability_decision(decision),
        reserved: prompt.request.process_id,
        request: prompt.request,
    };
    let mut out: Vec<u8> = Vec::new();
    put_u32(&mut out, request.opcode);
    put_u32(&mut out, request.decision.value());
    put_u64(&mut out, request.reserved);
    put_request(&mut out, &request.request);
    assert(out@ =~= decision_request_bytes(request));
    Some(out)
}

/// The decision that takes effect, given what the capability service said to it. The service
/// agrees with eight bytes of zero; without an answer nothing is granted.
pub open spec fn authorized(
    decision: PromptDecision,
    reply: Option<Result<ServiceReply, ShellError>>,
) -> Result<PromptDecision, ShellError> {
    if decision == PromptDecision::Deny {
        Ok(PromptDecision::Deny)
    } else {
        match reply {
            None => Ok(PromptDecision::Deny),
            Some(Err(e)) => Err(e),
            Some(Ok(answer)) => if message_length(answer.msg) >= 8 && u64_at(answer.bytes@, 0) == 0 {
                Ok(decision)
            } else {
                Ok(PromptDecision::Deny)
            },
        }
    }
}

/// Finds the decision that takes effect, given what the capability service said to it.
pub fn authorize_prompt_decision(
    decision: PromptDecision,
    reply: Option<Result<ServiceReply, ShellError>>,
) -> (r: Result<PromptDecision, ShellError>)
    ensures
        r == authorized(decision, reply),
{
    if decision == PromptDecision::Deny {
        return Ok(PromptDecision::Deny);
    }
    match reply {
        None => Ok(PromptDecision::Deny),
        Some(Err(e)) => Err(e),
        Some(Ok(answer)) => {
            if message_len(answer.msg) < 8 {
                return Ok(PromptDecision::Deny);
            }
            if read_u64(&answer.bytes, 0) == 0 {
                Ok(decision)
            } else {
                Ok(PromptDecision::Deny)
            }
        },
    }
}

/// The decision that the one who asked is told: what takes effect, and denial where the service
/// could not be asked.
pub open spec fn told_decision(
    decision: PromptDecision,
    reply: Option<Result<ServiceReply, ShellError>>,
) -> PromptDecision {
    match authorized(decision, reply) {
        Ok(d) => d,
        Err(_) => PromptDecision::Deny,
    }
}

/// Writes the answer to the one who asked: the number of the decision in eight bytes.
pub fn reply_prompt(
    decision: PromptDecision,
    reply: Option<Result<ServiceReply, ShellError>>,
) -> (r: [u8; 8])
    ensures
        r@ == le32(service_decision(told_decision(decision, reply)).code()) + zeros(4),
{
    let told = match authorize_prompt_decision(decision, reply) {
        Ok(d) => d,
        Err(_) => PromptDecision::Deny,
    };
    let v = prompt_decision_value(told);
    let r = [v as u8, 0, 0, 0, 0, 0, 0, 0];
    assert(r@ =~= le32(v) + zeros(4));
    r
}

} // verus!
