//! What holds of every message about a decision: the capability service and the one who asked
//! read in it what the shell wrote.
use crate::capability::{
    request_bytes, request_in, request_reads_back, CapabilityPromptRequest,
    CAPABILITY_PROMPT_OPCODE, PROMPT_REQUEST_SIZE,
};
use crate::error::{failure, ErrorKind, ErrorView, ShellError};
use crate::input::InputEvent;
use crate::prompt::{
    authorization_request, authorize_prompt_decision, authorized, capability_decision,
    capability_prompt_text, decision_from_key, event_decision, handle_prompt_key_event,
    key_decision, message_len, message_length, message_sender, prompt_decision_value,
    reply_prompt, service_decision, service_question, CapabilityDecision, PendingPrompt,
    PromptDecision, ServiceReply, CAPABILITY_DECISION_OPCODE,
};
use crate::service::{
    resolve_capabilities, resolve_request, resolved, service_endpoint, RESOLVE_REPLY_SIZE,
};
use crate::wire::{le32, le64, u32_at, u32_reads_back, u64_at, u64_reads_back, zeros};
use crate::wire_laws::numbers_are_read_lowest_first;
use vstd::prelude::*;
use vstd::string::*;
use vstd::utf8::{encode_utf8, is_scalar};

verus! {

proof fn lemma_parts(b: Seq<u8>, first: u32, second: u32, third: u64, rest: Seq<u8>)
    requires
        b == le32(first) + le32(second) + le64(third) + rest,
    ensures
        b.len() == 16 + rest.len(),
        u32_at(b, 0) == first,
        u32_at(b, 4) == second,
        u64_at(b, 8) == third,
        b.skip(16) == rest,
{
    assert(b.subrange(0, 4) =~= le32(first));
    u32_reads_back(first, b, 0);
    assert(b.subrange(4, 8) =~= le32(second));
    u32_reads_back(second, b, 4);
    assert(b.subrange(8, 16) =~= le64(third));
    u64_reads_back(third, b, 8);
    assert(b.skip(16) =~= rest);
}

/// The question to the capability service carries the decision, the process and the whole
/// request, each where the service looks for it.
pub proof fn question_carries_the_request(prompt: PendingPrompt, decision: PromptDecision)
    requires
        decision != PromptDecision::Deny,
    ensures
        service_question(prompt, decision) matches Some(b) && {
            &&& b.len() == 16 + PROMPT_REQUEST_SIZE
            &&& u32_at(b, 0) == CAPABILITY_DECISION_OPCODE
            &&& u32_at(b, 4) == service_decision(decision).code()
            &&& u64_at(b, 8) == prompt.request.process_id
            &&& b.skip(16) == request_bytes(prompt.request)
            &&& prompt.request.opcode == CAPABILITY_PROMPT_OPCODE ==> request_in(b.skip(16))
                == Some(prompt.request)
        },
{
    let request = request_bytes(prompt.request);
    request_reads_back(prompt.request, seq![]);
    assert(request + Seq::<u8>::empty() =~= request);
    lemma_parts(
        service_question(prompt, decision)->0,
        CAPABILITY_DECISION_OPCODE,
        service_decision(decision).code(),
        prompt.request.process_id,
        request,
    );
}

/// The one who asked reads the number of the decision in the first four bytes of the answer.
pub proof fn answer_tells_the_decision(decision: PromptDecision)
    ensures
        u32_at(le32(service_decision(decision).code()) + zeros(4), 0) == service_decision(
            decision,
        ).code(),
{
    let code = service_decision(decision).code();
    let b = le32(code) + zeros(4);
    assert(b.subrange(0, 4) =~= le32(code));
    u32_reads_back(code, b, 0);
}

/// A list of capabilities behind a status of zero is read back, whatever stands behind it in the
/// buffer; behind any other status nothing is.
pub proof fn capabilities_read_back(msg: u64, status: u64, caps: Seq<u8>, rest: Seq<u8>)
    requires
        message_length(msg) == 8 + caps.len(),
        8 + caps.len() + rest.len() == RESOLVE_REPLY_SIZE,
    ensures
        status == 0 ==> resolved(msg, le64(status) + caps + rest) == Ok::<Seq<u8>, ErrorView>(caps),
        status != 0 ==> resolved(msg, le64(status) + caps + rest) == Err::<Seq<u8>, ErrorView>(
            ErrorView::Os(status as i32),
        ),
{
    let b = le64(status) + caps + rest;
    assert(b.subrange(0, 8) =~= le64(status));
    u64_reads_back(status, b, 0);
    assert(b.subrange(8, message_length(msg) as int) =~= caps);
}

/// The letters of the prompt: `y`, `s`, `a`, `u` and `n`, small or capital, and no others.
pub proof fn letters_decide(ch: char, r: Option<PromptDecision>)
    requires
        call_ensures(decision_from_key, (ch,), r),
    ensures
        r == Some(PromptDecision::AllowOnce) <==> ch == 'y' || ch == 'Y',
        r == Some(PromptDecision::AllowForProcess) <==> ch == 's' || ch == 'S',
        r == Some(PromptDecision::AllowPersistently) <==> ch == 'a' || ch == 'A',
        r == Some(PromptDecision::AllowAllUserGrantable) <==> ch == 'u' || ch == 'U',
        r == Some(PromptDecision::Deny) <==> ch == 'n' || ch == 'N',
        r is None <==> !"yYsSaAuUnN"@.contains(ch),
        r == key_decision(ch),
{
    reveal_strlit("yYsSaAuUnN");
    let all = "yYsSaAuUnN"@;
    assert(all[0] == 'y' && all[1] == 'Y' && all[2] == 's' && all[3] == 'S' && all[4] == 'a');
    assert(all[5] == 'A' && all[6] == 'u' && all[7] == 'U' && all[8] == 'n' && all[9] == 'N');
}

/// A key press answers a prompt by its letter where it carries one, and else by its key: 56, 50,
/// 32, 52 and 45 are the keys of the letters, and enter (4) and escape (1) deny. Nothing else
/// answers it, whatever the prompt asks.
pub proof fn keys_answer_the_prompt(
    prompt: &PendingPrompt,
    event: InputEvent,
    r: Option<PromptDecision>,
)
    requires
        call_ensures(handle_prompt_key_event, (prompt, event), r),
    ensures
        r == event_decision(event),
        !event.is_key_press() ==> r is None,
        event.is_key_press() && is_scalar(event.codepoint) && key_decision(
            event.codepoint as char,
        ) is Some ==> r == key_decision(event.codepoint as char),
        event.is_key_press() && !(is_scalar(event.codepoint) && key_decision(
            event.codepoint as char,
        ) is Some) ==> {
            &&& event.keycode == 56 <==> r == Some(PromptDecision::AllowOnce)
            &&& event.keycode == 50 <==> r == Some(PromptDecision::AllowForProcess)
            &&& event.keycode == 32 <==> r == Some(PromptDecision::AllowPersistently)
            &&& event.keycode == 52 <==> r == Some(PromptDecision::AllowAllUserGrantable)
            &&& event.keycode == 45 || event.keycode == 4 || event.keycode == 1 <==> r == Some(
                PromptDecision::Deny,
            )
        },
{
}

/// The decisions have the numbers one to five, here and for the capability service.
pub proof fn decisions_are_numbered(
    decision: PromptDecision,
    word: CapabilityDecision,
    number: u32,
    code: u32,
)
    requires
        call_ensures(capability_decision, (decision,), word),
        call_ensures(prompt_decision_value, (decision,), number),
        call_ensures(CapabilityDecision::value, (word,), code),
    ensures
        decision is AllowOnce ==> word is AllowOnce && number == 1,
        decision is AllowForProcess ==> word is AllowForProcess && number == 2,
        decision is AllowPersistently ==> word is AllowPersistently && number == 3,
        decision is AllowAllUserGrantable ==> word is AllowAllUserGrantable && number == 4,
        decision is Deny ==> word is Deny && number == 5,
        code == number,
        word == service_decision(decision) && number == word.code(),
{
}

/// The prompt names the program, the capability and the resource, or says that there is none, and
/// lists the answers with their letters.
pub proof fn prompt_names_what_is_asked(
    request: &CapabilityPromptRequest,
    shown: String,
    program: &str,
    capability: &str,
    resource: Option<&str>,
)
    requires
        request.can_be_shown(),
        call_ensures(capability_prompt_text, (request,), shown),
        call_ensures(CapabilityPromptRequest::executable_path, (request,), program),
        call_ensures(CapabilityPromptRequest::capability, (request,), capability),
        call_ensures(CapabilityPromptRequest::resource_path, (request,), resource),
    ensures
        shown@ == "\n"@ + program@
            + " is requesting an additional permission.\n\nPermission:\n  "@ + capability@
            + "\n\nResource:\n  "@ + (match resource {
            Some(path) => path@,
            None => "(none)"@,
        }) + "\n\n"@ + "[y] Allow once\n"@ + "[s] Allow for this process\n"@
            + "[a] Always allow this permission\n"@
            + "[u] Allow all user-grantable permissions without asking again\n"@ + "[n] Deny\n"@,
{
}

/// The word of a message is its sender in the upper half and its length in the lower one.
pub proof fn message_word_comes_apart(msg: u64, r: usize)
    requires
        call_ensures(message_len, (msg,), r),
    ensures
        r < 0x1_0000_0000,
        message_length(msg) == r,
        msg == message_sender(msg) * 0x1_0000_0000 + r,
{
}

/// The question to the service is what is sent, for every decision but a denial.
pub proof fn question_is_sent_for_grants(
    prompt: &PendingPrompt,
    decision: PromptDecision,
    r: Option<Vec<u8>>,
)
    requires
        call_ensures(authorization_request, (prompt, decision), r),
    ensures
        decision is Deny <==> r is None,
        r matches Some(b) ==> {
            &&& b@.len() == 800
            &&& u32_at(b@, 0) == 0x4350_5244
            &&& decision is AllowOnce ==> u32_at(b@, 4) == 1
            &&& decision is AllowForProcess ==> u32_at(b@, 4) == 2
            &&& decision is AllowPersistently ==> u32_at(b@, 4) == 3
            &&& decision is AllowAllUserGrantable ==> u32_at(b@, 4) == 4
            &&& u64_at(b@, 8) == prompt.request.process_id
            &&& b@.skip(16) == request_bytes(prompt.request)
        },
{
    if decision != PromptDecision::Deny {
        question_carries_the_request(*prompt, decision);
    }
}

/// A decision takes effect exactly where the service answers at least eight bytes and the first
/// eight are zero; any other answer, and none, denies. An error of the service is handed on. A
/// denial takes effect whatever the service says.
pub proof fn service_has_the_last_word(
    decision: PromptDecision,
    reply: Option<Result<ServiceReply, ShellError>>,
    r: Result<PromptDecision, ShellError>,
)
    requires
        call_ensures(authorize_prompt_decision, (decision, reply), r),
    ensures
        r == authorized(decision, reply),
        decision is Deny ==> r == Ok::<PromptDecision, ShellError>(PromptDecision::Deny),
        reply is None ==> r == Ok::<PromptDecision, ShellError>(PromptDecision::Deny),
        !(decision is Deny) ==> (reply matches Some(Err(e)) ==> r == Err::<
            PromptDecision,
            ShellError,
        >(e)),
        !(decision is Deny) ==> (reply matches Some(Ok(answer)) ==> r == Ok::<
            PromptDecision,
            ShellError,
        >(
            if answer.msg % 0x1_0000_0000 >= 8 && (forall|i: int|
                0 <= i < 8 ==> #[trigger] answer.bytes@[i] == 0) {
                decision
            } else {
                PromptDecision::Deny
            },
        )),
{
    if let Some(Ok(answer)) = reply {
        lemma_eight_zeros(answer.bytes@);
    }
}

proof fn lemma_eight_zeros(b: Seq<u8>)
    requires
        b.len() == 8,
    ensures
        u64_at(b, 0) == 0 <==> forall|i: int| 0 <= i < 8 ==> #[trigger] b[i] == 0,
{
    numbers_are_read_lowest_first(b, 0);
    if u64_at(b, 0) == 0 {
        assert(b[0] == 0 && b[1] == 0 && b[2] == 0 && b[3] == 0);
        assert(b[4] == 0 && b[5] == 0 && b[6] == 0 && b[7] == 0);
    }
}

/// The one who asked is sent the number of the decision that takes effect, and that of a denial
/// where the service failed.
pub proof fn answer_is_the_decision_in_effect(
    decision: PromptDecision,
    reply: Option<Result<ServiceReply, ShellError>>,
    sent: [u8; 8],
    effect: Result<PromptDecision, ShellError>,
    number: u32,
)
    requires
        call_ensures(reply_prompt, (decision, reply), sent),
        call_ensures(authorize_prompt_decision, (decision, reply), effect),
    ensures
        effect matches Ok(d) ==> (call_ensures(prompt_decision_value, (d,), number) ==> sent@[0]
            == number),
        effect is Err ==> sent@[0] == 5,
        1 <= sent@[0] <= 5,
        forall|i: int| 1 <= i < 8 ==> #[trigger] sent@[i] == 0,
{
}

/// The capability service is found unless the lookup gave zero.
pub proof fn service_is_found(found: u64, r: Result<u64, ShellError>)
    requires
        call_ensures(service_endpoint, (found,), r),
    ensures
        found != 0 ==> r == Ok::<u64, ShellError>(found),
        found == 0 ==> (r matches Err(e) && e@ == failure(
            ErrorKind::NotFound,
            "capability.service not found"@,
        )),
{
}

/// The question for the capabilities of a program is marked as one and carries its path.
pub proof fn capabilities_are_asked_for(entry_path: &str, r: Vec<u8>)
    requires
        call_ensures(resolve_request, (entry_path,), r),
    ensures
        r@.len() == 4 + encode_utf8(entry_path@).len(),
        u32_at(r@, 0) == 0x4341_5053,
        r@.skip(4) == encode_utf8(entry_path@),
{
    assert(r@.subrange(0, 4) =~= le32(0x4341_5053u32));
    u32_reads_back(0x4341_5053, r@, 0);
    assert(r@.skip(4) =~= encode_utf8(entry_path@));
}

/// The answer for the capabilities of a program: too short or too long a message is invalid, a
/// status other than zero is an error of the system, and else the list follows the status.
pub proof fn capabilities_follow_the_status(
    msg: u64,
    reply: &[u8; RESOLVE_REPLY_SIZE],
    r: Result<Vec<u8>, ShellError>,
)
    requires
        call_ensures(resolve_capabilities, (msg, reply), r),
    ensures
        reply@.len() == 1024,
        message_length(msg) < 8 || message_length(msg) > 1024 ==> (r matches Err(e) && e@
            == failure(ErrorKind::InvalidData, "invalid capability.service reply"@)),
        8 <= message_length(msg) <= 1024 && u64_at(reply@, 0) == 0 ==> (r matches Ok(caps) && caps@
            == reply@.subrange(8, message_length(msg) as int)),
        8 <= message_length(msg) <= 1024 && u64_at(reply@, 0) != 0 ==> (r matches Err(e) && e@
            == ErrorView::Os(u64_at(reply@, 0) as i32)),
{
}

} // verus!
