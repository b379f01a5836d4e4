//! What holds at the edges towards the system.
use crate::capability::PROMPT_REQUEST_SIZE;
use crate::command::{NOT_FOUND, USAGE};
use crate::error::{failure, ErrorKind, ErrorView, ShellError};
use crate::input::INPUT_EVENT_SIZE;
use crate::launch::ROLE_APPLICATION;
use crate::metadata::MAX_APP_METADATA_BYTES;
use crate::prompt::CAPABILITY_SERVICE_NAME;
use crate::service::RESOLVE_REPLY_SIZE;
use crate::system::{
    errno_of, ipc_try_wait, parse_endpoint_arg, shell_targets, sys_error_to_io, system_error,
};
use crate::text::decimal_number;
use crate::wire::{le64, u64_at, u64_reads_back};
use vstd::prelude::*;
use vstd::string::*;

verus! {

/// A failed system call is reported with its error number, which is the negated result; a result
/// that is not negative holds none, and is reported as minus five.
pub proof fn error_numbers_are_negated_results(raw: i64, r: ShellError)
    requires
        raw > i64::MIN,
        call_ensures(sys_error_to_io, (raw,), r),
    ensures
        -0x8000_0000 < raw < 0 ==> r@ == ErrorView::Os((-raw) as i32) && -raw == (-raw) as i32,
        raw >= 0 ==> r@ == ErrorView::Os((-5) as i32),
        raw < 0 ==> errno_of(raw) == Some((-raw) as u64),
        raw >= 0 ==> errno_of(raw) is None,
        r@ == system_error(raw),
{
    assert(0xffff_ffff_ffff_fffbu64 as i32 == -5i32) by (bit_vector);
}

/// Waiting without blocking gives the message, nothing where the system asks to try again (11),
/// and the error in every other case.
pub proof fn waiting_gives_a_message_or_nothing(
    outcome: Result<u64, i64>,
    r: Result<Option<u64>, ShellError>,
    error: ShellError,
)
    requires
        outcome matches Err(raw) ==> raw > i64::MIN && call_ensures(sys_error_to_io, (raw,), error),
        call_ensures(ipc_try_wait, (outcome,), r),
    ensures
        outcome matches Ok(msg) ==> r == Ok::<Option<u64>, ShellError>(Some(msg)),
        outcome == Err::<u64, i64>((-11) as i64) ==> r == Ok::<Option<u64>, ShellError>(None),
        outcome is Err && outcome->Err_0 != -11 ==> (r matches Err(e) && e@ == error@),
{
}

/// The endpoint is the number in the argument behind the shell's name.
pub proof fn endpoint_is_the_first_argument(args: &[String], r: Result<u64, ShellError>)
    requires
        call_ensures(parse_endpoint_arg, (args,), r),
    ensures
        args@.len() < 2 ==> (r matches Err(e) && e@ == failure(
            ErrorKind::InvalidInput,
            "missing endpoint arg"@,
        )),
        args@.len() >= 2 ==> (r matches Ok(endpoint) ==> decimal_number(args@[1]@) == Some(
            endpoint as nat,
        )),
        args@.len() >= 2 && (decimal_number(args@[1]@) matches Some(n) && n
            <= 0xffff_ffff_ffff_ffff) ==> r is Ok,
        args@.len() >= 2 ==> (r matches Err(e) ==> e@ == failure(
            ErrorKind::InvalidInput,
            "invalid endpoint arg"@,
        )),
{
}

/// The terminal is told the endpoint and then the thread.
pub proof fn terminal_is_told_endpoint_and_thread(endpoint: u64, thread_id: u64, r: [u8; 16])
    requires
        call_ensures(shell_targets, (endpoint, thread_id), r),
    ensures
        u64_at(r@, 0) == endpoint,
        u64_at(r@, 8) == thread_id,
{
    assert(r@.subrange(0, 8) =~= le64(endpoint));
    assert(r@.subrange(8, 16) =~= le64(thread_id));
    u64_reads_back(endpoint, r@, 0);
    u64_reads_back(thread_id, r@, 8);
}

/// A failure keeps its class and its message.
pub proof fn failures_keep_their_message(kind: ErrorKind, message: &str, r: ShellError)
    requires
        call_ensures(ShellError::new, (kind, message), r),
    ensures
        r matches ShellError::Failure { kind: k, message: m } && k == kind && m@ == message@,
        r@ == failure(kind, message@),
{
}

/// The texts, names and limits that the shell is known by.
pub proof fn fixed_values()
    ensures
        USAGE@
            == "usage: [--deny-prompts] [--allow-session capability] [--allow-all-user] [--background] command [args...]"@,
        NOT_FOUND@ == "notfound"@,
        CAPABILITY_SERVICE_NAME@ == "capability.service"@,
        ROLE_APPLICATION == 3,
        MAX_APP_METADATA_BYTES == 64 * 1024,
        RESOLVE_REPLY_SIZE == 1024,
        PROMPT_REQUEST_SIZE == 784,
        INPUT_EVENT_SIZE == 32,
{
}

} // verus!
