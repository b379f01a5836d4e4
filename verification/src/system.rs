//! The edges towards the system: error numbers, waiting for messages, and the arguments that the
//! shell is started with.
use crate::error::{failure, ErrorKind, ErrorView, ShellError};
use crate::text::{decimal_number_to, parse_u64};
use crate::wire::{le64, put_u64, read_array};
use vstd::prelude::*;
use vstd::string::*;

verus! {

/// The error number of an operation that would have to wait.
pub const EAGAIN: i32 = 11;

/// The error number in the result of a failed system call, if it holds one: error numbers are
/// returned negated.
pub open spec fn errno_of(raw: i64) -> Option<u64> {
    if raw < 0 {
        Some((-raw) as u64)
    } else {
        None
    }
}

/// `mochi_user_syscall::SysError::errno` on the error made by `SysError::from_raw`: the negation
/// of a negative result, and nothing for any other. The lowest `i64` has no negation.
#[verifier::external_body]
fn sys_errno(raw: i64) -> (r: Option<u64>)
    requires
        raw > i64::MIN,
    ensures
        r == errno_of(raw),
{
    mochi_user_syscall::SysError::from_raw(raw).errno()
}

/// `mochi_user_syscall::EIO`: the negation of 5 in 64 bits.
#[verifier::external_body]
fn eio() -> (r: u64)
    ensures
        r == 0xffff_ffff_ffff_fffb,
{
    mochi_user_syscall::EIO
}

/// The error that a failed system call is reported as: its error number, or else the one for a
/// failed input or output, in 32 bits.
pub open spec fn system_error(raw: i64) -> ErrorView {
    match errno_of(raw) {
        Some(errno) => ErrorView::Os(errno as i32),
        None => ErrorView::Os(0xffff_ffff_ffff_fffbu64 as i32),
    }
}

/// Reports a failed system call.
pub fn sys_error_to_io(raw: i64) -> (r: ShellError)
    requires
        raw > i64::MIN,
    ensures
        r@ == system_error(raw),
{
    let errno = match sys_errno(raw) {
        Some(errno) => errno,
        None => eio(),
    };
    ShellError::Os(#[verifier::truncate] (errno as i32))
}

/// What waiting for a message without blocking gave: a message, nothing yet, or an error.
pub fn ipc_try_wait(outcome: Result<u64, i64>) -> (r: Result<Option<u64>, ShellError>)
    requires
        outcome matches Err(raw) ==> raw > i64::MIN,
    ensures
        match outcome {
            Ok(msg) => r == Ok::<Option<u64>, ShellError>(Some(msg)),
            Err(raw) => if errno_of(raw) == Some(11u64) {
                r == Ok::<Option<u64>, ShellError>(None)
            } else {
                r matches Err(m) && m@ == system_error(raw)
            },
        },
{
    match outcome {
        Ok(msg) => Ok(Some(msg)),
        Err(raw) => {
            if let Some(errno) = sys_errno(raw) {
                if errno == 11 {
                    return Ok(None);
                }
            }
            Err(sys_error_to_io(raw))
        },
    }
}

/// Reads the endpoint of the terminal out of the arguments of the shell: the one behind the
/// shell's own name.
pub fn parse_endpoint_arg(args: &[String]) -> (r: Result<u64, ShellError>)
    ensures
        args@.len() < 2 ==> (r matches Err(m) && m@ == failure(
            ErrorKind::InvalidInput,
            "missing endpoint arg"@,
        )),
        args@.len() >= 2 ==> match decimal_number_to(args@[1]@, u64::MAX as int) {
            Some(v) => r matches Ok(endpoint) && endpoint == v,
            None => r matches Err(m) && m@ == failure(
                ErrorKind::InvalidInput,
                "invalid endpoint arg"@,
            ),
        },
{
    if args.len() < 2 {
        return Err(ShellError::new(ErrorKind::InvalidInput, "missing endpoint arg"));
    }
    match parse_u64(args[1].as_str()) {
        Some(endpoint) => Ok(endpoint),
        None => Err(ShellError::new(ErrorKind::InvalidInput, "invalid endpoint arg")),
    }
}

/// Writes what the shell tells the terminal at its start: its endpoint and its thread.
pub fn shell_targets(endpoint: u64, thread_id: u64) -> (r: [u8; 16])
    ensures
        r@ == le64(endpoint) + le64(thread_id),
{
    let mut out: Vec<u8> = Vec::new();
    put_u64(&mut out, endpoint);
    put_u64(&mut out, thread_id);
    let r: [u8; 16] = read_array(out.as_slice(), 0);
    assert(r@ =~= le64(endpoint) + le64(thread_id));
    r
}

} // verus!
