//! Asking the capability service which capabilities a program has.
use crate::error::{failure, ErrorKind, ErrorView, ShellError};
use crate::prompt::{message_len, message_length};
use crate::wire::{le32, put_bytes, put_u32, read_u64, u64_at};
use vstd::prelude::*;
use vstd::string::*;
use vstd::utf8::encode_utf8;

verus! {

/// The number that marks a question for the capabilities of a program.
pub const RESOLVE_CAPS_OPCODE: u32 = 0x4341_5053;

/// The room for the answer of the capability service.
pub const RESOLVE_REPLY_SIZE: usize = 1024;

/// The endpoint of the capability service, from what the lookup of its name gave: zero stands
/// for none.
pub fn service_endpoint(found: u64) -> (r: Result<u64, ShellError>)
    ensures
        found != 0 ==> r == Ok::<u64, ShellError>(found),
        found == 0 ==> (r matches Err(m) && m@ == failure(
            ErrorKind::NotFound,
            "capability.service not found"@,
        )),
{
    if found == 0 {
        Err(ShellError::new(ErrorKind::NotFound, "capability.service not found"))
    } else {
        Ok(found)
    }
}

/// Writes the question for the capabilities of a program.
pub fn resolve_request(entry_path: &str) -> (r: Vec<u8>)
    ensures
        r@ == le32(RESOLVE_CAPS_OPCODE) + encode_utf8(entry_path@),
{
    let mut out: Vec<u8> = Vec::new();
    put_u32(&mut out, RESOLVE_CAPS_OPCODE);
    put_bytes(&mut out, entry_path.as_bytes());
    assert(out@ =~= le32(RESOLVE_CAPS_OPCODE) + encode_utf8(entry_path@));
    out
}

/// The capabilities in the answer of the service: eight bytes of status, zero for success, and
/// then the list.
pub open spec fn resolved(msg: u64, reply: Seq<u8>) -> Result<Seq<u8>, ErrorView> {
    let len = message_length(msg);
    if len < 8 || len > reply.len() {
        Err(failure(ErrorKind::InvalidData, "invalid capability.service reply"@))
    } else if u64_at(reply, 0) != 0 {
        Err(ErrorView::Os(u64_at(reply, 0) as i32))
    } else {
        Ok(reply.subrange(8, len as int))
    }
}

/// Reads the capabilities out of the answer of the service.
pub fn resolve_capabilities(msg: u64, reply: &[u8; RESOLVE_REPLY_SIZE]) -> (r: Result<
    Vec<u8>,
    ShellError,
>)
    ensures
        match resolved(msg, reply@) {
            Ok(caps) => r matches Ok(v) && v@ == caps,
            Err(e) => r matches Err(m) && m@ == e,
        },
{
    let len = message_len(msg);
    if len < 8 || len > RESOLVE_REPLY_SIZE {
        return Err(ShellError::new(ErrorKind::InvalidData, "invalid capability.service reply"));
    }
    let status = read_u64(reply, 0);
    if status != 0 {
        return Err(ShellError::Os(#[verifier::truncate] (status as i32)));
    }
    let mut caps: Vec<u8> = Vec::new();
    put_bytes(&mut caps, &reply[8..len]);
    assert(caps@ =~= reply@.subrange(8, len as int));
    Ok(caps)
}

} // verus!
