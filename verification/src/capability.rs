//! Requests for a capability: who asks, for what, and the bytes in which the request travels.
//!
//! A message has the layout that a C compiler for a 64-bit little-endian machine gives the
//! structure: every field at a multiple of its size, gaps filled with zero bytes.
use crate::text::{utf8_str, utf8_text};
use crate::wire::{
    le16, le32, le64, put_bytes, put_u16, put_u32, put_u64, put_zeros, read_array, read_u16,
    read_u32, read_u64, u16_at, u16_reads_back, u32_at, u32_reads_back, u64_at, u64_reads_back,
    zeros,
};
use vstd::prelude::*;
use vstd::string::*;

verus! {

/// The number that marks a request for a capability.
pub const CAPABILITY_PROMPT_OPCODE: u32 = 0x4350_5251;

/// The length of a request for a capability.
pub const PROMPT_REQUEST_SIZE: usize = 784;

/// Who may grant a capability.
#[derive(Clone, Copy, Debug, PartialEq, Eq, Structural)]
pub enum CapabilityClass {
    UserGrantable,
    Privileged,
    SystemOnly,
}

/// The program that asks.
#[derive(Clone, Copy, Debug, PartialEq, Eq)]
pub struct CapabilityExecutableIdentity {
    pub path_len: u16,
    pub reserved: u16,
    pub digest: [u8; 32],
    pub path: [u8; 256],
}

/// What the capability is for.
#[derive(Clone, Copy, Debug, PartialEq, Eq)]
pub struct CapabilityResourceDescriptor {
    pub kind: u32,
    pub path_len: u16,
    pub reserved: u16,
    pub path: [u8; 256],
}

/// A request for a capability.
#[derive(Clone, Copy, Debug, PartialEq, Eq)]
pub struct CapabilityPromptRequest {
    pub opcode: u32,
    pub process_id: u64,
    pub executable: CapabilityExecutableIdentity,
    pub capability_class: CapabilityClass,
    pub capability_len: u16,
    pub resource: CapabilityResourceDescriptor,
    pub reason_len: u16,
    pub interactive: u8,
    pub decision_scope: u8,
    pub reserved0: u16,
    pub capability: [u8; 64],
    pub reason: [u8; 128],
}

impl Default for CapabilityClass {
    fn default() -> (r: CapabilityClass)
        ensures
            r == CapabilityClass::UserGrantable,
    {
        CapabilityClass::UserGrantable
    }
}

impl Default for CapabilityExecutableIdentity {
    fn default() -> (r: CapabilityExecutableIdentity)
        ensures
            r.path_len == 0,
            r.reserved == 0,
            r.digest@ == zeros(32),
            r.path@ == zeros(256),
    {
        let r = CapabilityExecutableIdentity {
            path_len: 0,
            reserved: 0,
            digest: [0;32],
            path: [0;256],
        };
        assert(r.digest@ =~= zeros(32));
        assert(r.path@ =~= zeros(256));
        r
    }
}

impl Default for CapabilityResourceDescriptor {
    fn default() -> (r: CapabilityResourceDescriptor)
        ensures
            r.kind == 0,
            r.path_len == 0,
            r.reserved == 0,
            r.path@ == zeros(256),
    {
        let r = CapabilityResourceDescriptor { kind: 0, path_len: 0, reserved: 0, path: [0;256] };
        assert(r.path@ =~= zeros(256));
        r
    }
}

impl Default for CapabilityPromptRequest {
    fn default() -> (r: CapabilityPromptRequest)
        ensures
            r.opcode == 0,
            r.process_id == 0,
            r.executable.path_len == 0,
            r.executable.reserved == 0,
            r.executable.digest@ == zeros(32),
            r.executable.path@ == zeros(256),
            r.capability_class == CapabilityClass::UserGrantable,
            r.capability_len == 0,
            r.resource.kind == 0,
            r.resource.path_len == 0,
            r.resource.reserved == 0,
            r.resource.path@ == zeros(256),
            r.reason_len == 0,
            r.interactive == 0,
            r.decision_scope == 0,
            r.reserved0 == 0,
            r.capability@ == zeros(64),
            r.reason@ == zeros(128),
    {
        let r = CapabilityPromptRequest {
            opcode: 0,
            process_id: 0,
            executable: CapabilityExecutableIdentity::default(),
            capability_class: CapabilityClass::UserGrantable,
            capability_len: 0,
            resource: CapabilityResourceDescriptor::default(),
            reason_len: 0,
            interactive: 0,
            decision_scope: 0,
            reserved0: 0,
            capability: [0;64],
            reason: [0;128],
        };
        assert(r.capability@ =~= zeros(64));
        assert(r.reason@ =~= zeros(128));
        r
    }
}

/// The number that stands for a class.
pub open spec fn class_code(class: CapabilityClass) -> u32 {
    match class {
        CapabilityClass::UserGrantable => 1,
        CapabilityClass::Privileged => 2,
        CapabilityClass::SystemOnly => 3,
    }
}

/// The class that a number stands for, if it stands for one.
pub open spec fn class_of(code: u32) -> Option<CapabilityClass> {
    if code == 1 {
        Some(CapabilityClass::UserGrantable)
    } else if code == 2 {
        Some(CapabilityClass::Privileged)
    } else if code == 3 {
        Some(CapabilityClass::SystemOnly)
    } else {
        None
    }
}

/// The text that bytes encode, or the empty text where they encode none.
pub open spec fn text_or_empty(bytes: Seq<u8>) -> Seq<char> {
    match utf8_text(bytes) {
        Some(t) => t,
        None => seq![],
    }
}

impl CapabilityPromptRequest {
    /// Whether the stated length of the capability's name fits its field.
    pub open spec fn capability_fits(self) -> bool {
        self.capability_len <= 64
    }

    /// Whether the stated length of the program's path fits its field.
    pub open spec fn executable_path_fits(self) -> bool {
        self.executable.path_len <= 256
    }

    /// Whether the stated length of the resource's path fits its field.
    pub open spec fn resource_path_fits(self) -> bool {
        self.resource.path_len <= 256
    }

    /// Whether every text that a prompt shows can be read.
    pub open spec fn can_be_shown(self) -> bool {
        self.capability_fits() && self.executable_path_fits() && self.resource_path_fits()
    }

    /// The name of the capability.
    pub open spec fn capability_text(self) -> Seq<char> {
        text_or_empty(self.capability@.take(self.capability_len as int))
    }

    /// The path of the program that asks.
    pub open spec fn executable_path_text(self) -> Seq<char> {
        text_or_empty(self.executable.path@.take(self.executable.path_len as int))
    }

    /// The path of the resource, if the request names one that is text.
    pub open spec fn resource_path_text(self) -> Option<Seq<char>> {
        if self.resource.path_len == 0 {
            None
        } else {
            utf8_text(self.resource.path@.take(self.resource.path_len as int))
        }
    }

    /// The name of the capability, empty where it is no text.
    pub fn capability(&self) -> (r: &str)
        requires
            self.capability_fits(),
        ensures
            r@ == self.capability_text(),
    {
        let name = &self.capability[0..self.capability_len as usize];
        assert(name@ =~= self.capability@.take(self.capability_len as int));
        match utf8_str(name) {
            Some(s) => s,
            None => {
                proof {
                    reveal_strlit("");
                    assert(""@ =~= Seq::<char>::empty());
                }
                ""
            },
        }
    }

    /// The path of the program that asks, empty where it is no text.
    pub fn executable_path(&self) -> (r: &str)
        requires
            self.executable_path_fits(),
        ensures
            r@ == self.executable_path_text(),
    {
        let path = &self.executable.path[0..self.executable.path_len as usize];
        assert(path@ =~= self.executable.path@.take(self.executable.path_len as int));
        match utf8_str(path) {
            Some(s) => s,
            None => {
                proof {
                    reveal_strlit("");
                    assert(""@ =~= Seq::<char>::empty());
                }
                ""
            },
        }
    }

    /// The path of the resource, if the request names one that is text.
    pub fn resource_path(&self) -> (r: Option<&str>)
        requires
            self.resource_path_fits(),
        ensures
            match self.resource_path_text() {
                Some(t) => r matches Some(s) && s@ == t,
                None => r is None,
            },
    {
        if self.resource.path_len == 0 {
            return None;
        }
        let path = &self.resource.path[0..self.resource.path_len as usize];
        assert(path@ =~= self.resource.path@.take(self.resource.path_len as int));
        utf8_str(path)
    }

    /// Whether every text that a prompt shows can be read.
    pub fn is_showable(&self) -> (r: bool)
        ensures
            r == self.can_be_shown(),
    {
        self.capability_len <= 64 && self.executable.path_len <= 256 && self.resource.path_len
            <= 256
    }
}

/// Whether the bytes hold the request: each field at its place, and the gaps free.
pub open spec fn holds_request(b: Seq<u8>, r: CapabilityPromptRequest) -> bool {
    &&& b.len() >= 784
    &&& r.opcode == u32_at(b, 0)
    &&& r.process_id == u64_at(b, 8)
    &&& r.executable.path_len == u16_at(b, 16)
    &&& r.executable.reserved == u16_at(b, 18)
    &&& r.executable.digest@ == b.subrange(20, 52)
    &&& r.executable.path@ == b.subrange(52, 308)
    &&& class_of(u32_at(b, 308)) == Some(r.capability_class)
    &&& r.capability_len == u16_at(b, 312)
    &&& r.resource.kind == u32_at(b, 316)
    &&& r.resource.path_len == u16_at(b, 320)
    &&& r.resource.reserved == u16_at(b, 322)
    &&& r.resource.path@ == b.subrange(324, 580)
    &&& r.reason_len == u16_at(b, 580)
    &&& r.interactive == b[582]
    &&& r.decision_scope == b[583]
    &&& r.reserved0 == u16_at(b, 584)
    &&& r.capability@ == b.subrange(586, 650)
    &&& r.reason@ == b.subrange(650, 778)
}

/// Whether the bytes are a request for a capability: long enough, marked as one, and of a known
/// class.
pub open spec fn is_request(b: Seq<u8>) -> bool {
    &&& b.len() >= 784
    &&& u32_at(b, 0) == CAPABILITY_PROMPT_OPCODE
    &&& class_of(u32_at(b, 308)) is Some
}

/// The request that the bytes hold, if they are one.
pub open spec fn request_in(b: Seq<u8>) -> Option<CapabilityPromptRequest> {
    if is_request(b) {
        Some(choose|r: CapabilityPromptRequest| holds_request(b, r))
    } else {
        None
    }
}

/// Reads a request for a capability out of a message. What follows the request is ignored.
pub fn parse_capability_request(buf: &[u8]) -> (r: Option<CapabilityPromptRequest>)
    ensures
        r is Some <==> is_request(buf@),
        r matches Some(request) ==> holds_request(buf@, request),
        r == request_in(buf@),
{
    if buf.len() < 784 {
        return None;
    }
    let opcode = read_u32(buf, 0);
    if opcode != CAPABILITY_PROMPT_OPCODE {
        return None;
    }
    let class = read_u32(buf, 308);
    let capability_class = if class == 1 {
        CapabilityClass::UserGrantable
    } else if class == 2 {
        CapabilityClass::Privileged
    } else if class == 3 {
        CapabilityClass::SystemOnly
    } else {
        return None;
    };
    let request = CapabilityPromptRequest {
        opcode,
        process_id: read_u64(buf, 8),
        executable: CapabilityExecutableIdentity {
            path_len: read_u16(buf, 16),
            reserved: read_u16(buf, 18),
            digest: read_array(buf, 20),
            path: read_array(buf, 52),
        },
        capability_class,
        capability_len: read_u16(buf, 312),
        resource: CapabilityResourceDescriptor {
            kind: read_u32(buf, 316),
            path_len: read_u16(buf, 320),
            reserved: read_u16(buf, 322),
            path: read_array(buf, 324),
        },
        reason_len: read_u16(buf, 580),
        interactive: buf[582],
        decision_scope: buf[583],
        reserved0: read_u16(buf, 584),
        capability: read_array(buf, 586),
        reason: read_array(buf, 650),
    };
    proof {
        assert(holds_request(buf@, request));
        request_is_unique(buf@, request, request_in(buf@)->0);
    }
    Some(request)
}

/// The bytes of the program's identity.
pub open spec fn identity_bytes(e: CapabilityExecutableIdentity) -> Seq<u8> {
    le16(e.path_len) + le16(e.reserved) + e.digest@ + e.path@
}

/// The bytes of the resource.
pub open spec fn resource_bytes(d: CapabilityResourceDescriptor) -> Seq<u8> {
    le32(d.kind) + le16(d.path_len) + le16(d.reserved) + d.path@
}

/// The bytes of a request.
pub open spec fn request_bytes(r: CapabilityPromptRequest) -> Seq<u8> {
    le32(r.opcode) + zeros(4) + le64(r.process_id) + identity_bytes(r.executable) + le32(
        class_code(r.capability_class),
    ) + le16(r.capability_len) + zeros(2) + resource_bytes(r.resource) + le16(r.reason_len)
        + seq![r.interactive, r.decision_scope] + le16(r.reserved0) + r.capability@ + r.reason@
        + zeros(6)
}

/// Writes a request at the end of a message.
pub fn put_request(out: &mut Vec<u8>, r: &CapabilityPromptRequest)
    ensures
        final(out)@ == old(out)@ + request_bytes(*r),
{
    let class: u32 = match r.capability_class {
        CapabilityClass::UserGrantable => 1,
        CapabilityClass::Privileged => 2,
        CapabilityClass::SystemOnly => 3,
    };
    put_u32(out, r.opcode);
    put_zeros(out, 4);
    put_u64(out, r.process_id);
    let ghost before = out@;
    put_u16(out, r.executable.path_len);
    put_u16(out, r.executable.reserved);
    put_bytes(out, &r.executable.digest);
    put_bytes(out, &r.executable.path);
    assert(out@ =~= before + identity_bytes(r.executable));
    put_u32(out, class);
    put_u16(out, r.capability_len);
    put_zeros(out, 2);
    let ghost before = out@;
    put_u32(out, r.resource.kind);
    put_u16(out, r.resource.path_len);
    put_u16(out, r.resource.reserved);
    put_bytes(out, &r.resource.path);
    assert(out@ =~= before + resource_bytes(r.resource));
    put_u16(out, r.reason_len);
    let ghost before = out@;
    out.push(r.interactive);
    out.push(r.decision_scope);
    assert(out@ =~= before + seq![r.interactive, r.decision_scope]);
    put_u16(out, r.reserved0);
    put_bytes(out, &r.capability);
    put_bytes(out, &r.reason);
    put_zeros(out, 6);
    assert(out@ =~= old(out)@ + request_bytes(*r));
}

/// A request written into a message is read back unchanged, whatever follows it in the message;
/// and where it carries the mark of a request, it is recognised as one.
pub proof fn request_reads_back(r: CapabilityPromptRequest, rest: Seq<u8>)
    ensures
        request_bytes(r).len() == PROMPT_REQUEST_SIZE,
        holds_request(request_bytes(r) + rest, r),
        is_request(request_bytes(r) + rest) <==> r.opcode == CAPABILITY_PROMPT_OPCODE,
        r.opcode == CAPABILITY_PROMPT_OPCODE ==> request_in(request_bytes(r) + rest) == Some(r),
{
    let b = request_bytes(r) + rest;
    assert(request_bytes(r).len() == 784);
    let identity = identity_bytes(r.executable);
    let resource = resource_bytes(r.resource);
    assert(b.subrange(16, 308) =~= identity);
    assert(b.subrange(316, 580) =~= resource);
    assert(b.subrange(0, 4) =~= le32(r.opcode));
    u32_reads_back(r.opcode, b, 0);
    assert(b.subrange(8, 16) =~= le64(r.process_id));
    u64_reads_back(r.process_id, b, 8);
    assert(b.subrange(16, 18) =~= b.subrange(16, 308).subrange(0, 2));
    assert(identity.subrange(0, 2) =~= le16(r.executable.path_len));
    u16_reads_back(r.executable.path_len, b, 16);
    assert(b.subrange(18, 20) =~= b.subrange(16, 308).subrange(2, 4));
    assert(identity.subrange(2, 4) =~= le16(r.executable.reserved));
    u16_reads_back(r.executable.reserved, b, 18);
    assert(b.subrange(20, 52) =~= b.subrange(16, 308).subrange(4, 36));
    assert(identity.subrange(4, 36) =~= r.executable.digest@);
    assert(b.subrange(52, 308) =~= b.subrange(16, 308).subrange(36, 292));
    assert(identity.subrange(36, 292) =~= r.executable.path@);
    assert(b.subrange(308, 312) =~= le32(class_code(r.capability_class)));
    u32_reads_back(class_code(r.capability_class), b, 308);
    assert(b.subrange(312, 314) =~= le16(r.capability_len));
    u16_reads_back(r.capability_len, b, 312);
    assert(b.subrange(316, 320) =~= b.subrange(316, 580).subrange(0, 4));
    assert(resource.subrange(0, 4) =~= le32(r.resource.kind));
    u32_reads_back(r.resource.kind, b, 316);
    assert(b.subrange(320, 322) =~= b.subrange(316, 580).subrange(4, 6));
    assert(resource.subrange(4, 6) =~= le16(r.resource.path_len));
    u16_reads_back(r.resource.path_len, b, 320);
    assert(b.subrange(322, 324) =~= b.subrange(316, 580).subrange(6, 8));
    assert(resource.subrange(6, 8) =~= le16(r.resource.reserved));
    u16_reads_back(r.resource.reserved, b, 322);
    assert(b.subrange(324, 580) =~= b.subrange(316, 580).subrange(8, 264));
    assert(resource.subrange(8, 264) =~= r.resource.path@);
    assert(b.subrange(580, 582) =~= le16(r.reason_len));
    u16_reads_back(r.reason_len, b, 580);
    assert(b.subrange(582, 584) =~= seq![r.interactive, r.decision_scope]);
    assert(b[582] == b.subrange(582, 584)[0]);
    assert(b[583] == b.subrange(582, 584)[1]);
    assert(b.subrange(584, 586) =~= le16(r.reserved0));
    u16_reads_back(r.reserved0, b, 584);
    assert(b.subrange(586, 650) =~= r.capability@);
    assert(b.subrange(650, 778) =~= r.reason@);
    if r.opcode == CAPABILITY_PROMPT_OPCODE {
        assert(holds_request(b, r));
        request_is_unique(b, r, request_in(b)->0);
    }
}

/// A message holds at most one request.
pub proof fn request_is_unique(
    b: Seq<u8>,
    r1: CapabilityPromptRequest,
    r2: CapabilityPromptRequest,
)
    requires
        holds_request(b, r1),
        holds_request(b, r2),
    ensures
        r1 == r2,
{
    assert(r1.executable.digest =~= r2.executable.digest);
    assert(r1.executable.path =~= r2.executable.path);
    assert(r1.resource.path =~= r2.resource.path);
    assert(r1.capability =~= r2.capability);
    assert(r1.reason =~= r2.reason);
}

} // verus!
