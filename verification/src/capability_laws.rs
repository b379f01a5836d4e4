//! What holds of every request for a capability: where its fields stand in a message, and which
//! texts it gives.
use crate::capability::{
    class_code, class_of, identity_bytes, parse_capability_request, request_bytes,
    request_reads_back, resource_bytes, text_or_empty, CapabilityClass, CapabilityPromptRequest,
};
use crate::text::utf8_text;
use crate::text_laws::text_is_what_bytes_encode;
use crate::wire::{le16, le32, le64, u16_at, u32_at, u64_at, zeros};
use vstd::prelude::*;
use vstd::string::*;
use vstd::utf8::encode_utf8;

verus! {

/// Every field of a request stands at its place in the message, and the gaps are filled with
/// zeros.
pub proof fn fields_stand_at_their_places(r: CapabilityPromptRequest)
    ensures
        ({
            let b = request_bytes(r);
            &&& b.len() == 784
            &&& b.subrange(0, 4) == le32(r.opcode)
            &&& b.subrange(4, 8) == zeros(4)
            &&& b.subrange(8, 16) == le64(r.process_id)
            &&& b.subrange(16, 18) == le16(r.executable.path_len)
            &&& b.subrange(18, 20) == le16(r.executable.reserved)
            &&& b.subrange(20, 52) == r.executable.digest@
            &&& b.subrange(52, 308) == r.executable.path@
            &&& b.subrange(308, 312) == le32(class_code(r.capability_class))
            &&& b.subrange(312, 314) == le16(r.capability_len)
            &&& b.subrange(314, 316) == zeros(2)
            &&& b.subrange(316, 320) == le32(r.resource.kind)
            &&& b.subrange(320, 322) == le16(r.resource.path_len)
            &&& b.subrange(322, 324) == le16(r.resource.reserved)
            &&& b.subrange(324, 580) == r.resource.path@
            &&& b.subrange(580, 582) == le16(r.reason_len)
            &&& b[582] == r.interactive
            &&& b[583] == r.decision_scope
            &&& b.subrange(584, 586) == le16(r.reserved0)
            &&& b.subrange(586, 650) == r.capability@
            &&& b.subrange(650, 778) == r.reason@
            &&& b.subrange(778, 784) == zeros(6)
        }),
{
    let b = request_bytes(r);
    let identity = identity_bytes(r.executable);
    let resource = resource_bytes(r.resource);
    let pair = seq![r.interactive, r.decision_scope];
    lemma_four_parts(
        identity,
        le16(r.executable.path_len),
        le16(r.executable.reserved),
        r.executable.digest@,
        r.executable.path@,
    );
    lemma_four_parts(
        resource,
        le32(r.resource.kind),
        le16(r.resource.path_len),
        le16(r.resource.reserved),
        r.resource.path@,
    );
    lemma_front(
        b,
        le32(r.opcode),
        zeros(4),
        le64(r.process_id),
        identity,
        le32(class_code(r.capability_class)),
        le16(r.capability_len),
        zeros(2),
        resource,
        le16(r.reason_len) + pair + le16(r.reserved0) + r.capability@ + r.reason@ + zeros(6),
    );
    lemma_back(b.skip(580), le16(r.reason_len), pair, le16(r.reserved0), r.capability@, r.reason@);
    lemma_within(b, 16, identity, 0, 2);
    lemma_within(b, 16, identity, 2, 4);
    lemma_within(b, 16, identity, 4, 36);
    lemma_within(b, 16, identity, 36, 292);
    lemma_within(b, 316, resource, 0, 4);
    lemma_within(b, 316, resource, 4, 6);
    lemma_within(b, 316, resource, 6, 8);
    lemma_within(b, 316, resource, 8, 264);
    let back = b.skip(580);
    assert(b.subrange(580, 784) =~= back);
    lemma_within(b, 580, back, 0, 2);
    lemma_within(b, 580, back, 4, 6);
    lemma_within(b, 580, back, 6, 70);
    lemma_within(b, 580, back, 70, 198);
    lemma_within(b, 580, back, 198, 204);
    assert(b[582] == back[2] && b[583] == back[3]);
}

proof fn lemma_within(b: Seq<u8>, at: int, part: Seq<u8>, from: int, to: int)
    requires
        0 <= at,
        at + part.len() <= b.len(),
        b.subrange(at, at + part.len()) == part,
        0 <= from <= to <= part.len(),
    ensures
        b.subrange(at + from, at + to) == part.subrange(from, to),
{
    assert(b.subrange(at + from, at + to) =~= b.subrange(at, at + part.len()).subrange(from, to));
}

proof fn lemma_four_parts(s: Seq<u8>, a: Seq<u8>, b: Seq<u8>, c: Seq<u8>, d: Seq<u8>)
    requires
        s == a + b + c + d,
    ensures
        s.len() == a.len() + b.len() + c.len() + d.len(),
        s.subrange(0, a.len() as int) == a,
        s.subrange(a.len() as int, (a.len() + b.len()) as int) == b,
        s.subrange((a.len() + b.len()) as int, (a.len() + b.len() + c.len()) as int) == c,
        s.subrange((a.len() + b.len() + c.len()) as int, s.len() as int) == d,
{
    assert(s.subrange(0, a.len() as int) =~= a);
    assert(s.subrange(a.len() as int, (a.len() + b.len()) as int) =~= b);
    assert(s.subrange((a.len() + b.len()) as int, (a.len() + b.len() + c.len()) as int) =~= c);
    assert(s.subrange((a.len() + b.len() + c.len()) as int, s.len() as int) =~= d);
}

proof fn lemma_front(
    s: Seq<u8>,
    a: Seq<u8>,
    b: Seq<u8>,
    c: Seq<u8>,
    d: Seq<u8>,
    e: Seq<u8>,
    f: Seq<u8>,
    g: Seq<u8>,
    h: Seq<u8>,
    rest: Seq<u8>,
)
    requires
        s =~= a + b + c + d + e + f + g + h + rest,
        a.len() == 4,
        b.len() == 4,
        c.len() == 8,
        d.len() == 292,
        e.len() == 4,
        f.len() == 2,
        g.len() == 2,
        h.len() == 264,
    ensures
        s.len() == 580 + rest.len(),
        s.subrange(0, 4) == a,
        s.subrange(4, 8) == b,
        s.subrange(8, 16) == c,
        s.subrange(16, 308) == d,
        s.subrange(308, 312) == e,
        s.subrange(312, 314) == f,
        s.subrange(314, 316) == g,
        s.subrange(316, 580) == h,
        s.skip(580) == rest,
{
    assert(s.subrange(0, 4) =~= a);
    assert(s.subrange(4, 8) =~= b);
    assert(s.subrange(8, 16) =~= c);
    assert(s.subrange(16, 308) =~= d);
    assert(s.subrange(308, 312) =~= e);
    assert(s.subrange(312, 314) =~= f);
    assert(s.subrange(314, 316) =~= g);
    assert(s.subrange(316, 580) =~= h);
    assert(s.skip(580) =~= rest);
}

proof fn lemma_back(
    s: Seq<u8>,
    a: Seq<u8>,
    b: Seq<u8>,
    c: Seq<u8>,
    d: Seq<u8>,
    e: Seq<u8>,
)
    requires
        s == a + b + c + d + e + zeros(6),
        a.len() == 2,
        b.len() == 2,
        c.len() == 2,
        d.len() == 64,
        e.len() == 128,
    ensures
        s.len() == 204,
        s.subrange(0, 2) == a,
        s[2] == b[0] && s[3] == b[1],
        s.subrange(4, 6) == c,
        s.subrange(6, 70) == d,
        s.subrange(70, 198) == e,
        s.subrange(198, 204) == zeros(6),
{
    assert(s.subrange(0, 2) =~= a);
    assert(s.subrange(4, 6) =~= c);
    assert(s.subrange(6, 70) =~= d);
    assert(s.subrange(70, 198) =~= e);
    assert(s.subrange(198, 204) =~= zeros(6));
}

/// The classes have the numbers one to three, and no other number stands for one.
pub proof fn classes_are_numbered(class: CapabilityClass, code: u32)
    ensures
        class_code(CapabilityClass::UserGrantable) == 1,
        class_code(CapabilityClass::Privileged) == 2,
        class_code(CapabilityClass::SystemOnly) == 3,
        class_of(code) == Some(class) <==> code == class_code(class),
        class_of(code) is None <==> code == 0 || code > 3,
{
}

/// A message is read as the request whose bytes it begins with, whatever follows; it is none
/// where it is too short, is not marked as one, or names no class.
pub proof fn request_is_read_from_its_bytes(
    buf: &[u8],
    r: Option<CapabilityPromptRequest>,
    sent: CapabilityPromptRequest,
    rest: Seq<u8>,
)
    requires
        call_ensures(parse_capability_request, (buf,), r),
    ensures
        sent.opcode == 0x4350_5251 && buf@ == request_bytes(sent) + rest ==> r == Some(sent),
        buf@.len() < 784 ==> r is None,
        buf@.len() >= 784 ==> (r is Some <==> u32_at(buf@, 0) == 0x4350_5251 && 1 <= u32_at(
            buf@,
            308,
        ) <= 3),
{
    request_reads_back(sent, rest);
}

/// Every field of a request is read from its place in the message, whatever stands in the gaps.
pub proof fn fields_are_read_from_their_places(buf: &[u8], r: Option<CapabilityPromptRequest>)
    requires
        call_ensures(parse_capability_request, (buf,), r),
    ensures
        r matches Some(q) ==> {
            &&& q.opcode == 0x4350_5251
            &&& q.process_id == u64_at(buf@, 8)
            &&& q.executable.path_len == u16_at(buf@, 16)
            &&& q.executable.reserved == u16_at(buf@, 18)
            &&& q.executable.digest@ == buf@.subrange(20, 52)
            &&& q.executable.path@ == buf@.subrange(52, 308)
            &&& q.capability_class is UserGrantable <==> u32_at(buf@, 308) == 1
            &&& q.capability_class is Privileged <==> u32_at(buf@, 308) == 2
            &&& q.capability_class is SystemOnly <==> u32_at(buf@, 308) == 3
            &&& q.capability_len == u16_at(buf@, 312)
            &&& q.resource.kind == u32_at(buf@, 316)
            &&& q.resource.path_len == u16_at(buf@, 320)
            &&& q.resource.reserved == u16_at(buf@, 322)
            &&& q.resource.path@ == buf@.subrange(324, 580)
            &&& q.reason_len == u16_at(buf@, 580)
            &&& q.interactive == buf@[582]
            &&& q.decision_scope == buf@[583]
            &&& q.reserved0 == u16_at(buf@, 584)
            &&& q.capability@ == buf@.subrange(586, 650)
            &&& q.reason@ == buf@.subrange(650, 778)
        },
{
}

/// The text of bytes is the text that they encode, and empty where they encode none.
pub proof fn texts_are_decoded(bytes: Seq<u8>, text: Seq<char>)
    ensures
        text_or_empty(encode_utf8(text)) == text,
        utf8_text(bytes) is None ==> text_or_empty(bytes) == Seq::<char>::empty(),
{
    text_is_what_bytes_encode(encode_utf8(text), text);
}

/// The texts of a request are what the stated number of bytes in its fields encodes. A name or a
/// path that is no text is empty; a resource whose path is empty or no text is none.
pub proof fn texts_of_a_request(
    request: &CapabilityPromptRequest,
    name: &str,
    program: &str,
    resource: Option<&str>,
    text: Seq<char>,
)
    requires
        request.capability_len <= 64,
        request.executable.path_len <= 256,
        request.resource.path_len <= 256,
        call_ensures(CapabilityPromptRequest::capability, (request,), name),
        call_ensures(CapabilityPromptRequest::executable_path, (request,), program),
        call_ensures(CapabilityPromptRequest::resource_path, (request,), resource),
    ensures
        request.capability@.take(request.capability_len as int) == encode_utf8(text) ==> name@
            == text,
        utf8_text(request.capability@.take(request.capability_len as int)) is None ==> name@.len()
            == 0,
        request.executable.path@.take(request.executable.path_len as int) == encode_utf8(text)
            ==> program@ == text,
        utf8_text(request.executable.path@.take(request.executable.path_len as int)) is None
            ==> program@.len() == 0,
        request.resource.path_len > 0 && request.resource.path@.take(
            request.resource.path_len as int,
        ) == encode_utf8(text) ==> (resource matches Some(path) && path@ == text),
        request.resource.path_len == 0 || utf8_text(
            request.resource.path@.take(request.resource.path_len as int),
        ) is None ==> resource is None,
        name@ == request.capability_text(),
{
    text_is_what_bytes_encode(encode_utf8(text), text);
}

/// A request can be shown exactly where no stated length exceeds its field: 64 bytes for the name
/// of the capability, 256 for the path of the program and for that of the resource.
pub proof fn showable_requests_fit(request: &CapabilityPromptRequest, r: bool)
    requires
        call_ensures(CapabilityPromptRequest::is_showable, (request,), r),
    ensures
        r <==> request.capability_len <= 64 && request.executable.path_len <= 256
            && request.resource.path_len <= 256,
        r == request.can_be_shown(),
        request.capability_fits() <==> request.capability_len <= 64,
        request.executable_path_fits() <==> request.executable.path_len <= 256,
        request.resource_path_fits() <==> request.resource.path_len <= 256,
{
}

/// A request without anything in it holds zeros, and asks for what the user may grant.
pub proof fn empty_request_holds_zeros(request: CapabilityPromptRequest)
    requires
        call_ensures(CapabilityPromptRequest::default, (), request),
    ensures
        request.capability_class == CapabilityClass::UserGrantable,
        request.opcode == 0 && request.process_id == 0 && request.capability_len == 0,
        request.executable.path_len == 0 && request.executable.reserved == 0,
        request.resource.kind == 0 && request.resource.path_len == 0 && request.resource.reserved
            == 0,
        request.reason_len == 0 && request.interactive == 0 && request.decision_scope == 0
            && request.reserved0 == 0,
        forall|i: int| 0 <= i < 32 ==> #[trigger] request.executable.digest@[i] == 0,
        forall|i: int|
            0 <= i < 256 ==> #[trigger] request.executable.path@[i] == 0
                && request.resource.path@[i] == 0,
        forall|i: int| 0 <= i < 64 ==> #[trigger] request.capability@[i] == 0,
        forall|i: int| 0 <= i < 128 ==> #[trigger] request.reason@[i] == 0,
{
}

} // verus!
