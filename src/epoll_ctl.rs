//! Decoding of wire records into readable `epoll_ctl` calls.

use crate::events::{event_text, EpollData, EpollEvent, Events};
use crate::text::{decimal, push_decimal, push_signed_decimal, signed_decimal};
use crate::wire::{encode_record, extend_from_slice, i64_le_bytes, CapturedRecord, RECORD_SIZE};
use bytes::BytesMut;
use vstd::bytes::*;
use vstd::prelude::*;
use vstd::slice::slice_subrange;

verus! {

/// `bytes::BytesMut`, the buffer in which the transport hands out records.
#[verifier::external_type_specification]
#[verifier::external_body]
pub struct ExBytesMut(BytesMut);

/// The bytes that a `BytesMut` buffer holds.
pub uninterp spec fn buffer_bytes(b: BytesMut) -> Seq<u8>;

/// Relies on `<BytesMut as AsRef<[u8]>>::as_ref`: the slice of the bytes the buffer holds.
#[verifier::external_body]
fn buffer_slice(b: &BytesMut) -> (r: &[u8])
    ensures
        r@ == buffer_bytes(*b),
{
    b.as_ref()
}

/// The mathematical content of a decoded call.
pub struct DecodedCall {
    pub pid: u32,
    pub epfd: u64,
    pub op: u64,
    pub fd: u64,
    pub events: u32,
    pub data: u64,
    pub return_value: i64,
}

/// The call that a 48-byte record holds, each field read at its offset.
pub open spec fn decode_call(b: Seq<u8>) -> DecodedCall {
    DecodedCall {
        pid: spec_u32_from_le_bytes(b.subrange(0, 4)),
        epfd: spec_u64_from_le_bytes(b.subrange(4, 12)),
        op: spec_u64_from_le_bytes(b.subrange(12, 20)),
        fd: spec_u64_from_le_bytes(b.subrange(20, 28)),
        events: spec_u32_from_le_bytes(b.subrange(28, 32)),
        data: spec_u64_from_le_bytes(b.subrange(32, 40)),
        return_value: spec_u64_from_le_bytes(b.subrange(40, 48)) as i64,
    }
}

/// The wire bytes of a decoded call.
pub open spec fn encode_call(c: DecodedCall) -> Seq<u8> {
    spec_u32_to_le_bytes(c.pid) + spec_u64_to_le_bytes(c.epfd) + spec_u64_to_le_bytes(c.op)
        + spec_u64_to_le_bytes(c.fd) + spec_u32_to_le_bytes(c.events) + spec_u64_to_le_bytes(
        c.data,
    ) + i64_le_bytes(c.return_value)
}

/// What the decoder makes of a byte sequence: a call for exactly 48 bytes, else nothing.
pub open spec fn decode_record(b: Seq<u8>) -> Option<DecodedCall> {
    if b.len() == RECORD_SIZE {
        Some(decode_call(b))
    } else {
        None
    }
}

/// The symbolic name of an `epoll_ctl` operation code.
pub open spec fn op_name(op: u64) -> Seq<char> {
    if op == 1 {
        "EPOLL_CTL_ADD"@
    } else if op == 2 {
        "EPOLL_CTL_DEL"@
    } else if op == 3 {
        "EPOLL_CTL_MOD"@
    } else {
        "INVALID_OPCODE"@
    }
}

/// The line shown for a call:
/// `(pid: P) epoll_ctl(EPFD, OP, FD, {events={ FLAGS }, data={ u32: A, u64: B }}) = RET`.
pub open spec fn call_text(c: DecodedCall) -> Seq<char> {
    "(pid: "@ + decimal(c.pid as nat) + ") epoll_ctl("@ + decimal(c.epfd as nat) + ", "@ + op_name(
        c.op,
    ) + ", "@ + decimal(c.fd as nat) + ", "@ + event_text(c.events, c.data) + ") = "@
        + signed_decimal(c.return_value as int)
}

/// The symbolic name of an `epoll_ctl` operation code.
pub fn op_str(op: u64) -> (r: &'static str)
    ensures
        r@ == op_name(op),
{
    match op {
        1 => "EPOLL_CTL_ADD",
        2 => "EPOLL_CTL_DEL",
        3 => "EPOLL_CTL_MOD",
        _ => "INVALID_OPCODE",
    }
}

/// A decoded `epoll_ctl` call with its return value.
#[derive(Clone, Copy, Debug, PartialEq, Eq)]
pub struct EpollCtl {
    pub pid: u32,
    pub epfd: u64,
    pub op: u64,
    pub fd: u64,
    pub epoll_event: EpollEvent,
    pub return_value: i64,
}

impl View for EpollCtl {
    type V = DecodedCall;

    open spec fn view(&self) -> DecodedCall {
        DecodedCall {
            pid: self.pid,
            epfd: self.epfd,
            op: self.op,
            fd: self.fd,
            events: self.epoll_event.events.bits,
            data: self.epoll_event.data.uint64,
            return_value: self.return_value,
        }
    }
}

impl EpollCtl {
    /// Decodes a record received from the transport; `None` unless it holds exactly 48 bytes.
    pub fn new(bytes: BytesMut) -> (r: Option<Self>)
        ensures
            r matches Some(c) ==> decode_record(buffer_bytes(bytes)) == Some(c@),
            r is None ==> decode_record(buffer_bytes(bytes)) is None,
    {
        EpollCtl::from_slice(buffer_slice(&bytes))
    }

    /// Decodes a record; `None` unless `bytes` holds exactly 48 bytes.
    pub fn from_slice(bytes: &[u8]) -> (r: Option<Self>)
        ensures
            r matches Some(c) ==> decode_record(bytes@) == Some(c@),
            r is None ==> decode_record(bytes@) is None,
    {
        if bytes.len() != RECORD_SIZE {
            return None;
        }
        let pid = u32_from_le_bytes(slice_subrange(bytes, 0, 4));
        let epfd = u64_from_le_bytes(slice_subrange(bytes, 4, 12));
        let op = u64_from_le_bytes(slice_subrange(bytes, 12, 20));
        let fd = u64_from_le_bytes(slice_subrange(bytes, 20, 28));
        let events = u32_from_le_bytes(slice_subrange(bytes, 28, 32));
        let data = u64_from_le_bytes(slice_subrange(bytes, 32, 40));
        let ret = u64_from_le_bytes(slice_subrange(bytes, 40, 48));
        let epoll_event = EpollEvent {
            events: Events::from_bits_retain(events),
            data: EpollData { uint64: data },
        };
        Some(EpollCtl { pid, epfd, op, fd, epoll_event, return_value: ret as i64 })
    }

    /// The call in its wire form again.
    pub fn to_bytes(&self) -> (r: Vec<u8>)
        ensures
            r@ == encode_call(self@),
    {
        proof {
            lemma_auto_spec_u32_to_from_le_bytes();
            lemma_auto_spec_u64_to_from_le_bytes();
        }
        let mut out: Vec<u8> = Vec::new();
        let pid = u32_to_le_bytes(self.pid);
        extend_from_slice(&mut out, pid.as_slice());
        let epfd = u64_to_le_bytes(self.epfd);
        extend_from_slice(&mut out, epfd.as_slice());
        let op = u64_to_le_bytes(self.op);
        extend_from_slice(&mut out, op.as_slice());
        let fd = u64_to_le_bytes(self.fd);
        extend_from_slice(&mut out, fd.as_slice());
        let events = u32_to_le_bytes(self.epoll_event.events.bits);
        extend_from_slice(&mut out, events.as_slice());
        let data = u64_to_le_bytes(self.epoll_event.data.uint64);
        extend_from_slice(&mut out, data.as_slice());
        let ret = u64_to_le_bytes(self.return_value as u64);
        extend_from_slice(&mut out, ret.as_slice());
        assert(out@ =~= encode_call(self@));
        out
    }

    /// The line shown for this call.
    pub fn render(&self) -> (r: String)
        ensures
            r@ == call_text(self@),
    {
        let mut s = String::new();
        s.append("(pid: ");
        push_decimal(&mut s, self.pid as u64);
        s.append(") epoll_ctl(");
        push_decimal(&mut s, self.epfd);
        s.append(", ");
        s.append(op_str(self.op));
        s.append(", ");
        push_decimal(&mut s, self.fd);
        s.append(", ");
        let event = self.epoll_event.render();
        s.append(event.as_str());
        s.append(") = ");
        push_signed_decimal(&mut s, self.return_value);
        assert(s@ =~= call_text(self@));
        s
    }
}

/// Decoding a 48-byte record and encoding the call again gives back the same bytes.
pub proof fn lemma_decode_encode(b: Seq<u8>)
    requires
        b.len() == RECORD_SIZE,
    ensures
        encode_call(decode_call(b)) == b,
{
    lemma_auto_spec_u32_to_from_le_bytes();
    lemma_auto_spec_u64_to_from_le_bytes();
    let c = decode_call(b);
    let r = spec_u64_from_le_bytes(b.subrange(40, 48));
    assert((r as i64) as u64 == r) by (bit_vector);
    assert(encode_call(c) =~= b.subrange(0, 4) + b.subrange(4, 12) + b.subrange(12, 20)
        + b.subrange(20, 28) + b.subrange(28, 32) + b.subrange(32, 40) + b.subrange(40, 48));
    assert(encode_call(c) =~= b);
}

/// Encoding a call and decoding the bytes gives back the same call.
pub proof fn lemma_encode_decode(c: DecodedCall)
    ensures
        encode_call(c).len() == RECORD_SIZE,
        decode_call(encode_call(c)) == c,
{
    lemma_auto_spec_u32_to_from_le_bytes();
    lemma_auto_spec_u64_to_from_le_bytes();
    let b = encode_call(c);
    let v = c.return_value;
    assert((v as u64) as i64 == v) by (bit_vector);
    assert(b.subrange(0, 4) =~= spec_u32_to_le_bytes(c.pid));
    assert(b.subrange(4, 12) =~= spec_u64_to_le_bytes(c.epfd));
    assert(b.subrange(12, 20) =~= spec_u64_to_le_bytes(c.op));
    assert(b.subrange(20, 28) =~= spec_u64_to_le_bytes(c.fd));
    assert(b.subrange(28, 32) =~= spec_u32_to_le_bytes(c.events));
    assert(b.subrange(32, 40) =~= spec_u64_to_le_bytes(c.data));
    assert(b.subrange(40, 48) =~= i64_le_bytes(c.return_value));
}

/// A record in the probe's wire form decodes to its own fields, with the
/// event's first four bytes as the mask and the other eight as the data.
pub proof fn lemma_record_decodes(r: CapturedRecord)
    requires
        r.epoll_event.len() == 12,
    ensures
        encode_record(r).len() == RECORD_SIZE,
        decode_call(encode_record(r)) == (DecodedCall {
            pid: r.pid,
            epfd: r.epfd,
            op: r.op,
            fd: r.fd,
            events: spec_u32_from_le_bytes(r.epoll_event.subrange(0, 4)),
            data: spec_u64_from_le_bytes(r.epoll_event.subrange(4, 12)),
            return_value: r.return_value,
        }),
{
    lemma_auto_spec_u32_to_from_le_bytes();
    lemma_auto_spec_u64_to_from_le_bytes();
    let b = encode_record(r);
    let v = r.return_value;
    assert((v as u64) as i64 == v) by (bit_vector);
    assert(b.subrange(0, 4) =~= spec_u32_to_le_bytes(r.pid));
    assert(b.subrange(4, 12) =~= spec_u64_to_le_bytes(r.epfd));
    assert(b.subrange(12, 20) =~= spec_u64_to_le_bytes(r.op));
    assert(b.subrange(20, 28) =~= spec_u64_to_le_bytes(r.fd));
    assert(b.subrange(28, 32) =~= r.epoll_event.subrange(0, 4));
    assert(b.subrange(32, 40) =~= r.epoll_event.subrange(4, 12));
    assert(b.subrange(40, 48) =~= i64_le_bytes(r.return_value));
}

} // verus!
