//! The fixed-size binary record carried from the probe to user space.
//!
//! Layout, little-endian and without padding:
//! `pid:u32 | epfd:u64 | op:u64 | fd:u64 | epoll_event:[u8; 12] | return_value:i64`.

use vstd::bytes::*;
use vstd::prelude::*;

verus! {

/// Size in bytes of one wire record.
pub const RECORD_SIZE: usize = 48;

/// One captured `epoll_ctl` call, as the probe stores and emits it.
#[derive(Clone, Copy)]
pub struct EpollCtlArgs {
    pub pid: u32,
    pub epfd: u64,
    pub op: u64,
    pub fd: u64,
    pub epoll_event: [u8; 12],
    pub return_value: i64,
}

/// The mathematical content of a captured record.
pub struct CapturedRecord {
    pub pid: u32,
    pub epfd: u64,
    pub op: u64,
    pub fd: u64,
    pub epoll_event: Seq<u8>,
    pub return_value: i64,
}

impl View for EpollCtlArgs {
    type V = CapturedRecord;

    open spec fn view(&self) -> CapturedRecord {
        CapturedRecord {
            pid: self.pid,
            epfd: self.epfd,
            op: self.op,
            fd: self.fd,
            epoll_event: self.epoll_event@,
            return_value: self.return_value,
        }
    }
}

/// The bytes of an `i64` in little-endian two's complement.
pub open spec fn i64_le_bytes(v: i64) -> Seq<u8> {
    spec_u64_to_le_bytes(v as u64)
}

/// The wire encoding of a captured record.
pub open spec fn encode_record(r: CapturedRecord) -> Seq<u8> {
    spec_u32_to_le_bytes(r.pid) + spec_u64_to_le_bytes(r.epfd) + spec_u64_to_le_bytes(r.op)
        + spec_u64_to_le_bytes(r.fd) + r.epoll_event + i64_le_bytes(r.return_value)
}

/// Appends the bytes of `src` to `out`.
pub fn extend_from_slice(out: &mut Vec<u8>, src: &[u8])
    ensures
        final(out)@ == old(out)@ + src@,
{
    let mut i: usize = 0;
    while i < src.len()
        invariant
            0 <= i <= src@.len(),
            out@ == old(out)@ + src@.subrange(0, i as int),
        decreases src@.len() - i,
    {
        out.push(src[i]);
        i = i + 1;
        assert(out@ =~= old(out)@ + src@.subrange(0, i as int));
    }
    assert(src@.subrange(0, src@.len() as int) =~= src@);
}

impl EpollCtlArgs {
    /// The record in its wire form: exactly the 48 bytes of the layout.
    pub fn to_bytes(&self) -> (r: Vec<u8>)
        ensures
            r@ == encode_record(self@),
            r@.len() == RECORD_SIZE,
    {
        proof {
            lemma_auto_spec_u32_to_from_le_bytes();
            lemma_auto_spec_u64_to_from_le_bytes();
        }
        let mut out: Vec<u8> = Vec::new();
        let pid = u32_to_le_bytes(self.pid);
        extend_from_slice(&mut out, pid.as_slice());
        let epfd = u64_to_le_bytes(self.epfd);
        extend_from_slice(&mut out, epfd.as_slice());
        let op = u64_to_le_bytes(self.op);
        extend_from_slice(&mut out, op.as_slice());
        let fd = u64_to_le_bytes(self.fd);
        extend_from_slice(&mut out, fd.as_slice());
        extend_from_slice(&mut out, self.epoll_event.as_slice());
        let ret = u64_to_le_bytes(self.return_value as u64);
        extend_from_slice(&mut out, ret.as_slice());
        assert(out@ =~= encode_record(self@));
        out
    }
}

} // verus!
