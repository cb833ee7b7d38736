//! The probe's decisions at `epoll_ctl` entry and exit: filtering by watched
//! identity, capture of the arguments, correlation of entry with exit through
//! the pending-call table, and emission onto the lossy transport.

use crate::wire::{encode_record, EpollCtlArgs};
use vstd::bytes::*;
use vstd::hash_map::HashMapWithView;
use vstd::prelude::*;
use vstd::slice::slice_subrange;

verus! {

broadcast use vstd::std_specs::hash::group_hash_axioms;

/// Offset of `epfd` in the argument buffer of `sys_enter_epoll_ctl`.
pub const ENTRY_EPFD_OFFSET: usize = 16;

/// Offset of `op` in the argument buffer of `sys_enter_epoll_ctl`.
pub const ENTRY_OP_OFFSET: usize = 24;

/// Offset of `fd` in the argument buffer of `sys_enter_epoll_ctl`.
pub const ENTRY_FD_OFFSET: usize = 32;

/// Offset of the `struct epoll_event` pointer in the argument buffer of `sys_enter_epoll_ctl`.
pub const ENTRY_EVENT_OFFSET: usize = 40;

/// Offset of the return code in the argument buffer of `sys_exit_epoll_ctl`.
pub const EXIT_RET_OFFSET: usize = 16;

/// Value of a watched identity in the filter table.
pub const WATCHED: u32 = 1;

/// One firing of a tracepoint: the identity of the thread that fired it and
/// the argument buffer that the kernel delivered.
pub struct TraceContext {
    pub pid: u32,
    pub args: Vec<u8>,
}

/// The 64-bit little-endian value at `offset` of an argument buffer, if it lies inside.
pub open spec fn arg_at(args: Seq<u8>, offset: int) -> Option<u64> {
    if 0 <= offset && offset + 8 <= args.len() {
        Some(spec_u64_from_le_bytes(args.subrange(offset, offset + 8)))
    } else {
        None
    }
}

/// The argument at `offset`, or `default` where the buffer is too short.
pub open spec fn arg_or(args: Seq<u8>, offset: int, default: u64) -> u64 {
    match arg_at(args, offset) {
        Some(v) => v,
        None => default,
    }
}

/// The record captured at entry, before its return code is known.
pub open spec fn entry_record(pid: u32, args: Seq<u8>, event: [u8; 12]) -> EpollCtlArgs {
    EpollCtlArgs {
        pid,
        epfd: arg_or(args, ENTRY_EPFD_OFFSET as int, 0),
        op: arg_or(args, ENTRY_OP_OFFSET as int, 0),
        fd: arg_or(args, ENTRY_FD_OFFSET as int, 0),
        epoll_event: event,
        return_value: 0,
    }
}

/// The return code of an exit; -1 where the buffer is too short to hold it.
pub open spec fn exit_code(args: Seq<u8>) -> i64 {
    match arg_at(args, EXIT_RET_OFFSET as int) {
        Some(v) => v as i64,
        None => -1i64,
    }
}

/// The finished record: the pending fields with the exit's return code.
pub open spec fn exit_record(pending: EpollCtlArgs, args: Seq<u8>) -> EpollCtlArgs {
    EpollCtlArgs { return_value: exit_code(args), ..pending }
}

/// Whether the filter table marks `pid` as watched.
pub open spec fn is_watched(pids: Map<u32, u32>, pid: u32) -> bool {
    pids.contains_key(pid) && pids[pid] == WATCHED
}

/// The pending-call table after an entry of `pid`, where `event` is what
/// the copy of the user's `struct epoll_event` gave (`None` if it failed).
pub open spec fn after_entry(
    pids: Map<u32, u32>,
    pending: Map<u32, EpollCtlArgs>,
    pid: u32,
    args: Seq<u8>,
    event: Option<[u8; 12]>,
) -> Map<u32, EpollCtlArgs> {
    match event {
        Some(e) => if is_watched(pids, pid) {
            pending.insert(pid, entry_record(pid, args, e))
        } else {
            pending
        },
        None => pending,
    }
}

/// The record that an exit of `pid` emits, if an entry is pending for it.
pub open spec fn exit_emission(pending: Map<u32, EpollCtlArgs>, pid: u32, args: Seq<u8>) -> Option<
    EpollCtlArgs,
> {
    if pending.contains_key(pid) {
        Some(exit_record(pending[pid], args))
    } else {
        None
    }
}

/// Reads the 64-bit little-endian argument at `offset`, if the buffer holds it.
pub fn read_at(ctx: &TraceContext, offset: usize) -> (r: Option<u64>)
    ensures
        r == arg_at(ctx.args@, offset as int),
{
    if offset <= ctx.args.len() && ctx.args.len() - offset >= 8 {
        Some(u64_from_le_bytes(slice_subrange(ctx.args.as_slice(), offset, offset + 8)))
    } else {
        None
    }
}

fn read_or(ctx: &TraceContext, offset: usize, default: u64) -> (r: u64)
    ensures
        r == arg_or(ctx.args@, offset as int, default),
{
    match read_at(ctx, offset) {
        Some(v) => v,
        None => default,
    }
}

impl EpollCtlArgs {
    /// The user address of the `struct epoll_event` that an entry points to; 0 if absent.
    pub fn event_address(ctx: &TraceContext) -> (r: u64)
        ensures
            r == arg_or(ctx.args@, ENTRY_EVENT_OFFSET as int, 0),
    {
        read_or(ctx, ENTRY_EVENT_OFFSET, 0)
    }

    /// The record of an entry, given what the copy of the user's event gave.
    /// A failed copy captures nothing.
    pub fn from_ctx(ctx: &TraceContext, event: Option<[u8; 12]>) -> (r: Option<Self>)
        ensures
            r == (match event {
                Some(e) => Some(entry_record(ctx.pid, ctx.args@, e)),
                None => None::<EpollCtlArgs>,
            }),
    {
        match event {
            Some(e) => Some(
                EpollCtlArgs {
                    pid: ctx.pid,
                    epfd: read_or(ctx, ENTRY_EPFD_OFFSET, 0),
                    op: read_or(ctx, ENTRY_OP_OFFSET, 0),
                    fd: read_or(ctx, ENTRY_FD_OFFSET, 0),
                    epoll_event: e,
                    return_value: 0,
                },
            ),
            None => None,
        }
    }

    /// Pushes this record onto the transport.
    pub fn send(&self, events: &mut PerfEventArray)
        ensures
            final(events).capacity == old(events).capacity,
            final(events)@ == emitted(old(events).capacity as nat, old(events)@, *self),
    {
        events.output(self)
    }
}

/// The transport after an attempt to push `record` onto `records`: the
/// record's bytes are appended where there is room, and dropped otherwise.
pub open spec fn emitted(capacity: nat, records: Seq<Seq<u8>>, record: EpollCtlArgs) -> Seq<Seq<u8>> {
    if records.len() < capacity {
        records.push(encode_record(record@))
    } else {
        records
    }
}

/// A bounded, lossy buffer of wire records, oldest first.
pub struct PerfEventArray {
    pub capacity: usize,
    pub records: Vec<Vec<u8>>,
}

impl View for PerfEventArray {
    type V = Seq<Seq<u8>>;

    open spec fn view(&self) -> Seq<Seq<u8>> {
        self.records@.map_values(|r: Vec<u8>| r@)
    }
}

impl PerfEventArray {
    /// An empty buffer with room for `capacity` records.
    pub fn new(capacity: usize) -> (r: Self)
        ensures
            r.capacity == capacity,
            r@ == Seq::<Seq<u8>>::empty(),
    {
        let r = PerfEventArray { capacity, records: Vec::new() };
        assert(r@ =~= Seq::<Seq<u8>>::empty());
        r
    }

    /// Pushes the wire bytes of `record`, or drops them when the buffer is full.
    pub fn output(&mut self, record: &EpollCtlArgs)
        ensures
            final(self).capacity == old(self).capacity,
            final(self)@ == emitted(old(self).capacity as nat, old(self)@, *record),
    {
        if self.records.len() < self.capacity {
            let bytes = record.to_bytes();
            self.records.push(bytes);
            assert(self@ =~= old(self)@.push(encode_record(record@)));
        }
    }

    /// Takes every record out, oldest first, and leaves the buffer empty.
    pub fn read_events(&mut self) -> (r: Vec<Vec<u8>>)
        ensures
            final(self).capacity == old(self).capacity,
            final(self)@ == Seq::<Seq<u8>>::empty(),
            r@.map_values(|b: Vec<u8>| b@) == old(self)@,
    {
        let mut taken: Vec<Vec<u8>> = Vec::new();
        std::mem::swap(&mut taken, &mut self.records);
        assert(self@ =~= Seq::<Seq<u8>>::empty());
        taken
    }
}

/// The two tables that the probe shares with user space: the filter of
/// watched identities, and the call pending between entry and exit.
pub struct ProbeMaps {
    pub pids: HashMapWithView<u32, u32>,
    pub epoll_ctl: HashMapWithView<u32, EpollCtlArgs>,
}

impl ProbeMaps {
    /// Empty tables: nothing watched, nothing pending.
    pub fn new() -> (r: Self)
        ensures
            r.pids@ == Map::<u32, u32>::empty(),
            r.epoll_ctl@ == Map::<u32, EpollCtlArgs>::empty(),
    {
        ProbeMaps { pids: HashMapWithView::new(), epoll_ctl: HashMapWithView::new() }
    }

    /// Marks `pid` as watched.
    pub fn watch(&mut self, pid: u32)
        ensures
            final(self).pids@ == old(self).pids@.insert(pid, WATCHED),
            final(self).epoll_ctl@ == old(self).epoll_ctl@,
    {
        self.pids.insert(pid, WATCHED);
    }

    /// Whether `pid` is marked as watched.
    pub fn is_watched(&self, pid: u32) -> (r: bool)
        ensures
            r == is_watched(self.pids@, pid),
    {
        match self.pids.get(&pid) {
            Some(v) => *v == WATCHED,
            None => false,
        }
    }
}

/// Sends a finished record on the transport.
pub fn send_event(events: &mut PerfEventArray, epoll_ctl: &EpollCtlArgs)
    ensures
        final(events).capacity == old(events).capacity,
        final(events)@ == emitted(old(events).capacity as nat, old(events)@, *epoll_ctl),
{
    epoll_ctl.send(events)
}

/// At `sys_enter_epoll_ctl`: for a watched identity whose event could be
/// copied, stores the captured call under its identity, replacing any earlier
/// one. Anything else leaves the tables as they were.
pub fn epoll_spy(maps: &mut ProbeMaps, ctx: &TraceContext, event: Option<[u8; 12]>) -> (r: u32)
    ensures
        r == 0,
        final(maps).pids@ == old(maps).pids@,
        final(maps).epoll_ctl@ == after_entry(
            old(maps).pids@,
            old(maps).epoll_ctl@,
            ctx.pid,
            ctx.args@,
            event,
        ),
{
    let pid = ctx.pid;
    if maps.is_watched(pid) {
        if let Some(args) = EpollCtlArgs::from_ctx(ctx, event) {
            maps.epoll_ctl.insert(pid, args);
        }
    }
    0
}

/// At `sys_exit_epoll_ctl`: where a call is pending for the identity, sends it
/// with the exit's return code. The pending entry stays in place.
pub fn epoll_spy_exit(maps: &ProbeMaps, events: &mut PerfEventArray, ctx: &TraceContext) -> (r: u32)
    ensures
        r == 0,
        final(events).capacity == old(events).capacity,
        final(events)@ == (match exit_emission(maps.epoll_ctl@, ctx.pid, ctx.args@) {
            Some(rec) => emitted(old(events).capacity as nat, old(events)@, rec),
            None => old(events)@,
        }),
{
    let pid = ctx.pid;
    if let Some(pending) = maps.epoll_ctl.get(&pid) {
        let return_value: i64 = match read_at(ctx, EXIT_RET_OFFSET) {
            Some(v) => v as i64,
            None => -1,
        };
        let args = EpollCtlArgs {
            pid: pending.pid,
            epfd: pending.epfd,
            op: pending.op,
            fd: pending.fd,
            epoll_event: pending.epoll_event,
            return_value,
        };
        send_event(events, &args);
    }
    0
}

/// An entry of a watched identity whose event could be copied, followed by an
/// exit of the same identity, emits exactly one record: the entry's fields,
/// the identity as `pid`, and the exit's return code.
pub proof fn lemma_entry_then_exit(
    pids: Map<u32, u32>,
    pending: Map<u32, EpollCtlArgs>,
    pid: u32,
    entry_args: Seq<u8>,
    event: [u8; 12],
    exit_args: Seq<u8>,
    capacity: nat,
    records: Seq<Seq<u8>>,
)
    requires
        is_watched(pids, pid),
        records.len() < capacity,
    ensures
        ({
            let rec = EpollCtlArgs {
                return_value: exit_code(exit_args),
                ..entry_record(pid, entry_args, event)
            };
            &&& exit_emission(after_entry(pids, pending, pid, entry_args, Some(event)), pid, exit_args)
                == Some(rec)
            &&& rec.pid == pid
            &&& emitted(capacity, records, rec) == records.push(encode_record(rec@))
        }),
{
}

/// An exit of an identity with no pending call emits nothing.
pub proof fn lemma_exit_without_entry(pending: Map<u32, EpollCtlArgs>, pid: u32, exit_args: Seq<u8>)
    requires
        !pending.contains_key(pid),
    ensures
        exit_emission(pending, pid, exit_args) is None,
{
}

/// A second entry of an identity before its exit replaces the first: the
/// exit then emits one record, which holds the second entry's fields only,
/// the identity as `pid`, and the exit's return code.
pub proof fn lemma_second_entry_overwrites(
    pids: Map<u32, u32>,
    pending: Map<u32, EpollCtlArgs>,
    pid: u32,
    first_args: Seq<u8>,
    first_event: [u8; 12],
    second_args: Seq<u8>,
    second_event: [u8; 12],
    exit_args: Seq<u8>,
    capacity: nat,
    records: Seq<Seq<u8>>,
)
    requires
        is_watched(pids, pid),
        records.len() < capacity,
    ensures
        emitted(capacity, records, exit_record(entry_record(pid, second_args, second_event), exit_args))
            == records.push(
            encode_record(exit_record(entry_record(pid, second_args, second_event), exit_args)@),
        ),
        exit_record(entry_record(pid, second_args, second_event), exit_args).pid == pid,
        exit_record(entry_record(pid, second_args, second_event), exit_args).return_value
            == exit_code(exit_args),
        exit_emission(
            after_entry(
                pids,
                after_entry(pids, pending, pid, first_args, Some(first_event)),
                pid,
                second_args,
                Some(second_event),
            ),
            pid,
            exit_args,
        ) == Some(exit_record(entry_record(pid, second_args, second_event), exit_args)),
{
}

/// An entry of an identity that the filter table does not mark as watched
/// stores nothing, and a later exit of that identity emits nothing.
pub proof fn lemma_unwatched_entry(
    pids: Map<u32, u32>,
    pending: Map<u32, EpollCtlArgs>,
    pid: u32,
    entry_args: Seq<u8>,
    event: Option<[u8; 12]>,
    exit_args: Seq<u8>,
)
    requires
        !is_watched(pids, pid),
        !pending.contains_key(pid),
    ensures
        after_entry(pids, pending, pid, entry_args, event) == pending,
        exit_emission(after_entry(pids, pending, pid, entry_args, event), pid, exit_args) is None,
{
}

} // verus!
