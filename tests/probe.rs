use epoll_spy::epoll_ctl::EpollCtl;
use epoll_spy::probe::{epoll_spy, epoll_spy_exit, read_at, PerfEventArray, ProbeMaps, TraceContext};
use epoll_spy::wire::EpollCtlArgs;

fn entry_ctx(pid: u32, epfd: u64, op: u64, fd: u64, event_ptr: u64) -> TraceContext {
    let mut args = vec![0u8; 48];
    args[16..24].copy_from_slice(&epfd.to_le_bytes());
    args[24..32].copy_from_slice(&op.to_le_bytes());
    args[32..40].copy_from_slice(&fd.to_le_bytes());
    args[40..48].copy_from_slice(&event_ptr.to_le_bytes());
    TraceContext { pid, args }
}

fn exit_ctx(pid: u32, ret: i64) -> TraceContext {
    let mut args = vec![0u8; 24];
    args[16..24].copy_from_slice(&ret.to_le_bytes());
    TraceContext { pid, args }
}

const EVENT_IN: [u8; 12] = [0x01, 0, 0, 0, 0, 0, 0, 0, 0, 0, 0, 0];

fn decode_all(ring: &mut PerfEventArray) -> Vec<EpollCtl> {
    ring.read_events()
        .iter()
        .map(|b| EpollCtl::from_slice(b).expect("48-byte record"))
        .collect()
}

#[test]
fn end_to_end_watched_add_call() {
    let mut maps = ProbeMaps::new();
    maps.watch(42);
    let mut ring = PerfEventArray::new(16);
    assert_eq!(epoll_spy(&mut maps, &entry_ctx(42, 5, 1, 7, 0x7fff_0000), Some(EVENT_IN)), 0);
    assert_eq!(epoll_spy_exit(&maps, &mut ring, &exit_ctx(42, 0)), 0);
    let calls = decode_all(&mut ring);
    assert_eq!(calls.len(), 1);
    assert_eq!(
        calls[0].render(),
        "(pid: 42) epoll_ctl(5, EPOLL_CTL_ADD, 7, {events={ EPOLLIN }, data={ u32: 0, u64: 0 }}) = 0"
    );
}

#[test]
fn entry_then_exit_emits_one_record() {
    let mut maps = ProbeMaps::new();
    maps.watch(9);
    let mut ring = PerfEventArray::new(16);
    epoll_spy(&mut maps, &entry_ctx(9, 3, 3, 11, 1), Some([4, 0, 0, 0, 1, 0, 0, 0, 0, 0, 0, 0]));
    epoll_spy_exit(&maps, &mut ring, &exit_ctx(9, -9));
    let calls = decode_all(&mut ring);
    assert_eq!(calls.len(), 1);
    assert_eq!(calls[0].pid, 9);
    assert_eq!(calls[0].epfd, 3);
    assert_eq!(calls[0].op, 3);
    assert_eq!(calls[0].fd, 11);
    assert_eq!(calls[0].return_value, -9);
    assert_eq!(calls[0].epoll_event.data.as_u64(), 1);
}

#[test]
fn exit_without_entry_emits_nothing() {
    let mut maps = ProbeMaps::new();
    maps.watch(9);
    let mut ring = PerfEventArray::new(16);
    epoll_spy_exit(&maps, &mut ring, &exit_ctx(9, 0));
    epoll_spy_exit(&maps, &mut ring, &exit_ctx(10, 0));
    assert!(ring.read_events().is_empty());
}

#[test]
fn second_entry_overwrites_first() {
    let mut maps = ProbeMaps::new();
    maps.watch(5);
    let mut ring = PerfEventArray::new(16);
    epoll_spy(&mut maps, &entry_ctx(5, 1, 1, 100, 1), Some(EVENT_IN));
    epoll_spy(&mut maps, &entry_ctx(5, 2, 3, 200, 1), Some([4, 0, 0, 0, 0, 0, 0, 0, 0, 0, 0, 0]));
    epoll_spy_exit(&maps, &mut ring, &exit_ctx(5, 1));
    let calls = decode_all(&mut ring);
    assert_eq!(calls.len(), 1);
    assert_eq!(calls[0].epfd, 2);
    assert_eq!(calls[0].op, 3);
    assert_eq!(calls[0].fd, 200);
    assert_eq!(calls[0].epoll_event.events.bits(), 4);
    assert_eq!(calls[0].return_value, 1);
}

#[test]
fn unwatched_identity_is_never_traced() {
    let mut maps = ProbeMaps::new();
    maps.watch(1);
    let mut ring = PerfEventArray::new(16);
    epoll_spy(&mut maps, &entry_ctx(2, 5, 1, 7, 1), Some(EVENT_IN));
    assert!(maps.epoll_ctl.get(&2).is_none());
    epoll_spy_exit(&maps, &mut ring, &exit_ctx(2, 0));
    assert!(ring.read_events().is_empty());
}

#[test]
fn failed_event_copy_captures_nothing() {
    let mut maps = ProbeMaps::new();
    maps.watch(3);
    let mut ring = PerfEventArray::new(16);
    epoll_spy(&mut maps, &entry_ctx(3, 5, 2, 7, 0), None);
    epoll_spy_exit(&maps, &mut ring, &exit_ctx(3, 0));
    assert!(ring.read_events().is_empty());
}

#[test]
fn pending_entry_stays_after_exit() {
    let mut maps = ProbeMaps::new();
    maps.watch(4);
    let mut ring = PerfEventArray::new(16);
    epoll_spy(&mut maps, &entry_ctx(4, 5, 1, 7, 1), Some(EVENT_IN));
    epoll_spy_exit(&maps, &mut ring, &exit_ctx(4, 0));
    epoll_spy_exit(&maps, &mut ring, &exit_ctx(4, 3));
    let calls = decode_all(&mut ring);
    assert_eq!(calls.len(), 2);
    assert_eq!(calls[1].return_value, 3);
}

#[test]
fn full_transport_drops_records() {
    let mut maps = ProbeMaps::new();
    maps.watch(4);
    let mut ring = PerfEventArray::new(1);
    epoll_spy(&mut maps, &entry_ctx(4, 5, 1, 7, 1), Some(EVENT_IN));
    epoll_spy_exit(&maps, &mut ring, &exit_ctx(4, 10));
    epoll_spy_exit(&maps, &mut ring, &exit_ctx(4, 11));
    let calls = decode_all(&mut ring);
    assert_eq!(calls.len(), 1);
    assert_eq!(calls[0].return_value, 10);
}

#[test]
fn short_argument_buffers_read_as_defaults() {
    let mut maps = ProbeMaps::new();
    maps.watch(8);
    let mut ring = PerfEventArray::new(4);
    let entry = TraceContext { pid: 8, args: vec![0xff; 20] };
    epoll_spy(&mut maps, &entry, Some(EVENT_IN));
    epoll_spy_exit(&maps, &mut ring, &TraceContext { pid: 8, args: vec![] });
    let calls = decode_all(&mut ring);
    assert_eq!(calls.len(), 1);
    assert_eq!(calls[0].epfd, 0);
    assert_eq!(calls[0].op, 0);
    assert_eq!(calls[0].fd, 0);
    assert_eq!(calls[0].return_value, -1);
}

#[test]
fn argument_offsets() {
    let ctx = entry_ctx(1, 5, 1, 7, 0x1234);
    assert_eq!(read_at(&ctx, 16), Some(5));
    assert_eq!(read_at(&ctx, 24), Some(1));
    assert_eq!(read_at(&ctx, 32), Some(7));
    assert_eq!(read_at(&ctx, 41), None);
    assert_eq!(EpollCtlArgs::event_address(&ctx), 0x1234);
    let args = EpollCtlArgs::from_ctx(&ctx, Some(EVENT_IN)).unwrap();
    assert_eq!(args.pid, 1);
    assert_eq!(args.epfd, 5);
    assert_eq!(args.return_value, 0);
    assert!(EpollCtlArgs::from_ctx(&ctx, None).is_none());
}

#[test]
fn filter_table_marks_watched() {
    let mut maps = ProbeMaps::new();
    assert!(!maps.is_watched(42));
    maps.watch(42);
    assert!(maps.is_watched(42));
    assert!(!maps.is_watched(43));
}
