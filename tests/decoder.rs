use bytes::BytesMut;
use epoll_spy::epoll_ctl::{op_str, EpollCtl};
use epoll_spy::events::{EpollData, Events, EPOLLET, EPOLLIN, EPOLLOUT};
use epoll_spy::wire::EpollCtlArgs;

fn sample_args() -> EpollCtlArgs {
    EpollCtlArgs {
        pid: 0xdead_beef,
        epfd: 0x0102_0304_0506_0708,
        op: 3,
        fd: u64::MAX - 1,
        epoll_event: [0x05, 0x00, 0x00, 0x80, 1, 2, 3, 4, 5, 6, 7, 8],
        return_value: -22,
    }
}

#[test]
fn wire_layout_is_little_endian_and_packed() {
    let bytes = sample_args().to_bytes();
    assert_eq!(bytes.len(), 48);
    assert_eq!(&bytes[0..4], &[0xef, 0xbe, 0xad, 0xde]);
    assert_eq!(&bytes[4..12], &[8, 7, 6, 5, 4, 3, 2, 1]);
    assert_eq!(&bytes[12..20], &[3, 0, 0, 0, 0, 0, 0, 0]);
    assert_eq!(&bytes[28..40], &[0x05, 0x00, 0x00, 0x80, 1, 2, 3, 4, 5, 6, 7, 8]);
    assert_eq!(&bytes[40..48], &(-22i64).to_le_bytes());
}

#[test]
fn decode_then_encode_gives_back_the_bytes() {
    let bytes = sample_args().to_bytes();
    let call = EpollCtl::from_slice(&bytes).expect("48 bytes decode");
    assert_eq!(call.pid, 0xdead_beef);
    assert_eq!(call.epfd, 0x0102_0304_0506_0708);
    assert_eq!(call.op, 3);
    assert_eq!(call.fd, u64::MAX - 1);
    assert_eq!(call.epoll_event.events.bits(), 0x8000_0005);
    assert_eq!(call.epoll_event.data.as_u64(), 0x0807_0605_0403_0201);
    assert_eq!(call.epoll_event.data.as_u32(), 0x0403_0201);
    assert_eq!(call.return_value, -22);
    assert_eq!(call.to_bytes(), bytes);
}

#[test]
fn decode_round_trip_on_arbitrary_bytes() {
    let bytes: Vec<u8> = (0..48u32).map(|i| (i * 37 + 11) as u8).collect();
    let call = EpollCtl::from_slice(&bytes).expect("48 bytes decode");
    assert_eq!(call.to_bytes(), bytes);
}

#[test]
fn decode_from_transport_buffer() {
    let bytes = sample_args().to_bytes();
    let call = EpollCtl::new(BytesMut::from(&bytes[..])).expect("48 bytes decode");
    assert_eq!(call.pid, 0xdead_beef);
    assert_eq!(call.to_bytes(), bytes);
}

#[test]
fn decoder_rejects_wrong_lengths() {
    for len in [0usize, 47, 49, 1000] {
        let bytes = vec![0u8; len];
        assert!(EpollCtl::from_slice(&bytes).is_none(), "length {}", len);
        assert!(EpollCtl::new(BytesMut::from(&bytes[..])).is_none(), "length {}", len);
    }
}

#[test]
fn bitmask_zero_has_no_names() {
    assert!(Events::from_bits_retain(0).names().is_empty());
    assert_eq!(Events::from_bits_retain(0).render(), "");
}

#[test]
fn bitmask_single_flag() {
    assert_eq!(Events::from_bits_retain(0x001).names(), vec!["EPOLLIN"]);
}

#[test]
fn bitmask_two_flags_in_declared_order() {
    let e = Events::from_bits_retain(EPOLLOUT | EPOLLIN);
    assert_eq!(e.names(), vec!["EPOLLIN", "EPOLLOUT"]);
    assert_eq!(e.render(), "EPOLLIN | EPOLLOUT");
}

#[test]
fn bitmask_all_bits_gives_every_name_once() {
    let names = Events::from_bits_retain(0xFFFF_FFFF).names();
    let expected = vec![
        "EPOLLIN",
        "EPOLLPRI",
        "EPOLLOUT",
        "EPOLLRDNORM",
        "EPOLLRDBAND",
        "EPOLLWRNORM",
        "EPOLLWRBAND",
        "EPOLLMSG",
        "EPOLLERR",
        "EPOLLHUP",
        "EPOLLRDHUP",
        "EPOLLEXCLUSIVE",
        "EPOLLWAKEUP",
        "EPOLLONESHOT",
        "EPOLLET",
    ];
    assert_eq!(names, expected);
}

#[test]
fn bitmask_unnamed_bits_are_kept_but_not_named() {
    let e = Events::from_bits_retain(0x20 | EPOLLET);
    assert_eq!(e.bits(), 0x8000_0020);
    assert!(e.contains(EPOLLET));
    assert!(!e.contains(EPOLLIN));
    assert_eq!(e.names(), vec!["EPOLLET"]);
}

#[test]
fn opcode_names() {
    assert_eq!(op_str(1), "EPOLL_CTL_ADD");
    assert_eq!(op_str(2), "EPOLL_CTL_DEL");
    assert_eq!(op_str(3), "EPOLL_CTL_MOD");
    assert_eq!(op_str(99), "INVALID_OPCODE");
    assert_eq!(op_str(0), "INVALID_OPCODE");
}

#[test]
fn data_union_rendered_both_ways() {
    let d = EpollData { uint64: 0x1_0000_0002 };
    assert_eq!(d.as_u32(), 2);
    assert_eq!(d.render(), "{ u32: 2, u64: 4294967298 }");
}

#[test]
fn call_line_with_negative_return() {
    let mut args = sample_args();
    args.pid = 7;
    args.epfd = 3;
    args.op = 2;
    args.fd = 10;
    args.epoll_event = [0x04, 0, 0, 0, 9, 0, 0, 0, 0, 0, 0, 0];
    args.return_value = -2;
    let call = EpollCtl::from_slice(&args.to_bytes()).unwrap();
    assert_eq!(
        call.render(),
        "(pid: 7) epoll_ctl(3, EPOLL_CTL_DEL, 10, {events={ EPOLLOUT }, data={ u32: 9, u64: 9 }}) = -2"
    );
}

#[test]
fn call_line_extremes() {
    let mut args = sample_args();
    args.pid = u32::MAX;
    args.epfd = u64::MAX;
    args.op = 99;
    args.fd = 0;
    args.epoll_event = [0; 12];
    args.return_value = i64::MIN;
    let call = EpollCtl::from_slice(&args.to_bytes()).unwrap();
    assert_eq!(
        call.render(),
        "(pid: 4294967295) epoll_ctl(18446744073709551615, INVALID_OPCODE, 0, {events={  }, data={ u32: 0, u64: 0 }}) = -9223372036854775808"
    );
}
