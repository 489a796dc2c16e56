use bytes::BytesMut;
use proxy_core::common::net::{
    poll_read_buf, read_into_window, relay, relay_with_atomic_counter, PollUtil, ReadBufEvent,
    RelayEvent, Side,
};
use proxy_core::step::Step;
use std::io::{Error, ErrorKind};
use std::sync::atomic::AtomicU64;
use std::task::Poll;

#[test]
fn read_asks_for_the_spare_room() {
    let mut buf = BytesMut::with_capacity(10);
    buf.extend_from_slice(b"abc");
    let spare = buf.capacity() - buf.len();
    match poll_read_buf::<u8>(&mut buf, ReadBufEvent::Start) {
        Step::Perform(window) => assert_eq!(window, spare),
        _ => panic!("no read"),
    }
    assert_eq!(&buf[..], b"abc");
}

#[test]
fn window_is_asked_for_whole() {
    for n in [1usize, 64, 4096] {
        assert!(matches!(read_into_window::<u8>(Some(n)), Step::Perform(m) if m == n));
    }
    assert!(matches!(read_into_window::<u8>(None), Step::Return(Poll::Ready(Ok(0)))));
}

#[test]
fn full_buffer_grows() {
    let mut buf = BytesMut::new();
    match poll_read_buf::<u8>(&mut buf, ReadBufEvent::Start) {
        Step::Perform(window) => assert!(window >= 64),
        _ => panic!("no read"),
    }
}

#[test]
fn read_bytes_are_appended() {
    let mut buf = BytesMut::from(&b"abc"[..]);
    let step = poll_read_buf::<u8>(&mut buf, ReadBufEvent::Polled(Poll::Ready(Ok(b"de"))));
    assert!(matches!(step, Step::Return(Poll::Ready(Ok(2)))));
    assert_eq!(&buf[..], b"abcde");
    let step = poll_read_buf::<u8>(&mut buf, ReadBufEvent::Polled(Poll::Ready(Ok(b""))));
    assert!(matches!(step, Step::Return(Poll::Ready(Ok(0)))));
    assert_eq!(&buf[..], b"abcde");
}

#[test]
fn read_waits_and_fails() {
    let mut buf = BytesMut::from(&b"abc"[..]);
    let step = poll_read_buf::<u8>(&mut buf, ReadBufEvent::Polled(Poll::Pending));
    assert!(matches!(step, Step::Return(Poll::Pending)));
    let step = poll_read_buf(&mut buf, ReadBufEvent::Polled(Poll::Ready(Err(5u8))));
    assert!(matches!(step, Step::Return(Poll::Ready(Err(5)))));
    assert_eq!(&buf[..], b"abc");
}

fn value() -> Poll<Result<usize, Error>> {
    Poll::Ready(Ok(7))
}

fn failure() -> Poll<Result<usize, Error>> {
    Poll::Ready(Err(Error::from(ErrorKind::NotFound)))
}

fn pending() -> Poll<Result<usize, Error>> {
    Poll::Pending
}

#[test]
fn poll_results_are_told_apart() {
    assert!(!value().is_pending_or_error());
    assert!(failure().is_pending_or_error());
    assert!(pending().is_pending_or_error());
    assert!(!PollUtil::is_error(&value()));
    assert!(PollUtil::is_error(&failure()));
    assert!(!PollUtil::is_error(&pending()));
}

#[test]
fn poll_values() {
    assert_eq!(value().get_poll_res(), 7);
    assert_eq!(failure().get_poll_res(), 0);
    assert_eq!(pending().get_poll_res(), 0);
}

#[test]
fn dropped_poll_values() {
    assert!(matches!(value().drop_poll_result(), Poll::Ready(Ok(()))));
    assert!(matches!(pending().drop_poll_result(), Poll::Pending));
    match failure().drop_poll_result() {
        Poll::Ready(Err(e)) => assert_eq!(e.kind(), ErrorKind::NotFound),
        _ => panic!("no error"),
    }
}

#[test]
fn relay_copies_both_ways() {
    match relay::<u8>(RelayEvent::Start, 4, 4096) {
        Step::Perform(jobs) => {
            assert_eq!((jobs.down.from, jobs.down.to), (Side::Outbound, Side::Inbound));
            assert_eq!((jobs.up.from, jobs.up.to), (Side::Inbound, Side::Outbound));
            assert_eq!(jobs.down.capacity, 16_384);
            assert_eq!(jobs.up.capacity, 16_384);
        }
        _ => panic!("no relay"),
    }
    assert!(matches!(relay::<u8>(RelayEvent::Ended(Ok(())), 4, 4096), Step::Return(Ok(()))));
    assert!(matches!(relay(RelayEvent::Ended(Err(1u8)), 4, 4096), Step::Return(Ok(()))));
}

#[test]
fn counted_relay_uses_its_counters() {
    let counters: Vec<AtomicU64> = (0..4).map(AtomicU64::new).collect();
    let step = relay_with_atomic_counter::<u8>(
        RelayEvent::Start,
        &counters[0],
        &counters[1],
        &counters[2],
        &counters[3],
        2,
        100,
    );
    match step {
        Step::Perform(jobs) => {
            assert_eq!((jobs.down.from, jobs.down.to), (Side::Outbound, Side::Inbound));
            assert_eq!((jobs.up.from, jobs.up.to), (Side::Inbound, Side::Outbound));
            assert!(std::ptr::eq(jobs.down.counters.0, &counters[3]));
            assert!(std::ptr::eq(jobs.down.counters.1, &counters[1]));
            assert!(std::ptr::eq(jobs.up.counters.0, &counters[0]));
            assert!(std::ptr::eq(jobs.up.counters.1, &counters[2]));
            assert_eq!(jobs.up.capacity, 200);
        }
        _ => panic!("no relay"),
    }
}

#[test]
fn counted_relay_succeeds() {
    let counter = AtomicU64::new(0);
    let step = relay_with_atomic_counter(
        RelayEvent::Ended(Err(1u8)),
        &counter,
        &counter,
        &counter,
        &counter,
        2,
        100,
    );
    assert!(matches!(step, Step::Return(Ok(()))));
}
