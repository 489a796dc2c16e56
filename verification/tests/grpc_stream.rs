use bytes::Bytes;
use proxy_core::proxy::grpc::frame::Framing;
use proxy_core::proxy::grpc::stream::{
    ErrorClass, GrpcStream, ReadAction, ReadEvent, ShutdownAction, ShutdownEvent, StreamError,
    WriteAction, WriteEvent,
};
use proxy_core::step::Step;
use std::task::Poll;
use tokio::io::ReadBuf;

type ReadStep = Step<ReadAction, Poll<Result<(), StreamError<u8>>>>;

fn delimited() -> GrpcStream {
    GrpcStream::new(Framing::Delimited, 1024)
}

fn data_event(data: &[u8]) -> ReadEvent<u8> {
    ReadEvent::Data(Poll::Ready(Some(Ok(Bytes::copy_from_slice(data)))))
}

fn released(step: ReadStep) -> usize {
    match step {
        Step::Perform(ReadAction::Release(n)) => n,
        _ => panic!("no release"),
    }
}

fn is_done(step: ReadStep) -> bool {
    matches!(step, Step::Return(Poll::Ready(Ok(()))))
}

fn asks_for_data(step: ReadStep) -> bool {
    matches!(step, Step::Perform(ReadAction::PollData))
}

/// A stream whose response has come.
fn receiving() -> GrpcStream {
    let mut stream = delimited();
    let mut space = [0u8; 4];
    let mut dst = ReadBuf::new(&mut space);
    assert!(asks_for_data(stream.poll_read(ReadEvent::Response(Poll::Ready(Ok(()))), &mut dst)));
    stream
}

#[test]
fn message_bytes_are_exact() {
    let message = delimited().encode_buf(b"hi");
    assert_eq!(&message[..], &[0, 0, 0, 0, 4, 0x0a, 2, b'h', b'i'][..]);
}

#[test]
fn message_of_nothing() {
    let message = delimited().encode_buf(b"");
    assert_eq!(&message[..], &[0, 0, 0, 0, 2, 0x0a, 0][..]);
}

#[test]
fn message_with_two_length_bytes() {
    let data = vec![7u8; 300];
    let message = delimited().encode_buf(&data);
    assert_eq!(&message[..8], &[0, 0, 0, 1, 47, 0x0a, 0xac, 0x02][..]);
    assert_eq!(&message[8..], &data[..]);
}

#[test]
fn message_with_three_length_bytes() {
    let data = vec![1u8; 70_000];
    let message = delimited().encode_buf(&data);
    assert_eq!(&message[..9], &[0, 0, 1, 0x11, 0x74, 0x0a, 0xf0, 0xa2, 0x04][..]);
    assert_eq!(message.len(), 70_009);
}

#[test]
fn bare_message_has_no_length_field() {
    let stream = GrpcStream::new(Framing::Bare, 1024);
    assert_eq!(&stream.encode_buf(b"abc")[..], &[0, 0, 0, 0, 4, 0x0a, b'a', b'b', b'c'][..]);
    assert_eq!(stream.reserve_send_capacity(b"abc"), 9);
}

#[test]
fn reserved_capacity_is_message_length() {
    for len in [0usize, 1, 127, 128, 300, 16_383, 16_384] {
        let data = vec![0u8; len];
        let stream = delimited();
        assert_eq!(stream.reserve_send_capacity(&data), stream.encode_buf(&data).len());
    }
    assert_eq!(delimited().reserve_send_capacity(b"hi"), 9);
    assert_eq!(delimited().reserve_send_capacity(&[0u8; 128]), 136);
}

#[test]
fn length_bytes_count_what_follows() {
    for len in [0usize, 1, 200, 66_000] {
        for framing in [Framing::Delimited, Framing::Bare] {
            let message = GrpcStream::new(framing, 16).encode_buf(&vec![3u8; len]);
            let bytes = [message[1], message[2], message[3], message[4]];
            assert_eq!(u32::from_be_bytes(bytes) as usize, message.len() - 5);
        }
    }
}

#[test]
fn different_payloads_make_different_messages() {
    for framing in [Framing::Delimited, Framing::Bare] {
        let stream = GrpcStream::new(framing, 1024);
        assert_ne!(stream.encode_buf(b"a"), stream.encode_buf(b"b"));
        assert_ne!(stream.encode_buf(b"a"), stream.encode_buf(b"aa"));
        assert_ne!(stream.encode_buf(b""), stream.encode_buf(&[0u8]));
        assert_eq!(stream.encode_buf(b"a"), stream.encode_buf(b"a"));
    }
}

/// Hands a message over in pieces of `size` bytes, the first of `first` bytes, reads it through
/// buffers of `room` bytes, and gives back what was read.
fn read_in_pieces(message: &[u8], first: usize, size: usize, room: usize) -> Vec<u8> {
    let mut stream = receiving();
    let mut read = Vec::new();
    let mut from = 0;
    let mut until = first;
    while from < message.len() {
        let piece = &message[from..until];
        let mut space = vec![0u8; room];
        let mut dst = ReadBuf::new(&mut space);
        assert_eq!(released(stream.poll_read(data_event(piece), &mut dst)), piece.len());
        read.extend_from_slice(dst.filled());
        loop {
            let mut space = vec![0u8; room];
            let mut dst = ReadBuf::new(&mut space);
            if asks_for_data(stream.poll_read(ReadEvent::Start, &mut dst)) {
                assert!(dst.filled().is_empty());
                break;
            }
            read.extend_from_slice(dst.filled());
        }
        from = until;
        until = message.len().min(until + size);
    }
    read
}

#[test]
fn message_in_any_pieces_and_reads() {
    let data: Vec<u8> = (0..300usize).map(|i| (i % 251) as u8).collect();
    let message = delimited().encode_buf(&data);
    for (first, size, room) in [
        (8usize, 1usize, 1usize),
        (8, 7, 3),
        (9, 40, 100),
        (100, 13, 13),
        (200, 100, 7),
        (308, 1, 11),
    ] {
        assert_eq!(read_in_pieces(&message, first, size, room), data);
    }
}

#[test]
fn messages_in_pieces_that_end_one_and_begin_the_next() {
    let parts: Vec<Vec<u8>> = vec![vec![1; 30], vec![2; 200], vec![3; 5]];
    let mut bytes = Vec::new();
    for part in &parts {
        bytes.extend_from_slice(&delimited().encode_buf(part));
    }
    assert_eq!(bytes.len(), 37 + 208 + 12);
    for (first, size, room) in
        [(20usize, 50usize, 100usize), (45, 207, 250), (37, 208, 64), (257, 1, 257)]
    {
        assert_eq!(read_in_pieces(&bytes, first, size, room), parts.concat());
    }
    let read = read_in_pieces(&bytes[..100], 60, 40, 100);
    assert_eq!(read, &parts.concat()[..30 + 55]);
}

#[test]
fn part_of_a_message_is_read_as_far_as_it_came() {
    let data: Vec<u8> = (0..300usize).map(|i| (i % 251) as u8).collect();
    let message = delimited().encode_buf(&data);
    assert_eq!(read_in_pieces(&message[..8], 8, 1, 5), Vec::<u8>::new());
    assert_eq!(read_in_pieces(&message[..108], 20, 9, 5), &data[..100]);
}

#[test]
fn response_is_awaited_first() {
    let mut stream = delimited();
    let mut space = [0u8; 4];
    let mut dst = ReadBuf::new(&mut space);
    let step: ReadStep = stream.poll_read(ReadEvent::Start, &mut dst);
    assert!(matches!(step, Step::Perform(ReadAction::PollResponse)));
    let step: ReadStep = stream.poll_read(ReadEvent::Response(Poll::Pending), &mut dst);
    assert!(matches!(step, Step::Return(Poll::Pending)));
    let step = stream.poll_read(ReadEvent::Response(Poll::Ready(Err(9u8))), &mut dst);
    assert!(matches!(step, Step::Return(Poll::Ready(Err(StreamError::Response(9))))));
    let step: ReadStep = stream.poll_read(ReadEvent::Start, &mut dst);
    assert!(matches!(step, Step::Perform(ReadAction::PollResponse)));
    assert!(asks_for_data(stream.poll_read(ReadEvent::Response(Poll::Ready(Ok(()))), &mut dst)));
    assert!(asks_for_data(stream.poll_read(ReadEvent::Start, &mut dst)));
}

#[test]
fn written_is_read_back() {
    let mut stream = receiving();
    let message = stream.encode_buf(b"hello world");
    let mut space = [0u8; 64];
    let mut dst = ReadBuf::new(&mut space);
    assert_eq!(released(stream.poll_read(data_event(&message), &mut dst)), message.len());
    assert_eq!(dst.filled(), b"hello world");
    assert!(asks_for_data(stream.poll_read(ReadEvent::Start, &mut dst)));
}

#[test]
fn long_payload_is_read_back() {
    let mut stream = receiving();
    let data: Vec<u8> = (0..20_000u32).map(|i| (i % 251) as u8).collect();
    let message = stream.encode_buf(&data);
    let mut space = vec![0u8; 20_000];
    let mut dst = ReadBuf::new(&mut space);
    assert_eq!(released(stream.poll_read(data_event(&message), &mut dst)), message.len());
    assert_eq!(dst.filled(), &data[..]);
}

#[test]
fn what_finds_no_room_is_kept() {
    let mut stream = receiving();
    let message = stream.encode_buf(b"abcdef");
    let mut first = [0u8; 4];
    let mut dst = ReadBuf::new(&mut first);
    assert_eq!(released(stream.poll_read(data_event(&message), &mut dst)), message.len());
    assert_eq!(dst.filled(), b"abcd");

    let mut second = [0u8; 1];
    let mut dst = ReadBuf::new(&mut second);
    assert!(stream.is_within_payload(&dst));
    assert!(is_done(stream.poll_read(ReadEvent::Start, &mut dst)));
    assert_eq!(dst.filled(), b"e");

    let mut third = [0u8; 8];
    let mut dst = ReadBuf::new(&mut third);
    assert!(is_done(stream.poll_read(ReadEvent::Start, &mut dst)));
    assert_eq!(dst.filled(), b"f");
    assert!(asks_for_data(stream.poll_read(ReadEvent::Start, &mut dst)));
}

#[test]
fn read_appends_to_what_is_filled() {
    let mut stream = receiving();
    let message = stream.encode_buf(b"xyz");
    let mut space = [0u8; 8];
    let mut dst = ReadBuf::new(&mut space);
    dst.put_slice(b"ab");
    stream.poll_read(data_event(&message), &mut dst);
    assert_eq!(dst.filled(), b"abxyz");
}

#[test]
fn message_in_two_pieces() {
    let mut stream = receiving();
    let message = stream.encode_buf(b"abcdef");
    let mut space = [0u8; 16];
    let mut dst = ReadBuf::new(&mut space);
    assert_eq!(released(stream.poll_read(data_event(&message[..9]), &mut dst)), 9);
    assert_eq!(dst.filled(), b"ab");
    assert_eq!(released(stream.poll_read(data_event(&message[9..]), &mut dst)), 4);
    assert_eq!(dst.filled(), b"abcdef");
}

#[test]
fn messages_that_come_together() {
    let mut stream = receiving();
    let mut data = stream.encode_buf(b"one").to_vec();
    data.extend_from_slice(&stream.encode_buf(b"two"));
    data.extend_from_slice(&stream.encode_buf(b"three"));
    let mut space = [0u8; 16];
    let mut dst = ReadBuf::new(&mut space);
    assert_eq!(released(stream.poll_read(data_event(&data), &mut dst)), data.len());
    assert_eq!(dst.filled(), b"onetwothree");
}

#[test]
fn empty_message_behind_another() {
    let mut stream = receiving();
    let mut data = stream.encode_buf(b"one").to_vec();
    data.extend_from_slice(&stream.encode_buf(b""));
    let mut space = [0u8; 16];
    let mut dst = ReadBuf::new(&mut space);
    assert_eq!(released(stream.poll_read(data_event(&data), &mut dst)), data.len());
    assert_eq!(dst.filled(), b"one");
    assert!(asks_for_data(stream.poll_read(ReadEvent::Start, &mut dst)));
}

#[test]
fn many_small_reads_give_the_whole() {
    let mut stream = receiving();
    let data: Vec<u8> = (0..100u8).collect();
    let message = stream.encode_buf(&data);
    let mut first = [0u8; 3];
    let mut dst = ReadBuf::new(&mut first);
    stream.poll_read(data_event(&message), &mut dst);
    let mut got = dst.filled().to_vec();
    for size in [0usize, 7, 1, 50, 200] {
        let mut space = vec![0u8; size];
        let mut dst = ReadBuf::new(&mut space);
        assert!(stream.is_within_payload(&dst));
        assert!(is_done(stream.poll_read(ReadEvent::Start, &mut dst)));
        got.extend_from_slice(dst.filled());
    }
    assert_eq!(got, data);
}

#[test]
fn empty_payload_ends_the_reading() {
    let mut stream = receiving();
    let mut data = stream.encode_buf(b"").to_vec();
    data.extend_from_slice(&stream.encode_buf(b"two"));
    let mut space = [0u8; 16];
    let mut dst = ReadBuf::new(&mut space);
    assert_eq!(released(stream.poll_read(data_event(&data), &mut dst)), data.len());
    assert_eq!(dst.filled(), b"");
    assert!(!stream.is_within_payload(&dst));
}

#[test]
fn kept_bytes_beyond_the_payload() {
    let mut stream = receiving();
    let mut data = stream.encode_buf(b"abcd").to_vec();
    data.extend_from_slice(&stream.encode_buf(b"x"));
    let mut space = [0u8; 2];
    let mut dst = ReadBuf::new(&mut space);
    assert_eq!(released(stream.poll_read(data_event(&data), &mut dst)), data.len());
    assert_eq!(dst.filled(), b"ab");
    let mut two = [0u8; 2];
    let mut dst = ReadBuf::new(&mut two);
    assert!(stream.is_within_payload(&dst));
    let mut three = [0u8; 3];
    assert!(!stream.is_within_payload(&ReadBuf::new(&mut three)));
    assert!(is_done(stream.poll_read(ReadEvent::Start, &mut dst)));
    assert_eq!(dst.filled(), b"cd");
    let mut one = [0u8; 1];
    assert!(!stream.is_within_payload(&ReadBuf::new(&mut one)));
}

#[test]
fn too_short_for_a_message() {
    let mut stream = receiving();
    let mut space = [0u8; 8];
    let mut dst = ReadBuf::new(&mut space);
    assert_eq!(released(stream.poll_read(data_event(&[0, 0, 0, 0, 4, 0x0a]), &mut dst)), 0);
    assert_eq!(released(stream.poll_read(data_event(&[]), &mut dst)), 0);
    assert_eq!(dst.filled(), b"");
}

#[test]
fn left_over_bytes_stay_in_the_window() {
    let mut stream = receiving();
    let mut data = stream.encode_buf(b"one").to_vec();
    let used = data.len();
    data.extend_from_slice(&[0, 0, 0]);
    let mut space = [0u8; 8];
    let mut dst = ReadBuf::new(&mut space);
    assert_eq!(released(stream.poll_read(data_event(&data), &mut dst)), used);
    assert_eq!(dst.filled(), b"one");
}

fn is_undecodable(step: ReadStep) -> bool {
    match step {
        Step::Return(Poll::Ready(Err(e))) => {
            assert_eq!(e.class(), ErrorClass::Other);
            matches!(e, StreamError::Decode(_))
        }
        _ => false,
    }
}

#[test]
fn length_that_does_not_end() {
    let mut stream = receiving();
    let mut space = [0u8; 8];
    let mut dst = ReadBuf::new(&mut space);
    let data = [0, 0, 0, 0, 4, 0x0a, 0x80, 0x80];
    assert!(is_undecodable(stream.poll_read(data_event(&data), &mut dst)));
}

#[test]
fn length_over_64_bits() {
    let mut stream = receiving();
    let mut space = [0u8; 8];
    let mut dst = ReadBuf::new(&mut space);
    let mut data = vec![0, 0, 0, 0, 4, 0x0a];
    data.extend_from_slice(&[0xff; 9]);
    data.push(0x02);
    assert!(is_undecodable(stream.poll_read(data_event(&data), &mut dst)));
    let mut data = vec![0, 0, 0, 0, 4, 0x0a];
    data.extend_from_slice(&[0xff; 10]);
    data.push(0x01);
    assert!(is_undecodable(stream.poll_read(data_event(&data), &mut dst)));
}

#[test]
fn greatest_length() {
    let mut stream = receiving();
    let mut space = [0u8; 8];
    let mut dst = ReadBuf::new(&mut space);
    let mut data = vec![0, 0, 0, 0, 4, 0x0a];
    data.extend_from_slice(&[0xff; 9]);
    data.push(0x01);
    data.extend_from_slice(b"abc");
    assert_eq!(released(stream.poll_read(data_event(&data), &mut dst)), data.len());
    assert_eq!(dst.filled(), b"abc");
}

#[test]
fn payload_before_a_broken_length_is_read() {
    let mut stream = receiving();
    let mut data = stream.encode_buf(b"one").to_vec();
    data.extend_from_slice(&[0, 0, 0, 0, 4, 0x0a, 0x80]);
    let mut space = [0u8; 8];
    let mut dst = ReadBuf::new(&mut space);
    assert!(is_undecodable(stream.poll_read(data_event(&data), &mut dst)));
    assert_eq!(dst.filled(), b"one");
}

#[test]
fn bare_stream_reads_nothing() {
    let mut stream = GrpcStream::new(Framing::Bare, 1024);
    let message = stream.encode_buf(b"abc");
    let mut space = [0u8; 8];
    let mut dst = ReadBuf::new(&mut space);
    assert_eq!(released(stream.poll_read(data_event(&message), &mut dst)), 0);
    assert_eq!(dst.filled(), b"");
    assert!(asks_for_data(stream.poll_read(ReadEvent::Response(Poll::Ready(Ok(()))), &mut dst)));
}

#[test]
fn end_of_data() {
    let mut stream = receiving();
    let mut space = [0u8; 8];
    let mut dst = ReadBuf::new(&mut space);
    let step: ReadStep = stream.poll_read(ReadEvent::Data(Poll::Pending), &mut dst);
    assert!(matches!(step, Step::Return(Poll::Pending)));
    assert!(is_done(stream.poll_read(ReadEvent::Data(Poll::Ready(None)), &mut dst)));
    assert!(is_done(stream.poll_read(ReadEvent::Data(Poll::Ready(Some(Err(1)))), &mut dst)));
}

#[test]
fn window_release() {
    let mut stream = receiving();
    let mut space = [0u8; 8];
    let mut dst = ReadBuf::new(&mut space);
    assert!(is_done(stream.poll_read(ReadEvent::Released(Ok(())), &mut dst)));
    match stream.poll_read(ReadEvent::Released(Err(3u8)), &mut dst) {
        Step::Return(Poll::Ready(Err(e))) => {
            assert!(matches!(e, StreamError::Release(3)));
            assert_eq!(e.class(), ErrorClass::ConnectionReset);
        }
        _ => panic!("no error"),
    }
}

#[test]
fn write_reserves_sends_and_reports() {
    let stream = delimited();
    match stream.poll_write::<u8>(b"hi", WriteEvent::Start) {
        Step::Perform(WriteAction::Reserve(n)) => assert_eq!(n, 9),
        _ => panic!("no reservation"),
    }
    match stream.poll_write::<u8>(b"hi", WriteEvent::Capacity(Poll::Ready(Some(Ok(5))))) {
        Step::Perform(WriteAction::Send { message, granted }) => {
            assert_eq!(&message[..], &[0, 0, 0, 0, 4, 0x0a, 2, b'h', b'i'][..]);
            assert_eq!(granted, 5);
        }
        _ => panic!("no message"),
    }
    let sent = WriteEvent::Sent::<u8> { granted: 5, outcome: Ok(()) };
    let step = stream.poll_write(b"hi", sent);
    assert!(matches!(step, Step::Return(Poll::Ready(Ok(5)))));
}

#[test]
fn write_waits_and_fails() {
    let stream = delimited();
    let step = stream.poll_write::<u8>(b"hi", WriteEvent::Capacity(Poll::Pending));
    assert!(matches!(step, Step::Return(Poll::Pending)));
    for polled in [None, Some(Err(1u8))] {
        match stream.poll_write(b"hi", WriteEvent::Capacity(Poll::Ready(polled))) {
            Step::Return(Poll::Ready(Err(e))) => {
                assert!(matches!(e, StreamError::Closed));
                assert_eq!(e.class(), ErrorClass::BrokenPipe);
            }
            _ => panic!("no error"),
        }
    }
    let sent = WriteEvent::Sent { granted: 5, outcome: Err(4u8) };
    match stream.poll_write(b"hi", sent) {
        Step::Return(Poll::Ready(Err(e))) => {
            assert!(matches!(e, StreamError::Send(4)));
            assert_eq!(e.class(), ErrorClass::BrokenPipe);
        }
        _ => panic!("no error"),
    }
}

#[test]
fn flush_is_done_at_once() {
    assert!(matches!(delimited().poll_flush::<u8>(), Poll::Ready(Ok(()))));
}

#[test]
fn shutdown_sends_the_end() {
    let stream = delimited();
    let step = stream.poll_shutdown::<u8>(ShutdownEvent::Start);
    assert!(matches!(step, Step::Perform(ShutdownAction::Reserve(0))));
    let step = stream.poll_shutdown::<u8>(ShutdownEvent::Capacity(Poll::Pending));
    assert!(matches!(step, Step::Return(Poll::Pending)));
    let step = stream.poll_shutdown::<u8>(ShutdownEvent::Capacity(Poll::Ready(None)));
    assert!(matches!(step, Step::Return(Poll::Ready(Err(StreamError::Closed)))));
    for polled in [Ok(1), Err(2u8)] {
        let step = stream.poll_shutdown(ShutdownEvent::Capacity(Poll::Ready(Some(polled))));
        assert!(matches!(step, Step::Perform(ShutdownAction::SendEnd)));
    }
    let step = stream.poll_shutdown::<u8>(ShutdownEvent::Sent(Ok(())));
    assert!(matches!(step, Step::Return(Poll::Ready(Ok(())))));
    let step = stream.poll_shutdown(ShutdownEvent::Sent(Err(6u8)));
    assert!(matches!(step, Step::Return(Poll::Ready(Err(StreamError::Send(6))))));
}

#[test]
fn response_error_class() {
    assert_eq!(StreamError::Response(1u8).class(), ErrorClass::Other);
}

#[test]
fn closed_stream_has_a_text() {
    assert_eq!(StreamError::<u8>::Closed.text(), Some("broken pipe"));
    assert_eq!(StreamError::Response(1u8).text(), None);
    assert_eq!(StreamError::Release(1u8).text(), None);
    assert_eq!(StreamError::Send(1u8).text(), None);
    for polled in [None, Some(Err(3u8))] {
        match delimited().poll_write(b"hi", WriteEvent::Capacity(Poll::Ready(polled))) {
            Step::Return(Poll::Ready(Err(error))) => {
                assert_eq!(error.text(), Some("broken pipe"));
                assert_eq!(error.class(), ErrorClass::BrokenPipe);
            }
            _ => panic!("no error"),
        }
    }
    match delimited().poll_shutdown::<u8>(ShutdownEvent::Capacity(Poll::Ready(None))) {
        Step::Return(Poll::Ready(Err(error))) => {
            assert_eq!(error.text(), Some("broken pipe"));
            assert_eq!(error.class(), ErrorClass::BrokenPipe);
        }
        _ => panic!("no error"),
    }
}
