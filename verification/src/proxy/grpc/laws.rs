//! What the calls of a gRPC stream give for what they are given, byte by byte, and how calls
//! relate to each other.
use super::frame::{
    be32, front, joined, lemma_be32, lemma_message_front, message, messages, portion, reading,
    Framing, Front,
};
use super::stream::{
    ErrorClass, GrpcStream, ReadAction, ReadEvent, ShutdownAction, ShutdownEvent, StreamError,
    WriteAction, WriteEvent,
};
use crate::buffers::{filled, read_capacity, room, shared_bytes};
use crate::step::Step;
use crate::varint::{decoded, law_decoded_within, varint};
use bytes::Bytes;
use std::task::Poll;
use tokio::io::ReadBuf;
use vstd::math::min;
use vstd::prelude::*;

verus! {

/// What a step of a read gives.
pub type ReadStep<E> = Step<ReadAction, Poll<Result<(), StreamError<E>>>>;

/// What a step of a write gives.
pub type WriteStep<E> = Step<WriteAction, Poll<Result<usize, StreamError<E>>>>;

/// What a step of a shutdown gives.
pub type ShutdownStep<E> = Step<ShutdownAction, Poll<Result<(), StreamError<E>>>>;

/// Every encoded message begins with a zero byte, which says that it is not compressed. Four
/// bytes follow that count, the highest first and modulo two to the 32nd, what comes behind them:
/// the tag of a field with a length, the length where the framing has it, and the data.
pub proof fn law_encoded_layout(writer: &GrpcStream, data: &[u8], sent: Bytes)
    requires
        call_ensures(GrpcStream::encode_buf, (writer, data), sent),
    ensures
        ({
            let m = shared_bytes(sent);
            let len = match writer.spec_framing() {
                Framing::Delimited => varint(data@.len()),
                Framing::Bare => Seq::empty(),
            };
            let start = 6int + len.len();
            &&& m.len() == start + data@.len()
            &&& m[0] == 0
            &&& m[1] * 0x100_0000 + m[2] * 0x1_0000 + m[3] * 0x100 + m[4] == (m.len() - 5)
                % 0x1_0000_0000
            &&& m[5] == 0x0a
            &&& m.subrange(6, start) == len
            &&& m.skip(start) == data@
        }),
{
    let m = shared_bytes(sent);
    let len = match writer.spec_framing() {
        Framing::Delimited => varint(data@.len()),
        Framing::Bare => Seq::empty(),
    };
    let start = 6int + len.len();
    assert(m.subrange(6, start) =~= len);
    assert(m.skip(start) =~= data@);
    lemma_be32((1 + len.len() + data@.len()) as nat);
    let count = be32((1 + len.len() + data@.len()) as nat);
    assert(m.subrange(1, 5) =~= count);
    assert(m[1] == count[0] && m[2] == count[1] && m[3] == count[2] && m[4] == count[3]);
}

/// A write reserves as much as it sends, sends what `encode_buf` makes of the data, whatever
/// capacity was granted, and reports just that capacity.
pub proof fn law_write_sends_the_message<E>(
    writer: &GrpcStream,
    data: &[u8],
    granted: usize,
    encoded: Bytes,
    first: WriteStep<E>,
    second: WriteStep<E>,
    third: WriteStep<E>,
)
    requires
        call_ensures(GrpcStream::encode_buf, (writer, data), encoded),
        call_ensures(GrpcStream::poll_write::<E>, (writer, data, WriteEvent::Start), first),
        call_ensures(
            GrpcStream::poll_write::<E>,
            (writer, data, WriteEvent::Capacity(Poll::Ready(Some(Ok(granted))))),
            second,
        ),
        call_ensures(
            GrpcStream::poll_write::<E>,
            (writer, data, WriteEvent::Sent { granted, outcome: Ok(()) }),
            third,
        ),
    ensures
        first matches Step::Perform(WriteAction::Reserve(n)) && n == shared_bytes(encoded).len(),
        second matches Step::Perform(WriteAction::Send { message: sent, granted: g })
            && shared_bytes(sent) == shared_bytes(encoded) && g == granted,
        third matches Step::Return(Poll::Ready(Ok(n))) && n == granted,
{
}

/// The capacity to reserve for data is the length of its message.
pub proof fn law_reserved_is_the_length(
    writer: &GrpcStream,
    data: &[u8],
    encoded: Bytes,
    reserved: usize,
)
    requires
        call_ensures(GrpcStream::encode_buf, (writer, data), encoded),
        call_ensures(GrpcStream::reserve_send_capacity, (writer, data), reserved),
    ensures
        reserved == shared_bytes(encoded).len(),
{
}

/// A write sends nothing where no capacity is granted: it waits, or fails as a broken pipe with
/// that text. One whose sending fails is a broken pipe that carries the failure.
pub proof fn law_write_fails<E>(
    writer: &GrpcStream,
    data: &[u8],
    event: WriteEvent<E>,
    step: WriteStep<E>,
    error: &StreamError<E>,
    class: ErrorClass,
    text: Option<&'static str>,
)
    requires
        call_ensures(GrpcStream::poll_write::<E>, (writer, data, event), step),
        match event {
            WriteEvent::Start => false,
            WriteEvent::Capacity(polled) => !(polled matches Poll::Ready(Some(Ok(_)))),
            WriteEvent::Sent { outcome, .. } => outcome is Err,
        },
        step matches Step::Return(Poll::Ready(Err(e))) ==> e == *error,
        call_ensures(StreamError::<E>::class, (error,), class),
        call_ensures(StreamError::<E>::text, (error,), text),
    ensures
        match event {
            WriteEvent::Capacity(Poll::Pending) => step matches Step::Return(Poll::Pending),
            WriteEvent::Sent { outcome: Err(e), .. } => {
                &&& step matches Step::Return(Poll::Ready(Err(StreamError::Send(carried))))
                    && carried == e
                &&& class == ErrorClass::BrokenPipe
                &&& text is None
            },
            _ => {
                &&& step matches Step::Return(Poll::Ready(Err(_)))
                &&& class == ErrorClass::BrokenPipe
                &&& text matches Some(t) && t@ == "broken pipe"@
            },
        },
{
}

/// A shutdown asks for no capacity, and sends the end of the stream as soon as it is answered,
/// whatever the answer, unless the stream is gone: then it is a broken pipe, and no end is sent.
pub proof fn law_shutdown<E>(
    writer: &GrpcStream,
    event: ShutdownEvent<E>,
    step: ShutdownStep<E>,
    error: &StreamError<E>,
    class: ErrorClass,
    text: Option<&'static str>,
)
    requires
        call_ensures(GrpcStream::poll_shutdown::<E>, (writer, event), step),
        step matches Step::Return(Poll::Ready(Err(e))) ==> e == *error,
        call_ensures(StreamError::<E>::class, (error,), class),
        call_ensures(StreamError::<E>::text, (error,), text),
    ensures
        match event {
            ShutdownEvent::Start => step matches Step::Perform(ShutdownAction::Reserve(n)) && n
                == 0,
            ShutdownEvent::Capacity(Poll::Pending) => step matches Step::Return(Poll::Pending),
            ShutdownEvent::Capacity(Poll::Ready(Some(_))) => step matches Step::Perform(
                ShutdownAction::SendEnd,
            ),
            ShutdownEvent::Capacity(Poll::Ready(None)) => {
                &&& step matches Step::Return(Poll::Ready(Err(_)))
                &&& class == ErrorClass::BrokenPipe
                &&& text matches Some(t) && t@ == "broken pipe"@
            },
            ShutdownEvent::Sent(Ok(_)) => step matches Step::Return(Poll::Ready(Ok(_))),
            ShutdownEvent::Sent(Err(e)) => {
                &&& step matches Step::Return(Poll::Ready(Err(StreamError::Send(carried))))
                    && carried == e
                &&& class == ErrorClass::BrokenPipe
                &&& text is None
            },
        },
{
}

/// A flush is always done.
pub proof fn law_flush<E>(writer: &GrpcStream, polled: Poll<Result<(), StreamError<E>>>)
    requires
        call_ensures(GrpcStream::poll_flush::<E>, (writer,), polled),
    ensures
        polled matches Poll::Ready(Ok(_)),
{
}

/// Failures of the response and of a length are of no class of their own, and one to open the
/// window is a reset connection. None of them has a text of its own.
pub proof fn law_read_error_classes<E>(
    error: &StreamError<E>,
    class: ErrorClass,
    text: Option<&'static str>,
)
    requires
        call_ensures(StreamError::<E>::class, (error,), class),
        call_ensures(StreamError::<E>::text, (error,), text),
    ensures
        *error matches StreamError::Response(_) ==> class == ErrorClass::Other && text is None,
        *error matches StreamError::Decode(_) ==> class == ErrorClass::Other && text is None,
        *error matches StreamError::Release(_) ==> class == ErrorClass::ConnectionReset
            && text is None,
{
}

/// A new stream keeps nothing, is owed nothing, and asks for its response before all else.
pub proof fn law_new_stream<E>(
    framing: Framing,
    buffer_unit: usize,
    stream: &mut GrpcStream,
    dst: &mut ReadBuf<'_>,
    step: ReadStep<E>,
)
    requires
        call_ensures(GrpcStream::new, (framing, buffer_unit), *old(stream)),
        call_ensures(GrpcStream::poll_read::<E>, (stream, ReadEvent::Start, dst), step),
    ensures
        old(stream).spec_framing() == framing,
        old(stream).buffered().len() == 0,
        old(stream).owed() == 0,
        step matches Step::Perform(ReadAction::PollResponse),
        *final(stream) == *old(stream),
        *final(dst) == *old(dst),
{
}

/// Where there is no response or no data, nothing is read and nothing changes; the read waits,
/// fails with the failure at hand, or ends.
pub proof fn law_nothing_to_read<E>(
    stream: &mut GrpcStream,
    event: ReadEvent<E>,
    dst: &mut ReadBuf<'_>,
    step: ReadStep<E>,
)
    requires
        call_ensures(GrpcStream::poll_read::<E>, (stream, event, dst), step),
        match event {
            ReadEvent::Start => !old(stream).receiving(),
            ReadEvent::Response(polled) => !(polled matches Poll::Ready(Ok(_))),
            ReadEvent::Data(polled) => !(polled matches Poll::Ready(Some(Ok(_)))),
            ReadEvent::Released(_) => true,
        },
    ensures
        *final(stream) == *old(stream),
        *final(dst) == *old(dst),
        match event {
            ReadEvent::Start => step matches Step::Perform(ReadAction::PollResponse),
            ReadEvent::Response(Poll::Ready(Err(e))) => step matches Step::Return(
                Poll::Ready(Err(StreamError::Response(carried))),
            ) && carried == e,
            ReadEvent::Released(Err(e)) => step matches Step::Return(
                Poll::Ready(Err(StreamError::Release(carried))),
            ) && carried == e,
            ReadEvent::Response(Poll::Pending) | ReadEvent::Data(Poll::Pending) => step
                matches Step::Return(Poll::Pending),
            _ => step matches Step::Return(Poll::Ready(Ok(_))),
        },
{
}

/// What is kept comes first: once the response has come, a read moves as many kept bytes as there
/// is room for from the front of what is kept behind what is filled, and ends; they are owed no
/// more. Data is asked for only where nothing is kept, and nothing changes then.
pub proof fn law_kept_comes_first<E>(
    stream: &mut GrpcStream,
    event: ReadEvent<E>,
    dst: &mut ReadBuf<'_>,
    step: ReadStep<E>,
)
    requires
        call_ensures(GrpcStream::poll_read::<E>, (stream, event, dst), step),
        match event {
            ReadEvent::Start => old(stream).receiving(),
            ReadEvent::Response(polled) => polled matches Poll::Ready(Ok(_)),
            _ => false,
        },
        room(*old(dst)) >= 0,
    ensures
        final(stream).receiving(),
        final(stream).spec_framing() == old(stream).spec_framing(),
        read_capacity(*final(dst)) == read_capacity(*old(dst)),
        filled(*old(dst)).is_prefix_of(filled(*final(dst))),
        filled(*final(dst)) + final(stream).buffered() == filled(*old(dst))
            + old(stream).buffered(),
        final(stream).buffered().len() == 0 || room(*final(dst)) == 0,
        old(stream).owed() - final(stream).owed() == filled(*final(dst)).len() - filled(
            *old(dst),
        ).len(),
        if old(stream).buffered().len() > 0 {
            step matches Step::Return(Poll::Ready(Ok(_)))
        } else {
            step matches Step::Perform(ReadAction::PollData)
        },
{
    let n = min(room(*old(dst)), old(stream).buffered().len() as int);
    let kept = old(stream).buffered();
    if kept.len() > 0 {
        assert(filled(*old(dst)) + kept.take(n) + kept.skip(n) =~= filled(*old(dst)) + kept);
    }
}

/// Whether a read can go on is whether no more of what is kept goes into the reader's buffer than
/// is owed.
pub proof fn law_within_payload(stream: &GrpcStream, dst: &ReadBuf<'_>, within: bool)
    requires
        call_ensures(GrpcStream::is_within_payload, (stream, dst), within),
    ensures
        within <==> room(*dst) <= stream.owed() || stream.buffered().len() <= stream.owed(),
{
}

/// A step of a read that took the data of `frame`.
pub open spec fn takes<E>(
    stream: &mut GrpcStream,
    frame: Bytes,
    dst: &mut ReadBuf<'_>,
    step: ReadStep<E>,
) -> bool {
    call_ensures(
        GrpcStream::poll_read::<E>,
        (stream, ReadEvent::Data(Poll::Ready(Some(Ok(frame)))), dst),
        step,
    )
}

/// Payload that is owed is handed on from the front of the data, byte for byte, up to what is
/// owed, what came and what there is room for. Where that does not end the payload, all other
/// bytes are kept behind what is kept, and all of the data is taken from the peer's window.
pub proof fn law_owed_payload<E>(
    stream: &mut GrpcStream,
    frame: Bytes,
    dst: &mut ReadBuf<'_>,
    step: ReadStep<E>,
)
    requires
        takes(stream, frame, dst, step),
        old(stream).spec_framing() == Framing::Delimited,
        0 < old(stream).owed() <= usize::MAX,
        room(*old(dst)) >= 0,
    ensures
        ({
            let data = shared_bytes(frame);
            let owed = old(stream).owed() as int;
            let n = min(owed, min(data.len() as int, room(*old(dst))));
            &&& (filled(*old(dst)) + data.take(n)).is_prefix_of(filled(*final(dst)))
            &&& n < owed ==> {
                &&& filled(*final(dst)) == filled(*old(dst)) + data.take(n)
                &&& final(stream).buffered() == old(stream).buffered() + data.skip(n)
                &&& final(stream).owed() == owed - n
                &&& step matches Step::Perform(ReadAction::Release(used)) && used == data.len()
            }
        }),
        final(stream).receiving() == old(stream).receiving(),
        final(stream).spec_framing() == old(stream).spec_framing(),
        read_capacity(*final(dst)) == read_capacity(*old(dst)),
{
    let data = shared_bytes(frame);
    let owed = old(stream).owed();
    let space = room(*old(dst));
    let n = min(owed as int, min(data.len() as int, space));
    lemma_cut_within_payload(owed, data, n, space);
    let rest = reading((owed - n) as u64, data.skip(n), space - n);
    assert(filled(*old(dst)) + (data.take(n) + rest.delivered) =~= (filled(*old(dst)) + data.take(
        n,
    )) + rest.delivered);
    assert((filled(*old(dst)) + data.take(n)).is_prefix_of(filled(*final(dst))));
    if n < owed {
        assert(portion((owed - n) as u64, data.skip(n).len(), space - n) == 0);
        assert(data.take(n) + rest.delivered =~= data.take(n));
    }
}

/// Data may be cut anywhere in a payload: it gives the same whether it comes at once or in two
/// frames, of which the first ends where the payload does or before. The peer's window is opened
/// by as much.
pub proof fn law_cut_frame<E>(
    whole: (&mut GrpcStream, Bytes, &mut ReadBuf<'_>, ReadStep<E>),
    second: (&mut GrpcStream, Bytes, &mut ReadBuf<'_>, ReadStep<E>),
    n: int,
)
    requires
        takes(whole.0, whole.1, whole.2, whole.3),
        takes(second.0, second.1, second.2, second.3),
        old(whole.0).spec_framing() == Framing::Delimited,
        old(second.0).spec_framing() == Framing::Delimited,
        0 <= n <= old(whole.0).owed() <= usize::MAX,
        0 < old(whole.0).owed(),
        n <= shared_bytes(whole.1).len(),
        n <= room(*old(whole.2)),
        old(second.0).buffered() == old(whole.0).buffered(),
        old(second.0).owed() == old(whole.0).owed() - n,
        shared_bytes(second.1) == shared_bytes(whole.1).skip(n),
        filled(*old(second.2)) == filled(*old(whole.2)) + shared_bytes(whole.1).take(n),
        read_capacity(*old(second.2)) == read_capacity(*old(whole.2)),
    ensures
        filled(*final(second.2)) == filled(*final(whole.2)),
        final(second.0).buffered() == final(whole.0).buffered(),
        final(second.0).owed() == final(whole.0).owed(),
        match whole.3 {
            Step::Perform(ReadAction::Release(used)) => second.3 matches Step::Perform(
                ReadAction::Release(left),
            ) && used == n + left,
            Step::Return(Poll::Ready(Err(StreamError::Decode(_)))) => second.3 matches Step::Return(
                Poll::Ready(Err(StreamError::Decode(_))),
            ),
            _ => false,
        },
{
    let data = shared_bytes(whole.1);
    lemma_cut_within_payload(old(whole.0).owed(), data, n, room(*old(whole.2)));
    let rest = reading((old(whole.0).owed() - n) as u64, data.skip(n), room(*old(whole.2)) - n);
    assert(filled(*old(whole.2)) + (data.take(n) + rest.delivered) =~= filled(*old(whole.2)) + data.take(n)
        + rest.delivered);
}

/// Where no payload is owed, six bytes and a length stand in front of the next one: the data is
/// read as if the length were owed and the bytes behind it had come alone, whatever the six bytes
/// hold. An empty payload hands nothing on, and what is behind it is kept.
pub proof fn law_header_is_taken_off<E>(
    whole: (&mut GrpcStream, Bytes, &mut ReadBuf<'_>, ReadStep<E>),
    inner: (&mut GrpcStream, Bytes, &mut ReadBuf<'_>, ReadStep<E>),
    len: u64,
    size: int,
)
    requires
        takes(whole.0, whole.1, whole.2, whole.3),
        takes(inner.0, inner.1, inner.2, inner.3),
        old(whole.0).spec_framing() == Framing::Delimited,
        old(inner.0).spec_framing() == Framing::Delimited,
        old(whole.0).owed() == 0,
        shared_bytes(whole.1).len() > 6,
        decoded(shared_bytes(whole.1).skip(6)) == Some((len, size as nat)),
        size >= 0,
        old(inner.0).buffered() == old(whole.0).buffered(),
        old(inner.0).owed() == len,
        shared_bytes(inner.1) == shared_bytes(whole.1).skip(6 + size),
        filled(*old(inner.2)) == filled(*old(whole.2)),
        read_capacity(*old(inner.2)) == read_capacity(*old(whole.2)),
    ensures
        if len > 0 {
            &&& filled(*final(whole.2)) == filled(*final(inner.2))
            &&& final(whole.0).buffered() == final(inner.0).buffered()
            &&& final(whole.0).owed() == final(inner.0).owed()
            &&& match inner.3 {
                Step::Perform(ReadAction::Release(left)) => whole.3 matches Step::Perform(
                    ReadAction::Release(used),
                ) && used == 6 + size + left,
                Step::Return(Poll::Ready(Err(StreamError::Decode(_)))) => whole.3
                    matches Step::Return(Poll::Ready(Err(StreamError::Decode(_)))),
                _ => false,
            }
        } else {
            &&& filled(*final(whole.2)) == filled(*old(whole.2))
            &&& final(whole.0).buffered() == old(whole.0).buffered() + shared_bytes(inner.1)
            &&& final(whole.0).owed() == 0
            &&& whole.3 matches Step::Perform(ReadAction::Release(used)) && used == shared_bytes(
                whole.1,
            ).len()
        },
        final(whole.0).receiving() == old(whole.0).receiving(),
        final(whole.0).spec_framing() == old(whole.0).spec_framing(),
        read_capacity(*final(whole.2)) == read_capacity(*old(whole.2)),
{
    let data = shared_bytes(whole.1);
    law_decoded_within(data.skip(6));
    let body = data.skip(6 + size);
    assert(front(0, data) == Front::Payload(len, body));
    let space = room(*old(whole.2));
    if len > 0 {
        assert(reading(0, data, space) == reading(len, body, space));
    } else {
        assert(portion(0, body.len(), space) <= 0);
        let none = Seq::<u8>::empty();
        assert(filled(*old(whole.2)) + none =~= filled(*old(whole.2)));
    }
}

/// Where no payload is owed, data of six bytes or less is left alone, and so is data whose length
/// cannot be read, which is a failure.
pub proof fn law_no_length<E>(
    stream: &mut GrpcStream,
    frame: Bytes,
    dst: &mut ReadBuf<'_>,
    step: ReadStep<E>,
)
    requires
        takes(stream, frame, dst, step),
        old(stream).spec_framing() == Framing::Delimited,
        old(stream).owed() == 0,
        shared_bytes(frame).len() <= 6 || decoded(shared_bytes(frame).skip(6)) is None,
    ensures
        filled(*final(dst)) == filled(*old(dst)),
        read_capacity(*final(dst)) == read_capacity(*old(dst)),
        final(stream).buffered() == old(stream).buffered(),
        final(stream).owed() == 0,
        final(stream).receiving() == old(stream).receiving(),
        final(stream).spec_framing() == old(stream).spec_framing(),
        if shared_bytes(frame).len() <= 6 {
            step matches Step::Perform(ReadAction::Release(used)) && used == 0
        } else {
            step matches Step::Return(Poll::Ready(Err(StreamError::Decode(_))))
        },
{
    let none = Seq::<u8>::empty();
    assert(filled(*old(dst)) + none =~= filled(*old(dst)));
    assert(old(stream).buffered() + none =~= old(stream).buffered());
}

/// A stream whose messages have no length reads nothing of what it gets.
pub proof fn law_bare_stream<E>(
    stream: &mut GrpcStream,
    frame: Bytes,
    dst: &mut ReadBuf<'_>,
    step: ReadStep<E>,
)
    requires
        takes(stream, frame, dst, step),
        old(stream).spec_framing() == Framing::Bare,
    ensures
        filled(*final(dst)) == filled(*old(dst)),
        read_capacity(*final(dst)) == read_capacity(*old(dst)),
        final(stream).buffered() == old(stream).buffered(),
        final(stream).owed() == old(stream).owed(),
        final(stream).receiving() == old(stream).receiving(),
        final(stream).spec_framing() == Framing::Bare,
        step matches Step::Perform(ReadAction::Release(used)) && used == 0,
{
    let none = Seq::<u8>::empty();
    assert(filled(*old(dst)) + none =~= filled(*old(dst)));
    assert(old(stream).buffered() + none =~= old(stream).buffered());
}

/// Reading `data` hands on its first `n` bytes and goes on behind them, where these are owed and
/// there is room for them.
proof fn lemma_cut_within_payload(owed: u64, data: Seq<u8>, n: int, space: int)
    requires
        0 < owed <= usize::MAX,
        0 <= n <= owed,
        n <= data.len(),
        n <= space,
    ensures
        reading(owed, data, space).rests_on(
            data.take(n),
            reading((owed - n) as u64, data.skip(n), space - n),
        ),
{
    let all = portion(owed, data.len(), space);
    let none = Seq::<u8>::empty();
    let rest = reading((owed - n) as u64, data.skip(n), space - n);
    if n == 0 {
        assert(data.skip(0) =~= data);
        assert(none + rest.delivered =~= rest.delivered);
        assert(data.take(0) =~= none);
    } else if n < all {
        let last = reading((owed - all) as u64, data.skip(all), space - all);
        assert(data.skip(n).skip(all - n) =~= data.skip(all));
        assert(data.take(n) + (data.skip(n).take(all - n) + last.delivered) =~= data.take(all)
            + last.delivered);
    }
}

/// What is written is read: messages that `encode_buf` made, of data that is not empty, and that
/// come in one frame, behind what is still owed of a payload, put exactly the first bytes of what
/// is owed and of the data, one behind the other, into a buffer of any size, as many as there is
/// room for. Where there is room for all of them, nothing is kept or owed, and the whole frame is
/// taken from the peer's window.
pub proof fn law_encoded_is_read<E>(
    writer: &GrpcStream,
    data: Seq<&[u8]>,
    encoded: Seq<Bytes>,
    pending: Seq<u8>,
    stream: &mut GrpcStream,
    frame: Bytes,
    dst: &mut ReadBuf<'_>,
    step: ReadStep<E>,
)
    requires
        writer.spec_framing() == Framing::Delimited,
        encoded.len() == data.len(),
        forall|i: int|
            0 <= i < data.len() ==> call_ensures(
                GrpcStream::encode_buf,
                (writer, #[trigger] data[i]),
                encoded[i],
            ),
        forall|i: int| 0 <= i < data.len() ==> 0 < (#[trigger] data[i])@.len() <= usize::MAX,
        takes(stream, frame, dst, step),
        old(stream).spec_framing() == Framing::Delimited,
        old(stream).owed() == pending.len() <= usize::MAX,
        shared_bytes(frame) == pending + encoded.map_values(
            |sent: Bytes| shared_bytes(sent),
        ).flatten(),
        room(*old(dst)) >= 0,
    ensures
        ({
            let written = pending + data.map_values(|part: &[u8]| part@).flatten();
            let n = min(room(*old(dst)), written.len() as int);
            &&& filled(*final(dst)) == filled(*old(dst)) + written.take(n)
            &&& n == written.len() ==> {
                &&& final(stream).buffered() == old(stream).buffered()
                &&& final(stream).owed() == 0
                &&& step matches Step::Perform(ReadAction::Release(used)) && used
                    == shared_bytes(frame).len()
            }
        }),
{
    let none = Seq::<u8>::empty();
    let parts = data.map_values(|part: &[u8]| part@);
    let sent = encoded.map_values(|sent: Bytes| shared_bytes(sent));
    assert forall|i: int| 0 <= i < parts.len() implies 0 < (#[trigger] parts[i]).len()
        <= usize::MAX && sent[i] == message(Framing::Delimited, parts[i]) by {
        assert(parts[i] == data[i]@);
    }
    lemma_flattened(parts, sent);
    let space = room(*old(dst));
    let owed = old(stream).owed();
    let bytes = pending + messages(parts);
    let written = pending + joined(parts);
    let n = min(space, written.len() as int);
    let taken = reading(owed, bytes, space);
    if owed == 0 {
        assert(bytes =~= messages(parts));
        assert(written =~= joined(parts));
        lemma_parts_are_read(parts, space);
    } else {
        let k = min(space, owed as int);
        lemma_cut_within_payload(owed, bytes, k, space);
        let rest = reading((owed - k) as u64, bytes.skip(k), space - k);
        if k < owed {
            assert(portion((owed - k) as u64, bytes.skip(k).len(), 0) == 0);
            assert(written.take(n) =~= bytes.take(k) + none);
        } else {
            assert(bytes.skip(k) =~= messages(parts));
            lemma_parts_are_read(parts, space - k);
            let m = min(space - k, joined(parts).len() as int);
            assert(written.take(n) =~= bytes.take(k) + joined(parts).take(m));
        }
    }
    assert(taken.delivered =~= written.take(n));
    if n == written.len() {
        assert(old(stream).buffered() + taken.kept =~= old(stream).buffered());
    }
}

/// Messages and what they carry, joined part by part.
proof fn lemma_flattened(parts: Seq<Seq<u8>>, sent: Seq<Seq<u8>>)
    requires
        sent.len() == parts.len(),
        forall|i: int|
            0 <= i < parts.len() ==> sent[i] == message(Framing::Delimited, #[trigger] parts[i]),
    ensures
        parts.flatten() == joined(parts),
        sent.flatten() == messages(parts),
    decreases parts.len(),
{
    if parts.len() > 0 {
        let others = parts.skip(1);
        assert(parts.drop_first() =~= others);
        assert(sent.drop_first() =~= sent.skip(1));
        assert forall|i: int| 0 <= i < others.len() implies sent.skip(1)[i] == message(
            Framing::Delimited,
            #[trigger] others[i],
        ) by {
            assert(others[i] == parts[i + 1]);
        }
        lemma_flattened(others, sent.skip(1));
        assert(parts[0] == parts.first());
    }
}

/// Messages that are not empty are read from the front, as far as there is room.
proof fn lemma_parts_are_read(parts: Seq<Seq<u8>>, space: int)
    requires
        forall|i: int| 0 <= i < parts.len() ==> 0 < (#[trigger] parts[i]).len() <= usize::MAX,
        space >= 0,
    ensures
        ({
            let taken = reading(0, messages(parts), space);
            let total = joined(parts).len() as int;
            &&& taken.ok
            &&& taken.delivered == joined(parts).take(min(space, total))
            &&& taken.unread.len() == 0
            &&& space >= total ==> taken.kept.len() == 0 && taken.payload_len == 0
        }),
    decreases parts.len(),
{
    let none = Seq::<u8>::empty();
    if parts.len() > 0 {
        let first = parts[0];
        let others = parts.skip(1);
        assert forall|i: int| 0 <= i < others.len() implies 0 < (#[trigger] others[i]).len()
            <= usize::MAX by {
            assert(others[i] == parts[i + 1]);
        }
        let behind = messages(others);
        let body = first + behind;
        let owed = first.len() as u64;
        lemma_message_front(first, behind);
        assert(reading(0, messages(parts), space) == reading(owed, body, space));
        let k = min(space, first.len() as int);
        lemma_cut_within_payload(owed, body, k, space);
        let rest = reading((owed - k) as u64, body.skip(k), space - k);
        let total = joined(parts).len() as int;
        if k < first.len() {
            assert(portion((owed - k) as u64, body.skip(k).len(), 0) == 0);
            assert(body.take(k) + none =~= joined(parts).take(min(space, total)));
        } else {
            assert(body.skip(k) =~= behind);
            lemma_parts_are_read(others, space - k);
            let m = min(space - k, joined(others).len() as int);
            assert(body.take(k) + joined(others).take(m) =~= joined(parts).take(
                min(space, total),
            ));
        }
    } else {
        assert(joined(parts).take(0) =~= none);
    }
}

} // verus!
