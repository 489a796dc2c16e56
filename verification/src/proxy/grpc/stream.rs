//! The byte stream inside one gRPC call.
use super::frame::{
    be32, cuts_no_header, frame_reading, front, joined, law_message_read_back, law_piece_read_back,
    law_reading_bounded, law_unframed, lemma_message_start, lemma_piece_of_messages,
    lemma_unframed_start, length_field, message, messages, outstanding, portion, reading, start_len,
    unframed, Framing, Front, HEADER_LEN, PAYLOAD_TAG,
};
use crate::buffers::{
    advance, append, append_byte, filled, max_len, mut_bytes, mut_slice, overwrite, read_capacity,
    room, shared_bytes, shared_slice,
};
use crate::step::Step;
use crate::varint::{decode_varint, decoded, encode_varint, law_decoded_within, law_varint_len};
use bytes::{Bytes, BytesMut};
use prost::DecodeError;
use std::task::Poll;
use tokio::io::ReadBuf;
use vstd::prelude::*;
use vstd::slice::slice_subrange;

verus! {

/// Why a read or a write failed; `E` is the error of the HTTP/2 layer.
pub enum StreamError<E> {
    /// The response never came.
    Response(E),
    /// The length of a received message cannot be read.
    Decode(DecodeError),
    /// The peer's window could not be opened again.
    Release(E),
    /// The stream takes no more data.
    Closed,
    /// A message could not be sent.
    Send(E),
}

/// The class of an error, as the standard library's I/O errors name it.
#[derive(Clone, Copy, Debug, PartialEq, Eq, Structural)]
pub enum ErrorClass {
    BrokenPipe,
    ConnectionReset,
    Other,
}

impl<E> StreamError<E> {
    /// The class that the error is reported under.
    pub open spec fn spec_class(&self) -> ErrorClass {
        match self {
            StreamError::Response(_) | StreamError::Decode(_) => ErrorClass::Other,
            StreamError::Release(_) => ErrorClass::ConnectionReset,
            StreamError::Closed | StreamError::Send(_) => ErrorClass::BrokenPipe,
        }
    }

    /// The class that the error is reported under.
    pub fn class(&self) -> (r: ErrorClass)
        ensures
            r == self.spec_class(),
    {
        match self {
            StreamError::Response(_) | StreamError::Decode(_) => ErrorClass::Other,
            StreamError::Release(_) => ErrorClass::ConnectionReset,
            StreamError::Closed | StreamError::Send(_) => ErrorClass::BrokenPipe,
        }
    }

    /// The text of an error that no other error is behind.
    pub open spec fn spec_text(&self) -> Option<Seq<char>> {
        match self {
            StreamError::Closed => Some("broken pipe"@),
            _ => None,
        }
    }

    /// The text of an error that no other error is behind.
    pub fn text(&self) -> (r: Option<&'static str>)
        ensures
            match r {
                Some(text) => self.spec_text() == Some(text@),
                None => self.spec_text() is None,
            },
    {
        match self {
            StreamError::Closed => Some("broken pipe"),
            _ => None,
        }
    }
}

/// What happened before a step of a read.
pub enum ReadEvent<E> {
    /// The read begins.
    Start,
    /// The response was polled for.
    Response(Poll<Result<(), E>>),
    /// The body was polled for data.
    Data(Poll<Option<Result<Bytes, E>>>),
    /// The peer's window was opened by as much as was asked.
    Released(Result<(), E>),
}

impl<E> ReadEvent<E> {
    /// Whether the event lets a stream read what it keeps, where `receiving` says whether the
    /// response had come before.
    pub open spec fn resumes(self, receiving: bool) -> bool {
        match self {
            ReadEvent::Start => receiving,
            ReadEvent::Response(polled) => polled matches Poll::Ready(Ok(_)),
            _ => false,
        }
    }
}

/// What a read asks for.
pub enum ReadAction {
    /// Poll for the response.
    PollResponse,
    /// Poll the body for data.
    PollData,
    /// Open the peer's window by this many bytes.
    Release(usize),
}

/// What happened before a step of a write.
pub enum WriteEvent<E> {
    /// The write begins.
    Start,
    /// The capacity to send was polled for.
    Capacity(Poll<Option<Result<usize, E>>>),
    /// The message was sent, on a capacity of `granted`.
    Sent { granted: usize, outcome: Result<(), E> },
}

/// What a write asks for.
pub enum WriteAction {
    /// Reserve capacity for this many bytes.
    Reserve(usize),
    /// Send the message, and report how it went together with `granted`.
    Send { message: Bytes, granted: usize },
}

/// What happened before a step of a shutdown.
pub enum ShutdownEvent<E> {
    /// The shutdown begins.
    Start,
    /// The capacity to send was polled for.
    Capacity(Poll<Option<Result<usize, E>>>),
    /// The end of the stream was sent.
    Sent(Result<(), E>),
}

/// What a shutdown asks for.
pub enum ShutdownAction {
    /// Reserve capacity for this many bytes.
    Reserve(usize),
    /// Send no data, and mark the end of the stream.
    SendEnd,
}

/// One gRPC call as a stream of bytes: what was received and not yet read, and how much of the
/// current payload is still owed.
pub struct GrpcStream {
    recv: bool,
    buffer: BytesMut,
    payload_len: u64,
    framing: Framing,
}

impl GrpcStream {
    /// Whether the response has come.
    pub closed spec fn receiving(&self) -> bool {
        self.recv
    }

    /// The bytes received and not yet read.
    pub closed spec fn buffered(&self) -> Seq<u8> {
        mut_bytes(self.buffer)
    }

    /// How much of the current payload is owed.
    pub closed spec fn owed(&self) -> u64 {
        self.payload_len
    }

    /// How payloads are framed.
    pub closed spec fn spec_framing(&self) -> Framing {
        self.framing
    }

    /// How many of the bytes kept from before a read into `dst` takes.
    pub open spec fn ready_len(&self, dst: ReadBuf<'_>) -> int {
        if room(dst) <= self.buffered().len() {
            room(dst)
        } else {
            self.buffered().len() as int
        }
    }

    /// Whether the bytes kept from before that a read into `dst` takes are all owed.
    pub open spec fn within_payload(&self, dst: ReadBuf<'_>) -> bool {
        self.ready_len(dst) <= self.owed()
    }

    /// `after` and `dst_after` are what a read of the bytes kept from before makes of `self` and
    /// `dst`: the bytes that fit are handed on, and are no longer owed.
    pub open spec fn buffered_read(
        &self,
        after: Self,
        dst: ReadBuf<'_>,
        dst_after: ReadBuf<'_>,
    ) -> bool {
        &&& after.spec_framing() == self.spec_framing()
        &&& after.buffered() == self.buffered().skip(self.ready_len(dst))
        &&& after.owed() == self.owed() - self.ready_len(dst)
        &&& filled(dst_after) == filled(dst) + self.buffered().take(self.ready_len(dst))
        &&& read_capacity(dst_after) == read_capacity(dst)
    }

    /// `after`, `dst_after` and `step` are what a read makes of `self` and `dst` once the
    /// response has come: the bytes kept from before are read, or, where there are none, data is
    /// asked for.
    pub open spec fn read_on<E>(
        &self,
        after: Self,
        dst: ReadBuf<'_>,
        dst_after: ReadBuf<'_>,
        step: Step<ReadAction, Poll<Result<(), StreamError<E>>>>,
    ) -> bool {
        &&& after.receiving()
        &&& if self.buffered().len() > 0 {
            &&& step matches Step::Return(Poll::Ready(Ok(_)))
            &&& self.buffered_read(after, dst, dst_after)
        } else {
            &&& step matches Step::Perform(ReadAction::PollData)
            &&& after.buffered() == self.buffered()
            &&& after.owed() == self.owed()
            &&& after.spec_framing() == self.spec_framing()
            &&& dst_after == dst
        }
    }

    /// `after` and `dst_after` are what the received `data` makes of `self` and `dst`: payload is
    /// handed on and kept.
    pub open spec fn frame_taken(
        &self,
        data: Seq<u8>,
        after: Self,
        dst: ReadBuf<'_>,
        dst_after: ReadBuf<'_>,
    ) -> bool {
        let reading = frame_reading(self.spec_framing(), self.owed(), data, room(dst));
        &&& after.receiving() == self.receiving()
        &&& after.spec_framing() == self.spec_framing()
        &&& after.buffered() == self.buffered() + reading.kept
        &&& after.owed() == reading.payload_len
        &&& filled(dst_after) == filled(dst) + reading.delivered
        &&& read_capacity(dst_after) == read_capacity(dst)
    }

    /// `after`, `dst_after` and `step` are what the received `data` makes of `self` and `dst`:
    /// payload is handed on and kept, and the peer's window is opened by what was used; where a
    /// length cannot be read, what came before it has been handed on all the same.
    pub open spec fn frame_read<E>(
        &self,
        data: Seq<u8>,
        after: Self,
        dst: ReadBuf<'_>,
        dst_after: ReadBuf<'_>,
        step: Step<ReadAction, Poll<Result<(), StreamError<E>>>>,
    ) -> bool {
        let reading = frame_reading(self.spec_framing(), self.owed(), data, room(dst));
        &&& self.frame_taken(data, after, dst, dst_after)
        &&& if reading.ok {
            step matches Step::Perform(ReadAction::Release(n)) && n == data.len()
                - reading.unread.len()
        } else {
            step matches Step::Return(Poll::Ready(Err(StreamError::Decode(_))))
        }
    }

    /// A stream whose response has not come. Its buffer is allocated for four times
    /// `buffer_unit` bytes, of which the contract does not speak.
    pub fn new(framing: Framing, buffer_unit: usize) -> (r: Self)
        requires
            buffer_unit * 4 <= max_len(),
        ensures
            !r.receiving(),
            r.buffered() == Seq::<u8>::empty(),
            r.owed() == 0,
            r.spec_framing() == framing,
    {
        GrpcStream {
            recv: false,
            buffer: BytesMut::with_capacity(buffer_unit * 4),
            payload_len: 0,
            framing,
        }
    }

    /// The capacity to reserve for sending `data`: the length of the message that carries it.
    pub fn reserve_send_capacity(&self, data: &[u8]) -> (r: usize)
        requires
            data@.len() + 16 <= usize::MAX,
        ensures
            r == message(self.spec_framing(), data@).len(),
    {
        let mut field = BytesMut::with_capacity(10);
        if let Framing::Delimited = self.framing {
            encode_varint(data.len() as u64, &mut field);
        }
        proof {
            law_varint_len(data@.len() as u64);
        }
        HEADER_LEN + field.len() + data.len()
    }

    /// The message that carries `data`.
    pub fn encode_buf(&self, data: &[u8]) -> (r: Bytes)
        requires
            data@.len() + 16 <= max_len(),
        ensures
            shared_bytes(r) == message(self.spec_framing(), data@),
    {
        let mut buf = BytesMut::with_capacity(16 + data.len());
        let grpc_header: [u8; 5] = [0u8; 5];
        append(&mut buf, grpc_header.as_slice());
        append_byte(&mut buf, PAYLOAD_TAG);
        proof {
            law_varint_len(data@.len() as u64);
        }
        if let Framing::Delimited = self.framing {
            encode_varint(data.len() as u64, &mut buf);
        }
        let ghost field = seq![PAYLOAD_TAG] + length_field(self.framing, data@.len());
        assert(mut_bytes(buf) =~= grpc_header@ + field);
        let payload_len: [u8; 4] = be_bytes(buf.len() - 5 + data.len());
        overwrite(&mut buf, 1, payload_len.as_slice());
        assert(mut_bytes(buf) =~= seq![0u8] + be32(field.len() + data@.len()) + field);
        append(&mut buf, data);
        buf.freeze()
    }

    /// Whether the bytes kept from before that a read into `dst` takes are all owed. It is so as
    /// long as no message came together with the end of the one before it; where it is not, the
    /// stream cannot be read on.
    pub fn is_within_payload(&self, dst: &ReadBuf<'_>) -> (r: bool)
        ensures
            r == self.within_payload(*dst),
    {
        let ready: usize = least(dst.remaining(), self.buffer.len());
        ready as u64 <= self.payload_len
    }

    /// A step of reading into `dst`: the response is awaited first; then bytes kept from before
    /// are handed on, or, where there are none, the payload of the next data is.
    pub fn poll_read<E>(&mut self, event: ReadEvent<E>, dst: &mut ReadBuf<'_>) -> (r: Step<
        ReadAction,
        Poll<Result<(), StreamError<E>>>,
    >)
        requires
            event.resumes(old(self).receiving()) ==> old(self).within_payload(*old(dst)),
            event matches ReadEvent::Data(Poll::Ready(Some(Ok(data)))) ==> old(
                self,
            ).buffered().len() + shared_bytes(data).len() <= max_len(),
        ensures
            match event {
                ReadEvent::Start => if old(self).receiving() {
                    old(self).read_on(*final(self), *old(dst), *final(dst), r)
                } else {
                    &&& r matches Step::Perform(ReadAction::PollResponse)
                    &&& *final(self) == *old(self)
                    &&& *final(dst) == *old(dst)
                },
                ReadEvent::Response(Poll::Ready(Ok(_))) => old(self).read_on(
                    *final(self),
                    *old(dst),
                    *final(dst),
                    r,
                ),
                ReadEvent::Data(Poll::Ready(Some(Ok(data)))) => old(self).frame_read(
                    shared_bytes(data),
                    *final(self),
                    *old(dst),
                    *final(dst),
                    r,
                ),
                _ => {
                    &&& *final(self) == *old(self)
                    &&& *final(dst) == *old(dst)
                    &&& r == Step::<ReadAction, _>::Return(
                        match event {
                            ReadEvent::Response(Poll::Ready(Err(e))) => Poll::Ready(
                                Err(StreamError::Response(e)),
                            ),
                            ReadEvent::Released(Err(e)) => Poll::Ready(
                                Err(StreamError::Release(e)),
                            ),
                            ReadEvent::Response(Poll::Pending)
                            | ReadEvent::Data(Poll::Pending) => Poll::Pending,
                            _ => Poll::Ready(Ok(())),
                        },
                    )
                },
            },
    {
        match event {
            ReadEvent::Start => {
                if !self.recv {
                    return Step::Perform(ReadAction::PollResponse);
                }
                self.resume(dst)
            },
            ReadEvent::Response(Poll::Pending) => Step::Return(Poll::Pending),
            ReadEvent::Response(Poll::Ready(Err(e))) => Step::Return(
                Poll::Ready(Err(StreamError::Response(e))),
            ),
            ReadEvent::Response(Poll::Ready(Ok(()))) => {
                self.recv = true;
                assert(self.ready_len(*dst) == old(self).ready_len(*dst));
                self.resume(dst)
            },
            ReadEvent::Data(Poll::Pending) => Step::Return(Poll::Pending),
            ReadEvent::Data(Poll::Ready(Some(Ok(data)))) => {
                let mut data = data;
                let before: usize = data.len();
                proof {
                    law_reading_bounded(
                        self.framing,
                        self.payload_len,
                        shared_bytes(data),
                        room(*dst),
                    );
                }
                if let Framing::Delimited = self.framing {
                    match self.read_frame(&mut data, dst) {
                        Ok(()) => {},
                        Err(e) => {
                            return Step::Return(Poll::Ready(Err(StreamError::Decode(e))));
                        },
                    }
                }
                Step::Perform(ReadAction::Release(before - data.len()))
            },
            ReadEvent::Data(Poll::Ready(_)) => Step::Return(Poll::Ready(Ok(()))),
            ReadEvent::Released(Ok(())) => Step::Return(Poll::Ready(Ok(()))),
            ReadEvent::Released(Err(e)) => Step::Return(
                Poll::Ready(Err(StreamError::Release(e))),
            ),
        }
    }

    /// A step of writing `buf`: capacity for the message is reserved, and the message is sent as
    /// soon as some is granted. The number of bytes reported as written is the capacity that
    /// was granted.
    pub fn poll_write<E>(&self, buf: &[u8], event: WriteEvent<E>) -> (r: Step<
        WriteAction,
        Poll<Result<usize, StreamError<E>>>,
    >)
        requires
            buf@.len() + 16 <= max_len(),
        ensures
            match event {
                WriteEvent::Start => r matches Step::Perform(WriteAction::Reserve(n)) && n
                    == message(self.spec_framing(), buf@).len(),
                WriteEvent::Capacity(Poll::Ready(Some(Ok(granted)))) => {
                    &&& r matches Step::Perform(
                        WriteAction::Send { message: sent, granted: reported },
                    )
                    &&& shared_bytes(sent) == message(self.spec_framing(), buf@)
                    &&& reported == granted
                },
                WriteEvent::Capacity(polled) => r == Step::<WriteAction, _>::Return(
                    if polled is Pending {
                        Poll::Pending
                    } else {
                        Poll::Ready(Err::<usize, _>(StreamError::<E>::Closed))
                    },
                ),
                WriteEvent::Sent { granted, outcome } => r == Step::<WriteAction, _>::Return(
                    Poll::Ready(
                        match outcome {
                            Ok(_) => Ok(granted),
                            Err(e) => Err(StreamError::Send(e)),
                        },
                    ),
                ),
            },
    {
        match event {
            WriteEvent::Start => Step::Perform(
                WriteAction::Reserve(self.reserve_send_capacity(buf)),
            ),
            WriteEvent::Capacity(Poll::Pending) => Step::Return(Poll::Pending),
            WriteEvent::Capacity(Poll::Ready(Some(Ok(granted)))) => {
                let message = self.encode_buf(buf);
                Step::Perform(WriteAction::Send { message, granted })
            },
            WriteEvent::Capacity(Poll::Ready(_)) => Step::Return(
                Poll::Ready(Err(StreamError::Closed)),
            ),
            WriteEvent::Sent { granted, outcome: Ok(()) } => Step::Return(
                Poll::Ready(Ok(granted)),
            ),
            WriteEvent::Sent { outcome: Err(e), .. } => Step::Return(
                Poll::Ready(Err(StreamError::Send(e))),
            ),
        }
    }

    /// Flushing is done at once: a message is handed to the HTTP/2 layer when it is written.
    pub fn poll_flush<E>(&self) -> (r: Poll<Result<(), StreamError<E>>>)
        ensures
            r == Poll::Ready(Ok::<(), StreamError<E>>(())),
    {
        Poll::Ready(Ok(()))
    }

    /// A step of shutting the stream down: its end is sent once the HTTP/2 layer answers for its
    /// capacity, even where it answers with an error.
    pub fn poll_shutdown<E>(&self, event: ShutdownEvent<E>) -> (r: Step<
        ShutdownAction,
        Poll<Result<(), StreamError<E>>>,
    >)
        ensures
            match event {
                ShutdownEvent::Start => r == Step::<
                    _,
                    Poll<Result<(), StreamError<E>>>,
                >::Perform(ShutdownAction::Reserve(0)),
                ShutdownEvent::Capacity(Poll::Ready(Some(_))) => r == Step::<
                    _,
                    Poll<Result<(), StreamError<E>>>,
                >::Perform(ShutdownAction::SendEnd),
                ShutdownEvent::Capacity(polled) => r == Step::<ShutdownAction, _>::Return(
                    if polled is Pending {
                        Poll::Pending
                    } else {
                        Poll::Ready(Err::<(), _>(StreamError::<E>::Closed))
                    },
                ),
                ShutdownEvent::Sent(outcome) => r == Step::<ShutdownAction, _>::Return(
                    Poll::Ready(
                        match outcome {
                            Ok(_) => Ok(()),
                            Err(e) => Err(StreamError::Send(e)),
                        },
                    ),
                ),
            },
    {
        match event {
            ShutdownEvent::Start => Step::Perform(ShutdownAction::Reserve(0)),
            ShutdownEvent::Capacity(Poll::Pending) => Step::Return(Poll::Pending),
            ShutdownEvent::Capacity(Poll::Ready(None)) => Step::Return(
                Poll::Ready(Err(StreamError::Closed)),
            ),
            ShutdownEvent::Capacity(Poll::Ready(Some(_))) => Step::Perform(
                ShutdownAction::SendEnd,
            ),
            ShutdownEvent::Sent(Ok(())) => Step::Return(Poll::Ready(Ok(()))),
            ShutdownEvent::Sent(Err(e)) => Step::Return(
                Poll::Ready(Err(StreamError::Send(e))),
            ),
        }
    }

    /// Reads on once the response has come.
    fn resume<E>(&mut self, dst: &mut ReadBuf<'_>) -> (r: Step<
        ReadAction,
        Poll<Result<(), StreamError<E>>>,
    >)
        requires
            old(self).receiving(),
            old(self).within_payload(*old(dst)),
        ensures
            old(self).read_on(*final(self), *old(dst), *final(dst), r),
    {
        if !self.buffer.is_empty() {
            self.read_buffered(dst);
            return Step::Return(Poll::Ready(Ok(())));
        }
        Step::Perform(ReadAction::PollData)
    }

    /// Hands bytes kept from before on to `dst`, as many as it has room for.
    fn read_buffered(&mut self, dst: &mut ReadBuf<'_>)
        requires
            old(self).within_payload(*old(dst)),
        ensures
            final(self).receiving() == old(self).receiving(),
            old(self).buffered_read(*final(self), *old(dst), *final(dst)),
    {
        let to_read: usize = least(dst.remaining(), self.buffer.len());
        let data = self.buffer.split_to(to_read);
        self.payload_len -= to_read as u64;
        dst.put_slice(slice_subrange(mut_slice(&data), 0, to_read));
        assert(mut_bytes(data).subrange(0, to_read as int) =~= mut_bytes(data));
    }

    /// Reads the header of the next message off `data` where no payload is owed.
    fn open_payload(&mut self, data: &mut Bytes) -> (r: Result<(), DecodeError>)
        requires
            !(front(old(self).owed(), shared_bytes(*old(data))) is Short),
        ensures
            final(self).receiving() == old(self).receiving(),
            final(self).spec_framing() == old(self).spec_framing(),
            final(self).buffered() == old(self).buffered(),
            match front(old(self).owed(), shared_bytes(*old(data))) {
                Front::Payload(owed, body) => r is Ok && final(self).owed() == owed
                    && shared_bytes(*final(data)) == body,
                _ => r is Err && final(self).owed() == old(self).owed(),
            },
            r is Ok ==> shared_bytes(*final(data)).len() <= shared_bytes(*old(data)).len(),
    {
        if self.payload_len == 0 {
            let ghost tail = shared_bytes(*data).skip(HEADER_LEN as int);
            advance(data, HEADER_LEN);
            match decode_varint(data) {
                Ok(len) => {
                    self.payload_len = len;
                },
                Err(e) => {
                    return Err(e);
                },
            }
            proof {
                law_decoded_within(tail);
                if let Some((_, n)) = decoded(tail) {
                    assert(tail.skip(n as int) =~= shared_bytes(*old(data)).skip(HEADER_LEN + n));
                }
            }
        }
        Ok(())
    }

    /// Hands the payload in `data` on to `dst`, and keeps what it has no room for. What is left
    /// in `data` was not used.
    fn read_frame(&mut self, data: &mut Bytes, dst: &mut ReadBuf<'_>) -> (r: Result<
        (),
        DecodeError,
    >)
        requires
            old(self).buffered().len() + shared_bytes(*old(data)).len() <= max_len(),
        ensures
            final(self).receiving() == old(self).receiving(),
            final(self).spec_framing() == old(self).spec_framing(),
            read_capacity(*final(dst)) == read_capacity(*old(dst)),
            ({
                let reading = reading(
                    old(self).owed(),
                    shared_bytes(*old(data)),
                    room(*old(dst)),
                );
                &&& r is Ok <==> reading.ok
                &&& filled(*final(dst)) == filled(*old(dst)) + reading.delivered
                &&& final(self).buffered() == old(self).buffered() + reading.kept
                &&& final(self).owed() == reading.payload_len
                &&& r is Ok ==> shared_bytes(*final(data)) == reading.unread
            }),
    {
        let ghost whole = reading(self.payload_len, shared_bytes(*data), room(*dst));
        let ghost mut delivered = Seq::<u8>::empty();
        assert(filled(*dst) =~= filled(*old(dst)) + delivered);
        assert(whole.delivered =~= delivered + whole.delivered);
        while self.payload_len > 0 || data.len() > HEADER_LEN
            invariant_except_break
                self.buffered() == old(self).buffered(),
                self.buffered().len() + shared_bytes(*data).len() <= max_len(),
                filled(*dst) == filled(*old(dst)) + delivered,
                whole.rests_on(
                    delivered,
                    reading(self.payload_len, shared_bytes(*data), room(*dst)),
                ),
            invariant
                self.receiving() == old(self).receiving(),
                self.spec_framing() == old(self).spec_framing(),
                read_capacity(*dst) == read_capacity(*old(dst)),
                whole == reading(old(self).owed(), shared_bytes(*old(data)), room(*old(dst))),
            ensures
                whole.ok,
                filled(*dst) == filled(*old(dst)) + whole.delivered,
                self.buffered() == old(self).buffered() + whole.kept,
                self.owed() == whole.payload_len,
                shared_bytes(*data) == whole.unread,
            decreases shared_bytes(*data).len(),
        {
            let ghost rest = reading(self.payload_len, shared_bytes(*data), room(*dst));
            match self.open_payload(data) {
                Ok(()) => {},
                Err(e) => {
                    return Err(e);
                },
            }
            proof {
                lemma_truncated(self.payload_len);
            }
            let fits: usize = least(dst.remaining(), data.len());
            let to_read: usize = least(self.payload_len as usize, fits);
            let ghost body = shared_bytes(*data);
            assert(to_read == portion(self.payload_len, body.len(), room(*dst)));
            if to_read == 0 {
                self.buffer.extend_from_slice(shared_slice(data));
                data.clear();
                break;
            }
            dst.put_slice(slice_subrange(shared_slice(data), 0, to_read));
            self.payload_len -= to_read as u64;
            advance(data, to_read);
            proof {
                let chunk = body.take(to_read as int);
                let last = reading(self.payload_len, shared_bytes(*data), room(*dst));
                assert(body.subrange(0, to_read as int) =~= chunk);
                assert(rest.rests_on(chunk, last));
                assert(delivered + (chunk + last.delivered) =~= (delivered + chunk)
                    + last.delivered);
                assert(filled(*old(dst)) + delivered + chunk =~= filled(*old(dst)) + (delivered
                    + chunk));
                delivered = delivered + chunk;
            }
        }
        Ok(())
    }
}

/// Reading gives back what was written: where a stream has nothing left over, a received message
/// puts the first of its bytes into the reader's buffer and keeps the others, in order, and the
/// whole message is taken from the peer's window.
pub proof fn law_written_is_read<E>(
    before: GrpcStream,
    data: Seq<u8>,
    after: GrpcStream,
    dst: ReadBuf<'_>,
    dst_after: ReadBuf<'_>,
    step: Step<ReadAction, Poll<Result<(), StreamError<E>>>>,
)
    requires
        before.spec_framing() == Framing::Delimited,
        before.buffered().len() == 0,
        before.owed() == 0,
        data.len() <= usize::MAX,
        room(dst) >= 0,
        before.frame_read(
            message(before.spec_framing(), data),
            after,
            dst,
            dst_after,
            step,
        ),
    ensures
        filled(dst_after) + after.buffered() == filled(dst) + data,
        after.buffered().len() == 0 || room(dst_after) == 0,
        after.owed() == after.buffered().len(),
        step matches Step::Perform(ReadAction::Release(n)) && n == message(
            before.spec_framing(),
            data,
        ).len(),
{
    law_message_read_back(data, room(dst));
    let n = if room(dst) <= data.len() {
        room(dst)
    } else {
        data.len() as int
    };
    assert(before.buffered() + data.skip(n) =~= data.skip(n));
    assert(filled(dst) + data.take(n) + data.skip(n) =~= filled(dst) + data);
}

/// A message may come in pieces: received bytes that do not reach beyond the current payload
/// follow each other into the reader's buffer and what is kept, and the kept bytes stay owed.
pub proof fn law_piece_is_read<E>(
    before: GrpcStream,
    data: Seq<u8>,
    after: GrpcStream,
    dst: ReadBuf<'_>,
    dst_after: ReadBuf<'_>,
    step: Step<ReadAction, Poll<Result<(), StreamError<E>>>>,
)
    requires
        before.spec_framing() == Framing::Delimited,
        before.buffered().len() == 0,
        front(before.owed(), data) matches Front::Payload(owed, body) && body.len() <= owed
            <= usize::MAX,
        room(dst) >= 0,
        before.frame_read(data, after, dst, dst_after, step),
    ensures
        front(before.owed(), data) matches Front::Payload(owed, body) && {
            &&& filled(dst_after) + after.buffered() == filled(dst) + body
            &&& after.buffered().len() == 0 || room(dst_after) == 0
            &&& after.owed() - after.buffered().len() == owed - body.len()
            &&& step matches Step::Perform(ReadAction::Release(n)) && n == data.len()
        },
{
    law_piece_read_back(before.owed(), data, room(dst));
    if let Front::Payload(owed, body) = front(before.owed(), data) {
        let n = if room(dst) <= body.len() {
            room(dst)
        } else {
            body.len() as int
        };
        assert(before.buffered() + body.skip(n) =~= body.skip(n));
        assert(filled(dst) + body.take(n) + body.skip(n) =~= filled(dst) + body);
    }
}

/// Reading on loses nothing and changes no order: what a stream keeps moves into the reader's
/// buffer from the front, and what is owed beyond it stays the same.
pub proof fn law_kept_is_read(
    before: GrpcStream,
    after: GrpcStream,
    dst: ReadBuf<'_>,
    dst_after: ReadBuf<'_>,
)
    requires
        before.buffered_read(after, dst, dst_after),
        room(dst) >= 0,
    ensures
        filled(dst_after) + after.buffered() == filled(dst) + before.buffered(),
        after.buffered().len() == 0 || room(dst_after) == 0,
        after.owed() - after.buffered().len() == before.owed() - before.buffered().len(),
{
    let n = before.ready_len(dst);
    assert(filled(dst) + before.buffered().take(n) + before.buffered().skip(n) =~= filled(dst)
        + before.buffered());
}

/// However many reads it takes, into buffers of whatever size: what they put into the empty
/// buffers, one behind the other, and what is then still kept, is what was kept at first.
pub proof fn law_reads_follow_each_other(
    streams: Seq<GrpcStream>,
    given: Seq<ReadBuf<'_>>,
    got: Seq<ReadBuf<'_>>,
)
    requires
        streams.len() == given.len() + 1,
        given.len() == got.len(),
        forall|i: int| 0 <= i < given.len() ==> room(#[trigger] given[i]) >= 0,
        forall|i: int| 0 <= i < given.len() ==> filled(#[trigger] given[i]).len() == 0,
        forall|i: int|
            0 <= i < given.len() ==> streams[i].buffered_read(
                streams[i + 1],
                #[trigger] given[i],
                got[i],
            ),
    ensures
        joined(got.map_values(|dst: ReadBuf<'_>| filled(dst))) + streams.last().buffered()
            == streams[0].buffered(),
        streams.last().owed() - streams.last().buffered().len() == streams[0].owed()
            - streams[0].buffered().len(),
    decreases given.len(),
{
    let parts = got.map_values(|dst: ReadBuf<'_>| filled(dst));
    if given.len() == 0 {
        assert(joined(parts) + streams.last().buffered() =~= streams[0].buffered());
    } else {
        let rest = streams.skip(1);
        assert forall|i: int| 0 <= i < given.skip(1).len() implies rest[i].buffered_read(
            rest[i + 1],
            #[trigger] given.skip(1)[i],
            got.skip(1)[i],
        ) by {
            assert(given.skip(1)[i] == given[i + 1]);
        }
        law_reads_follow_each_other(rest, given.skip(1), got.skip(1));
        assert(streams[0].buffered_read(streams[1], given[0], got[0]));
        law_kept_is_read(streams[0], streams[1], given[0], got[0]);
        assert(got.skip(1).map_values(|dst: ReadBuf<'_>| filled(dst)) =~= parts.skip(1));
        assert(parts[0] == filled(got[0]));
        assert(filled(given[0]) + streams[0].buffered() =~= streams[0].buffered());
        assert(joined(parts) + streams.last().buffered() =~= parts[0] + (joined(parts.skip(1))
            + streams.last().buffered()));
    }
}

/// The bytes of the data received in a run of turns; a turn without data reads what is kept.
pub open spec fn received(turns: Seq<Option<Seq<u8>>>) -> Seq<u8>
    decreases turns.len(),
{
    if turns.len() == 0 {
        Seq::empty()
    } else {
        let before = received(turns.drop_last());
        match turns.last() {
            Some(data) => before + data,
            None => before,
        }
    }
}

/// The bytes that a run of turns put into the reader's buffers, behind what was filled before.
pub open spec fn appended(given: Seq<ReadBuf<'_>>, got: Seq<ReadBuf<'_>>) -> Seq<u8>
    decreases given.len(),
{
    if given.len() == 0 {
        Seq::empty()
    } else {
        appended(given.drop_last(), got.drop_last()) + filled(got.last()).skip(
            filled(given.last()).len() as int,
        )
    }
}

/// A stream takes data or, in a turn without any, reads what it keeps. Data is taken only where
/// nothing is kept.
pub open spec fn is_turn(
    before: GrpcStream,
    turn: Option<Seq<u8>>,
    after: GrpcStream,
    dst: ReadBuf<'_>,
    dst_after: ReadBuf<'_>,
) -> bool {
    &&& room(dst) >= 0
    &&& match turn {
        Some(data) => {
            &&& before.buffered().len() == 0
            &&& before.frame_taken(data, after, dst, dst_after)
        },
        None => before.buffered_read(after, dst, dst_after),
    }
}

/// A stream goes through `streams` in a run of turns, each into the buffer `given`, which then
/// is `got`.
pub open spec fn is_run(
    streams: Seq<GrpcStream>,
    turns: Seq<Option<Seq<u8>>>,
    given: Seq<ReadBuf<'_>>,
    got: Seq<ReadBuf<'_>>,
) -> bool {
    &&& streams.len() == turns.len() + 1
    &&& given.len() == turns.len()
    &&& got.len() == turns.len()
    &&& forall|i: int|
        0 <= i < turns.len() ==> is_turn(
            streams[i],
            #[trigger] turns[i],
            streams[i + 1],
            given[i],
            got[i],
        )
}

/// The first data of a run that is not empty reaches behind the length in the message for `data`.
pub open spec fn starts_whole(turns: Seq<Option<Seq<u8>>>, data: Seq<u8>) -> bool {
    forall|i: int|
        0 <= i < turns.len() && received(turns.take(i)).len() == 0 ==> match #[trigger] turns[i] {
            Some(piece) => piece.len() == 0 || piece.len() >= start_len(data),
            None => true,
        }
}

/// The data of a turn is used up, and no length in it is broken.
pub open spec fn is_used_up(stream: GrpcStream, turn: Option<Seq<u8>>, dst: ReadBuf<'_>) -> bool {
    turn matches Some(data) ==> {
        let taken = frame_reading(stream.spec_framing(), stream.owed(), data, room(dst));
        taken.ok && taken.unread.len() == 0
    }
}

/// How a stream stands that has received the first `n` bytes of the message for `data`, and from
/// which `read` was read: what was read and what is kept is the payload received, and the rest
/// of the payload is owed.
pub open spec fn has_read(stream: GrpcStream, read: Seq<u8>, n: int, data: Seq<u8>) -> bool {
    &&& stream.spec_framing() == Framing::Delimited
    &&& stream.buffered().len() <= stream.owed()
    &&& if n == 0 {
        &&& read.len() == 0
        &&& stream.owed() == 0
    } else {
        &&& start_len(data) <= n
        &&& read + stream.buffered() == data.take(n - start_len(data))
        &&& stream.owed() == data.len() - read.len()
    }
}

/// What is written is read, however it comes and however it is read: where the data that a fresh
/// stream received so far is the beginning of a message, cut anywhere but in front of its
/// payload, what the reads put into buffers of any size and what is then kept is exactly the
/// payload received, in order. What is owed is the part of the payload that was not yet read.
/// All data is used up, and once a message came whole and nothing is kept, it was read whole.
pub proof fn law_message_read_in_any_pieces(
    streams: Seq<GrpcStream>,
    turns: Seq<Option<Seq<u8>>>,
    given: Seq<ReadBuf<'_>>,
    got: Seq<ReadBuf<'_>>,
    data: Seq<u8>,
)
    requires
        is_run(streams, turns, given, got),
        streams[0].spec_framing() == Framing::Delimited,
        streams[0].buffered().len() == 0,
        streams[0].owed() == 0,
        data.len() <= usize::MAX,
        received(turns).is_prefix_of(message(Framing::Delimited, data)),
        starts_whole(turns, data),
    ensures
        has_read(streams.last(), appended(given, got), received(turns).len() as int, data),
        forall|i: int|
            0 <= i < turns.len() ==> is_used_up(streams[i], #[trigger] turns[i], given[i]),
        received(turns) == message(Framing::Delimited, data) && streams.last().buffered().len()
            == 0 ==> appended(given, got) == data && streams.last().owed() == 0,
{
    let n = turns.len() as int;
    assert(turns.take(n) =~= turns);
    assert(given.take(n) =~= given);
    assert(got.take(n) =~= got);
    lemma_run_reads_message(streams, turns, given, got, data, n);
    let read = appended(given, got);
    let kept = streams.last().buffered();
    assert(start_len(data) >= HEADER_LEN);
    if received(turns) == message(Framing::Delimited, data) && kept.len() == 0 {
        assert(read + kept =~= read);
        assert(data.take(data.len() as int) =~= data);
    }
}

/// The first `m` turns of a run read the message that the data begins.
proof fn lemma_run_reads_message(
    streams: Seq<GrpcStream>,
    turns: Seq<Option<Seq<u8>>>,
    given: Seq<ReadBuf<'_>>,
    got: Seq<ReadBuf<'_>>,
    data: Seq<u8>,
    m: int,
)
    requires
        is_run(streams, turns, given, got),
        streams[0].spec_framing() == Framing::Delimited,
        streams[0].buffered().len() == 0,
        streams[0].owed() == 0,
        data.len() <= usize::MAX,
        0 <= m <= turns.len(),
        received(turns.take(m)).is_prefix_of(message(Framing::Delimited, data)),
        starts_whole(turns, data),
    ensures
        has_read(
            streams[m],
            appended(given.take(m), got.take(m)),
            received(turns.take(m)).len() as int,
            data,
        ),
        forall|i: int| 0 <= i < m ==> is_used_up(streams[i], #[trigger] turns[i], given[i]),
    decreases m,
{
    if m > 0 {
        let k = m - 1;
        let sooner = received(turns.take(k));
        lemma_received_step(turns, message(Framing::Delimited, data), m);
        lemma_appended_step(given, got, m);
        lemma_run_reads_message(streams, turns, given, got, data, k);
        lemma_turn_reads_message(
            streams[k],
            turns[k],
            streams[m],
            given[k],
            got[k],
            sooner.len() as int,
            data,
            appended(given.take(k), got.take(k)),
        );
    }
}

/// Where the data of the first `m` turns begins `whole`, that of the turns before the last of
/// them does, too, and the data of the last follows it in `whole`.
proof fn lemma_received_step(turns: Seq<Option<Seq<u8>>>, whole: Seq<u8>, m: int)
    requires
        0 < m <= turns.len(),
        received(turns.take(m)).is_prefix_of(whole),
    ensures
        received(turns.take(m - 1)).is_prefix_of(whole),
        ({
            let n = received(turns.take(m - 1)).len() as int;
            match turns[m - 1] {
                Some(piece) => {
                    &&& received(turns.take(m)).len() == n + piece.len() <= whole.len()
                    &&& piece == whole.subrange(n, n + piece.len())
                },
                None => received(turns.take(m)).len() == n,
            }
        }),
{
    let now = received(turns.take(m));
    let sooner = received(turns.take(m - 1));
    let n = sooner.len() as int;
    assert(turns.take(m).drop_last() =~= turns.take(m - 1));
    assert(turns.take(m).last() == turns[m - 1]);
    assert(sooner =~= whole.take(n));
    if let Some(piece) = turns[m - 1] {
        assert(now == sooner + piece);
        assert(piece =~= now.skip(n));
        assert(now.skip(n) =~= whole.subrange(n, n + piece.len()));
    }
}

/// What the first `m` turns put into the reader's buffers ends with what the last of them did.
proof fn lemma_appended_step(given: Seq<ReadBuf<'_>>, got: Seq<ReadBuf<'_>>, m: int)
    requires
        0 < m <= given.len(),
        given.len() == got.len(),
    ensures
        appended(given.take(m), got.take(m)) == appended(given.take(m - 1), got.take(m - 1))
            + filled(got[m - 1]).skip(filled(given[m - 1]).len() as int),
{
    assert(given.take(m).drop_last() =~= given.take(m - 1));
    assert(got.take(m).drop_last() =~= got.take(m - 1));
}

/// A turn on a stream that has received the first `n` bytes of a message reads on in it, where
/// its data, if any, is the next piece of the message.
proof fn lemma_turn_reads_message(
    before: GrpcStream,
    turn: Option<Seq<u8>>,
    after: GrpcStream,
    dst: ReadBuf<'_>,
    dst_after: ReadBuf<'_>,
    n: int,
    data: Seq<u8>,
    read: Seq<u8>,
)
    requires
        is_turn(before, turn, after, dst, dst_after),
        has_read(before, read, n, data),
        data.len() <= usize::MAX,
        0 <= n,
        turn matches Some(piece) ==> {
            &&& n + piece.len() <= message(Framing::Delimited, data).len()
            &&& piece == message(Framing::Delimited, data).subrange(n, n + piece.len())
            &&& n == 0 ==> piece.len() == 0 || piece.len() >= start_len(data)
        },
    ensures
        has_read(
            after,
            read + filled(dst_after).skip(filled(dst).len() as int),
            match turn {
                Some(piece) => n + piece.len(),
                None => n,
            },
            data,
        ),
        is_used_up(before, turn, dst),
{
    let more = filled(dst_after).skip(filled(dst).len() as int);
    match turn {
        None => {
            let k = before.ready_len(dst);
            assert(more =~= before.buffered().take(k));
            assert(read + more + after.buffered() =~= read + before.buffered());
        },
        Some(piece) => {
            let taken = frame_reading(before.spec_framing(), before.owed(), piece, room(dst));
            assert(read + before.buffered() =~= read);
            lemma_piece_reads_message(before.owed(), n, piece, room(dst), data, read);
            assert(more =~= taken.delivered);
            assert(after.buffered() =~= taken.kept);
            assert(read + more + after.buffered() =~= read + (taken.delivered + taken.kept));
        },
    }
}

/// The next piece of a message, behind its first `n` bytes, where all payload before it was read
/// and `owed` is what is left of it: its payload is handed on or kept.
proof fn lemma_piece_reads_message(
    owed: u64,
    n: int,
    piece: Seq<u8>,
    space: int,
    data: Seq<u8>,
    read: Seq<u8>,
)
    requires
        data.len() <= usize::MAX,
        space >= 0,
        0 <= n,
        n + piece.len() <= message(Framing::Delimited, data).len(),
        piece == message(Framing::Delimited, data).subrange(n, n + piece.len()),
        n == 0 ==> {
            &&& read.len() == 0
            &&& owed == 0
            &&& piece.len() == 0 || piece.len() >= start_len(data)
        },
        n > 0 ==> {
            &&& n >= start_len(data)
            &&& read == data.take(n - start_len(data))
            &&& owed == data.len() - read.len()
        },
    ensures
        ({
            let taken = reading(owed, piece, space);
            &&& taken.ok
            &&& taken.unread.len() == 0
            &&& n + piece.len() == 0 ==> taken.delivered.len() == 0 && taken.kept.len() == 0
                && taken.payload_len == 0
            &&& n + piece.len() > 0 ==> {
                &&& n + piece.len() >= start_len(data)
                &&& read + (taken.delivered + taken.kept) == data.take(
                    n + piece.len() - start_len(data),
                )
                &&& taken.payload_len == data.len() - read.len() - taken.delivered.len()
            }
        }),
{
    let whole = message(Framing::Delimited, data);
    let start = start_len(data);
    let taken = reading(owed, piece, space);
    if owed == 0 && piece.len() == 0 {
        assert(read + (taken.delivered + taken.kept) =~= read);
    } else if n == 0 {
        let cut = piece.len() - start;
        assert(piece =~= whole.take(start + cut));
        lemma_message_start(data, cut);
        law_piece_read_back(0, piece, space);
        assert(read + (taken.delivered + taken.kept) =~= data.take(cut));
    } else {
        law_piece_read_back(owed, piece, space);
        assert(taken.delivered + taken.kept =~= piece);
        assert(read + piece =~= data.take(n + piece.len() - start));
    }
}

/// However the data of a run is cut, no cut is in front of a payload of `parts`.
pub open spec fn comes_with_headers(turns: Seq<Option<Seq<u8>>>, parts: Seq<Seq<u8>>) -> bool {
    forall|i: int|
        0 <= i <= turns.len() ==> cuts_no_header(
            parts,
            received(#[trigger] turns.take(i)).len() as int,
        )
}

/// No stream keeps more than is owed: what is kept is payload, and holds no header.
pub open spec fn keep_payload_only(streams: Seq<GrpcStream>) -> bool {
    forall|i: int|
        0 <= i < streams.len() ==> (#[trigger] streams[i]).buffered().len() <= streams[i].owed()
}

/// How a stream stands that has received the first `n` bytes of the messages that carry `parts`,
/// and from which `read` was read: what was read and what is kept is the payload received, and
/// what is kept is owed as well as what is to come of the message at hand.
pub open spec fn has_read_parts(
    stream: GrpcStream,
    read: Seq<u8>,
    n: int,
    parts: Seq<Seq<u8>>,
) -> bool {
    &&& stream.spec_framing() == Framing::Delimited
    &&& read + stream.buffered() == unframed(parts, n)
    &&& stream.owed() == stream.buffered().len() + outstanding(parts, n)
}

/// Messages are read one behind the other, however they come and however they are read, even
/// where one ends and the next begins in the same data: where no header is cut, and no stream
/// keeps more than is owed, what the reads of a fresh stream put into buffers of any size and
/// what is then kept is the payload received, in order, and all data is used up. So what was
/// read is the beginning of what the messages carry, and, once they came whole and nothing is
/// kept, all of it.
pub proof fn law_messages_read_in_any_pieces(
    streams: Seq<GrpcStream>,
    turns: Seq<Option<Seq<u8>>>,
    given: Seq<ReadBuf<'_>>,
    got: Seq<ReadBuf<'_>>,
    parts: Seq<Seq<u8>>,
)
    requires
        is_run(streams, turns, given, got),
        streams[0].spec_framing() == Framing::Delimited,
        streams[0].buffered().len() == 0,
        streams[0].owed() == 0,
        forall|i: int| 0 <= i < parts.len() ==> (#[trigger] parts[i]).len() <= usize::MAX,
        received(turns).is_prefix_of(messages(parts)),
        comes_with_headers(turns, parts),
        keep_payload_only(streams),
    ensures
        has_read_parts(streams.last(), appended(given, got), received(turns).len() as int, parts),
        forall|i: int|
            0 <= i < turns.len() ==> is_used_up(streams[i], #[trigger] turns[i], given[i]),
        appended(given, got).is_prefix_of(joined(parts)),
        received(turns) == messages(parts) && streams.last().buffered().len() == 0 ==> appended(
            given,
            got,
        ) == joined(parts) && streams.last().owed() == 0,
{
    let n = turns.len() as int;
    assert(turns.take(n) =~= turns);
    assert(given.take(n) =~= given);
    assert(got.take(n) =~= got);
    lemma_run_reads_messages(streams, turns, given, got, parts, n);
    law_unframed(parts, received(turns).len() as int);
    let read = appended(given, got);
    let kept = streams.last().buffered();
    assert(read =~= (read + kept).take(read.len() as int));
    assert(read =~= joined(parts).take(read.len() as int));
    if kept.len() == 0 {
        assert(read + kept =~= read);
    }
}

/// The first `m` turns of a run read the messages that the data begins.
proof fn lemma_run_reads_messages(
    streams: Seq<GrpcStream>,
    turns: Seq<Option<Seq<u8>>>,
    given: Seq<ReadBuf<'_>>,
    got: Seq<ReadBuf<'_>>,
    parts: Seq<Seq<u8>>,
    m: int,
)
    requires
        is_run(streams, turns, given, got),
        streams[0].spec_framing() == Framing::Delimited,
        streams[0].buffered().len() == 0,
        streams[0].owed() == 0,
        forall|i: int| 0 <= i < parts.len() ==> (#[trigger] parts[i]).len() <= usize::MAX,
        0 <= m <= turns.len(),
        received(turns.take(m)).is_prefix_of(messages(parts)),
        comes_with_headers(turns, parts),
        keep_payload_only(streams),
    ensures
        has_read_parts(
            streams[m],
            appended(given.take(m), got.take(m)),
            received(turns.take(m)).len() as int,
            parts,
        ),
        forall|i: int| 0 <= i < m ==> is_used_up(streams[i], #[trigger] turns[i], given[i]),
    decreases m,
{
    if m == 0 {
        lemma_unframed_start(parts);
        assert(streams[0].buffered() =~= Seq::<u8>::empty());
    } else {
        let k = m - 1;
        let sooner = received(turns.take(k));
        lemma_received_step(turns, messages(parts), m);
        lemma_appended_step(given, got, m);
        lemma_run_reads_messages(streams, turns, given, got, parts, k);
        lemma_turn_reads_messages(
            streams[k],
            turns[k],
            streams[m],
            given[k],
            got[k],
            sooner.len() as int,
            parts,
            appended(given.take(k), got.take(k)),
        );
    }
}

/// A turn on a stream that has received the first `n` bytes of messages reads on in them, where
/// its data, if any, is the next piece of them.
proof fn lemma_turn_reads_messages(
    before: GrpcStream,
    turn: Option<Seq<u8>>,
    after: GrpcStream,
    dst: ReadBuf<'_>,
    dst_after: ReadBuf<'_>,
    n: int,
    parts: Seq<Seq<u8>>,
    read: Seq<u8>,
)
    requires
        is_turn(before, turn, after, dst, dst_after),
        has_read_parts(before, read, n, parts),
        after.buffered().len() <= after.owed(),
        forall|i: int| 0 <= i < parts.len() ==> (#[trigger] parts[i]).len() <= usize::MAX,
        0 <= n,
        turn matches Some(piece) ==> {
            &&& n + piece.len() <= messages(parts).len()
            &&& piece == messages(parts).subrange(n, n + piece.len())
            &&& cuts_no_header(parts, n)
            &&& cuts_no_header(parts, n + piece.len())
        },
    ensures
        has_read_parts(
            after,
            read + filled(dst_after).skip(filled(dst).len() as int),
            match turn {
                Some(piece) => n + piece.len(),
                None => n,
            },
            parts,
        ),
        is_used_up(before, turn, dst),
{
    let more = filled(dst_after).skip(filled(dst).len() as int);
    match turn {
        None => {
            let k = before.ready_len(dst);
            assert(more =~= before.buffered().take(k));
            assert(read + more + after.buffered() =~= read + before.buffered());
        },
        Some(piece) => {
            let taken = frame_reading(before.spec_framing(), before.owed(), piece, room(dst));
            assert(read + before.buffered() =~= read);
            assert(more =~= taken.delivered);
            assert(after.buffered() =~= taken.kept);
            lemma_piece_of_messages(parts, n, piece, room(dst));
            assert(read + more + after.buffered() =~= read + (taken.delivered + taken.kept));
        },
    }
}

/// A stream that is owed all that it keeps can be read into any buffer.
pub proof fn law_owed_can_be_read(stream: GrpcStream, dst: ReadBuf<'_>)
    requires
        stream.buffered().len() <= stream.owed(),
    ensures
        stream.within_payload(dst),
{
}

/// The lesser of the two.
fn least(a: usize, b: usize) -> (r: usize)
    ensures
        r == if a <= b {
            a
        } else {
            b
        },
{
    if a <= b {
        a
    } else {
        b
    }
}

/// Cutting an integer down to a machine word does not make it greater.
proof fn lemma_truncated(n: u64)
    ensures
        (n as usize) <= n,
{
    assert((n as usize) <= n) by (bit_vector);
}

/// The lowest 32 bits of `n`, the highest byte first.
fn be_bytes(n: usize) -> (r: [u8; 4])
    ensures
        r@ == be32(n as nat),
{
    let r: [u8; 4] = [
        (n / 0x100_0000 % 256) as u8,
        (n / 0x1_0000 % 256) as u8,
        (n / 0x100 % 256) as u8,
        (n % 256) as u8,
    ];
    assert(r@ =~= be32(n as nat));
    r
}

} // verus!
