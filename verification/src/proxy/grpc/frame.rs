//! How a gRPC message carries bytes, and what a received stretch of messages is worth.
//!
//! A message is one flag byte, four bytes of length, the tag byte `0x0a`, the payload's length
//! as a varint, and the payload.
use crate::varint::{
    decoded, law_decoded_within, law_varint_len, law_varint_round_trip, lemma_varint_front, varint,
};
use vstd::prelude::*;

verus! {

/// Whether the length of a payload is written in front of it.
#[derive(Clone, Copy, Debug, PartialEq, Eq, Structural)]
pub enum Framing {
    /// The length is written, and received messages are taken apart by it.
    Delimited,
    /// No length is written, and nothing is taken from a received message.
    Bare,
}

/// The bytes in front of the length of the payload.
pub const HEADER_LEN: usize = 6;

/// The protobuf tag of the payload: field one, length-delimited.
pub const PAYLOAD_TAG: u8 = 0x0a;

/// The length of the payload, as `framing` writes it.
pub open spec fn length_field(framing: Framing, len: nat) -> Seq<u8> {
    match framing {
        Framing::Delimited => varint(len),
        Framing::Bare => Seq::empty(),
    }
}

/// The lowest 32 bits of `n`, as four bytes, the highest first.
pub open spec fn be32(n: nat) -> Seq<u8> {
    seq![
        (n / 0x100_0000 % 256) as u8,
        (n / 0x1_0000 % 256) as u8,
        (n / 0x100 % 256) as u8,
        (n % 256) as u8,
    ]
}

/// The message that carries `data`.
pub open spec fn message(framing: Framing, data: Seq<u8>) -> Seq<u8> {
    let field = seq![PAYLOAD_TAG] + length_field(framing, data.len());
    seq![0u8] + be32(field.len() + data.len()) + field + data
}

/// The messages that carry each of `parts`, one behind the other.
pub open spec fn messages(parts: Seq<Seq<u8>>) -> Seq<u8>
    decreases parts.len(),
{
    if parts.len() == 0 {
        Seq::empty()
    } else {
        message(Framing::Delimited, parts[0]) + messages(parts.skip(1))
    }
}

/// The bytes of `parts`, one part behind the other.
pub open spec fn joined(parts: Seq<Seq<u8>>) -> Seq<u8>
    decreases parts.len(),
{
    if parts.len() == 0 {
        Seq::empty()
    } else {
        parts[0] + joined(parts.skip(1))
    }
}

/// What the front of received bytes is.
pub enum Front {
    /// Too few bytes for a message.
    Short,
    /// A message whose length cannot be read.
    Broken,
    /// This much of a payload is still owed, and these bytes follow.
    Payload(u64, Seq<u8>),
}

/// The front of `data` where `payload_len` bytes of the current payload are still owed.
pub open spec fn front(payload_len: u64, data: Seq<u8>) -> Front {
    if payload_len > 0 {
        Front::Payload(payload_len, data)
    } else if data.len() <= HEADER_LEN {
        Front::Short
    } else {
        match decoded(data.skip(HEADER_LEN as int)) {
            None => Front::Broken,
            Some((len, n)) => Front::Payload(len, data.skip(HEADER_LEN + n)),
        }
    }
}

/// How many of `available` bytes can be handed on at once, where `payload_len` are owed and
/// there is room for `room`. What is owed counts by as many of its lowest bits as a `usize` has.
pub open spec fn portion(payload_len: u64, available: nat, room: int) -> int {
    let owed = (payload_len as usize) as int;
    let fits = if room <= available {
        room
    } else {
        available as int
    };
    if owed <= fits {
        owed
    } else {
        fits
    }
}

/// What becomes of received bytes.
#[verifier::ext_equal]
pub struct Reading {
    /// The bytes that are handed on.
    pub delivered: Seq<u8>,
    /// The bytes that are kept for later.
    pub kept: Seq<u8>,
    /// How much of the current payload is owed afterwards.
    pub payload_len: u64,
    /// The bytes that are neither handed on nor kept, and not taken from the peer's window.
    pub unread: Seq<u8>,
    /// Whether every length could be read.
    pub ok: bool,
}

impl Reading {
    /// `self` hands on `first`, and is then what `rest` is.
    pub open spec fn rests_on(self, first: Seq<u8>, rest: Reading) -> bool {
        &&& self.delivered == first + rest.delivered
        &&& self.kept == rest.kept
        &&& self.payload_len == rest.payload_len
        &&& self.unread == rest.unread
        &&& self.ok == rest.ok
    }
}

/// What becomes of `data`, where `payload_len` bytes of the current payload are owed and there
/// is room for `room`: payload is handed on until the room is used up, the rest is kept as it
/// is. An empty payload ends the reading, too.
pub open spec fn reading(payload_len: u64, data: Seq<u8>, room: int) -> Reading
    decreases data.len(),
{
    match front(payload_len, data) {
        Front::Short => Reading {
            delivered: Seq::empty(),
            kept: Seq::empty(),
            payload_len,
            unread: data,
            ok: true,
        },
        Front::Broken => Reading {
            delivered: Seq::empty(),
            kept: Seq::empty(),
            payload_len,
            unread: data,
            ok: false,
        },
        Front::Payload(owed, body) => {
            let n = portion(owed, body.len(), room);
            if n <= 0 {
                Reading {
                    delivered: Seq::empty(),
                    kept: body,
                    payload_len: owed,
                    unread: Seq::empty(),
                    ok: true,
                }
            } else {
                proof {
                    law_decoded_within(data.skip(HEADER_LEN as int));
                }
                let rest = reading((owed - n) as u64, body.skip(n), room - n);
                Reading { delivered: body.take(n) + rest.delivered, ..rest }
            }
        },
    }
}

/// What becomes of `data` under `framing`.
pub open spec fn frame_reading(
    framing: Framing,
    payload_len: u64,
    data: Seq<u8>,
    room: int,
) -> Reading {
    match framing {
        Framing::Delimited => reading(payload_len, data, room),
        Framing::Bare => Reading {
            delivered: Seq::empty(),
            kept: Seq::empty(),
            payload_len,
            unread: data,
            ok: true,
        },
    }
}

/// No byte is made up and none is handed on without room: what is handed on, kept and left
/// unread together is no more than what came, and what is handed on fits.
pub proof fn law_reading_bounded(framing: Framing, payload_len: u64, data: Seq<u8>, room: int)
    ensures
        ({
            let reading = frame_reading(framing, payload_len, data, room);
            &&& reading.delivered.len() + reading.kept.len() + reading.unread.len() <= data.len()
            &&& room >= 0 ==> reading.delivered.len() <= room
        }),
    decreases data.len(),
{
    law_decoded_within(data.skip(HEADER_LEN as int));
    if let Front::Payload(owed, body) = front(payload_len, data) {
        let n = portion(owed, body.len(), room);
        if n > 0 {
            law_reading_bounded(Framing::Delimited, (owed - n) as u64, body.skip(n), room - n);
        }
    }
}

/// Bytes are kept only for want of room, or because the payload at hand is empty.
pub proof fn law_kept_for_want_of_room(payload_len: u64, data: Seq<u8>, room: int)
    requires
        room >= 0,
    ensures
        ({
            let reading = reading(payload_len, data, room);
            reading.kept.len() > 0 ==> {
                ||| reading.delivered.len() == room
                ||| reading.payload_len as usize == 0
            }
        }),
    decreases data.len(),
{
    law_decoded_within(data.skip(HEADER_LEN as int));
    if let Front::Payload(owed, body) = front(payload_len, data) {
        let n = portion(owed, body.len(), room);
        if n > 0 {
            law_kept_for_want_of_room((owed - n) as u64, body.skip(n), room - n);
        }
    }
}

/// The front of a message is its payload: the length of the data, and the data.
pub(crate) proof fn lemma_message_front(data: Seq<u8>, tail: Seq<u8>)
    requires
        data.len() <= u64::MAX,
    ensures
        front(0, message(Framing::Delimited, data) + tail) == Front::Payload(
            data.len() as u64,
            data + tail,
        ),
{
    let len = varint(data.len());
    let whole = message(Framing::Delimited, data) + tail;
    law_varint_len(data.len() as u64);
    law_varint_round_trip(data.len() as u64, data + tail);
    assert(whole.skip(HEADER_LEN as int) =~= len + (data + tail));
    assert(whole.skip(HEADER_LEN + len.len()) =~= data + tail);
}

/// Received bytes that do not reach beyond the current payload are handed on as far as there is
/// room and kept for the rest, and no other bytes are: be they a whole message, the beginning of
/// one with its length, or some of the payload owed from before.
pub proof fn law_piece_read_back(payload_len: u64, data: Seq<u8>, room: int)
    requires
        front(payload_len, data) matches Front::Payload(owed, body) && body.len() <= owed
            <= usize::MAX,
        room >= 0,
    ensures
        front(payload_len, data) matches Front::Payload(owed, body) && {
            let n = if room <= body.len() {
                room
            } else {
                body.len() as int
            };
            reading(payload_len, data, room) == (Reading {
                delivered: body.take(n),
                kept: body.skip(n),
                payload_len: (owed - n) as u64,
                unread: Seq::empty(),
                ok: true,
            })
        },
{
    if let Front::Payload(owed, body) = front(payload_len, data) {
        let none = Seq::<u8>::empty();
        let n = portion(owed, body.len(), room);
        if n > 0 {
            let rest = reading((owed - n) as u64, body.skip(n), room - n);
            assert(body.take(n) + none =~= body.take(n));
            if n == body.len() {
                assert(body.skip(n) =~= none);
            }
        } else {
            assert(body.take(n) =~= none);
            assert(body.skip(n) =~= body);
        }
        assert(reading(payload_len, data, room) =~= Reading {
            delivered: body.take(n),
            kept: body.skip(n),
            payload_len: (owed - n) as u64,
            unread: Seq::empty(),
            ok: true,
        });
    }
}

/// What is written is read back: of a message, the bytes that find room are handed on, the
/// others are kept, and exactly these are owed.
pub proof fn law_message_read_back(data: Seq<u8>, room: int)
    requires
        data.len() <= usize::MAX,
        room >= 0,
    ensures
        ({
            let n = if room <= data.len() {
                room
            } else {
                data.len() as int
            };
            reading(0, message(Framing::Delimited, data), room) == (Reading {
                delivered: data.take(n),
                kept: data.skip(n),
                payload_len: (data.len() - n) as u64,
                unread: Seq::empty(),
                ok: true,
            })
        }),
{
    let none = Seq::<u8>::empty();
    let whole = message(Framing::Delimited, data);
    lemma_message_front(data, none);
    assert(whole + none =~= whole);
    assert(data + none =~= data);
    law_piece_read_back(0, whole, room);
}

/// Messages that come together are read back one after the other as long as there is room, and
/// what follows them is read as it would be by itself. None of them may be empty, but for one
/// that nothing follows.
pub proof fn law_messages_read_back(parts: Seq<Seq<u8>>, tail: Seq<u8>, room: int)
    requires
        forall|i: int| 0 <= i < parts.len() ==> (#[trigger] parts[i]).len() <= usize::MAX,
        forall|i: int|
            0 <= i < parts.len() ==> (#[trigger] parts[i]).len() > 0 || (i == parts.len() - 1
                && tail.len() == 0),
        joined(parts).len() <= room,
    ensures
        reading(0, messages(parts) + tail, room).rests_on(
            joined(parts),
            reading(0, tail, room - joined(parts).len()),
        ),
    decreases parts.len(),
{
    if parts.len() == 0 {
        assert(messages(parts) + tail =~= tail);
        let rest = reading(0, tail, room);
        assert(joined(parts) + rest.delivered =~= rest.delivered);
    } else {
        let data = parts[0];
        let others = parts.skip(1);
        let behind = messages(others) + tail;
        let n = data.len() as int;
        let whole = messages(parts) + tail;
        assert(whole =~= message(Framing::Delimited, data) + behind);
        lemma_message_front(data, behind);
        assert forall|i: int| 0 <= i < others.len() implies (#[trigger] others[i]).len()
            <= usize::MAX && (others[i].len() > 0 || (i == others.len() - 1 && tail.len()
            == 0)) by {
            assert(others[i] == parts[i + 1]);
        }
        law_messages_read_back(others, tail, room - n);
        assert((data + behind).take(n) =~= data);
        assert((data + behind).skip(n) =~= behind);
        assert(portion(n as u64, (data + behind).len(), room) == n);
        let rest = reading(0, behind, room - n);
        let last = reading(0, tail, room - joined(parts).len());
        assert(room - n - joined(others).len() == room - joined(parts).len());
        assert(data + (joined(others) + last.delivered) =~= joined(parts) + last.delivered);
        if n == 0 {
            assert(behind =~= Seq::<u8>::empty());
            assert(data + behind =~= tail);
        }
    }
}

/// How much of a message stands in front of its payload.
pub open spec fn start_len(data: Seq<u8>) -> int {
    message(Framing::Delimited, data).len() - data.len()
}

/// The front of a message that is cut behind its length is as much of its payload as there is.
pub(crate) proof fn lemma_message_start(data: Seq<u8>, cut: int)
    requires
        data.len() <= u64::MAX,
        0 <= cut <= data.len(),
    ensures
        front(0, message(Framing::Delimited, data).take(start_len(data) + cut)) == Front::Payload(
            data.len() as u64,
            data.take(cut),
        ),
{
    let len = varint(data.len());
    let piece = message(Framing::Delimited, data).take(start_len(data) + cut);
    law_varint_len(data.len() as u64);
    law_varint_round_trip(data.len() as u64, data.take(cut));
    assert(piece.skip(HEADER_LEN as int) =~= len + data.take(cut));
    assert(piece.skip(HEADER_LEN + len.len()) =~= data.take(cut));
}

/// A message that comes in two pieces, cut anywhere behind its length, is read back whole.
pub proof fn law_split_message_read_back(data: Seq<u8>, cut: int, room: int, later_room: int)
    requires
        data.len() <= usize::MAX,
        0 <= cut <= data.len(),
        cut <= room,
        data.len() - cut <= later_room,
    ensures
        ({
            let whole = message(Framing::Delimited, data);
            let at = whole.len() - data.len() + cut;
            let first = reading(0, whole.take(at), room);
            let second = reading(first.payload_len, whole.skip(at), later_room);
            &&& first.ok && second.ok
            &&& first.kept.len() == 0 && second.kept.len() == 0
            &&& first.unread.len() == 0 && second.unread.len() == 0
            &&& first.delivered + second.delivered == data
            &&& second.payload_len == 0
        }),
{
    let none = Seq::<u8>::empty();
    let whole = message(Framing::Delimited, data);
    let at = start_len(data) + cut;
    let owed = data.len() as u64;
    let piece = whole.take(at);
    lemma_message_start(data, cut);
    law_piece_read_back(0, piece, room);
    assert(data.take(cut).take(cut) =~= data.take(cut));
    assert(data.take(cut).skip(cut) =~= none);
    assert(whole.skip(at) =~= data.skip(cut));
    if cut < data.len() {
        law_piece_read_back((owed - cut) as u64, data.skip(cut), later_room);
        assert(data.skip(cut).take(data.len() - cut) =~= data.skip(cut));
        assert(data.skip(cut).skip(data.len() - cut) =~= none);
    } else {
        assert(data.skip(cut) =~= none);
    }
    assert(data.take(cut) + data.skip(cut) =~= data);
}

/// The payload in the first `n` bytes of the messages that carry `parts`.
pub open spec fn unframed(parts: Seq<Seq<u8>>, n: int) -> Seq<u8>
    decreases parts.len(),
{
    if parts.len() == 0 {
        Seq::empty()
    } else {
        let data = parts[0];
        let len = message(Framing::Delimited, data).len();
        if n >= len {
            data + unframed(parts.skip(1), n - len)
        } else if n >= start_len(data) {
            data.take(n - start_len(data))
        } else {
            Seq::empty()
        }
    }
}

/// How much payload of the message that is cut behind the first `n` bytes of the messages that
/// carry `parts` is still to come.
pub open spec fn outstanding(parts: Seq<Seq<u8>>, n: int) -> int
    decreases parts.len(),
{
    if parts.len() == 0 {
        0
    } else {
        let data = parts[0];
        let len = message(Framing::Delimited, data).len();
        if n >= len {
            outstanding(parts.skip(1), n - len)
        } else if n >= start_len(data) {
            len - n
        } else {
            0
        }
    }
}

/// A cut behind the first `n` bytes of the messages that carry `parts` is not in front of a
/// payload: it is between two messages, or behind the length of one.
pub open spec fn cuts_no_header(parts: Seq<Seq<u8>>, n: int) -> bool
    decreases parts.len(),
{
    if parts.len() == 0 {
        n == 0
    } else {
        let data = parts[0];
        let len = message(Framing::Delimited, data).len();
        if n >= len {
            cuts_no_header(parts.skip(1), n - len)
        } else {
            n == 0 || n >= start_len(data)
        }
    }
}

/// The payload in the beginning of messages is the beginning of what they carry, and that in
/// whole messages is all of it, with nothing outstanding.
pub proof fn law_unframed(parts: Seq<Seq<u8>>, n: int)
    ensures
        unframed(parts, n).is_prefix_of(joined(parts)),
        unframed(parts, messages(parts).len() as int) == joined(parts),
        outstanding(parts, messages(parts).len() as int) == 0,
    decreases parts.len(),
{
    if parts.len() > 0 {
        let len = message(Framing::Delimited, parts[0]).len();
        law_unframed(parts.skip(1), n - len);
    }
}

/// At the beginning of messages there is no payload yet, and none is outstanding.
pub(crate) proof fn lemma_unframed_start(parts: Seq<Seq<u8>>)
    ensures
        unframed(parts, 0) == Seq::<u8>::empty(),
        outstanding(parts, 0) == 0,
        cuts_no_header(parts, 0),
{
    if parts.len() > 0 {
        assert(start_len(parts[0]) >= HEADER_LEN);
    }
}

/// Bytes that go beyond the payload at hand are read on only behind it: where they are not kept
/// as if they were payload, all of it is handed on, and what follows is read by itself.
proof fn lemma_beyond_payload(payload_len: u64, data: Seq<u8>, room: int)
    requires
        front(payload_len, data) matches Front::Payload(owed, body) && owed < body.len() && owed
            <= usize::MAX,
        room >= 0,
        reading(payload_len, data, room).kept.len() <= reading(payload_len, data, room).payload_len,
    ensures
        front(payload_len, data) matches Front::Payload(owed, body) && {
            &&& 0 < owed <= room
            &&& reading(payload_len, data, room).rests_on(
                body.take(owed as int),
                reading(0, body.skip(owed as int), room - owed),
            )
        },
{
    if let Front::Payload(owed, body) = front(payload_len, data) {
        let n = portion(owed, body.len(), room);
        if 0 < n < owed {
            let rest = reading((owed - n) as u64, body.skip(n), room - n);
            assert(rest.kept == body.skip(n));
        }
    }
}

/// The next piece of messages, behind their first `n` bytes: where no header is cut, and no more
/// is kept than is then owed, all of it is used up, and its payload is handed on and kept.
pub(crate) proof fn lemma_piece_of_messages(
    parts: Seq<Seq<u8>>,
    n: int,
    piece: Seq<u8>,
    room: int,
)
    requires
        forall|i: int| 0 <= i < parts.len() ==> (#[trigger] parts[i]).len() <= usize::MAX,
        0 <= n,
        room >= 0,
        n + piece.len() <= messages(parts).len(),
        piece == messages(parts).subrange(n, n + piece.len()),
        cuts_no_header(parts, n),
        cuts_no_header(parts, n + piece.len()),
        ({
            let taken = reading(outstanding(parts, n) as u64, piece, room);
            taken.kept.len() <= taken.payload_len
        }),
    ensures
        ({
            let taken = reading(outstanding(parts, n) as u64, piece, room);
            &&& taken.ok
            &&& taken.unread.len() == 0
            &&& unframed(parts, n) + (taken.delivered + taken.kept) == unframed(
                parts,
                n + piece.len(),
            )
            &&& taken.payload_len - taken.kept.len() == outstanding(parts, n + piece.len())
        }),
    decreases parts.len(),
{
    let none = Seq::<u8>::empty();
    let owed = outstanding(parts, n) as u64;
    let taken = reading(owed, piece, room);
    if parts.len() == 0 {
        assert(unframed(parts, n) + (taken.delivered + taken.kept) =~= none);
    } else {
        let others = parts.skip(1);
        let whole = message(Framing::Delimited, parts[0]);
        let len = whole.len() as int;
        let until = n + piece.len();
        assert forall|i: int| 0 <= i < others.len() implies (#[trigger] others[i]).len()
            <= usize::MAX by {
            assert(others[i] == parts[i + 1]);
        }
        lemma_unframed_start(others);
        if n >= len {
            assert(piece =~= messages(others).subrange(n - len, until - len));
            lemma_piece_of_messages(others, n - len, piece, room);
            assert(parts[0] + unframed(others, n - len) + (taken.delivered + taken.kept)
                =~= parts[0] + (unframed(others, n - len) + (taken.delivered + taken.kept)));
        } else if n == 0 && piece.len() == 0 {
            lemma_unframed_start(parts);
            assert(none + (taken.delivered + taken.kept) =~= none);
        } else {
            lemma_front_of_messages(parts, n, piece);
            if until <= len {
                law_piece_read_back(owed, piece, room);
                let body = messages(parts).subrange(at_payload(parts[0], n), until);
                assert(taken.delivered + taken.kept =~= body);
                lemma_piece_within_message(parts, n, piece, taken);
            } else {
                lemma_beyond_payload(owed, piece, room);
                let behind = messages(others).subrange(0, until - len);
                let left = room - (len - at_payload(parts[0], n));
                let rest = reading(0, behind, left);
                lemma_piece_of_messages(others, 0, behind, left);
                assert(none + (rest.delivered + rest.kept) =~= rest.delivered + rest.kept);
                lemma_piece_beyond_message(parts, n, until, taken, rest);
            }
        }
    }
}

/// Where in the message for `data` the payload that follows its first `n` bytes begins.
spec fn at_payload(data: Seq<u8>, n: int) -> int {
    if n == 0 {
        start_len(data)
    } else {
        n
    }
}

/// The front of a piece that begins in the first of several messages is the payload of that
/// message, and behind it what belongs to the others.
proof fn lemma_front_of_messages(parts: Seq<Seq<u8>>, n: int, piece: Seq<u8>)
    requires
        parts.len() > 0,
        parts[0].len() <= usize::MAX,
        0 <= n < message(Framing::Delimited, parts[0]).len(),
        n + piece.len() <= messages(parts).len(),
        piece == messages(parts).subrange(n, n + piece.len()),
        cuts_no_header(parts, n),
        cuts_no_header(parts, n + piece.len()),
        n > 0 || piece.len() > 0,
    ensures
        ({
            let whole = message(Framing::Delimited, parts[0]);
            let from = at_payload(parts[0], n);
            let until = n + piece.len();
            &&& start_len(parts[0]) <= from <= whole.len()
            &&& from <= until
            &&& front(outstanding(parts, n) as u64, piece) matches Front::Payload(owed, body) && {
                &&& owed == whole.len() - from
                &&& body == messages(parts).subrange(from, until)
                &&& until > whole.len() ==> {
                    &&& body.take(owed as int) == whole.subrange(from, whole.len() as int)
                    &&& body.skip(owed as int) == messages(parts.skip(1)).subrange(
                        0,
                        until - whole.len(),
                    )
                }
            }
        }),
{
    let all = messages(parts);
    let whole = message(Framing::Delimited, parts[0]);
    let from = at_payload(parts[0], n);
    let until = n + piece.len();
    let body = all.subrange(from, until);
    let start = start_len(parts[0]);
    if n == 0 {
        let len = varint(parts[0].len());
        law_varint_len(parts[0].len() as u64);
        law_varint_round_trip(parts[0].len() as u64, body);
        assert(piece.skip(HEADER_LEN as int) =~= len + body);
        assert(piece.skip(HEADER_LEN + len.len()) =~= body);
    }
    if until > whole.len() {
        let owed = whole.len() - from;
        assert(body.take(owed) =~= whole.subrange(from, whole.len() as int));
        assert(body.skip(owed) =~= messages(parts.skip(1)).subrange(0, until - whole.len()));
    }
}

/// A piece that reaches beyond the first of several messages, up to the first `until` bytes of
/// them all: the payload of the first is handed on, and `rest` is what becomes of the others.
proof fn lemma_piece_beyond_message(
    parts: Seq<Seq<u8>>,
    n: int,
    until: int,
    taken: Reading,
    rest: Reading,
)
    requires
        parts.len() > 0,
        0 <= n < message(Framing::Delimited, parts[0]).len() < until,
        n == 0 || n >= start_len(parts[0]),
        ({
            let whole = message(Framing::Delimited, parts[0]);
            let left = until - whole.len();
            &&& taken.rests_on(whole.subrange(at_payload(parts[0], n), whole.len() as int), rest)
            &&& rest.delivered + rest.kept == unframed(parts.skip(1), left)
            &&& rest.payload_len - rest.kept.len() == outstanding(parts.skip(1), left)
        }),
    ensures
        unframed(parts, n) + (taken.delivered + taken.kept) == unframed(parts, until),
        taken.payload_len - taken.kept.len() == outstanding(parts, until),
{
    let data = parts[0];
    let whole = message(Framing::Delimited, data);
    let from = at_payload(data, n);
    let first = whole.subrange(from, whole.len() as int);
    assert(unframed(parts, n) =~= data.take(from - start_len(data)));
    assert(first =~= data.skip(from - start_len(data)));
    assert(unframed(parts, n) + first =~= data);
    assert(unframed(parts, n) + (first + rest.delivered + rest.kept) =~= data + (rest.delivered
        + rest.kept));
}

/// A piece that does not reach beyond the first of several messages, read as payload of it.
proof fn lemma_piece_within_message(parts: Seq<Seq<u8>>, n: int, piece: Seq<u8>, taken: Reading)
    requires
        parts.len() > 0,
        0 <= n < message(Framing::Delimited, parts[0]).len(),
        n == 0 || n >= start_len(parts[0]),
        n + piece.len() <= message(Framing::Delimited, parts[0]).len(),
        at_payload(parts[0], n) <= n + piece.len(),
        taken.delivered + taken.kept == messages(parts).subrange(
            at_payload(parts[0], n),
            n + piece.len(),
        ),
        taken.payload_len == message(Framing::Delimited, parts[0]).len() - at_payload(parts[0], n)
            - taken.delivered.len(),
    ensures
        unframed(parts, n) + (taken.delivered + taken.kept) == unframed(parts, n + piece.len()),
        taken.payload_len - taken.kept.len() == outstanding(parts, n + piece.len()),
{
    let data = parts[0];
    let others = parts.skip(1);
    let whole = message(Framing::Delimited, data);
    let from = at_payload(data, n);
    let until = n + piece.len();
    lemma_unframed_start(others);
    let body = messages(parts).subrange(from, until);
    assert(body.len() == until - from);
    assert((taken.delivered + taken.kept).len() == body.len());
    assert(body =~= data.subrange(from - start_len(data), until - start_len(data)));
    assert(unframed(parts, n) =~= data.take(from - start_len(data)));
    assert(unframed(parts, until) =~= data.take(until - start_len(data)));
}

/// The number that four bytes stand for, the highest first.
pub open spec fn from_be32(s: Seq<u8>) -> nat {
    (s[0] * 0x100_0000 + s[1] * 0x1_0000 + s[2] * 0x100 + s[3]) as nat
}

/// Four bytes hold the lowest 32 bits of a number.
pub(crate) proof fn lemma_be32(n: nat)
    ensures
        from_be32(be32(n)) == n % 0x1_0000_0000,
{
    let n8 = n / 0x100;
    let n16 = n8 / 0x100;
    let n24 = n16 / 0x100;
    let n32 = n24 / 0x100;
    assert(n16 == n / 0x1_0000);
    assert(n24 == n / 0x100_0000);
    assert(n == 0x1_0000_0000 * n32 + 0x100_0000 * (n24 % 256) + 0x1_0000 * (n16 % 256) + 0x100 * (
    n8 % 256) + n % 256);
    assert(n % 0x1_0000_0000 == 0x100_0000 * (n24 % 256) + 0x1_0000 * (n16 % 256) + 0x100 * (n8
        % 256) + n % 256);
}

/// The four length bytes of a message give the length of what follows them, where it fits in 32
/// bits, and its lowest 32 bits where not.
pub proof fn law_length_bytes(framing: Framing, data: Seq<u8>)
    ensures
        ({
            let whole = message(framing, data);
            from_be32(whole.subrange(1, 5)) == (whole.len() - 5) % 0x1_0000_0000
        }),
{
    let whole = message(framing, data);
    let n = (whole.len() - 5) as nat;
    assert(whole.subrange(1, 5) =~= be32(n));
    lemma_be32(n);
}

/// Two messages that are alike carry the same bytes, however they are framed.
pub proof fn law_message_injective(framing: Framing, a: Seq<u8>, b: Seq<u8>)
    requires
        message(framing, a) == message(framing, b),
    ensures
        a == b,
{
    let whole = message(framing, a);
    let behind = whole.skip(HEADER_LEN as int);
    assert(behind =~= length_field(framing, a.len()) + a);
    assert(behind =~= length_field(framing, b.len()) + b);
    if framing == Framing::Delimited {
        lemma_varint_front(a.len(), a);
        lemma_varint_front(b.len(), b);
    }
    let n = length_field(framing, a.len()).len() as int;
    assert(a =~= behind.skip(n));
    assert(b =~= behind.skip(n));
}

} // verus!
