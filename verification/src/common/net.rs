//! Reading into buffers, telling poll results apart, and relaying between two streams.
use crate::buffers::{append, chunk_mut_len, has_remaining_mut, max_len, mut_bytes};
use crate::step::Step;
use bytes::BytesMut;
use std::io;
use std::sync::atomic::AtomicU64;
use std::task::Poll;
use vstd::prelude::*;

verus! {

/// Stands for `std::io::Error`.
#[verifier::external_type_specification]
#[verifier::external_body]
pub struct ExIoError(io::Error);

/// What happened before a step of reading into a buffer.
pub enum ReadBufEvent<'a, E> {
    /// The read begins.
    Start,
    /// The source was polled, and gave these bytes where it was ready.
    Polled(Poll<Result<&'a [u8], E>>),
}

/// What a read begins with, where the buffer offers a window of spare room: the source is asked
/// for as much as goes into the window. A buffer that offers none reads nothing.
pub fn read_into_window<E>(window: Option<usize>) -> (r: Step<usize, Poll<Result<usize, E>>>)
    ensures
        match window {
            Some(n) => r == Step::<_, Poll<Result<usize, E>>>::Perform(n),
            None => r == Step::<usize, _>::Return(Poll::Ready(Ok::<usize, E>(0))),
        },
{
    match window {
        Some(n) => Step::Perform(n),
        None => Step::Return(Poll::Ready(Ok(0))),
    }
}

/// A step of reading into `buf`: the source is asked for as much as the buffer has room for, and
/// what it gives is appended. The result is the number of bytes; a buffer that can hold no more
/// reads none. How much room there is depends on how the buffer was allocated: the contract says
/// only that it is some, and that the buffer can hold as much.
pub fn poll_read_buf<E>(buf: &mut BytesMut, event: ReadBufEvent<'_, E>) -> (r: Step<
    usize,
    Poll<Result<usize, E>>,
>)
    requires
        event is Start ==> {
            ||| mut_bytes(*old(buf)).len() + 64 <= max_len()
            ||| mut_bytes(*old(buf)).len() == max_len()
        },
        event matches ReadBufEvent::Polled(Poll::Ready(Ok(bytes))) ==> mut_bytes(*old(buf)).len()
            + bytes@.len() <= max_len(),
    ensures
        match event {
            ReadBufEvent::Start => {
                &&& mut_bytes(*final(buf)) == mut_bytes(*old(buf))
                &&& if mut_bytes(*old(buf)).len() < max_len() {
                    r matches Step::Perform(window) && 0 < window <= max_len() - mut_bytes(
                        *old(buf),
                    ).len()
                } else {
                    r == Step::<usize, _>::Return(Poll::Ready(Ok::<usize, E>(0)))
                }
            },
            ReadBufEvent::Polled(Poll::Ready(Ok(bytes))) => {
                &&& mut_bytes(*final(buf)) == mut_bytes(*old(buf)) + bytes@
                &&& r == Step::<usize, _>::Return(Poll::Ready(Ok::<_, E>(bytes@.len() as usize)))
            },
            ReadBufEvent::Polled(Poll::Ready(Err(e))) => {
                &&& *final(buf) == *old(buf)
                &&& r == Step::<usize, _>::Return(Poll::Ready(Err::<usize, _>(e)))
            },
            ReadBufEvent::Polled(Poll::Pending) => {
                &&& *final(buf) == *old(buf)
                &&& r == Step::<usize, _>::Return(Poll::<Result<usize, E>>::Pending)
            },
        },
{
    match event {
        ReadBufEvent::Start => {
            if !has_remaining_mut(buf) {
                return read_into_window(None);
            }
            read_into_window(Some(chunk_mut_len(buf)))
        },
        ReadBufEvent::Polled(Poll::Pending) => Step::Return(Poll::Pending),
        ReadBufEvent::Polled(Poll::Ready(Err(e))) => Step::Return(Poll::Ready(Err(e))),
        ReadBufEvent::Polled(Poll::Ready(Ok(bytes))) => {
            append(buf, bytes);
            Step::Return(Poll::Ready(Ok(bytes.len())))
        },
    }
}

/// Questions to the result of a poll for I/O.
pub trait PollUtil: Sized {
    type T;

    /// The result.
    spec fn polled(&self) -> Poll<Result<Self::T, io::Error>>;

    /// The result without its value.
    fn drop_poll_result(self) -> (r: Poll<Result<(), io::Error>>)
        ensures
            r == dropped(self.polled()),
    ;

    /// Whether there is no value.
    fn is_pending_or_error(&self) -> (r: bool)
        ensures
            r == pending_or_error(self.polled()),
    ;

    /// Whether there is an error.
    fn is_error(&self) -> (r: bool)
        ensures
            r == error(self.polled()),
    ;

    /// The value, or the default one where there is none.
    fn get_poll_res(&self) -> (r: Self::T)
        ensures
            self.polled() matches Poll::Ready(Ok(value)) ==> r == value,
    ;
}

/// A poll result without its value.
pub open spec fn dropped<T>(polled: Poll<Result<T, io::Error>>) -> Poll<Result<(), io::Error>> {
    match polled {
        Poll::Ready(Err(e)) => Poll::Ready(Err(e)),
        Poll::Ready(Ok(_)) => Poll::Ready(Ok(())),
        Poll::Pending => Poll::Pending,
    }
}

/// Whether a poll result holds no value.
pub open spec fn pending_or_error<T>(polled: Poll<Result<T, io::Error>>) -> bool {
    !(polled matches Poll::Ready(Ok(_)))
}

/// Whether a poll result is an error.
pub open spec fn error<T>(polled: Poll<Result<T, io::Error>>) -> bool {
    polled matches Poll::Ready(Err(_))
}

impl<T: Default + Copy> PollUtil for Poll<Result<T, io::Error>> {
    type T = T;

    open spec fn polled(&self) -> Poll<Result<T, io::Error>> {
        *self
    }

    fn drop_poll_result(self) -> Poll<Result<(), io::Error>> {
        match self {
            Poll::Ready(Err(e)) => Poll::Ready(Err(e)),
            Poll::Ready(Ok(_)) => Poll::Ready(Ok(())),
            Poll::Pending => Poll::Pending,
        }
    }

    fn is_pending_or_error(&self) -> bool {
        match self {
            Poll::Ready(Err(_)) => true,
            Poll::Ready(Ok(_)) => false,
            Poll::Pending => true,
        }
    }

    fn is_error(&self) -> bool {
        match self {
            Poll::Ready(Err(_)) => true,
            Poll::Ready(Ok(_)) => false,
            Poll::Pending => false,
        }
    }

    fn get_poll_res(&self) -> (r: T)
        ensures
            pending_or_error(*self) ==> call_ensures(T::default, (), r),
    {
        match self {
            Poll::Ready(Err(_)) => T::default(),
            Poll::Ready(Ok(t)) => *t,
            Poll::Pending => T::default(),
        }
    }
}

/// A poll result tells the same with its value as without, and what is neither pending nor an
/// error is a value.
pub proof fn law_dropping_keeps_the_outcome<T>(polled: Poll<Result<T, io::Error>>)
    ensures
        pending_or_error(dropped(polled)) == pending_or_error(polled),
        error(dropped(polled)) == error(polled),
        error(polled) ==> pending_or_error(polled),
        pending_or_error(polled) && !error(polled) <==> polled is Pending,
        dropped(dropped(polled)) == dropped(polled),
{
}

/// One of the two streams that are relayed.
#[derive(Clone, Copy, Debug, PartialEq, Eq, Structural)]
pub enum Side {
    Inbound,
    Outbound,
}

/// One direction of a relay. The bytes that go over it are added to both counters, where there
/// are counters, and are copied through a buffer of `capacity` bytes.
pub struct CopyJob<C> {
    pub from: Side,
    pub to: Side,
    pub counters: C,
    pub capacity: usize,
}

/// The two directions of a relay, which run at once. The relay is over as soon as one of them is.
pub struct RelayJobs<C> {
    pub down: CopyJob<C>,
    pub up: CopyJob<C>,
}

/// What happened before a step of a relay.
pub enum RelayEvent<E> {
    /// The relay begins.
    Start,
    /// One of the directions ended.
    Ended(Result<(), E>),
}

impl<C> RelayJobs<C> {
    /// The jobs copy down and up between the two streams, with these counters and through
    /// buffers of `capacity` bytes.
    pub open spec fn copies(&self, down: C, up: C, capacity: int) -> bool {
        &&& self.down.from == Side::Outbound && self.down.to == Side::Inbound
        &&& self.up.from == Side::Inbound && self.up.to == Side::Outbound
        &&& self.down.counters == down
        &&& self.up.counters == up
        &&& self.down.capacity == capacity
        &&& self.up.capacity == capacity
    }
}

/// A step of a relay between two streams: both directions are copied through buffers of
/// `relay_buffer_size` times `buffer_unit` bytes. The relay succeeds however a direction ended.
pub fn relay<E>(event: RelayEvent<E>, relay_buffer_size: usize, buffer_unit: usize) -> (r: Step<
    RelayJobs<()>,
    Result<(), E>,
>)
    requires
        event is Start ==> buffer_unit * relay_buffer_size <= usize::MAX,
    ensures
        match event {
            RelayEvent::Start => r matches Step::Perform(jobs) && jobs.copies(
                (),
                (),
                buffer_unit * relay_buffer_size,
            ),
            RelayEvent::Ended(_) => r == Step::<RelayJobs<()>, _>::Return(Ok::<(), E>(())),
        },
{
    match event {
        RelayEvent::Start => {
            let capacity: usize = buffer_unit * relay_buffer_size;
            Step::Perform(
                RelayJobs {
                    down: CopyJob {
                        from: Side::Outbound,
                        to: Side::Inbound,
                        counters: (),
                        capacity,
                    },
                    up: CopyJob {
                        from: Side::Inbound,
                        to: Side::Outbound,
                        counters: (),
                        capacity,
                    },
                },
            )
        },
        RelayEvent::Ended(_) => Step::Return(Ok(())),
    }
}

/// A step of a relay that counts its bytes: those that come down are added to the counters of
/// the outbound and the inbound for that direction, and those that go up likewise.
pub fn relay_with_atomic_counter<'a, E>(
    event: RelayEvent<E>,
    inbound_up: &'a AtomicU64,
    inbound_down: &'a AtomicU64,
    outbound_up: &'a AtomicU64,
    outbound_down: &'a AtomicU64,
    relay_buffer_size: usize,
    buffer_unit: usize,
) -> (r: Step<RelayJobs<(&'a AtomicU64, &'a AtomicU64)>, Result<(), E>>)
    requires
        event is Start ==> buffer_unit * relay_buffer_size <= usize::MAX,
    ensures
        match event {
            RelayEvent::Start => r matches Step::Perform(jobs) && jobs.copies(
                (outbound_down, inbound_down),
                (inbound_up, outbound_up),
                buffer_unit * relay_buffer_size,
            ),
            RelayEvent::Ended(_) => r == Step::<
                RelayJobs<(&'a AtomicU64, &'a AtomicU64)>,
                _,
            >::Return(Ok::<(), E>(())),
        },
{
    match event {
        RelayEvent::Start => {
            let capacity: usize = buffer_unit * relay_buffer_size;
            Step::Perform(
                RelayJobs {
                    down: CopyJob {
                        from: Side::Outbound,
                        to: Side::Inbound,
                        counters: (outbound_down, inbound_down),
                        capacity,
                    },
                    up: CopyJob {
                        from: Side::Inbound,
                        to: Side::Outbound,
                        counters: (inbound_up, outbound_up),
                        capacity,
                    },
                },
            )
        },
        RelayEvent::Ended(_) => Step::Return(Ok(())),
    }
}

/// A relay carries both streams whole: each is read by one direction and written by the other,
/// and neither copies a stream onto itself.
pub proof fn law_relay_directions<C>(jobs: RelayJobs<C>, down: C, up: C, capacity: int)
    requires
        jobs.copies(down, up, capacity),
    ensures
        jobs.down.from == jobs.up.to,
        jobs.down.to == jobs.up.from,
        jobs.down.from != jobs.down.to,
        jobs.down.capacity == jobs.up.capacity,
{
}

/// A read into a buffer loses nothing and makes nothing up: it asks for room that the buffer has,
/// and changes nothing by asking; what the source then gave stands behind what the buffer held,
/// and its length is the result. A buffer that can hold no more reads nothing.
pub proof fn law_read_into_buffer<E>(
    buf: &mut BytesMut,
    event: ReadBufEvent<'_, E>,
    step: Step<usize, Poll<Result<usize, E>>>,
)
    requires
        call_ensures(poll_read_buf::<E>, (buf, event), step),
        mut_bytes(*old(buf)).len() <= max_len(),
        event matches ReadBufEvent::Polled(Poll::Ready(Ok(bytes))) ==> bytes@.len() <= max_len(),
    ensures
        match event {
            ReadBufEvent::Start => {
                &&& mut_bytes(*final(buf)) == mut_bytes(*old(buf))
                &&& if mut_bytes(*old(buf)).len() < isize::MAX {
                    step matches Step::Perform(window) && 0 < window && mut_bytes(*old(buf)).len()
                        + window <= isize::MAX
                } else {
                    step matches Step::Return(Poll::Ready(Ok(n))) && n == 0
                }
            },
            ReadBufEvent::Polled(Poll::Pending) => {
                &&& mut_bytes(*final(buf)) == mut_bytes(*old(buf))
                &&& step matches Step::Return(Poll::Pending)
            },
            ReadBufEvent::Polled(Poll::Ready(Err(e))) => {
                &&& mut_bytes(*final(buf)) == mut_bytes(*old(buf))
                &&& step matches Step::Return(Poll::Ready(Err(carried))) && carried == e
            },
            ReadBufEvent::Polled(Poll::Ready(Ok(bytes))) => {
                &&& mut_bytes(*final(buf)) == mut_bytes(*old(buf)) + bytes@
                &&& step matches Step::Return(Poll::Ready(Ok(n))) && n == bytes@.len()
            },
        },
{
}

/// A read asks for the whole window that it is offered, and is over where it is offered none.
pub proof fn law_window<E>(window: Option<usize>, step: Step<usize, Poll<Result<usize, E>>>)
    requires
        call_ensures(read_into_window::<E>, (window,), step),
    ensures
        window matches Some(n) ==> (step matches Step::Perform(asked) && asked == n),
        window is None ==> (step matches Step::Return(Poll::Ready(Ok(read))) && read == 0),
{
}

/// The questions to a poll result answer for its three cases: a value, an error, or neither yet.
/// Without its value it is the same case, and keeps its error.
pub proof fn law_poll_cases<T: Default + Copy>(
    polled: &Poll<Result<T, io::Error>>,
    without: Poll<Result<(), io::Error>>,
    valueless: bool,
    failed: bool,
    value: T,
)
    requires
        call_ensures(
            <Poll<Result<T, io::Error>> as PollUtil>::drop_poll_result,
            (*polled,),
            without,
        ),
        call_ensures(
            <Poll<Result<T, io::Error>> as PollUtil>::is_pending_or_error,
            (polled,),
            valueless,
        ),
        call_ensures(<Poll<Result<T, io::Error>> as PollUtil>::is_error, (polled,), failed),
        call_ensures(<Poll<Result<T, io::Error>> as PollUtil>::get_poll_res, (polled,), value),
    ensures
        match *polled {
            Poll::Ready(Ok(t)) => {
                &&& without matches Poll::Ready(Ok(_))
                &&& !valueless
                &&& !failed
                &&& value == t
            },
            Poll::Ready(Err(e)) => {
                &&& without matches Poll::Ready(Err(carried)) && carried == e
                &&& valueless
                &&& failed
                &&& call_ensures(T::default, (), value)
            },
            Poll::Pending => {
                &&& without is Pending
                &&& valueless
                &&& !failed
                &&& call_ensures(T::default, (), value)
            },
        },
{
}

/// A relay carries what comes from the outbound to the inbound and what comes from the inbound to
/// the outbound, through buffers of as many units as it is told, and succeeds whatever ends it.
pub proof fn law_relay<E>(
    outcome: Result<(), E>,
    relay_buffer_size: usize,
    buffer_unit: usize,
    first: Step<RelayJobs<()>, Result<(), E>>,
    second: Step<RelayJobs<()>, Result<(), E>>,
)
    requires
        call_ensures(relay::<E>, (RelayEvent::Start, relay_buffer_size, buffer_unit), first),
        call_ensures(
            relay::<E>,
            (RelayEvent::Ended(outcome), relay_buffer_size, buffer_unit),
            second,
        ),
    ensures
        first matches Step::Perform(jobs) && {
            &&& jobs.down.from == Side::Outbound && jobs.down.to == Side::Inbound
            &&& jobs.up.from == Side::Inbound && jobs.up.to == Side::Outbound
            &&& jobs.down.capacity == buffer_unit * relay_buffer_size
            &&& jobs.up.capacity == buffer_unit * relay_buffer_size
        },
        second matches Step::Return(Ok(_)),
{
}

/// A counted relay carries the same as one that is not counted. What comes down is added to both
/// counters for that direction, and what goes up to both of the other.
pub proof fn law_counted_relay<'a, E>(
    outcome: Result<(), E>,
    inbound_up: &'a AtomicU64,
    inbound_down: &'a AtomicU64,
    outbound_up: &'a AtomicU64,
    outbound_down: &'a AtomicU64,
    relay_buffer_size: usize,
    buffer_unit: usize,
    first: Step<RelayJobs<(&'a AtomicU64, &'a AtomicU64)>, Result<(), E>>,
    second: Step<RelayJobs<(&'a AtomicU64, &'a AtomicU64)>, Result<(), E>>,
)
    requires
        call_ensures(
            relay_with_atomic_counter::<E>,
            (
                RelayEvent::Start,
                inbound_up,
                inbound_down,
                outbound_up,
                outbound_down,
                relay_buffer_size,
                buffer_unit,
            ),
            first,
        ),
        call_ensures(
            relay_with_atomic_counter::<E>,
            (
                RelayEvent::Ended(outcome),
                inbound_up,
                inbound_down,
                outbound_up,
                outbound_down,
                relay_buffer_size,
                buffer_unit,
            ),
            second,
        ),
    ensures
        first matches Step::Perform(jobs) && {
            &&& jobs.down.from == Side::Outbound && jobs.down.to == Side::Inbound
            &&& jobs.up.from == Side::Inbound && jobs.up.to == Side::Outbound
            &&& jobs.down.counters == (outbound_down, inbound_down)
            &&& jobs.up.counters == (inbound_up, outbound_up)
            &&& jobs.down.capacity == buffer_unit * relay_buffer_size
            &&& jobs.up.capacity == buffer_unit * relay_buffer_size
        },
        second matches Step::Return(Ok(_)),
{
}

} // verus!
