//! Streams that go on as they are.
use crate::proxy::{ChainableStreamBuilder, ProtocolType, StreamBuilder};
use vstd::prelude::*;

verus! {

/// Adds nothing to a stream.
#[derive(Clone, Copy, Debug, PartialEq, Eq, Structural)]
pub struct DirectStreamBuilder;

impl DirectStreamBuilder {
    /// The stream itself.
    pub fn build_tcp<S, E>(&self, io: S) -> (r: Result<S, E>)
        ensures
            r == Ok::<S, E>(io),
    {
        Ok(io)
    }

    /// The datagrams themselves, whether or not a connection is to be built inside.
    pub fn build_udp<S, E>(&self, io: S, _build_tcp_inside: bool) -> (r: Result<S, E>)
        ensures
            r == Ok::<S, E>(io),
    {
        Ok(io)
    }
}

impl ChainableStreamBuilder for DirectStreamBuilder {
    open spec fn as_builder(&self) -> StreamBuilder {
        StreamBuilder::Direct(*self)
    }

    fn into_box(self) -> Box<StreamBuilder> {
        Box::new(StreamBuilder::Direct(self))
    }

    fn clone_box(&self) -> Box<StreamBuilder> {
        Box::new(StreamBuilder::Direct(*self))
    }

    fn protocol_type(&self) -> ProtocolType {
        ProtocolType::Direct
    }
}

/// A stream goes on as it is, and so do datagrams, whether or not a connection is to be built
/// inside.
pub proof fn law_passes_on<S, E>(
    builder: &DirectStreamBuilder,
    io: S,
    inside: bool,
    stream: Result<S, E>,
    datagrams: Result<S, E>,
)
    requires
        call_ensures(DirectStreamBuilder::build_tcp::<S, E>, (builder, io), stream),
        call_ensures(DirectStreamBuilder::build_udp::<S, E>, (builder, io, inside), datagrams),
    ensures
        stream matches Ok(same) && same == io,
        datagrams matches Ok(same) && same == io,
{
}

/// The boxed forms of a builder are of its protocol, and all of them say so.
pub proof fn law_boxed_direct(
    builder: &DirectStreamBuilder,
    boxed: Box<StreamBuilder>,
    cloned: Box<StreamBuilder>,
    kind: ProtocolType,
    boxed_kind: ProtocolType,
    cloned_kind: ProtocolType,
)
    requires
        call_ensures(<DirectStreamBuilder as ChainableStreamBuilder>::into_box, (*builder,), boxed),
        call_ensures(<DirectStreamBuilder as ChainableStreamBuilder>::clone_box, (builder,), cloned),
        call_ensures(
            <DirectStreamBuilder as ChainableStreamBuilder>::protocol_type,
            (builder,),
            kind,
        ),
        call_ensures(StreamBuilder::protocol_type, (&*boxed,), boxed_kind),
        call_ensures(StreamBuilder::protocol_type, (&*cloned,), cloned_kind),
    ensures
        *boxed matches StreamBuilder::Direct(_),
        *cloned matches StreamBuilder::Direct(_),
        kind == ProtocolType::Direct,
        boxed_kind == ProtocolType::Direct,
        cloned_kind == ProtocolType::Direct,
{
}

} // verus!
