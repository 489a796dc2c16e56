//! Streams that lead nowhere.
use crate::proxy::{ChainableStreamBuilder, ProtocolType, StreamBuilder};
use vstd::prelude::*;

verus! {

/// Builds no stream: a chain that ends here is closed before anything is built.
#[derive(Clone, Copy, Debug, PartialEq, Eq, Structural)]
pub struct BlackHoleStreamBuilder;

impl ChainableStreamBuilder for BlackHoleStreamBuilder {
    open spec fn as_builder(&self) -> StreamBuilder {
        StreamBuilder::BlackHole(*self)
    }

    fn into_box(self) -> Box<StreamBuilder> {
        Box::new(StreamBuilder::BlackHole(self))
    }

    fn clone_box(&self) -> Box<StreamBuilder> {
        Box::new(StreamBuilder::BlackHole(*self))
    }

    fn protocol_type(&self) -> ProtocolType {
        ProtocolType::Blackhole
    }
}

/// The boxed forms of a builder are of its protocol, and all of them say so.
pub proof fn law_boxed_blackhole(
    builder: &BlackHoleStreamBuilder,
    boxed: Box<StreamBuilder>,
    cloned: Box<StreamBuilder>,
    kind: ProtocolType,
    boxed_kind: ProtocolType,
    cloned_kind: ProtocolType,
)
    requires
        call_ensures(<BlackHoleStreamBuilder as ChainableStreamBuilder>::into_box, (*builder,), boxed),
        call_ensures(<BlackHoleStreamBuilder as ChainableStreamBuilder>::clone_box, (builder,), cloned),
        call_ensures(
            <BlackHoleStreamBuilder as ChainableStreamBuilder>::protocol_type,
            (builder,),
            kind,
        ),
        call_ensures(StreamBuilder::protocol_type, (&*boxed,), boxed_kind),
        call_ensures(StreamBuilder::protocol_type, (&*cloned,), cloned_kind),
    ensures
        *boxed matches StreamBuilder::BlackHole(_),
        *cloned matches StreamBuilder::BlackHole(_),
        kind == ProtocolType::Blackhole,
        boxed_kind == ProtocolType::Blackhole,
        cloned_kind == ProtocolType::Blackhole,
{
}

} // verus!
