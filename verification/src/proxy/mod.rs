//! The protocols that a proxy chain is made of.
pub mod blackhole;
pub mod direct;
pub mod grpc;
pub mod http_inbound;

use self::blackhole::BlackHoleStreamBuilder;
use self::direct::DirectStreamBuilder;
use self::grpc::builder::GrpcStreamBuilder;
use vstd::prelude::*;

verus! {

/// The protocol of one link of a chain.
#[derive(Clone, Copy, Debug, PartialEq, Eq, Structural)]
pub enum ProtocolType {
    Direct,
    Blackhole,
    Grpc,
}

/// A builder of any protocol.
pub enum StreamBuilder {
    Direct(DirectStreamBuilder),
    BlackHole(BlackHoleStreamBuilder),
    Grpc(GrpcStreamBuilder),
}

impl StreamBuilder {
    /// The protocol of the builder.
    pub open spec fn spec_protocol_type(&self) -> ProtocolType {
        match self {
            StreamBuilder::Direct(_) => ProtocolType::Direct,
            StreamBuilder::BlackHole(_) => ProtocolType::Blackhole,
            StreamBuilder::Grpc(_) => ProtocolType::Grpc,
        }
    }

    /// The protocol of the builder.
    pub fn protocol_type(&self) -> (r: ProtocolType)
        ensures
            r == self.spec_protocol_type(),
    {
        match self {
            StreamBuilder::Direct(builder) => builder.protocol_type(),
            StreamBuilder::BlackHole(builder) => builder.protocol_type(),
            StreamBuilder::Grpc(builder) => builder.protocol_type(),
        }
    }
}

/// A builder that can be a link of a chain.
pub trait ChainableStreamBuilder: Sized {
    /// The builder as one of any protocol.
    spec fn as_builder(&self) -> StreamBuilder;

    /// The builder as one of any protocol.
    fn into_box(self) -> (r: Box<StreamBuilder>)
        ensures
            *r == self.as_builder(),
    ;

    /// A copy of the builder, as one of any protocol.
    fn clone_box(&self) -> (r: Box<StreamBuilder>)
        ensures
            *r == self.as_builder(),
    ;

    /// The protocol of the builder.
    fn protocol_type(&self) -> (r: ProtocolType)
        ensures
            r == self.as_builder().spec_protocol_type(),
    ;
}

} // verus!
