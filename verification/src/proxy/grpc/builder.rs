//! How a gRPC call is opened.
use crate::proxy::{ChainableStreamBuilder, ProtocolType, StreamBuilder};
use crate::step::Step;
use crate::web::{
    build_request, build_uri, header_fields, http_2, method_text, path_text, request_headers,
    request_method, request_uri, request_version, uri_accepted, uri_authority, uri_path,
    uri_scheme, version_text,
};
use http::uri::PathAndQuery;
use http::Request;
use vstd::prelude::*;
use vstd::utf8::encode_utf8;

verus! {

/// Opens gRPC calls on `host` at `path`.
pub struct GrpcStreamBuilder {
    pub host: String,
    pub path: PathAndQuery,
}

/// Why a call could not be opened; `E` is the error of the HTTP/2 layer.
pub enum BuildError<E> {
    /// The HTTP/2 layer failed.
    Transport(E),
    /// The request could not be made.
    Request(RequestError),
}

/// No URI can be made of the host and the path.
pub struct RequestError(pub http::Error);

/// What happened before a step of opening a call.
pub enum BuildEvent<E> {
    /// The opening begins.
    Start,
    /// The HTTP/2 handshake was made.
    Handshake(Result<(), E>),
    /// The request was sent.
    Sent(Result<(), E>),
}

/// What opening a call asks for.
pub enum BuildAction {
    /// Make the HTTP/2 handshake.
    Handshake,
    /// Send this request, whose body is still to come.
    SendRequest(Request<()>),
}

/// The fields that a request carries.
pub open spec fn request_fields() -> Map<Seq<char>, Seq<Seq<u8>>> {
    map![
        "content-type"@ => seq![encode_utf8("application/grpc"@)],
        "user-agent"@ => seq![encode_utf8("grpc-go/1.46.0"@)],
    ]
}

impl GrpcStreamBuilder {
    /// Whether a URI can be made of the host and the path.
    pub open spec fn is_addressable(&self) -> bool {
        uri_accepted("https"@, self.host@, path_text(self.path))
    }

    /// `request` asks for a gRPC call on the host at the path.
    pub open spec fn is_asked_by(&self, request: Request<()>) -> bool {
        &&& method_text(request_method(request)) == "POST"@
        &&& uri_scheme(request_uri(request)) == Some("https"@)
        &&& uri_authority(request_uri(request)) == Some(self.host@)
        &&& uri_path(request_uri(request)) == path_text(self.path)
        &&& version_text(request_version(request)) == "HTTP/2.0"@
        &&& header_fields(request_headers(request)) == request_fields()
    }

    pub fn new(host: String, path: PathAndQuery) -> (r: Self)
        ensures
            r.host == host,
            r.path == path,
    {
        Self { host, path }
    }

    /// The request that opens a call.
    pub fn req(&self) -> (r: Result<Request<()>, RequestError>)
        ensures
            match r {
                Ok(request) => self.is_addressable() && self.is_asked_by(request),
                Err(_) => !self.is_addressable(),
            },
            self.host@.len() == 0 ==> r is Err,
    {
        let uri = match build_uri("https", self.host.as_str(), self.path.as_str()) {
            Ok(uri) => uri,
            Err(e) => {
                return Err(RequestError(e));
            },
        };
        proof {
            reveal_strlit("POST");
            reveal_strlit("content-type");
            reveal_strlit("application/grpc");
            reveal_strlit("user-agent");
            reveal_strlit("grpc-go/1.46.0");
        }
        let request = build_request(
            "POST",
            uri,
            http_2(),
            ("content-type", "application/grpc"),
            ("user-agent", "grpc-go/1.46.0"),
        );
        assert("content-type"@ != "user-agent"@) by {
            assert("content-type"@[0] != "user-agent"@[0]);
        }
        assert(header_fields(request_headers(request)) =~= request_fields());
        Ok(request)
    }

    /// A step of opening a call on a connection: the handshake, then the request. The call is
    /// open once the request is sent.
    pub fn build_tcp<E>(&self, event: BuildEvent<E>) -> (r: Step<
        BuildAction,
        Result<(), BuildError<E>>,
    >)
        ensures
            self.opening(event, r),
    {
        match event {
            BuildEvent::Start => Step::Perform(BuildAction::Handshake),
            BuildEvent::Handshake(Ok(())) => match self.req() {
                Ok(request) => Step::Perform(BuildAction::SendRequest(request)),
                Err(e) => Step::Return(Err(BuildError::Request(e))),
            },
            BuildEvent::Sent(Ok(())) => Step::Return(Ok(())),
            BuildEvent::Handshake(Err(e)) | BuildEvent::Sent(Err(e)) => Step::Return(
                Err(BuildError::Transport(e)),
            ),
        }
    }

    /// `step` is what follows `event` when a call is opened.
    pub open spec fn opening<E>(
        &self,
        event: BuildEvent<E>,
        step: Step<BuildAction, Result<(), BuildError<E>>>,
    ) -> bool {
        match event {
            BuildEvent::Start => step matches Step::Perform(BuildAction::Handshake),
            BuildEvent::Handshake(Ok(_)) => if self.is_addressable() {
                step matches Step::Perform(BuildAction::SendRequest(request))
                    && self.is_asked_by(request)
            } else {
                step matches Step::Return(Err(BuildError::Request(_)))
            },
            BuildEvent::Sent(Ok(_)) => step matches Step::Return(Ok(_)),
            BuildEvent::Handshake(Err(e)) | BuildEvent::Sent(Err(e)) => step == Step::<
                BuildAction,
                _,
            >::Return(Err::<(), _>(BuildError::Transport(e))),
        }
    }

    /// A step of opening a call for datagrams: as for a connection where one is to be built
    /// inside, and nothing at all where not: the datagrams then go on as they are.
    pub fn build_udp<E>(&self, build_tcp_inside: bool, event: BuildEvent<E>) -> (r: Option<
        Step<BuildAction, Result<(), BuildError<E>>>,
    >)
        ensures
            match r {
                Some(step) => build_tcp_inside && self.opening(event, step),
                None => !build_tcp_inside,
            },
    {
        if build_tcp_inside {
            Some(self.build_tcp(event))
        } else {
            None
        }
    }
}

impl Clone for GrpcStreamBuilder {
    fn clone(&self) -> (r: Self)
        ensures
            r == *self,
    {
        Self { host: self.host.clone(), path: self.path.clone() }
    }
}

impl ChainableStreamBuilder for GrpcStreamBuilder {
    open spec fn as_builder(&self) -> StreamBuilder {
        StreamBuilder::Grpc(*self)
    }

    fn into_box(self) -> Box<StreamBuilder> {
        Box::new(StreamBuilder::Grpc(self))
    }

    fn clone_box(&self) -> Box<StreamBuilder> {
        Box::new(StreamBuilder::Grpc(self.clone()))
    }

    fn protocol_type(&self) -> ProtocolType {
        ProtocolType::Grpc
    }
}

/// A call is asked for by exactly one request, whatever the host and the path: a `POST` by
/// HTTP/2 to that path of that host over TLS, which says that the body is gRPC and who asks, and
/// has no other field. There is none just where no URI can be made of the host and the path.
pub proof fn law_request(
    builder: &GrpcStreamBuilder,
    r: Result<Request<()>, RequestError>,
    name: Seq<char>,
)
    requires
        call_ensures(GrpcStreamBuilder::req, (builder,), r),
    ensures
        r is Ok <==> uri_accepted("https"@, builder.host@, path_text(builder.path)),
        builder.host@.len() == 0 ==> r is Err,
        r matches Ok(request) ==> {
            let fields = header_fields(request_headers(request));
            &&& method_text(request_method(request)) == "POST"@
            &&& uri_scheme(request_uri(request)) == Some("https"@)
            &&& uri_authority(request_uri(request)) == Some(builder.host@)
            &&& uri_path(request_uri(request)) == path_text(builder.path)
            &&& version_text(request_version(request)) == "HTTP/2.0"@
            &&& fields.contains_key("content-type"@) && fields["content-type"@] == seq![
                encode_utf8("application/grpc"@),
            ]
            &&& fields.contains_key("user-agent"@) && fields["user-agent"@] == seq![
                encode_utf8("grpc-go/1.46.0"@),
            ]
            &&& fields.contains_key(name) ==> name == "content-type"@ || name == "user-agent"@
        },
{
    reveal_strlit("content-type");
    reveal_strlit("user-agent");
    assert("content-type"@[0] != "user-agent"@[0]);
}

/// Both requests ask for the same.
pub open spec fn is_same_request(a: Request<()>, b: Request<()>) -> bool {
    &&& method_text(request_method(a)) == method_text(request_method(b))
    &&& uri_scheme(request_uri(a)) == uri_scheme(request_uri(b))
    &&& uri_authority(request_uri(a)) == uri_authority(request_uri(b))
    &&& uri_path(request_uri(a)) == uri_path(request_uri(b))
    &&& version_text(request_version(a)) == version_text(request_version(b))
    &&& header_fields(request_headers(a)) == header_fields(request_headers(b))
}

/// A call is opened by a handshake and then by the request that `req` makes, and is open once
/// that is sent; a failure of either is carried on, and no request is sent that cannot be made.
pub proof fn law_opening<E>(
    builder: &GrpcStreamBuilder,
    event: BuildEvent<E>,
    step: Step<BuildAction, Result<(), BuildError<E>>>,
    request: Result<Request<()>, RequestError>,
)
    requires
        call_ensures(GrpcStreamBuilder::build_tcp::<E>, (builder, event), step),
        call_ensures(GrpcStreamBuilder::req, (builder,), request),
    ensures
        match event {
            BuildEvent::Start => step matches Step::Perform(BuildAction::Handshake),
            BuildEvent::Handshake(Ok(_)) => match request {
                Ok(made) => step matches Step::Perform(BuildAction::SendRequest(sent))
                    && is_same_request(sent, made),
                Err(_) => step matches Step::Return(Err(BuildError::Request(_))),
            },
            BuildEvent::Sent(Ok(_)) => step matches Step::Return(Ok(_)),
            BuildEvent::Handshake(Err(e)) | BuildEvent::Sent(Err(e)) => step matches Step::Return(
                Err(BuildError::Transport(carried)),
            ) && carried == e,
        },
{
}

/// For datagrams, a call is opened just where a connection is to be built inside, and in the same
/// way as for a connection.
pub proof fn law_opening_for_datagrams<E>(
    builder: &GrpcStreamBuilder,
    inside: bool,
    event: BuildEvent<E>,
    r: Option<Step<BuildAction, Result<(), BuildError<E>>>>,
    request: Result<Request<()>, RequestError>,
)
    requires
        call_ensures(GrpcStreamBuilder::build_udp::<E>, (builder, inside, event), r),
        call_ensures(GrpcStreamBuilder::req, (builder,), request),
    ensures
        r is Some <==> inside,
        r matches Some(step) ==> match event {
            BuildEvent::Start => step matches Step::Perform(BuildAction::Handshake),
            BuildEvent::Handshake(Ok(_)) => match request {
                Ok(made) => step matches Step::Perform(BuildAction::SendRequest(sent))
                    && is_same_request(sent, made),
                Err(_) => step matches Step::Return(Err(BuildError::Request(_))),
            },
            BuildEvent::Sent(Ok(_)) => step matches Step::Return(Ok(_)),
            BuildEvent::Handshake(Err(e)) | BuildEvent::Sent(Err(e)) => step matches Step::Return(
                Err(BuildError::Transport(carried)),
            ) && carried == e,
        },
{
}

/// A builder, its clone and its boxed forms open calls on the same host at the same path, and say
/// that they do so by gRPC.
pub proof fn law_copies_of_a_builder(
    host: String,
    path: PathAndQuery,
    builder: &GrpcStreamBuilder,
    copy: GrpcStreamBuilder,
    boxed: Box<StreamBuilder>,
    cloned: Box<StreamBuilder>,
    kind: ProtocolType,
    boxed_kind: ProtocolType,
)
    requires
        call_ensures(GrpcStreamBuilder::new, (host, path), *builder),
        call_ensures(<GrpcStreamBuilder as Clone>::clone, (builder,), copy),
        call_ensures(<GrpcStreamBuilder as ChainableStreamBuilder>::into_box, (*builder,), boxed),
        call_ensures(<GrpcStreamBuilder as ChainableStreamBuilder>::clone_box, (builder,), cloned),
        call_ensures(
            <GrpcStreamBuilder as ChainableStreamBuilder>::protocol_type,
            (builder,),
            kind,
        ),
        call_ensures(StreamBuilder::protocol_type, (&*boxed,), boxed_kind),
    ensures
        builder.host@ == host@ && path_text(builder.path) == path_text(path),
        copy.host@ == host@ && path_text(copy.path) == path_text(path),
        *boxed matches StreamBuilder::Grpc(inner) && inner.host@ == host@ && path_text(inner.path)
            == path_text(path),
        *cloned matches StreamBuilder::Grpc(inner) && inner.host@ == host@ && path_text(inner.path)
            == path_text(path),
        kind == ProtocolType::Grpc,
        boxed_kind == ProtocolType::Grpc,
{
}

} // verus!
