//! An HTTP proxy as an inbound: `CONNECT` opens a tunnel, any other request is forwarded.
use crate::step::Step;
use crate::web::{authority_text, header_fields, method_text, remove_field, uri_authority};
use http::{HeaderMap, HeaderValue, Method, Uri};
use std::sync::atomic::AtomicU64;
use std::sync::Arc;
use vstd::hash_map::StringHashMap;
use vstd::prelude::*;

verus! {

/// The builders of the outbounds, by tag.
#[verifier::reject_recursive_types(B)]
pub struct OutboundMap<B> {
    builders: StringHashMap<B>,
}

impl<B> View for OutboundMap<B> {
    type V = Map<Seq<char>, B>;

    closed spec fn view(&self) -> Map<Seq<char>, B> {
        self.builders@
    }
}

impl<B> OutboundMap<B> {
    /// No outbound.
    pub fn new() -> (r: Self)
        ensures
            r@ == Map::<Seq<char>, B>::empty(),
    {
        OutboundMap { builders: StringHashMap::new() }
    }

    /// Adds an outbound, in place of the one that had its tag.
    pub fn insert(&mut self, tag: String, builder: B)
        ensures
            final(self)@ == old(self)@.insert(tag@, builder),
    {
        self.builders.insert(tag, builder);
    }

    /// The builder of the outbound that has the tag.
    pub fn get(&self, tag: &str) -> (r: Option<&B>)
        ensures
            match r {
                Some(builder) => self@.contains_key(tag@) && *builder == self@[tag@],
                None => !self@.contains_key(tag@),
            },
    {
        self.builders.get(tag)
    }
}

/// An HTTP inbound. `B` builds the streams of an outbound, `R` finds the outbound of an address.
#[verifier::reject_recursive_types(B)]
pub struct HttpInbound<B, R> {
    pub inner_map: Arc<OutboundMap<B>>,
    pub router: Arc<R>,
    pub enable_api_server: bool,
    pub in_counter_up: Option<&'static AtomicU64>,
    pub in_counter_down: Option<&'static AtomicU64>,
    pub relay_buffer_size: usize,
}

/// A response that the proxy gives by itself.
pub struct Reply {
    pub status: u16,
    pub body: &'static str,
}

/// What happened on a client's connection.
pub enum ConnEvent<'a, E> {
    /// The client connected.
    Accepted,
    /// A request with this method came.
    Request(&'a Method),
    /// The connection is over.
    Closed(Result<(), E>),
}

/// How the names of header fields are written.
#[derive(Clone, Copy, Debug, PartialEq, Eq, Structural)]
pub struct HeaderCase {
    /// As they came.
    pub preserve: bool,
    /// In title case, where they did not come from the other side.
    pub title: bool,
}

/// What serving a connection asks for.
pub enum ConnAction {
    /// Serve the requests, with header names written so.
    Serve(HeaderCase),
    /// Answer the request by a tunnel to the address that it names.
    Connect,
    /// Answer the request by the server that it is forwarded to, with header names written so.
    Forward(HeaderCase),
}

/// The answer to a `CONNECT` request.
pub enum ConnectAnswer<A> {
    /// Give the reply, and open a tunnel to the address once the connection is handed over.
    Tunnel(A, Reply),
    /// Give the reply.
    Refuse(Reply),
}

/// What happened before a step of a tunnel; `A` is an address.
pub enum TunnelEvent<A, E> {
    /// The router named the outbound.
    Routed,
    /// The builder of the outbound was asked whether it leads nowhere. The client asked for
    /// `addr`.
    Inspected { blackhole: bool, addr: A },
    /// A stream was built to the address.
    Connected(Result<(), E>),
    /// The relay is over.
    Relayed(Result<(), E>),
}

/// What a tunnel asks for.
pub enum TunnelAction<'a, B, A> {
    /// Ask this builder whether it leads nowhere.
    Inspect(&'a B),
    /// Build a stream to this address, by this builder.
    Connect { builder: &'a B, addr: A },
    /// Relay, with buffers of this many units.
    Relay { relay_buffer_size: usize },
    /// Relay, with buffers of this many units, and count the bytes on these counters of the
    /// inbound and on the counters that have these names.
    RelayCounted {
        in_up: &'static AtomicU64,
        in_down: &'static AtomicU64,
        out_up: String,
        out_down: String,
        relay_buffer_size: usize,
    },
}

/// The name of a traffic counter of an outbound.
pub open spec fn counter_name(tag: Seq<char>, direction: Seq<char>) -> Seq<char> {
    "outbound>>>"@ + tag + ">>>traffic>>>"@ + direction
}

/// The name of a traffic counter of an outbound.
fn outbound_counter(tag: &str, direction: &str) -> (r: String)
    ensures
        r@ == counter_name(tag@, direction@),
{
    "outbound>>>".to_owned().concat(tag).concat(">>>traffic>>>").concat(direction)
}

impl<B, R> HttpInbound<B, R> {
    pub fn new(
        inner_map: Arc<OutboundMap<B>>,
        router: Arc<R>,
        enable_api_server: bool,
        in_counter_up: Option<&'static AtomicU64>,
        in_counter_down: Option<&'static AtomicU64>,
        relay_buffer_size: usize,
    ) -> (r: Self)
        ensures
            r.inner_map == inner_map,
            r.router == router,
            r.enable_api_server == enable_api_server,
            r.in_counter_up == in_counter_up,
            r.in_counter_down == in_counter_down,
            r.relay_buffer_size == relay_buffer_size,
    {
        Self {
            router,
            enable_api_server,
            in_counter_up,
            in_counter_down,
            relay_buffer_size,
            inner_map,
        }
    }

    /// A step of serving a connection: a `CONNECT` request is answered by a tunnel, any other is
    /// forwarded, and header names are written as they came. Serving succeeds however the
    /// connection ended.
    pub fn serve_http_conn<E>(&self, event: ConnEvent<'_, E>) -> (r: Step<
        ConnAction,
        Result<(), E>,
    >)
        ensures
            match event {
                ConnEvent::Accepted => r matches Step::Perform(ConnAction::Serve(case))
                    && case.preserve && case.title,
                ConnEvent::Request(method) => if method_text(*method) == "CONNECT"@ {
                    r matches Step::Perform(ConnAction::Connect)
                } else {
                    r matches Step::Perform(ConnAction::Forward(case)) && case.preserve
                        && case.title
                },
                ConnEvent::Closed(_) => r == Step::<ConnAction, _>::Return(Ok::<(), E>(())),
            },
    {
        let case = HeaderCase { preserve: true, title: true };
        match event {
            ConnEvent::Accepted => Step::Perform(ConnAction::Serve(case)),
            ConnEvent::Request(method) => {
                if method.as_str().to_owned() == "CONNECT".to_owned() {
                    Step::Perform(ConnAction::Connect)
                } else {
                    Step::Perform(ConnAction::Forward(case))
                }
            },
            ConnEvent::Closed(_) => Step::Return(Ok(())),
        }
    }

    /// Whether a step of a tunnel through `ob` can follow `event`: the outbound exists, and
    /// counting has its counters.
    pub open spec fn can_follow<A, E>(&self, ob: Seq<char>, event: TunnelEvent<A, E>) -> bool {
        match event {
            TunnelEvent::Routed => self.inner_map@.contains_key(ob),
            TunnelEvent::Inspected { blackhole, .. } => !blackhole
                ==> self.inner_map@.contains_key(ob),
            TunnelEvent::Connected(Ok(_)) => self.enable_api_server ==> self.in_counter_up is Some
                && self.in_counter_down is Some,
            _ => true,
        }
    }

    /// A step of a tunnel through the outbound `ob`, which the router named. A tunnel that leads
    /// nowhere ends at once. Any other is connected by the builder of the outbound to the address
    /// that the client asked for, and relayed, and counted if the inbound has an API server.
    pub fn tunnel<A, E>(&self, ob: &str, event: TunnelEvent<A, E>) -> (r: Step<
        TunnelAction<'_, B, A>,
        Result<(), E>,
    >)
        requires
            self.can_follow(ob@, event),
        ensures
            match event {
                TunnelEvent::Routed => r matches Step::Perform(TunnelAction::Inspect(builder))
                    && *builder == self.inner_map@[ob@],
                TunnelEvent::Inspected { blackhole, addr } => if blackhole {
                    r matches Step::Return(Ok(_))
                } else {
                    r matches Step::Perform(TunnelAction::Connect { builder, addr: to })
                        && *builder == self.inner_map@[ob@] && to == addr
                },
                TunnelEvent::Connected(Ok(_)) => if self.enable_api_server {
                    r matches Step::Perform(
                        TunnelAction::RelayCounted {
                            in_up,
                            in_down,
                            out_up,
                            out_down,
                            relay_buffer_size,
                        },
                    ) && {
                        &&& self.in_counter_up == Some(in_up)
                        &&& self.in_counter_down == Some(in_down)
                        &&& out_up@ == counter_name(ob@, "uplink"@)
                        &&& out_down@ == counter_name(ob@, "downlink"@)
                        &&& relay_buffer_size == self.relay_buffer_size
                    }
                } else {
                    r matches Step::Perform(TunnelAction::Relay { relay_buffer_size })
                        && relay_buffer_size == self.relay_buffer_size
                },
                TunnelEvent::Connected(Err(e)) => r == Step::<TunnelAction<'_, B, A>, _>::Return(
                    Err::<(), E>(e),
                ),
                TunnelEvent::Relayed(outcome) => r == Step::<TunnelAction<'_, B, A>, _>::Return(
                    outcome,
                ),
            },
    {
        match event {
            TunnelEvent::Routed => Step::Perform(
                TunnelAction::Inspect(self.inner_map.get(ob).unwrap()),
            ),
            TunnelEvent::Inspected { blackhole, addr } => {
                if blackhole {
                    return Step::Return(Ok(()));
                }
                let builder = self.inner_map.get(ob).unwrap();
                Step::Perform(TunnelAction::Connect { builder, addr })
            },
            TunnelEvent::Connected(Ok(())) => {
                if self.enable_api_server {
                    Step::Perform(
                        TunnelAction::RelayCounted {
                            in_up: self.in_counter_up.unwrap(),
                            in_down: self.in_counter_down.unwrap(),
                            out_up: outbound_counter(ob, "uplink"),
                            out_down: outbound_counter(ob, "downlink"),
                            relay_buffer_size: self.relay_buffer_size,
                        },
                    )
                } else {
                    Step::Perform(
                        TunnelAction::Relay { relay_buffer_size: self.relay_buffer_size },
                    )
                }
            },
            TunnelEvent::Connected(Err(e)) => Step::Return(Err(e)),
            TunnelEvent::Relayed(outcome) => Step::Return(outcome),
        }
    }
}

impl<B, R> Clone for HttpInbound<B, R> {
    fn clone(&self) -> (r: Self)
        ensures
            r == *self,
    {
        HttpInbound {
            inner_map: self.inner_map.clone(),
            router: self.router.clone(),
            enable_api_server: self.enable_api_server,
            in_counter_up: self.in_counter_up,
            in_counter_down: self.in_counter_down,
            relay_buffer_size: self.relay_buffer_size,
        }
    }
}

/// `addr` is what `parse` makes of the authority of `uri`, where there is one and it can.
pub open spec fn names_addr<A, E, P: Fn(&str) -> Result<A, E>>(
    uri: Uri,
    parse: P,
    addr: Option<A>,
) -> bool {
    match uri_authority(uri) {
        None => addr is None,
        Some(authority) => exists|text: &str, parsed: Result<A, E>|
            {
                &&& text@ == authority
                &&& #[trigger] call_ensures(parse, (text,), parsed)
                &&& addr == match parsed {
                    Ok(addr) => Some(addr),
                    Err(_) => None,
                }
            },
    }
}

/// The address that the authority of `uri` stands for, as `parse` reads it.
pub fn host_addr<A, E, P: Fn(&str) -> Result<A, E>>(uri: &Uri, parse: P) -> (r: Option<A>)
    requires
        forall|text: &str| #[trigger] call_requires(parse, (text,)),
    ensures
        names_addr(*uri, parse, r),
{
    match authority_text(uri) {
        Some(text) => match parse(text) {
            Ok(addr) => Some(addr),
            Err(_) => None,
        },
        None => None,
    }
}

/// The answer to a `CONNECT` request for `uri`: a tunnel where it names an address, and a
/// refusal where not.
pub fn proxy_connect<A, E, P: Fn(&str) -> Result<A, E>>(uri: &Uri, parse: P) -> (r: ConnectAnswer<
    A,
>)
    requires
        forall|text: &str| #[trigger] call_requires(parse, (text,)),
    ensures
        match r {
            ConnectAnswer::Tunnel(addr, reply) => {
                &&& names_addr(*uri, parse, Some(addr))
                &&& reply.status == 200
                &&& reply.body@ == ""@
            },
            ConnectAnswer::Refuse(reply) => {
                &&& names_addr(*uri, parse, None::<A>)
                &&& reply.status == 400
                &&& reply.body@ == "CONNECT must be to a socket address"@
            },
        },
{
    if let Some(addr) = host_addr(uri, parse) {
        ConnectAnswer::Tunnel(addr, Reply { status: 200, body: "" })
    } else {
        ConnectAnswer::Refuse(
            Reply { status: 400, body: "CONNECT must be to a socket address" },
        )
    }
}

/// What happened before a step of forwarding a request.
pub enum ProxyEvent<'a, T, E> {
    /// A request with this header came.
    Request(&'a mut HeaderMap<HeaderValue>),
    /// The server answered.
    Response(Result<T, E>),
}

/// What forwarding a request asks for.
pub enum ProxyAction {
    /// Send the request, with the header as it is now, to the server that it names.
    Forward,
}

/// A step of forwarding a request: its header is rid of the proxy's own fields, and the client
/// gets the server's response, or an empty one that says that the proxy failed.
pub fn proxy<T, E>(event: ProxyEvent<'_, T, E>) -> (r: Step<ProxyAction, Result<T, Reply>>)
    ensures
        match event {
            ProxyEvent::Request(headers) => {
                &&& header_fields(*final(headers)) == header_fields(*headers).remove_keys(
                    proxy_fields(),
                )
                &&& r matches Step::Perform(ProxyAction::Forward)
            },
            ProxyEvent::Response(Ok(response)) => r == Step::<ProxyAction, _>::Return(
                Ok::<T, Reply>(response),
            ),
            ProxyEvent::Response(Err(_)) => r matches Step::Return(Err(reply)) && reply.status
                == 500 && reply.body@ == ""@,
        },
{
    match event {
        ProxyEvent::Request(headers) => {
            remove_proxy_headers(headers);
            Step::Perform(ProxyAction::Forward)
        },
        ProxyEvent::Response(Ok(response)) => Step::Return(Ok(response)),
        ProxyEvent::Response(Err(_)) => Step::Return(Err(Reply { status: 500, body: "" })),
    }
}

/// The fields that concern the proxy alone.
pub open spec fn proxy_fields() -> Set<Seq<char>> {
    set![
        "accept-encoding"@,
        "connection"@,
        "proxy-connection"@,
        "proxy-authenticate"@,
        "proxy-authorization"@,
    ]
}

/// Takes the fields that are not to be forwarded out of the header of a request.
pub fn remove_proxy_headers(headers: &mut HeaderMap<HeaderValue>)
    ensures
        header_fields(*final(headers)) == header_fields(*old(headers)).remove_keys(
            proxy_fields(),
        ),
{
    proof {
        reveal_strlit("accept-encoding");
        reveal_strlit("connection");
        reveal_strlit("proxy-connection");
        reveal_strlit("proxy-authenticate");
        reveal_strlit("proxy-authorization");
    }
    remove_field(headers, "accept-encoding");
    remove_field(headers, "connection");
    remove_field(headers, "proxy-connection");
    remove_field(headers, "proxy-authenticate");
    remove_field(headers, "proxy-authorization");
    assert(header_fields(*headers) =~= header_fields(*old(headers)).remove_keys(proxy_fields()));
}

/// After the removal none of the proxy's fields is left, every other field is as it was, and
/// removing again changes nothing.
pub proof fn law_removal_is_exact(fields: Map<Seq<char>, Seq<Seq<u8>>>, name: Seq<char>)
    ensures
        ({
            let left = fields.remove_keys(proxy_fields());
            &&& proxy_fields().contains(name) ==> !left.contains_key(name)
            &&& !proxy_fields().contains(name) ==> left.contains_key(name)
                == fields.contains_key(name)
            &&& left.contains_key(name) ==> left[name] == fields[name]
            &&& left.remove_keys(proxy_fields()) == left
        }),
{
    let left = fields.remove_keys(proxy_fields());
    assert(left.remove_keys(proxy_fields()) =~= left);
}

/// Two outbounds share no counter, and no counter counts both directions.
pub proof fn law_counters_are_apart(tag: Seq<char>, other: Seq<char>)
    ensures
        counter_name(tag, "uplink"@) == counter_name(other, "uplink"@) ==> tag == other,
        counter_name(tag, "downlink"@) == counter_name(other, "downlink"@) ==> tag == other,
        counter_name(tag, "uplink"@) != counter_name(other, "downlink"@),
{
    if counter_name(tag, "uplink"@) == counter_name(other, "uplink"@) {
        lemma_counter_name_injective(tag, other, "uplink"@);
    }
    if counter_name(tag, "downlink"@) == counter_name(other, "downlink"@) {
        lemma_counter_name_injective(tag, other, "downlink"@);
    }
    reveal_strlit("uplink");
    reveal_strlit("downlink");
    let up = counter_name(tag, "uplink"@);
    let down = counter_name(other, "downlink"@);
    assert(up[up.len() - 6] == "uplink"@[0]);
    assert(down[down.len() - 6] == "downlink"@[2]);
}

proof fn lemma_counter_name_injective(tag: Seq<char>, other: Seq<char>, direction: Seq<char>)
    requires
        counter_name(tag, direction) == counter_name(other, direction),
    ensures
        tag == other,
{
    let name = counter_name(tag, direction);
    let prefix = "outbound>>>"@.len() as int;
    let fixed = prefix + ">>>traffic>>>"@.len() + direction.len();
    assert(name.len() == fixed + tag.len());
    assert(name.len() == fixed + other.len());
    assert(tag =~= name.subrange(prefix, prefix + tag.len()));
    assert(other =~= name.subrange(prefix, prefix + other.len()));
}

/// A header is forwarded without the five fields `accept-encoding`, `connection`,
/// `proxy-connection`, `proxy-authenticate` and `proxy-authorization`. A field of any other name
/// has the values that it had, or is missing if it was.
pub proof fn law_five_fields_are_removed(headers: &mut HeaderMap<HeaderValue>, name: Seq<char>)
    requires
        call_ensures(remove_proxy_headers, (headers,), ()),
    ensures
        ({
            let before = header_fields(*old(headers));
            let after = header_fields(*final(headers));
            if name == "accept-encoding"@ || name == "connection"@ || name == "proxy-connection"@
                || name == "proxy-authenticate"@ || name == "proxy-authorization"@ {
                !after.contains_key(name)
            } else {
                &&& after.contains_key(name) <==> before.contains_key(name)
                &&& before.contains_key(name) ==> after[name] == before[name]
            }
        }),
{
}

/// A request is forwarded with just the five fields gone from its header that concern the proxy.
/// The client gets the response of the server as it is, and where there is none, an empty one
/// that says that the proxy failed.
pub proof fn law_forwarding<T, E>(
    headers: &mut HeaderMap<HeaderValue>,
    name: Seq<char>,
    first: Step<ProxyAction, Result<T, Reply>>,
    response: Result<T, E>,
    second: Step<ProxyAction, Result<T, Reply>>,
)
    requires
        call_ensures(proxy::<T, E>, (ProxyEvent::Request(headers),), first),
        call_ensures(proxy::<T, E>, (ProxyEvent::Response(response),), second),
    ensures
        first matches Step::Perform(ProxyAction::Forward),
        ({
            let before = header_fields(*old(headers));
            let after = header_fields(*final(headers));
            if name == "accept-encoding"@ || name == "connection"@ || name == "proxy-connection"@
                || name == "proxy-authenticate"@ || name == "proxy-authorization"@ {
                !after.contains_key(name)
            } else {
                &&& after.contains_key(name) <==> before.contains_key(name)
                &&& before.contains_key(name) ==> after[name] == before[name]
            }
        }),
        match response {
            Ok(answer) => second matches Step::Return(Ok(given)) && given == answer,
            Err(_) => second matches Step::Return(Err(reply)) && reply.status == 500
                && reply.body@.len() == 0,
        },
{
    reveal_strlit("");
}

/// What was found in an authority, or not, comes from a parse of it.
proof fn lemma_parsed<A, E, P: Fn(&str) -> Result<A, E>>(
    uri: Uri,
    parse: P,
    found: Option<A>,
    authority: Seq<char>,
)
    requires
        names_addr(uri, parse, found),
        uri_authority(uri) == Some(authority),
    ensures
        found matches Some(a) ==> exists|text: &str|
            text@ == authority && #[trigger] call_ensures(parse, (text,), Ok::<A, E>(a)),
        found is None ==> exists|text: &str, e: E|
            text@ == authority && #[trigger] call_ensures(parse, (text,), Err::<A, E>(e)),
{
    let (text, parsed) = choose|text: &str, parsed: Result<A, E>|
        {
            &&& text@ == authority
            &&& #[trigger] call_ensures(parse, (text,), parsed)
            &&& found == match parsed {
                Ok(addr) => Some(addr),
                Err(_) => None,
            }
        };
    match parsed {
        Ok(addr) => {
            assert(found == Some(addr));
            assert(parsed == Ok::<A, E>(found->0));
            assert(call_ensures(parse, (text,), Ok::<A, E>(found->0)));
        },
        Err(e) => {
            assert(call_ensures(parse, (text,), Err::<A, E>(e)));
        },
    }
}

/// The address of a URI is what `parse` makes of its whole authority, however long that is: it is
/// found where every parse of that text finds it, there is none where every parse of it fails or
/// where there is no authority, and an address that is found was parsed from it.
pub proof fn law_address_of_authority<A, E, P: Fn(&str) -> Result<A, E>>(
    uri: &Uri,
    parse: P,
    found: Option<A>,
    addr: A,
)
    requires
        call_ensures(host_addr::<A, E, P>, (uri, parse), found),
    ensures
        uri_authority(*uri) is None ==> found is None,
        uri_authority(*uri) matches Some(authority) ==> {
            &&& (forall|text: &str, parsed: Result<A, E>|
                text@ == authority && #[trigger] call_ensures(parse, (text,), parsed) ==> (parsed
                    matches Ok(a) && a == addr)) ==> (found matches Some(a) && a == addr)
            &&& (forall|text: &str, parsed: Result<A, E>|
                text@ == authority && #[trigger] call_ensures(parse, (text,), parsed)
                    ==> parsed is Err) ==> found is None
            &&& found matches Some(a) ==> exists|text: &str|
                text@ == authority && #[trigger] call_ensures(parse, (text,), Ok::<A, E>(a))
            &&& found is None ==> exists|text: &str, e: E|
                text@ == authority && #[trigger] call_ensures(parse, (text,), Err::<A, E>(e))
        },
{
    if let Some(authority) = uri_authority(*uri) {
        lemma_parsed::<A, E, P>(*uri, parse, found, authority);
    }
}

/// `CONNECT` is answered with success and a tunnel to the address of the URI, and refused as a bad
/// request just where there is no address: no authority, or one that `parse` fails on.
pub proof fn law_connect<A, E, P: Fn(&str) -> Result<A, E>>(
    uri: &Uri,
    parse: P,
    answer: ConnectAnswer<A>,
    addr: A,
)
    requires
        call_ensures(proxy_connect::<A, E, P>, (uri, parse), answer),
    ensures
        uri_authority(*uri) is None ==> answer is Refuse,
        uri_authority(*uri) matches Some(authority) ==> {
            &&& (forall|text: &str, parsed: Result<A, E>|
                text@ == authority && #[trigger] call_ensures(parse, (text,), parsed) ==> (parsed
                    matches Ok(a) && a == addr)) ==> (answer matches ConnectAnswer::Tunnel(to, _)
                && to == addr)
            &&& (forall|text: &str, parsed: Result<A, E>|
                text@ == authority && #[trigger] call_ensures(parse, (text,), parsed)
                    ==> parsed is Err) ==> answer is Refuse
            &&& answer matches ConnectAnswer::Tunnel(to, _) ==> exists|text: &str|
                text@ == authority && #[trigger] call_ensures(parse, (text,), Ok::<A, E>(to))
            &&& answer is Refuse ==> exists|text: &str, e: E|
                text@ == authority && #[trigger] call_ensures(parse, (text,), Err::<A, E>(e))
        },
        match answer {
            ConnectAnswer::Tunnel(_, reply) => reply.status == 200 && reply.body@.len() == 0,
            ConnectAnswer::Refuse(reply) => reply.status == 400 && reply.body@
                == "CONNECT must be to a socket address"@,
        },
{
    reveal_strlit("");
    let found = match answer {
        ConnectAnswer::Tunnel(to, _) => Some(to),
        ConnectAnswer::Refuse(_) => None,
    };
    if let Some(authority) = uri_authority(*uri) {
        lemma_parsed::<A, E, P>(*uri, parse, found, authority);
    }
}

/// Requests are told apart by their method alone: `CONNECT` is tunnelled, and every other one is
/// forwarded. Header names stay as they came, towards the client and the server. However a
/// connection ends, serving it succeeds.
pub proof fn law_serving<B, R, E>(
    inbound: &HttpInbound<B, R>,
    event: ConnEvent<'_, E>,
    step: Step<ConnAction, Result<(), E>>,
)
    requires
        call_ensures(HttpInbound::<B, R>::serve_http_conn::<E>, (inbound, event), step),
    ensures
        match event {
            ConnEvent::Accepted => step matches Step::Perform(ConnAction::Serve(case))
                && case.preserve && case.title,
            ConnEvent::Request(method) => {
                &&& (step matches Step::Perform(ConnAction::Connect)) <==> method_text(*method)
                    == "CONNECT"@
                &&& (step matches Step::Perform(ConnAction::Forward(_))) <==> method_text(*method)
                    != "CONNECT"@
                &&& step matches Step::Perform(ConnAction::Forward(case)) ==> case.preserve
                    && case.title
            },
            ConnEvent::Closed(_) => step matches Step::Return(Ok(_)),
        },
{
}

/// A tunnel goes through one outbound: the builder that is asked whether it leads nowhere is the
/// one that connects, it is the builder of the outbound that was named, and it connects to the
/// address that was asked for. One that leads nowhere connects to nothing.
pub proof fn law_tunnel_goes_through_its_outbound<B, R, A, E>(
    inbound: &HttpInbound<B, R>,
    ob: &str,
    inspected: Step<TunnelAction<'_, B, A>, Result<(), E>>,
    blackhole: bool,
    addr: A,
    connected: Step<TunnelAction<'_, B, A>, Result<(), E>>,
    found: Option<&B>,
)
    requires
        call_ensures(
            HttpInbound::<B, R>::tunnel::<A, E>,
            (inbound, ob, TunnelEvent::Routed),
            inspected,
        ),
        call_ensures(
            HttpInbound::<B, R>::tunnel::<A, E>,
            (inbound, ob, TunnelEvent::Inspected { blackhole, addr }),
            connected,
        ),
        call_ensures(OutboundMap::<B>::get, (&*inbound.inner_map, ob), found),
        found is Some,
    ensures
        inspected matches Step::Perform(TunnelAction::Inspect(builder)) && found == Some(builder),
        if blackhole {
            connected matches Step::Return(Ok(_))
        } else {
            connected matches Step::Perform(TunnelAction::Connect { builder, addr: to }) && found
                == Some(builder) && to == addr
        },
{
}

/// A tunnel that could not be connected ends with that failure, and one that was relayed ends as
/// the relay did.
pub proof fn law_tunnel_ends<B, R, A, E>(
    inbound: &HttpInbound<B, R>,
    ob: &str,
    failure: E,
    outcome: Result<(), E>,
    unconnected: Step<TunnelAction<'_, B, A>, Result<(), E>>,
    relayed: Step<TunnelAction<'_, B, A>, Result<(), E>>,
)
    requires
        call_ensures(
            HttpInbound::<B, R>::tunnel::<A, E>,
            (inbound, ob, TunnelEvent::Connected(Err(failure))),
            unconnected,
        ),
        call_ensures(
            HttpInbound::<B, R>::tunnel::<A, E>,
            (inbound, ob, TunnelEvent::Relayed(outcome)),
            relayed,
        ),
    ensures
        unconnected matches Step::Return(Err(e)) && e == failure,
        relayed matches Step::Return(result) && result == outcome,
{
}

/// A connected tunnel is relayed through buffers of the size that the inbound has. It is counted
/// just where the inbound has an API server, and then on the two counters of the inbound, and on
/// those of the outbound: their names are the tag of the outbound between `outbound>>>` and
/// `>>>traffic>>>uplink` or `>>>traffic>>>downlink`.
pub proof fn law_tunnel_is_counted<B, R, A, E>(
    inbound: &HttpInbound<B, R>,
    ob: &str,
    step: Step<TunnelAction<'_, B, A>, Result<(), E>>,
)
    requires
        call_ensures(
            HttpInbound::<B, R>::tunnel::<A, E>,
            (inbound, ob, TunnelEvent::Connected(Ok(()))),
            step,
        ),
    ensures
        if inbound.enable_api_server {
            step matches Step::Perform(
                TunnelAction::RelayCounted { in_up, in_down, out_up, out_down, relay_buffer_size },
            ) && {
                &&& inbound.in_counter_up == Some(in_up)
                &&& inbound.in_counter_down == Some(in_down)
                &&& out_up@ == "outbound>>>"@ + ob@ + ">>>traffic>>>uplink"@
                &&& out_down@ == "outbound>>>"@ + ob@ + ">>>traffic>>>downlink"@
                &&& relay_buffer_size == inbound.relay_buffer_size
            }
        } else {
            step matches Step::Perform(TunnelAction::Relay { relay_buffer_size })
                && relay_buffer_size == inbound.relay_buffer_size
        },
{
    reveal_strlit(">>>traffic>>>");
    reveal_strlit("uplink");
    reveal_strlit("downlink");
    reveal_strlit(">>>traffic>>>uplink");
    reveal_strlit(">>>traffic>>>downlink");
    assert(">>>traffic>>>"@ + "uplink"@ =~= ">>>traffic>>>uplink"@);
    assert(">>>traffic>>>"@ + "downlink"@ =~= ">>>traffic>>>downlink"@);
    assert(counter_name(ob@, "uplink"@) =~= "outbound>>>"@ + ob@ + ">>>traffic>>>uplink"@);
    assert(counter_name(ob@, "downlink"@) =~= "outbound>>>"@ + ob@ + ">>>traffic>>>downlink"@);
}

/// The outbound that is found under a tag is the one that was added last under it; adding one
/// under another tag does not matter, and at first there is none.
pub proof fn law_outbound_found<B>(
    none: OutboundMap<B>,
    map: &mut OutboundMap<B>,
    tag: String,
    builder: B,
    asked: &str,
    in_none: Option<&B>,
    before: Option<&B>,
    after: Option<&B>,
)
    requires
        call_ensures(OutboundMap::<B>::new, (), none),
        call_ensures(OutboundMap::<B>::get, (&none, asked), in_none),
        call_ensures(OutboundMap::<B>::get, (&*old(map), asked), before),
        call_ensures(OutboundMap::<B>::insert, (map, tag, builder), ()),
        call_ensures(OutboundMap::<B>::get, (&*final(map), asked), after),
    ensures
        in_none is None,
        asked@ == tag@ ==> (after matches Some(found) && *found == builder),
        asked@ != tag@ ==> match before {
            Some(found) => after matches Some(same) && *same == *found,
            None => after is None,
        },
{
}

/// An inbound and its clones are made of the parts that it was given.
pub proof fn law_parts_of_an_inbound<B, R>(
    inner_map: Arc<OutboundMap<B>>,
    router: Arc<R>,
    enable_api_server: bool,
    up: Option<&'static AtomicU64>,
    down: Option<&'static AtomicU64>,
    relay_buffer_size: usize,
    inbound: &HttpInbound<B, R>,
    copy: HttpInbound<B, R>,
)
    requires
        call_ensures(
            HttpInbound::<B, R>::new,
            (inner_map, router, enable_api_server, up, down, relay_buffer_size),
            *inbound,
        ),
        call_ensures(<HttpInbound<B, R> as Clone>::clone, (inbound,), copy),
    ensures
        inbound.inner_map == inner_map && copy.inner_map == inner_map,
        inbound.router == router && copy.router == router,
        inbound.enable_api_server == enable_api_server,
        copy.enable_api_server == enable_api_server,
        inbound.in_counter_up == up && copy.in_counter_up == up,
        inbound.in_counter_down == down && copy.in_counter_down == down,
        inbound.relay_buffer_size == relay_buffer_size,
        copy.relay_buffer_size == relay_buffer_size,
{
}

} // verus!
