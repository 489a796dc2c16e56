use http::{HeaderMap, HeaderValue, Method, Uri};
use proxy_core::proxy::http_inbound::{
    host_addr, proxy, proxy_connect, remove_proxy_headers, ConnAction, ConnEvent, ConnectAnswer,
    HttpInbound, OutboundMap, ProxyAction, ProxyEvent, Reply, TunnelAction, TunnelEvent,
};
use proxy_core::step::Step;
use std::str::FromStr;
use std::sync::atomic::AtomicU64;
use std::sync::Arc;

/// An address is an IPv4 host and a port.
fn address(text: &str) -> Result<(String, u16), ()> {
    let (host, port) = text.split_once(':').ok_or(())?;
    if host.split('.').count() != 4 || host.split('.').any(|part| part.parse::<u8>().is_err()) {
        return Err(());
    }
    Ok((host.to_string(), port.parse().map_err(|_| ())?))
}

fn counter(value: u64) -> &'static AtomicU64 {
    Box::leak(Box::new(AtomicU64::new(value)))
}

fn inbound(enable_api_server: bool) -> HttpInbound<u32, &'static str> {
    let mut outbounds = OutboundMap::new();
    outbounds.insert("direct".to_string(), 1);
    outbounds.insert("proxy".to_string(), 2);
    HttpInbound::new(
        Arc::new(outbounds),
        Arc::new("router"),
        enable_api_server,
        Some(counter(10)),
        Some(counter(20)),
        8,
    )
}

fn headers(fields: &[(&'static str, &'static str)]) -> HeaderMap<HeaderValue> {
    let mut map = HeaderMap::new();
    for (name, value) in fields {
        map.append(*name, HeaderValue::from_static(value));
    }
    map
}

#[test]
fn new_keeps_its_parts() {
    let outbounds: Arc<OutboundMap<u32>> = Arc::new(OutboundMap::new());
    let router = Arc::new("router");
    let (up, down) = (counter(1), counter(2));
    let inbound =
        HttpInbound::new(outbounds.clone(), router.clone(), true, Some(up), Some(down), 3);
    assert!(Arc::ptr_eq(&inbound.inner_map, &outbounds));
    assert!(Arc::ptr_eq(&inbound.router, &router));
    assert!(inbound.enable_api_server);
    assert!(std::ptr::eq(inbound.in_counter_up.unwrap(), up));
    assert!(std::ptr::eq(inbound.in_counter_down.unwrap(), down));
    assert_eq!(inbound.relay_buffer_size, 3);
    let copy = inbound.clone();
    assert!(Arc::ptr_eq(&copy.inner_map, &outbounds));
    assert!(Arc::ptr_eq(&copy.router, &router));
    assert!(copy.enable_api_server);
    assert!(std::ptr::eq(copy.in_counter_up.unwrap(), up));
    assert!(std::ptr::eq(copy.in_counter_down.unwrap(), down));
    assert_eq!(copy.relay_buffer_size, 3);
}

#[test]
fn outbounds_by_tag() {
    let mut outbounds = OutboundMap::new();
    assert!(outbounds.get("a").is_none());
    outbounds.insert("a".to_string(), 1);
    outbounds.insert("b".to_string(), 2);
    outbounds.insert("a".to_string(), 3);
    assert_eq!(outbounds.get("a"), Some(&3));
    assert_eq!(outbounds.get("b"), Some(&2));
    assert_eq!(outbounds.get("c"), None);
}

#[test]
fn connect_is_tunnelled_and_others_forwarded() {
    let inbound = inbound(false);
    let step = inbound.serve_http_conn::<u8>(ConnEvent::Request(&Method::CONNECT));
    assert!(matches!(step, Step::Perform(ConnAction::Connect)));
    for method in [Method::GET, Method::POST, Method::from_str("connect").unwrap()] {
        let step = inbound.serve_http_conn::<u8>(ConnEvent::Request(&method));
        match step {
            Step::Perform(ConnAction::Forward(case)) => assert!(case.preserve && case.title),
            _ => panic!("not forwarded"),
        }
    }
}

#[test]
fn header_names_are_kept_as_they_came() {
    match inbound(false).serve_http_conn::<u8>(ConnEvent::Accepted) {
        Step::Perform(ConnAction::Serve(case)) => assert!(case.preserve && case.title),
        _ => panic!("not served"),
    }
}

#[test]
fn counters_are_apart() {
    let inbound = inbound(true);
    let mut names = Vec::new();
    for tag in ["direct", "proxy", "a>>>traffic>>>uplink", "a"] {
        match inbound.tunnel::<u16, u8>(tag, TunnelEvent::Connected(Ok(()))) {
            Step::Perform(TunnelAction::RelayCounted { out_up, out_down, .. }) => {
                names.push(out_up);
                names.push(out_down);
            }
            _ => panic!("no relay"),
        }
    }
    let total = names.len();
    names.sort();
    names.dedup();
    assert_eq!(names.len(), total);
}

#[test]
fn serving_succeeds_whatever_happened() {
    let inbound = inbound(false);
    let step = inbound.serve_http_conn::<u8>(ConnEvent::Closed(Ok(())));
    assert!(matches!(step, Step::Return(Ok(()))));
    let step = inbound.serve_http_conn(ConnEvent::Closed(Err(1u8)));
    assert!(matches!(step, Step::Return(Ok(()))));
}

#[test]
fn address_of_a_uri() {
    let uri: Uri = "127.0.0.1:8080".parse().unwrap();
    let addr = host_addr(&uri, address);
    assert_eq!(addr, Some(("127.0.0.1".to_string(), 8080)));
    let uri: Uri = "http://127.0.0.1:81/path".parse().unwrap();
    let addr = host_addr(&uri, address);
    assert_eq!(addr, Some(("127.0.0.1".to_string(), 81)));
    let uri: Uri = "/path".parse().unwrap();
    assert_eq!(host_addr(&uri, address), None);
    let uri: Uri = "example.com".parse().unwrap();
    assert_eq!(host_addr(&uri, address), None);
}

#[test]
fn connect_to_an_address() {
    let uri: Uri = "127.0.0.1:443".parse().unwrap();
    match proxy_connect(&uri, address) {
        ConnectAnswer::Tunnel(addr, reply) => {
            assert_eq!(addr, ("127.0.0.1".to_string(), 443));
            assert_eq!((reply.status, reply.body), (200, ""));
        }
        _ => panic!("refused"),
    }
}

#[test]
fn connect_to_no_address() {
    for uri in ["/path", "example.com:443"] {
        match proxy_connect(&uri.parse().unwrap(), address) {
            ConnectAnswer::Refuse(reply) => {
                assert_eq!(reply.status, 400);
                assert_eq!(reply.body, "CONNECT must be to a socket address");
            }
            _ => panic!("accepted"),
        }
    }
}

#[test]
fn tunnel_finds_its_builder() {
    let inbound = inbound(false);
    match inbound.tunnel::<u16, u8>("proxy", TunnelEvent::Routed) {
        Step::Perform(TunnelAction::Inspect(builder)) => assert_eq!(*builder, 2),
        _ => panic!("no builder"),
    }
}

#[test]
fn tunnel_to_nowhere_ends() {
    let inbound = inbound(false);
    let event = TunnelEvent::Inspected { blackhole: true, addr: 443 };
    let step = inbound.tunnel::<u16, u8>("direct", event);
    assert!(matches!(step, Step::Return(Ok(()))));
}

#[test]
fn tunnel_connects_by_the_builder_of_its_outbound() {
    let inbound = inbound(true);
    for (tag, number, port) in [("direct", 1u32, 443u16), ("proxy", 2, 80)] {
        let event = TunnelEvent::Inspected { blackhole: false, addr: port };
        match inbound.tunnel::<u16, u8>(tag, event) {
            Step::Perform(TunnelAction::Connect { builder, addr }) => {
                assert_eq!((*builder, addr), (number, port));
            }
            _ => panic!("not connected"),
        }
    }
}

#[test]
fn tunnel_relays() {
    let inbound = inbound(false);
    match inbound.tunnel::<u16, u8>("direct", TunnelEvent::Connected(Ok(()))) {
        Step::Perform(TunnelAction::Relay { relay_buffer_size }) => {
            assert_eq!(relay_buffer_size, 8);
        }
        _ => panic!("no relay"),
    }
    let step = inbound.tunnel::<u16, u8>("direct", TunnelEvent::Connected(Err(1u8)));
    assert!(matches!(step, Step::Return(Err(1))));
    let step = inbound.tunnel::<u16, u8>("direct", TunnelEvent::Relayed(Ok(())));
    assert!(matches!(step, Step::Return(Ok(()))));
    let step = inbound.tunnel::<u16, u8>("direct", TunnelEvent::Relayed(Err(2u8)));
    assert!(matches!(step, Step::Return(Err(2))));
}

#[test]
fn tunnel_counts() {
    let inbound = inbound(true);
    match inbound.tunnel::<u16, u8>("proxy", TunnelEvent::Connected(Ok(()))) {
        Step::Perform(TunnelAction::RelayCounted {
            in_up,
            in_down,
            out_up,
            out_down,
            relay_buffer_size,
        }) => {
            assert!(std::ptr::eq(in_up, inbound.in_counter_up.unwrap()));
            assert!(std::ptr::eq(in_down, inbound.in_counter_down.unwrap()));
            assert_eq!(out_up, "outbound>>>proxy>>>traffic>>>uplink");
            assert_eq!(out_down, "outbound>>>proxy>>>traffic>>>downlink");
            assert_eq!(relay_buffer_size, 8);
        }
        _ => panic!("no relay"),
    }
}

#[test]
fn forwarding_strips_the_header() {
    let mut map = headers(&[("connection", "close"), ("host", "example.com")]);
    let step: Step<ProxyAction, Result<u32, Reply>> =
        proxy::<u32, u8>(ProxyEvent::Request(&mut map));
    assert!(matches!(step, Step::Perform(ProxyAction::Forward)));
    assert_eq!(map, headers(&[("host", "example.com")]));
}

#[test]
fn forwarding_answers() {
    match proxy::<u32, u8>(ProxyEvent::Response(Ok(5))) {
        Step::Return(Ok(response)) => assert_eq!(response, 5),
        _ => panic!("no response"),
    }
    match proxy::<u32, u8>(ProxyEvent::Response(Err(1))) {
        Step::Return(Err(reply)) => assert_eq!((reply.status, reply.body), (500, "")),
        _ => panic!("no reply"),
    }
}

#[test]
fn proxy_fields_are_removed() {
    let mut map = headers(&[
        ("accept-encoding", "gzip"),
        ("connection", "keep-alive"),
        ("proxy-connection", "keep-alive"),
        ("proxy-authenticate", "Basic"),
        ("proxy-authorization", "Basic eDp5"),
        ("accept-encoding", "br"),
        ("accept", "a"),
        ("accept", "b"),
        ("x-proxy-connection", "c"),
    ]);
    remove_proxy_headers(&mut map);
    let left = headers(&[("accept", "a"), ("accept", "b"), ("x-proxy-connection", "c")]);
    assert_eq!(map, left);
    remove_proxy_headers(&mut map);
    assert_eq!(map, left);
}

#[test]
fn removal_from_an_empty_header() {
    let mut map = headers(&[]);
    remove_proxy_headers(&mut map);
    assert!(map.is_empty());
}

#[test]
fn removal_ignores_the_case_of_names() {
    let mut map = HeaderMap::new();
    map.insert(
        http::HeaderName::from_bytes(b"Proxy-Connection").unwrap(),
        HeaderValue::from_static("close"),
    );
    remove_proxy_headers(&mut map);
    assert!(map.is_empty());
}
