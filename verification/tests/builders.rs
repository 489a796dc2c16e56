use http::uri::PathAndQuery;
use http::{Method, Version};
use proxy_core::proxy::blackhole::BlackHoleStreamBuilder;
use proxy_core::proxy::direct::DirectStreamBuilder;
use proxy_core::proxy::grpc::builder::{BuildAction, BuildError, BuildEvent, GrpcStreamBuilder};
use proxy_core::proxy::{ChainableStreamBuilder, ProtocolType, StreamBuilder};
use proxy_core::step::Step;

fn builder(host: &str, path: &str) -> GrpcStreamBuilder {
    GrpcStreamBuilder::new(host.to_string(), path.parse::<PathAndQuery>().unwrap())
}

#[test]
fn request_is_exact() {
    let request = builder("example.com:443", "/GunService/Tun?x=1").req().ok().unwrap();
    assert_eq!(request.method(), Method::POST);
    assert_eq!(request.uri().to_string(), "https://example.com:443/GunService/Tun?x=1");
    assert_eq!(request.version(), Version::HTTP_2);
    assert_eq!(request.headers().len(), 2);
    assert_eq!(request.headers()["content-type"], "application/grpc");
    assert_eq!(request.headers()["user-agent"], "grpc-go/1.46.0");
}

#[test]
fn path_without_fragment() {
    let path = "/a#b".parse::<PathAndQuery>().unwrap();
    let request = GrpcStreamBuilder::new("h".to_string(), path).req().ok().unwrap();
    assert_eq!(request.uri().path_and_query().unwrap().as_str(), "/a");
}

#[test]
fn hosts_that_are_refused() {
    assert!(builder("", "/a").req().is_err());
    assert!(builder("a b", "/a").req().is_err());
    assert!(builder("host/other", "/a").req().is_err());
}

#[test]
fn call_is_opened_in_steps() {
    let builder = builder("example.com", "/a");
    let step = builder.build_tcp::<u8>(BuildEvent::Start);
    assert!(matches!(step, Step::Perform(BuildAction::Handshake)));
    match builder.build_tcp::<u8>(BuildEvent::Handshake(Ok(()))) {
        Step::Perform(BuildAction::SendRequest(request)) => {
            assert_eq!(request.uri().to_string(), "https://example.com/a");
        }
        _ => panic!("no request"),
    }
    let step = builder.build_tcp::<u8>(BuildEvent::Sent(Ok(())));
    assert!(matches!(step, Step::Return(Ok(()))));
    let step = builder.build_tcp(BuildEvent::Handshake(Err(1u8)));
    assert!(matches!(step, Step::Return(Err(BuildError::Transport(1)))));
    let step = builder.build_tcp(BuildEvent::Sent(Err(2u8)));
    assert!(matches!(step, Step::Return(Err(BuildError::Transport(2)))));
}

#[test]
fn call_without_a_host() {
    let step = builder("", "/a").build_tcp::<u8>(BuildEvent::Handshake(Ok(())));
    assert!(matches!(step, Step::Return(Err(BuildError::Request(_)))));
}

#[test]
fn datagrams_are_wrapped_only_where_asked() {
    let builder = builder("example.com", "/a");
    assert!(builder.build_udp::<u8>(false, BuildEvent::Start).is_none());
    let step = builder.build_udp::<u8>(true, BuildEvent::Start);
    assert!(matches!(step, Some(Step::Perform(BuildAction::Handshake))));
}

#[test]
fn boxes_keep_the_builder() {
    let grpc = builder("example.com", "/a?b");
    assert_eq!(grpc.protocol_type(), ProtocolType::Grpc);
    match *grpc.clone_box() {
        StreamBuilder::Grpc(copy) => {
            assert_eq!(copy.host, "example.com");
            assert_eq!(copy.path.as_str(), "/a?b");
        }
        _ => panic!("another protocol"),
    }
    match *grpc.into_box() {
        StreamBuilder::Grpc(same) => assert_eq!(same.host, "example.com"),
        _ => panic!("another protocol"),
    }
}

#[test]
fn protocols() {
    assert_eq!(DirectStreamBuilder.protocol_type(), ProtocolType::Direct);
    assert_eq!(BlackHoleStreamBuilder.protocol_type(), ProtocolType::Blackhole);
    assert_eq!(DirectStreamBuilder.into_box().protocol_type(), ProtocolType::Direct);
    assert_eq!(DirectStreamBuilder.clone_box().protocol_type(), ProtocolType::Direct);
    assert_eq!(BlackHoleStreamBuilder.into_box().protocol_type(), ProtocolType::Blackhole);
    assert_eq!(BlackHoleStreamBuilder.clone_box().protocol_type(), ProtocolType::Blackhole);
    assert_eq!(builder("h", "/").clone_box().protocol_type(), ProtocolType::Grpc);
}

#[test]
fn direct_streams_go_on_as_they_are() {
    assert_eq!(DirectStreamBuilder.build_tcp::<u32, ()>(5), Ok(5));
    assert_eq!(DirectStreamBuilder.build_udp::<u32, ()>(6, true), Ok(6));
    assert_eq!(DirectStreamBuilder.build_udp::<u32, ()>(7, false), Ok(7));
}
