use calvin_rs::net::client::{
    bindings_reply, check_handshake, define_reply, eval_reply, handshake_request, pong_reply, RequestIds,
};
use calvin_rs::net::server::{Server, ServerConfig};
use calvin_rs::net::{bindings_response, frame_message, parse_address, server_action, unframe_message, Message, NetError, ServerAction, PROTOCOL_VERSION};

#[test]
fn test_parse_address() {
    let (host, port) = parse_address("localhost:8080").unwrap();
    assert_eq!(host, "localhost");
    assert_eq!(port, 8080);
}

#[test]
fn test_parse_address_invalid() {
    assert!(parse_address("invalid").is_err());
}

fn protocol_message(e: NetError) -> String {
    match e {
        NetError::Protocol(m) => m,
        other => panic!("unexpected {:?}", other),
    }
}

#[test]
fn address_edge_cases() {
    assert_eq!(parse_address("::1:99").unwrap(), ("::1".to_string(), 99));
    assert_eq!(parse_address(":+7").unwrap(), ("".to_string(), 7));
    assert_eq!(parse_address("h:65535").unwrap().1, 65535);
    assert_eq!(protocol_message(parse_address("h:65536").unwrap_err()), "Invalid port: 65536");
    assert_eq!(protocol_message(parse_address("h:").unwrap_err()), "Invalid port: ");
    assert_eq!(protocol_message(parse_address("h:-1").unwrap_err()), "Invalid port: -1");
    assert_eq!(protocol_message(parse_address("h:8a").unwrap_err()), "Invalid port: 8a");
    assert_eq!(protocol_message(parse_address("nocolon").unwrap_err()), "Invalid address: nocolon");
    assert_eq!(NetError::Timeout.to_string(), "Timeout");
    assert_eq!(NetError::Protocol("x".to_string()).to_string(), "Protocol error: x");
}

#[test]
fn frames_roundtrip() {
    let framed = frame_message("{\"Ping\":{\"id\":1}}");
    assert_eq!(&framed[0..4], &[17, 0, 0, 0]);
    let (json, used) = unframe_message(&framed).unwrap();
    assert_eq!(json, "{\"Ping\":{\"id\":1}}");
    assert_eq!(used, framed.len());
    let mut two = framed.clone();
    two.extend_from_slice(&frame_message("x"));
    let (first, used) = unframe_message(&two).unwrap();
    assert_eq!(first, "{\"Ping\":{\"id\":1}}");
    let (second, _) = unframe_message(&two[used..]).unwrap();
    assert_eq!(second, "x");
}

#[test]
fn frame_errors() {
    assert_eq!(protocol_message(unframe_message(&[1, 0]).unwrap_err()), "Message too short");
    assert_eq!(protocol_message(unframe_message(&[5, 0, 0, 0, b'a']).unwrap_err()), "Incomplete message");
    assert!(protocol_message(unframe_message(&[1, 0, 0, 0, 0xff]).unwrap_err()).contains("utf-8"));
}

#[test]
fn server_actions() {
    match server_action(Message::Handshake { version: 9, client_name: "c".to_string() }, "srv") {
        ServerAction::Reply(Message::HandshakeAck { version, server_name }) => {
            assert_eq!(version, PROTOCOL_VERSION);
            assert_eq!(server_name, "srv");
        }
        other => panic!("unexpected {:?}", other),
    }
    assert!(matches!(server_action(Message::Ping { id: 4 }, "s"), ServerAction::Reply(Message::Pong { id: 4 })));
    assert!(matches!(server_action(Message::Shutdown, "s"), ServerAction::Close));
    assert!(matches!(server_action(Message::Pong { id: 1 }, "s"), ServerAction::Ignore));
    match server_action(Message::EvalRequest { id: 3, expression: "1 + 2".to_string() }, "s") {
        ServerAction::Evaluate { id, expression } => {
            assert_eq!(id, 3);
            assert_eq!(expression, "1 + 2");
        }
        other => panic!("unexpected {:?}", other),
    }
    match bindings_response(5, vec!["x".to_string(), "y".to_string()]) {
        Message::ListBindingsResponse { id, bindings } => {
            assert_eq!(id, 5);
            assert_eq!(bindings, vec![("x".to_string(), String::new()), ("y".to_string(), String::new())]);
        }
        other => panic!("unexpected {:?}", other),
    }
}

#[test]
fn server_config_and_address() {
    let config = ServerConfig::default();
    assert_eq!(config.bind_address, "0.0.0.0");
    assert_eq!(config.port, 8472);
    assert_eq!(config.name, "calvin-server");
    assert_eq!(config.max_connections, 64);
    let server = Server::new(config);
    assert_eq!(server.address(), "0.0.0.0:8472");
}

#[test]
fn client_reads_replies() {
    match handshake_request() {
        Message::Handshake { version, client_name } => {
            assert_eq!(version, PROTOCOL_VERSION);
            assert_eq!(client_name, "calvin-client");
        }
        other => panic!("not a handshake: {:?}", other),
    }
    assert!(check_handshake(Message::HandshakeAck { version: PROTOCOL_VERSION, server_name: "s".to_string() }).is_ok());
    match check_handshake(Message::HandshakeAck { version: 7, server_name: "s".to_string() }) {
        Err(NetError::Protocol(m)) => assert_eq!(m, "Version mismatch: client=1, server=7"),
        other => panic!("unexpected: {:?}", other),
    }
    match check_handshake(Message::Pong { id: 1 }) {
        Err(NetError::Protocol(m)) => assert_eq!(m, "Expected HandshakeAck"),
        other => panic!("unexpected: {:?}", other),
    }

    assert_eq!(eval_reply(Message::EvalResponse { id: 1, result: Ok("3".to_string()) }).unwrap(), "3");
    match eval_reply(Message::EvalResponse { id: 1, result: Err("bad".to_string()) }) {
        Err(NetError::Server(m)) => assert_eq!(m, "bad"),
        other => panic!("unexpected: {:?}", other),
    }
    match eval_reply(Message::Shutdown) {
        Err(NetError::Protocol(m)) => assert_eq!(m, "Expected EvalResponse"),
        other => panic!("unexpected: {:?}", other),
    }
    assert!(define_reply(Message::DefineResponse { id: 2, result: Ok(()) }).is_ok());
    match define_reply(Message::DefineResponse { id: 2, result: Err("no".to_string()) }) {
        Err(NetError::Server(m)) => assert_eq!(m, "no"),
        other => panic!("unexpected: {:?}", other),
    }
    match define_reply(Message::Ping { id: 2 }) {
        Err(NetError::Protocol(m)) => assert_eq!(m, "Expected DefineResponse"),
        other => panic!("unexpected: {:?}", other),
    }
    let b = bindings_reply(Message::ListBindingsResponse { id: 3, bindings: vec![("x".to_string(), String::new())] })
        .unwrap();
    assert_eq!(b, vec![("x".to_string(), String::new())]);
    match bindings_reply(Message::Pong { id: 3 }) {
        Err(NetError::Protocol(m)) => assert_eq!(m, "Expected ListBindingsResponse"),
        other => panic!("unexpected: {:?}", other),
    }
    assert!(pong_reply(Message::Pong { id: 4 }).is_ok());
    match pong_reply(Message::Ping { id: 4 }) {
        Err(NetError::Protocol(m)) => assert_eq!(m, "Expected Pong"),
        other => panic!("unexpected: {:?}", other),
    }

    let mut ids = RequestIds::new();
    assert_eq!(ids.take(), 1);
    assert_eq!(ids.take(), 2);
    ids.next = u64::MAX;
    assert_eq!(ids.take(), u64::MAX);
    assert_eq!(ids.take(), 0);
}

#[test]
fn io_errors_show_their_text() {
    let e = NetError::Io(std::io::Error::new(std::io::ErrorKind::Other, "pipe broke"));
    assert_eq!(e.to_string(), "I/O error: pipe broke");
    let s = calvin_rs::storage::StorageError::Io(std::io::Error::new(std::io::ErrorKind::Other, "disk gone"));
    assert_eq!(s.to_string(), "I/O error: disk gone");
}
