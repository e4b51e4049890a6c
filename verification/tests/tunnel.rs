use netfory_provider::config::Config;
use netfory_provider::crypto::{iroh_secret, node_id, verify_hex};
use netfory_provider::protocol::{MeshPacket, WsError, WsFrame, WsRead, MAX_WS_FRAME};
use netfory_provider::proxy_engine::ProxyEngine;
use netfory_provider::ratelimit::RateLimiter;
use netfory_provider::tunnel::{
    client_step_at, connect_failure_frame, handshake_ack, handshake_ack_at, instance_step, limiter_key, open_tunnel,
    ClientAction, ClientEvent, ConnectFailure, InstanceAction, InstanceEvent, TunnelOpen,
};

fn engine(ws: Option<&str>) -> ProxyEngine {
    let mut cfg = Config::default();
    cfg.endpoints[0].1.local_ws_url = ws.map(|s| s.to_owned());
    ProxyEngine::new(&cfg, &[1; 32], "node".to_owned())
}

fn packet(headers: &[(&str, &str)]) -> MeshPacket {
    let mut p = MeshPacket::with_id("node1-smartholdem", "WS", "/ws", vec![], "id".to_owned());
    for (k, v) in headers {
        p.headers.insert(k.to_string(), v.to_string());
    }
    p
}

fn close_of(f: &WsFrame) -> (u16, &str) {
    match f {
        WsFrame::Close { code, reason } => (*code, reason.as_str()),
        other => panic!("{other:?}"),
    }
}

fn step(l: &mut RateLimiter, e: ClientEvent) -> ClientAction {
    client_step_at(l, "k", 1, e, 0)
}

#[test]
fn tunnel_to_an_instance() {
    let p = packet(&[
        ("Authorization", "t"),
        ("Sec-WebSocket-Key", "k"),
        ("sec-websocket-version", "13"),
        ("Sec-WebSocket-Accept", "a"),
        ("Sec-WebSocket-Protocol", "chat"),
        ("Upgrade", "websocket"),
        ("Transfer-Encoding", "chunked"),
        ("Keep-Alive", "1"),
        ("Origin", "x"),
        ("bad name", "x"),
    ]);
    match open_tunnel(&engine(Some("ws://localhost:4003/")), &p) {
        TunnelOpen::Connect { url, headers } => {
            assert_eq!(url, "ws://localhost:4003/ws");
            let got: Vec<(&str, &str)> =
                headers.iter().map(|(k, v)| (k.as_str(), v.as_str())).collect();
            assert_eq!(got, vec![("authorization", "t"), ("sec-websocket-protocol", "chat")]);
        }
        other => panic!("{other:?}"),
    }
}

#[test]
fn tunnel_that_is_not_served() {
    match open_tunnel(&engine(None), &packet(&[])) {
        TunnelOpen::Refused(f) => assert_eq!(
            close_of(&f),
            (1011, "provider 'node1-smartholdem' не имеет local_ws_url в config.yaml (endpoints.<key>.local_ws_url) — WS-туннель отключён")
        ),
        other => panic!("{other:?}"),
    }
}

#[test]
fn instance_that_cannot_be_called() {
    let f = connect_failure_frame(ConnectFailure::Failed("no route".to_owned()));
    assert_eq!(close_of(&f), (1011, "upstream connect: no route"));
    let f = connect_failure_frame(ConnectFailure::TimedOut);
    assert_eq!(close_of(&f), (1011, "upstream connect timeout"));
}

#[test]
fn first_frame() {
    let root = [1; 32];
    let name = node_id(&iroh_secret(&root));
    let e = ProxyEngine::new(&Config::default(), &root, name.clone());
    let text = match handshake_ack_at(&e, "", 101, 50) {
        WsFrame::Text(s) => s,
        other => panic!("{other:?}"),
    };
    let v: serde_json::Value = serde_json::from_str(&text).unwrap();
    assert_eq!(v["status"].as_u64(), Some(101));
    assert_eq!(v["pdata"]["status"].as_u64(), Some(101));
    assert_eq!(v["pdata"]["name"].as_str(), Some("node1-smartholdem"));
    let canon = format!("{name}|101|50|{{\"status\":101}}");
    assert!(verify_hex(&name, canon.as_bytes(), v["pdata"]["sig"].as_str().unwrap()));
    assert!(matches!(handshake_ack(&e, "", 101), WsFrame::Text(s) if s.contains("\"status\":101")));
}

#[test]
fn key_of_a_peer() {
    assert_eq!(limiter_key("abc", "node1"), "abc:ws:node1");
}

#[test]
fn messages_are_limited() {
    let mut l = RateLimiter::new();
    let text = |s: &str| ClientEvent::Frame(WsFrame::Text(s.to_owned()));
    assert!(matches!(step(&mut l, text("a")), ClientAction::ForwardInTime(WsFrame::Text(s)) if s == "a"));
    assert!(matches!(step(&mut l, text("b")), ClientAction::Skip));
    assert!(matches!(step(&mut l, ClientEvent::Frame(WsFrame::Binary(vec![1]))), ClientAction::Skip));
    let later = client_step_at(&mut l, "k", 1, ClientEvent::Frame(WsFrame::Binary(vec![1])), 1_000_000_000);
    assert!(matches!(later, ClientAction::ForwardInTime(WsFrame::Binary(b)) if b == vec![1]));
}

#[test]
fn control_frames_are_not_limited() {
    let mut l = RateLimiter::new();
    for _ in 0..5 {
        assert!(matches!(step(&mut l, ClientEvent::Frame(WsFrame::Ping(vec![1]))), ClientAction::Forward(WsFrame::Ping(b)) if b == vec![1]));
        assert!(matches!(step(&mut l, ClientEvent::Frame(WsFrame::Pong(vec![2]))), ClientAction::Forward(WsFrame::Pong(b)) if b == vec![2]));
    }
    // They took no token.
    assert!(l.allow_at("k", 1, 0));
}

#[test]
fn reserved_close_codes_are_replaced() {
    let mut l = RateLimiter::new();
    for (given, sent) in [(1005, 1000), (1006, 1000), (1015, 1000), (1000, 1000), (1001, 1001), (1011, 1011), (4000, 4000)] {
        let f = WsFrame::Close { code: given, reason: "bye".to_owned() };
        match step(&mut l, ClientEvent::Frame(f)) {
            ClientAction::ForwardAndStop(f) => assert_eq!(close_of(&f), (sent, "bye")),
            other => panic!("{other:?}"),
        }
    }
}

#[test]
fn end_of_the_client() {
    let mut l = RateLimiter::new();
    assert!(matches!(step(&mut l, ClientEvent::End), ClientAction::Stop));
    assert!(matches!(step(&mut l, ClientEvent::Broken), ClientAction::Stop));
    assert!(matches!(step(&mut l, ClientEvent::Malformed(WsError::InvalidUtf8)), ClientAction::Stop));
    match step(&mut l, ClientEvent::Malformed(WsError::TooBig(MAX_WS_FRAME + 1))) {
        ClientAction::RefuseAndStop(f) => assert_eq!(close_of(&f).0, 1009),
        other => panic!("{other:?}"),
    }
}

#[test]
fn messages_of_the_instance() {
    assert!(matches!(instance_step(InstanceEvent::Text("x".to_owned())), InstanceAction::Send(WsFrame::Text(s)) if s == "x"));
    assert!(matches!(instance_step(InstanceEvent::Binary(vec![3])), InstanceAction::Send(WsFrame::Binary(b)) if b == vec![3]));
    assert!(matches!(instance_step(InstanceEvent::Ping(vec![3])), InstanceAction::TrySend(WsFrame::Ping(b)) if b == vec![3]));
    assert!(matches!(instance_step(InstanceEvent::Pong(vec![3])), InstanceAction::TrySend(WsFrame::Pong(b)) if b == vec![3]));
    assert!(matches!(instance_step(InstanceEvent::Other), InstanceAction::Nothing));
    assert!(matches!(instance_step(InstanceEvent::Ended), InstanceAction::Stop));
    match instance_step(InstanceEvent::Close(None)) {
        InstanceAction::SendAndStop(f) => assert_eq!(close_of(&f), (1000, "")),
        other => panic!("{other:?}"),
    }
    match instance_step(InstanceEvent::Close(Some((1006, "gone".to_owned())))) {
        InstanceAction::SendAndStop(f) => assert_eq!(close_of(&f), (1006, "gone")),
        other => panic!("{other:?}"),
    }
}

#[test]
fn frames_over_the_limit_end_the_tunnel() {
    assert!(matches!(instance_step(InstanceEvent::Binary(vec![0; MAX_WS_FRAME])), InstanceAction::Send(_)));
    for e in [
        InstanceEvent::Binary(vec![0; MAX_WS_FRAME + 1]),
        InstanceEvent::Text("a".repeat(MAX_WS_FRAME + 1)),
        InstanceEvent::Ping(vec![0; MAX_WS_FRAME + 1]),
        InstanceEvent::Pong(vec![0; MAX_WS_FRAME + 1]),
        InstanceEvent::Close(Some((1000, "a".repeat(MAX_WS_FRAME - 1)))),
    ] {
        match instance_step(e) {
            InstanceAction::SendAndStop(f) => assert_eq!(close_of(&f).0, 1009),
            other => panic!("{other:?}"),
        }
    }
}

#[test]
fn what_is_sent_is_read() {
    match instance_step(InstanceEvent::Text("привет".to_owned())) {
        InstanceAction::Send(f) => assert!(matches!(
            WsFrame::read_from(&f.encode(), false),
            Ok(WsRead::Frame(WsFrame::Text(s))) if s == "привет"
        )),
        other => panic!("{other:?}"),
    }
}
