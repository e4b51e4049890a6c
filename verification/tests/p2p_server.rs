use netfory_provider::config::{Config, PortCfg};
use netfory_provider::crypto::verify_hex;
use netfory_provider::p2p_server::{route_at, start, Relay, RelayError, RelayStep, Route, Startup};
use netfory_provider::peers::{Manifest, PeerStore};
use netfory_provider::protocol::MeshPacket;
use netfory_provider::ratelimit::RateLimiter;
use netfory_provider::transport::Transport;

const TARGET: &str = "node1-smartholdem";

fn node() -> Startup {
    start(&Config::default(), &[7; 32], None)
}

fn packet(target: &str, method: &str) -> MeshPacket {
    MeshPacket::with_id(target, method, "/x", vec![], "id".to_owned())
}

fn store(list: &[(&str, &[&str])]) -> PeerStore {
    let mut s = PeerStore::new();
    for (id, names) in list {
        s.upsert(Manifest {
            node_id: id.to_string(),
            endpoints: names.iter().map(|n| n.to_string()).collect(),
            uptime_secs: 0,
            latency_ms: 0,
            requests_total: 0,
            signed_at: 0,
            version: String::new(),
            signature: String::new(),
            seen_at: 0,
        });
    }
    s
}

fn counts(n: &Startup) -> (u64, u64, u64, u64) {
    let s = n.stats.snapshot_at(0);
    (s.requests_total, s.requests_proxied, s.requests_relayed, s.requests_rejected)
}

#[test]
fn start_of_a_node() {
    let mut cfg = Config::default();
    cfg.network.listen_port = PortCfg::Num(11204);
    let n = start(&cfg, &[7; 32], None);
    assert_eq!(n.node_id.len(), 64);
    assert_eq!(n.stats.node_id, n.node_id);
    assert_eq!(n.stats.quic_udp_port, 11204);
    assert!(n.stats.dht_enabled);
    assert!(n.engine.serves(TARGET));
    assert_eq!(start(&cfg, &[7; 32], Some("9".to_owned())).stats.quic_udp_port, 9);

    cfg.network.relays.push("https://relay.example".to_owned());
    let n = start(&cfg, &[7; 32], Some("9".to_owned()));
    assert_eq!(n.stats.quic_udp_port, 0);
    assert!(matches!(n.transport, Transport::RelayOnly { relays } if relays == vec!["https://relay.example/".to_owned()]));
}

#[test]
fn start_keeps_the_relays_in_order() {
    let mut cfg = Config::default();
    for s in [" https://b.example ", "", "no url", "https://a.example", "https://b.example"] {
        cfg.network.relays.push(s.to_owned());
    }
    match start(&cfg, &[7; 32], None).transport {
        Transport::RelayOnly { relays } => assert_eq!(
            relays,
            vec!["https://b.example/", "https://a.example/", "https://b.example/"]
        ),
        other => panic!("{other:?}"),
    }
}

#[test]
fn start_counts_nothing() {
    let n = node();
    assert_eq!(counts(&n), (0, 0, 0, 0));
    assert_eq!((n.stats.active_peers, n.stats.active_connections, n.stats.dht_nodes), (0, 0, 0));
    assert!(n.stats.rpc.is_empty());
    assert!(matches!(n.transport, Transport::Random));
    assert!(n.engine.serves(""));
}

#[test]
fn requests_to_a_served_target() {
    let mut n = node();
    let mut l = RateLimiter::new();
    for target in [TARGET, ""] {
        match route_at(&n.engine, &mut l, &mut n.stats, &packet(target, "GET"), "p", true, 0, 0) {
            Route::Proxy(req) => assert_eq!(req.url, "http://localhost:4003/api/x"),
            other => panic!("{other:?}"),
        }
    }
    assert_eq!(counts(&n), (2, 2, 0, 0));
}

#[test]
fn tunnels_need_the_newer_protocol() {
    let mut n = node();
    let mut l = RateLimiter::new();
    for (method, v1, tunnel) in [("WS", true, true), ("ws", true, true), ("wS", true, true), ("WS", false, false), ("WSS", true, false)] {
        let r = route_at(&n.engine, &mut l, &mut n.stats, &packet(TARGET, method), method, v1, 0, 0);
        assert_eq!(matches!(r, Route::Tunnel), tunnel, "{method} {v1}");
    }
    assert_eq!(counts(&n), (5, 5, 0, 0));
    let r = route_at(&n.engine, &mut l, &mut n.stats, &packet("foreign", "WS"), "q", true, 0, 0);
    assert!(matches!(r, Route::Relay));
}

#[test]
fn foreign_targets_are_passed_on_at_their_own_rate() {
    let mut n = node();
    let mut l = RateLimiter::new();
    for _ in 0..10 {
        let r = route_at(&n.engine, &mut l, &mut n.stats, &packet("foreign", "GET"), "p", true, 0, 0);
        assert!(matches!(r, Route::Relay));
    }
    let r = route_at(&n.engine, &mut l, &mut n.stats, &packet("foreign", "GET"), "p", true, 0, 0);
    assert!(matches!(r, Route::Reject(_)));
    assert_eq!(counts(&n), (11, 0, 10, 1));
}

#[test]
fn too_many_requests_are_refused() {
    let mut n = node();
    let mut l = RateLimiter::new();
    for _ in 0..5 {
        let r = route_at(&n.engine, &mut l, &mut n.stats, &packet(TARGET, "GET"), "p", true, 0, 0);
        assert!(matches!(r, Route::Proxy(_)));
    }
    match route_at(&n.engine, &mut l, &mut n.stats, &packet(TARGET, "WS"), "p", true, 0, 1234) {
        Route::Reject(body) => {
            let v: serde_json::Value = serde_json::from_slice(&body).unwrap();
            let p = &v["pdata"];
            assert_eq!(p["status"].as_u64(), Some(429));
            assert_eq!(p["signed_at"].as_u64(), Some(1234));
            let raw = "{\"detail\":\"превышен лимит запросов на этот PeerID\",\"error\":\"rate_limited\"}";
            let canon = format!("{}|429|1234|{}", n.node_id, raw);
            assert!(verify_hex(&n.node_id, canon.as_bytes(), p["sig"].as_str().unwrap()));
        }
        other => panic!("{other:?}"),
    }
    let r = route_at(&n.engine, &mut l, &mut n.stats, &packet(TARGET, "GET"), "other", true, 0, 0);
    assert!(matches!(r, Route::Proxy(_)));
    assert_eq!(counts(&n), (7, 6, 0, 1));
}

#[test]
fn packet_without_hops() {
    let mut p = packet("foreign", "GET");
    p.ttl = 0;
    assert!(matches!(Relay::start(&p, &store(&[("a", &[])]), "me"), Err(RelayError::TtlExpired)));
}

#[test]
fn packet_without_peers() {
    let p = packet("foreign", "GET");
    assert!(matches!(Relay::start(&p, &store(&[]), "me"), Err(RelayError::NoPeers)));
    assert!(matches!(Relay::start(&p, &store(&[("me", &["foreign"])]), "me"), Err(RelayError::NoPeers)));
}

#[test]
fn providers_are_tried_first() {
    let p = packet("foreign", "GET");
    let s = store(&[("a", &[]), ("b", &["foreign"]), ("c", &["foreign"]), ("me", &["foreign"])]);
    let r = match Relay::start(&p, &s, "me") {
        Ok(r) => r,
        Err(e) => panic!("{e:?}"),
    };
    assert_eq!(r.packet().ttl, 4);
    assert_eq!(r.packet().target_provider, "foreign");
    assert_eq!(r.packet().request_id, "id");
    assert_eq!(r.candidate(), "b");
    let r = match r.step(None) {
        RelayStep::Next(r) => r,
        _ => panic!(),
    };
    assert_eq!(r.candidate(), "c");
    assert_eq!(r.packet().ttl, 4);
    assert!(matches!(r.step(None), RelayStep::Fail(RelayError::AllUnreachable)));
}

#[test]
fn any_peer_is_tried_where_none_is_a_provider() {
    let p = packet("foreign", "GET");
    let s = store(&[("a", &["x"]), ("b", &[]), ("me", &[])]);
    let r = match Relay::start(&p, &s, "me") {
        Ok(r) => r,
        Err(e) => panic!("{e:?}"),
    };
    assert_eq!(r.candidate(), "a");
    assert!(matches!(r.step(Some(b"reply".to_vec())), RelayStep::Answer(b) if b == b"reply"));
}

#[test]
fn hops_run_out() {
    let s = store(&[("a", &[]), ("b", &[])]);
    let mut p = packet("foreign", "GET");
    let mut hops = 0;
    while let Ok(r) = Relay::start(&p, &s, "a") {
        p = r.packet().clone();
        hops += 1;
    }
    assert_eq!(hops, 5);
    assert_eq!(p.ttl, 0);
}
