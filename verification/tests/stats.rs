use netfory_provider::stats::{RpcStatus, Stats};

fn rpc(name: &str, online: bool, latency_ms: u64) -> RpcStatus {
    RpcStatus { name: name.to_owned(), online, latency_ms, protocols: vec!["rpc".to_owned()] }
}

#[test]
fn new_stats() {
    let s = Stats::new("node".to_owned(), 11204, true).snapshot_at(0);
    assert_eq!(s.node_id, "node");
    assert_eq!(s.quic_udp_port, 11204);
    assert!(s.dht_enabled);
    assert_eq!(
        (s.requests_total, s.requests_proxied, s.requests_relayed, s.requests_rejected),
        (0, 0, 0, 0)
    );
    assert_eq!((s.active_peers, s.active_connections, s.dht_nodes, s.avg_latency_ms), (0, 0, 0, 0));
    assert!(s.rpc.is_empty());
}

#[test]
fn counters() {
    let mut s = Stats::new("n".to_owned(), 0, false);
    s.inc_total();
    s.inc_total();
    s.inc_proxied();
    s.inc_relayed();
    s.inc_relayed();
    s.inc_relayed();
    s.inc_rejected();
    s.set_active_peers(9);
    s.set_dht_nodes(300);
    let t = s.snapshot();
    assert_eq!(
        (t.requests_total, t.requests_proxied, t.requests_relayed, t.requests_rejected),
        (2, 1, 3, 1)
    );
    assert_eq!((t.active_peers, t.dht_nodes), (9, 300));
    assert_eq!(s.requests_total, 2);
}

#[test]
fn counters_wrap() {
    let mut s = Stats::new("n".to_owned(), 0, false);
    s.requests_total = u64::MAX;
    s.inc_total();
    assert_eq!(s.requests_total, 0);
}

#[test]
fn connections() {
    let mut s = Stats::new("n".to_owned(), 0, false);
    let a = s.track_connection();
    let b = s.track_connection();
    assert_eq!(s.active_connections, 2);
    s.release_connection(a);
    assert_eq!(s.active_connections, 1);
    s.release_connection(b);
    assert_eq!(s.active_connections, 0);
}

#[test]
fn connections_are_the_guards_that_are_out() {
    let mut s = Stats::new("n".to_owned(), 0, false);
    let mut out = Vec::new();
    for step in 0..60u32 {
        if step % 5 < 3 {
            out.push(s.track_connection());
        } else {
            let guard = out.remove(step as usize % out.len());
            s.release_connection(guard);
        }
        s.inc_total();
        s.set_active_peers(u64::from(step));
        assert_eq!(s.active_connections, out.len() as u64);
    }
    for guard in out {
        s.release_connection(guard);
    }
    assert_eq!(s.active_connections, 0);
}

#[test]
fn mean_latency() {
    let mut s = Stats::new("n".to_owned(), 0, false);
    assert_eq!(s.avg_latency_ms(), 0);
    s.set_rpc(vec![rpc("a", false, 1000)]);
    assert_eq!(s.avg_latency_ms(), 0);
    s.set_rpc(vec![rpc("a", true, 10), rpc("b", false, 1000), rpc("c", true, 15)]);
    assert_eq!(s.avg_latency_ms(), 12);
    s.set_rpc(vec![rpc("a", true, u64::MAX), rpc("b", true, u64::MAX)]);
    assert_eq!(s.avg_latency_ms(), u64::MAX);
    let t = s.snapshot_at(0);
    assert_eq!(t.rpc.len(), 2);
    assert_eq!(t.rpc[1].name, "b");
    assert_eq!(t.rpc[1].protocols, vec!["rpc".to_owned()]);
    assert_eq!(t.avg_latency_ms, u64::MAX);
}

#[test]
fn uptime() {
    assert_eq!(Stats::uptime_at(0), 0);
    assert_eq!(Stats::uptime_at(1_999_999_999), 1);
    assert_eq!(Stats::uptime_at(u64::MAX), 18_446_744_073);
    let s = Stats::new("n".to_owned(), 0, false);
    assert!(s.uptime_secs() < 20);
    assert_eq!(s.snapshot_at(61_000_000_000).uptime_secs, 61);
}
