use netfory_provider::config::Config;
use netfory_provider::crypto::{iroh_secret, node_id, signing_key, Root};
use netfory_provider::discovery::{
    accept_announcement, announce_interval, announce_topic, announced_names, announcement,
    count_peers, peer_key, rpc_status, topic_bootstrap, verify_manifest,
};
use netfory_provider::peers::{Manifest, PeerStore};
use netfory_provider::proxy_engine::ProxyEngine;
use netfory_provider::stats::{RpcStatus, Stats};

fn announced(root: &Root, names: &[&str], at: u64) -> Manifest {
    let mut stats = Stats::new(node_id(&iroh_secret(root)), 0, false);
    stats.inc_total();
    stats.set_rpc(vec![RpcStatus {
        name: "a".to_owned(),
        online: true,
        latency_ms: 12,
        protocols: vec![],
    }]);
    let names: Vec<String> = names.iter().map(|s| s.to_string()).collect();
    announcement(&stats.snapshot_at(3_000_000_000), &names, "0.6.2", at, &signing_key(root))
}

#[test]
fn topic() {
    assert_eq!(
        hex::encode(announce_topic()),
        "ea46b49343a14b85e6dec9f1f5d502af6e36ab4ef37089f17750611f44b4a6d6"
    );
}

#[test]
fn interval() {
    assert_eq!(announce_interval(0), 15);
    assert_eq!(announce_interval(14), 15);
    assert_eq!(announce_interval(15), 15);
    assert_eq!(announce_interval(300), 300);
}

#[test]
fn names_to_announce() {
    assert_eq!(announced_names(&Config::default()), vec!["node1-smartholdem".to_owned()]);
}

#[test]
fn own_announcement_is_genuine() {
    let m = announced(&[3; 32], &["x", "y"], 77);
    assert_eq!(m.node_id, node_id(&iroh_secret(&[3; 32])));
    assert_eq!(m.endpoints, vec!["x".to_owned(), "y".to_owned()]);
    assert_eq!((m.uptime_secs, m.latency_ms, m.requests_total, m.signed_at), (3, 12, 1, 77));
    assert_eq!(m.version, "0.6.2");
    assert_eq!(m.seen_at, 0);
    assert!(verify_manifest(&m));
}

#[test]
fn forged_announcements_are_refused() {
    let forge = |change: &dyn Fn(&mut Manifest)| {
        let mut m = announced(&[3; 32], &["x"], 77);
        change(&mut m);
        verify_manifest(&m)
    };
    assert!(!forge(&|m| m.endpoints.push("z".to_owned())));
    assert!(!forge(&|m| m.uptime_secs += 1));
    assert!(!forge(&|m| m.latency_ms += 1));
    assert!(!forge(&|m| m.requests_total += 1));
    assert!(!forge(&|m| m.signed_at += 1));
    assert!(!forge(&|m| m.node_id = node_id(&iroh_secret(&[4; 32]))));
    assert!(!forge(&|m| m.node_id = "nonsense".to_owned()));
    assert!(!forge(&|m| m.signature = String::new()));
    assert!(!forge(&|m| m.signature.truncate(126)));
    assert!(!forge(&|m| m.signature = "zz".repeat(64)));
    // What the signature does not cover may change.
    assert!(forge(&|m| m.version = "9".to_owned()));
    assert!(forge(&|m| m.seen_at = 5));
}

#[test]
fn genuine_announcements_are_stored() {
    let mut store = PeerStore::new();
    let mut stats = Stats::new("me".to_owned(), 0, false);
    let stored = accept_announcement(&mut store, &mut stats, announced(&[3; 32], &["x"], 77), 1000);
    assert_eq!(stored.unwrap().seen_at, 1000);
    assert_eq!(store.list().len(), 1);
    assert_eq!(stats.active_peers, 1);
    assert!(accept_announcement(&mut store, &mut stats, announced(&[4; 32], &["x"], 77), 1001).is_some());
    assert_eq!(stats.active_peers, 2);
    assert!(accept_announcement(&mut store, &mut stats, announced(&[3; 32], &["y"], 78), 1002).is_some());
    assert_eq!(stats.active_peers, 2);
    let id = node_id(&iroh_secret(&[3; 32]));
    assert_eq!(store.providers_of("y", ""), vec![id]);

    let mut forged = announced(&[5; 32], &["x"], 77);
    forged.signed_at = 0;
    assert!(accept_announcement(&mut store, &mut stats, forged, 1003).is_none());
    assert_eq!(store.list().len(), 2);
    stats.set_active_peers(0);
    count_peers(&store, &mut stats);
    assert_eq!(stats.active_peers, 2);
}

#[test]
fn keys_of_peers() {
    let id = node_id(&iroh_secret(&[3; 32]));
    assert_eq!(hex::encode(peer_key(&id).unwrap()), id);
    assert!(peer_key("nonsense").is_none());
    let mut store = PeerStore::new();
    store.upsert(announced(&[3; 32], &[], 1));
    let mut odd = announced(&[4; 32], &[], 1);
    odd.node_id = "odd".to_owned();
    store.upsert(odd);
    let keys = topic_bootstrap(&store);
    assert_eq!(keys.len(), 1);
    assert_eq!(hex::encode(keys[0]), id);
}

#[test]
fn health_of_local_endpoints() {
    let mut cfg = Config::default();
    cfg.endpoints[0].1.local_ws_url = Some("ws://x".to_owned());
    let engine = ProxyEngine::new(&cfg, &[1; 32], "n".to_owned());
    let s = rpc_status(&engine, "node1-smartholdem", true, 8);
    assert_eq!((s.name.as_str(), s.online, s.latency_ms), ("node1-smartholdem", true, 8));
    assert_eq!(s.protocols, vec!["rpc".to_owned(), "ws".to_owned()]);
    let s = rpc_status(&engine, "node1-smartholdem", false, 5000);
    assert_eq!((s.online, s.latency_ms), (false, 5000));
    let s = rpc_status(&engine, "other", true, 8);
    assert_eq!((s.online, s.latency_ms, s.protocols.len()), (false, 0, 0));
}
