use netfory_provider::peers::{Manifest, PeerStore};

fn manifest(node: &str, endpoints: &[&str], signed_at: u64) -> Manifest {
    Manifest {
        node_id: node.to_owned(),
        endpoints: endpoints.iter().map(|s| s.to_string()).collect(),
        uptime_secs: 1,
        latency_ms: 2,
        requests_total: 3,
        signed_at,
        version: "v".to_owned(),
        signature: "s".to_owned(),
        seen_at: 5,
    }
}

fn strings(list: &[&str]) -> Vec<String> {
    list.iter().map(|s| s.to_string()).collect()
}

#[test]
fn canonical_bytes_of_a_manifest() {
    let m = manifest("node", &["a", "b"], 0x0102030405060708);
    let mut expected = b"node|a,b|".to_vec();
    for (i, n) in [1u64, 2, 3, 0x0102030405060708].iter().enumerate() {
        if i > 0 {
            expected.push(b'|');
        }
        expected.extend_from_slice(&n.to_be_bytes());
    }
    assert_eq!(m.canonical_bytes(), expected);
    assert_eq!(m.clone().canonical_bytes(), expected);
    let mut other = m.clone();
    other.version = "w".to_owned();
    other.signature = "t".to_owned();
    other.seen_at = 6;
    assert_eq!(other.canonical_bytes(), expected);
    other.requests_total = 4;
    assert_ne!(other.canonical_bytes(), expected);
}

#[test]
fn canonical_bytes_join_the_endpoints() {
    assert_eq!(
        manifest("n", &[], 0).canonical_bytes(),
        manifest("n", &[""], 0).canonical_bytes()
    );
    assert_eq!(
        manifest("n", &["a,b"], 0).canonical_bytes(),
        manifest("n", &["a", "b"], 0).canonical_bytes()
    );
    assert_ne!(
        manifest("n", &["a"], 0).canonical_bytes(),
        manifest("n", &["b"], 0).canonical_bytes()
    );
}

#[test]
fn one_manifest_for_each_node() {
    let mut s = PeerStore::new();
    assert!(s.list().is_empty());
    s.upsert(manifest("b", &["x"], 1));
    s.upsert(manifest("a", &["y"], 2));
    s.upsert(manifest("c", &["x", "y"], 3));
    s.upsert(manifest("b", &["z"], 4));
    let got: Vec<(&str, u64)> = s.list().iter().map(|m| (m.node_id.as_str(), m.signed_at)).collect();
    assert_eq!(got, vec![("a", 2), ("b", 4), ("c", 3)]);
}

#[test]
fn peers_for_a_target() {
    let mut s = PeerStore::new();
    s.upsert(manifest("b", &["x"], 1));
    s.upsert(manifest("a", &["y"], 2));
    s.upsert(manifest("c", &["x", "y"], 3));
    assert_eq!(s.providers_of("x", "none"), strings(&["b", "c"]));
    assert_eq!(s.providers_of("x", "b"), strings(&["c"]));
    assert_eq!(s.providers_of("z", ""), strings(&[]));
    assert_eq!(s.others("b"), strings(&["a", "c"]));
    assert_eq!(s.others(""), strings(&["a", "b", "c"]));
}
