//! The announcements by which nodes learn of each other, and the health of local endpoints.
use crate::config;
use crate::crypto;
use crate::encoding;
use crate::hexadecimal;
use crate::peers;
use crate::peers::{Manifest, ManifestView, PeerStore};
use crate::proxy_engine;
use crate::stats;
use crate::text;
use vstd::prelude::*;

verus! {

/// The least number of seconds between two announcements.
pub const MIN_ANNOUNCE_SECS: u64 = 15;

/// The number of seconds between two looks at the health of the local endpoints.
pub const HEALTH_SECS: u64 = 30;

/// The version that a node announces.
pub const VERSION: &'static str = "0.6.2";

/// The SHA-256 digest of some bytes.
pub uninterp spec fn sha256_digest(data: Seq<u8>) -> Seq<u8>;

/// `sha2::Sha256` gives a digest that depends on the bytes alone.
#[verifier::external_body]
fn sha256(data: &[u8]) -> (r: [u8; 32])
    ensures
        r@ == sha256_digest(data@),
{
    <sha2::Sha256 as sha2::Digest>::digest(data).into()
}

/// The topic of the announcements.
pub fn announce_topic() -> (r: [u8; 32])
    ensures
        r@ == sha256_digest(encoding::utf8("netfory:announce:v0"@)),
{
    sha256("netfory:announce:v0".as_bytes())
}

/// The number of seconds between two announcements.
pub fn announce_interval(configured: u64) -> (r: u64)
    ensures
        r == (if configured < MIN_ANNOUNCE_SECS {
            MIN_ANNOUNCE_SECS
        } else {
            configured
        }),
        r >= 15,
        configured >= 15 ==> r == configured,
        configured < 15 ==> r == 15,
{
    if configured < MIN_ANNOUNCE_SECS {
        MIN_ANNOUNCE_SECS
    } else {
        configured
    }
}

/// The names of the endpoints of a configuration, in order.
pub open spec fn endpoint_names(list: Seq<config::EndpointView>) -> Seq<Seq<char>> {
    list.map_values(|e: config::EndpointView| e.name)
}

/// The names that a node announces.
pub fn announced_names(cfg: &config::Config) -> (r: Vec<String>)
    ensures
        text::texts(r@) == endpoint_names(config::endpoint_views(cfg.endpoints@)),
{
    let mut r: Vec<String> = Vec::new();
    let ghost all = endpoint_names(config::endpoint_views(cfg.endpoints@));
    let mut i: usize = 0;
    while i < cfg.endpoints.len()
        invariant
            i <= cfg.endpoints@.len(),
            all == endpoint_names(config::endpoint_views(cfg.endpoints@)),
            text::texts(r@) == all.take(i as int),
        decreases cfg.endpoints@.len() - i,
    {
        let ghost was = text::texts(r@);
        r.push(cfg.endpoints[i].1.name.clone());
        proof {
            assert(text::texts(r@) == was.push(all[i as int]));
            assert(all.take(i + 1) == was.push(all[i as int]));
        }
        i = i + 1;
    }
    assert(all.take(i as int) == all);
    r
}

/// Whether a manifest bears a signature that the key of its node accepts.
pub open spec fn is_genuine(m: ManifestView) -> bool {
    &&& crypto::iroh_endpoint_key(m.node_id) matches Some(key)
    &&& hexadecimal::hex_bytes(m.signature) matches Some(sig)
    &&& crypto::accepts(key, peers::manifest_bytes(m), sig)
}

/// The manifest of a node before it is signed.
pub open spec fn unsigned_manifest(
    s: stats::StatsSnapshot,
    names: Seq<Seq<char>>,
    version: Seq<char>,
    signed_at: u64,
) -> ManifestView {
    ManifestView {
        node_id: s.node_id@,
        endpoints: names,
        uptime_secs: s.uptime_secs,
        latency_ms: s.avg_latency_ms,
        requests_total: s.requests_total,
        signed_at,
        version,
        signature: Seq::empty(),
        seen_at: 0,
    }
}

/// The announcement of a node: its statistics and its names, signed with its key. Where the node
/// bears the name of the key, the announcement is genuine.
pub fn announcement(
    s: &stats::StatsSnapshot,
    names: &Vec<String>,
    version: &str,
    signed_at: u64,
    signing: &crypto::SigningKey,
) -> (r: Manifest)
    ensures
        ({
            let m = unsigned_manifest(*s, text::texts(names@), version@, signed_at);
            r@ == (ManifestView {
                signature: hexadecimal::hex_text(
                    crypto::ed25519_signature(signing.seed@, peers::manifest_bytes(m)),
                ),
                ..m
            })
        }),
        crypto::iroh_endpoint_key(s.node_id@) == Some(crypto::ed25519_public(signing.seed@))
            ==> is_genuine(r@),
{
    let mut m = Manifest {
        node_id: s.node_id.clone(),
        endpoints: text::clone_texts(names),
        uptime_secs: s.uptime_secs,
        latency_ms: s.avg_latency_ms,
        requests_total: s.requests_total,
        signed_at,
        version: version.to_owned(),
        signature: String::new(),
        seen_at: 0,
    };
    let ghost unsigned = m@;
    let canon = m.canonical_bytes();
    m.signature = crypto::sign_hex(signing, canon.as_slice());
    assert(peers::manifest_bytes(m@) == peers::manifest_bytes(unsigned));
    m
}

/// Whether a manifest is genuine.
pub fn verify_manifest(m: &Manifest) -> (r: bool)
    ensures
        r == is_genuine(m@),
{
    match crypto::iroh_parse_endpoint(m.node_id.as_str()) {
        Some(key) => {
            let canon = m.canonical_bytes();
            crypto::verify_key_hex(&key, canon.as_slice(), m.signature.as_str())
        },
        None => false,
    }
}

/// Takes an announcement that was received at the time `now` into the store. One that is not
/// genuine changes nothing. Returns the manifest as it was stored.
pub fn accept_announcement(
    store: &mut PeerStore,
    st: &mut stats::Stats,
    m: Manifest,
    now: u64,
) -> (r: Option<Manifest>)
    ensures
        if is_genuine(m@) {
            let stored = ManifestView { seen_at: now, ..m@ };
            &&& r matches Some(x) && x@ == stored
            &&& text::ascending(peers::node_ids(final(store)@))
            &&& forall|x: ManifestView| #[trigger]
                final(store)@.contains(x) <==> (if x.node_id == stored.node_id {
                    x == stored
                } else {
                    old(store)@.contains(x)
                })
            &&& final(st)@ == (stats::StatsView {
                active_peers: final(store)@.len() as u64,
                ..old(st)@
            })
        } else {
            &&& r is None
            &&& final(store)@ == old(store)@
            &&& final(st)@ == old(st)@
        },
        final(st).clock == old(st).clock,
{
    if !verify_manifest(&m) {
        return None;
    }
    let mut m = m;
    m.seen_at = now;
    store.upsert(m.clone());
    count_peers(store, st);
    Some(m)
}

/// Sets the number of known nodes in the statistics.
pub fn count_peers(store: &PeerStore, st: &mut stats::Stats)
    ensures
        final(st)@ == (stats::StatsView { active_peers: store@.len() as u64, ..old(st)@ }),
        final(st).clock == old(st).clock,
{
    let n: usize = store.list().len();
    st.set_active_peers(n as u64);
}

/// The keys that the texts of a list name, in order. Texts that name none are passed over.
pub open spec fn keys_of(ids: Seq<Seq<char>>) -> Seq<Seq<u8>>
    decreases ids.len(),
{
    if ids.len() == 0 {
        Seq::empty()
    } else {
        let before = keys_of(ids.drop_last());
        match crypto::iroh_endpoint_key(ids.last()) {
            Some(key) => before.push(key),
            None => before,
        }
    }
}

/// The views of a list of keys.
pub open spec fn key_views(list: Seq<[u8; 32]>) -> Seq<Seq<u8>> {
    list.map_values(|k: [u8; 32]| k@)
}

/// The key of a node, if its name is one.
pub fn peer_key(node_id: &str) -> (r: Option<[u8; 32]>)
    ensures
        match r {
            Some(key) => crypto::iroh_endpoint_key(node_id@) == Some(key@),
            None => crypto::iroh_endpoint_key(node_id@) is None,
        },
{
    crypto::iroh_parse_endpoint(node_id)
}

/// The keys of the known nodes, by which a node enters the topic of the announcements.
pub fn topic_bootstrap(store: &PeerStore) -> (r: Vec<[u8; 32]>)
    ensures
        key_views(r@) == keys_of(peers::other_ids(store@, Seq::empty())),
{
    proof {
        reveal_strlit("");
        assert(""@ == Seq::<char>::empty());
    }
    let ids = store.others("");
    let mut r: Vec<[u8; 32]> = Vec::new();
    let ghost all = text::texts(ids@);
    let mut i: usize = 0;
    assert(key_views(r@) == Seq::<Seq<u8>>::empty());
    while i < ids.len()
        invariant
            i <= ids@.len(),
            all == text::texts(ids@),
            key_views(r@) == keys_of(all.take(i as int)),
        decreases ids@.len() - i,
    {
        let ghost was = key_views(r@);
        proof {
            assert(all.take(i + 1).drop_last() == all.take(i as int));
            assert(all.take(i + 1).last() == ids@[i as int]@);
        }
        if let Some(key) = peer_key(ids[i].as_str()) {
            r.push(key);
            assert(key_views(r@) == was.push(key@));
        }
        i = i + 1;
    }
    assert(all.take(i as int) == all);
    r
}

/// The status of a local endpoint, for what came of a GET of its URL.
pub fn rpc_status(
    engine: &proxy_engine::ProxyEngine,
    name: &str,
    answered: bool,
    elapsed_ms: u64,
) -> (r: stats::RpcStatus)
    ensures
        r@ == (stats::RpcView {
            name: name@,
            online: engine.named(name@) is Some && answered,
            latency_ms: if engine.named(name@) is Some {
                elapsed_ms
            } else {
                0
            },
            protocols: proxy_engine::protocol_names(engine.resolved(name@)),
        }),
{
    let (online, latency_ms) = engine.health(name, answered, elapsed_ms);
    stats::RpcStatus {
        name: name.to_owned(),
        online,
        latency_ms,
        protocols: engine.protocols_for(name),
    }
}

/// A manifest is genuine where Ed25519 accepts its signature, in hexadecimal, over all that the
/// manifest announces, under the key that its node is named by, and nowhere else.
pub proof fn law_genuine(m: ManifestView)
    ensures
        is_genuine(m) <==> crypto::iroh_endpoint_key(m.node_id) is Some && hexadecimal::hex_bytes(
            m.signature,
        ) is Some && crypto::iroh_endpoint_key(m.node_id)->0.len() == 32 && hexadecimal::hex_bytes(
            m.signature,
        )->0.len() == 64 && crypto::ed25519_verifies(
            crypto::iroh_endpoint_key(m.node_id)->0,
            peers::manifest_bytes(m),
            hexadecimal::hex_bytes(m.signature)->0,
        ),
{
}

/// A node announces its name, its endpoints and what its statistics say at the time.
pub proof fn law_what_is_announced(
    s: stats::StatsSnapshot,
    names: Seq<Seq<char>>,
    version: Seq<char>,
    signed_at: u64,
)
    ensures
        ({
            let m = unsigned_manifest(s, names, version, signed_at);
            &&& m.node_id == s.node_id@
            &&& m.endpoints == names
            &&& m.uptime_secs == s.uptime_secs
            &&& m.latency_ms == s.avg_latency_ms
            &&& m.requests_total == s.requests_total
            &&& m.signed_at == signed_at
            &&& m.version == version
            &&& m.seen_at == 0
        }),
{
}

/// The names that are announced are those of the endpoints, in their places.
pub proof fn law_announced_names(list: Seq<config::EndpointView>)
    ensures
        endpoint_names(list).len() == list.len(),
        forall|i: int| 0 <= i < list.len() ==> #[trigger] endpoint_names(list)[i] == list[i].name,
{
}

/// The views of keys stand in the places of the keys.
pub proof fn law_key_views(list: Seq<[u8; 32]>)
    ensures
        key_views(list).len() == list.len(),
        forall|i: int| 0 <= i < list.len() ==> #[trigger] key_views(list)[i] == list[i]@,
{
}

/// Every name of a key gives that key, in order; a name of none is passed over.
pub proof fn law_keys_of_names(a: Seq<Seq<char>>, b: Seq<Seq<char>>, id: Seq<char>)
    ensures
        keys_of(a + b) == keys_of(a) + keys_of(b),
        keys_of(seq![id]) == (match crypto::iroh_endpoint_key(id) {
            Some(key) => seq![key],
            None => Seq::empty(),
        }),
    decreases b.len(),
{
    if b.len() == 0 {
        assert(a + b == a);
        assert(keys_of(a) + Seq::<Seq<u8>>::empty() == keys_of(a));
    } else {
        law_keys_of_names(a, b.drop_last(), id);
        assert((a + b).drop_last() == a + b.drop_last());
        assert((a + b).last() == b.last());
        assert(keys_of(a + b) == keys_of(a) + keys_of(b));
    }
    let one = seq![id];
    assert(one.drop_last() == Seq::<Seq<char>>::empty());
    assert(keys_of(one.drop_last()) == Seq::<Seq<u8>>::empty());
    match crypto::iroh_endpoint_key(id) {
        Some(key) => {
            assert(keys_of(one) == seq![key]);
        },
        None => {
            assert(keys_of(one) == Seq::<Seq<u8>>::empty());
        },
    }
}

/// The health of the local endpoints is looked at every half minute.
pub proof fn law_health_interval()
    ensures
        HEALTH_SECS == 30,
{
}

} // verus!
