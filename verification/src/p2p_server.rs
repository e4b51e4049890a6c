//! What a node does with the requests that reach it: it refuses them, answers them, opens tunnels
//! for them, or passes them on to other nodes.
use crate::config;
use crate::crypto;
use crate::peers;
use crate::peers::{ManifestView, PeerStore};
use crate::protocol;
use crate::protocol::{MeshPacket, PacketView};
use crate::proxy_engine;
use crate::proxy_engine::{ProxyEngine, UpstreamRequest};
use crate::ratelimit;
use crate::ratelimit::RateLimiter;
use crate::stats;
use crate::stats::{Stats, StatsView};
use crate::text;
use crate::transport;
use vstd::prelude::*;

verus! {

/// The number of requests per second that one peer may have passed on.
pub const RELAY_RATE: u32 = 10;

/// The number of streams of one connection that are served at the same time.
pub const MAX_CONCURRENT_STREAMS_PER_CONN: usize = 16;

/// The parts of a node at its start.
pub struct Startup {
    pub node_id: String,
    pub transport: transport::Transport,
    pub stats: Stats,
    pub engine: ProxyEngine,
}

/// The parts of a node with this configuration and this root. The node bears the name of the key
/// that it signs with. Where the configuration has relays, it is reached through these alone, and
/// shows no port.
pub fn start(cfg: &config::Config, root: &crypto::Root, env_port: Option<String>) -> (r: Startup)
    ensures
        r.node_id@ == crypto::node_name(root@),
        crypto::iroh_endpoint_key(r.node_id@) == Some(crypto::ed25519_public(root@)),
        r.engine.node() == r.node_id@,
        r.engine.seed() == root@,
        text::ascending(r.engine.served()),
        forall|t: Seq<char>| #[trigger]
            r.engine.named(t) == proxy_engine::last_named(
                config::endpoint_views(cfg.endpoints@),
                t,
            ),
        forall|t: Seq<char>| #[trigger]
            r.engine.served().contains(t) <==> r.engine.named(t) is Some,
        r.transport.number() == (if cfg.network.relays@.len() > 0 {
            0
        } else {
            transport::wanted_port(cfg.network, config::text_option(env_port))
        }),
        match r.transport {
            transport::Transport::RelayOnly { relays } => {
                &&& cfg.network.relays@.len() > 0
                &&& text::texts(relays@) == transport::relays_of(text::texts(cfg.network.relays@))
            },
            transport::Transport::Fixed { port } => cfg.network.relays@.len() == 0 && port != 0,
            transport::Transport::Random => cfg.network.relays@.len() == 0,
        },
        r.stats@ == (StatsView {
            node_id: r.node_id@,
            quic_udp_port: r.transport.number(),
            requests_total: 0,
            requests_proxied: 0,
            requests_relayed: 0,
            requests_rejected: 0,
            active_peers: 0,
            active_connections: 0,
            dht_enabled: cfg.network.dht_enabled,
            dht_nodes: 0,
            rpc: Seq::empty(),
        }),
        is_balanced(r.stats@),
{
    let node_id = crypto::node_id(&crypto::iroh_secret(root));
    let how = transport::transport(&cfg.network, env_port);
    let stats = Stats::new(node_id.clone(), how.quic_port(), cfg.network.dht_enabled);
    let engine = ProxyEngine::new(cfg, root, node_id.clone());
    Startup { node_id, transport: how, stats, engine }
}

/// What becomes of a request.
#[derive(Debug)]
pub enum Route {
    /// The peer makes too many requests: this response is sent.
    Reject(Vec<u8>),
    /// The stream becomes a tunnel.
    Tunnel,
    /// The local instance gets this request.
    Proxy(UpstreamRequest),
    /// The packet is passed on to another node.
    Relay,
}

/// The number of requests for a target per second that one peer may make.
pub open spec fn stream_rate(engine: &ProxyEngine, target: Seq<char>) -> u32 {
    match engine.resolved(target) {
        Some(e) => e.rate_limit_per_peer,
        None => RELAY_RATE,
    }
}

/// Whether a packet asks for a tunnel, on a stream that can become one.
pub open spec fn asks_for_tunnel(method: Seq<char>, v1: bool) -> bool {
    v1 && text::ascii_lower(method) == "ws"@
}

/// The statistics after a request that is refused.
pub open spec fn after_reject(s: StatsView) -> StatsView {
    StatsView {
        requests_total: stats::one_more(s.requests_total),
        requests_rejected: stats::one_more(s.requests_rejected),
        ..s
    }
}

/// The statistics after a request that is answered here.
pub open spec fn after_proxy(s: StatsView) -> StatsView {
    StatsView {
        requests_total: stats::one_more(s.requests_total),
        requests_proxied: stats::one_more(s.requests_proxied),
        ..s
    }
}

/// The statistics after a request that is passed on.
pub open spec fn after_relay(s: StatsView) -> StatsView {
    StatsView {
        requests_total: stats::one_more(s.requests_total),
        requests_relayed: stats::one_more(s.requests_relayed),
        ..s
    }
}

/// Whether the requests that were answered, passed on and refused are, up to the wrapping of the
/// counters, all requests.
pub open spec fn is_balanced(s: StatsView) -> bool {
    (s.requests_proxied + s.requests_relayed + s.requests_rejected - s.requests_total)
        % 0x1_0000_0000_0000_0000 == 0
}

/// Every request is counted once: whatever becomes of it, the counters stay balanced.
pub proof fn law_requests_are_counted_once(s: StatsView)
    requires
        is_balanced(s),
    ensures
        is_balanced(after_reject(s)),
        is_balanced(after_proxy(s)),
        is_balanced(after_relay(s)),
{
}

/// Decides at the time `now` what becomes of a packet of `peer`. `v1` tells whether the stream can
/// become a tunnel. A response that refuses the packet is signed at `signed_at`.
pub fn route_at(
    engine: &ProxyEngine,
    limiter: &mut RateLimiter,
    st: &mut Stats,
    pkt: &MeshPacket,
    peer: &str,
    v1: bool,
    now: u64,
    signed_at: u64,
) -> (r: Route)
    ensures
        final(limiter)@ == ratelimit::buckets_after(
            old(limiter)@,
            peer@,
            stream_rate(engine, pkt.target_provider@),
            now,
        ),
        final(limiter).latest() == old(limiter).latest(),
        final(limiter).own_clock() == old(limiter).own_clock(),
        final(st).clock == old(st).clock,
        ratelimit::is_allowed(
            ratelimit::bucket_of(old(limiter)@, peer@),
            stream_rate(engine, pkt.target_provider@),
            now,
        ) <==> r !is Reject,
        engine.resolved(pkt.target_provider@) matches Some(e) ==> (ratelimit::is_allowed(
            ratelimit::bucket_of(old(limiter)@, peer@),
            e.rate_limit_per_peer,
            now,
        ) <==> r !is Reject),
        engine.resolved(pkt.target_provider@) is None ==> (ratelimit::is_allowed(
            ratelimit::bucket_of(old(limiter)@, peer@),
            10,
            now,
        ) <==> r !is Reject),
        match r {
            Route::Reject(body) => {
                &&& proxy_engine::is_rejection(
                    engine.node(),
                    pkt.target_provider@,
                    signed_at,
                    engine.seed(),
                    body@,
                )
                &&& final(st)@ == after_reject(old(st)@)
            },
            Route::Tunnel => {
                &&& engine.resolved(pkt.target_provider@) is Some
                &&& asks_for_tunnel(pkt.method@, v1)
                &&& final(st)@ == after_proxy(old(st)@)
            },
            Route::Proxy(req) => {
                &&& engine.resolved(pkt.target_provider@) matches Some(e)
                    && proxy_engine::is_upstream_request(e, pkt@, req)
                &&& !asks_for_tunnel(pkt.method@, v1)
                &&& final(st)@ == after_proxy(old(st)@)
            },
            Route::Relay => {
                &&& engine.resolved(pkt.target_provider@) is None
                &&& final(st)@ == after_relay(old(st)@)
            },
        },
        is_balanced(old(st)@) ==> is_balanced(final(st)@),
{
    st.inc_total();
    let target = pkt.target_provider.as_str();
    let served = engine.serves(target);
    let rate: u32 = if served {
        engine.rate_for(target)
    } else {
        RELAY_RATE
    };
    if !limiter.allow_at(peer, rate, now) {
        st.inc_rejected();
        return Route::Reject(engine.reject_body_at(pkt, signed_at));
    }
    let method = text::to_ascii_lowercase(pkt.method.as_str());
    if v1 && served && text::same_text(method.as_str(), "ws") {
        st.inc_proxied();
        return Route::Tunnel;
    }
    match engine.request_for(pkt) {
        Ok(req) => {
            st.inc_proxied();
            Route::Proxy(req)
        },
        Err(_) => {
            st.inc_relayed();
            Route::Relay
        },
    }
}

/// Why a packet is not passed on.
#[derive(Debug, Clone, Copy, PartialEq, Eq, Structural)]
pub enum RelayError {
    /// No hop is left.
    TtlExpired,
    /// No other node is known.
    NoPeers,
    /// No node that it was passed to answered.
    AllUnreachable,
}

/// The nodes that a packet for `target` is passed to, in the order in which they are tried: those
/// that serve the target, or where none does, all others.
pub open spec fn relay_candidates(
    list: Seq<ManifestView>,
    target: Seq<char>,
    node: Seq<char>,
) -> Seq<Seq<char>> {
    if peers::provider_ids(list, target, node).len() > 0 {
        peers::provider_ids(list, target, node)
    } else {
        peers::other_ids(list, node)
    }
}

/// A packet that is passed on: the nodes that are left are tried one by one, until one answers.
pub struct Relay {
    packet: MeshPacket,
    candidates: Vec<String>,
    at: usize,
}

impl Relay {
    #[verifier::type_invariant]
    spec fn inv(&self) -> bool {
        self.at < self.candidates@.len()
    }

    /// The packet as it is passed on.
    pub closed spec fn passed(&self) -> PacketView {
        self.packet@
    }

    /// The nodes that are left, the one to try first.
    pub closed spec fn left(&self) -> Seq<Seq<char>> {
        text::texts(self.candidates@).skip(self.at as int)
    }

    /// Begins to pass a packet on from the node `node_id`: one hop less is left to it, and nothing
    /// else of it changes.
    pub fn start(pkt: &MeshPacket, store: &PeerStore, node_id: &str) -> (r: Result<
        Relay,
        RelayError,
    >)
        ensures
            match r {
                Ok(relay) => {
                    &&& pkt.ttl > 0
                    &&& relay.passed() == (PacketView { ttl: (pkt.ttl - 1) as u8, ..pkt@ })
                    &&& relay.left() == relay_candidates(store@, pkt.target_provider@, node_id@)
                    &&& relay.left().len() > 0
                },
                Err(e) => if pkt.ttl == 0 {
                    e == RelayError::TtlExpired
                } else {
                    &&& relay_candidates(store@, pkt.target_provider@, node_id@).len() == 0
                    &&& e == RelayError::NoPeers
                },
            },
    {
        if pkt.ttl == 0 {
            return Err(RelayError::TtlExpired);
        }
        let mut packet = pkt.clone();
        packet.ttl = packet.ttl - 1;
        let mut candidates = store.providers_of(pkt.target_provider.as_str(), node_id);
        if candidates.len() == 0 {
            candidates = store.others(node_id);
        }
        proof {
            assert(text::texts(candidates@).len() == candidates@.len());
        }
        if candidates.len() == 0 {
            return Err(RelayError::NoPeers);
        }
        let relay = Relay { packet, candidates, at: 0 };
        assert(relay.left() == text::texts(relay.candidates@));
        Ok(relay)
    }

    /// The packet as it is passed on.
    pub fn packet(&self) -> (r: &MeshPacket)
        ensures
            r@ == self.passed(),
    {
        &self.packet
    }

    /// The node to try.
    pub fn candidate(&self) -> (r: &str)
        ensures
            self.left().len() > 0,
            r@ == self.left()[0],
    {
        proof {
            use_type_invariant(self);
        }
        self.candidates[self.at].as_str()
    }

    /// Takes in what came of the try, the answer of the node or nothing, and decides how it goes
    /// on.
    pub fn step(self, outcome: Option<Vec<u8>>) -> (r: RelayStep)
        ensures
            match r {
                RelayStep::Answer(reply) => outcome == Some(reply),
                RelayStep::Next(relay) => {
                    &&& outcome is None
                    &&& self.left().len() > 1
                    &&& relay.passed() == self.passed()
                    &&& relay.left() == self.left().drop_first()
                },
                RelayStep::Fail(e) => {
                    &&& outcome is None
                    &&& self.left().len() == 1
                    &&& e == RelayError::AllUnreachable
                },
            },
    {
        proof {
            use_type_invariant(&self);
        }
        if let Some(reply) = outcome {
            return RelayStep::Answer(reply);
        }
        if self.candidates.len() - self.at > 1 {
            let next: usize = self.at + 1;
            let relay = Relay { packet: self.packet, candidates: self.candidates, at: next };
            assert(relay.left() == self.left().drop_first());
            RelayStep::Next(relay)
        } else {
            RelayStep::Fail(RelayError::AllUnreachable)
        }
    }
}

/// How it goes on with a packet that is passed on.
pub enum RelayStep {
    /// A node answered. Its answer, with its signature, goes back as it is.
    Answer(Vec<u8>),
    /// The next node is tried.
    Next(Relay),
    /// There is no answer.
    Fail(RelayError),
}

/// A node never passes a packet on to itself.
pub proof fn law_no_packet_returns_to_its_node(
    list: Seq<ManifestView>,
    target: Seq<char>,
    node: Seq<char>,
)
    ensures
        !relay_candidates(list, target, node).contains(node),
{
    peers::law_providers_serve_the_target(list, target, node, node);
    peers::law_others_are_known(list, node, node);
}

/// Where a node is known to serve the target, a packet is passed on to such nodes alone.
pub proof fn law_providers_come_first(
    list: Seq<ManifestView>,
    target: Seq<char>,
    node: Seq<char>,
    i: int,
    id: Seq<char>,
)
    requires
        0 <= i < list.len(),
        list[i].node_id != node,
        list[i].endpoints.contains(target),
        relay_candidates(list, target, node).contains(id),
    ensures
        exists|j: int|
            0 <= j < list.len() && (#[trigger] list[j]).node_id == id && list[j].endpoints.contains(
                target,
            ),
{
    peers::law_providers_serve_the_target(list, target, node, list[i].node_id);
    peers::law_providers_serve_the_target(list, target, node, id);
}

/// Whether each packet is the one before it as it is passed on.
pub open spec fn is_chain(hops: Seq<PacketView>) -> bool {
    forall|i: int|
        0 <= i < hops.len() - 1 ==> hops[i].ttl > 0 && #[trigger] hops[i + 1] == (PacketView {
            ttl: (hops[i].ttl - 1) as u8,
            ..hops[i]
        })
}

/// A packet is passed on at most as often as its hops allow, and what it asks for stays the same on
/// its way.
pub proof fn law_hops_are_bounded(hops: Seq<PacketView>, i: int)
    requires
        is_chain(hops),
        0 <= i < hops.len(),
    ensures
        i <= hops[0].ttl,
        hops[i] == (PacketView { ttl: (hops[0].ttl - i) as u8, ..hops[0] }),
    decreases i,
{
    if i > 0 {
        law_hops_are_bounded(hops, i - 1);
        assert(hops[(i - 1) + 1] == hops[i]);
    }
}

/// A packet asks for a tunnel by the method `WS`, in either case, on a stream of version 1, and in
/// no other way.
pub proof fn law_tunnel_method(method: Seq<char>, v1: bool)
    ensures
        asks_for_tunnel(method, v1) <==> v1 && method.len() == 2 && (method[0] == 'w' || method[0]
            == 'W') && (method[1] == 's' || method[1] == 'S'),
{
    reveal_strlit("ws");
    let l = text::ascii_lower(method);
    text::law_ascii_lower(method);
    if method.len() == 2 {
        assert(l == seq![l[0], l[1]]);
        assert("ws"@ == seq!['w', 's']);
        vstd::utf8::char_u32_cast(l[0], l[0] as u32);
        vstd::utf8::char_u32_cast(l[1], l[1] as u32);
        if l == "ws"@ {
            assert(l[0] == 'w' && l[1] == 's');
        }
        if (method[0] == 'w' || method[0] == 'W') && (method[1] == 's' || method[1] == 'S') {
            assert(l[0] == 'w' && l[1] == 's');
        }
    }
}

/// Every request adds one to the count of all requests and to the one count of what became of it,
/// up to the wrapping of the counters, and changes nothing else in the statistics.
pub proof fn law_what_a_request_counts(s: StatsView)
    ensures
        ({
            let (a, b, c) = (after_reject(s), after_proxy(s), after_relay(s));
            let wrap = 0x1_0000_0000_0000_0000int;
            &&& a.requests_total == (s.requests_total + 1) % wrap
            &&& b.requests_total == (s.requests_total + 1) % wrap
            &&& c.requests_total == (s.requests_total + 1) % wrap
            &&& a.requests_rejected == (s.requests_rejected + 1) % wrap
            &&& b.requests_proxied == (s.requests_proxied + 1) % wrap
            &&& c.requests_relayed == (s.requests_relayed + 1) % wrap
            &&& a == (StatsView {
                requests_total: a.requests_total,
                requests_rejected: a.requests_rejected,
                ..s
            })
            &&& b == (StatsView {
                requests_total: b.requests_total,
                requests_proxied: b.requests_proxied,
                ..s
            })
            &&& c == (StatsView {
                requests_total: c.requests_total,
                requests_relayed: c.requests_relayed,
                ..s
            })
        }),
{
}

/// The counters of a node that stay balanced add up: where none has wrapped, the requests that were
/// answered, passed on and refused are together all requests.
pub proof fn law_balanced_counters_add_up(s: StatsView)
    requires
        s.requests_proxied + s.requests_relayed + s.requests_rejected <= u64::MAX,
    ensures
        is_balanced(s) <==> s.requests_proxied + s.requests_relayed + s.requests_rejected
            == s.requests_total,
{
}

/// The limit of a target is the one that the configuration sets for its endpoint: of the requests
/// of a new peer at least as many are admitted as the limit says, and all where it says zero; and
/// over any stretch of time, whatever its bucket held, a peer has no more admitted than its bucket
/// holds and than come back at that rate.
pub proof fn law_limit_of_the_endpoint(
    engine: &ProxyEngine,
    target: Seq<char>,
    e: config::EndpointView,
    b: Option<ratelimit::Bucket>,
    times: Seq<u64>,
)
    requires
        engine.resolved(target) == Some(e),
        forall|i: int, j: int| 0 <= i <= j < times.len() ==> times[i] <= times[j],
    ensures
        e.rate_limit_per_peer == 0 ==> ratelimit::allowed_count(
            b,
            stream_rate(engine, target),
            times,
        ) == times.len(),
        times.len() <= e.rate_limit_per_peer ==> ratelimit::allowed_count(
            None,
            stream_rate(engine, target),
            times,
        ) == times.len(),
        times.len() >= e.rate_limit_per_peer ==> ratelimit::allowed_count(
            None,
            stream_rate(engine, target),
            times,
        ) >= e.rate_limit_per_peer,
        e.rate_limit_per_peer > 0 && times.len() > 0 ==> ratelimit::allowed_count(
            b,
            stream_rate(engine, target),
            times,
        ) * 1_000_000_000 <= e.rate_limit_per_peer * 1_000_000_000 + (times.last() - times.first())
            * e.rate_limit_per_peer,
{
    let rate = e.rate_limit_per_peer;
    assert(ratelimit::in_order(times));
    if rate == 0 {
        ratelimit::law_no_limit(b, times);
    } else if times.len() > 0 {
        ratelimit::law_limit_over_time(b, rate, times);
    }
    if times.len() <= rate {
        ratelimit::law_burst_of_a_new_peer(rate, times);
    }
    if times.len() >= rate {
        let some = times.take(rate as int);
        assert(ratelimit::in_order(some));
        ratelimit::law_burst_of_a_new_peer(rate, some);
        ratelimit::law_later_requests_take_nothing_away(None, rate, times, rate as int);
    }
}

/// The limit of what is passed on is ten requests per second for one peer.
pub proof fn law_limit_of_relaying(
    engine: &ProxyEngine,
    target: Seq<char>,
    b: Option<ratelimit::Bucket>,
    times: Seq<u64>,
)
    requires
        engine.resolved(target) is None,
        forall|i: int, j: int| 0 <= i <= j < times.len() ==> times[i] <= times[j],
    ensures
        times.len() <= 10 ==> ratelimit::allowed_count(None, stream_rate(engine, target), times)
            == times.len(),
        times.len() > 0 ==> ratelimit::allowed_count(b, stream_rate(engine, target), times)
            * 1_000_000_000 <= 10_000_000_000 + (times.last() - times.first()) * 10,
{
    assert(ratelimit::in_order(times));
    if times.len() <= 10 {
        ratelimit::law_burst_of_a_new_peer(10, times);
    }
    if times.len() > 0 {
        ratelimit::law_limit_over_time(b, 10, times);
    }
}

/// A packet is passed on to every known node but this one that serves its target, and where no
/// other node does, to every known node but this one; to no others, to each once, and in the order
/// in which the nodes are known.
pub proof fn law_relay_candidates(
    list: Seq<ManifestView>,
    target: Seq<char>,
    node: Seq<char>,
    id: Seq<char>,
)
    ensures
        (exists|i: int|
            0 <= i < list.len() && (#[trigger] list[i]).node_id != node
                && list[i].endpoints.contains(target)) ==> (relay_candidates(
            list,
            target,
            node,
        ).contains(id) <==> id != node && exists|i: int|
            0 <= i < list.len() && (#[trigger] list[i]).node_id == id && list[i].endpoints.contains(
                target,
            )),
        !(exists|i: int|
            0 <= i < list.len() && (#[trigger] list[i]).node_id != node
                && list[i].endpoints.contains(target)) ==> (relay_candidates(
            list,
            target,
            node,
        ).contains(id) <==> id != node && exists|i: int|
            0 <= i < list.len() && (#[trigger] list[i]).node_id == id),
        (forall|i: int, j: int|
            0 <= i < j < list.len() ==> text::precedes(
                (#[trigger] list[i]).node_id,
                (#[trigger] list[j]).node_id,
            )) ==> text::ascending(relay_candidates(list, target, node)),
{
    let ids = peers::node_ids(list);
    let servers = peers::provider_ids(list, target, node);
    peers::law_providers_serve_the_target(list, target, node, id);
    peers::law_others_are_known(list, node, id);
    if exists|i: int|
        0 <= i < list.len() && (#[trigger] list[i]).node_id != node && list[i].endpoints.contains(
            target,
        ) {
        let i = choose|i: int|
            0 <= i < list.len() && (#[trigger] list[i]).node_id != node
                && list[i].endpoints.contains(target);
        peers::law_providers_serve_the_target(list, target, node, list[i].node_id);
        assert(servers.contains(list[i].node_id));
        assert(servers.len() > 0);
    } else {
        if servers.len() > 0 {
            assert(servers.contains(servers[0]));
            peers::law_providers_serve_the_target(list, target, node, servers[0]);
            assert(false);
        }
        if ids.contains(id) {
            let k = choose|k: int| 0 <= k < ids.len() && ids[k] == id;
            assert(list[k].node_id == id);
        }
        if exists|i: int| 0 <= i < list.len() && (#[trigger] list[i]).node_id == id {
            let i = choose|i: int| 0 <= i < list.len() && (#[trigger] list[i]).node_id == id;
            assert(ids[i] == id);
        }
    }
    if forall|i: int, j: int|
        0 <= i < j < list.len() ==> text::precedes(
            (#[trigger] list[i]).node_id,
            (#[trigger] list[j]).node_id,
        ) {
        assert forall|i: int, j: int| 0 <= i < j < ids.len() implies text::precedes(
            #[trigger] ids[i],
            #[trigger] ids[j],
        ) by {
            assert(ids[i] == list[i].node_id && ids[j] == list[j].node_id);
        }
        peers::law_nodes_in_order(list, target, node);
    }
}

/// Of one connection 16 streams are served at the same time.
pub proof fn law_streams_of_a_connection()
    ensures
        MAX_CONCURRENT_STREAMS_PER_CONN == 16,
{
}

} // verus!
