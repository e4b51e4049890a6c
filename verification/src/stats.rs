//! The statistics of a node.
use crate::clock;
use crate::text;
use vstd::prelude::*;

verus! {

/// Whether a local endpoint is up.
#[derive(Debug)]
pub struct RpcStatus {
    pub name: String,
    pub online: bool,
    pub latency_ms: u64,
    /// The protocols of the endpoint: `rpc`, and `ws` where it serves tunnels.
    pub protocols: Vec<String>,
}

/// What the status of an endpoint holds.
pub struct RpcView {
    pub name: Seq<char>,
    pub online: bool,
    pub latency_ms: u64,
    pub protocols: Seq<Seq<char>>,
}

impl View for RpcStatus {
    type V = RpcView;

    open spec fn view(&self) -> RpcView {
        RpcView {
            name: self.name@,
            online: self.online,
            latency_ms: self.latency_ms,
            protocols: text::texts(self.protocols@),
        }
    }
}

/// The views of a list of statuses.
pub open spec fn rpc_views(list: Seq<RpcStatus>) -> Seq<RpcView> {
    list.map_values(|s: RpcStatus| s@)
}

impl Clone for RpcStatus {
    fn clone(&self) -> (r: RpcStatus)
        ensures
            r@ == self@,
    {
        let protocols = text::clone_texts(&self.protocols);
        RpcStatus {
            name: self.name.clone(),
            online: self.online,
            latency_ms: self.latency_ms,
            protocols,
        }
    }
}

/// The counters of a node. They wrap around at their end.
pub struct Stats {
    /// The clock that was started with the node.
    pub clock: clock::Clock,
    pub node_id: String,
    /// The UDP port of the transport; 0 for a random one.
    pub quic_udp_port: u16,
    pub requests_total: u64,
    pub requests_proxied: u64,
    pub requests_relayed: u64,
    pub requests_rejected: u64,
    /// The number of other nodes that are known.
    pub active_peers: u64,
    /// The number of clients that are connected.
    pub active_connections: u64,
    /// Whether the node is found through the Mainline DHT.
    pub dht_enabled: bool,
    /// The number of nodes in the routing table of the DHT.
    pub dht_nodes: u64,
    /// The statuses of the local endpoints.
    pub rpc: Vec<RpcStatus>,
}

/// What the statistics hold.
pub struct StatsView {
    pub node_id: Seq<char>,
    pub quic_udp_port: u16,
    pub requests_total: u64,
    pub requests_proxied: u64,
    pub requests_relayed: u64,
    pub requests_rejected: u64,
    pub active_peers: u64,
    pub active_connections: u64,
    pub dht_enabled: bool,
    pub dht_nodes: u64,
    pub rpc: Seq<RpcView>,
}

impl View for Stats {
    type V = StatsView;

    open spec fn view(&self) -> StatsView {
        StatsView {
            node_id: self.node_id@,
            quic_udp_port: self.quic_udp_port,
            requests_total: self.requests_total,
            requests_proxied: self.requests_proxied,
            requests_relayed: self.requests_relayed,
            requests_rejected: self.requests_rejected,
            active_peers: self.active_peers,
            active_connections: self.active_connections,
            dht_enabled: self.dht_enabled,
            dht_nodes: self.dht_nodes,
            rpc: rpc_views(self.rpc@),
        }
    }
}

/// The statistics at one time.
#[derive(Debug)]
pub struct StatsSnapshot {
    pub node_id: String,
    /// The UDP port of the transport; 0 for a random one.
    pub quic_udp_port: u16,
    pub uptime_secs: u64,
    pub requests_total: u64,
    pub requests_proxied: u64,
    pub requests_relayed: u64,
    pub requests_rejected: u64,
    pub active_peers: u64,
    pub active_connections: u64,
    pub dht_enabled: bool,
    pub dht_nodes: u64,
    pub avg_latency_ms: u64,
    pub rpc: Vec<RpcStatus>,
}

/// What a snapshot repeats of the statistics.
pub open spec fn snapshot_view(s: StatsSnapshot) -> StatsView {
    StatsView {
        node_id: s.node_id@,
        quic_udp_port: s.quic_udp_port,
        requests_total: s.requests_total,
        requests_proxied: s.requests_proxied,
        requests_relayed: s.requests_relayed,
        requests_rejected: s.requests_rejected,
        active_peers: s.active_peers,
        active_connections: s.active_connections,
        dht_enabled: s.dht_enabled,
        dht_nodes: s.dht_nodes,
        rpc: rpc_views(s.rpc@),
    }
}

/// The sign that a connection is counted. It is given back when the connection ends, to the
/// statistics that counted it.
pub struct ConnGuard {
    counted_by: Ghost<clock::Clock>,
}

impl ConnGuard {
    /// The clock of the statistics that counted the connection.
    pub closed spec fn counted_by(&self) -> clock::Clock {
        self.counted_by@
    }
}

/// A counter after one step up.
pub open spec fn one_more(n: u64) -> u64 {
    if n == u64::MAX {
        0
    } else {
        (n + 1) as u64
    }
}

/// A counter after one step down.
pub open spec fn one_less(n: u64) -> u64 {
    if n == 0 {
        u64::MAX
    } else {
        (n - 1) as u64
    }
}

/// A connection that is counted and given back leaves the count as it was.
pub proof fn law_released_connection_is_not_counted(n: u64)
    ensures
        one_less(one_more(n)) == n,
{
}

/// What a call does to the connections of a node.
pub enum ConnEvent {
    /// A connection is counted, and its guard handed out.
    Counted,
    /// A guard is given back.
    Released,
    /// The call has to do with something else.
    Other,
}

/// Whether `e` leads from the statistics `a` to the statistics `b`.
pub open spec fn is_conn_step(a: StatsView, e: ConnEvent, b: StatsView) -> bool {
    match e {
        ConnEvent::Counted => b == (StatsView {
            active_connections: one_more(a.active_connections),
            ..a
        }),
        ConnEvent::Released => b == (StatsView {
            active_connections: one_less(a.active_connections),
            ..a
        }),
        ConnEvent::Other => b.active_connections == a.active_connections,
    }
}

/// Whether `states` are the statistics before, between and after `events`.
pub open spec fn is_conn_history(states: Seq<StatsView>, events: Seq<ConnEvent>) -> bool {
    &&& states.len() == events.len() + 1
    &&& forall|i: int|
        0 <= i < events.len() ==> is_conn_step(states[i], #[trigger] events[i], states[i + 1])
}

/// The number of guards that are out after `events`, where none was out before.
pub open spec fn guards_out(events: Seq<ConnEvent>) -> int
    decreases events.len(),
{
    if events.len() == 0 {
        0
    } else {
        guards_out(events.drop_last()) + (match events.last() {
            ConnEvent::Counted => 1int,
            ConnEvent::Released => -1int,
            ConnEvent::Other => 0int,
        })
    }
}

/// At every time the count of connections is the number of guards that are out, in whatever order
/// connections are counted and given back and whatever is called between. A number beyond the end
/// of the counter is counted up to its wrapping.
pub proof fn law_connections_are_guards_out(states: Seq<StatsView>, events: Seq<ConnEvent>, i: int)
    requires
        is_conn_history(states, events),
        states[0].active_connections == 0,
        0 <= i <= events.len(),
    ensures
        states[i].active_connections == guards_out(events.take(i)) % 0x1_0000_0000_0000_0000,
        0 <= guards_out(events.take(i)) <= u64::MAX ==> states[i].active_connections == guards_out(
            events.take(i),
        ),
    decreases i,
{
    if i > 0 {
        law_connections_are_guards_out(states, events, i - 1);
        assert(events.take(i).drop_last() == events.take(i - 1));
        assert(is_conn_step(states[i - 1], events[i - 1], states[i - 1 + 1]));
    }
}

/// The number of endpoints that are up.
pub open spec fn online_count(rpc: Seq<RpcView>) -> nat
    decreases rpc.len(),
{
    if rpc.len() == 0 {
        0
    } else {
        online_count(rpc.drop_last()) + (if rpc.last().online {
            1nat
        } else {
            0nat
        })
    }
}

/// The latencies of the endpoints that are up, added together.
pub open spec fn online_latency(rpc: Seq<RpcView>) -> nat
    decreases rpc.len(),
{
    if rpc.len() == 0 {
        0
    } else {
        online_latency(rpc.drop_last()) + (if rpc.last().online {
            rpc.last().latency_ms as nat
        } else {
            0nat
        })
    }
}

/// The mean latency of the endpoints that are up, rounded down; 0 where none is.
pub open spec fn mean_latency(rpc: Seq<RpcView>) -> nat {
    if online_count(rpc) == 0 {
        0
    } else {
        online_latency(rpc) / online_count(rpc)
    }
}

fn step_up(n: u64) -> (r: u64)
    ensures
        r == one_more(n),
{
    if n == u64::MAX {
        0
    } else {
        n + 1
    }
}

fn step_down(n: u64) -> (r: u64)
    ensures
        r == one_less(n),
{
    if n == 0 {
        u64::MAX
    } else {
        n - 1
    }
}

/// A copy of a list of statuses.
fn clone_rpc(list: &Vec<RpcStatus>) -> (r: Vec<RpcStatus>)
    ensures
        rpc_views(r@) == rpc_views(list@),
{
    let mut r: Vec<RpcStatus> = Vec::new();
    let ghost all = rpc_views(list@);
    let mut i: usize = 0;
    while i < list.len()
        invariant
            i <= list@.len(),
            all == rpc_views(list@),
            rpc_views(r@) == all.take(i as int),
        decreases list@.len() - i,
    {
        let ghost was = rpc_views(r@);
        r.push(list[i].clone());
        proof {
            assert(rpc_views(r@) == was.push(all[i as int]));
            assert(all.take(i + 1) == was.push(all[i as int]));
        }
        i = i + 1;
    }
    assert(all.take(i as int) == all);
    r
}

impl Stats {
    /// The statistics of a node that has just started.
    pub fn new(node_id: String, quic_udp_port: u16, dht_enabled: bool) -> (r: Stats)
        ensures
            r@ == (StatsView {
                node_id: node_id@,
                quic_udp_port,
                requests_total: 0,
                requests_proxied: 0,
                requests_relayed: 0,
                requests_rejected: 0,
                active_peers: 0,
                active_connections: 0,
                dht_enabled,
                dht_nodes: 0,
                rpc: Seq::empty(),
            }),
    {
        let r = Stats {
            clock: clock::Clock::new(),
            node_id,
            quic_udp_port,
            requests_total: 0,
            requests_proxied: 0,
            requests_relayed: 0,
            requests_rejected: 0,
            active_peers: 0,
            active_connections: 0,
            dht_enabled,
            dht_nodes: 0,
            rpc: Vec::new(),
        };
        assert(rpc_views(r.rpc@) == Seq::<RpcView>::empty());
        r
    }

    /// The seconds since the node started, for a time `now` since then in nanoseconds.
    pub fn uptime_at(now: u64) -> (r: u64)
        ensures
            r == now / clock::NANOS_PER_SEC,
            r == now / 1_000_000_000,
    {
        now / clock::NANOS_PER_SEC
    }

    /// The seconds since the node started.
    pub fn uptime_secs(&self) -> (r: u64)
        ensures
            exists|now: u64| r == #[trigger] (now / clock::NANOS_PER_SEC),
    {
        Stats::uptime_at(self.clock.now())
    }

    /// Counts a request.
    pub fn inc_total(&mut self)
        ensures
            final(self)@ == (StatsView {
                requests_total: one_more(old(self)@.requests_total),
                ..old(self)@
            }),
            final(self).clock == old(self).clock,
    {
        self.requests_total = step_up(self.requests_total);
    }

    /// Counts a request that is answered here.
    pub fn inc_proxied(&mut self)
        ensures
            final(self)@ == (StatsView {
                requests_proxied: one_more(old(self)@.requests_proxied),
                ..old(self)@
            }),
            final(self).clock == old(self).clock,
    {
        self.requests_proxied = step_up(self.requests_proxied);
    }

    /// Counts a request that is passed on.
    pub fn inc_relayed(&mut self)
        ensures
            final(self)@ == (StatsView {
                requests_relayed: one_more(old(self)@.requests_relayed),
                ..old(self)@
            }),
            final(self).clock == old(self).clock,
    {
        self.requests_relayed = step_up(self.requests_relayed);
    }

    /// Counts a request that is refused.
    pub fn inc_rejected(&mut self)
        ensures
            final(self)@ == (StatsView {
                requests_rejected: one_more(old(self)@.requests_rejected),
                ..old(self)@
            }),
            final(self).clock == old(self).clock,
    {
        self.requests_rejected = step_up(self.requests_rejected);
    }

    /// Sets the number of other nodes that are known.
    pub fn set_active_peers(&mut self, n: u64)
        ensures
            final(self)@ == (StatsView { active_peers: n, ..old(self)@ }),
            final(self).clock == old(self).clock,
    {
        self.active_peers = n;
    }

    /// Sets the number of nodes in the routing table of the DHT.
    pub fn set_dht_nodes(&mut self, n: u64)
        ensures
            final(self)@ == (StatsView { dht_nodes: n, ..old(self)@ }),
            final(self).clock == old(self).clock,
    {
        self.dht_nodes = n;
    }

    /// Counts a new connection. The guard is given back to `release_connection` when the
    /// connection ends.
    pub fn track_connection(&mut self) -> (r: ConnGuard)
        ensures
            r.counted_by() == final(self).clock,
            final(self)@ == (StatsView {
                active_connections: one_more(old(self)@.active_connections),
                ..old(self)@
            }),
            final(self).clock == old(self).clock,
    {
        self.active_connections = step_up(self.active_connections);
        ConnGuard { counted_by: Ghost(self.clock) }
    }

    /// Takes a connection that was counted off the count. The guard is one that these statistics
    /// handed out.
    pub fn release_connection(&mut self, guard: ConnGuard)
        requires
            guard.counted_by() == old(self).clock,
        ensures
            final(self)@ == (StatsView {
                active_connections: one_less(old(self)@.active_connections),
                ..old(self)@
            }),
            final(self).clock == old(self).clock,
    {
        self.active_connections = step_down(self.active_connections);
    }

    /// Sets the statuses of the local endpoints.
    pub fn set_rpc(&mut self, list: Vec<RpcStatus>)
        ensures
            final(self)@ == (StatsView { rpc: rpc_views(list@), ..old(self)@ }),
            final(self).clock == old(self).clock,
    {
        self.rpc = list;
    }

    /// The mean latency of the local endpoints that are up, rounded down; 0 where none is.
    pub fn avg_latency_ms(&self) -> (r: u64)
        ensures
            r == mean_latency(self@.rpc),
    {
        let ghost all = rpc_views(self.rpc@);
        let mut sum: u128 = 0;
        let mut count: u64 = 0;
        let mut i: usize = 0;
        while i < self.rpc.len()
            invariant
                i <= self.rpc@.len(),
                all == rpc_views(self.rpc@),
                count <= i,
                count == online_count(all.take(i as int)),
                sum == online_latency(all.take(i as int)),
                sum <= count * u64::MAX,
            decreases self.rpc@.len() - i,
        {
            proof {
                assert(all.take(i + 1).drop_last() == all.take(i as int));
                assert(all.take(i + 1).last() == self.rpc@[i as int]@);
            }
            if self.rpc[i].online {
                proof {
                    assert(count * u64::MAX + u64::MAX == (count + 1) * u64::MAX)
                        by (nonlinear_arith);
                    assert((count + 1) * u64::MAX <= 0xffff_ffff_ffff_ffff * 0xffff_ffff_ffff_ffff)
                        by (nonlinear_arith)
                        requires
                            count + 1 <= 0xffff_ffff_ffff_ffff,
                    ;
                }
                sum = sum + self.rpc[i].latency_ms as u128;
                count = count + 1;
            }
            i = i + 1;
        }
        assert(all.take(i as int) == all);
        if count == 0 {
            0
        } else {
            proof {
                assert(sum / (count as u128) <= u64::MAX) by (nonlinear_arith)
                    requires
                        sum <= count * u64::MAX,
                        count > 0,
                ;
            }
            (sum / count as u128) as u64
        }
    }

    /// The statistics at a time `now` since the start in nanoseconds.
    pub fn snapshot_at(&self, now: u64) -> (r: StatsSnapshot)
        ensures
            snapshot_view(r) == self@,
            r.uptime_secs == now / clock::NANOS_PER_SEC,
            r.avg_latency_ms == mean_latency(self@.rpc),
    {
        StatsSnapshot {
            node_id: self.node_id.clone(),
            quic_udp_port: self.quic_udp_port,
            uptime_secs: Stats::uptime_at(now),
            requests_total: self.requests_total,
            requests_proxied: self.requests_proxied,
            requests_relayed: self.requests_relayed,
            requests_rejected: self.requests_rejected,
            active_peers: self.active_peers,
            active_connections: self.active_connections,
            dht_enabled: self.dht_enabled,
            dht_nodes: self.dht_nodes,
            avg_latency_ms: self.avg_latency_ms(),
            rpc: clone_rpc(&self.rpc),
        }
    }

    /// The statistics now.
    pub fn snapshot(&self) -> (r: StatsSnapshot)
        ensures
            snapshot_view(r) == self@,
            exists|now: u64| r.uptime_secs == #[trigger] (now / clock::NANOS_PER_SEC),
            r.avg_latency_ms == mean_latency(self@.rpc),
    {
        self.snapshot_at(self.clock.now())
    }
}

/// A counter goes up and down by one, and wraps around at its end.
pub proof fn law_counter_steps(n: u64)
    ensures
        one_more(n) == (n + 1) % 0x1_0000_0000_0000_0000,
        one_less(n) == (n - 1) % 0x1_0000_0000_0000_0000,
{
}

/// Every endpoint that is up counts once, with its latency, and one that is down does not count.
pub proof fn law_online_sums(a: Seq<RpcView>, b: Seq<RpcView>, s: RpcView)
    ensures
        online_count(a + b) == online_count(a) + online_count(b),
        online_latency(a + b) == online_latency(a) + online_latency(b),
        online_count(seq![s]) == (if s.online {
            1int
        } else {
            0int
        }),
        online_latency(seq![s]) == (if s.online {
            s.latency_ms as int
        } else {
            0int
        }),
    decreases b.len(),
{
    if b.len() == 0 {
        assert(a + b == a);
    } else {
        law_online_sums(a, b.drop_last(), s);
        assert((a + b).drop_last() == a + b.drop_last());
        assert((a + b).last() == b.last());
    }
    let one = seq![s];
    assert(one.drop_last() == Seq::<RpcView>::empty());
    assert(online_count(one.drop_last()) == 0 && online_latency(one.drop_last()) == 0);
}

/// The mean latency is that of the endpoints that are up, rounded down, and 0 where none is.
pub proof fn law_mean_latency(rpc: Seq<RpcView>)
    ensures
        online_count(rpc) == 0 ==> mean_latency(rpc) == 0,
        online_count(rpc) > 0 ==> mean_latency(rpc) * online_count(rpc) <= online_latency(rpc) < (
        mean_latency(rpc) + 1) * online_count(rpc),
{
    let (sum, n) = (online_latency(rpc) as int, online_count(rpc) as int);
    if n > 0 {
        vstd::arithmetic::div_mod::lemma_fundamental_div_mod(sum, n);
        vstd::arithmetic::div_mod::lemma_mod_bound(sum, n);
        assert((sum / n) * n == n * (sum / n)) by (nonlinear_arith);
        assert((sum / n + 1) * n == n * (sum / n) + n) by (nonlinear_arith);
    }
}

/// The views of statistics, of a snapshot and of the status of an endpoint have their fields.
pub proof fn law_stats_views(s: Stats, t: StatsSnapshot, p: RpcStatus, list: Seq<RpcStatus>)
    ensures
        s@.node_id == s.node_id@ && snapshot_view(t).node_id == t.node_id@,
        s@.quic_udp_port == s.quic_udp_port && snapshot_view(t).quic_udp_port == t.quic_udp_port,
        s@.requests_total == s.requests_total && snapshot_view(t).requests_total
            == t.requests_total,
        s@.requests_proxied == s.requests_proxied && snapshot_view(t).requests_proxied
            == t.requests_proxied,
        s@.requests_relayed == s.requests_relayed && snapshot_view(t).requests_relayed
            == t.requests_relayed,
        s@.requests_rejected == s.requests_rejected && snapshot_view(t).requests_rejected
            == t.requests_rejected,
        s@.active_peers == s.active_peers && snapshot_view(t).active_peers == t.active_peers,
        s@.active_connections == s.active_connections && snapshot_view(t).active_connections
            == t.active_connections,
        s@.dht_enabled == s.dht_enabled && snapshot_view(t).dht_enabled == t.dht_enabled,
        s@.dht_nodes == s.dht_nodes && snapshot_view(t).dht_nodes == t.dht_nodes,
        s@.rpc == rpc_views(s.rpc@) && snapshot_view(t).rpc == rpc_views(t.rpc@),
        rpc_views(list).len() == list.len(),
        forall|i: int| 0 <= i < list.len() ==> #[trigger] rpc_views(list)[i] == list[i]@,
        p@.name == p.name@,
        p@.online == p.online,
        p@.latency_ms == p.latency_ms,
        p@.protocols.len() == p.protocols@.len(),
        forall|i: int|
            0 <= i < p.protocols@.len() ==> #[trigger] p@.protocols[i] == p.protocols@[i]@,
{
}

} // verus!
