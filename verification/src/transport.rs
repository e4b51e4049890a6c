//! How a node is reached: its relays and ports, and the nodes by which it enters the Mainline DHT.
use crate::config;
use crate::text;
use vstd::prelude::*;

verus! {

/// The number of DHT nodes that are kept for the next start.
pub const DHT_BOOT_MAX: usize = 64;

/// The number of rounds of the DHT monitor after which the live nodes are kept.
pub const DHT_SAVE_ROUNDS: u32 = 10;

/// The number of seconds that a round of the DHT monitor takes.
pub const DHT_ROUND_SECS: u64 = 12;

/// The number of milliseconds after which the resolution of a host is given up.
pub const LOOKUP_TIMEOUT_MS: u64 = 1_500;

/// The file that keeps DHT nodes for the next start.
pub const DHT_BOOT_FILE: &'static str = "dht_boot.dat";

/// The URL that a text is read as by the transport, in its normal form; `None` where it is none.
pub uninterp spec fn iroh_relay_text(s: Seq<char>) -> Option<Seq<char>>;

/// Parsing an `iroh::RelayUrl`, and the text of what it gives, depend on the text alone.
#[verifier::external_body]
fn iroh_relay_url(s: &str) -> (r: Option<String>)
    ensures
        match r {
            Some(url) => iroh_relay_text(s@) == Some(url@),
            None => iroh_relay_text(s@) is None,
        },
{
    match s.parse::<iroh::RelayUrl>() {
        Ok(url) => Some(url.to_string()),
        Err(_) => None,
    }
}

/// The relays among the texts of a list, in order. Blank and invalid texts are passed over.
pub open spec fn relays_of(list: Seq<Seq<char>>) -> Seq<Seq<char>>
    decreases list.len(),
{
    if list.len() == 0 {
        Seq::empty()
    } else {
        let before = relays_of(list.drop_last());
        let s = text::trimmed(list.last());
        if s.len() == 0 {
            before
        } else {
            match iroh_relay_text(s) {
                Some(url) => before.push(url),
                None => before,
            }
        }
    }
}

/// The relays among the texts of a list, in order. Blank and invalid texts are passed over.
pub fn relay_urls(list: &Vec<String>) -> (r: Vec<String>)
    ensures
        text::texts(r@) == relays_of(text::texts(list@)),
{
    let mut r: Vec<String> = Vec::new();
    let ghost all = text::texts(list@);
    let mut i: usize = 0;
    while i < list.len()
        invariant
            i <= list@.len(),
            all == text::texts(list@),
            text::texts(r@) == relays_of(all.take(i as int)),
        decreases list@.len() - i,
    {
        let ghost was = text::texts(r@);
        proof {
            assert(all.take(i + 1).drop_last() == all.take(i as int));
            assert(all.take(i + 1).last() == list@[i as int]@);
        }
        let s = text::trim(list[i].as_str());
        if !s.as_str().is_empty() {
            if let Some(url) = iroh_relay_url(s.as_str()) {
                r.push(url);
                assert(text::texts(r@) == was.push(r@[r@.len() - 1]@));
            }
        }
        i = i + 1;
    }
    assert(all.take(i as int) == all);
    r
}

/// How a node is reached.
#[derive(Debug)]
pub enum Transport {
    /// Through relays alone: there are no direct sockets, and the address of the node stays hidden.
    RelayOnly { relays: Vec<String> },
    /// Directly, on one port.
    Fixed { port: u16 },
    /// Directly, on a random port.
    Random,
}

impl Transport {
    /// The UDP port that is bound; 0 where none is fixed.
    pub open spec fn number(&self) -> u16 {
        match self {
            Transport::RelayOnly { relays } => 0,
            Transport::Fixed { port } => *port,
            Transport::Random => 0,
        }
    }

    /// The UDP port that is bound; 0 where none is fixed.
    pub fn quic_port(&self) -> (r: u16)
        ensures
            r == self.number(),
    {
        match self {
            Transport::RelayOnly { relays: _ } => 0,
            Transport::Fixed { port } => *port,
            Transport::Random => 0,
        }
    }
}

/// The port that is asked for: the one of the environment, where it names one, comes before the
/// one of the configuration.
pub open spec fn wanted_port(net: config::Network, env_port: Option<Seq<char>>) -> u16 {
    match env_port {
        Some(s) => config::port_of_text(s),
        None => net.listen_port.number(),
    }
}

/// How a node with this configuration is reached. With relays in the configuration there are no
/// direct sockets, and no port counts.
pub fn transport(net: &config::Network, env_port: Option<String>) -> (r: Transport)
    ensures
        match r {
            Transport::RelayOnly { relays } => net.relays@.len() > 0 && text::texts(relays@)
                == relays_of(text::texts(net.relays@)),
            Transport::Fixed { port } => net.relays@.len() == 0 && port != 0 && port == wanted_port(
                *net,
                config::text_option(env_port),
            ),
            Transport::Random => net.relays@.len() == 0 && wanted_port(
                *net,
                config::text_option(env_port),
            ) == 0,
        },
{
    if net.relays.len() > 0 {
        return Transport::RelayOnly { relays: relay_urls(&net.relays) };
    }
    let port: u16 = match env_port {
        Some(s) => config::parse_port_str(s.as_str()),
        None => net.listen_port.resolve(),
    };
    if port != 0 {
        Transport::Fixed { port }
    } else {
        Transport::Random
    }
}

/// The address that is bound for a port on IPv4, and on IPv6.
pub open spec fn bind_address(port: u16, v6: bool) -> Seq<char> {
    if v6 {
        "[::]:"@ + text::decimal(port as nat)
    } else {
        "0.0.0.0:"@ + text::decimal(port as nat)
    }
}

/// The addresses to bind for a fixed port, in order: IPv4 always, and IPv6 where it is enabled and
/// has not failed.
pub fn bind_addresses(port: u16, ipv6_enabled: bool, ipv6_failed: bool) -> (r: Vec<String>)
    ensures
        text::texts(r@) == (if ipv6_enabled && !ipv6_failed {
            seq![bind_address(port, false), bind_address(port, true)]
        } else {
            seq![bind_address(port, false)]
        }),
{
    let mut r: Vec<String> = Vec::new();
    let mut v4 = "0.0.0.0:".to_owned();
    text::push_decimal(&mut v4, port as u64);
    r.push(v4);
    if ipv6_enabled && !ipv6_failed {
        let mut v6 = "[::]:".to_owned();
        text::push_decimal(&mut v6, port as u64);
        r.push(v6);
        assert(text::texts(r@) == seq![bind_address(port, false), bind_address(port, true)]);
    } else {
        assert(text::texts(r@) == seq![bind_address(port, false)]);
    }
    r
}

/// The nodes by which every node can enter the DHT.
pub open spec fn dht_defaults() -> Seq<Seq<char>> {
    seq![
        "116.202.32.250:6881"@,
        "router.bittorrent.com:6881"@,
        "dht.transmissionbt.com:6881"@,
        "dht.libtorrent.org:25401"@,
        "relay.pkarr.org:6881"@,
    ]
}

/// The lesser of two lengths.
pub open spec fn lesser(a: int, b: int) -> int {
    if a < b {
        a
    } else {
        b
    }
}

/// The nodes that a file of kept nodes holds: its lines without the white space around them, but
/// for blank ones, up to the limit.
pub open spec fn kept_nodes(file: Seq<char>) -> Seq<Seq<char>> {
    let lines = text::trimmed_non_blank(text::split_on(file, '\n'));
    lines.take(lesser(lines.len() as int, DHT_BOOT_MAX as int))
}

/// The file that keeps nodes: one to a line, up to the limit.
pub open spec fn kept_file(nodes: Seq<Seq<char>>) -> Seq<char> {
    text::joined(nodes.take(lesser(nodes.len() as int, DHT_BOOT_MAX as int)), '\n')
}

/// The nodes that were kept at an earlier start; none where there is no file.
pub fn load_dht_bootstrap(file: Option<String>) -> (r: Vec<String>)
    ensures
        text::texts(r@) == (match file {
            Some(s) => kept_nodes(s@),
            None => Seq::empty(),
        }),
{
    match file {
        Some(s) => text::non_blank_lines(s.as_str(), DHT_BOOT_MAX),
        None => {
            let r: Vec<String> = Vec::new();
            assert(text::texts(r@) == Seq::<Seq<char>>::empty());
            r
        },
    }
}

/// The file that keeps the live nodes of the DHT for the next start.
pub fn save_dht_bootstrap(nodes: &Vec<String>) -> (r: String)
    ensures
        r@ == kept_file(text::texts(nodes@)),
{
    let upto: usize = if nodes.len() < DHT_BOOT_MAX {
        nodes.len()
    } else {
        DHT_BOOT_MAX
    };
    text::join(nodes, '\n', upto)
}

/// Whether `s` is one line of a file of kept nodes: not blank, and without white space around it.
pub open spec fn is_line(s: Seq<char>) -> bool {
    &&& s.len() > 0
    &&& text::trimmed(s) == s
    &&& !s.contains('\n')
}

proof fn lemma_lines_are_kept(list: Seq<Seq<char>>)
    requires
        forall|i: int| 0 <= i < list.len() ==> is_line(#[trigger] list[i]),
    ensures
        text::trimmed_non_blank(list) == list,
    decreases list.len(),
{
    if list.len() > 0 {
        let init = list.drop_last();
        assert forall|i: int| 0 <= i < init.len() implies is_line(#[trigger] init[i]) by {
            assert(init[i] == list[i]);
        }
        lemma_lines_are_kept(init);
        assert(is_line(list[list.len() - 1]));
        assert(init.push(list.last()) == list);
    } else {
        assert(list == Seq::<Seq<char>>::empty());
    }
}

/// Nodes that are kept are found again at the next start, up to the limit.
pub proof fn law_kept_nodes_are_found(nodes: Seq<Seq<char>>)
    requires
        forall|i: int| 0 <= i < nodes.len() && i < DHT_BOOT_MAX ==> is_line(#[trigger] nodes[i]),
    ensures
        kept_nodes(kept_file(nodes)) == nodes.take(
            lesser(nodes.len() as int, DHT_BOOT_MAX as int),
        ),
{
    let list = nodes.take(lesser(nodes.len() as int, DHT_BOOT_MAX as int));
    assert forall|i: int| 0 <= i < list.len() implies is_line(#[trigger] list[i]) by {
        assert(list[i] == nodes[i]);
    }
    lemma_lines_are_kept(list);
    if list.len() > 0 {
        text::law_split_of_joined(list, '\n');
    } else {
        let blank = Seq::<char>::empty();
        assert(text::joined(list, '\n') == blank);
        let pieces = text::split_on(blank, '\n');
        assert(pieces == seq![blank]);
        assert(pieces.drop_last() == Seq::<Seq<char>>::empty());
        assert(text::trimmed_non_blank(pieces.drop_last()) == Seq::<Seq<char>>::empty());
        assert(text::trimmed(blank) == blank);
        assert(text::trimmed_non_blank(pieces) == Seq::<Seq<char>>::empty());
        assert(list == Seq::<Seq<char>>::empty());
    }
    let lines = text::trimmed_non_blank(text::split_on(kept_file(nodes), '\n'));
    assert(lines == list);
    assert(list.take(list.len() as int) == list);
}

/// The hosts by which a node enters the DHT, in ascending order, each once: those that every node
/// knows, those of the configuration, and those that were kept.
pub fn bootstrap_hosts(configured: &Vec<String>, kept: &Vec<String>) -> (r: Vec<String>)
    ensures
        text::ascending(text::texts(r@)),
        forall|t: Seq<char>| #[trigger]
            text::texts(r@).contains(t) <==> dht_defaults().contains(t) || text::texts(
                configured@,
            ).contains(t) || text::texts(kept@).contains(t),
{
    let mut hosts: Vec<String> = Vec::new();
    hosts.push("116.202.32.250:6881".to_owned());
    hosts.push("router.bittorrent.com:6881".to_owned());
    hosts.push("dht.transmissionbt.com:6881".to_owned());
    hosts.push("dht.libtorrent.org:25401".to_owned());
    hosts.push("relay.pkarr.org:6881".to_owned());
    assert(text::texts(hosts@) == dht_defaults());
    let hosts = text::extended(hosts, configured);
    let hosts = text::extended(hosts, kept);
    let ghost all = dht_defaults() + text::texts(configured@) + text::texts(kept@);
    assert(text::texts(hosts@) == all);
    let r = text::sort_dedup(hosts);
    proof {
        assert forall|t: Seq<char>| #[trigger]
            text::texts(r@).contains(t) <==> dht_defaults().contains(t) || text::texts(
                configured@,
            ).contains(t) || text::texts(kept@).contains(t) by {
            let known = dht_defaults() + text::texts(configured@);
            text::lemma_contains_sum(known, text::texts(kept@), t);
            text::lemma_contains_sum(dht_defaults(), text::texts(configured@), t);
        }
    }
    r
}

/// One address that a name was resolved to.
#[derive(Debug)]
pub struct Resolved {
    pub address: String,
    /// Whether it is an IPv4 address.
    pub v4: bool,
}

/// The IPv4 addresses of a list, in order.
pub open spec fn v4_addresses(list: Seq<Resolved>) -> Seq<Seq<char>>
    decreases list.len(),
{
    if list.len() == 0 {
        Seq::empty()
    } else {
        let before = v4_addresses(list.drop_last());
        if list.last().v4 {
            before.push(list.last().address@)
        } else {
            before
        }
    }
}

/// The addresses that a host stands for: itself where it is an address, and otherwise the IPv4
/// addresses that it was resolved to, if it was.
pub fn host_addresses(host: String, is_address: bool, lookup: Option<Vec<Resolved>>) -> (r: Vec<
    String,
>)
    ensures
        text::texts(r@) == (if is_address {
            seq![host@]
        } else {
            match lookup {
                Some(list) => v4_addresses(list@),
                None => Seq::empty(),
            }
        }),
{
    let mut r: Vec<String> = Vec::new();
    if is_address {
        r.push(host);
        assert(text::texts(r@) == seq![host@]);
        return r;
    }
    assert(text::texts(r@) == Seq::<Seq<char>>::empty());
    if let Some(list) = lookup {
        let ghost all = list@;
        let mut i: usize = 0;
        while i < list.len()
            invariant
                i <= list@.len(),
                all == list@,
                text::texts(r@) == v4_addresses(all.take(i as int)),
            decreases list@.len() - i,
        {
            let ghost was = text::texts(r@);
            proof {
                assert(all.take(i + 1).drop_last() == all.take(i as int));
                assert(all.take(i + 1).last() == list@[i as int]);
            }
            if list[i].v4 {
                r.push(list[i].address.clone());
                assert(text::texts(r@) == was.push(list@[i as int].address@));
            }
            i = i + 1;
        }
        assert(all.take(i as int) == all);
    }
    r
}

/// The addresses of all hosts, in ascending order, each once.
pub fn bootstrap_addresses(found: Vec<Vec<String>>) -> (r: Vec<String>)
    ensures
        text::ascending(text::texts(r@)),
        forall|t: Seq<char>| #[trigger]
            text::texts(r@).contains(t) <==> exists|i: int|
                0 <= i < found@.len() && text::texts((#[trigger] found@[i])@).contains(t),
{
    let mut all: Vec<String> = Vec::new();
    let mut i: usize = 0;
    while i < found.len()
        invariant
            i <= found@.len(),
            forall|t: Seq<char>| #[trigger]
                text::texts(all@).contains(t) <==> exists|j: int|
                    0 <= j < i && text::texts((#[trigger] found@[j])@).contains(t),
        decreases found@.len() - i,
    {
        let ghost before = text::texts(all@);
        all = text::extended(all, &found[i]);
        proof {
            assert forall|t: Seq<char>| #[trigger]
                text::texts(all@).contains(t) <==> exists|j: int|
                    0 <= j < i + 1 && text::texts((#[trigger] found@[j])@).contains(t) by {
                text::lemma_contains_sum(before, text::texts(found@[i as int]@), t);
                if before.contains(t) {
                    let j = choose|j: int|
                        0 <= j < i && text::texts((#[trigger] found@[j])@).contains(t);
                    assert(0 <= j < i + 1 && text::texts(found@[j]@).contains(t));
                }
            }
        }
        i = i + 1;
    }
    text::sort_dedup(all)
}

/// The next round of the DHT monitor, and whether the live nodes are kept in it.
pub fn dht_round(round: u32) -> (r: (u32, bool))
    ensures
        r.0 == (if round == u32::MAX {
            0
        } else {
            round + 1
        }),
        r.1 == (r.0 % DHT_SAVE_ROUNDS == 0),
        r.1 <==> r.0 % 10 == 0,
{
    let next: u32 = if round == u32::MAX {
        0
    } else {
        round + 1
    };
    (next, next % DHT_SAVE_ROUNDS == 0)
}

/// The file to write for the live nodes of the DHT; `None` where there are none, so that the nodes
/// of an earlier time are kept.
pub fn dht_nodes_file(nodes: &Vec<String>) -> (r: Option<String>)
    ensures
        match r {
            Some(file) => nodes@.len() > 0 && file@ == kept_file(text::texts(nodes@)),
            None => nodes@.len() == 0,
        },
{
    if nodes.len() > 0 {
        Some(save_dht_bootstrap(nodes))
    } else {
        None
    }
}

/// Every text of a list that is a URL, without the white space around it, gives a relay, in order;
/// a blank or invalid one is passed over.
pub proof fn law_relays_of_texts(a: Seq<Seq<char>>, b: Seq<Seq<char>>, s: Seq<char>)
    ensures
        relays_of(a + b) == relays_of(a) + relays_of(b),
        relays_of(seq![s]) == (if text::trimmed(s).len() > 0 && iroh_relay_text(
            text::trimmed(s),
        ) is Some {
            seq![iroh_relay_text(text::trimmed(s))->0]
        } else {
            Seq::empty()
        }),
    decreases b.len(),
{
    if b.len() == 0 {
        assert(a + b == a);
        assert(relays_of(a) + Seq::<Seq<char>>::empty() == relays_of(a));
    } else {
        law_relays_of_texts(a, b.drop_last(), s);
        assert((a + b).drop_last() == a + b.drop_last());
        assert((a + b).last() == b.last());
        assert(relays_of(a + b) == relays_of(a) + relays_of(b));
    }
    let one = seq![s];
    assert(one.drop_last() == Seq::<Seq<char>>::empty());
    assert(relays_of(one.drop_last()) == Seq::<Seq<char>>::empty());
    if text::trimmed(s).len() > 0 && iroh_relay_text(text::trimmed(s)) is Some {
        assert(relays_of(one) == seq![iroh_relay_text(text::trimmed(s))->0]);
    } else {
        assert(relays_of(one) == Seq::<Seq<char>>::empty());
    }
}

/// The port of the environment comes before the one of the configuration; a transport shows the
/// port that it is fixed to, and otherwise none.
pub proof fn law_ports(net: config::Network, env_port: Seq<char>, t: Transport)
    ensures
        wanted_port(net, Some(env_port)) == config::port_of_text(env_port),
        net.listen_port matches config::PortCfg::Num(n) ==> wanted_port(net, None) == n,
        net.listen_port matches config::PortCfg::Name(s) ==> wanted_port(net, None)
            == config::port_of_text(s@),
        t matches Transport::Fixed { port } ==> t.number() == port,
        t !is Fixed ==> t.number() == 0,
{
}

/// A port is bound on all addresses of the machine.
pub proof fn law_bind_address(port: u16)
    ensures
        bind_address(port, false) == seq!['0', '.', '0', '.', '0', '.', '0', ':'] + text::decimal(
            port as nat,
        ),
        bind_address(port, true) == seq!['[', ':', ':', ']', ':'] + text::decimal(port as nat),
{
    reveal_strlit("0.0.0.0:");
    reveal_strlit("[::]:");
    assert("0.0.0.0:"@ == seq!['0', '.', '0', '.', '0', '.', '0', ':']);
    assert("[::]:"@ == seq!['[', ':', ':', ']', ':']);
}

/// The DHT can be entered by these nodes and, without others being known, by no others.
pub proof fn law_dht_defaults(t: Seq<char>)
    ensures
        dht_defaults().contains(t) <==> t == "116.202.32.250:6881"@ || t
            == "router.bittorrent.com:6881"@ || t == "dht.transmissionbt.com:6881"@ || t
            == "dht.libtorrent.org:25401"@ || t == "relay.pkarr.org:6881"@,
{
    let all = dht_defaults();
    assert(all.len() == 5);
    assert(all[0] == "116.202.32.250:6881"@ && all[1] == "router.bittorrent.com:6881"@);
    assert(all[2] == "dht.transmissionbt.com:6881"@ && all[3] == "dht.libtorrent.org:25401"@);
    assert(all[4] == "relay.pkarr.org:6881"@);
}

/// Of the lines of a file that are not blank the first 64 are found, without the white space around
/// them; of the nodes of a list the first 64 are written, one to a line.
pub proof fn law_kept_nodes_limit(file: Seq<char>, nodes: Seq<Seq<char>>)
    ensures
        ({
            let lines = text::trimmed_non_blank(text::split_on(file, '\n'));
            &&& lines.len() <= 64 ==> kept_nodes(file) == lines
            &&& lines.len() > 64 ==> kept_nodes(file) == lines.take(64)
        }),
        nodes.len() <= 64 ==> kept_file(nodes) == text::joined(nodes, '\n'),
        nodes.len() > 64 ==> kept_file(nodes) == text::joined(nodes.take(64), '\n'),
{
    let lines = text::trimmed_non_blank(text::split_on(file, '\n'));
    assert(lines.take(lines.len() as int) == lines);
    assert(nodes.take(nodes.len() as int) == nodes);
}

/// Every IPv4 address of a list is taken, in order, and no other.
pub proof fn law_v4_addresses(a: Seq<Resolved>, b: Seq<Resolved>, x: Resolved)
    ensures
        v4_addresses(a + b) == v4_addresses(a) + v4_addresses(b),
        v4_addresses(seq![x]) == (if x.v4 {
            seq![x.address@]
        } else {
            Seq::empty()
        }),
    decreases b.len(),
{
    if b.len() == 0 {
        assert(a + b == a);
        assert(v4_addresses(a) + Seq::<Seq<char>>::empty() == v4_addresses(a));
    } else {
        law_v4_addresses(a, b.drop_last(), x);
        assert((a + b).drop_last() == a + b.drop_last());
        assert((a + b).last() == b.last());
        assert(v4_addresses(a + b) == v4_addresses(a) + v4_addresses(b));
    }
    let one = seq![x];
    assert(one.drop_last() == Seq::<Resolved>::empty());
    assert(v4_addresses(one.drop_last()) == Seq::<Seq<char>>::empty());
    if x.v4 {
        assert(v4_addresses(one) == seq![x.address@]);
    } else {
        assert(v4_addresses(one) == Seq::<Seq<char>>::empty());
    }
}

/// A round of the DHT monitor takes twelve seconds, and the resolution of a host at most a second
/// and a half.
pub proof fn law_dht_times()
    ensures
        DHT_ROUND_SECS == 12,
        LOOKUP_TIMEOUT_MS == 1500,
{
}

} // verus!
