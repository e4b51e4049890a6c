//! The configuration of a node, and its completion at start: a phrase is generated where there is
//! none, the root is derived from the phrase, and the cached key follows the root.
use crate::crypto;
use crate::hexadecimal;
use crate::text;
use vstd::prelude::*;

verus! {

/// The configuration of a node.
#[derive(Debug)]
pub struct Config {
    pub identity: Identity,
    pub network: Network,
    pub status: Status,
    pub gossip: Gossip,
    /// The local providers, each under an id of its own.
    pub endpoints: Vec<(String, EndpointCfg)>,
}

/// The keys of the node.
#[derive(Debug)]
pub struct Identity {
    /// The phrase that all keys are derived from.
    pub bip39_mnemonic: String,
    /// The root of the phrase in hexadecimal.
    pub iroh_secret_key: String,
}

/// How the node takes part in the network.
#[derive(Debug)]
pub struct Network {
    /// The UDP port of the transport. It is not used where `relays` has an entry.
    pub listen_port: PortCfg,
    /// URLs of relays. Where there is an entry, direct connections are off.
    pub relays: Vec<String>,
    /// Whether the node is found through the Mainline DHT.
    pub dht_enabled: bool,
    /// More nodes to enter the DHT by, as `host:port`.
    pub dht_bootstrap: Vec<String>,
    /// Whether the port is bound on IPv6 too.
    pub ipv6_enabled: bool,
}

/// A port as a number, or as a text such as `random` or `auto`.
#[derive(Debug)]
pub enum PortCfg {
    Num(u16),
    Name(String),
}

/// The local status page.
#[derive(Debug)]
pub struct Status {
    pub http_port: u16,
}

/// The announcements of the node.
#[derive(Debug)]
pub struct Gossip {
    pub announce_interval_secs: u64,
}

/// A local provider.
#[derive(Debug)]
pub struct EndpointCfg {
    pub protocol: String,
    /// The public name of the endpoint.
    pub name: String,
    /// The base URL of the local instance.
    pub local_url: String,
    /// The number of requests per second that one peer may make; 0 for any number.
    pub rate_limit_per_peer: u32,
    /// The base URL of the local instance for WebSocket tunnels; without it there are none.
    pub local_ws_url: Option<String>,
    /// The number of tunnel messages per second that one peer may send; 0 for any number.
    pub ws_rate_limit_per_peer: u32,
}

/// What an endpoint's configuration holds.
pub struct EndpointView {
    pub protocol: Seq<char>,
    pub name: Seq<char>,
    pub local_url: Seq<char>,
    pub rate_limit_per_peer: u32,
    pub local_ws_url: Option<Seq<char>>,
    pub ws_rate_limit_per_peer: u32,
}

/// The view of an optional text.
pub open spec fn text_option(o: Option<String>) -> Option<Seq<char>> {
    match o {
        Some(s) => Some(s@),
        None => None,
    }
}

impl View for EndpointCfg {
    type V = EndpointView;

    open spec fn view(&self) -> EndpointView {
        EndpointView {
            protocol: self.protocol@,
            name: self.name@,
            local_url: self.local_url@,
            rate_limit_per_peer: self.rate_limit_per_peer,
            local_ws_url: text_option(self.local_ws_url),
            ws_rate_limit_per_peer: self.ws_rate_limit_per_peer,
        }
    }
}

/// The endpoints of a configuration, in order.
pub open spec fn endpoint_views(list: Seq<(String, EndpointCfg)>) -> Seq<EndpointView> {
    list.map_values(|e: (String, EndpointCfg)| e.1@)
}

/// A copy of an optional text.
pub fn clone_text_option(o: &Option<String>) -> (r: Option<String>)
    ensures
        text_option(r) == text_option(*o),
{
    match o {
        Some(s) => Some(s.clone()),
        None => None,
    }
}

impl Clone for EndpointCfg {
    fn clone(&self) -> (r: EndpointCfg)
        ensures
            r@ == self@,
    {
        EndpointCfg {
            protocol: self.protocol.clone(),
            name: self.name.clone(),
            local_url: self.local_url.clone(),
            rate_limit_per_peer: self.rate_limit_per_peer,
            local_ws_url: clone_text_option(&self.local_ws_url),
            ws_rate_limit_per_peer: self.ws_rate_limit_per_peer,
        }
    }
}

impl Config {
    /// Whether no two endpoints stand under the same id.
    pub open spec fn wf(&self) -> bool {
        forall|i: int, j: int|
            0 <= i < j < self.endpoints@.len() ==> (#[trigger] self.endpoints@[i]).0@ != (
            #[trigger] self.endpoints@[j]).0@
    }
}

/// The port that a text stands for: the number that is left without the white space around it,
/// if it is one and fits; otherwise 0.
pub open spec fn port_of_text(s: Seq<char>) -> u16 {
    match text::parsed_number(text::trimmed(s)) {
        Some(n) => if n <= u16::MAX {
            n as u16
        } else {
            0
        },
        None => 0,
    }
}

/// A port as it is shown: its number, or `random`.
pub open spec fn shown_port(port: u16) -> Seq<char> {
    if port == 0 {
        "random"@
    } else {
        text::decimal(port as nat)
    }
}

/// A port as it is shown is read back.
pub proof fn law_shown_port_is_read_back(port: u16)
    ensures
        port_of_text(shown_port(port)) == port,
{
    let s = shown_port(port);
    if port == 0 {
        reveal_strlit("random");
        assert(s.first() == 'r');
        assert(s.last() == 'm');
        assert(text::trimmed(s) == s);
        assert(!('0' <= s[0] <= '9'));
    } else {
        text::lemma_decimal(port as nat);
        assert(s[0] == s.first());
        assert(s[s.len() - 1] == s.last());
        assert(text::trimmed(s) == s);
    }
}

impl PortCfg {
    /// The number of the port; 0 stands for a random one.
    pub open spec fn number(&self) -> u16 {
        match self {
            PortCfg::Num(n) => *n,
            PortCfg::Name(s) => port_of_text(s@),
        }
    }

    /// The number of the port; 0 stands for a random one.
    pub fn resolve(&self) -> (r: u16)
        ensures
            r == self.number(),
    {
        match self {
            PortCfg::Num(n) => *n,
            PortCfg::Name(s) => parse_port_str(s.as_str()),
        }
    }

    /// The port as it is shown: its number, or `random`.
    pub fn to_text(&self) -> (r: String)
        ensures
            r@ == shown_port(self.number()),
    {
        let p: u16 = self.resolve();
        if p == 0 {
            "random".to_owned()
        } else {
            let mut s = String::new();
            text::push_decimal(&mut s, p as u64);
            assert(s@ == text::decimal(p as nat));
            s
        }
    }
}

/// The port that a text stands for: `11204` is 11204, while `random`, `rand`, `auto`, the empty
/// text and any text that is no port number stand for a random port, which is 0.
pub fn parse_port_str(s: &str) -> (r: u16)
    ensures
        r == port_of_text(s@),
{
    let t = text::trim(s);
    match text::parse_u16(t.as_str()) {
        Some(n) => n,
        None => 0,
    }
}

/// A random port: the transport then relies on relays and hole punching.
pub fn default_listen_port() -> (r: PortCfg)
    ensures
        r matches PortCfg::Name(s) && s@ == "random"@,
{
    PortCfg::Name("random".to_owned())
}

/// The DHT is used.
pub fn default_dht_enabled() -> (r: bool)
    ensures
        r,
{
    true
}

/// IPv6 is used.
pub fn default_ipv6_enabled() -> (r: bool)
    ensures
        r,
{
    true
}

/// The name of the protocol.
pub fn default_protocol() -> (r: String)
    ensures
        r@ == "api"@,
{
    "api".to_owned()
}

/// Five requests per second.
pub fn default_rate() -> (r: u32)
    ensures
        r == 5,
{
    5
}

/// Thirty tunnel messages per second.
pub fn default_ws_msg_rate() -> (r: u32)
    ensures
        r == 30,
{
    30
}

impl Default for Identity {
    fn default() -> (r: Identity)
        ensures
            r.bip39_mnemonic@ == Seq::<char>::empty(),
            r.iroh_secret_key@ == Seq::<char>::empty(),
    {
        Identity { bip39_mnemonic: String::new(), iroh_secret_key: String::new() }
    }
}

impl Default for Network {
    fn default() -> (r: Network)
        ensures
            r.listen_port matches PortCfg::Name(s) && s@ == "random"@,
            r.relays@ == Seq::<String>::empty(),
            r.dht_enabled,
            r.dht_bootstrap@ == Seq::<String>::empty(),
            r.ipv6_enabled,
    {
        Network {
            listen_port: default_listen_port(),
            relays: Vec::new(),
            dht_enabled: default_dht_enabled(),
            dht_bootstrap: Vec::new(),
            ipv6_enabled: default_ipv6_enabled(),
        }
    }
}

impl Default for Status {
    fn default() -> (r: Status)
        ensures
            r.http_port == 8080,
    {
        Status { http_port: 8080 }
    }
}

impl Default for Gossip {
    fn default() -> (r: Gossip)
        ensures
            r.announce_interval_secs == 300,
    {
        Gossip { announce_interval_secs: 300 }
    }
}

/// The endpoint of a new configuration.
pub open spec fn default_endpoint() -> EndpointView {
    EndpointView {
        protocol: "api"@,
        name: "node1-smartholdem"@,
        local_url: "http://localhost:4003/api"@,
        rate_limit_per_peer: 5,
        local_ws_url: None,
        ws_rate_limit_per_peer: 30,
    }
}

/// Whether `c` is the configuration that a node without one starts from.
pub open spec fn is_default(c: Config) -> bool {
    &&& c.identity.bip39_mnemonic@ == Seq::<char>::empty()
    &&& c.identity.iroh_secret_key@ == Seq::<char>::empty()
    &&& is_default_apart_from_identity(c)
}

/// Whether `c` is the configuration that a node without one starts from, but for its keys.
pub open spec fn is_default_apart_from_identity(c: Config) -> bool {
    &&& c.network.listen_port matches PortCfg::Name(s) && s@ == "random"@
    &&& c.network.relays@ == Seq::<String>::empty()
    &&& c.network.dht_enabled
    &&& c.network.dht_bootstrap@ == Seq::<String>::empty()
    &&& c.network.ipv6_enabled
    &&& c.status.http_port == 8080
    &&& c.gossip.announce_interval_secs == 300
    &&& c.endpoints@.len() == 1
    &&& c.endpoints@[0].0@ == "smartholdem-node"@
    &&& c.endpoints@[0].1@ == default_endpoint()
}

impl Default for Config {
    fn default() -> (r: Config)
        ensures
            is_default(r),
            r.wf(),
    {
        let mut endpoints: Vec<(String, EndpointCfg)> = Vec::new();
        let endpoint = EndpointCfg {
            protocol: default_protocol(),
            name: "node1-smartholdem".to_owned(),
            local_url: "http://localhost:4003/api".to_owned(),
            rate_limit_per_peer: default_rate(),
            local_ws_url: None,
            ws_rate_limit_per_peer: default_ws_msg_rate(),
        };
        endpoints.push(("smartholdem-node".to_owned(), endpoint));
        Config {
            identity: Identity::default(),
            network: Network::default(),
            status: Status::default(),
            gossip: Gossip::default(),
            endpoints,
        }
    }
}

/// Why a configuration cannot be used.
#[derive(Debug)]
pub enum ConfigError {
    /// The keys cannot be derived.
    Crypto(crypto::CryptoError),
    /// There is no endpoint to serve.
    NoEndpoints,
}

/// A configuration ready for use.
pub struct Loaded {
    pub config: Config,
    /// The root of the configuration's phrase.
    pub root: crypto::Root,
    /// Whether the configuration differs from what was found, and has to be saved.
    pub dirty: bool,
}

/// Whether `key` is the hexadecimal text of `root`, in either case and with white space around it.
pub open spec fn key_is_current(key: Seq<char>, root: Seq<u8>) -> bool {
    text::ascii_lower(text::trimmed(key)) == hexadecimal::hex_text(root)
}

/// The cached key after `key`, for the root `root`.
pub open spec fn settled_key(key: Seq<char>, root: Seq<u8>) -> Seq<char> {
    if key_is_current(key, root) {
        key
    } else {
        hexadecimal::hex_text(root)
    }
}

/// Whether `after` is `before` but for the keys.
pub open spec fn same_apart_from_identity(after: Config, before: Config) -> bool {
    &&& after.network == before.network
    &&& after.status == before.status
    &&& after.gossip == before.gossip
    &&& after.endpoints == before.endpoints
}

/// Whether `r` is what becomes of `cfg`, whose phrase is given.
pub open spec fn is_settled(cfg: Config, dirty: bool, r: Result<Loaded, ConfigError>) -> bool {
    match crypto::root_of(cfg.identity.bip39_mnemonic@) {
        None => r matches Err(ConfigError::Crypto(crypto::CryptoError::Mnemonic(_))),
        Some(root) => if cfg.endpoints@.len() == 0 {
            r == Err::<Loaded, ConfigError>(ConfigError::NoEndpoints)
        } else {
            &&& r matches Ok(l)
            &&& l.root@ == root
            &&& same_apart_from_identity(l.config, cfg)
            &&& l.config.identity.bip39_mnemonic@ == cfg.identity.bip39_mnemonic@
            &&& l.config.identity.iroh_secret_key@ == settled_key(
                cfg.identity.iroh_secret_key@,
                root,
            )
            &&& l.dirty == (dirty || !key_is_current(cfg.identity.iroh_secret_key@, root))
        },
    }
}

/// Derives the root from the phrase and brings the cached key in line with it.
pub fn settle(cfg: Config, dirty: bool) -> (r: Result<Loaded, ConfigError>)
    ensures
        is_settled(cfg, dirty, r),
{
    let mut config = cfg;
    let mut dirty = dirty;
    let root = match crypto::root_from_mnemonic(config.identity.bip39_mnemonic.as_str()) {
        Ok(root) => root,
        Err(e) => {
            return Err(ConfigError::Crypto(e));
        },
    };
    let root_hex = hexadecimal::hex_encode(root.as_slice());
    // The lower case of no other character is a hexadecimal digit.
    let key = text::to_ascii_lowercase(
        text::trim(config.identity.iroh_secret_key.as_str()).as_str(),
    );
    if key != root_hex {
        config.identity.iroh_secret_key = root_hex;
        dirty = true;
    }
    if config.endpoints.len() == 0 {
        return Err(ConfigError::NoEndpoints);
    }
    Ok(Loaded { config, root, dirty })
}

/// Whether `r` is what becomes of the configuration that was found, if any was.
pub open spec fn is_loaded(found: Option<Config>, r: Result<Loaded, ConfigError>) -> bool {
    match found {
        Some(cfg) => if text::trimmed(cfg.identity.bip39_mnemonic@).len() > 0 {
            is_settled(cfg, false, r)
        } else if cfg.endpoints@.len() == 0 {
            r == Err::<Loaded, ConfigError>(ConfigError::NoEndpoints)
        } else {
            &&& r matches Ok(l)
            &&& same_apart_from_identity(l.config, cfg)
            &&& is_new_identity(l, cfg.identity.iroh_secret_key@)
        },
        None => {
            &&& r matches Ok(l)
            &&& is_default_apart_from_identity(l.config)
            &&& is_new_identity(l, Seq::empty())
        },
    }
}

/// Completes the configuration that was found, or a default one where none was. A blank phrase is
/// replaced by a new one.
pub fn load_or_init(found: Option<Config>) -> (r: Result<Loaded, ConfigError>)
    ensures
        is_loaded(found, r),
        (found matches Some(cfg) ==> cfg.wf()) && r is Ok ==> r->Ok_0.config.wf(),
{
    let mut dirty: bool = false;
    let mut cfg = match found {
        Some(cfg) => cfg,
        None => {
            dirty = true;
            Config::default()
        },
    };
    let blank = text::trim(cfg.identity.bip39_mnemonic.as_str());
    if blank.as_str().is_empty() {
        match crypto::generate_mnemonic() {
            Ok(mnemonic) => {
                cfg.identity.bip39_mnemonic = mnemonic;
            },
            Err(e) => {
                return Err(ConfigError::Crypto(e));
            },
        }
        dirty = true;
    }
    settle(cfg, dirty)
}

/// Whether a configuration was given a new phrase, its root derived from it, and the cached key
/// after `key` brought in line with the root.
pub open spec fn is_new_identity(l: Loaded, key: Seq<char>) -> bool {
    &&& crypto::is_phrase(l.config.identity.bip39_mnemonic@, crypto::MNEMONIC_WORDS as nat)
    &&& crypto::root_of(l.config.identity.bip39_mnemonic@) == Some(l.root@)
    &&& l.config.identity.iroh_secret_key@ == settled_key(key, l.root@)
    &&& l.dirty
}

/// The hexadecimal text of a root is current for it.
pub proof fn lemma_hex_is_current(root: Seq<u8>)
    ensures
        key_is_current(hexadecimal::hex_text(root), root),
{
    let s = hexadecimal::hex_text(root);
    hexadecimal::lemma_hex_text_digits(root);
    if s.len() > 0 {
        assert(s[0] == s.first());
        assert(s[s.len() - 1] == s.last());
    }
    assert(text::trimmed(s) == s);
    assert(text::ascii_lower(s) == s);
}

/// Loading is final: where `first` came of a configuration, or of none, loading what `first` saved
/// gives the same configuration with the same root, and nothing has to be saved again.
pub proof fn law_loading_is_final(
    found: Option<Config>,
    first: Loaded,
    second: Result<Loaded, ConfigError>,
)
    requires
        is_loaded(found, Ok(first)),
        is_loaded(Some(first.config), second),
    ensures
        second matches Ok(l) && !l.dirty && l.root@ == first.root@ && same_apart_from_identity(
            l.config,
            first.config,
        ) && l.config.identity.bip39_mnemonic@ == first.config.identity.bip39_mnemonic@
            && l.config.identity.iroh_secret_key@ == first.config.identity.iroh_secret_key@,
{
    lemma_hex_is_current(first.root@);
    if crypto::is_phrase(
        first.config.identity.bip39_mnemonic@,
        crypto::MNEMONIC_WORDS as nat,
    ) {
        crypto::lemma_trimmed_phrase(
            first.config.identity.bip39_mnemonic@,
            crypto::MNEMONIC_WORDS as nat,
        );
    }
}

/// A decimal number that a port can have is read as that port, with or without a plus sign before
/// it and with any white space around it.
pub proof fn law_port_number_is_read(a: Seq<char>, digits: Seq<char>, b: Seq<char>)
    requires
        forall|i: int| 0 <= i < a.len() ==> text::is_white_space(#[trigger] a[i]),
        forall|i: int| 0 <= i < b.len() ==> text::is_white_space(#[trigger] b[i]),
        text::is_numeral(digits),
        text::numeral_value(digits) <= 65535,
    ensures
        port_of_text(a + digits + b) == text::numeral_value(digits),
        port_of_text(a + (seq!['+'] + digits) + b) == text::numeral_value(digits),
{
    let signed = seq!['+'] + digits;
    text::law_trimmed_ignores_padding(a, digits, b);
    text::law_trimmed_ignores_padding(a, signed, b);
    text::law_parsed_number(digits, digits);
    assert(digits[0] == digits.first());
    assert(digits[digits.len() - 1] == digits.last());
    assert(signed.first() == '+' && signed.last() == digits.last());
    assert(text::trimmed(digits) == digits);
    assert(text::trimmed(signed) == signed);
}

/// Whatever else a text is, it stands for a random port, which is 0.
pub proof fn law_other_texts_are_random(s: Seq<char>)
    ensures
        !text::is_numeral(text::trimmed(s)) && !(text::trimmed(s).len() > 1 && text::trimmed(s)[0]
            == '+' && text::is_numeral(text::trimmed(s).skip(1))) ==> port_of_text(s) == 0,
        text::is_numeral(text::trimmed(s)) && text::numeral_value(text::trimmed(s)) > 65535
            ==> port_of_text(s) == 0,
        port_of_text(s) != 0 ==> text::parsed_number(text::trimmed(s)) == Some(
            port_of_text(s) as nat,
        ),
{
    text::law_parsed_number(text::trimmed(s), seq!['0']);
    if text::is_numeral(text::trimmed(s)) {
        text::law_parsed_number(text::trimmed(s), text::trimmed(s));
    }
}

/// A port is shown by its number in decimal, and a random one as `random`. A number in the
/// configuration is the port itself, and a text the port that it stands for.
pub proof fn law_shown_port(port: u16, p: PortCfg)
    ensures
        port == 0 ==> shown_port(port) == "random"@,
        port > 0 ==> text::is_numeral(shown_port(port)) && text::numeral_value(shown_port(port))
            == port && shown_port(port) == text::decimal(port as nat),
        p matches PortCfg::Num(n) ==> p.number() == n,
        p matches PortCfg::Name(s) ==> p.number() == port_of_text(s@),
{
    text::lemma_decimal(port as nat);
}

/// The view of an optional text is that of the text, where there is one, be it empty or not.
pub proof fn law_text_option(s: String)
    ensures
        text_option(Some(s)) == Some(s@),
        text_option(None) is None,
{
}

/// The view of an endpoint has its fields, and the views of endpoints stand in the places of the
/// endpoints.
pub proof fn law_endpoint_views(e: EndpointCfg, list: Seq<(String, EndpointCfg)>)
    ensures
        e@.protocol == e.protocol@,
        e@.name == e.name@,
        e@.local_url == e.local_url@,
        e@.rate_limit_per_peer == e.rate_limit_per_peer,
        e.local_ws_url is None <==> e@.local_ws_url is None,
        e.local_ws_url matches Some(s) ==> e@.local_ws_url == Some(s@),
        e@.ws_rate_limit_per_peer == e.ws_rate_limit_per_peer,
        endpoint_views(list).len() == list.len(),
        forall|i: int| 0 <= i < list.len() ==> #[trigger] endpoint_views(list)[i] == list[i].1@,
{
}

/// A node that finds no configuration starts from this one: a random port, no relays, the DHT and
/// IPv6 in use, the status page on 8080, an announcement every five minutes, and one endpoint with
/// five requests and thirty tunnel messages per second and no tunnels.
pub proof fn law_default_configuration(c: Config)
    requires
        is_default_apart_from_identity(c),
    ensures
        c.network.listen_port.number() == 0,
        c.network.relays@.len() == 0,
        c.network.dht_enabled,
        c.network.dht_bootstrap@.len() == 0,
        c.network.ipv6_enabled,
        c.status.http_port == 8080,
        c.gossip.announce_interval_secs == 300,
        c.endpoints@.len() == 1,
        c.endpoints@[0].0@ == "smartholdem-node"@,
        c.endpoints@[0].1.protocol@ == "api"@,
        c.endpoints@[0].1.name@ == "node1-smartholdem"@,
        c.endpoints@[0].1.local_url@ == "http://localhost:4003/api"@,
        c.endpoints@[0].1.rate_limit_per_peer == 5,
        c.endpoints@[0].1.local_ws_url is None,
        c.endpoints@[0].1.ws_rate_limit_per_peer == 30,
        is_default(c) <==> c.identity.bip39_mnemonic@.len() == 0
            && c.identity.iroh_secret_key@.len() == 0,
{
    law_shown_port_is_read_back(0);
    law_endpoint_views(c.endpoints@[0].1, c.endpoints@);
    assert(c.identity.bip39_mnemonic@.len() == 0 ==> c.identity.bip39_mnemonic@
        == Seq::<char>::empty());
    assert(c.identity.iroh_secret_key@.len() == 0 ==> c.identity.iroh_secret_key@
        == Seq::<char>::empty());
}

/// In a configuration that is well formed every id names one endpoint.
pub proof fn law_endpoint_ids(c: Config, i: int, j: int)
    requires
        c.wf(),
        0 <= i < c.endpoints@.len(),
        0 <= j < c.endpoints@.len(),
        c.endpoints@[i].0@ == c.endpoints@[j].0@,
    ensures
        i == j,
{
}

/// What comes of loading: the root is that of the phrase, the cached key is the root in
/// hexadecimal, in either case and with any white space around it, and a phrase that was there and
/// all but the keys stay as they were. It has to be saved exactly where a key changed or nothing
/// was found.
pub proof fn law_loaded(found: Option<Config>, l: Loaded)
    requires
        is_loaded(found, Ok(l)),
    ensures
        crypto::root_of(l.config.identity.bip39_mnemonic@) == Some(l.root@),
        text::ascii_lower(text::trimmed(l.config.identity.iroh_secret_key@))
            == hexadecimal::hex_text(l.root@),
        l.config.endpoints@.len() > 0,
        found is None ==> l.dirty && is_default_apart_from_identity(l.config),
        found is None && l.root@.len() > 0 ==> l.config.identity.iroh_secret_key@
            == hexadecimal::hex_text(l.root@),
        found is None || text::trimmed(found->0.identity.bip39_mnemonic@).len() == 0
            ==> crypto::is_phrase(l.config.identity.bip39_mnemonic@, 12),
        found matches Some(cfg) ==> {
            &&& l.config.network == cfg.network
            &&& l.config.status == cfg.status
            &&& l.config.gossip == cfg.gossip
            &&& l.config.endpoints == cfg.endpoints
            &&& text::trimmed(cfg.identity.bip39_mnemonic@).len() > 0
                ==> l.config.identity.bip39_mnemonic@ == cfg.identity.bip39_mnemonic@
            &&& text::ascii_lower(text::trimmed(cfg.identity.iroh_secret_key@))
                == hexadecimal::hex_text(l.root@) ==> l.config.identity.iroh_secret_key@
                == cfg.identity.iroh_secret_key@
            &&& text::ascii_lower(text::trimmed(cfg.identity.iroh_secret_key@))
                != hexadecimal::hex_text(l.root@) ==> l.config.identity.iroh_secret_key@
                == hexadecimal::hex_text(l.root@)
            &&& l.dirty <==> text::trimmed(cfg.identity.bip39_mnemonic@).len() == 0
                || text::ascii_lower(text::trimmed(cfg.identity.iroh_secret_key@))
                != hexadecimal::hex_text(l.root@)
        },
{
    lemma_hex_is_current(l.root@);
    let none = Seq::<char>::empty();
    assert(text::trimmed(none) == none);
    assert(text::ascii_lower(none) == none);
}

/// When loading fails: for a phrase that is there but not valid, and for a configuration without
/// endpoints; and at no other time.
pub proof fn law_loading_fails(found: Option<Config>, r: Result<Loaded, ConfigError>)
    requires
        is_loaded(found, r),
    ensures
        r is Err <==> (found matches Some(cfg) && (cfg.endpoints@.len() == 0 || text::trimmed(
            cfg.identity.bip39_mnemonic@,
        ).len() > 0 && crypto::root_of(cfg.identity.bip39_mnemonic@) is None)),
        r matches Err(ConfigError::Crypto(_)) ==> (found matches Some(cfg) && text::trimmed(
            cfg.identity.bip39_mnemonic@,
        ).len() > 0 && crypto::root_of(cfg.identity.bip39_mnemonic@) is None),
        r matches Err(ConfigError::NoEndpoints) ==> (found matches Some(cfg)
            && cfg.endpoints@.len() == 0),
{
}

/// What comes of settling a configuration whose phrase is given: the phrase and all but the keys
/// stay, the root is that of the phrase, and the cached key stays where it is the root in
/// hexadecimal and becomes just that where it is not. What had to be saved has to be saved still.
pub proof fn law_settled(cfg: Config, dirty: bool, r: Result<Loaded, ConfigError>)
    requires
        is_settled(cfg, dirty, r),
    ensures
        r is Ok <==> crypto::root_of(cfg.identity.bip39_mnemonic@) is Some && cfg.endpoints@.len()
            > 0,
        r is Err && crypto::root_of(cfg.identity.bip39_mnemonic@) is Some ==> r->Err_0
            is NoEndpoints,
        r is Err && crypto::root_of(cfg.identity.bip39_mnemonic@) is None ==> r->Err_0 is Crypto,
        r matches Ok(l) ==> {
            let current = text::ascii_lower(text::trimmed(cfg.identity.iroh_secret_key@))
                == hexadecimal::hex_text(l.root@);
            &&& crypto::root_of(cfg.identity.bip39_mnemonic@) == Some(l.root@)
            &&& l.config.network == cfg.network
            &&& l.config.status == cfg.status
            &&& l.config.gossip == cfg.gossip
            &&& l.config.endpoints == cfg.endpoints
            &&& l.config.identity.bip39_mnemonic@ == cfg.identity.bip39_mnemonic@
            &&& current ==> l.config.identity.iroh_secret_key@ == cfg.identity.iroh_secret_key@
            &&& !current ==> l.config.identity.iroh_secret_key@ == hexadecimal::hex_text(l.root@)
            &&& l.dirty <==> dirty || !current
        },
{
}

} // verus!
