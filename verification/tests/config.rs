use netfory_provider::config::{
    load_or_init, parse_port_str, settle, Config, ConfigError, EndpointCfg, Gossip, Identity,
    Network, PortCfg, Status,
};
use netfory_provider::crypto::CryptoError;

const PHRASE: &str =
    "abandon abandon abandon abandon abandon abandon abandon abandon abandon abandon abandon about";
const ROOT_HEX: &str = "5eb00bbddcf069084889a8ab9155568165f5c453ccb85e70811aaed6f6da5fc1";

fn config_with(phrase: &str, key: &str) -> Config {
    let mut cfg = Config::default();
    cfg.identity.bip39_mnemonic = phrase.to_owned();
    cfg.identity.iroh_secret_key = key.to_owned();
    cfg
}

#[test]
fn ports_from_text() {
    assert_eq!(parse_port_str("11204"), 11204);
    assert_eq!(parse_port_str("  11204\n"), 11204);
    assert_eq!(parse_port_str("+11204"), 11204);
    assert_eq!(parse_port_str("65535"), 65535);
    for s in ["", "  ", "random", "rand", "auto", "RANDOM", "0", "65536", "-1", "+", "12x", "1 2", "999999999999999999999"] {
        assert_eq!(parse_port_str(s), 0, "{s}");
    }
}

#[test]
fn ports_resolve_and_show() {
    assert_eq!(PortCfg::Num(7).resolve(), 7);
    assert_eq!(PortCfg::Name(" 4003 ".to_owned()).resolve(), 4003);
    assert_eq!(PortCfg::Name("auto".to_owned()).resolve(), 0);
    assert_eq!(PortCfg::Num(0).to_text(), "random");
    assert_eq!(PortCfg::Num(10).to_text(), "10");
    assert_eq!(PortCfg::Name("65535".to_owned()).to_text(), "65535");
    for p in [0u16, 1, 9, 10, 4003, 11204, 65535] {
        assert_eq!(parse_port_str(&PortCfg::Num(p).to_text()), p);
    }
}

#[test]
fn defaults() {
    let cfg = Config::default();
    assert_eq!(cfg.identity.bip39_mnemonic, "");
    assert_eq!(cfg.identity.iroh_secret_key, "");
    assert_eq!(cfg.network.listen_port.resolve(), 0);
    assert!(matches!(&cfg.network.listen_port, PortCfg::Name(s) if s == "random"));
    assert!(cfg.network.relays.is_empty());
    assert!(cfg.network.dht_enabled);
    assert!(cfg.network.dht_bootstrap.is_empty());
    assert!(cfg.network.ipv6_enabled);
    assert_eq!(cfg.status.http_port, 8080);
    assert_eq!(cfg.gossip.announce_interval_secs, 300);
    assert_eq!(cfg.endpoints.len(), 1);
    let (id, e) = &cfg.endpoints[0];
    assert_eq!(id, "smartholdem-node");
    assert_eq!(e.protocol, "api");
    assert_eq!(e.name, "node1-smartholdem");
    assert_eq!(e.local_url, "http://localhost:4003/api");
    assert_eq!(e.rate_limit_per_peer, 5);
    assert_eq!(e.local_ws_url, None);
    assert_eq!(e.ws_rate_limit_per_peer, 30);
}

#[test]
fn first_start_makes_an_identity() {
    let first = load_or_init(None).unwrap();
    assert!(first.dirty);
    assert_eq!(first.config.identity.bip39_mnemonic.split(' ').count(), 12);
    assert_eq!(first.config.identity.iroh_secret_key, hex::encode(first.root));
    let phrase = first.config.identity.bip39_mnemonic.clone();
    let root = first.root;

    let second = load_or_init(Some(first.config)).unwrap();
    assert!(!second.dirty);
    assert_eq!(second.root, root);
    assert_eq!(second.config.identity.bip39_mnemonic, phrase);
}

#[test]
fn blank_phrase_is_replaced() {
    let loaded = load_or_init(Some(config_with(" \n ", ""))).unwrap();
    assert!(loaded.dirty);
    assert_eq!(loaded.config.identity.bip39_mnemonic.split(' ').count(), 12);
}

#[test]
fn cached_key_follows_the_phrase() {
    let loaded = load_or_init(Some(config_with(PHRASE, "stale"))).unwrap();
    assert!(loaded.dirty);
    assert_eq!(loaded.config.identity.iroh_secret_key, ROOT_HEX);
    assert_eq!(hex::encode(loaded.root), ROOT_HEX);
    assert_eq!(loaded.config.identity.bip39_mnemonic, PHRASE);
}

#[test]
fn current_key_is_left_as_it_is() {
    let key = format!("  {}\n", ROOT_HEX.to_uppercase());
    let loaded = load_or_init(Some(config_with(PHRASE, &key))).unwrap();
    assert!(!loaded.dirty);
    assert_eq!(loaded.config.identity.iroh_secret_key, key);
}

#[test]
fn settling_keeps_the_dirty_mark() {
    assert!(settle(config_with(PHRASE, ROOT_HEX), true).unwrap().dirty);
    assert!(!settle(config_with(PHRASE, ROOT_HEX), false).unwrap().dirty);
}

#[test]
fn invalid_phrase_is_an_error_even_without_endpoints() {
    let mut cfg = config_with("no such phrase", "");
    cfg.endpoints.clear();
    assert!(matches!(
        load_or_init(Some(cfg)),
        Err(ConfigError::Crypto(CryptoError::Mnemonic(_)))
    ));
}

#[test]
fn a_configuration_needs_an_endpoint() {
    let mut cfg = config_with(PHRASE, ROOT_HEX);
    cfg.endpoints.clear();
    assert!(matches!(load_or_init(Some(cfg)), Err(ConfigError::NoEndpoints)));
    let mut cfg = config_with("", "");
    cfg.endpoints.clear();
    assert!(matches!(load_or_init(Some(cfg)), Err(ConfigError::NoEndpoints)));
}

#[test]
fn other_settings_are_kept() {
    let endpoint = EndpointCfg {
        protocol: "api".to_owned(),
        name: "x".to_owned(),
        local_url: "http://localhost:1".to_owned(),
        rate_limit_per_peer: 9,
        local_ws_url: Some("ws://localhost:1".to_owned()),
        ws_rate_limit_per_peer: 8,
    };
    let copy = endpoint.clone();
    assert_eq!(copy.local_ws_url.as_deref(), Some("ws://localhost:1"));
    let cfg = Config {
        identity: Identity {
            bip39_mnemonic: PHRASE.to_owned(),
            iroh_secret_key: String::new(),
        },
        network: Network {
            listen_port: PortCfg::Num(11204),
            relays: vec!["https://relay.example".to_owned()],
            dht_enabled: false,
            dht_bootstrap: vec!["a:1".to_owned()],
            ipv6_enabled: false,
        },
        status: Status { http_port: 81 },
        gossip: Gossip { announce_interval_secs: 20 },
        endpoints: vec![("id".to_owned(), endpoint)],
    };
    let loaded = load_or_init(Some(cfg)).unwrap();
    assert_eq!(loaded.config.network.listen_port.resolve(), 11204);
    assert_eq!(loaded.config.network.relays, vec!["https://relay.example".to_owned()]);
    assert!(!loaded.config.network.dht_enabled);
    assert!(!loaded.config.network.ipv6_enabled);
    assert_eq!(loaded.config.status.http_port, 81);
    assert_eq!(loaded.config.gossip.announce_interval_secs, 20);
    assert_eq!(loaded.config.endpoints[0].1.rate_limit_per_peer, 9);
}
