use netfory_provider::config::{Network, PortCfg};
use netfory_provider::transport::{
    bind_addresses, bootstrap_addresses, bootstrap_hosts, dht_nodes_file, dht_round,
    host_addresses, load_dht_bootstrap, relay_urls, save_dht_bootstrap, transport, Resolved,
    Transport,
};

fn strings(list: &[&str]) -> Vec<String> {
    list.iter().map(|s| s.to_string()).collect()
}

fn network(relays: &[&str], port: PortCfg) -> Network {
    let mut n = Network::default();
    n.relays = strings(relays);
    n.listen_port = port;
    n
}

#[test]
fn relays_are_read_as_urls() {
    assert_eq!(
        relay_urls(&strings(&["  https://relay-ru1.sth.cx ", "", " ", "not a url", "https://RELAY.example"])),
        strings(&["https://relay-ru1.sth.cx/", "https://relay.example/"])
    );
}

#[test]
fn relays_hide_the_node() {
    let t = transport(&network(&["https://relay.example"], PortCfg::Num(11204)), Some("5000".to_owned()));
    assert_eq!(t.quic_port(), 0);
    match t {
        Transport::RelayOnly { relays } => assert_eq!(relays, strings(&["https://relay.example/"])),
        other => panic!("{other:?}"),
    }
    // Direct sockets stay off though no relay is valid.
    let t = transport(&network(&["nonsense"], PortCfg::Num(11204)), None);
    assert!(matches!(t, Transport::RelayOnly { relays } if relays.is_empty()));
}

#[test]
fn ports() {
    let n = network(&[], PortCfg::Num(11204));
    assert!(matches!(transport(&n, None), Transport::Fixed { port: 11204 }));
    assert!(matches!(transport(&n, Some("5000".to_owned())), Transport::Fixed { port: 5000 }));
    assert!(matches!(transport(&n, Some("random".to_owned())), Transport::Random));
    assert!(matches!(transport(&n, Some("0".to_owned())), Transport::Random));
    let n = network(&[], PortCfg::Name("auto".to_owned()));
    assert!(matches!(transport(&n, None), Transport::Random));
    assert_eq!(transport(&n, Some("77".to_owned())).quic_port(), 77);
    assert_eq!(transport(&n, None).quic_port(), 0);
}

#[test]
fn addresses_to_bind() {
    assert_eq!(bind_addresses(11204, true, false), strings(&["0.0.0.0:11204", "[::]:11204"]));
    assert_eq!(bind_addresses(11204, true, true), strings(&["0.0.0.0:11204"]));
    assert_eq!(bind_addresses(11204, false, false), strings(&["0.0.0.0:11204"]));
}

#[test]
fn kept_nodes() {
    assert!(load_dht_bootstrap(None).is_empty());
    assert!(load_dht_bootstrap(Some(String::new())).is_empty());
    assert_eq!(
        load_dht_bootstrap(Some(" 1.2.3.4:5 \r\n\n 6.7.8.9:1".to_owned())),
        strings(&["1.2.3.4:5", "6.7.8.9:1"])
    );
    let many: Vec<String> = (0..100).map(|i| format!("10.0.0.{i}:6881")).collect();
    let file = save_dht_bootstrap(&many);
    assert_eq!(file.lines().count(), 64);
    assert_eq!(load_dht_bootstrap(Some(file)), many[..64].to_vec());
    let long: String = (0..100).map(|i| format!("h{i}\n")).collect();
    assert_eq!(load_dht_bootstrap(Some(long)).len(), 64);
    assert_eq!(save_dht_bootstrap(&Vec::new()), "");
}

#[test]
fn hosts_to_enter_by() {
    let hosts = bootstrap_hosts(
        &strings(&["me.example:1", "relay.pkarr.org:6881"]),
        &strings(&["1.1.1.1:1", "me.example:1"]),
    );
    assert_eq!(
        hosts,
        strings(&[
            "1.1.1.1:1",
            "116.202.32.250:6881",
            "dht.libtorrent.org:25401",
            "dht.transmissionbt.com:6881",
            "me.example:1",
            "relay.pkarr.org:6881",
            "router.bittorrent.com:6881",
        ])
    );
}

#[test]
fn addresses_of_hosts() {
    let found = || {
        Some(vec![
            Resolved { address: "9.9.9.9:1".to_owned(), v4: true },
            Resolved { address: "[::1]:1".to_owned(), v4: false },
            Resolved { address: "8.8.8.8:1".to_owned(), v4: true },
        ])
    };
    assert_eq!(host_addresses("1.1.1.1:1".to_owned(), true, found()), strings(&["1.1.1.1:1"]));
    assert_eq!(host_addresses("h:1".to_owned(), false, found()), strings(&["9.9.9.9:1", "8.8.8.8:1"]));
    assert!(host_addresses("h:1".to_owned(), false, None).is_empty());
    assert_eq!(
        bootstrap_addresses(vec![strings(&["b", "a"]), vec![], strings(&["a", "c"])]),
        strings(&["a", "b", "c"])
    );
}

#[test]
fn monitor_rounds() {
    assert_eq!(dht_round(0), (1, false));
    assert_eq!(dht_round(9), (10, true));
    assert_eq!(dht_round(10), (11, false));
    assert_eq!(dht_round(u32::MAX), (0, true));
    assert_eq!(dht_nodes_file(&Vec::new()), None);
    assert_eq!(dht_nodes_file(&strings(&["a:1", "b:2"])).as_deref(), Some("a:1\nb:2"));
}
