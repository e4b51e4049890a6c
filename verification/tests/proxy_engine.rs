use netfory_provider::config::{Config, EndpointCfg};
use netfory_provider::crypto::{iroh_secret, node_id, verify_hex, Root};
use netfory_provider::protocol::{body_from_base64, MeshPacket};
use netfory_provider::proxy_engine::{
    now_secs, ProxyEngine, ProxyError, Upstream, UpstreamRequest,
};

const ROOT: Root = [7; 32];

fn endpoint(name: &str, url: &str, ws: Option<&str>) -> EndpointCfg {
    EndpointCfg {
        protocol: "api".to_owned(),
        name: name.to_owned(),
        local_url: url.to_owned(),
        rate_limit_per_peer: 5,
        local_ws_url: ws.map(|s| s.to_owned()),
        ws_rate_limit_per_peer: 12,
    }
}

fn engine() -> ProxyEngine {
    let mut cfg = Config::default();
    cfg.endpoints = vec![
        ("1".to_owned(), endpoint("zeta", "http://z/api//", Some("ws://z/"))),
        ("2".to_owned(), endpoint("alpha", "http://a", None)),
        ("3".to_owned(), endpoint("zeta", "http://z2/api/", Some("ws://z2///"))),
    ];
    ProxyEngine::new(&cfg, &ROOT, node_id(&iroh_secret(&ROOT)))
}

fn packet(target: &str, method: &str, body: &[u8], headers: &[(&str, &str)]) -> MeshPacket {
    let mut p = MeshPacket::with_id(target, method, "/blocks?x=1", body.to_vec(), "id".to_owned());
    for (k, v) in headers {
        p.headers.insert(k.to_string(), v.to_string());
    }
    p
}

fn request(p: &MeshPacket) -> UpstreamRequest {
    engine().request_for(p).unwrap()
}

fn pairs(r: &UpstreamRequest) -> Vec<(&str, &str)> {
    r.headers.iter().map(|(k, v)| (k.as_str(), v.as_str())).collect()
}

fn checked(text: &[u8], raw: &[u8]) -> serde_json::Value {
    let v: serde_json::Value = serde_json::from_slice(text).unwrap();
    let p = &v["pdata"];
    let node = p["node_id"].as_str().unwrap();
    let mut canon = format!(
        "{}|{}|{}|",
        node,
        p["status"].as_u64().unwrap(),
        p["signed_at"].as_u64().unwrap()
    )
    .into_bytes();
    canon.extend_from_slice(raw);
    assert_eq!(node, node_id(&iroh_secret(&ROOT)));
    assert!(verify_hex(node, &canon, p["sig"].as_str().unwrap()));
    canon.push(b'!');
    assert!(!verify_hex(node, &canon, p["sig"].as_str().unwrap()));
    assert_eq!(body_from_base64(p["body_b64"].as_str().unwrap()).unwrap(), raw);
    assert_eq!(p["v"].as_u64(), Some(1));
    assert_eq!(p["alg"].as_str(), Some("ed25519"));
    assert_eq!(p.as_object().unwrap().len(), 9);
    v
}

#[test]
fn endpoints_by_name() {
    let e = engine();
    assert_eq!(e.names(), vec!["alpha".to_owned(), "zeta".to_owned()]);
    assert!(e.serves("alpha"));
    assert!(e.serves("zeta"));
    assert!(e.serves(""));
    assert!(!e.serves("beta"));
    assert!(!e.serves("Alpha"));
    assert_eq!(e.rate_for("zeta"), 5);
    assert_eq!(e.rate_for("beta"), 0);
    assert_eq!(e.ws_msg_rate_for("zeta"), 12);
    assert_eq!(e.ws_msg_rate_for("beta"), 30);
}

#[test]
fn no_endpoints() {
    let mut cfg = Config::default();
    cfg.endpoints.clear();
    let e = ProxyEngine::new(&cfg, &ROOT, "n".to_owned());
    assert!(e.names().is_empty());
    assert!(!e.serves(""));
    assert!(!e.serves("x"));
}

#[test]
fn protocols_and_tunnel_urls() {
    let e = engine();
    assert_eq!(e.protocols_for("zeta"), vec!["rpc".to_owned(), "ws".to_owned()]);
    assert_eq!(e.protocols_for("alpha"), vec!["rpc".to_owned()]);
    assert_eq!(e.protocols_for(""), vec!["rpc".to_owned()]);
    assert!(e.protocols_for("beta").is_empty());
    // Of two endpoints with one name the last counts.
    assert_eq!(e.ws_url_for("zeta", "/socket").as_deref(), Some("ws://z2/socket"));
    assert_eq!(e.ws_url_for("alpha", "/socket"), None);
    assert_eq!(e.ws_url_for("beta", "/socket"), None);
}

#[test]
fn health_of_endpoints() {
    let e = engine();
    assert_eq!(e.health_url("zeta").as_deref(), Some("http://z2/api/"));
    assert_eq!(e.health_url(""), None);
    assert_eq!(e.health("zeta", true, 17), (true, 17));
    assert_eq!(e.health("zeta", false, 17), (false, 17));
    assert_eq!(e.health("beta", true, 17), (false, 0));
}

#[test]
fn plain_request() {
    let r = request(&packet("zeta", "get", b"", &[]));
    assert_eq!(r.url, "http://z2/api/blocks?x=1");
    assert_eq!(r.method, "GET");
    assert!(r.headers.is_empty());
    assert_eq!(r.body, None);
    assert_eq!(request(&packet("", "GET", b"", &[])).url, "http://a/blocks?x=1");
}

#[test]
fn methods() {
    for (given, sent) in [
        ("post", "POST"),
        ("Custom-1", "CUSTOM-1"),
        ("", "GET"),
        ("GET /x", "GET"),
        ("ГЕТ", "GET"),
        ("\u{17f}end", "SEND"),
        ("~!", "~!"),
    ] {
        assert_eq!(request(&packet("alpha", given, b"", &[])).method, sent, "{given}");
    }
}

#[test]
fn body_is_json_by_default() {
    let r = request(&packet("alpha", "POST", b"{}", &[]));
    assert_eq!(pairs(&r), vec![("content-type", "application/json"), ("accept", "application/json")]);
    assert_eq!(r.body.as_deref(), Some(&b"{}"[..]));
    let r = request(&packet("alpha", "POST", b"x", &[("Content-TYPE", "text/plain")]));
    assert_eq!(pairs(&r), vec![("content-type", "text/plain"), ("accept", "application/json")]);
    let r = request(&packet("alpha", "POST", b"x", &[("ACCEPT", "*/*")]));
    assert_eq!(pairs(&r), vec![("accept", "*/*"), ("content-type", "application/json")]);
    // A header that cannot be sent still counts as given.
    let r = request(&packet("alpha", "POST", b"x", &[("content-type", "a\nb")]));
    assert_eq!(pairs(&r), vec![("accept", "application/json")]);
    let r = request(&packet("alpha", "GET", b"", &[("accept", "*/*")]));
    assert_eq!(pairs(&r), vec![("accept", "*/*")]);
}

#[test]
fn headers_of_one_hop_stay_behind() {
    let names = [
        "Host", "CONNECTION", "Content-Length", "transfer-encoding", "Upgrade",
        "Proxy-Connection", "Keep-Alive", "Origin", "Referer", "User-Agent",
    ];
    for n in names {
        assert!(request(&packet("alpha", "GET", b"", &[(n, "x")])).headers.is_empty(), "{n}");
    }
    let r = request(&packet(
        "alpha",
        "GET",
        b"",
        &[("Authorization", "Bearer t"), ("X-Id", "1"), ("Sec-WebSocket-Key", "k")],
    ));
    assert_eq!(
        pairs(&r),
        vec![("authorization", "Bearer t"), ("sec-websocket-key", "k"), ("x-id", "1")]
    );
}

#[test]
fn invalid_headers_are_passed_over() {
    let r = request(&packet(
        "alpha",
        "GET",
        b"",
        &[("", "x"), ("a b", "x"), ("ключ", "x"), ("x:y", "x"), ("v1", "a\u{0}"), ("v2", "a\u{7f}"), ("v3", "a\tb"), ("v4", "значение"), ("v5", "")],
    ));
    assert_eq!(pairs(&r), vec![("v3", "a\tb"), ("v4", "значение"), ("v5", "")]);
}

#[test]
fn long_header_names() {
    let longest = "a".repeat(65535);
    let longer = "a".repeat(65536);
    let r = request(&packet("alpha", "GET", b"", &[(&longest, "x"), (&longer, "y")]));
    assert_eq!(pairs(&r), vec![(longest.as_str(), "x")]);
}

#[test]
fn unknown_target() {
    let p = packet("beta", "GET", b"", &[]);
    assert!(matches!(engine().request_for(&p), Err(ProxyError::NotServed(t)) if t == "beta"));
    let up = Upstream::Answered { status: 200, body: vec![] };
    assert!(matches!(engine().execute(&p, false, up), Err(ProxyError::NotServed(t)) if t == "beta"));
}

#[test]
fn response_to_an_object() {
    let raw = br#"{"data":{"height":42},"pdata":"old"}"#;
    let up = Upstream::Answered { status: 200, body: raw.to_vec() };
    let text = engine().execute_at(&packet("", "GET", b"", &[]), false, up, 1_750_000_000).unwrap();
    let v = checked(&text, raw);
    assert_eq!(v["data"]["height"].as_u64(), Some(42));
    assert_eq!(v.as_object().unwrap().len(), 2);
    assert_eq!(v["pdata"]["name"].as_str(), Some("alpha"));
    assert_eq!(v["pdata"]["status"].as_u64(), Some(200));
    assert_eq!(v["pdata"]["signed_at"].as_u64(), Some(1_750_000_000));
    assert_eq!(v["pdata"]["relayed"].as_bool(), Some(false));
}

#[test]
fn response_to_a_deep_object() {
    let raw = format!("{{\"list\":{}-7{},\"next\":null}}", "[".repeat(126), "]".repeat(126));
    let up = Upstream::Answered { status: 200, body: raw.clone().into_bytes() };
    let text = engine().execute_at(&packet("zeta", "GET", b"", &[]), false, up, 5).unwrap();
    let v = checked(&text, raw.as_bytes());
    assert!(v["next"].is_null());
    assert_eq!(v.as_object().unwrap().len(), 3);
}

#[test]
fn response_to_other_bodies() {
    for raw in [&b"[1,2]"[..], b"plain", b"", b"\xff\xfe", b"3", b"{\"a\":1} x"] {
        let up = Upstream::Answered { status: 404, body: raw.to_vec() };
        let text = engine().execute_at(&packet("zeta", "GET", b"", &[]), true, up, 5).unwrap();
        let v = checked(&text, raw);
        assert_eq!(v.as_object().unwrap().len(), 1);
        assert_eq!(v["pdata"]["status"].as_u64(), Some(404));
        assert_eq!(v["pdata"]["relayed"].as_bool(), Some(true));
    }
}

#[test]
fn response_where_the_instance_is_down() {
    let up = Upstream::Unreachable { detail: "refused \"now\"".to_owned() };
    let text = engine().execute_at(&packet("zeta", "GET", b"", &[]), false, up, 5).unwrap();
    let raw = br#"{"detail":"refused \"now\"","error":"upstream_unreachable"}"#;
    let v = checked(&text, raw);
    assert_eq!(v["error"].as_str(), Some("upstream_unreachable"));
    assert_eq!(v["pdata"]["status"].as_u64(), Some(502));
}

#[test]
fn response_to_too_many_requests() {
    let text = engine().reject_body_at(&packet("какая-то", "GET", b"", &[]), 9);
    let raw = "{\"detail\":\"превышен лимит запросов на этот PeerID\",\"error\":\"rate_limited\"}";
    let v = checked(&text, raw.as_bytes());
    assert_eq!(v["pdata"]["status"].as_u64(), Some(429));
    assert_eq!(v["pdata"]["name"].as_str(), Some("какая-то"));
    assert_eq!(v["pdata"]["relayed"].as_bool(), Some(false));
}

#[test]
fn responses_are_signed_now() {
    let before = now_secs();
    let text = engine().reject_body(&packet("", "GET", b"", &[]));
    let v: serde_json::Value = serde_json::from_slice(&text).unwrap();
    let at = v["pdata"]["signed_at"].as_u64().unwrap();
    assert!(before <= at && at <= now_secs());
    let up = Upstream::Answered { status: 200, body: b"{}".to_vec() };
    let text = engine().execute(&packet("", "GET", b"", &[]), false, up).unwrap();
    checked(&text, b"{}");
    assert!(before > 1_600_000_000);
}
