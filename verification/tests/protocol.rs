use netfory_provider::headers::Headers;
use netfory_provider::protocol::{
    body_from_base64, body_to_base64, id_of_bytes, rand_id, read_handshake_v1, write_handshake_v1,
    HandshakeError, HandshakeRead, MeshPacket, SignedResponse, WsError, WsFrame, WsRead, ALPN,
    ALPN_V1, DEFAULT_TTL, MAX_FRAME, MAX_WS_FRAME,
};

fn response(id: &str, status: u16, signed_at: u64, body: &[u8]) -> SignedResponse {
    SignedResponse {
        provider_node_id: "node".to_owned(),
        request_id: id.to_owned(),
        status,
        body: body.to_vec(),
        signed_at,
        relayed: false,
        signature: String::new(),
    }
}

#[test]
fn constants() {
    assert_eq!(ALPN.as_bytes(), b"netfory/api/0");
    assert_eq!(ALPN_V1.as_bytes(), b"netfory/api/1");
    assert_eq!(MAX_FRAME, 8 * 1024 * 1024);
    assert_eq!(MAX_WS_FRAME, 8 * 1024 * 1024);
    assert_eq!(DEFAULT_TTL, 5);
}

#[test]
fn new_packet() {
    let p = MeshPacket::new("node1", "GET", "/blocks", vec![1, 2]);
    assert_eq!(p.target_provider, "node1");
    assert_eq!(p.method, "GET");
    assert_eq!(p.path, "/blocks");
    assert_eq!(p.body, vec![1, 2]);
    assert!(p.headers.entries().is_empty());
    assert_eq!(p.ttl, 5);
    assert_eq!(p.request_id.len(), 24);
    let q = MeshPacket::with_id("t", "POST", "/x", vec![], "id-1".to_owned());
    assert_eq!(q.request_id, "id-1");
    let mut r = q.clone();
    r.ttl = 1;
    assert_eq!(q.ttl, 5);
    assert_eq!(r.path, "/x");
}

#[test]
fn request_ids() {
    let a = rand_id();
    assert_eq!(a.len(), 24);
    assert!(a.chars().all(|c| c.is_ascii_digit() || ('a'..='f').contains(&c)));
    assert_ne!(a, rand_id());
    assert_eq!(
        id_of_bytes(&[0, 1, 2, 0xff, 0x10, 9, 10, 11, 12, 13, 14, 0xa0]),
        "000102ff10090a0b0c0d0ea0"
    );
}

#[test]
fn headers_are_a_map_in_order() {
    let mut h = Headers::new();
    h.insert("b".to_owned(), "1".to_owned());
    h.insert("a".to_owned(), "2".to_owned());
    h.insert("c".to_owned(), "3".to_owned());
    h.insert("b".to_owned(), "4".to_owned());
    h.insert("B".to_owned(), "5".to_owned());
    let got: Vec<(&str, &str)> =
        h.entries().iter().map(|(k, v)| (k.as_str(), v.as_str())).collect();
    assert_eq!(got, vec![("B", "5"), ("a", "2"), ("b", "4"), ("c", "3")]);
    assert_eq!(h.clone().entries().len(), 4);
}

#[test]
fn canonical_bytes_of_a_response() {
    let r = response("id", 0x01c8, 0x0102030405060708, b"body");
    let mut expected = b"id|".to_vec();
    expected.extend_from_slice(&[0x01, 0xc8]);
    expected.push(b'|');
    expected.extend_from_slice(&[1, 2, 3, 4, 5, 6, 7, 8]);
    expected.push(b'|');
    expected.extend_from_slice(b"body");
    assert_eq!(r.canonical_bytes(), expected);
}

#[test]
fn canonical_bytes_tell_responses_apart() {
    let base = response("id", 200, 7, b"body").canonical_bytes();
    assert_ne!(response("ie", 200, 7, b"body").canonical_bytes(), base);
    assert_ne!(response("id", 201, 7, b"body").canonical_bytes(), base);
    assert_ne!(response("id", 200, 8, b"body").canonical_bytes(), base);
    assert_ne!(response("id", 200, 7, b"bodY").canonical_bytes(), base);
    let mut same = response("id", 200, 7, b"body");
    same.relayed = true;
    same.signature = "00".to_owned();
    same.provider_node_id = "other".to_owned();
    assert_eq!(same.canonical_bytes(), base);
}

#[test]
fn bodies_in_base64() {
    assert_eq!(body_to_base64(b"hello"), "aGVsbG8=");
    assert_eq!(body_to_base64(b""), "");
    assert_eq!(body_from_base64("aGVsbG8=").unwrap(), b"hello");
    assert!(body_from_base64("aGVsbG8").is_err());
    assert!(body_from_base64("*").is_err());
    let all: Vec<u8> = (0..=255).collect();
    assert_eq!(body_from_base64(&body_to_base64(&all)).unwrap(), all);
}

#[test]
fn base64_groups_and_padding() {
    let texts = ["Zg==", "Zm8=", "Zm9v", "Zm9vYg==", "Zm9vYmE=", "Zm9vYmFy"];
    for (n, text) in texts.iter().enumerate() {
        let body = &b"foobar"[..n + 1];
        assert_eq!(body_to_base64(body), *text);
        assert_eq!(body_from_base64(text).unwrap(), body);
    }
    assert_eq!(body_to_base64(&[0, 16, 131, 251, 255, 254]), "ABCD+//+");
    assert_eq!(body_from_base64("").unwrap(), b"");
}

#[test]
fn no_other_base64_is_read() {
    for text in ["Zg", "Zg=", "Zh==", "Zm9=", "Zm9v\n", "-__-", "Zg==Zg==", "=", "====", "Zm9vY", "é"] {
        assert!(body_from_base64(text).is_err(), "{text}");
    }
}

#[test]
fn handshake_round_trip() {
    let out = write_handshake_v1(b"{}").unwrap();
    assert_eq!(out, vec![2, 0, 0, 0, b'{', b'}']);
    assert!(matches!(read_handshake_v1(&out, false), Ok(HandshakeRead::Ready(j)) if j == b"{}"));
    let mut more = out.clone();
    more.extend_from_slice(b"frames");
    assert!(matches!(read_handshake_v1(&more, false), Ok(HandshakeRead::Ready(j)) if j == b"{}"));
}

#[test]
fn handshake_in_pieces() {
    let out = write_handshake_v1(&[7u8; 300]).unwrap();
    let mut got: Vec<u8> = Vec::new();
    let mut asked = Vec::new();
    let json = loop {
        match read_handshake_v1(&got, false).unwrap() {
            HandshakeRead::More(n) => {
                asked.push(n);
                let at = got.len();
                got.extend_from_slice(&out[at..at + n]);
            }
            HandshakeRead::Ready(json) => break json,
        }
    };
    assert_eq!(asked, vec![4, 300]);
    assert_eq!(json, vec![7u8; 300]);
}

#[test]
fn handshake_errors() {
    assert!(matches!(read_handshake_v1(&[0, 0, 0, 0], false), Err(HandshakeError::LengthOutOfRange(0))));
    let over = (MAX_FRAME as u32 + 1).to_le_bytes();
    assert!(matches!(read_handshake_v1(&over, false), Err(HandshakeError::LengthOutOfRange(n)) if n == MAX_FRAME + 1));
    assert!(matches!(read_handshake_v1(&(MAX_FRAME as u32).to_le_bytes(), false), Ok(HandshakeRead::More(n)) if n == MAX_FRAME));
    assert!(matches!(read_handshake_v1(&[], true), Err(HandshakeError::UnexpectedEof)));
    assert!(matches!(read_handshake_v1(&[2, 0, 0, 0, b'{'], true), Err(HandshakeError::UnexpectedEof)));
    assert!(matches!(write_handshake_v1(&vec![0; MAX_FRAME + 1]), Err(HandshakeError::TooBig(n)) if n == MAX_FRAME + 1));
    assert!(write_handshake_v1(&vec![0; MAX_FRAME]).is_ok());
    assert_eq!(write_handshake_v1(b"").unwrap(), vec![0, 0, 0, 0]);
}

#[test]
fn encoded_frames() {
    assert_eq!(WsFrame::Text("hi".to_owned()).encode(), vec![1, 2, 0, 0, 0, b'h', b'i']);
    assert_eq!(WsFrame::Binary(vec![9]).encode(), vec![2, 1, 0, 0, 0, 9]);
    assert_eq!(WsFrame::Ping(vec![]).encode(), vec![9, 0, 0, 0, 0]);
    assert_eq!(WsFrame::Pong(vec![1]).encode(), vec![10, 1, 0, 0, 0, 1]);
    assert_eq!(
        WsFrame::Close { code: 1000, reason: "ok".to_owned() }.encode(),
        vec![8, 4, 0, 0, 0, 0x03, 0xe8, b'o', b'k']
    );
    let long = WsFrame::Binary(vec![0; 0x01_0203]).encode();
    assert_eq!(&long[..5], &[2, 0x03, 0x02, 0x01, 0]);
}

#[test]
fn frames_round_trip() {
    let frames = [
        WsFrame::Text("привет".to_owned()),
        WsFrame::Text(String::new()),
        WsFrame::Binary((0..=255).collect()),
        WsFrame::Ping(vec![1, 2, 3]),
        WsFrame::Pong(vec![]),
        WsFrame::Close { code: 1011, reason: "ошибка".to_owned() },
    ];
    for f in &frames {
        let mut bytes = f.encode();
        bytes.extend_from_slice(&[1, 2, 3]);
        match WsFrame::read_from(&bytes, false) {
            Ok(WsRead::Frame(back)) => assert_eq!(back.encode(), f.encode()),
            other => panic!("{other:?}"),
        }
    }
}

#[test]
fn frame_in_pieces() {
    let out = WsFrame::Binary(vec![5; 70]).encode();
    assert!(matches!(WsFrame::read_from(&out[..0], false), Ok(WsRead::More(5))));
    assert!(matches!(WsFrame::read_from(&out[..3], false), Ok(WsRead::More(2))));
    assert!(matches!(WsFrame::read_from(&out[..5], false), Ok(WsRead::More(70))));
    assert!(matches!(WsFrame::read_from(&out[..74], false), Ok(WsRead::More(1))));
}

#[test]
fn end_of_stream_is_clean_only_between_frames() {
    let out = WsFrame::Binary(vec![5; 7]).encode();
    assert!(matches!(WsFrame::read_from(&[], true), Ok(WsRead::End)));
    for n in 1..out.len() {
        assert!(matches!(WsFrame::read_from(&out[..n], true), Err(WsError::UnexpectedEof)), "{n}");
    }
    assert!(matches!(WsFrame::read_from(&out, true), Ok(WsRead::Frame(WsFrame::Binary(_)))));
}

#[test]
fn malformed_frames() {
    assert!(matches!(WsFrame::read_from(&[3, 0, 0, 0, 0], false), Err(WsError::UnknownKind(3))));
    assert!(matches!(WsFrame::read_from(&[1, 1, 0, 0, 0, 0xff], false), Err(WsError::InvalidUtf8)));
    let mut over = vec![2];
    over.extend_from_slice(&(MAX_WS_FRAME as u32 + 1).to_le_bytes());
    assert!(matches!(WsFrame::read_from(&over, false), Err(WsError::TooBig(n)) if n == MAX_WS_FRAME + 1));
    // An unknown kind is told only once the payload is there.
    assert!(matches!(WsFrame::read_from(&[3, 1, 0, 0, 0], false), Ok(WsRead::More(1))));
}

#[test]
fn close_frames() {
    match WsFrame::read_from(&[8, 1, 0, 0, 0, 3], false) {
        Ok(WsRead::Frame(WsFrame::Close { code, reason })) => {
            assert_eq!(code, 1005);
            assert_eq!(reason, "");
        }
        other => panic!("{other:?}"),
    }
    match WsFrame::read_from(&[8, 4, 0, 0, 0, 0x03, 0xf3, b'a', 0xff], false) {
        Ok(WsRead::Frame(WsFrame::Close { code, reason })) => {
            assert_eq!(code, 1011);
            assert_eq!(reason, "a\u{fffd}");
        }
        other => panic!("{other:?}"),
    }
}
