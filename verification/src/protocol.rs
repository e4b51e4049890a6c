//! The `api://` protocol: packets, signed responses, the length-prefixed handshake and the frames
//! of a WebSocket tunnel.
//!
//! On a stream of version 0 the request is a JSON packet that ends with the stream. On a stream of
//! version 1 the packet is prefixed by its length, and frames may follow it.
use crate::bytes;
use crate::encoding;
use crate::headers;
use crate::hexadecimal;
use vstd::prelude::*;

pub mod ws_kind;

verus! {

/// The protocol name of version 0: raw JSON up to the end of the stream.
pub const ALPN: &'static str = "netfory/api/0";

/// The protocol name of version 1: a length-prefixed handshake, and tunnels.
pub const ALPN_V1: &'static str = "netfory/api/1";

/// The largest packet or response on a stream, in bytes.
pub const MAX_FRAME: usize = 8 * 1024 * 1024;

/// The number of hops that a new packet may still take.
pub const DEFAULT_TTL: u8 = 5;

/// The largest payload of a tunnel frame, in bytes.
pub const MAX_WS_FRAME: usize = 8 * 1024 * 1024;

/// The status code of a close frame that carries none.
pub const NO_STATUS: u16 = 1005;

/// A request. It may pass from node to node as long as `ttl` allows.
#[derive(Debug)]
pub struct MeshPacket {
    /// The name of the endpoint that is asked; empty for the default endpoint.
    pub target_provider: String,
    /// The HTTP method of the call, or `WS` for a tunnel.
    pub method: String,
    /// The path that follows the endpoint's base URL.
    pub path: String,
    /// The body of the HTTP request.
    pub body: Vec<u8>,
    /// The HTTP headers of the client.
    pub headers: headers::Headers,
    /// The number of hops that are still allowed.
    pub ttl: u8,
    /// The id by which a response is matched to its request.
    pub request_id: String,
}

/// What a packet holds.
pub struct PacketView {
    pub target_provider: Seq<char>,
    pub method: Seq<char>,
    pub path: Seq<char>,
    pub body: Seq<u8>,
    pub headers: Seq<headers::HeaderView>,
    pub ttl: u8,
    pub request_id: Seq<char>,
}

impl View for MeshPacket {
    type V = PacketView;

    open spec fn view(&self) -> PacketView {
        PacketView {
            target_provider: self.target_provider@,
            method: self.method@,
            path: self.path@,
            body: self.body@,
            headers: self.headers@,
            ttl: self.ttl,
            request_id: self.request_id@,
        }
    }
}

/// Whether `s` is made of 24 lower-case hexadecimal digits.
pub open spec fn is_request_id(s: Seq<char>) -> bool {
    &&& s.len() == 24
    &&& forall|i: int|
        0 <= i < s.len() ==> '0' <= #[trigger] s[i] <= '9' || 'a' <= s[i] <= 'f'
}

impl MeshPacket {
    /// A new request with a random id.
    pub fn new(target: &str, method: &str, path: &str, body: Vec<u8>) -> (r: MeshPacket)
        ensures
            r@ == (PacketView {
                target_provider: target@,
                method: method@,
                path: path@,
                body: body@,
                headers: Seq::empty(),
                ttl: DEFAULT_TTL,
                request_id: r.request_id@,
            }),
            is_request_id(r.request_id@),
    {
        MeshPacket::with_id(target, method, path, body, rand_id())
    }

    /// A new request with the id `request_id`.
    pub fn with_id(
        target: &str,
        method: &str,
        path: &str,
        body: Vec<u8>,
        request_id: String,
    ) -> (r: MeshPacket)
        ensures
            r@ == (PacketView {
                target_provider: target@,
                method: method@,
                path: path@,
                body: body@,
                headers: Seq::empty(),
                ttl: DEFAULT_TTL,
                request_id: request_id@,
            }),
    {
        MeshPacket {
            target_provider: target.to_owned(),
            method: method.to_owned(),
            path: path.to_owned(),
            body,
            headers: headers::Headers::new(),
            ttl: DEFAULT_TTL,
            request_id,
        }
    }
}

impl Clone for MeshPacket {
    fn clone(&self) -> (r: MeshPacket)
        ensures
            r@ == self@,
    {
        let body = bytes::copy_range(self.body.as_slice(), 0, self.body.len());
        assert(body@ == self.body@);
        MeshPacket {
            target_provider: self.target_provider.clone(),
            method: self.method.clone(),
            path: self.path.clone(),
            body,
            headers: self.headers.clone(),
            ttl: self.ttl,
            request_id: self.request_id.clone(),
        }
    }
}

/// A response with the signature of the node that made it.
#[derive(Debug)]
pub struct SignedResponse {
    /// The name of the node that made the local call; the key that verifies the signature.
    pub provider_node_id: String,
    /// The id of the request.
    pub request_id: String,
    /// The HTTP status of the local call.
    pub status: u16,
    /// The body of the response.
    pub body: Vec<u8>,
    /// The time of signing, in seconds of Unix time.
    pub signed_at: u64,
    /// Whether the response came through another node.
    pub relayed: bool,
    /// The signature over the canonical bytes, in hexadecimal.
    pub signature: String,
}

/// The byte that separates the parts of canonical bytes.
pub const BAR: u8 = 0x7c;

/// The bytes of a response that its signature covers:
/// `request_id | status | signed_at | body`, the numbers with the most significant byte first.
pub open spec fn response_bytes(
    request_id: Seq<char>,
    status: u16,
    signed_at: u64,
    body: Seq<u8>,
) -> Seq<u8> {
    encoding::utf8(request_id).push(BAR) + bytes::be_bytes(status as nat, 2).push(BAR)
        + bytes::be_bytes(signed_at as nat, 8).push(BAR) + body
}

impl SignedResponse {
    /// The bytes that the signature covers. They depend neither on the order of JSON fields nor on
    /// the fields `provider_node_id`, `relayed` and `signature`.
    pub fn canonical_bytes(&self) -> (r: Vec<u8>)
        ensures
            r@ == response_bytes(self.request_id@, self.status, self.signed_at, self.body@),
    {
        let mut m: Vec<u8> = Vec::new();
        bytes::push_slice(&mut m, self.request_id.as_str().as_bytes());
        m.push(BAR);
        bytes::push_be(&mut m, self.status as u64, 2);
        m.push(BAR);
        bytes::push_be(&mut m, self.signed_at, 8);
        m.push(BAR);
        bytes::push_slice(&mut m, self.body.as_slice());
        assert(m@ == response_bytes(self.request_id@, self.status, self.signed_at, self.body@));
        m
    }
}

/// Two heads without the separator, each followed by it, that begin equal texts are equal.
pub proof fn lemma_head_before_bar(a: Seq<u8>, x: Seq<u8>, b: Seq<u8>, y: Seq<u8>)
    requires
        a.push(BAR) + x == b.push(BAR) + y,
        !a.contains(BAR) && !b.contains(BAR) || a.len() == b.len(),
    ensures
        a == b,
        x == y,
{
    let s = a.push(BAR) + x;
    let t = b.push(BAR) + y;
    assert(s[a.len() as int] == BAR);
    assert(t[b.len() as int] == BAR);
    if a.len() < b.len() {
        assert(t[a.len() as int] == b[a.len() as int]);
        assert(b.contains(BAR));
    } else if b.len() < a.len() {
        assert(s[b.len() as int] == a[b.len() as int]);
        assert(a.contains(BAR));
    }
    assert forall|i: int| 0 <= i < a.len() implies a[i] == b[i] by {
        assert(s[i] == a[i]);
        assert(t[i] == b[i]);
    }
    assert(a == b);
    assert(s.len() == a.len() + 1 + x.len());
    assert(t.len() == b.len() + 1 + y.len());
    assert forall|i: int| 0 <= i < x.len() implies x[i] == y[i] by {
        assert(s[a.len() + 1 + i] == x[i]);
        assert(t[a.len() + 1 + i] == y[i]);
    }
    assert(x == y);
}

/// The canonical bytes of a response determine every field that they cover, for ids of one
/// length and for ids without the separator.
pub proof fn law_response_bytes_injective(
    id1: Seq<char>,
    status1: u16,
    at1: u64,
    body1: Seq<u8>,
    id2: Seq<char>,
    status2: u16,
    at2: u64,
    body2: Seq<u8>,
)
    requires
        response_bytes(id1, status1, at1, body1) == response_bytes(id2, status2, at2, body2),
        !id1.contains('|') && !id2.contains('|') || encoding::utf8(id1).len() == encoding::utf8(
            id2,
        ).len(),
    ensures
        id1 == id2,
        status1 == status2,
        at1 == at2,
        body1 == body2,
{
    if !id1.contains('|') && !id2.contains('|') {
        encoding::lemma_ascii_byte(id1, '|');
        encoding::lemma_ascii_byte(id2, '|');
    }
    let s1 = bytes::be_bytes(status1 as nat, 2);
    let s2 = bytes::be_bytes(status2 as nat, 2);
    let t1 = bytes::be_bytes(at1 as nat, 8);
    let t2 = bytes::be_bytes(at2 as nat, 8);
    let y1 = t1.push(BAR) + body1;
    let y2 = t2.push(BAR) + body2;
    let x1 = s1.push(BAR) + y1;
    let x2 = s2.push(BAR) + y2;
    assert(response_bytes(id1, status1, at1, body1) == encoding::utf8(id1).push(BAR) + x1);
    assert(response_bytes(id2, status2, at2, body2) == encoding::utf8(id2).push(BAR) + x2);
    lemma_head_before_bar(encoding::utf8(id1), x1, encoding::utf8(id2), x2);
    encoding::lemma_utf8_injective(id1, id2);
    bytes::lemma_pow256();
    bytes::law_be_value_of_bytes(status1 as nat, 2);
    bytes::law_be_value_of_bytes(status2 as nat, 2);
    bytes::law_be_value_of_bytes(at1 as nat, 8);
    bytes::law_be_value_of_bytes(at2 as nat, 8);
    lemma_head_before_bar(s1, y1, s2, y2);
    lemma_head_before_bar(t1, body1, t2, body2);
}

/// `rand::RngCore::fill_bytes` on the thread's generator fills the array with bytes drawn at
/// random; nothing can be said of them.
#[verifier::external_body]
fn random_bytes() -> (r: [u8; 12]) {
    let mut b = [0u8; 12];
    rand::RngCore::fill_bytes(&mut rand::thread_rng(), &mut b);
    b
}

/// The request id made of twelve given bytes.
pub fn id_of_bytes(b: &[u8; 12]) -> (r: String)
    ensures
        r@ == hexadecimal::hex_text(b@),
        is_request_id(r@),
{
    proof {
        hexadecimal::lemma_hex_text_digits(b@);
    }
    hexadecimal::hex_encode(b.as_slice())
}

/// A short random request id.
pub fn rand_id() -> (r: String)
    ensures
        is_request_id(r@),
{
    let b = random_bytes();
    id_of_bytes(&b)
}

/// The base64 text that stands for a body inside JSON.
pub fn body_to_base64(body: &[u8]) -> (r: String)
    ensures
        r@ == encoding::base64_text(body@),
{
    encoding::base64_encode(body)
}

/// The body that a base64 text inside JSON stands for. A text made by `body_to_base64` gives back
/// the body, and no other text stands for one.
pub fn body_from_base64(s: &str) -> (r: Result<Vec<u8>, base64::DecodeError>)
    ensures
        match r {
            Ok(body) => s@ == encoding::base64_text(body@),
            Err(_) => forall|body: Seq<u8>| s@ != #[trigger] encoding::base64_text(body),
        },
        forall|body: Seq<u8>|
            s@ == #[trigger] encoding::base64_text(body) ==> r is Ok && r->Ok_0@ == body,
{
    let r = encoding::base64_decode(s);
    proof {
        assert forall|body: Seq<u8>| s@ == #[trigger] encoding::base64_text(body) implies r is Ok
            && r->Ok_0@ == body by {
            encoding::law_base64_is_injective(r->Ok_0@, body);
        }
    }
    r
}

/// Why a handshake could not be read or written.
#[derive(Debug, Clone, Copy, PartialEq, Eq, Structural)]
pub enum HandshakeError {
    /// The stream ended inside the handshake.
    UnexpectedEof,
    /// The announced length is zero or over the limit.
    LengthOutOfRange(usize),
    /// The handshake to write is over the limit.
    TooBig(usize),
}

/// What the bytes received so far of a handshake amount to.
#[derive(Debug)]
pub enum HandshakeRead {
    /// So many more bytes have to be received.
    More(usize),
    /// The JSON of the handshake.
    Ready(Vec<u8>),
}

/// What `received`, of which `ended` tells whether the stream ended after it, amounts to: `Ok` of
/// the JSON, or of nothing while more is needed; `Err` otherwise.
pub open spec fn handshake_read(received: Seq<u8>, ended: bool) -> Result<
    Option<Seq<u8>>,
    HandshakeError,
> {
    if received.len() < 4 {
        if ended {
            Err(HandshakeError::UnexpectedEof)
        } else {
            Ok(None)
        }
    } else {
        let len = bytes::le_value(received.take(4));
        if len == 0 || len > MAX_FRAME {
            Err(HandshakeError::LengthOutOfRange(len as usize))
        } else if received.len() < 4 + len {
            if ended {
                Err(HandshakeError::UnexpectedEof)
            } else {
                Ok(None)
            }
        } else {
            Ok(Some(received.subrange(4, 4int + len)))
        }
    }
}

/// How many bytes are missing from `received`: the rest of the length, or else the rest of the
/// JSON.
pub open spec fn handshake_missing(received: Seq<u8>) -> int {
    if received.len() < 4 {
        4 - received.len()
    } else {
        4 + bytes::le_value(received.take(4)) - received.len()
    }
}

/// The bytes of a handshake: the length in four bytes, the least significant first, and the JSON.
pub open spec fn handshake_bytes(json: Seq<u8>) -> Seq<u8> {
    bytes::le_bytes(json.len(), 4) + json
}

/// Reads a length-prefixed handshake out of the bytes received so far. `ended` tells whether the
/// stream ended after them.
pub fn read_handshake_v1(received: &[u8], ended: bool) -> (r: Result<HandshakeRead, HandshakeError>)
    ensures
        match r {
            Ok(HandshakeRead::More(n)) => handshake_read(received@, ended) == Ok::<
                Option<Seq<u8>>,
                HandshakeError,
            >(None) && n == handshake_missing(received@) && n > 0,
            Ok(HandshakeRead::Ready(json)) => handshake_read(received@, ended) == Ok::<
                Option<Seq<u8>>,
                HandshakeError,
            >(Some(json@)),
            Err(e) => handshake_read(received@, ended) == Err::<Option<Seq<u8>>, HandshakeError>(e),
        },
{
    if received.len() < 4 {
        return if ended {
            Err(HandshakeError::UnexpectedEof)
        } else {
            Ok(HandshakeRead::More(4 - received.len()))
        };
    }
    assert(received@.subrange(0, 4) == received@.take(4));
    let len: usize = bytes::read_le_u32(received, 0) as usize;
    if len == 0 || len > MAX_FRAME {
        return Err(HandshakeError::LengthOutOfRange(len));
    }
    if received.len() - 4 < len {
        return if ended {
            Err(HandshakeError::UnexpectedEof)
        } else {
            Ok(HandshakeRead::More(len - (received.len() - 4)))
        };
    }
    Ok(HandshakeRead::Ready(bytes::copy_range(received, 4, 4 + len)))
}

/// The bytes to send for a length-prefixed handshake.
pub fn write_handshake_v1(json: &[u8]) -> (r: Result<Vec<u8>, HandshakeError>)
    ensures
        match r {
            Ok(out) => json@.len() <= MAX_FRAME && out@ == handshake_bytes(json@),
            Err(e) => json@.len() > MAX_FRAME && e == HandshakeError::TooBig(json@.len() as usize),
        },
{
    if json.len() > MAX_FRAME {
        return Err(HandshakeError::TooBig(json.len()));
    }
    let mut out: Vec<u8> = Vec::new();
    bytes::push_le(&mut out, json.len() as u64, 4);
    bytes::push_slice(&mut out, json);
    assert(out@ == handshake_bytes(json@));
    Ok(out)
}

/// What is written as a handshake is read back, whatever follows it. An empty one is written, but
/// refused when it is read.
pub proof fn law_handshake_read_of_written(json: Seq<u8>, rest: Seq<u8>, ended: bool)
    requires
        json.len() <= MAX_FRAME,
    ensures
        handshake_read(handshake_bytes(json) + rest, ended) == (if json.len() == 0 {
            Err::<Option<Seq<u8>>, HandshakeError>(HandshakeError::LengthOutOfRange(0))
        } else {
            Ok(Some(json))
        }),
{
    bytes::lemma_pow256();
    bytes::law_le_value_of_bytes(json.len(), 4);
    let s = handshake_bytes(json) + rest;
    assert(s.take(4) == bytes::le_bytes(json.len(), 4));
    assert(s.subrange(4, 4int + json.len()) == json);
}

/// A handshake that comes in pieces: as long as bytes are missing, exactly the missing ones are
/// asked for, and never one of what follows the handshake.
pub proof fn law_handshake_read_asks_no_more(json: Seq<u8>, n: int)
    requires
        0 < json.len() <= MAX_FRAME,
        0 <= n < handshake_bytes(json).len(),
    ensures
        handshake_read(handshake_bytes(json).take(n), false) == Ok::<
            Option<Seq<u8>>,
            HandshakeError,
        >(None),
        0 < handshake_missing(handshake_bytes(json).take(n)) <= handshake_bytes(json).len() - n,
{
    bytes::lemma_pow256();
    bytes::law_le_value_of_bytes(json.len(), 4);
    let s = handshake_bytes(json).take(n);
    if n >= 4 {
        assert(s.take(4) == bytes::le_bytes(json.len(), 4));
    }
}

/// A frame between client and provider inside a tunnel. Close codes follow RFC 6455.
#[derive(Debug)]
pub enum WsFrame {
    Text(String),
    Binary(Vec<u8>),
    Ping(Vec<u8>),
    Pong(Vec<u8>),
    Close { code: u16, reason: String },
}

/// What a frame holds.
pub enum WsFrameView {
    Text(Seq<char>),
    Binary(Seq<u8>),
    Ping(Seq<u8>),
    Pong(Seq<u8>),
    Close { code: u16, reason: Seq<char> },
}

impl View for WsFrame {
    type V = WsFrameView;

    open spec fn view(&self) -> WsFrameView {
        match self {
            WsFrame::Text(s) => WsFrameView::Text(s@),
            WsFrame::Binary(b) => WsFrameView::Binary(b@),
            WsFrame::Ping(b) => WsFrameView::Ping(b@),
            WsFrame::Pong(b) => WsFrameView::Pong(b@),
            WsFrame::Close { code, reason } => WsFrameView::Close { code: *code, reason: reason@ },
        }
    }
}

/// Why a frame could not be read.
#[derive(Debug, Clone, Copy, PartialEq, Eq, Structural)]
pub enum WsError {
    /// The stream ended inside a frame.
    UnexpectedEof,
    /// The announced length is over the limit.
    TooBig(usize),
    /// A text frame does not hold UTF-8.
    InvalidUtf8,
    /// No frame has this kind.
    UnknownKind(u8),
}

/// What the bytes received so far of a frame amount to.
#[derive(Debug)]
pub enum WsRead {
    /// The stream ended between two frames.
    End,
    /// So many more bytes have to be received.
    More(usize),
    /// The frame.
    Frame(WsFrame),
}

/// What the bytes received so far of a frame amount to.
pub enum WsReadView {
    End,
    More(int),
    Frame(WsFrameView),
}

impl View for WsRead {
    type V = WsReadView;

    open spec fn view(&self) -> WsReadView {
        match self {
            WsRead::End => WsReadView::End,
            WsRead::More(n) => WsReadView::More(*n as int),
            WsRead::Frame(f) => WsReadView::Frame(f@),
        }
    }
}

/// The kind byte of a frame.
pub open spec fn frame_kind(f: WsFrameView) -> u8 {
    match f {
        WsFrameView::Text(_) => ws_kind::TEXT,
        WsFrameView::Binary(_) => ws_kind::BINARY,
        WsFrameView::Ping(_) => ws_kind::PING,
        WsFrameView::Pong(_) => ws_kind::PONG,
        WsFrameView::Close { code, reason } => ws_kind::CLOSE,
    }
}

/// The payload of a frame. A close frame has its code in two bytes, the most significant first,
/// and then its reason.
pub open spec fn frame_payload(f: WsFrameView) -> Seq<u8> {
    match f {
        WsFrameView::Text(s) => encoding::utf8(s),
        WsFrameView::Binary(b) => b,
        WsFrameView::Ping(b) => b,
        WsFrameView::Pong(b) => b,
        WsFrameView::Close { code, reason } => bytes::be_bytes(code as nat, 2) + encoding::utf8(
            reason,
        ),
    }
}

/// The bytes of a frame: its kind, the length of its payload in four bytes, the least significant
/// first, and its payload.
pub open spec fn frame_bytes(f: WsFrameView) -> Seq<u8> {
    seq![frame_kind(f)] + bytes::le_bytes(frame_payload(f).len(), 4) + frame_payload(f)
}

/// The frame of kind `kind` with the payload `payload`.
pub open spec fn frame_of(kind: u8, payload: Seq<u8>) -> Result<WsFrameView, WsError> {
    if kind == ws_kind::TEXT {
        if vstd::utf8::valid_utf8(payload) {
            Ok(WsFrameView::Text(vstd::utf8::decode_utf8(payload)))
        } else {
            Err(WsError::InvalidUtf8)
        }
    } else if kind == ws_kind::BINARY {
        Ok(WsFrameView::Binary(payload))
    } else if kind == ws_kind::PING {
        Ok(WsFrameView::Ping(payload))
    } else if kind == ws_kind::PONG {
        Ok(WsFrameView::Pong(payload))
    } else if kind == ws_kind::CLOSE {
        if payload.len() >= 2 {
            Ok(
                WsFrameView::Close {
                    code: bytes::be_value(payload.take(2)) as u16,
                    reason: encoding::lossy_text(payload.skip(2)),
                },
            )
        } else {
            Ok(WsFrameView::Close { code: NO_STATUS, reason: Seq::empty() })
        }
    } else {
        Err(WsError::UnknownKind(kind))
    }
}

/// What `received`, of which `ended` tells whether the stream ended after it, amounts to.
pub open spec fn frame_read(received: Seq<u8>, ended: bool) -> Result<WsReadView, WsError> {
    if received.len() < 5 {
        if !ended {
            Ok(WsReadView::More(5 - received.len()))
        } else if received.len() == 0 {
            Ok(WsReadView::End)
        } else {
            Err(WsError::UnexpectedEof)
        }
    } else {
        let len = bytes::le_value(received.subrange(1, 5));
        if len > MAX_WS_FRAME {
            Err(WsError::TooBig(len as usize))
        } else if received.len() < 5 + len {
            if ended {
                Err(WsError::UnexpectedEof)
            } else {
                Ok(WsReadView::More(5 + len - received.len()))
            }
        } else {
            match frame_of(received[0], received.subrange(5, 5int + len)) {
                Ok(f) => Ok(WsReadView::Frame(f)),
                Err(e) => Err(e),
            }
        }
    }
}

impl WsFrame {
    /// The bytes of the frame.
    pub fn encode(&self) -> (r: Vec<u8>)
        ensures
            r@ == frame_bytes(self@),
    {
        let mut payload: Vec<u8> = Vec::new();
        let kind: u8 = match self {
            WsFrame::Text(s) => {
                bytes::push_slice(&mut payload, s.as_str().as_bytes());
                ws_kind::TEXT
            },
            WsFrame::Binary(b) => {
                bytes::push_slice(&mut payload, b.as_slice());
                ws_kind::BINARY
            },
            WsFrame::Ping(b) => {
                bytes::push_slice(&mut payload, b.as_slice());
                ws_kind::PING
            },
            WsFrame::Pong(b) => {
                bytes::push_slice(&mut payload, b.as_slice());
                ws_kind::PONG
            },
            WsFrame::Close { code, reason } => {
                bytes::push_be(&mut payload, *code as u64, 2);
                bytes::push_slice(&mut payload, reason.as_str().as_bytes());
                ws_kind::CLOSE
            },
        };
        assert(payload@ == frame_payload(self@));
        let mut out: Vec<u8> = Vec::new();
        out.push(kind);
        bytes::push_le(&mut out, payload.len() as u64, 4);
        bytes::push_slice(&mut out, payload.as_slice());
        assert(out@ == frame_bytes(self@));
        out
    }

    /// The frame of kind `kind` with the payload `payload`.
    pub fn decode(kind: u8, payload: Vec<u8>) -> (r: Result<WsFrame, WsError>)
        ensures
            match r {
                Ok(f) => frame_of(kind, payload@) == Ok::<WsFrameView, WsError>(f@),
                Err(e) => frame_of(kind, payload@) == Err::<WsFrameView, WsError>(e),
            },
    {
        if kind == ws_kind::TEXT {
            match encoding::string_from_utf8(payload) {
                Some(s) => Ok(WsFrame::Text(s)),
                None => Err(WsError::InvalidUtf8),
            }
        } else if kind == ws_kind::BINARY {
            Ok(WsFrame::Binary(payload))
        } else if kind == ws_kind::PING {
            Ok(WsFrame::Ping(payload))
        } else if kind == ws_kind::PONG {
            Ok(WsFrame::Pong(payload))
        } else if kind == ws_kind::CLOSE {
            if payload.len() >= 2 {
                assert(payload@.subrange(0, 2) == payload@.take(2));
                let code: u16 = bytes::read_be_u16(payload.as_slice(), 0);
                let rest = bytes::copy_range(payload.as_slice(), 2, payload.len());
                assert(rest@ == payload@.skip(2));
                let reason = encoding::string_from_utf8_lossy(rest.as_slice());
                Ok(WsFrame::Close { code, reason })
            } else {
                Ok(WsFrame::Close { code: NO_STATUS, reason: String::new() })
            }
        } else {
            Err(WsError::UnknownKind(kind))
        }
    }

    /// Reads one frame out of the bytes received so far. `ended` tells whether the stream ended
    /// after them. The end is clean only between two frames.
    pub fn read_from(received: &[u8], ended: bool) -> (r: Result<WsRead, WsError>)
        ensures
            match r {
                Ok(read) => frame_read(received@, ended) == Ok::<WsReadView, WsError>(read@),
                Err(e) => frame_read(received@, ended) == Err::<WsReadView, WsError>(e),
            },
    {
        if received.len() < 5 {
            return if !ended {
                Ok(WsRead::More(5 - received.len()))
            } else if received.len() == 0 {
                Ok(WsRead::End)
            } else {
                Err(WsError::UnexpectedEof)
            };
        }
        let len: usize = bytes::read_le_u32(received, 1) as usize;
        if len > MAX_WS_FRAME {
            return Err(WsError::TooBig(len));
        }
        if received.len() - 5 < len {
            return if ended {
                Err(WsError::UnexpectedEof)
            } else {
                Ok(WsRead::More(len - (received.len() - 5)))
            };
        }
        match WsFrame::decode(received[0], bytes::copy_range(received, 5, 5 + len)) {
            Ok(f) => Ok(WsRead::Frame(f)),
            Err(e) => Err(e),
        }
    }
}

/// An encoded frame is read back, whatever follows it, as long as its payload keeps to the limit.
pub proof fn law_frame_read_of_encoded(f: WsFrameView, rest: Seq<u8>, ended: bool)
    requires
        frame_payload(f).len() <= MAX_WS_FRAME,
    ensures
        frame_read(frame_bytes(f) + rest, ended) == Ok::<WsReadView, WsError>(WsReadView::Frame(f)),
{
    bytes::lemma_pow256();
    let payload = frame_payload(f);
    bytes::law_le_value_of_bytes(payload.len(), 4);
    let s = frame_bytes(f) + rest;
    assert(s.subrange(1, 5) == bytes::le_bytes(payload.len(), 4));
    assert(s.subrange(5, 5int + payload.len()) == payload);
    assert(s[0] == frame_kind(f));
    match f {
        WsFrameView::Text(t) => {
            vstd::utf8::encode_utf8_valid_utf8(t);
            vstd::utf8::encode_utf8_decode_utf8(t);
        },
        WsFrameView::Close { code, reason } => {
            vstd::utf8::encode_utf8_valid_utf8(reason);
            vstd::utf8::encode_utf8_decode_utf8(reason);
            bytes::law_be_value_of_bytes(code as nat, 2);
            assert(payload.take(2) == bytes::be_bytes(code as nat, 2));
            assert(payload.skip(2) == encoding::utf8(reason));
        },
        _ => {},
    }
}

/// A frame that comes in pieces: as long as bytes are missing, exactly the missing ones are asked
/// for, and never one of what follows the frame.
pub proof fn law_frame_read_asks_no_more(f: WsFrameView, n: int)
    requires
        frame_payload(f).len() <= MAX_WS_FRAME,
        0 <= n < frame_bytes(f).len(),
    ensures
        frame_read(frame_bytes(f).take(n), false) matches Ok(WsReadView::More(k)) && 0 < k
            <= frame_bytes(f).len() - n,
{
    bytes::lemma_pow256();
    let payload = frame_payload(f);
    bytes::law_le_value_of_bytes(payload.len(), 4);
    let s = frame_bytes(f).take(n);
    if n >= 5 {
        assert(s.subrange(1, 5) == bytes::le_bytes(payload.len(), 4));
    }
}

/// A stream that ends inside a frame is an error, and no clean end.
pub proof fn law_truncated_frame_is_refused(f: WsFrameView, n: int)
    requires
        frame_payload(f).len() <= MAX_WS_FRAME,
        0 < n < frame_bytes(f).len(),
    ensures
        frame_read(frame_bytes(f).take(n), true) == Err::<WsReadView, WsError>(
            WsError::UnexpectedEof,
        ),
{
    bytes::lemma_pow256();
    let payload = frame_payload(f);
    bytes::law_le_value_of_bytes(payload.len(), 4);
    let s = frame_bytes(f).take(n);
    if n >= 5 {
        assert(s.subrange(1, 5) == bytes::le_bytes(payload.len(), 4));
    }
}

/// The bytes of a response that its signature covers, one by one: the id, then the status in two
/// bytes and the time in eight, the most significant first, each after a bar, and after another bar
/// the body as it is.
pub proof fn law_response_layout(request_id: Seq<char>, status: u16, signed_at: u64, body: Seq<u8>)
    ensures
        response_bytes(request_id, status, signed_at, body) == vstd::utf8::encode_utf8(request_id)
            + seq![
            0x7cu8,
            (status / 0x100) as u8,
            (status % 0x100) as u8,
            0x7c,
            (signed_at / 0x100_0000_0000_0000) as u8,
            (signed_at / 0x1_0000_0000_0000 % 0x100) as u8,
            (signed_at / 0x100_0000_0000 % 0x100) as u8,
            (signed_at / 0x1_0000_0000 % 0x100) as u8,
            (signed_at / 0x100_0000 % 0x100) as u8,
            (signed_at / 0x1_0000 % 0x100) as u8,
            (signed_at / 0x100 % 0x100) as u8,
            (signed_at % 0x100) as u8,
            0x7c,
        ] + body,
{
    bytes::law_two_bytes(status);
    bytes::law_eight_bytes(signed_at);
}

/// A request id is made of 24 digits of lower-case hexadecimal.
pub proof fn law_request_id_digits(s: Seq<char>)
    ensures
        is_request_id(s) <==> s.len() == 24 && forall|i: int|
            0 <= i < s.len() ==> "0123456789abcdef"@.contains(#[trigger] s[i]),
{
    reveal_strlit("0123456789abcdef");
    let digits = "0123456789abcdef"@;
    assert forall|c: char| ('0' <= c <= '9' || 'a' <= c <= 'f') <==> #[trigger] digits.contains(
        c,
    ) by {
        if '0' <= c <= '9' {
            assert(digits[c as int - 48] == c);
        } else if 'a' <= c <= 'f' {
            assert(digits[c as int - 87] == c);
        }
    }
}

/// The bytes of a handshake, one by one: the length of the JSON in four bytes, the least
/// significant first, and the JSON as it is.
pub proof fn law_handshake_layout(json: Seq<u8>)
    requires
        json.len() <= u32::MAX,
    ensures
        ({
            let b = handshake_bytes(json);
            &&& b.len() == 4 + json.len()
            &&& b[0] + 0x100 * b[1] + 0x1_0000 * b[2] + 0x100_0000 * b[3] == json.len()
            &&& b.skip(4) == json
        }),
{
    bytes::law_four_bytes(json.len() as u32);
    assert(handshake_bytes(json).skip(4) == json);
}

/// What is received of a handshake: after the length `n`, which is at least 1 and at most 8 MiB,
/// come the `n` bytes of the JSON. Until they are there exactly the missing bytes are asked for,
/// and a stream that ends before is an error.
pub proof fn law_received_handshake(received: Seq<u8>, ended: bool)
    ensures
        received.len() < 4 ==> handshake_missing(received) == 4 - received.len(),
        received.len() < 4 ==> handshake_read(received, ended) == (if ended {
            Err::<Option<Seq<u8>>, HandshakeError>(HandshakeError::UnexpectedEof)
        } else {
            Ok(None)
        }),
        received.len() >= 4 ==> ({
            let n = received[0] + 0x100 * received[1] + 0x1_0000 * received[2] + 0x100_0000
                * received[3];
            let r = handshake_read(received, ended);
            &&& n == 0 || n > 0x80_0000 ==> r == Err::<Option<Seq<u8>>, HandshakeError>(
                HandshakeError::LengthOutOfRange(n as usize),
            )
            &&& 0 < n <= 0x80_0000 && received.len() >= 4 + n ==> r == Ok::<
                Option<Seq<u8>>,
                HandshakeError,
            >(Some(received.subrange(4, 4 + n)))
            &&& 0 < n <= 0x80_0000 && received.len() < 4 + n ==> handshake_missing(received) == 4
                + n - received.len()
            &&& 0 < n <= 0x80_0000 && received.len() < 4 + n && !ended ==> r == Ok::<
                Option<Seq<u8>>,
                HandshakeError,
            >(None)
            &&& 0 < n <= 0x80_0000 && received.len() < 4 + n && ended ==> r == Err::<
                Option<Seq<u8>>,
                HandshakeError,
            >(HandshakeError::UnexpectedEof)
        }),
{
    if received.len() >= 4 {
        bytes::law_value_of_bytes(received[0], received[1], received[2], received[3]);
        assert(received.take(4) == seq![received[0], received[1], received[2], received[3]]);
    }
}

/// The bytes of a frame, one by one: the opcode of RFC 6455, the length of the payload in four
/// bytes, the least significant first, and the payload. The payload is what the frame holds, in its
/// order; of a close frame it is the code, the most significant byte first, and the reason.
pub proof fn law_frame_layout(f: WsFrameView)
    requires
        frame_bytes(f).len() <= 5 + u32::MAX,
    ensures
        ({
            let b = frame_bytes(f);
            &&& b.len() >= 5
            &&& b[1] + 0x100 * b[2] + 0x1_0000 * b[3] + 0x100_0000 * b[4] == b.len() - 5
            &&& match f {
                WsFrameView::Text(s) => b[0] == 0x01 && b.skip(5) == vstd::utf8::encode_utf8(s),
                WsFrameView::Binary(x) => b[0] == 0x02 && b.skip(5) == x,
                WsFrameView::Ping(x) => b[0] == 0x09 && b.skip(5) == x,
                WsFrameView::Pong(x) => b[0] == 0x0a && b.skip(5) == x,
                WsFrameView::Close { code, reason } => {
                    &&& b[0] == 0x08
                    &&& b.len() >= 7
                    &&& 0x100 * b[5] + b[6] == code
                    &&& b.skip(7) == vstd::utf8::encode_utf8(reason)
                },
            }
        }),
{
    let b = frame_bytes(f);
    let p = frame_payload(f);
    bytes::lemma_widths(p.len(), 4);
    bytes::law_four_bytes(p.len() as u32);
    assert(b.skip(5) == p);
    if let WsFrameView::Close { code, reason } = f {
        bytes::law_two_bytes(code);
        assert(b.skip(5)[0] == b[5] && b.skip(5)[1] == b[6]);
        assert(b.skip(7) == vstd::utf8::encode_utf8(reason));
    }
}

/// What is received as a whole frame, whatever follows it: a frame holds exactly its payload, in
/// its order. The payload of a text frame is read as UTF-8 and refused where it is not; that of a
/// close frame is the code and the reason, or nothing. A byte that is no opcode is refused.
pub proof fn law_received_frame(kind: u8, payload: Seq<u8>, rest: Seq<u8>, ended: bool)
    requires
        payload.len() <= 0x80_0000,
    ensures
        ({
            let n = payload.len() as u32;
            let received = seq![
                kind,
                (n % 0x100) as u8,
                (n / 0x100 % 0x100) as u8,
                (n / 0x1_0000 % 0x100) as u8,
                (n / 0x100_0000) as u8,
            ] + payload + rest;
            let r = frame_read(received, ended);
            &&& kind == 0x01 && vstd::utf8::valid_utf8(payload) ==> (r matches Ok(
                WsReadView::Frame(WsFrameView::Text(s)),
            ) && vstd::utf8::encode_utf8(s) == payload)
            &&& kind == 0x01 && !vstd::utf8::valid_utf8(payload) ==> r == Err::<
                WsReadView,
                WsError,
            >(WsError::InvalidUtf8)
            &&& kind == 0x02 ==> r == Ok::<WsReadView, WsError>(
                WsReadView::Frame(WsFrameView::Binary(payload)),
            )
            &&& kind == 0x09 ==> r == Ok::<WsReadView, WsError>(
                WsReadView::Frame(WsFrameView::Ping(payload)),
            )
            &&& kind == 0x0a ==> r == Ok::<WsReadView, WsError>(
                WsReadView::Frame(WsFrameView::Pong(payload)),
            )
            &&& kind == 0x08 && payload.len() >= 2 ==> (r matches Ok(
                WsReadView::Frame(WsFrameView::Close { code, reason }),
            ) && code == 0x100 * payload[0] + payload[1] && (vstd::utf8::valid_utf8(payload.skip(2))
                ==> vstd::utf8::encode_utf8(reason) == payload.skip(2)) && (
            !vstd::utf8::valid_utf8(payload.skip(2)) ==> reason == encoding::replaced_text(
                payload.skip(2),
            )))
            &&& kind == 0x08 && payload.len() < 2 ==> r == Ok::<WsReadView, WsError>(
                WsReadView::Frame(WsFrameView::Close { code: 1005, reason: Seq::empty() }),
            )
            &&& kind != 0x01 && kind != 0x02 && kind != 0x08 && kind != 0x09 && kind != 0x0a ==> r
                == Err::<WsReadView, WsError>(WsError::UnknownKind(kind))
        }),
{
    let n = payload.len() as u32;
    let head = seq![
        kind,
        (n % 0x100) as u8,
        (n / 0x100 % 0x100) as u8,
        (n / 0x1_0000 % 0x100) as u8,
        (n / 0x100_0000) as u8,
    ];
    let received = head + payload + rest;
    bytes::law_value_of_bytes(head[1], head[2], head[3], head[4]);
    assert(received.subrange(1, 5) == seq![head[1], head[2], head[3], head[4]]);
    assert(received.subrange(5, 5int + payload.len()) == payload);
    law_decoded_payload(kind, payload);
}

/// What is received of a frame that is not whole: as long as the stream goes on, exactly the
/// missing bytes are asked for, of the five of the head first and then of the payload. A stream may
/// end between two frames and nowhere else. A length over 8 MiB is refused at once.
pub proof fn law_unfinished_frame(received: Seq<u8>, ended: bool)
    ensures
        received.len() < 5 ==> frame_read(received, ended) == (if !ended {
            Ok::<WsReadView, WsError>(WsReadView::More(5 - received.len()))
        } else if received.len() == 0 {
            Ok(WsReadView::End)
        } else {
            Err(WsError::UnexpectedEof)
        }),
        received.len() >= 5 ==> ({
            let n = received[1] + 0x100 * received[2] + 0x1_0000 * received[3] + 0x100_0000
                * received[4];
            let r = frame_read(received, ended);
            &&& n > 0x80_0000 ==> r == Err::<WsReadView, WsError>(WsError::TooBig(n as usize))
            &&& n <= 0x80_0000 && received.len() < 5 + n && ended ==> r == Err::<
                WsReadView,
                WsError,
            >(WsError::UnexpectedEof)
            &&& n <= 0x80_0000 && received.len() < 5 + n && !ended ==> r == Ok::<
                WsReadView,
                WsError,
            >(WsReadView::More(5 + n - received.len()))
        }),
{
    if received.len() >= 5 {
        bytes::law_value_of_bytes(received[1], received[2], received[3], received[4]);
        assert(received.subrange(1, 5) == seq![
            received[1],
            received[2],
            received[3],
            received[4],
        ]);
    }
}

/// The view of a frame has what the frame holds, of the same kind.
pub proof fn law_frame_views(s: String, b: Vec<u8>, code: u16)
    ensures
        WsFrame::Text(s)@ == WsFrameView::Text(s@),
        WsFrame::Binary(b)@ == WsFrameView::Binary(b@),
        WsFrame::Ping(b)@ == WsFrameView::Ping(b@),
        WsFrame::Pong(b)@ == WsFrameView::Pong(b@),
        (WsFrame::Close { code, reason: s })@ == (WsFrameView::Close { code, reason: s@ }),
{
}

/// The view of what was read has the view of the frame, and as many missing bytes.
pub proof fn law_read_views(f: WsFrame, n: usize)
    ensures
        WsRead::End@ == WsReadView::End,
        WsRead::More(n)@ == WsReadView::More(n as int),
        WsRead::Frame(f)@ == WsReadView::Frame(f@),
{
}

/// The view of a packet has its fields.
pub proof fn law_packet_view(p: MeshPacket)
    ensures
        p@.target_provider == p.target_provider@,
        p@.method == p.method@,
        p@.path == p.path@,
        p@.body == p.body@,
        p@.headers == p.headers@,
        p@.ttl == p.ttl,
        p@.request_id == p.request_id@,
{
}

/// A payload of any length is read by its kind: a binary frame, a ping and a pong hold it as it is,
/// a text frame holds the text that it encodes, and a close frame its code and its reason.
pub proof fn law_decoded_payload(kind: u8, payload: Seq<u8>)
    ensures
        ({
            let r = frame_of(kind, payload);
            &&& kind == 0x01 && vstd::utf8::valid_utf8(payload) ==> (r matches Ok(
                WsFrameView::Text(s),
            ) && vstd::utf8::encode_utf8(s) == payload)
            &&& kind == 0x01 && !vstd::utf8::valid_utf8(payload) ==> r == Err::<
                WsFrameView,
                WsError,
            >(WsError::InvalidUtf8)
            &&& kind == 0x02 ==> r == Ok::<WsFrameView, WsError>(WsFrameView::Binary(payload))
            &&& kind == 0x09 ==> r == Ok::<WsFrameView, WsError>(WsFrameView::Ping(payload))
            &&& kind == 0x0a ==> r == Ok::<WsFrameView, WsError>(WsFrameView::Pong(payload))
            &&& kind == 0x08 && payload.len() >= 2 ==> (r matches Ok(
                WsFrameView::Close { code, reason },
            ) && code == 0x100 * payload[0] + payload[1] && (vstd::utf8::valid_utf8(payload.skip(2))
                ==> vstd::utf8::encode_utf8(reason) == payload.skip(2)) && (
            !vstd::utf8::valid_utf8(payload.skip(2)) ==> reason == encoding::replaced_text(
                payload.skip(2),
            )))
            &&& kind == 0x08 && payload.len() < 2 ==> r == Ok::<WsFrameView, WsError>(
                WsFrameView::Close { code: 1005, reason: Seq::empty() },
            )
            &&& kind != 0x01 && kind != 0x02 && kind != 0x08 && kind != 0x09 && kind != 0x0a ==> r
                == Err::<WsFrameView, WsError>(WsError::UnknownKind(kind))
        }),
{
    if vstd::utf8::valid_utf8(payload) {
        vstd::utf8::decode_utf8_encode_utf8(payload);
    }
    if payload.len() >= 2 {
        bytes::law_value_of_bytes(payload[0], payload[1], 0, 0);
        assert(payload.take(2) == seq![payload[0], payload[1]]);
        if vstd::utf8::valid_utf8(payload.skip(2)) {
            vstd::utf8::decode_utf8_encode_utf8(payload.skip(2));
        }
    }
}

} // verus!
