//! WebSocket tunnels: what a node does with the frames of a client and with the messages of the
//! local instance.
use crate::crypto;
use crate::encoding;
use crate::headers;
use crate::http_fields;
use crate::json;
use crate::json::{Json, JsonObject, JsonView, Members};
use crate::protocol;
use crate::protocol::{WsError, WsFrame, WsFrameView};
use crate::proxy_engine;
use crate::ratelimit;
use vstd::prelude::*;

verus! {

/// The close code of an ordinary end.
pub const CLOSE_NORMAL: u16 = 1000;

/// The close code of a frame over the limit.
pub const CLOSE_TOO_BIG: u16 = 1009;

/// The close code of a fault on the side of the node.
pub const CLOSE_ERROR: u16 = 1011;

/// The number of seconds after which the call of a local instance is given up.
pub const CONNECT_TIMEOUT_SECS: u64 = 10;

/// The number of seconds after which a local instance that does not take a message is given up.
pub const SEND_TIMEOUT_SECS: u64 = 5;

/// The number of messages that may wait for a local instance.
pub const QUEUE_LEN: usize = 128;

/// The number of seconds after which a tunnel ends in any case.
pub const SESSION_SECS: u64 = 86_400;

/// How a tunnel begins.
#[derive(Debug)]
pub enum TunnelOpen {
    /// The endpoint serves no tunnels: this frame is sent, and the stream ends.
    Refused(WsFrame),
    /// The local instance is called at this URL with these headers.
    Connect { url: String, headers: Vec<(String, String)> },
}

/// Why a local instance could not be called.
#[derive(Debug)]
pub enum ConnectFailure {
    /// The call failed, for the reason given.
    Failed(String),
    /// There was no answer in time.
    TimedOut,
}

/// What came from the client.
#[derive(Debug)]
pub enum ClientEvent {
    Frame(WsFrame),
    /// The stream ended between two frames.
    End,
    /// What came is no frame.
    Malformed(WsError),
    /// The stream broke.
    Broken,
}

/// What to do with what came from the client.
#[derive(Debug)]
pub enum ClientAction {
    /// Hand the frame to the local instance, and read no more where it does not take it in time.
    ForwardInTime(WsFrame),
    /// Hand the frame to the local instance, and go on whether or not it takes it.
    Forward(WsFrame),
    /// Pass the frame over.
    Skip,
    /// Hand the frame to the local instance, and read no more.
    ForwardAndStop(WsFrame),
    /// Send the frame to the client, and read no more.
    RefuseAndStop(WsFrame),
    /// Read no more.
    Stop,
}

/// What to do with what came from the client.
pub enum ClientActionView {
    ForwardInTime(WsFrameView),
    Forward(WsFrameView),
    Skip,
    ForwardAndStop(WsFrameView),
    RefuseAndStop(WsFrameView),
    Stop,
}

impl View for ClientAction {
    type V = ClientActionView;

    open spec fn view(&self) -> ClientActionView {
        match self {
            ClientAction::ForwardInTime(f) => ClientActionView::ForwardInTime(f@),
            ClientAction::Forward(f) => ClientActionView::Forward(f@),
            ClientAction::Skip => ClientActionView::Skip,
            ClientAction::ForwardAndStop(f) => ClientActionView::ForwardAndStop(f@),
            ClientAction::RefuseAndStop(f) => ClientActionView::RefuseAndStop(f@),
            ClientAction::Stop => ClientActionView::Stop,
        }
    }
}

/// What came from the local instance.
#[derive(Debug)]
pub enum InstanceEvent {
    Text(String),
    Binary(Vec<u8>),
    Ping(Vec<u8>),
    Pong(Vec<u8>),
    /// A close message, with its code and its reason where it has them.
    Close(Option<(u16, String)>),
    /// A message of another form.
    Other,
    /// The connection ended or broke.
    Ended,
}

/// What to do with what came from the local instance.
#[derive(Debug)]
pub enum InstanceAction {
    /// Send the frame to the client, and stop where that fails.
    Send(WsFrame),
    /// Send the frame to the client, and go on though that fails.
    TrySend(WsFrame),
    /// Send the frame to the client, and stop.
    SendAndStop(WsFrame),
    /// Go on.
    Nothing,
    /// Stop.
    Stop,
}

/// What to do with what came from the local instance.
pub enum InstanceActionView {
    Send(WsFrameView),
    TrySend(WsFrameView),
    SendAndStop(WsFrameView),
    Nothing,
    Stop,
}

impl View for InstanceAction {
    type V = InstanceActionView;

    open spec fn view(&self) -> InstanceActionView {
        match self {
            InstanceAction::Send(f) => InstanceActionView::Send(f@),
            InstanceAction::TrySend(f) => InstanceActionView::TrySend(f@),
            InstanceAction::SendAndStop(f) => InstanceActionView::SendAndStop(f@),
            InstanceAction::Nothing => InstanceActionView::Nothing,
            InstanceAction::Stop => InstanceActionView::Stop,
        }
    }
}

/// The reason that a client is given where an endpoint serves no tunnels.
pub open spec fn no_tunnel_reason(target: Seq<char>) -> Seq<char> {
    "provider '"@ + target
        + "' не имеет local_ws_url в config.yaml (endpoints.<key>.local_ws_url) — WS-туннель отключён"@
}

/// How a tunnel begins, for a packet that asks for one.
pub fn open_tunnel(
    engine: &proxy_engine::ProxyEngine,
    pkt: &protocol::MeshPacket,
) -> (r: TunnelOpen)
    ensures
        match r {
            TunnelOpen::Refused(f) => {
                &&& proxy_engine::ws_url(engine.resolved(pkt.target_provider@), pkt.path@) is None
                &&& f@ == (WsFrameView::Close {
                    code: CLOSE_ERROR,
                    reason: no_tunnel_reason(pkt.target_provider@),
                })
                &&& f@->code == 1011
            },
            TunnelOpen::Connect { url, headers } => {
                &&& proxy_engine::ws_url(engine.resolved(pkt.target_provider@), pkt.path@) == Some(
                    url@,
                )
                &&& headers::header_views(headers@) == http_fields::forwarded(
                    pkt.headers@,
                    true,
                )
            },
        },
{
    match engine.ws_url_for(pkt.target_provider.as_str(), pkt.path.as_str()) {
        Some(url) => TunnelOpen::Connect {
            url,
            headers: http_fields::forward(pkt.headers.entries(), true),
        },
        None => {
            let mut reason = "provider '".to_owned();
            reason.append(pkt.target_provider.as_str());
            reason.append(
                "' не имеет local_ws_url в config.yaml (endpoints.<key>.local_ws_url) — WS-туннель отключён",
            );
            TunnelOpen::Refused(WsFrame::Close { code: CLOSE_ERROR, reason })
        },
    }
}

/// The frame that ends a tunnel where the local instance could not be called.
pub fn connect_failure_frame(failure: ConnectFailure) -> (r: WsFrame)
    ensures
        r@ == (WsFrameView::Close {
            code: CLOSE_ERROR,
            reason: match failure {
                ConnectFailure::Failed(detail) => "upstream connect: "@ + detail@,
                ConnectFailure::TimedOut => "upstream connect timeout"@,
            },
        }),
        r@->code == 1011,
{
    let reason = match failure {
        ConnectFailure::Failed(detail) => {
            let mut s = "upstream connect: ".to_owned();
            s.append(detail.as_str());
            s
        },
        ConnectFailure::TimedOut => "upstream connect timeout".to_owned(),
    };
    WsFrame::Close { code: CLOSE_ERROR, reason }
}

/// The members of the body of the first response of a tunnel.
pub open spec fn ack_members(status: u16) -> Members {
    Members::empty().insert("status"@, JsonView::UInt(status as u64))
}

/// What the first response of a tunnel says of itself.
pub open spec fn ack_view(
    engine: &proxy_engine::ProxyEngine,
    target: Seq<char>,
    status: u16,
    signed_at: u64,
) -> proxy_engine::ResponseView {
    proxy_engine::ResponseView {
        node: engine.node(),
        name: match engine.resolved(target) {
            Some(e) => e.name,
            None => target,
        },
        status,
        signed_at,
        relayed: false,
        raw: json::json_text(ack_members(status)),
    }
}

/// Whether `text` is the first response of a tunnel, and can be read as it was meant.
pub open spec fn is_ack(
    engine: &proxy_engine::ProxyEngine,
    target: Seq<char>,
    status: u16,
    signed_at: u64,
    text: Seq<u8>,
) -> bool {
    &&& proxy_engine::is_readable_response(
        ack_view(engine, target, status, signed_at),
        engine.seed(),
        text,
    )
    &&& json::json_object(ack_view(engine, target, status, signed_at).raw) == Some(
        ack_members(status),
    )
}

/// The first frame of a tunnel: a signed response like any other, whose body is JSON with the HTTP
/// status of the local instance.
pub fn handshake_ack_at(
    engine: &proxy_engine::ProxyEngine,
    target: &str,
    status: u16,
    signed_at: u64,
) -> (r: WsFrame)
    ensures
        r@ matches WsFrameView::Text(s) && is_ack(
            engine,
            target@,
            status,
            signed_at,
            encoding::utf8(s),
        ),
{
    let mut o = JsonObject::new();
    o.insert("status", Json::UInt(status as u64));
    let name = engine.name_of(target);
    let raw = o.to_bytes();
    proof {
        json::lemma_exact_text(raw@, ack_members(status));
    }
    let text = engine.finalize_at(name.as_str(), status, raw, false, signed_at);
    proof {
        vstd::utf8::decode_utf8_encode_utf8(text@);
    }
    match encoding::string_from_utf8(text) {
        Some(s) => WsFrame::Text(s),
        None => WsFrame::Text(String::new()),
    }
}

/// The first frame of a tunnel, signed now.
pub fn handshake_ack(engine: &proxy_engine::ProxyEngine, target: &str, status: u16) -> (r: WsFrame)
    ensures
        r@ is Text,
        exists|signed_at: u64| #[trigger]
            is_ack(engine, target@, status, signed_at, encoding::utf8(r@->Text_0)),
{
    let signed_at: u64 = proxy_engine::now_secs();
    handshake_ack_at(engine, target, status, signed_at)
}

/// The name under which the messages of a peer in a tunnel are limited.
pub fn limiter_key(peer: &str, target: &str) -> (r: String)
    ensures
        r@ == peer@ + ":ws:"@ + target@,
{
    let mut s = peer.to_owned();
    s.append(":ws:");
    s.append(target);
    s
}

/// The code that a close frame may carry on to the local instance: 1005, 1006 and 1015 are reserved
/// and must not be sent.
pub open spec fn sendable_code(code: u16) -> u16 {
    if code == 1005 || code == 1006 || code == 1015 {
        CLOSE_NORMAL
    } else {
        code
    }
}

/// No reserved code is sent, and any other code stays as it is.
pub proof fn law_no_reserved_code_is_sent(code: u16)
    ensures
        sendable_code(code) != 1005 && sendable_code(code) != 1006 && sendable_code(code) != 1015,
        code != 1005 && code != 1006 && code != 1015 ==> sendable_code(code) == code,
{
}

/// Whether a frame counts as a message, which is limited.
pub open spec fn is_message(f: WsFrameView) -> bool {
    f is Text || f is Binary
}

/// Whether a frame keeps to the limit, so that it can be read.
pub open spec fn fits(f: WsFrameView) -> bool {
    protocol::frame_payload(f).len() <= protocol::MAX_WS_FRAME
}

/// The frame that ends a tunnel after a frame over the limit.
pub open spec fn too_big_close() -> WsFrameView {
    WsFrameView::Close { code: CLOSE_TOO_BIG, reason: "frame too big"@ }
}

/// What to do with what came from the client, where `allowed` tells whether a message is within
/// the limit.
pub open spec fn client_action(event: ClientEvent, allowed: bool) -> ClientActionView {
    match event {
        ClientEvent::Frame(f) => match f@ {
            WsFrameView::Close { code, reason } => ClientActionView::ForwardAndStop(
                WsFrameView::Close { code: sendable_code(code), reason },
            ),
            _ => if !is_message(f@) {
                ClientActionView::Forward(f@)
            } else if allowed {
                ClientActionView::ForwardInTime(f@)
            } else {
                ClientActionView::Skip
            },
        },
        ClientEvent::End => ClientActionView::Stop,
        ClientEvent::Malformed(e) => if e is TooBig {
            ClientActionView::RefuseAndStop(too_big_close())
        } else {
            ClientActionView::Stop
        },
        ClientEvent::Broken => ClientActionView::Stop,
    }
}

fn too_big_frame() -> (r: WsFrame)
    ensures
        r@ == too_big_close(),
{
    WsFrame::Close { code: CLOSE_TOO_BIG, reason: "frame too big".to_owned() }
}

/// What to do with what came from the client at the time `now`. A message takes a token of `key`;
/// nothing else does.
pub fn client_step_at(
    limiter: &mut ratelimit::RateLimiter,
    key: &str,
    rate: u32,
    event: ClientEvent,
    now: u64,
) -> (r: ClientAction)
    ensures
        r@ == client_action(
            event,
            ratelimit::is_allowed(ratelimit::bucket_of(old(limiter)@, key@), rate, now),
        ),
        final(limiter)@ == (if event matches ClientEvent::Frame(f) && is_message(f@) {
            ratelimit::buckets_after(old(limiter)@, key@, rate, now)
        } else {
            old(limiter)@
        }),
        final(limiter).latest() == old(limiter).latest(),
        final(limiter).own_clock() == old(limiter).own_clock(),
{
    match event {
        ClientEvent::Frame(WsFrame::Close { code, reason }) => {
            let code: u16 = if code == 1005 || code == 1006 || code == 1015 {
                CLOSE_NORMAL
            } else {
                code
            };
            ClientAction::ForwardAndStop(WsFrame::Close { code, reason })
        },
        ClientEvent::Frame(WsFrame::Text(s)) => {
            if limiter.allow_at(key, rate, now) {
                ClientAction::ForwardInTime(WsFrame::Text(s))
            } else {
                ClientAction::Skip
            }
        },
        ClientEvent::Frame(WsFrame::Binary(b)) => {
            if limiter.allow_at(key, rate, now) {
                ClientAction::ForwardInTime(WsFrame::Binary(b))
            } else {
                ClientAction::Skip
            }
        },
        ClientEvent::Frame(WsFrame::Ping(b)) => ClientAction::Forward(WsFrame::Ping(b)),
        ClientEvent::Frame(WsFrame::Pong(b)) => ClientAction::Forward(WsFrame::Pong(b)),
        ClientEvent::End => ClientAction::Stop,
        ClientEvent::Malformed(e) => match e {
            WsError::TooBig(_) => ClientAction::RefuseAndStop(too_big_frame()),
            _ => ClientAction::Stop,
        },
        ClientEvent::Broken => ClientAction::Stop,
    }
}

/// The frame that stands for a message of the local instance, if one does.
pub open spec fn instance_frame(event: InstanceEvent) -> Option<WsFrameView> {
    match event {
        InstanceEvent::Text(s) => Some(WsFrameView::Text(s@)),
        InstanceEvent::Binary(b) => Some(WsFrameView::Binary(b@)),
        InstanceEvent::Ping(b) => Some(WsFrameView::Ping(b@)),
        InstanceEvent::Pong(b) => Some(WsFrameView::Pong(b@)),
        InstanceEvent::Close(Some(c)) => Some(WsFrameView::Close { code: c.0, reason: c.1@ }),
        InstanceEvent::Close(None) => Some(
            WsFrameView::Close { code: CLOSE_NORMAL, reason: Seq::empty() },
        ),
        InstanceEvent::Other => None,
        InstanceEvent::Ended => None,
    }
}

/// What to do with what came from the local instance.
pub open spec fn instance_action(event: InstanceEvent) -> InstanceActionView {
    match instance_frame(event) {
        Some(f) => if !fits(f) {
            InstanceActionView::SendAndStop(too_big_close())
        } else if is_message(f) {
            InstanceActionView::Send(f)
        } else if f is Close {
            InstanceActionView::SendAndStop(f)
        } else {
            InstanceActionView::TrySend(f)
        },
        None => if event is Ended {
            InstanceActionView::Stop
        } else {
            InstanceActionView::Nothing
        },
    }
}

/// What to do with what came from the local instance.
pub fn instance_step(event: InstanceEvent) -> (r: InstanceAction)
    ensures
        r@ == instance_action(event),
{
    match event {
        InstanceEvent::Text(s) => {
            if s.as_str().as_bytes().len() <= protocol::MAX_WS_FRAME {
                InstanceAction::Send(WsFrame::Text(s))
            } else {
                InstanceAction::SendAndStop(too_big_frame())
            }
        },
        InstanceEvent::Binary(b) => {
            if b.len() <= protocol::MAX_WS_FRAME {
                InstanceAction::Send(WsFrame::Binary(b))
            } else {
                InstanceAction::SendAndStop(too_big_frame())
            }
        },
        InstanceEvent::Ping(b) => {
            if b.len() <= protocol::MAX_WS_FRAME {
                InstanceAction::TrySend(WsFrame::Ping(b))
            } else {
                InstanceAction::SendAndStop(too_big_frame())
            }
        },
        InstanceEvent::Pong(b) => {
            if b.len() <= protocol::MAX_WS_FRAME {
                InstanceAction::TrySend(WsFrame::Pong(b))
            } else {
                InstanceAction::SendAndStop(too_big_frame())
            }
        },
        InstanceEvent::Close(Some((code, reason))) => {
            proof {
                crate::bytes::lemma_widths(code as nat, 2);
            }
            if reason.as_str().as_bytes().len() <= protocol::MAX_WS_FRAME - 2 {
                InstanceAction::SendAndStop(WsFrame::Close { code, reason })
            } else {
                InstanceAction::SendAndStop(too_big_frame())
            }
        },
        InstanceEvent::Close(None) => {
            proof {
                crate::bytes::lemma_widths(CLOSE_NORMAL as nat, 2);
                assert(encoding::utf8(Seq::<char>::empty()).len() == 0);
            }
            InstanceAction::SendAndStop(
                WsFrame::Close { code: CLOSE_NORMAL, reason: String::new() },
            )
        },
        InstanceEvent::Other => InstanceAction::Nothing,
        InstanceEvent::Ended => InstanceAction::Stop,
    }
}

/// The frame that an action sends to the client, if it sends one.
pub open spec fn sent_frame(a: InstanceActionView) -> Option<WsFrameView> {
    match a {
        InstanceActionView::Send(f) => Some(f),
        InstanceActionView::TrySend(f) => Some(f),
        InstanceActionView::SendAndStop(f) => Some(f),
        _ => None,
    }
}

/// Every frame that a tunnel sends to its client for what came from the local instance can be read
/// by the client as it was meant.
pub proof fn law_sent_frames_are_read(event: InstanceEvent, rest: Seq<u8>, ended: bool)
    ensures
        sent_frame(instance_action(event)) matches Some(f) ==> protocol::frame_read(
            protocol::frame_bytes(f) + rest,
            ended,
        ) == Ok::<protocol::WsReadView, WsError>(protocol::WsReadView::Frame(f)),
{
    if let Some(f) = sent_frame(instance_action(event)) {
        assert(fits(too_big_close())) by {
            reveal_strlit("frame too big");
            assert(vstd::string::is_ascii("frame too big"));
            vstd::utf8::is_ascii_chars_encode_utf8("frame too big"@);
            crate::bytes::lemma_widths(CLOSE_TOO_BIG as nat, 2);
        }
        protocol::law_frame_read_of_encoded(f, rest, ended);
    }
}

/// A message of the client, text or binary, goes on as it is where it is within the limit and is
/// passed over where it is not; a ping or a pong always goes on as it is. A close frame goes on
/// with its reason, under its own code unless that is reserved, and ends the tunnel.
pub proof fn law_client_frames(f: WsFrame, allowed: bool)
    ensures
        (f is Text || f is Binary) && allowed ==> client_action(ClientEvent::Frame(f), allowed)
            == ClientActionView::ForwardInTime(f@),
        (f is Text || f is Binary) && !allowed ==> client_action(ClientEvent::Frame(f), allowed)
            == ClientActionView::Skip,
        f is Ping || f is Pong ==> client_action(ClientEvent::Frame(f), allowed)
            == ClientActionView::Forward(f@),
        f matches WsFrame::Close { code, reason } ==> client_action(ClientEvent::Frame(f), allowed)
            == ClientActionView::ForwardAndStop(
            WsFrameView::Close {
                code: if code == 1005 || code == 1006 || code == 1015 {
                    1000
                } else {
                    code
                },
                reason: reason@,
            },
        ),
        is_message(f@) <==> f is Text || f is Binary,
{
}

/// The tunnel ends where the stream of the client ends, breaks, or brings what is no frame. Only a
/// client whose frame is over the limit is told so, under the code 1009.
pub proof fn law_client_ends(e: WsError, allowed: bool)
    ensures
        client_action(ClientEvent::End, allowed) == ClientActionView::Stop,
        client_action(ClientEvent::Broken, allowed) == ClientActionView::Stop,
        e !is TooBig ==> client_action(ClientEvent::Malformed(e), allowed)
            == ClientActionView::Stop,
        e is TooBig ==> client_action(ClientEvent::Malformed(e), allowed)
            == ClientActionView::RefuseAndStop(
            WsFrameView::Close { code: 1009, reason: "frame too big"@ },
        ),
{
}

/// A message of the local instance goes to the client as it is where its payload has at most 8 MiB;
/// a larger one ends the tunnel under the code 1009.
pub proof fn law_instance_messages(s: String, b: Vec<u8>)
    ensures
        ({
            let too_big = InstanceActionView::SendAndStop(
                WsFrameView::Close { code: 1009, reason: "frame too big"@ },
            );
            &&& instance_action(InstanceEvent::Text(s)) == (if vstd::utf8::encode_utf8(s@).len()
                <= 0x80_0000 {
                InstanceActionView::Send(WsFrameView::Text(s@))
            } else {
                too_big
            })
            &&& instance_action(InstanceEvent::Binary(b)) == (if b@.len() <= 0x80_0000 {
                InstanceActionView::Send(WsFrameView::Binary(b@))
            } else {
                too_big
            })
            &&& instance_action(InstanceEvent::Ping(b)) == (if b@.len() <= 0x80_0000 {
                InstanceActionView::TrySend(WsFrameView::Ping(b@))
            } else {
                too_big
            })
            &&& instance_action(InstanceEvent::Pong(b)) == (if b@.len() <= 0x80_0000 {
                InstanceActionView::TrySend(WsFrameView::Pong(b@))
            } else {
                too_big
            })
        }),
{
}

/// A close message of the local instance goes to the client with its code and its reason, or under
/// the code 1000 where it has none, and ends the tunnel. So does the end of the connection; a
/// message of another form changes nothing.
pub proof fn law_instance_ends(code: u16, reason: String)
    ensures
        instance_action(InstanceEvent::Close(Some((code, reason)))) == (if vstd::utf8::encode_utf8(
            reason@,
        ).len() <= 0x80_0000 - 2 {
            InstanceActionView::SendAndStop(WsFrameView::Close { code, reason: reason@ })
        } else {
            InstanceActionView::SendAndStop(
                WsFrameView::Close { code: 1009, reason: "frame too big"@ },
            )
        }),
        instance_action(InstanceEvent::Close(None)) == InstanceActionView::SendAndStop(
            WsFrameView::Close { code: 1000, reason: Seq::empty() },
        ),
        instance_action(InstanceEvent::Ended) == InstanceActionView::Stop,
        instance_action(InstanceEvent::Other) == InstanceActionView::Nothing,
{
    crate::bytes::lemma_widths(code as nat, 2);
    crate::bytes::lemma_widths(CLOSE_NORMAL as nat, 2);
    assert(encoding::utf8(Seq::<char>::empty()).len() == 0);
}

/// The client can read the first frame of a tunnel: it tells the status of the local instance, in
/// its body and in `pdata`, and names the endpoint that the target stands for.
pub proof fn law_handshake_ack(
    engine: &proxy_engine::ProxyEngine,
    target: Seq<char>,
    status: u16,
    signed_at: u64,
    text: Seq<u8>,
)
    requires
        is_ack(engine, target, status, signed_at, text),
    ensures
        json::json_object(text) is Some,
        ({
            let m = json::json_object(text)->0;
            &&& m["status"@] == JsonView::UInt(status as u64)
            &&& m["pdata"@] matches JsonView::Object(p)
            &&& p["status"@] == JsonView::UInt(status as u64)
            &&& p["node_id"@] == JsonView::Text(engine.node())
            &&& p["name"@] == JsonView::Text(
                match engine.resolved(target) {
                    Some(e) => e.name,
                    None => target,
                },
            )
            &&& p["signed_at"@] == JsonView::UInt(signed_at)
            &&& p["relayed"@] == JsonView::Bool(false)
        }),
        crypto::iroh_endpoint_key(engine.node()) == Some(crypto::ed25519_public(engine.seed()))
            ==> proxy_engine::is_attested(
            json::json_object(text)->0,
            json::json_text(Members::empty().insert("status"@, JsonView::UInt(status as u64))),
        ),
{
    reveal_strlit("status");
    reveal_strlit("pdata");
    assert("status"@.len() == 6 && "pdata"@.len() == 5);
    let v = ack_view(engine, target, status, signed_at);
    let p = proxy_engine::law_response_members(v, engine.seed());
    let o = json::json_object(v.raw)->0;
    assert(o.dom().contains("status"@));
    assert(proxy_engine::response_members(v, engine.seed()).dom().contains("status"@));
}

/// A client that asks for a tunnel to an endpoint without one is told which target it asked for.
pub proof fn law_no_tunnel_reason(target: Seq<char>)
    ensures
        no_tunnel_reason(target).len() > 10 + target.len(),
        no_tunnel_reason(target).take(10) == "provider '"@,
        no_tunnel_reason(target).subrange(10, 10int + target.len()) == target,
{
    reveal_strlit("provider '");
    reveal_strlit(
        "' не имеет local_ws_url в config.yaml (endpoints.<key>.local_ws_url) — WS-туннель отключён",
    );
    assert("provider '"@.len() == 10);
    assert(no_tunnel_reason(target).take(10) == "provider '"@);
    assert(no_tunnel_reason(target).subrange(10, 10int + target.len()) == target);
}

/// The views of the actions have the views of their frames.
pub proof fn law_action_views(f: WsFrame)
    ensures
        ClientAction::ForwardInTime(f)@ == ClientActionView::ForwardInTime(f@),
        ClientAction::Forward(f)@ == ClientActionView::Forward(f@),
        ClientAction::Skip@ == ClientActionView::Skip,
        ClientAction::ForwardAndStop(f)@ == ClientActionView::ForwardAndStop(f@),
        ClientAction::RefuseAndStop(f)@ == ClientActionView::RefuseAndStop(f@),
        ClientAction::Stop@ == ClientActionView::Stop,
        InstanceAction::Send(f)@ == InstanceActionView::Send(f@),
        InstanceAction::TrySend(f)@ == InstanceActionView::TrySend(f@),
        InstanceAction::SendAndStop(f)@ == InstanceActionView::SendAndStop(f@),
        InstanceAction::Nothing@ == InstanceActionView::Nothing,
        InstanceAction::Stop@ == InstanceActionView::Stop,
{
}

/// A local instance has ten seconds to take a tunnel and five to take a message, of which 128 may
/// wait, and a tunnel ends after a day.
pub proof fn law_tunnel_limits()
    ensures
        CONNECT_TIMEOUT_SECS == 10,
        SEND_TIMEOUT_SECS == 5,
        QUEUE_LEN == 128,
        SESSION_SECS == 24 * 60 * 60,
{
}

} // verus!
