//! The calls to local instances, and the signed responses.
//!
//! A response is the JSON of the local instance with one more member, `pdata`. It names the node,
//! repeats the body as the instance gave it, and carries the node's signature over the canonical
//! bytes `node_id|status|signed_at|` and the body.
use crate::clock;
use crate::config;
use crate::config::EndpointView;
use crate::crypto;
use crate::encoding;
use crate::headers;
use crate::hexadecimal;
use crate::http_fields;
use crate::json;
use crate::json::{Json, JsonObject, JsonView, Members};
use crate::protocol;
use crate::text;
use vstd::prelude::*;

verus! {

/// The status of a response to a peer that makes too many requests.
pub const TOO_MANY_REQUESTS: u16 = 429;

/// The status of a response where the local instance cannot be reached.
pub const BAD_GATEWAY: u16 = 502;

/// The number of tunnel messages per second where no endpoint says otherwise.
pub const WS_MSG_RATE: u32 = 30;

/// The number of seconds after which a request to a local instance is given up.
pub const HTTP_TIMEOUT_SECS: u64 = 5;

/// The endpoints that a node serves, and the key that it signs with.
pub struct ProxyEngine {
    names: Vec<String>,
    endpoints: Vec<config::EndpointCfg>,
    node_id: String,
    signing: crypto::SigningKey,
}

/// Why a packet cannot be answered.
#[derive(Debug)]
pub enum ProxyError {
    /// No endpoint with this name is served.
    NotServed(String),
}

/// A request to a local instance.
#[derive(Debug)]
pub struct UpstreamRequest {
    pub url: String,
    pub method: String,
    /// The headers in the order in which they are added.
    pub headers: Vec<(String, String)>,
    /// The body, where there is one.
    pub body: Option<Vec<u8>>,
}

/// What came of a request to a local instance.
#[derive(Debug)]
pub enum Upstream {
    /// The instance answered.
    Answered { status: u16, body: Vec<u8> },
    /// No answer came, for the reason given.
    Unreachable { detail: String },
}

/// The last endpoint with a name.
pub open spec fn last_named(list: Seq<EndpointView>, name: Seq<char>) -> Option<EndpointView>
    decreases list.len(),
{
    if list.len() == 0 {
        None
    } else if list.last().name == name {
        Some(list.last())
    } else {
        last_named(list.drop_last(), name)
    }
}

/// The URL of a call: the base URL without slashes at its end, and the path.
pub open spec fn joined_url(base: Seq<char>, path: Seq<char>) -> Seq<char> {
    text::strip_trailing(base, '/') + path
}

/// The method of a call: the upper case of what the client asks for, or `GET` where that is no
/// method.
pub open spec fn upstream_method(method: Seq<char>) -> Seq<char> {
    if http_fields::is_token(text::upper_text(method)) {
        text::upper_text(method)
    } else {
        "GET"@
    }
}

/// The headers of a call. A body is JSON unless the client says otherwise.
pub open spec fn upstream_headers(list: Seq<headers::HeaderView>, with_body: bool) -> Seq<
    headers::HeaderView,
> {
    let kept = http_fields::forwarded(list, false);
    let typed = if with_body && !http_fields::has_name(list, "content-type"@) {
        kept.push(("content-type"@, "application/json"@))
    } else {
        kept
    };
    if with_body && !http_fields::has_name(list, "accept"@) {
        typed.push(("accept"@, "application/json"@))
    } else {
        typed
    }
}

/// Whether `r` is the request that the endpoint `e` gets for the packet `pkt`. Of a method in ASCII
/// the letters a to z change and nothing else.
pub open spec fn is_upstream_request(
    e: EndpointView,
    pkt: protocol::PacketView,
    r: UpstreamRequest,
) -> bool {
    &&& r.url@ == joined_url(e.local_url, pkt.path)
    &&& r.method@ == upstream_method(pkt.method)
    &&& vstd::utf8::is_ascii_chars(pkt.method) ==> text::upper_text(pkt.method)
        == text::ascii_upper(pkt.method)
    &&& headers::header_views(r.headers@) == upstream_headers(pkt.headers, pkt.body.len() > 0)
    &&& match r.body {
        Some(body) => pkt.body.len() > 0 && body@ == pkt.body,
        None => pkt.body.len() == 0,
    }
}

/// The members of an error body.
pub open spec fn error_members(error: Seq<char>, detail: Seq<char>) -> Members {
    Members::empty().insert("error"@, JsonView::Text(error)).insert(
        "detail"@,
        JsonView::Text(detail),
    )
}

/// The status that is passed on for what came of a request.
pub open spec fn upstream_status(u: Upstream) -> u16 {
    match u {
        Upstream::Answered { status, body } => status,
        Upstream::Unreachable { detail } => BAD_GATEWAY,
    }
}

/// The body that is passed on for what came of a request.
pub open spec fn upstream_body(u: Upstream) -> Seq<u8> {
    match u {
        Upstream::Answered { status, body } => body@,
        Upstream::Unreachable { detail } => json::json_text(
            error_members("upstream_unreachable"@, detail@),
        ),
    }
}

/// The text that comes before the body in the canonical bytes of a response.
pub open spec fn canonical_head(node: Seq<char>, status: u64, signed_at: u64) -> Seq<char> {
    node.push('|') + text::decimal(status as nat).push('|') + text::decimal(signed_at as nat).push(
        '|',
    )
}

/// The bytes of a response that its signature covers.
pub open spec fn canonical(node: Seq<char>, status: u64, signed_at: u64, raw: Seq<u8>) -> Seq<u8> {
    encoding::utf8(canonical_head(node, status, signed_at)) + raw
}

/// The hexadecimal text of the signature of a response.
pub open spec fn response_signature(
    seed: Seq<u8>,
    node: Seq<char>,
    status: u64,
    signed_at: u64,
    raw: Seq<u8>,
) -> Seq<char> {
    hexadecimal::hex_text(crypto::ed25519_signature(seed, canonical(node, status, signed_at, raw)))
}

/// What a response says of itself.
pub struct ResponseView {
    /// The name of the node that made the call.
    pub node: Seq<char>,
    /// The name of the endpoint.
    pub name: Seq<char>,
    pub status: u16,
    pub signed_at: u64,
    pub relayed: bool,
    /// The body as the local instance gave it.
    pub raw: Seq<u8>,
}

/// The members of `pdata`, signed with `seed`.
pub open spec fn pdata_members(v: ResponseView, seed: Seq<u8>) -> Members {
    let sig = response_signature(seed, v.node, v.status as u64, v.signed_at, v.raw);
    Members::empty()
        .insert("v"@, JsonView::UInt(1))
        .insert("node_id"@, JsonView::Text(v.node))
        .insert("name"@, JsonView::Text(v.name))
        .insert("status"@, JsonView::UInt(v.status as u64))
        .insert("signed_at"@, JsonView::UInt(v.signed_at))
        .insert("relayed"@, JsonView::Bool(v.relayed))
        .insert("alg"@, JsonView::Text("ed25519"@))
        .insert("sig"@, JsonView::Text(sig))
        .insert("body_b64"@, JsonView::Text(encoding::base64_text(v.raw)))
}

/// The members that a body brings with it: those of a JSON object, and none of any other body.
pub open spec fn body_members(raw: Seq<u8>) -> Members {
    match json::json_object(raw) {
        Some(o) => o,
        None => Members::empty(),
    }
}

/// The members of a response.
pub open spec fn response_members(v: ResponseView, seed: Seq<u8>) -> Members {
    body_members(v.raw).insert("pdata"@, JsonView::Object(pdata_members(v, seed)))
}

/// Whether a reader of a response with these members, who takes the node's name for its key, finds
/// in it the body `raw` and a signature over it that the key accepts.
pub open spec fn is_attested(members: Members, raw: Seq<u8>) -> bool {
    &&& members.dom().contains("pdata"@)
    &&& members["pdata"@] matches JsonView::Object(p)
    &&& p["body_b64"@] == JsonView::Text(encoding::base64_text(raw))
    &&& p["node_id"@] matches JsonView::Text(node)
    &&& p["status"@] matches JsonView::UInt(status)
    &&& p["signed_at"@] matches JsonView::UInt(at)
    &&& p["sig"@] matches JsonView::Text(sig)
    &&& crypto::iroh_endpoint_key(node) matches Some(key)
    &&& hexadecimal::hex_bytes(sig) matches Some(s)
    &&& crypto::accepts(key, canonical(node, status, at, raw), s)
}

/// Whether `text` is the response that `v` describes, signed with `seed`: its text is fixed, it is
/// valid UTF-8, the public key of `seed` accepts its signature, and where the node bears the name
/// of that key, whoever can read the response finds it attested. A reader finds the members of the
/// body beside `pdata`. The response can be read, as it was meant, unless the body is a JSON object
/// with a floating-point number in it; then a reader may refuse that number as too large.
pub open spec fn is_response(v: ResponseView, seed: Seq<u8>, text: Seq<u8>) -> bool {
    &&& text == json::json_text(response_members(v, seed))
    &&& vstd::utf8::valid_utf8(text)
    &&& hexadecimal::hex_bytes(
        response_signature(seed, v.node, v.status as u64, v.signed_at, v.raw),
    ) matches Some(sig) && crypto::accepts(
        crypto::ed25519_public(seed),
        canonical(v.node, v.status as u64, v.signed_at, v.raw),
        sig,
    )
    &&& json::is_read_of(text, response_members(v, seed))
    &&& json::all_float_free(body_members(v.raw)) ==> json::json_object(text) == Some(
        response_members(v, seed),
    )
    &&& json::json_object(text) is Some && crypto::iroh_endpoint_key(v.node) == Some(
        crypto::ed25519_public(seed),
    ) ==> is_attested(json::json_object(text)->0, v.raw)
}

/// Whether `text` is the response that `v` describes, signed with `seed`, and can be read as it was
/// meant.
pub open spec fn is_readable_response(v: ResponseView, seed: Seq<u8>, text: Seq<u8>) -> bool {
    &&& is_response(v, seed, text)
    &&& json::json_object(text) == Some(response_members(v, seed))
}

/// What a response says of itself that an endpoint gives for what came of the request to its local
/// instance.
pub open spec fn answer_view(
    node: Seq<char>,
    e: EndpointView,
    u: Upstream,
    relayed: bool,
    signed_at: u64,
) -> ResponseView {
    ResponseView {
        node,
        name: e.name,
        status: upstream_status(u),
        signed_at,
        relayed,
        raw: upstream_body(u),
    }
}

/// Whether `text` is the response that `v` describes, which was given for `u`. That the local
/// instance cannot be reached can always be read.
pub open spec fn is_answer(v: ResponseView, u: Upstream, seed: Seq<u8>, text: Seq<u8>) -> bool {
    &&& is_response(v, seed, text)
    &&& u matches Upstream::Unreachable { detail } ==> {
        &&& is_readable_response(v, seed, text)
        &&& json::json_object(v.raw) == Some(error_members("upstream_unreachable"@, detail@))
    }
}

/// Whether `text` is the response to a peer that makes too many requests for `target`, and can be
/// read as it was meant.
pub open spec fn is_rejection(
    node: Seq<char>,
    target: Seq<char>,
    signed_at: u64,
    seed: Seq<u8>,
    text: Seq<u8>,
) -> bool {
    &&& is_readable_response(rejection(node, target, signed_at), seed, text)
    &&& json::json_object(rejection(node, target, signed_at).raw) == Some(
        error_members("rate_limited"@, "превышен лимит запросов на этот PeerID"@),
    )
}

proof fn lemma_names_of_pdata()
    ensures
        "v"@.len() == 1,
        "node_id"@.len() == 7 && "node_id"@[0] == 'n',
        "name"@.len() == 4,
        "status"@.len() == 6,
        "signed_at"@.len() == 9,
        "relayed"@.len() == 7 && "relayed"@[0] == 'r',
        "alg"@.len() == 3 && "alg"@[0] == 'a',
        "sig"@.len() == 3 && "sig"@[0] == 's',
        "body_b64"@.len() == 8,
{
    reveal_strlit("v");
    reveal_strlit("node_id");
    reveal_strlit("name");
    reveal_strlit("status");
    reveal_strlit("signed_at");
    reveal_strlit("relayed");
    reveal_strlit("alg");
    reveal_strlit("sig");
    reveal_strlit("body_b64");
}

proof fn lemma_pdata(v: ResponseView, seed: Seq<u8>)
    ensures
        json::is_exact(JsonView::Object(pdata_members(v, seed))),
        ({
            let p = pdata_members(v, seed);
            &&& p["node_id"@] == JsonView::Text(v.node)
            &&& p["status"@] == JsonView::UInt(v.status as u64)
            &&& p["signed_at"@] == JsonView::UInt(v.signed_at)
            &&& p["sig"@] == JsonView::Text(
                response_signature(seed, v.node, v.status as u64, v.signed_at, v.raw),
            )
            &&& p["body_b64"@] == JsonView::Text(encoding::base64_text(v.raw))
        }),
{
    lemma_names_of_pdata();
    reveal_with_fuel(json::is_within, 2);
    reveal_with_fuel(json::is_float_free, 2);
}

/// What a reader of a response finds.
proof fn lemma_response_read(v: ResponseView, seed: Seq<u8>, text: Seq<u8>)
    requires
        json::is_read_of(text, response_members(v, seed)),
        json::all_within(body_members(v.raw)),
    ensures
        json::all_float_free(body_members(v.raw)) ==> json::json_object(text) == Some(
            response_members(v, seed),
        ),
        json::json_object(text) is Some ==> json::json_object(text)->0.dom().contains("pdata"@)
            && json::json_object(text)->0["pdata"@] == JsonView::Object(pdata_members(v, seed)),
{
    lemma_pdata(v, seed);
    let members = response_members(v, seed);
    assert(members.dom().contains("pdata"@));
    if json::all_float_free(body_members(v.raw)) {
        assert(json::all_within(members));
        assert(json::all_float_free(members));
        json::lemma_exact_text(text, members);
    }
}

impl ProxyEngine {
    #[verifier::type_invariant]
    spec fn inv(&self) -> bool {
        &&& text::ascending(text::texts(self.names@))
        &&& self.names@.len() == self.endpoints@.len()
        &&& forall|i: int|
            0 <= i < self.names@.len() ==> (#[trigger] self.endpoints@[i])@.name == self.names@[i]@
    }

    /// The names of the endpoints, in ascending order.
    pub closed spec fn served(&self) -> Seq<Seq<char>> {
        text::texts(self.names@)
    }

    /// The endpoint with a name.
    pub closed spec fn named(&self, name: Seq<char>) -> Option<EndpointView> {
        if self.served().contains(name) {
            Some(self.endpoints@[self.served().index_of(name)]@)
        } else {
            None
        }
    }

    /// The endpoint that a target stands for: the one with that name, or for the empty target the
    /// one whose name comes first.
    pub open spec fn resolved(&self, target: Seq<char>) -> Option<EndpointView> {
        if target.len() > 0 {
            self.named(target)
        } else if self.served().len() > 0 {
            self.named(self.served()[0])
        } else {
            None
        }
    }

    /// The name of the node.
    pub closed spec fn node(&self) -> Seq<char> {
        self.node_id@
    }

    /// The seed of the node's signing key.
    pub closed spec fn seed(&self) -> Seq<u8> {
        self.signing.seed@
    }

    proof fn lemma_named_at(&self, i: int)
        requires
            self.inv(),
            0 <= i < self.names@.len(),
        ensures
            self.named(self.names@[i]@) == Some(self.endpoints@[i]@),
    {
        let name = self.names@[i]@;
        let all = self.served();
        assert(all[i] == name);
        assert(all.contains(name));
        let j = all.index_of(name);
        assert(0 <= j < all.len() && all[j] == name);
        text::lemma_precedes_irreflexive(name);
    }

    /// The engine of a node: of endpoints with the same name the last one counts.
    pub fn new(cfg: &config::Config, root: &crypto::Root, node_id: String) -> (r: ProxyEngine)
        ensures
            text::ascending(r.served()),
            forall|t: Seq<char>| #[trigger]
                r.named(t) == last_named(config::endpoint_views(cfg.endpoints@), t),
            forall|t: Seq<char>| #[trigger] r.served().contains(t) <==> r.named(t) is Some,
            r.node() == node_id@,
            r.seed() == root@,
    {
        let ghost list = config::endpoint_views(cfg.endpoints@);
        let mut all: Vec<String> = Vec::new();
        let mut i: usize = 0;
        while i < cfg.endpoints.len()
            invariant
                i <= cfg.endpoints@.len(),
                list == config::endpoint_views(cfg.endpoints@),
                all@.len() == i,
                forall|j: int| 0 <= j < i ==> (#[trigger] all@[j])@ == list[j].name,
            decreases cfg.endpoints@.len() - i,
        {
            all.push(cfg.endpoints[i].1.name.clone());
            i = i + 1;
        }
        let ghost given = text::texts(all@);
        let names = text::sort_dedup(all);
        let mut endpoints: Vec<config::EndpointCfg> = Vec::new();
        let mut k: usize = 0;
        while k < names.len()
            invariant
                k <= names@.len(),
                list == config::endpoint_views(cfg.endpoints@),
                given.len() == list.len(),
                forall|j: int| 0 <= j < list.len() ==> #[trigger] given[j] == list[j].name,
                forall|t: Seq<char>| text::texts(names@).contains(t) <==> given.contains(t),
                endpoints@.len() == k,
                forall|j: int|
                    0 <= j < k ==> (#[trigger] endpoints@[j])@.name == names@[j]@ && last_named(
                        list,
                        names@[j]@,
                    ) == Some(endpoints@[j]@),
            decreases names@.len() - k,
        {
            proof {
                assert(text::texts(names@)[k as int] == names@[k as int]@);
                assert(text::texts(names@).contains(names@[k as int]@));
                assert(given.contains(names@[k as int]@));
                let j = choose|j: int| 0 <= j < given.len() && given[j] == names@[k as int]@;
                assert(list[j].name == names@[k as int]@);
                lemma_last_named_some(list, j);
            }
            endpoints.push(find_last(&cfg.endpoints, names[k].as_str()));
            k = k + 1;
        }
        let r = ProxyEngine { names, endpoints, node_id, signing: crypto::signing_key(root) };
        proof {
            assert forall|t: Seq<char>| #[trigger] r.named(t) == last_named(list, t) by {
                if r.served().contains(t) {
                    let j = choose|j: int| 0 <= j < r.served().len() && r.served()[j] == t;
                    r.lemma_named_at(j);
                } else {
                    if last_named(list, t) is Some {
                        lemma_last_named_is_there(list, t);
                        let j = choose|j: int| 0 <= j < list.len() && list[j].name == t;
                        assert(given[j] == t);
                    }
                }
            }
        }
        r
    }

    /// The place of a name among the endpoints.
    fn position(&self, name: &str) -> (r: Option<usize>)
        ensures
            match r {
                Some(i) => i < self.endpoints@.len() && self.named(name@) == Some(
                    self.endpoints@[i as int]@,
                ),
                None => self.named(name@) is None,
            },
    {
        proof {
            use_type_invariant(&*self);
        }
        let mut i: usize = 0;
        while i < self.names.len()
            invariant
                i <= self.names@.len(),
                self.inv(),
                forall|j: int| 0 <= j < i ==> #[trigger] self.served()[j] != name@,
            decreases self.names@.len() - i,
        {
            if text::same_text(self.names[i].as_str(), name) {
                proof {
                    self.lemma_named_at(i as int);
                }
                return Some(i);
            }
            i = i + 1;
        }
        None
    }

    /// The endpoint that a target stands for; an empty target stands for the default endpoint.
    fn resolve(&self, target: &str) -> (r: Option<&config::EndpointCfg>)
        ensures
            match r {
                Some(e) => self.resolved(target@) == Some(e@),
                None => self.resolved(target@) is None,
            },
    {
        proof {
            use_type_invariant(&*self);
        }
        if target.is_empty() {
            if self.names.len() > 0 {
                proof {
                    self.lemma_named_at(0);
                }
                Some(&self.endpoints[0])
            } else {
                None
            }
        } else {
            match self.position(target) {
                Some(i) => Some(&self.endpoints[i]),
                None => None,
            }
        }
    }

    /// Whether a target is served here.
    pub fn serves(&self, target: &str) -> (r: bool)
        ensures
            r == (self.resolved(target@) is Some),
    {
        self.resolve(target).is_some()
    }

    /// The number of requests per second that a target allows one peer; 0 where it is not served.
    pub fn rate_for(&self, target: &str) -> (r: u32)
        ensures
            r == (match self.resolved(target@) {
                Some(e) => e.rate_limit_per_peer,
                None => 0,
            }),
    {
        match self.resolve(target) {
            Some(e) => e.rate_limit_per_peer,
            None => 0,
        }
    }

    /// The names of all endpoints.
    pub fn names(&self) -> (r: Vec<String>)
        ensures
            text::texts(r@) == self.served(),
    {
        text::clone_texts(&self.names)
    }

    /// The protocols of an endpoint: `rpc` always, and `ws` where tunnels are served.
    pub fn protocols_for(&self, name: &str) -> (r: Vec<String>)
        ensures
            text::texts(r@) == protocol_names(self.resolved(name@)),
    {
        let mut out: Vec<String> = Vec::new();
        if let Some(e) = self.resolve(name) {
            out.push("rpc".to_owned());
            if e.local_ws_url.is_some() {
                out.push("ws".to_owned());
            }
        }
        assert(text::texts(out@) == protocol_names(self.resolved(name@)));
        out
    }

    /// The URL of a tunnel to an endpoint; `None` where it serves none.
    pub fn ws_url_for(&self, name: &str, sub_path: &str) -> (r: Option<String>)
        ensures
            config::text_option(r) == ws_url(self.resolved(name@), sub_path@),
    {
        match self.resolve(name) {
            Some(e) => match &e.local_ws_url {
                Some(base) => {
                    let mut url = text::trim_end_matches(base.as_str(), '/');
                    url.append(sub_path);
                    Some(url)
                },
                None => None,
            },
            None => None,
        }
    }

    /// The name of the endpoint that a target stands for; the target itself where it is not served.
    pub fn name_of(&self, target: &str) -> (r: String)
        ensures
            r@ == (match self.resolved(target@) {
                Some(e) => e.name,
                None => target@,
            }),
    {
        match self.resolve(target) {
            Some(e) => e.name.clone(),
            None => target.to_owned(),
        }
    }

    /// The number of tunnel messages per second that an endpoint allows one peer.
    pub fn ws_msg_rate_for(&self, name: &str) -> (r: u32)
        ensures
            r == (match self.resolved(name@) {
                Some(e) => e.ws_rate_limit_per_peer,
                None => WS_MSG_RATE,
            }),
            self.resolved(name@) is None ==> r == 30,
    {
        match self.resolve(name) {
            Some(e) => e.ws_rate_limit_per_peer,
            None => WS_MSG_RATE,
        }
    }

    /// The URL that tells whether an endpoint is up.
    pub fn health_url(&self, name: &str) -> (r: Option<String>)
        ensures
            config::text_option(r) == (match self.named(name@) {
                Some(e) => Some(e.local_url),
                None => None,
            }),
    {
        match self.position(name) {
            Some(i) => Some(self.endpoints[i].local_url.clone()),
            None => None,
        }
    }

    /// Whether an endpoint is up, and how many milliseconds it took to find out: `answered` tells
    /// whether a GET of its URL was answered, after `elapsed_ms` milliseconds. A name without an
    /// endpoint is down.
    pub fn health(&self, name: &str, answered: bool, elapsed_ms: u64) -> (r: (bool, u64))
        ensures
            r == (if self.named(name@) is Some {
                (answered, elapsed_ms)
            } else {
                (false, 0u64)
            }),
    {
        match self.position(name) {
            Some(_) => (answered, elapsed_ms),
            None => (false, 0),
        }
    }
}

impl ProxyEngine {
    /// The request that a local instance gets for a packet.
    pub fn request_for(&self, pkt: &protocol::MeshPacket) -> (r: Result<
        UpstreamRequest,
        ProxyError,
    >)
        ensures
            match r {
                Ok(req) => self.resolved(pkt.target_provider@) matches Some(e)
                    && is_upstream_request(e, pkt@, req),
                Err(ProxyError::NotServed(t)) => self.resolved(pkt.target_provider@) is None && t@
                    == pkt.target_provider@,
            },
    {
        let e = match self.resolve(pkt.target_provider.as_str()) {
            Some(e) => e,
            None => {
                return Err(ProxyError::NotServed(pkt.target_provider.clone()));
            },
        };
        let mut url = text::trim_end_matches(e.local_url.as_str(), '/');
        url.append(pkt.path.as_str());
        let upper = text::to_uppercase(pkt.method.as_str());
        let method = match http_fields::http_method(upper.as_str()) {
            Some(m) => m,
            None => "GET".to_owned(),
        };
        let given = pkt.headers.entries();
        let mut headers = http_fields::forward(given, false);
        let mut body: Option<Vec<u8>> = None;
        let ghost list = pkt.headers@;
        if pkt.body.len() > 0 {
            let ghost kept = headers::header_views(headers@);
            if !http_fields::names(given, "content-type") {
                headers.push(("content-type".to_owned(), "application/json".to_owned()));
                assert(headers::header_views(headers@) == kept.push(
                    ("content-type"@, "application/json"@),
                ));
            }
            let ghost typed = headers::header_views(headers@);
            if !http_fields::names(given, "accept") {
                headers.push(("accept".to_owned(), "application/json".to_owned()));
                assert(headers::header_views(headers@) == typed.push(
                    ("accept"@, "application/json"@),
                ));
            }
            let copy = crate::bytes::copy_range(pkt.body.as_slice(), 0, pkt.body.len());
            assert(copy@ == pkt.body@);
            body = Some(copy);
        }
        Ok(UpstreamRequest { url, method, headers, body })
    }

    /// The response to a packet, for what came of the request to the local instance, signed at
    /// `signed_at`.
    pub fn execute_at(
        &self,
        pkt: &protocol::MeshPacket,
        relayed: bool,
        upstream: Upstream,
        signed_at: u64,
    ) -> (r: Result<Vec<u8>, ProxyError>)
        ensures
            match r {
                Ok(text) => self.resolved(pkt.target_provider@) matches Some(e) && is_answer(
                    answer_view(self.node(), e, upstream, relayed, signed_at),
                    upstream,
                    self.seed(),
                    text@,
                ),
                Err(ProxyError::NotServed(t)) => self.resolved(pkt.target_provider@) is None && t@
                    == pkt.target_provider@,
            },
    {
        let e = match self.resolve(pkt.target_provider.as_str()) {
            Some(e) => e,
            None => {
                return Err(ProxyError::NotServed(pkt.target_provider.clone()));
            },
        };
        match upstream {
            Upstream::Answered { status, body } => Ok(
                self.finalize_at(e.name.as_str(), status, body, relayed, signed_at),
            ),
            Upstream::Unreachable { detail } => {
                let body = error_body("upstream_unreachable", detail);
                Ok(self.finalize_at(e.name.as_str(), BAD_GATEWAY, body, relayed, signed_at))
            },
        }
    }

    /// The response to a packet, for what came of the request to the local instance, signed now.
    pub fn execute(
        &self,
        pkt: &protocol::MeshPacket,
        relayed: bool,
        upstream: Upstream,
    ) -> (r: Result<Vec<u8>, ProxyError>)
        ensures
            match r {
                Ok(text) => self.resolved(pkt.target_provider@) matches Some(e) && exists|
                    signed_at: u64,
                | #[trigger]
                    is_answer(
                        answer_view(self.node(), e, upstream, relayed, signed_at),
                        upstream,
                        self.seed(),
                        text@,
                    ),
                Err(ProxyError::NotServed(t)) => self.resolved(pkt.target_provider@) is None && t@
                    == pkt.target_provider@,
            },
    {
        self.execute_at(pkt, relayed, upstream, now_secs())
    }

    /// The response to a packet of a peer that makes too many requests, signed at `signed_at`.
    pub fn reject_body_at(&self, pkt: &protocol::MeshPacket, signed_at: u64) -> (r: Vec<u8>)
        ensures
            is_rejection(self.node(), pkt.target_provider@, signed_at, self.seed(), r@),
    {
        let raw = error_body("rate_limited", "превышен лимит запросов на этот PeerID".to_owned());
        self.finalize_at(pkt.target_provider.as_str(), TOO_MANY_REQUESTS, raw, false, signed_at)
    }

    /// The response to a packet of a peer that makes too many requests, signed now.
    pub fn reject_body(&self, pkt: &protocol::MeshPacket) -> (r: Vec<u8>)
        ensures
            exists|signed_at: u64| #[trigger]
                is_rejection(self.node(), pkt.target_provider@, signed_at, self.seed(), r@),
    {
        let signed_at: u64 = now_secs();
        self.reject_body_at(pkt, signed_at)
    }

    /// Puts `pdata` with the node's signature into the JSON of a body, or around a body that is no
    /// JSON object.
    pub fn finalize_at(
        &self,
        name: &str,
        status: u16,
        raw: Vec<u8>,
        relayed: bool,
        signed_at: u64,
    ) -> (r: Vec<u8>)
        ensures
            is_response(
                (ResponseView {
                    node: self.node(),
                    name: name@,
                    status,
                    signed_at,
                    relayed,
                    raw: raw@,
                }),
                self.seed(),
                r@,
            ),
    {
        let ghost v = ResponseView {
            node: self.node(),
            name: name@,
            status,
            signed_at,
            relayed,
            raw: raw@,
        };
        let mut head = self.node_id.clone();
        head.push('|');
        text::push_decimal(&mut head, status as u64);
        head.push('|');
        text::push_decimal(&mut head, signed_at);
        head.push('|');
        assert(head@ == canonical_head(v.node, status as u64, signed_at));
        let mut canon: Vec<u8> = Vec::new();
        crate::bytes::push_slice(&mut canon, head.as_str().as_bytes());
        crate::bytes::push_slice(&mut canon, raw.as_slice());
        assert(canon@ == canonical(v.node, status as u64, signed_at, v.raw));
        let sig = crypto::sign_hex(&self.signing, canon.as_slice());

        let mut pdata = JsonObject::new();
        pdata.insert("v", Json::UInt(1));
        pdata.insert("node_id", Json::Text(self.node_id.clone()));
        pdata.insert("name", Json::Text(name.to_owned()));
        pdata.insert("status", Json::UInt(status as u64));
        pdata.insert("signed_at", Json::UInt(signed_at));
        pdata.insert("relayed", Json::Bool(relayed));
        pdata.insert("alg", Json::Text("ed25519".to_owned()));
        pdata.insert("sig", Json::Text(sig));
        pdata.insert("body_b64", Json::Text(encoding::base64_encode(raw.as_slice())));
        assert(pdata@ == pdata_members(v, self.seed()));

        let mut object = match JsonObject::parse(raw.as_slice()) {
            Some(o) => o,
            None => JsonObject::new(),
        };
        object.insert("pdata", Json::Object(pdata));
        assert(object@ == response_members(v, self.seed()));
        let text = object.to_bytes();
        proof {
            lemma_response_read(v, self.seed(), text@);
            lemma_pdata(v, self.seed());
        }
        text
    }
}

/// What a response to a peer that makes too many requests says of itself.
pub open spec fn rejection(node: Seq<char>, target: Seq<char>, signed_at: u64) -> ResponseView {
    ResponseView {
        node,
        name: target,
        status: TOO_MANY_REQUESTS,
        signed_at,
        relayed: false,
        raw: json::json_text(
            error_members("rate_limited"@, "превышен лимит запросов на этот PeerID"@),
        ),
    }
}

/// The JSON of an error.
fn error_body(error: &str, detail: String) -> (r: Vec<u8>)
    ensures
        r@ == json::json_text(error_members(error@, detail@)),
        json::json_object(r@) == Some(error_members(error@, detail@)),
        json::all_float_free(error_members(error@, detail@)),
{
    let mut o = JsonObject::new();
    o.insert("error", Json::Text(error.to_owned()));
    o.insert("detail", Json::Text(detail));
    let text = o.to_bytes();
    proof {
        json::lemma_exact_text(text@, error_members(error@, detail@));
    }
    text
}

/// The time of the calendar clock, in seconds of Unix time; zero for a time before the epoch.
pub fn now_secs() -> u64 {
    clock::unix_secs()
}

/// A response is attested for one body alone: its reader gets back exactly the bytes that were
/// signed.
pub proof fn law_attested_body_is_unique(members: Members, x: Seq<u8>, y: Seq<u8>)
    requires
        is_attested(members, x),
        is_attested(members, y),
    ensures
        x == y,
{
    encoding::law_base64_is_injective(x, y);
}

/// The canonical bytes of a response determine the node, the status, the time and the body, for
/// nodes whose names are of one length or do not hold the separator.
pub proof fn law_canonical_injective(
    node1: Seq<char>,
    status1: u64,
    at1: u64,
    raw1: Seq<u8>,
    node2: Seq<char>,
    status2: u64,
    at2: u64,
    raw2: Seq<u8>,
)
    requires
        canonical(node1, status1, at1, raw1) == canonical(node2, status2, at2, raw2),
        !node1.contains('|') && !node2.contains('|') || encoding::utf8(node1).len()
            == encoding::utf8(node2).len(),
    ensures
        node1 == node2,
        status1 == status2,
        at1 == at2,
        raw1 == raw2,
{
    let s1 = text::decimal(status1 as nat);
    let s2 = text::decimal(status2 as nat);
    let t1 = text::decimal(at1 as nat);
    let t2 = text::decimal(at2 as nat);
    text::lemma_decimal(status1 as nat);
    text::lemma_decimal(status2 as nat);
    text::lemma_decimal(at1 as nat);
    text::lemma_decimal(at2 as nat);
    lemma_canonical_parts(node1, s1, t1, raw1);
    lemma_canonical_parts(node2, s2, t2, raw2);
    if !node1.contains('|') && !node2.contains('|') {
        encoding::lemma_ascii_byte(node1, '|');
        encoding::lemma_ascii_byte(node2, '|');
    }
    encoding::lemma_ascii_byte(s1, '|');
    encoding::lemma_ascii_byte(s2, '|');
    encoding::lemma_ascii_byte(t1, '|');
    encoding::lemma_ascii_byte(t2, '|');
    let y1 = encoding::utf8(t1).push(protocol::BAR) + raw1;
    let y2 = encoding::utf8(t2).push(protocol::BAR) + raw2;
    let x1 = encoding::utf8(s1).push(protocol::BAR) + y1;
    let x2 = encoding::utf8(s2).push(protocol::BAR) + y2;
    protocol::lemma_head_before_bar(encoding::utf8(node1), x1, encoding::utf8(node2), x2);
    protocol::lemma_head_before_bar(encoding::utf8(s1), y1, encoding::utf8(s2), y2);
    protocol::lemma_head_before_bar(encoding::utf8(t1), raw1, encoding::utf8(t2), raw2);
    encoding::lemma_utf8_injective(node1, node2);
    encoding::lemma_utf8_injective(s1, s2);
    encoding::lemma_utf8_injective(t1, t2);
}

proof fn lemma_canonical_parts(node: Seq<char>, s: Seq<char>, t: Seq<char>, raw: Seq<u8>)
    ensures
        encoding::utf8(node.push('|') + s.push('|') + t.push('|')) + raw == encoding::utf8(
            node,
        ).push(protocol::BAR) + (encoding::utf8(s).push(protocol::BAR) + (encoding::utf8(t).push(protocol::BAR) + raw)),
{
    let bar = seq!['|'];
    encoding::lemma_utf8_bar();
    assert(node.push('|') == node + bar);
    assert(s.push('|') == s + bar);
    assert(t.push('|') == t + bar);
    encoding::lemma_utf8_concat(node.push('|') + s.push('|'), t.push('|'));
    encoding::lemma_utf8_concat(node.push('|'), s.push('|'));
    encoding::lemma_utf8_concat(node, bar);
    encoding::lemma_utf8_concat(s, bar);
    encoding::lemma_utf8_concat(t, bar);
    assert(encoding::utf8(node) + seq![protocol::BAR] == encoding::utf8(node).push(protocol::BAR));
    assert(encoding::utf8(s) + seq![protocol::BAR] == encoding::utf8(s).push(protocol::BAR));
    assert(encoding::utf8(t) + seq![protocol::BAR] == encoding::utf8(t).push(protocol::BAR));
    assert(encoding::utf8(node.push('|') + s.push('|') + t.push('|')) + raw == encoding::utf8(
        node,
    ).push(protocol::BAR) + (encoding::utf8(s).push(protocol::BAR) + (encoding::utf8(t).push(
        protocol::BAR,
    ) + raw)));
}

/// The protocols of an endpoint.
pub open spec fn protocol_names(e: Option<EndpointView>) -> Seq<Seq<char>> {
    match e {
        Some(e) => if e.local_ws_url is Some {
            seq!["rpc"@, "ws"@]
        } else {
            seq!["rpc"@]
        },
        None => Seq::empty(),
    }
}

/// The URL of a tunnel to an endpoint.
pub open spec fn ws_url(e: Option<EndpointView>, sub_path: Seq<char>) -> Option<Seq<char>> {
    match e {
        Some(e) => match e.local_ws_url {
            Some(base) => Some(joined_url(base, sub_path)),
            None => None,
        },
        None => None,
    }
}

proof fn lemma_last_named_some(list: Seq<EndpointView>, i: int)
    requires
        0 <= i < list.len(),
    ensures
        last_named(list, list[i].name) is Some,
    decreases list.len(),
{
    if list.last().name != list[i].name {
        assert(i < list.len() - 1);
        assert(list.drop_last()[i] == list[i]);
        lemma_last_named_some(list.drop_last(), i);
    }
}

proof fn lemma_last_named_is_there(list: Seq<EndpointView>, name: Seq<char>)
    requires
        last_named(list, name) is Some,
    ensures
        exists|i: int| 0 <= i < list.len() && list[i].name == name,
    decreases list.len(),
{
    if list.last().name == name {
        assert(list[list.len() - 1].name == name);
    } else {
        lemma_last_named_is_there(list.drop_last(), name);
        let i = choose|i: int|
            0 <= i < list.drop_last().len() && list.drop_last()[i].name == name;
        assert(list[i].name == name);
    }
}

/// The last endpoint with a name that some endpoint has.
fn find_last(list: &Vec<(String, config::EndpointCfg)>, name: &str) -> (r: config::EndpointCfg)
    requires
        last_named(config::endpoint_views(list@), name@) is Some,
    ensures
        last_named(config::endpoint_views(list@), name@) == Some(r@),
        r@.name == name@,
{
    let ghost all = config::endpoint_views(list@);
    let mut i: usize = list.len();
    assert(all.take(i as int) == all);
    while !text::same_text(list[i - 1].1.name.as_str(), name)
        invariant
            0 < i <= list@.len(),
            all == config::endpoint_views(list@),
            last_named(all.take(i as int), name@) is Some,
            last_named(all, name@) == last_named(all.take(i as int), name@),
        decreases i,
    {
        assert(all.take(i as int).last() == list@[i - 1].1@);
        assert(all.take(i as int).drop_last() == all.take(i - 1));
        i = i - 1;
    }
    assert(all.take(i as int).last() == list@[i - 1].1@);
    list[i - 1].1.clone()
}

/// The local instance is called at its base URL without the slashes at its end, followed by the
/// path, and gets the body of the client as it is, where there is one. Of the base URL the first
/// `k` characters are left, for the `k` returned.
pub proof fn law_upstream_url_and_body(
    e: EndpointView,
    pkt: protocol::PacketView,
    r: UpstreamRequest,
) -> (k: int)
    requires
        is_upstream_request(e, pkt, r),
    ensures
        0 <= k <= e.local_url.len(),
        r.url@ == e.local_url.take(k) + pkt.path,
        forall|j: int| k <= j < e.local_url.len() ==> #[trigger] e.local_url[j] == '/',
        k > 0 ==> e.local_url[k - 1] != '/',
        pkt.body.len() == 0 ==> r.body is None,
        pkt.body.len() > 0 ==> r.body is Some && r.body->Some_0@ == pkt.body,
{
    text::law_strip_trailing(e.local_url, '/')
}

/// The local instance gets the method of the client in upper case: where the client writes it in
/// ASCII, its letters a to z change and nothing else. What is no method of HTTP becomes `GET`.
pub proof fn law_upstream_method(e: EndpointView, pkt: protocol::PacketView, r: UpstreamRequest)
    requires
        is_upstream_request(e, pkt, r),
    ensures
        http_fields::is_token(text::upper_text(pkt.method)) ==> r.method@ == text::upper_text(
            pkt.method,
        ),
        !http_fields::is_token(text::upper_text(pkt.method)) ==> r.method@ == seq!['G', 'E', 'T'],
        pkt.method.len() == 0 ==> r.method@ == seq!['G', 'E', 'T'],
        pkt.method.len() > 0 && (forall|i: int|
            0 <= i < pkt.method.len() ==> 'a' <= #[trigger] pkt.method[i] <= 'z' || 'A'
                <= pkt.method[i] <= 'Z') ==> r.method@.len() == pkt.method.len() && forall|i: int|
            0 <= i < pkt.method.len() ==> (#[trigger] r.method@[i]) as u32 == (if 'a'
                <= pkt.method[i] {
                pkt.method[i] as u32 - 32
            } else {
                pkt.method[i] as int
            }),
{
    reveal_strlit("GET");
    assert("GET"@ == seq!['G', 'E', 'T']);
    let m = pkt.method;
    if m.len() == 0 {
        assert(text::ascii_upper(m) == Seq::<char>::empty());
    } else if forall|i: int|
        0 <= i < m.len() ==> 'a' <= #[trigger] m[i] <= 'z' || 'A' <= m[i] <= 'Z' {
        let u = text::ascii_upper(m);
        assert forall|i: int| 0 <= i < u.len() implies http_fields::is_token_char(
            #[trigger] u[i],
        ) by {
            assert('a' <= m[i] <= 'z' || 'A' <= m[i] <= 'Z');
        }
        assert(vstd::utf8::is_ascii_chars(m));
    }
}

/// The local instance gets the headers of the client that go on, and after them, for a body whose
/// type the client does not name, whatever other headers it sends, that it is JSON, and the same of
/// what is accepted. Nothing else is added.
pub proof fn law_upstream_headers(e: EndpointView, pkt: protocol::PacketView, r: UpstreamRequest)
    requires
        is_upstream_request(e, pkt, r),
    ensures
        ({
            let sent = headers::header_views(r.headers@);
            let kept = http_fields::forwarded(pkt.headers, false);
            let typed = exists|i: int|
                0 <= i < pkt.headers.len() && text::ascii_lower((#[trigger] pkt.headers[i]).0)
                    == "content-type"@;
            let accepting = exists|i: int|
                0 <= i < pkt.headers.len() && text::ascii_lower((#[trigger] pkt.headers[i]).0)
                    == "accept"@;
            let json_type = ("content-type"@, "application/json"@);
            let json_accept = ("accept"@, "application/json"@);
            &&& pkt.body.len() == 0 ==> sent == kept
            &&& pkt.body.len() > 0 && typed && accepting ==> sent == kept
            &&& pkt.body.len() > 0 && typed && !accepting ==> sent == kept + seq![json_accept]
            &&& pkt.body.len() > 0 && !typed && accepting ==> sent == kept + seq![json_type]
            &&& pkt.body.len() > 0 && !typed && !accepting ==> sent == kept + seq![
                json_type,
                json_accept,
            ]
            &&& pkt.body.len() > 0 && !typed ==> sent.contains(json_type)
            &&& pkt.body.len() > 0 && !accepting ==> sent.contains(json_accept)
        }),
{
    let sent = headers::header_views(r.headers@);
    let kept = http_fields::forwarded(pkt.headers, false);
    let json_type = ("content-type"@, "application/json"@);
    let json_accept = ("accept"@, "application/json"@);
    if pkt.body.len() > 0 {
        let typed = http_fields::has_name(pkt.headers, "content-type"@);
        let accepting = http_fields::has_name(pkt.headers, "accept"@);
        if !typed {
            assert(kept.push(json_type) == kept + seq![json_type]);
            assert(sent[kept.len() as int] == json_type);
        }
        if !accepting {
            assert(sent[sent.len() - 1] == json_accept);
        }
        if !typed && !accepting {
            assert(kept.push(json_type).push(json_accept) == kept + seq![json_type, json_accept]);
        } else if !accepting {
            assert(kept.push(json_accept) == kept + seq![json_accept]);
        }
    }
}

/// Of the endpoints with a name the last one counts, and there is none only where no endpoint has
/// the name. The place of the one that counts is returned.
pub proof fn law_last_named(list: Seq<EndpointView>, name: Seq<char>) -> (i: int)
    ensures
        last_named(list, name) is None ==> forall|j: int|
            0 <= j < list.len() ==> (#[trigger] list[j]).name != name,
        last_named(list, name) matches Some(e) ==> 0 <= i < list.len() && list[i] == e && e.name
            == name && forall|j: int| i < j < list.len() ==> (#[trigger] list[j]).name != name,
    decreases list.len(),
{
    if list.len() == 0 {
        0
    } else if list.last().name == name {
        list.len() - 1
    } else {
        let init = list.drop_last();
        let i = law_last_named(init, name);
        assert forall|j: int|
            0 <= j < list.len() && (last_named(init, name) is None || i
                < j) implies (#[trigger] list[j]).name != name by {
            if j < init.len() {
                assert(init[j] == list[j]);
            }
        }
        i
    }
}

/// A target stands for the endpoint of the configuration with that name, and for nothing where
/// there is none. The empty target stands for the endpoint whose name comes before all others.
pub proof fn law_resolved(engine: &ProxyEngine, list: Seq<EndpointView>, target: Seq<char>)
    requires
        text::ascending(engine.served()),
        forall|t: Seq<char>| #[trigger] engine.named(t) == last_named(list, t),
        forall|t: Seq<char>| #[trigger] engine.served().contains(t) <==> engine.named(t) is Some,
    ensures
        engine.resolved(target) matches Some(e) ==> list.contains(e),
        engine.resolved(target) matches Some(e) ==> engine.resolved(target) == last_named(
            list,
            e.name,
        ),
        target.len() > 0 ==> (engine.resolved(target) matches Some(e) ==> e.name == target),
        target.len() > 0 && engine.resolved(target) is None ==> forall|j: int|
            0 <= j < list.len() ==> (#[trigger] list[j]).name != target,
        target.len() == 0 ==> (engine.resolved(target) is Some <==> list.len() > 0),
        target.len() == 0 ==> (engine.resolved(target) matches Some(e) ==> forall|j: int|
            0 <= j < list.len() ==> (#[trigger] list[j]).name == e.name || text::precedes(
                e.name,
                list[j].name,
            )),
{
    let all = engine.served();
    if target.len() > 0 {
        let i = law_last_named(list, target);
    } else {
        if all.len() > 0 {
            let i = law_last_named(list, all[0]);
            assert(all.contains(all[0]));
            assert(engine.named(all[0]) is Some);
        }
        assert forall|j: int| 0 <= j < list.len() implies all.len() > 0 && ((
        #[trigger] list[j]).name == all[0] || text::precedes(all[0], list[j].name)) by {
            let i = law_last_named(list, list[j].name);
            assert(engine.named(list[j].name) is Some);
            assert(all.contains(list[j].name));
            let m = choose|m: int| 0 <= m < all.len() && all[m] == list[j].name;
            if m > 0 {
                assert(text::precedes(all[0], all[m]));
            }
        }
        if list.len() > 0 {
            assert(list[0].name == all[0] || text::precedes(all[0], list[0].name));
        }
    }
}

/// What a signature of a response covers, part by part: the name of the node, the status and the
/// time in decimal, a bar after each, and the body as it is.
pub proof fn law_canonical_layout(node: Seq<char>, status: u64, signed_at: u64, raw: Seq<u8>)
    ensures
        canonical(node, status, signed_at, raw) == vstd::utf8::encode_utf8(node) + seq![0x7cu8]
            + vstd::utf8::encode_utf8(text::decimal(status as nat)) + seq![0x7cu8]
            + vstd::utf8::encode_utf8(text::decimal(signed_at as nat)) + seq![0x7cu8] + raw,
{
    let (s, t) = (text::decimal(status as nat), text::decimal(signed_at as nat));
    lemma_canonical_parts(node, s, t, raw);
    assert(canonical(node, status, signed_at, raw) == vstd::utf8::encode_utf8(node) + seq![0x7cu8]
        + vstd::utf8::encode_utf8(s) + seq![0x7cu8] + vstd::utf8::encode_utf8(t) + seq![0x7cu8]
        + raw);
}

/// What a response is made of. It holds the members of the body, where that is a JSON object, as
/// they are, and `pdata`; `pdata` tells the node, the endpoint, the status, the time and whether
/// the response came through another node, repeats the body, and carries the signature over all
/// that it attests.
pub proof fn law_response_members(v: ResponseView, seed: Seq<u8>) -> (p: Members)
    ensures
        ({
            let m = response_members(v, seed);
            &&& m.dom().contains("pdata"@)
            &&& m["pdata"@] == JsonView::Object(p)
            &&& match json::json_object(v.raw) {
                Some(o) => forall|k: Seq<char>|
                    k != "pdata"@ ==> (#[trigger] m.dom().contains(k) <==> o.dom().contains(k)) && (
                    o.dom().contains(k) ==> m[k] == o[k]),
                None => forall|k: Seq<char>| #[trigger] m.dom().contains(k) ==> k == "pdata"@,
            }
        }),
        forall|k: Seq<char>| #[trigger]
            p.dom().contains(k) <==> seq![
                "v"@,
                "node_id"@,
                "name"@,
                "status"@,
                "signed_at"@,
                "relayed"@,
                "alg"@,
                "sig"@,
                "body_b64"@,
            ].contains(k),
        p["v"@] == JsonView::UInt(1),
        p["node_id"@] == JsonView::Text(v.node),
        p["name"@] == JsonView::Text(v.name),
        p["status"@] == JsonView::UInt(v.status as u64),
        p["signed_at"@] == JsonView::UInt(v.signed_at),
        p["relayed"@] == JsonView::Bool(v.relayed),
        p["alg"@] == JsonView::Text("ed25519"@),
        p["body_b64"@] == JsonView::Text(encoding::base64_text(v.raw)),
        p["sig"@] == JsonView::Text(
            hexadecimal::hex_text(
                crypto::ed25519_signature(
                    seed,
                    vstd::utf8::encode_utf8(v.node) + seq![0x7cu8] + vstd::utf8::encode_utf8(
                        text::decimal(v.status as nat),
                    ) + seq![0x7cu8] + vstd::utf8::encode_utf8(text::decimal(v.signed_at as nat))
                        + seq![0x7cu8] + v.raw,
                ),
            ),
        ),
{
    let p = pdata_members(v, seed);
    lemma_names_of_pdata();
    law_canonical_layout(v.node, v.status as u64, v.signed_at, v.raw);
    let names = seq![
        "v"@,
        "node_id"@,
        "name"@,
        "status"@,
        "signed_at"@,
        "relayed"@,
        "alg"@,
        "sig"@,
        "body_b64"@,
    ];
    assert(names[0] == "v"@ && names[1] == "node_id"@ && names[2] == "name"@);
    assert(names[3] == "status"@ && names[4] == "signed_at"@ && names[5] == "relayed"@);
    assert(names[6] == "alg"@ && names[7] == "sig"@ && names[8] == "body_b64"@);
    p
}

/// A response is the JSON text of its members. Whoever can read it finds these names and, but for
/// members with a floating-point number, these values, and without such a number in the body
/// everyone can. Where the node bears the name of the key that it signs with, the response is
/// attested.
pub proof fn law_response(v: ResponseView, seed: Seq<u8>, text: Seq<u8>)
    requires
        is_response(v, seed, text),
    ensures
        text == json::json_text(response_members(v, seed)),
        vstd::utf8::valid_utf8(text),
        json::json_object(text) is Some ==> json::reads_back(
            json::json_object(text)->0,
            response_members(v, seed),
        ),
        (json::json_object(v.raw) matches Some(o) ==> json::all_float_free(o)) ==> json::json_object(
            text,
        ) == Some(response_members(v, seed)),
        json::json_object(text) is Some && crypto::iroh_endpoint_key(v.node) == Some(
            crypto::ed25519_public(seed),
        ) ==> is_attested(json::json_object(text)->0, v.raw),
{
}

/// An attested response: the body stands in it as base64, and its signature, in hexadecimal, is one
/// that Ed25519 accepts under the key that the node is named by, over the name of the node, the
/// status, the time and that body.
pub proof fn law_attested(members: Members, raw: Seq<u8>)
    requires
        is_attested(members, raw),
    ensures
        members["pdata"@] is Object,
        ({
            let p = members["pdata"@]->Object_0;
            &&& p["body_b64"@] == JsonView::Text(encoding::base64_text(raw))
            &&& p["node_id"@] is Text && p["status"@] is UInt && p["signed_at"@] is UInt
            &&& p["sig"@] is Text
            &&& crypto::iroh_endpoint_key(p["node_id"@]->Text_0) is Some
            &&& hexadecimal::hex_bytes(p["sig"@]->Text_0) is Some
            &&& crypto::ed25519_verifies(
                crypto::iroh_endpoint_key(p["node_id"@]->Text_0)->0,
                vstd::utf8::encode_utf8(p["node_id"@]->Text_0) + seq![0x7cu8]
                    + vstd::utf8::encode_utf8(text::decimal(p["status"@]->UInt_0 as nat)) + seq![
                    0x7cu8,
                ] + vstd::utf8::encode_utf8(text::decimal(p["signed_at"@]->UInt_0 as nat)) + seq![
                    0x7cu8,
                ] + raw,
                hexadecimal::hex_bytes(p["sig"@]->Text_0)->0,
            )
        }),
{
    let p = members["pdata"@]->Object_0;
    law_canonical_layout(
        p["node_id"@]->Text_0,
        p["status"@]->UInt_0,
        p["signed_at"@]->UInt_0,
        raw,
    );
}

/// The answer of a local instance goes to the client under the status that the instance gave,
/// whatever it is, and with its body, and the signature is over that same status and body. The
/// members of the response and of `pdata` are returned.
pub proof fn law_answered(
    node: Seq<char>,
    e: EndpointView,
    status: u16,
    body: Vec<u8>,
    relayed: bool,
    signed_at: u64,
    seed: Seq<u8>,
    text: Seq<u8>,
) -> (r: (Members, Members))
    requires
        ({
            let u = Upstream::Answered { status, body };
            is_answer(answer_view(node, e, u, relayed, signed_at), u, seed, text)
        }),
    ensures
        text == json::json_text(r.0),
        json::json_object(text) is Some ==> json::reads_back(json::json_object(text)->0, r.0),
        r.0.dom().contains("pdata"@),
        r.0["pdata"@] == JsonView::Object(r.1),
        r.1["status"@] == JsonView::UInt(status as u64),
        r.1["body_b64"@] == JsonView::Text(encoding::base64_text(body@)),
        r.1["node_id"@] == JsonView::Text(node),
        r.1["name"@] == JsonView::Text(e.name),
        r.1["signed_at"@] == JsonView::UInt(signed_at),
        r.1["relayed"@] == JsonView::Bool(relayed),
        r.1["sig"@] == JsonView::Text(
            hexadecimal::hex_text(
                crypto::ed25519_signature(
                    seed,
                    vstd::utf8::encode_utf8(node) + seq![0x7cu8] + vstd::utf8::encode_utf8(
                        text::decimal(status as nat),
                    ) + seq![0x7cu8] + vstd::utf8::encode_utf8(text::decimal(signed_at as nat))
                        + seq![0x7cu8] + body@,
                ),
            ),
        ),
        json::json_object(body@) matches Some(o) ==> forall|k: Seq<char>|
            k != "pdata"@ && #[trigger] o.dom().contains(k) ==> r.0.dom().contains(k) && r.0[k]
                == o[k],
{
    let v = answer_view(node, e, Upstream::Answered { status, body }, relayed, signed_at);
    let p = law_response_members(v, seed);
    (response_members(v, seed), p)
}

/// Where the local instance could not be reached, the client can read the response: it says so with
/// the reason, under the status 502.
pub proof fn law_unreachable(
    node: Seq<char>,
    e: EndpointView,
    detail: String,
    relayed: bool,
    signed_at: u64,
    seed: Seq<u8>,
    text: Seq<u8>,
)
    requires
        ({
            let u = Upstream::Unreachable { detail };
            is_answer(answer_view(node, e, u, relayed, signed_at), u, seed, text)
        }),
    ensures
        json::json_object(text) is Some,
        ({
            let m = json::json_object(text)->0;
            &&& m["error"@] == JsonView::Text("upstream_unreachable"@)
            &&& m["detail"@] == JsonView::Text(detail@)
            &&& m["pdata"@] matches JsonView::Object(p)
            &&& p["status"@] == JsonView::UInt(502)
            &&& p["node_id"@] == JsonView::Text(node)
            &&& p["name"@] == JsonView::Text(e.name)
            &&& p["signed_at"@] == JsonView::UInt(signed_at)
            &&& p["relayed"@] == JsonView::Bool(relayed)
            &&& p["body_b64"@] == JsonView::Text(
                encoding::base64_text(
                    json::json_text(
                        Members::empty().insert(
                            "error"@,
                            JsonView::Text("upstream_unreachable"@),
                        ).insert("detail"@, JsonView::Text(detail@)),
                    ),
                ),
            )
        }),
{
    lemma_error_names();
    let v = answer_view(node, e, Upstream::Unreachable { detail }, relayed, signed_at);
    let p = law_response_members(v, seed);
    let o = json::json_object(v.raw)->0;
    assert(o.dom().contains("error"@) && o.dom().contains("detail"@));
    assert(response_members(v, seed).dom().contains("error"@));
    assert(response_members(v, seed).dom().contains("detail"@));
}

proof fn lemma_error_names()
    ensures
        "error"@ != "detail"@,
        "error"@ != "pdata"@,
        "detail"@ != "pdata"@,
{
    reveal_strlit("error");
    reveal_strlit("detail");
    reveal_strlit("pdata");
    assert("error"@[0] == 'e' && "pdata"@[0] == 'p');
    assert("detail"@.len() == 6);
}

/// A peer that makes too many requests can read the response: it says so, under the status 429 and
/// for the target that was asked for.
pub proof fn law_rejection(
    node: Seq<char>,
    target: Seq<char>,
    signed_at: u64,
    seed: Seq<u8>,
    text: Seq<u8>,
)
    requires
        is_rejection(node, target, signed_at, seed, text),
    ensures
        json::json_object(text) is Some,
        ({
            let m = json::json_object(text)->0;
            &&& m["error"@] == JsonView::Text("rate_limited"@)
            &&& m["detail"@] == JsonView::Text("превышен лимит запросов на этот PeerID"@)
            &&& m["pdata"@] matches JsonView::Object(p)
            &&& p["status"@] == JsonView::UInt(429)
            &&& p["node_id"@] == JsonView::Text(node)
            &&& p["name"@] == JsonView::Text(target)
            &&& p["signed_at"@] == JsonView::UInt(signed_at)
            &&& p["relayed"@] == JsonView::Bool(false)
        }),
        crypto::iroh_endpoint_key(node) == Some(crypto::ed25519_public(seed)) ==> is_attested(
            json::json_object(text)->0,
            json::json_text(
                Members::empty().insert("error"@, JsonView::Text("rate_limited"@)).insert(
                    "detail"@,
                    JsonView::Text("превышен лимит запросов на этот PeerID"@),
                ),
            ),
        ),
{
    lemma_error_names();
    let v = rejection(node, target, signed_at);
    let p = law_response_members(v, seed);
    let o = json::json_object(v.raw)->0;
    assert(o.dom().contains("error"@) && o.dom().contains("detail"@));
    assert(response_members(v, seed).dom().contains("error"@));
    assert(response_members(v, seed).dom().contains("detail"@));
}

/// An endpoint that is there speaks `rpc`, and `ws` where the configuration has a URL for tunnels,
/// and nothing else.
pub proof fn law_protocol_names(e: Option<EndpointView>, name: Seq<char>)
    ensures
        protocol_names(e).contains(name) <==> e is Some && (name == "rpc"@ || name == "ws"@
            && e->0.local_ws_url is Some),
        protocol_names(e).no_duplicates(),
{
    reveal_strlit("rpc");
    reveal_strlit("ws");
    assert("rpc"@.len() == 3 && "ws"@.len() == 2);
    if e is Some {
        assert(protocol_names(e)[0] == "rpc"@);
        if e->0.local_ws_url is Some {
            assert(protocol_names(e)[1] == "ws"@);
        }
    }
}

/// A tunnel goes to the URL that the configuration has for tunnels, without the slashes at its end,
/// followed by the path; where there is no such URL there is no tunnel. Of the URL the first `k`
/// characters are left, for the `k` returned.
pub proof fn law_ws_url(e: Option<EndpointView>, path: Seq<char>) -> (k: int)
    ensures
        ws_url(e, path) is Some <==> e is Some && e->0.local_ws_url is Some,
        ws_url(e, path) matches Some(url) ==> ({
            let base = e->0.local_ws_url->0;
            &&& 0 <= k <= base.len()
            &&& url == base.take(k) + path
            &&& forall|j: int| k <= j < base.len() ==> #[trigger] base[j] == '/'
            &&& k > 0 ==> base[k - 1] != '/'
        }),
{
    if e is Some && e->0.local_ws_url is Some {
        text::law_strip_trailing(e->0.local_ws_url->0, '/')
    } else {
        0
    }
}

/// A call of a local instance is given up after five seconds.
pub proof fn law_call_timeout()
    ensures
        HTTP_TIMEOUT_SECS == 5,
{
}

} // verus!
