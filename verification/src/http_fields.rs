//! The parts of an HTTP request that come from a client: which methods and headers are valid, and
//! which headers go on to the local instance.
use crate::headers;
use crate::text;
use vstd::prelude::*;

verus! {

/// Whether `c` may stand in a token of HTTP.
pub open spec fn is_token_char(c: char) -> bool {
    ||| '0' <= c <= '9'
    ||| 'a' <= c <= 'z'
    ||| 'A' <= c <= 'Z'
    ||| "!#$%&'*+-.^_`|~"@.contains(c)
}

/// Whether `s` is a token of HTTP.
pub open spec fn is_token(s: Seq<char>) -> bool {
    s.len() > 0 && forall|i: int| 0 <= i < s.len() ==> is_token_char(#[trigger] s[i])
}

/// The length of the longest header name.
pub const MAX_HEADER_NAME: usize = 65535;

/// Whether `s` is the name of a header.
pub open spec fn is_header_name(s: Seq<char>) -> bool {
    is_token(s) && s.len() <= MAX_HEADER_NAME
}

/// Whether `s` is the value of a header.
pub open spec fn is_header_value(s: Seq<char>) -> bool {
    forall|i: int|
        0 <= i < s.len() ==> #[trigger] s[i] == '\t' || (' ' <= s[i] && s[i] != '\u{7f}')
}

/// `http::Method::from_bytes` accepts exactly the tokens of HTTP, and keeps them as they are.
#[verifier::external_body]
pub(crate) fn http_method(s: &str) -> (r: Option<String>)
    ensures
        match r {
            Some(m) => is_token(s@) && m@ == s@,
            None => !is_token(s@),
        },
{
    match reqwest::Method::from_bytes(s.as_bytes()) {
        Ok(m) => Some(m.as_str().to_owned()),
        Err(_) => None,
    }
}

/// `http::HeaderName::from_bytes` accepts exactly the tokens of at most 65535 characters, and turns
/// them into lower case.
#[verifier::external_body]
pub(crate) fn http_header_name(s: &str) -> (r: Option<String>)
    ensures
        match r {
            Some(n) => is_header_name(s@) && n@ == text::ascii_lower(s@),
            None => !is_header_name(s@),
        },
{
    match reqwest::header::HeaderName::from_bytes(s.as_bytes()) {
        Ok(n) => Some(n.as_str().to_owned()),
        Err(_) => None,
    }
}

/// `http::HeaderValue::from_str` accepts exactly the texts without control characters other than
/// the tabulator.
#[verifier::external_body]
pub(crate) fn http_header_value(s: &str) -> (r: bool)
    ensures
        r == is_header_value(s@),
{
    reqwest::header::HeaderValue::from_str(s).is_ok()
}

/// Whether a header with this name, in lower case, belongs to one hop alone, or tells the local
/// instance of the client.
pub open spec fn is_hop_name(l: Seq<char>) -> bool {
    ||| l == "host"@
    ||| l == "connection"@
    ||| l == "content-length"@
    ||| l == "transfer-encoding"@
    ||| l == "upgrade"@
    ||| l == "proxy-connection"@
    ||| l == "keep-alive"@
    ||| l == "origin"@
    ||| l == "referer"@
    ||| l == "user-agent"@
}

/// Whether a header with this name, in lower case, is made by the WebSocket handshake itself.
pub open spec fn is_ws_handshake_name(l: Seq<char>) -> bool {
    ||| l == "sec-websocket-key"@
    ||| l == "sec-websocket-version"@
    ||| l == "sec-websocket-accept"@
}

/// Whether a header goes on to the local instance; `ws` tells whether it does so in a WebSocket
/// handshake.
pub open spec fn is_forwarded(name: Seq<char>, ws: bool) -> bool {
    &&& !is_hop_name(text::ascii_lower(name))
    &&& !(ws && is_ws_handshake_name(text::ascii_lower(name)))
}

/// The headers that go on to the local instance, in order, their names in lower case.
pub open spec fn forwarded(list: Seq<headers::HeaderView>, ws: bool) -> Seq<headers::HeaderView>
    decreases list.len(),
{
    if list.len() == 0 {
        Seq::empty()
    } else {
        let before = forwarded(list.drop_last(), ws);
        let h = list.last();
        if is_forwarded(h.0, ws) && is_header_name(h.0) && is_header_value(h.1) {
            before.push((text::ascii_lower(h.0), h.1))
        } else {
            before
        }
    }
}

/// Whether a header has the name `l`, which is in lower case, whether or not it is valid.
pub open spec fn has_name(list: Seq<headers::HeaderView>, l: Seq<char>) -> bool {
    exists|i: int| 0 <= i < list.len() && text::ascii_lower((#[trigger] list[i]).0) == l
}

/// What goes on to the local instance comes from the client, is valid, and holds no header that
/// belongs to one hop alone, nor one that a WebSocket handshake makes itself.
pub proof fn law_forwarded_headers(list: Seq<headers::HeaderView>, ws: bool, i: int)
    requires
        0 <= i < forwarded(list, ws).len(),
    ensures
        ({
            let h = forwarded(list, ws)[i];
            &&& !is_hop_name(h.0)
            &&& ws ==> !is_ws_handshake_name(h.0)
            &&& is_header_value(h.1)
            &&& exists|j: int|
                0 <= j < list.len() && text::ascii_lower((#[trigger] list[j]).0) == h.0 && list[j].1
                    == h.1 && is_header_name(list[j].0)
        }),
    decreases list.len(),
{
    let init = list.drop_last();
    let before = forwarded(init, ws);
    if i < before.len() {
        law_forwarded_headers(init, ws, i);
        let h = before[i];
        let j = choose|j: int|
            0 <= j < init.len() && text::ascii_lower((#[trigger] init[j]).0) == h.0 && init[j].1
                == h.1 && is_header_name(init[j].0);
        assert(list[j] == init[j]);
    } else {
        assert(list[list.len() - 1] == list.last());
    }
}

/// Whether a header with this name, in lower case, belongs to one hop alone, or tells the local
/// instance of the client.
fn hop_name(l: &str) -> (r: bool)
    ensures
        r == is_hop_name(l@),
{
    text::same_text(l, "host") || text::same_text(l, "connection") || text::same_text(
        l,
        "content-length",
    ) || text::same_text(l, "transfer-encoding") || text::same_text(l, "upgrade")
        || text::same_text(l, "proxy-connection") || text::same_text(l, "keep-alive")
        || text::same_text(l, "origin") || text::same_text(l, "referer") || text::same_text(
        l,
        "user-agent",
    )
}

/// Whether a header with this name, in lower case, is made by the WebSocket handshake itself.
fn ws_handshake_name(l: &str) -> (r: bool)
    ensures
        r == is_ws_handshake_name(l@),
{
    text::same_text(l, "sec-websocket-key") || text::same_text(l, "sec-websocket-version")
        || text::same_text(l, "sec-websocket-accept")
}

/// The headers that go on to the local instance, in order, their names in lower case.
pub fn forward(list: &Vec<(String, String)>, ws: bool) -> (r: Vec<(String, String)>)
    ensures
        headers::header_views(r@) == forwarded(headers::header_views(list@), ws),
{
    let mut r: Vec<(String, String)> = Vec::new();
    let ghost all = headers::header_views(list@);
    let mut i: usize = 0;
    while i < list.len()
        invariant
            i <= list@.len(),
            all == headers::header_views(list@),
            headers::header_views(r@) == forwarded(all.take(i as int), ws),
        decreases list@.len() - i,
    {
        let name = list[i].0.as_str();
        let value = list[i].1.as_str();
        let ghost was = headers::header_views(r@);
        proof {
            assert(all.take(i + 1).drop_last() == all.take(i as int));
            assert(all.take(i + 1).last() == (name@, value@));
        }
        let l = text::to_ascii_lowercase(name);
        if !hop_name(l.as_str()) && !(ws && ws_handshake_name(l.as_str())) {
            if let Some(n) = http_header_name(name) {
                if http_header_value(value) {
                    r.push((n, value.to_owned()));
                    assert(headers::header_views(r@) == was.push(
                        (text::ascii_lower(name@), value@),
                    ));
                }
            }
        }
        i = i + 1;
    }
    assert(all.take(i as int) == all);
    r
}

/// Whether a header has the name `l`, which is in lower case, whether or not it is valid.
pub fn names(list: &Vec<(String, String)>, l: &str) -> (r: bool)
    ensures
        r == has_name(headers::header_views(list@), l@),
{
    let ghost all = headers::header_views(list@);
    let mut i: usize = 0;
    while i < list.len()
        invariant
            i <= list@.len(),
            all == headers::header_views(list@),
            forall|j: int| 0 <= j < i ==> text::ascii_lower((#[trigger] all[j]).0) != l@,
        decreases list@.len() - i,
    {
        assert(all[i as int].0 == list@[i as int].0@);
        if text::same_text(text::to_ascii_lowercase(list[i].0.as_str()).as_str(), l) {
            return true;
        }
        i = i + 1;
    }
    false
}

/// The headers that belong to one hop alone, or tell of the client, and those that a WebSocket
/// handshake makes itself, by name.
pub proof fn law_withheld_names(l: Seq<char>)
    ensures
        is_hop_name(l) <==> seq![
            "host"@,
            "connection"@,
            "content-length"@,
            "transfer-encoding"@,
            "upgrade"@,
            "proxy-connection"@,
            "keep-alive"@,
            "origin"@,
            "referer"@,
            "user-agent"@,
        ].contains(l),
        is_ws_handshake_name(l) <==> seq![
            "sec-websocket-key"@,
            "sec-websocket-version"@,
            "sec-websocket-accept"@,
        ].contains(l),
{
    let hop = seq![
        "host"@,
        "connection"@,
        "content-length"@,
        "transfer-encoding"@,
        "upgrade"@,
        "proxy-connection"@,
        "keep-alive"@,
        "origin"@,
        "referer"@,
        "user-agent"@,
    ];
    let ws = seq!["sec-websocket-key"@, "sec-websocket-version"@, "sec-websocket-accept"@];
    assert(hop[0] == "host"@ && hop[1] == "connection"@ && hop[2] == "content-length"@);
    assert(hop[3] == "transfer-encoding"@ && hop[4] == "upgrade"@);
    assert(hop[5] == "proxy-connection"@ && hop[6] == "keep-alive"@ && hop[7] == "origin"@);
    assert(hop[8] == "referer"@ && hop[9] == "user-agent"@);
    assert(ws[0] == "sec-websocket-key"@ && ws[1] == "sec-websocket-version"@);
    assert(ws[2] == "sec-websocket-accept"@);
}

/// Every header of the client goes on to the local instance, its name in lower case and its value
/// as it is, unless its name is withheld or it is not valid; each is decided by itself alone, and
/// the order stays.
pub proof fn law_headers_go_on(
    a: Seq<headers::HeaderView>,
    b: Seq<headers::HeaderView>,
    h: headers::HeaderView,
    ws: bool,
)
    ensures
        forwarded(a + b, ws) == forwarded(a, ws) + forwarded(b, ws),
        ({
            let l = text::ascii_lower(h.0);
            let withheld = is_hop_name(l) || ws && is_ws_handshake_name(l);
            forwarded(seq![h], ws) == (if !withheld && is_header_name(h.0) && is_header_value(h.1) {
                seq![(l, h.1)]
            } else {
                Seq::empty()
            })
        }),
    decreases b.len(),
{
    if b.len() == 0 {
        assert(a + b == a);
        assert(forwarded(a, ws) + Seq::<headers::HeaderView>::empty() == forwarded(a, ws));
    } else {
        law_headers_go_on(a, b.drop_last(), h, ws);
        assert((a + b).drop_last() == a + b.drop_last());
        assert((a + b).last() == b.last());
        assert(forwarded(a + b, ws) == forwarded(a, ws) + forwarded(b, ws));
    }
    let one = seq![h];
    assert(one.drop_last() == Seq::<headers::HeaderView>::empty());
    assert(forwarded(one.drop_last(), ws) == Seq::<headers::HeaderView>::empty());
    assert(one.last() == h);
    let l = text::ascii_lower(h.0);
    if !is_hop_name(l) && !(ws && is_ws_handshake_name(l)) && is_header_name(h.0)
        && is_header_value(h.1) {
        assert(forwarded(one, ws) == seq![(l, h.1)]);
    } else {
        assert(forwarded(one, ws) == Seq::<headers::HeaderView>::empty());
    }
}

/// A valid header of the client that is not withheld reaches the local instance.
pub proof fn law_valid_header_goes_on(list: Seq<headers::HeaderView>, ws: bool, j: int)
    requires
        0 <= j < list.len(),
        !is_hop_name(text::ascii_lower(list[j].0)),
        ws ==> !is_ws_handshake_name(text::ascii_lower(list[j].0)),
        is_header_name(list[j].0),
        is_header_value(list[j].1),
    ensures
        forwarded(list, ws).contains((text::ascii_lower(list[j].0), list[j].1)),
{
    let (a, h, b) = (list.take(j), list[j], list.skip(j + 1));
    let sent = (text::ascii_lower(h.0), h.1);
    assert(list == a + (seq![h] + b));
    law_headers_go_on(a, seq![h] + b, h, ws);
    law_headers_go_on(seq![h], b, h, ws);
    assert(forwarded(list, ws)[forwarded(a, ws).len() as int] == sent);
}

/// A header has a name whatever the case in which the client wrote it.
pub proof fn law_has_name(list: Seq<headers::HeaderView>, l: Seq<char>, j: int)
    ensures
        0 <= j < list.len() && text::ascii_lower(list[j].0) == l ==> has_name(list, l),
        has_name(list, l) ==> exists|i: int|
            0 <= i < list.len() && text::ascii_lower((#[trigger] list[i]).0) == l,
{
}

} // verus!
