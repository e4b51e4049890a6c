//! The nodes that are known, by the manifests that they announce.
use crate::bytes;
use crate::encoding;
use crate::ordered;
use crate::protocol;
use crate::protocol::BAR;
use crate::text;
use vstd::prelude::*;

verus! {

/// The signed manifest of a node.
#[derive(Debug)]
pub struct Manifest {
    /// The name of the node; the key that verifies the signature.
    pub node_id: String,
    /// The names of the endpoints that the node serves.
    pub endpoints: Vec<String>,
    /// The seconds since the node started.
    pub uptime_secs: u64,
    /// The mean latency of the node's local instances, in milliseconds.
    pub latency_ms: u64,
    /// The number of requests that the node has got.
    pub requests_total: u64,
    /// The time of signing, in seconds of Unix time.
    pub signed_at: u64,
    /// The version of the node's software.
    pub version: String,
    /// The signature over the canonical bytes, in hexadecimal.
    pub signature: String,
    /// The time at which the manifest was received, set by the receiver.
    pub seen_at: u64,
}

/// What a manifest holds.
pub struct ManifestView {
    pub node_id: Seq<char>,
    pub endpoints: Seq<Seq<char>>,
    pub uptime_secs: u64,
    pub latency_ms: u64,
    pub requests_total: u64,
    pub signed_at: u64,
    pub version: Seq<char>,
    pub signature: Seq<char>,
    pub seen_at: u64,
}

impl View for Manifest {
    type V = ManifestView;

    open spec fn view(&self) -> ManifestView {
        ManifestView {
            node_id: self.node_id@,
            endpoints: text::texts(self.endpoints@),
            uptime_secs: self.uptime_secs,
            latency_ms: self.latency_ms,
            requests_total: self.requests_total,
            signed_at: self.signed_at,
            version: self.version@,
            signature: self.signature@,
            seen_at: self.seen_at,
        }
    }
}

/// The four numbers that the canonical bytes of a manifest end with.
pub open spec fn manifest_numbers(m: ManifestView) -> Seq<u8> {
    bytes::be_bytes(m.uptime_secs as nat, 8).push(BAR) + (bytes::be_bytes(
        m.latency_ms as nat,
        8,
    ).push(BAR) + (bytes::be_bytes(m.requests_total as nat, 8).push(BAR) + bytes::be_bytes(
        m.signed_at as nat,
        8,
    )))
}

/// The bytes of a manifest that its signature covers:
/// `node_id | endpoints | uptime_secs | latency_ms | requests_total | signed_at`, the endpoints
/// with commas between them, the numbers with the most significant byte first.
pub open spec fn manifest_bytes(m: ManifestView) -> Seq<u8> {
    encoding::utf8(m.node_id).push(BAR) + (encoding::utf8(text::joined(m.endpoints, ',')).push(BAR)
        + manifest_numbers(m))
}

impl Manifest {
    /// The bytes that the signature covers: all fields but `version`, `signature` and `seen_at`.
    pub fn canonical_bytes(&self) -> (r: Vec<u8>)
        ensures
            r@ == manifest_bytes(self@),
    {
        let mut m: Vec<u8> = Vec::new();
        bytes::push_slice(&mut m, self.node_id.as_str().as_bytes());
        m.push(BAR);
        let names = text::join(&self.endpoints, ',', self.endpoints.len());
        assert(text::texts(self.endpoints@).take(self.endpoints@.len() as int) == self@.endpoints);
        bytes::push_slice(&mut m, names.as_str().as_bytes());
        m.push(BAR);
        bytes::push_be(&mut m, self.uptime_secs, 8);
        m.push(BAR);
        bytes::push_be(&mut m, self.latency_ms, 8);
        m.push(BAR);
        bytes::push_be(&mut m, self.requests_total, 8);
        m.push(BAR);
        bytes::push_be(&mut m, self.signed_at, 8);
        assert(m@ == manifest_bytes(self@));
        m
    }
}

impl Clone for Manifest {
    fn clone(&self) -> (r: Manifest)
        ensures
            r@ == self@,
    {
        Manifest {
            node_id: self.node_id.clone(),
            endpoints: text::clone_texts(&self.endpoints),
            uptime_secs: self.uptime_secs,
            latency_ms: self.latency_ms,
            requests_total: self.requests_total,
            signed_at: self.signed_at,
            version: self.version.clone(),
            signature: self.signature.clone(),
            seen_at: self.seen_at,
        }
    }
}

/// The canonical bytes of a manifest determine every field that they cover, for nodes whose names
/// are of one length or do not hold the separator; of the endpoints they determine the joined text, and the list itself
/// where it is not empty and no name holds a comma.
pub proof fn law_manifest_bytes_injective(a: ManifestView, b: ManifestView)
    requires
        manifest_bytes(a) == manifest_bytes(b),
        !a.node_id.contains('|') && !b.node_id.contains('|') || encoding::utf8(a.node_id).len()
            == encoding::utf8(b.node_id).len(),
    ensures
        a.node_id == b.node_id,
        text::joined(a.endpoints, ',') == text::joined(b.endpoints, ','),
        is_plain_list(a.endpoints) && is_plain_list(b.endpoints) ==> a.endpoints == b.endpoints,
        a.uptime_secs == b.uptime_secs,
        a.latency_ms == b.latency_ms,
        a.requests_total == b.requests_total,
        a.signed_at == b.signed_at,
{
    if !a.node_id.contains('|') && !b.node_id.contains('|') {
        encoding::lemma_ascii_byte(a.node_id, '|');
        encoding::lemma_ascii_byte(b.node_id, '|');
    }
    let ja = text::joined(a.endpoints, ',');
    let jb = text::joined(b.endpoints, ',');
    let na = manifest_numbers(a);
    let nb = manifest_numbers(b);
    let xa = encoding::utf8(ja).push(BAR) + na;
    let xb = encoding::utf8(jb).push(BAR) + nb;
    protocol::lemma_head_before_bar(
        encoding::utf8(a.node_id),
        xa,
        encoding::utf8(b.node_id),
        xb,
    );
    encoding::lemma_utf8_injective(a.node_id, b.node_id);
    lemma_numbers(a);
    lemma_numbers(b);
    assert(xa.len() == encoding::utf8(ja).len() + 1 + na.len());
    assert(xb.len() == encoding::utf8(jb).len() + 1 + nb.len());
    protocol::lemma_head_before_bar(encoding::utf8(ja), na, encoding::utf8(jb), nb);
    encoding::lemma_utf8_injective(ja, jb);
    if is_plain_list(a.endpoints) && is_plain_list(b.endpoints) {
        text::law_split_of_joined(a.endpoints, ',');
        text::law_split_of_joined(b.endpoints, ',');
    }
    let a1 = bytes::be_bytes(a.uptime_secs as nat, 8);
    let a2 = bytes::be_bytes(a.latency_ms as nat, 8);
    let a3 = bytes::be_bytes(a.requests_total as nat, 8);
    let a4 = bytes::be_bytes(a.signed_at as nat, 8);
    let b1 = bytes::be_bytes(b.uptime_secs as nat, 8);
    let b2 = bytes::be_bytes(b.latency_ms as nat, 8);
    let b3 = bytes::be_bytes(b.requests_total as nat, 8);
    let b4 = bytes::be_bytes(b.signed_at as nat, 8);
    protocol::lemma_head_before_bar(
        a1,
        a2.push(BAR) + (a3.push(BAR) + a4),
        b1,
        b2.push(BAR) + (b3.push(BAR) + b4),
    );
    protocol::lemma_head_before_bar(a2, a3.push(BAR) + a4, b2, b3.push(BAR) + b4);
    protocol::lemma_head_before_bar(a3, a4, b3, b4);
}

/// Whether a list has an element, and none of its elements holds a comma.
pub open spec fn is_plain_list(list: Seq<Seq<char>>) -> bool {
    list.len() > 0 && forall|i: int| 0 <= i < list.len() ==> !(#[trigger] list[i]).contains(',')
}

proof fn lemma_numbers(m: ManifestView)
    ensures
        manifest_numbers(m).len() == 35,
        bytes::be_bytes(m.uptime_secs as nat, 8).len() == 8,
        bytes::be_bytes(m.latency_ms as nat, 8).len() == 8,
        bytes::be_bytes(m.requests_total as nat, 8).len() == 8,
        bytes::be_value(bytes::be_bytes(m.uptime_secs as nat, 8)) == m.uptime_secs,
        bytes::be_value(bytes::be_bytes(m.latency_ms as nat, 8)) == m.latency_ms,
        bytes::be_value(bytes::be_bytes(m.requests_total as nat, 8)) == m.requests_total,
        bytes::be_value(bytes::be_bytes(m.signed_at as nat, 8)) == m.signed_at,
{
    bytes::lemma_pow256();
    bytes::law_be_value_of_bytes(m.uptime_secs as nat, 8);
    bytes::law_be_value_of_bytes(m.latency_ms as nat, 8);
    bytes::law_be_value_of_bytes(m.requests_total as nat, 8);
    bytes::law_be_value_of_bytes(m.signed_at as nat, 8);
}

/// The manifests of the nodes that are known, one for each node, in ascending order of their
/// names.
pub struct PeerStore {
    peers: Vec<Manifest>,
}

/// The views of a list of manifests.
pub open spec fn manifest_views(list: Seq<Manifest>) -> Seq<ManifestView> {
    list.map_values(|m: Manifest| m@)
}

/// A list of manifests as entries under the names of their nodes.
pub open spec fn by_node(list: Seq<ManifestView>) -> Seq<(Seq<char>, ManifestView)> {
    list.map_values(|m: ManifestView| (m.node_id, m))
}

/// The names of the nodes.
pub open spec fn node_ids(list: Seq<ManifestView>) -> Seq<Seq<char>> {
    list.map_values(|m: ManifestView| m.node_id)
}

/// The nodes but `exclude` that serve `target`.
pub open spec fn provider_ids(
    list: Seq<ManifestView>,
    target: Seq<char>,
    exclude: Seq<char>,
) -> Seq<Seq<char>>
    decreases list.len(),
{
    if list.len() == 0 {
        Seq::empty()
    } else {
        let before = provider_ids(list.drop_last(), target, exclude);
        if list.last().node_id != exclude && list.last().endpoints.contains(target) {
            before.push(list.last().node_id)
        } else {
            before
        }
    }
}

/// The nodes but `exclude`.
pub open spec fn other_ids(list: Seq<ManifestView>, exclude: Seq<char>) -> Seq<Seq<char>>
    decreases list.len(),
{
    if list.len() == 0 {
        Seq::empty()
    } else {
        let before = other_ids(list.drop_last(), exclude);
        if list.last().node_id != exclude {
            before.push(list.last().node_id)
        } else {
            before
        }
    }
}

impl View for PeerStore {
    type V = Seq<ManifestView>;

    closed spec fn view(&self) -> Seq<ManifestView> {
        manifest_views(self.peers@)
    }
}

/// Whether a list holds a text.
fn holds(list: &Vec<String>, s: &str) -> (r: bool)
    ensures
        r == text::texts(list@).contains(s@),
{
    let ghost all = text::texts(list@);
    let mut i: usize = 0;
    while i < list.len()
        invariant
            i <= list@.len(),
            all == text::texts(list@),
            forall|j: int| 0 <= j < i ==> #[trigger] all[j] != s@,
        decreases list@.len() - i,
    {
        assert(all[i as int] == list@[i as int]@);
        if text::same_text(list[i].as_str(), s) {
            return true;
        }
        i = i + 1;
    }
    false
}

proof fn lemma_by_node(list: Seq<ManifestView>, m: ManifestView)
    ensures
        by_node(list).contains((m.node_id, m)) <==> list.contains(m),
        ordered::keys(by_node(list)) == node_ids(list),
{
    if list.contains(m) {
        let i = choose|i: int| 0 <= i < list.len() && list[i] == m;
        assert(by_node(list)[i] == (m.node_id, m));
    }
    if by_node(list).contains((m.node_id, m)) {
        let i = choose|i: int|
            0 <= i < by_node(list).len() && by_node(list)[i] == (m.node_id, m);
        assert(list[i] == m);
    }
    assert(ordered::keys(by_node(list)) == node_ids(list));
}

impl PeerStore {
    #[verifier::type_invariant]
    spec fn inv(&self) -> bool {
        text::ascending(node_ids(manifest_views(self.peers@)))
    }

    /// A store without manifests.
    pub fn new() -> (r: PeerStore)
        ensures
            r@ == Seq::<ManifestView>::empty(),
    {
        let r = PeerStore { peers: Vec::new() };
        assert(r@ == Seq::<ManifestView>::empty());
        r
    }

    /// Stores the manifest of a node, in place of the one that it had. The manifests of other
    /// nodes stay as they are.
    pub fn upsert(&mut self, m: Manifest)
        ensures
            text::ascending(node_ids(final(self)@)),
            forall|x: ManifestView| #[trigger]
                final(self)@.contains(x) <==> (if x.node_id == m@.node_id {
                    x == m@
                } else {
                    old(self)@.contains(x)
                }),
    {
        proof {
            use_type_invariant(&*self);
        }
        let mut peers: Vec<Manifest> = Vec::new();
        std::mem::swap(&mut peers, &mut self.peers);
        let ghost before = manifest_views(peers@);
        let ghost names = node_ids(before);
        let ghost v = m@;
        let mut i: usize = 0;
        let mut same: bool = false;
        while i < peers.len()
            invariant_except_break
                !same,
            invariant
                i <= peers@.len(),
                before == manifest_views(peers@),
                names == node_ids(before),
                text::ascending(names),
                m@ == v,
                forall|j: int| 0 <= j < i ==> text::precedes(#[trigger] names[j], v.node_id),
            ensures
                same ==> i < peers@.len() && names[i as int] == v.node_id,
                !same && i < peers@.len() ==> text::precedes(v.node_id, names[i as int]),
            decreases peers@.len() - i,
        {
            assert(names[i as int] == peers@[i as int].node_id@);
            match text::place_of(m.node_id.as_str(), peers[i].node_id.as_str()) {
                text::Place::Before => {
                    break;
                },
                text::Place::Same => {
                    same = true;
                    break;
                },
                text::Place::After => {},
            }
            i = i + 1;
        }
        proof {
            lemma_by_node(before, v);
        }
        if same {
            peers.set(i, m);
            proof {
                let after = manifest_views(peers@);
                assert(after == before.update(i as int, v));
                assert(by_node(after) == by_node(before).update(i as int, (v.node_id, v)));
                assert(node_ids(after) == names);
                ordered::lemma_updated(by_node(before), i as int, v.node_id, v);
            }
        } else {
            peers.insert(i, m);
            proof {
                let after = manifest_views(peers@);
                assert(after == before.insert(i as int, v));
                assert(by_node(after) == by_node(before).insert(i as int, (v.node_id, v)));
                ordered::lemma_inserted(by_node(before), i as int, v.node_id, v);
                lemma_by_node(after, v);
            }
        }
        proof {
            let after = manifest_views(peers@);
            assert forall|x: ManifestView| #[trigger]
                after.contains(x) <==> (if x.node_id == v.node_id {
                    x == v
                } else {
                    before.contains(x)
                }) by {
                lemma_by_node(after, x);
                lemma_by_node(before, x);
            }
        }
        self.peers = peers;
    }

    /// The manifests of all nodes.
    pub fn list(&self) -> (r: &Vec<Manifest>)
        ensures
            manifest_views(r@) == self@,
            text::ascending(node_ids(self@)),
    {
        proof {
            use_type_invariant(&*self);
        }
        &self.peers
    }

    /// The nodes but `exclude` that serve `target`.
    pub fn providers_of(&self, target: &str, exclude: &str) -> (r: Vec<String>)
        ensures
            text::texts(r@) == provider_ids(self@, target@, exclude@),
    {
        let mut r: Vec<String> = Vec::new();
        let ghost all = self@;
        let mut i: usize = 0;
        while i < self.peers.len()
            invariant
                i <= self.peers@.len(),
                all == manifest_views(self.peers@),
                text::texts(r@) == provider_ids(all.take(i as int), target@, exclude@),
            decreases self.peers@.len() - i,
        {
            let ghost was = text::texts(r@);
            let m = &self.peers[i];
            proof {
                assert(all.take(i + 1).drop_last() == all.take(i as int));
                assert(all.take(i + 1).last() == m@);
            }
            if !text::same_text(m.node_id.as_str(), exclude) && holds(&m.endpoints, target) {
                r.push(m.node_id.clone());
                assert(text::texts(r@) == was.push(m.node_id@));
            }
            i = i + 1;
        }
        assert(all.take(i as int) == all);
        r
    }

    /// The nodes but `exclude`.
    pub fn others(&self, exclude: &str) -> (r: Vec<String>)
        ensures
            text::texts(r@) == other_ids(self@, exclude@),
    {
        let mut r: Vec<String> = Vec::new();
        let ghost all = self@;
        let mut i: usize = 0;
        while i < self.peers.len()
            invariant
                i <= self.peers@.len(),
                all == manifest_views(self.peers@),
                text::texts(r@) == other_ids(all.take(i as int), exclude@),
            decreases self.peers@.len() - i,
        {
            let ghost was = text::texts(r@);
            let m = &self.peers[i];
            proof {
                assert(all.take(i + 1).drop_last() == all.take(i as int));
                assert(all.take(i + 1).last() == m@);
            }
            if !text::same_text(m.node_id.as_str(), exclude) {
                r.push(m.node_id.clone());
                assert(text::texts(r@) == was.push(m.node_id@));
            }
            i = i + 1;
        }
        assert(all.take(i as int) == all);
        r
    }
}

/// The nodes that serve a target are other nodes: they are known, they serve it, and the excluded
/// node is not among them.
pub proof fn law_providers_serve_the_target(
    list: Seq<ManifestView>,
    target: Seq<char>,
    exclude: Seq<char>,
    id: Seq<char>,
)
    ensures
        provider_ids(list, target, exclude).contains(id) <==> id != exclude && exists|i: int|
            0 <= i < list.len() && (#[trigger] list[i]).node_id == id && list[i].endpoints.contains(
                target,
            ),
    decreases list.len(),
{
    let all = provider_ids(list, target, exclude);
    if list.len() > 0 {
        let init = list.drop_last();
        let before = provider_ids(init, target, exclude);
        let last = list.last();
        law_providers_serve_the_target(init, target, exclude, id);
        if before.contains(id) {
            let i = choose|i: int|
                0 <= i < init.len() && (#[trigger] init[i]).node_id == id
                    && init[i].endpoints.contains(target);
            assert(list[i].node_id == id);
            let j = choose|j: int| 0 <= j < before.len() && before[j] == id;
            assert(all[j] == id);
        }
        if last.node_id == id && id != exclude && last.endpoints.contains(target) {
            assert(list[list.len() - 1].node_id == id);
            assert(all[all.len() - 1] == id);
        }
        if all.contains(id) && !before.contains(id) {
            let j = choose|j: int| 0 <= j < all.len() && all[j] == id;
            assert(j == before.len());
            assert(list[list.len() - 1].node_id == id);
        }
        if id != exclude && exists|i: int|
            0 <= i < list.len() && (#[trigger] list[i]).node_id == id && list[i].endpoints.contains(
                target,
            ) {
            let i = choose|i: int|
                0 <= i < list.len() && (#[trigger] list[i]).node_id == id
                    && list[i].endpoints.contains(target);
            if i < init.len() {
                assert(init[i].node_id == id);
                assert(before.contains(id));
            }
        }
    }
}

/// The other nodes are all known nodes but the excluded one.
pub proof fn law_others_are_known(list: Seq<ManifestView>, exclude: Seq<char>, id: Seq<char>)
    ensures
        other_ids(list, exclude).contains(id) <==> id != exclude && node_ids(list).contains(id),
    decreases list.len(),
{
    let all = other_ids(list, exclude);
    let ids = node_ids(list);
    if list.len() > 0 {
        let init = list.drop_last();
        let before = other_ids(init, exclude);
        law_others_are_known(init, exclude, id);
        assert(node_ids(init) == ids.drop_last());
        if before.contains(id) {
            let j = choose|j: int| 0 <= j < before.len() && before[j] == id;
            assert(all[j] == id);
            let k = choose|k: int| 0 <= k < ids.drop_last().len() && ids.drop_last()[k] == id;
            assert(ids[k] == id);
        }
        if ids.contains(id) && id != exclude {
            let k = choose|k: int| 0 <= k < ids.len() && ids[k] == id;
            if k < ids.len() - 1 {
                assert(ids.drop_last()[k] == id);
            } else {
                assert(all[all.len() - 1] == id);
            }
        }
        if all.contains(id) && !before.contains(id) {
            let j = choose|j: int| 0 <= j < all.len() && all[j] == id;
            assert(j == before.len());
            assert(ids[ids.len() - 1] == id);
        }
    }
}

/// What the signature of a manifest covers, part by part: the name of the node and the names of its
/// endpoints with commas between them, then four numbers of eight bytes, the most significant
/// first, with a bar between one part and the next.
pub proof fn law_manifest_layout(m: ManifestView)
    ensures
        manifest_bytes(m) == vstd::utf8::encode_utf8(m.node_id) + seq![0x7cu8]
            + vstd::utf8::encode_utf8(text::joined(m.endpoints, ',')) + seq![0x7cu8]
            + bytes::be_bytes(m.uptime_secs as nat, 8) + seq![0x7cu8] + bytes::be_bytes(
            m.latency_ms as nat,
            8,
        ) + seq![0x7cu8] + bytes::be_bytes(m.requests_total as nat, 8) + seq![0x7cu8]
            + bytes::be_bytes(m.signed_at as nat, 8),
{
}

/// The nodes that serve a target, and all other nodes, come in the order in which the nodes are
/// known, each once.
pub proof fn law_nodes_in_order(list: Seq<ManifestView>, target: Seq<char>, exclude: Seq<char>)
    requires
        text::ascending(node_ids(list)),
    ensures
        text::ascending(provider_ids(list, target, exclude)),
        text::ascending(other_ids(list, exclude)),
    decreases list.len(),
{
    if list.len() > 0 {
        let init = list.drop_last();
        let ids = node_ids(list);
        assert(node_ids(init) == ids.drop_last());
        law_nodes_in_order(init, target, exclude);
        let last = list.last().node_id;
        assert(ids[ids.len() - 1] == last);
        let p = provider_ids(init, target, exclude);
        let o = other_ids(init, exclude);
        assert forall|i: int| 0 <= i < p.len() implies text::precedes(#[trigger] p[i], last) by {
            law_providers_serve_the_target(init, target, exclude, p[i]);
            assert(p.contains(p[i]));
            let k = choose|k: int|
                0 <= k < init.len() && (#[trigger] init[k]).node_id == p[i]
                    && init[k].endpoints.contains(target);
            assert(ids[k] == p[i]);
        }
        assert forall|i: int| 0 <= i < o.len() implies text::precedes(#[trigger] o[i], last) by {
            law_others_are_known(init, exclude, o[i]);
            assert(o.contains(o[i]));
            let k = choose|k: int| 0 <= k < node_ids(init).len() && node_ids(init)[k] == o[i];
            assert(ids[k] == o[i]);
        }
    }
}

/// The view of a manifest has its fields, and the views of manifests and the names of nodes stand
/// in the places of the manifests.
pub proof fn law_manifest_views(m: Manifest, list: Seq<Manifest>, views: Seq<ManifestView>)
    ensures
        m@.node_id == m.node_id@,
        m@.endpoints.len() == m.endpoints@.len(),
        forall|i: int|
            0 <= i < m.endpoints@.len() ==> #[trigger] m@.endpoints[i] == m.endpoints@[i]@,
        m@.uptime_secs == m.uptime_secs,
        m@.latency_ms == m.latency_ms,
        m@.requests_total == m.requests_total,
        m@.signed_at == m.signed_at,
        m@.version == m.version@,
        m@.signature == m.signature@,
        m@.seen_at == m.seen_at,
        manifest_views(list).len() == list.len(),
        forall|i: int| 0 <= i < list.len() ==> #[trigger] manifest_views(list)[i] == list[i]@,
        node_ids(views).len() == views.len(),
        forall|i: int|
            0 <= i < views.len() ==> #[trigger] node_ids(views)[i] == views[i].node_id,
{
}

} // verus!
