//! JSON objects, built, read and written by the `serde_json` crate.
use vstd::prelude::*;

verus! {

/// What a JSON value holds.
pub enum JsonView {
    Null,
    Bool(bool),
    /// A natural number of 64 bits.
    UInt(u64),
    /// A negative integer of 64 bits.
    NegInt(i64),
    /// Any other number, by its compact text: it is held as a floating-point number.
    Float(Seq<u8>),
    Text(Seq<char>),
    Array(Seq<JsonView>),
    Object(Map<Seq<char>, JsonView>),
}

/// The number of levels of arrays and objects that a member may have, so that the object it stands
/// in can be read.
pub const MEMBER_LEVELS: usize = 126;

/// The members of a JSON object.
pub type Members = Map<Seq<char>, JsonView>;

/// The map type of the `serde_json` crate.
#[verifier::external_type_specification]
#[verifier::external_body]
#[verifier::reject_recursive_types(K)]
#[verifier::reject_recursive_types(V)]
pub struct ExJsonMap<K, V>(serde_json::Map<K, V>);

/// The value type of the `serde_json` crate.
#[verifier::external_type_specification]
#[verifier::external_body]
pub struct ExJsonValue(serde_json::Value);

/// The error type of the `serde_json` crate.
#[verifier::external_type_specification]
#[verifier::external_body]
pub struct ExJsonError(serde_json::Error);

/// The members that a map of JSON values holds.
pub uninterp spec fn json_members(
    m: serde_json::Map<String, serde_json::Value>,
) -> Map<Seq<char>, JsonView>;

/// The members of the JSON object that some bytes hold; `None` where they are no JSON text, or
/// hold another value.
pub uninterp spec fn json_object(bytes: Seq<u8>) -> Option<Map<Seq<char>, JsonView>>;

/// The compact JSON text of the object with these members.
pub uninterp spec fn json_text(members: Map<Seq<char>, JsonView>) -> Seq<u8>;

/// Whether `v` has no more than `levels` levels of arrays and objects.
pub open spec fn is_within(v: JsonView, levels: nat) -> bool
    decreases levels,
{
    match v {
        JsonView::Array(a) => if levels == 0 {
            false
        } else {
            forall|i: int| 0 <= i < a.len() ==> is_within(#[trigger] a[i], (levels - 1) as nat)
        },
        JsonView::Object(o) => if levels == 0 {
            false
        } else {
            forall|k: Seq<char>| #[trigger]
                o.dom().contains(k) ==> is_within(o[k], (levels - 1) as nat)
        },
        _ => true,
    }
}

/// Whether there is no floating-point number in `v`, down to `levels` levels of arrays and objects.
pub open spec fn is_float_free(v: JsonView, levels: nat) -> bool
    decreases levels,
{
    match v {
        JsonView::Float(_) => false,
        JsonView::Array(a) => if levels == 0 {
            true
        } else {
            forall|i: int| 0 <= i < a.len() ==> is_float_free(#[trigger] a[i], (levels - 1) as nat)
        },
        JsonView::Object(o) => if levels == 0 {
            true
        } else {
            forall|k: Seq<char>| #[trigger]
                o.dom().contains(k) ==> is_float_free(o[k], (levels - 1) as nat)
        },
        _ => true,
    }
}

/// Whether no member has too many levels.
pub open spec fn all_within(members: Members) -> bool {
    forall|k: Seq<char>| #[trigger]
        members.dom().contains(k) ==> is_within(members[k], MEMBER_LEVELS as nat)
}

/// Whether there is no floating-point number in any member.
pub open spec fn all_float_free(members: Members) -> bool {
    forall|k: Seq<char>| #[trigger]
        members.dom().contains(k) ==> is_float_free(members[k], MEMBER_LEVELS as nat)
}

/// Whether `v` is read back as it was written.
pub open spec fn is_exact(v: JsonView) -> bool {
    is_within(v, MEMBER_LEVELS as nat) && is_float_free(v, MEMBER_LEVELS as nat)
}

/// Whether an object that was read back has the names that were written, and the same value
/// wherever an exact one was written.
pub open spec fn reads_back(back: Members, members: Members) -> bool {
    &&& back.dom() == members.dom()
    &&& forall|k: Seq<char>|
        #[trigger] members.dom().contains(k) && is_exact(members[k]) ==> back[k] == members[k]
}

/// Whether reading `text` gives what is owed to a reader of the text of `members`: the reader
/// accepts the text of exact members, and what it accepts reads back.
pub open spec fn is_read_of(text: Seq<u8>, members: Members) -> bool {
    &&& all_within(members) && all_float_free(members) ==> json_object(text) is Some
    &&& json_object(text) is Some ==> reads_back(json_object(text)->0, members)
}

/// The text of exact members is read back as they were.
pub proof fn lemma_exact_text(text: Seq<u8>, members: Members)
    requires
        is_read_of(text, members),
        all_within(members),
        all_float_free(members),
    ensures
        json_object(text) == Some(members),
{
    let back = json_object(text)->0;
    assert forall|k: Seq<char>| #[trigger] members.dom().contains(k) implies back[k]
        == members[k] by {
        assert(is_exact(members[k]));
    }
    assert(back =~= members);
}

/// A JSON object.
pub struct JsonObject {
    map: serde_json::Map<String, serde_json::Value>,
}

/// A value to put into an object.
pub enum Json {
    Bool(bool),
    UInt(u64),
    Text(String),
    Object(JsonObject),
}

impl View for JsonObject {
    type V = Map<Seq<char>, JsonView>;

    closed spec fn view(&self) -> Map<Seq<char>, JsonView> {
        json_members(self.map)
    }
}

impl View for Json {
    type V = JsonView;

    open spec fn view(&self) -> JsonView {
        match self {
            Json::Bool(b) => JsonView::Bool(*b),
            Json::UInt(n) => JsonView::UInt(*n),
            Json::Text(s) => JsonView::Text(s@),
            Json::Object(o) => JsonView::Object(o@),
        }
    }
}

/// `serde_json::Map::new` makes a map without members.
#[verifier::external_body]
fn map_new() -> (r: serde_json::Map<String, serde_json::Value>)
    ensures
        json_members(r) == Members::empty(),
{
    serde_json::Map::new()
}

/// `serde_json::Map::insert` gives one name a value, in place of any that it had.
#[verifier::external_body]
fn map_insert(m: &mut serde_json::Map<String, serde_json::Value>, name: String, value: Json)
    ensures
        json_members(*final(m)) == json_members(*old(m)).insert(name@, value@),
{
    let v = match value {
        Json::Bool(b) => serde_json::Value::Bool(b),
        Json::UInt(n) => serde_json::Value::from(n),
        Json::Text(s) => serde_json::Value::String(s),
        Json::Object(o) => serde_json::Value::Object(o.map),
    };
    m.insert(name, v);
}

/// `serde_json::from_slice`, asked for any value, reads bytes by themselves alone; only an object
/// is kept. It refuses a value with more than 127 levels of arrays and objects, the outermost
/// object counted.
#[verifier::external_body]
fn map_from_slice(bytes: &[u8]) -> (r: Option<serde_json::Map<String, serde_json::Value>>)
    ensures
        match r {
            Some(m) => json_object(bytes@) == Some(json_members(m)) && all_within(json_members(m)),
            None => json_object(bytes@) is None,
        },
{
    match serde_json::from_slice::<serde_json::Value>(bytes) {
        Ok(serde_json::Value::Object(m)) => Some(m),
        Ok(_) => None,
        Err(_) => None,
    }
}

/// `serde_json::to_vec` of an object of JSON values always succeeds, and writes a text that
/// depends on the members alone and is valid UTF-8. `serde_json::from_slice` accepts the text where
/// no member has too many levels or a floating-point number in it, and where it accepts a text, it
/// reads such members back as they were, and any others under their names. Of a floating-point
/// number nothing more is claimed: it may change in its last digit when it is read back, or be
/// refused as too large.
#[verifier::external_body]
fn map_to_vec(m: serde_json::Map<String, serde_json::Value>) -> (r: Result<
    Vec<u8>,
    serde_json::Error,
>)
    ensures
        r is Ok,
        r->Ok_0@ == json_text(json_members(m)),
        vstd::utf8::valid_utf8(r->Ok_0@),
        is_read_of(r->Ok_0@, json_members(m)),
{
    serde_json::to_vec(&serde_json::Value::Object(m))
}

impl JsonObject {
    /// An object without members.
    pub fn new() -> (r: JsonObject)
        ensures
            r@ == Members::empty(),
    {
        JsonObject { map: map_new() }
    }

    /// The object that some bytes hold.
    pub fn parse(bytes: &[u8]) -> (r: Option<JsonObject>)
        ensures
            match r {
                Some(o) => json_object(bytes@) == Some(o@) && all_within(o@),
                None => json_object(bytes@) is None,
            },
    {
        match map_from_slice(bytes) {
            Some(map) => Some(JsonObject { map }),
            None => None,
        }
    }

    /// Gives `name` the value `value`, in place of any that it had.
    pub fn insert(&mut self, name: &str, value: Json)
        ensures
            final(self)@ == old(self)@.insert(name@, value@),
    {
        map_insert(&mut self.map, name.to_owned(), value);
    }

    /// The compact JSON text of the object.
    pub fn to_bytes(self) -> (r: Vec<u8>)
        ensures
            r@ == json_text(self@),
            vstd::utf8::valid_utf8(r@),
            is_read_of(r@, self@),
    {
        match map_to_vec(self.map) {
            Ok(bytes) => bytes,
            Err(_) => Vec::new(),
        }
    }
}

} // verus!
