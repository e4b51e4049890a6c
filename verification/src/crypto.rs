//! The keys of a node, all derived from one BIP-39 phrase.
//!
//! The first 32 bytes of the phrase's seed are the root. The root is at once the secret key of
//! the node's transport identity and its Ed25519 signing key, so that the name of a node is also
//! the key that verifies what the node signs.
use crate::hexadecimal;
use crate::text;
use vstd::prelude::*;

verus! {

/// The root key material derived from a phrase.
pub type Root = [u8; 32];

/// The number of words of a generated phrase.
pub const MNEMONIC_WORDS: usize = 12;

/// The error type of the `bip39` crate.
#[verifier::external_type_specification]
#[verifier::external_body]
pub struct ExBip39Error(bip39::Error);

/// Why a key could not be made.
#[derive(Debug)]
pub enum CryptoError {
    /// No phrase could be generated.
    Generate(bip39::Error),
    /// The text is not a valid phrase.
    Mnemonic(bip39::Error),
}

/// The secret key of the node's transport identity.
pub struct SecretKey {
    pub bytes: Root,
}

/// An Ed25519 signing key, held as its seed.
pub struct SigningKey {
    pub seed: Root,
}

/// The seed that BIP-39 derives from an English phrase and a passphrase; `None` where the text is
/// not a valid phrase.
pub uninterp spec fn bip39_seed(phrase: Seq<char>, passphrase: Seq<char>) -> Option<Seq<u8>>;

/// The Ed25519 public key of a seed.
pub uninterp spec fn ed25519_public(seed: Seq<u8>) -> Seq<u8>;

/// The Ed25519 signature of a message under a seed.
pub uninterp spec fn ed25519_signature(seed: Seq<u8>, msg: Seq<u8>) -> Seq<u8>;

/// Whether a public key is valid and accepts a signature of a message.
pub uninterp spec fn ed25519_verifies(key: Seq<u8>, msg: Seq<u8>, sig: Seq<u8>) -> bool;

/// The public key that a text names as an endpoint of the mesh, if it names one.
pub uninterp spec fn iroh_endpoint_key(s: Seq<char>) -> Option<Seq<u8>>;

/// Whether `s` is made of `words` runs of lower-case letters, with one space between two.
pub open spec fn is_phrase(s: Seq<char>, words: nat) -> bool {
    &&& s.len() > 0
    &&& s.first() != ' '
    &&& s.last() != ' '
    &&& forall|i: int| 0 <= i < s.len() ==> #[trigger] s[i] == ' ' || 'a' <= s[i] <= 'z'
    &&& forall|i: int| 0 < i < s.len() && #[trigger] s[i] == ' ' ==> s[i - 1] != ' '
    &&& text::split_on(s, ' ').len() == words
}

/// The root that a phrase stands for, if the phrase is valid.
pub open spec fn root_of(mnemonic: Seq<char>) -> Option<Seq<u8>> {
    match bip39_seed(text::trimmed(mnemonic), Seq::empty()) {
        Some(seed) => Some(seed.take(32)),
        None => None,
    }
}

/// Whether a key of 32 bytes accepts a signature of 64 bytes.
pub open spec fn accepts(key: Seq<u8>, msg: Seq<u8>, sig: Seq<u8>) -> bool {
    &&& key.len() == 32
    &&& sig.len() == 64
    &&& ed25519_verifies(key, msg, sig)
}

/// The name of the node whose root is `root`.
pub open spec fn node_name(root: Seq<u8>) -> Seq<char> {
    hexadecimal::hex_text(ed25519_public(root))
}

/// Whether `sig` is the hexadecimal text of a signature of `msg` that the key with the
/// hexadecimal text `node` accepts.
pub open spec fn hex_accepts(node: Seq<char>, msg: Seq<u8>, sig: Seq<char>) -> bool {
    match (hexadecimal::hex_bytes(node), hexadecimal::hex_bytes(sig)) {
        (Some(key), Some(bytes)) => accepts(key, msg, bytes),
        _ => false,
    }
}

/// `bip39::Mnemonic::generate_in` for the English language draws a phrase at random and, for a
/// count of 12, 15, 18, 21 or 24 words, always succeeds; the words are made of the letters a to z,
/// `to_string` puts one space between two of them, and the phrase is a valid one.
#[verifier::external_body]
fn bip39_generate(words: usize) -> (r: Result<String, bip39::Error>)
    ensures
        r is Ok <==> (12 <= words <= 24 && words % 3 == 0),
        r is Ok ==> is_phrase(r->Ok_0@, words as nat),
        r is Ok ==> bip39_seed(r->Ok_0@, Seq::empty()) is Some,
{
    match bip39::Mnemonic::generate_in(bip39::Language::English, words) {
        Ok(m) => Ok(m.to_string()),
        Err(e) => Err(e),
    }
}

/// `bip39::Mnemonic::parse_in_normalized` for the English language, and `to_seed` on what it
/// returns, give a result that depends on the phrase and the passphrase alone.
#[verifier::external_body]
fn bip39_to_seed(phrase: &str, passphrase: &str) -> (r: Result<[u8; 64], bip39::Error>)
    ensures
        match r {
            Ok(seed) => bip39_seed(phrase@, passphrase@) == Some(seed@),
            Err(_) => bip39_seed(phrase@, passphrase@) is None,
        },
{
    match bip39::Mnemonic::parse_in_normalized(bip39::Language::English, phrase) {
        Ok(m) => Ok(m.to_seed(passphrase)),
        Err(e) => Err(e),
    }
}

/// `iroh::SecretKey::public` gives the Ed25519 public key of the secret's bytes. Its text is the
/// key in lower-case hexadecimal, 64 digits, and an endpoint's name that parses to that key.
#[verifier::external_body]
fn iroh_public_name(secret: &Root) -> (r: String)
    ensures
        r@ == hexadecimal::hex_text(ed25519_public(secret@)),
        r@.len() == 64,
        iroh_endpoint_key(r@) == Some(ed25519_public(secret@)),
{
    iroh::SecretKey::from_bytes(secret).public().to_string()
}

/// Parsing an `iroh::EndpointId` either gives 32 bytes or fails, by the text alone.
#[verifier::external_body]
pub(crate) fn iroh_parse_endpoint(s: &str) -> (r: Option<[u8; 32]>)
    ensures
        match r {
            Some(key) => iroh_endpoint_key(s@) == Some(key@),
            None => iroh_endpoint_key(s@) is None,
        },
{
    match s.parse::<iroh::EndpointId>() {
        Ok(id) => Some(*id.as_bytes()),
        Err(_) => None,
    }
}

/// `ed25519_dalek::SigningKey::sign` is deterministic, and the public key of the signing key
/// accepts the signature that it makes.
#[verifier::external_body]
fn ed25519_sign(seed: &Root, msg: &[u8]) -> (r: [u8; 64])
    ensures
        r@ == ed25519_signature(seed@, msg@),
        accepts(ed25519_public(seed@), msg@, r@),
{
    let key = ed25519_dalek::SigningKey::from_bytes(seed);
    ed25519_dalek::Signer::sign(&key, msg).to_bytes()
}

/// `ed25519_dalek::VerifyingKey::from_bytes` and `verify`: whether the key is valid and accepts
/// the signature, by the three arguments alone.
#[verifier::external_body]
fn ed25519_verify(key: &[u8; 32], msg: &[u8], sig: &[u8; 64]) -> (r: bool)
    ensures
        r == ed25519_verifies(key@, msg@, sig@),
{
    let sig = ed25519_dalek::Signature::from_bytes(sig);
    match ed25519_dalek::VerifyingKey::from_bytes(key) {
        Ok(k) => ed25519_dalek::Verifier::verify(&k, msg, &sig).is_ok(),
        Err(_) => false,
    }
}

/// A phrase has no white space around it.
pub proof fn lemma_trimmed_phrase(s: Seq<char>, words: nat)
    requires
        is_phrase(s, words),
    ensures
        text::trimmed(s) == s,
{
    assert(s[0] == s.first());
    assert(s[s.len() - 1] == s.last());
}

/// A copy of the first `N` bytes of `bytes`.
fn array_of<const N: usize>(bytes: &[u8]) -> (r: [u8; N])
    requires
        N <= bytes@.len(),
    ensures
        r@ == bytes@.take(N as int),
{
    let mut r: [u8; N] = [0u8; N];
    let mut i: usize = 0;
    while i < N
        invariant
            i <= N <= bytes@.len(),
            r@.len() == N,
            forall|j: int| 0 <= j < i ==> r@[j] == bytes@[j],
        decreases N - i,
    {
        r[i] = bytes[i];
        i = i + 1;
    }
    r
}

/// Generates a new valid phrase of 12 words.
pub fn generate_mnemonic() -> (r: Result<String, CryptoError>)
    ensures
        r is Ok,
        is_phrase(r->Ok_0@, MNEMONIC_WORDS as nat),
        is_phrase(r->Ok_0@, 12),
        root_of(r->Ok_0@) is Some,
{
    match bip39_generate(MNEMONIC_WORDS) {
        Ok(phrase) => {
            proof {
                lemma_trimmed_phrase(phrase@, MNEMONIC_WORDS as nat);
            }
            Ok(phrase)
        },
        Err(e) => Err(CryptoError::Generate(e)),
    }
}

/// The root of a phrase: the first 32 bytes of its seed, with an empty passphrase.
pub fn root_from_mnemonic(mnemonic: &str) -> (r: Result<Root, CryptoError>)
    ensures
        match r {
            Ok(root) => root_of(mnemonic@) == Some(root@),
            Err(e) => root_of(mnemonic@) is None && e is Mnemonic,
        },
{
    let phrase = text::trim(mnemonic);
    proof {
        reveal_strlit("");
        assert(""@ == Seq::<char>::empty());
    }
    match bip39_to_seed(phrase.as_str(), "") {
        Ok(seed) => Ok(array_of::<32>(seed.as_slice())),
        Err(e) => Err(CryptoError::Mnemonic(e)),
    }
}

/// The secret key of the transport identity: the root itself.
pub fn iroh_secret(root: &Root) -> (r: SecretKey)
    ensures
        r.bytes == *root,
{
    SecretKey { bytes: *root }
}

/// The signing key: the root itself.
pub fn signing_key(root: &Root) -> (r: SigningKey)
    ensures
        r.seed == *root,
{
    SigningKey { seed: *root }
}

/// The name of the node that holds a secret key.
pub fn node_id(secret: &SecretKey) -> (r: String)
    ensures
        r@ == node_name(secret.bytes@),
        r@.len() == 64,
        iroh_endpoint_key(r@) == Some(ed25519_public(secret.bytes@)),
{
    iroh_public_name(&secret.bytes)
}

/// Signs a message; the signature in hexadecimal. The node that holds the key is the one whose
/// name accepts the signature.
pub fn sign_hex(sk: &SigningKey, msg: &[u8]) -> (r: String)
    ensures
        r@ == hexadecimal::hex_text(ed25519_signature(sk.seed@, msg@)),
        hex_accepts(node_name(sk.seed@), msg@, r@),
        hexadecimal::hex_bytes(r@) matches Some(sig) && accepts(
            ed25519_public(sk.seed@),
            msg@,
            sig,
        ),
{
    let sig = ed25519_sign(&sk.seed, msg);
    proof {
        hexadecimal::law_hex_bytes_of_text(sig@);
        hexadecimal::law_hex_bytes_of_text(ed25519_public(sk.seed@));
    }
    hexadecimal::hex_encode(sig.as_slice())
}

/// Whether `key` accepts the signature with the hexadecimal text `sig_hex`.
pub fn verify_key_hex(key: &[u8; 32], msg: &[u8], sig_hex: &str) -> (r: bool)
    ensures
        r == (hexadecimal::hex_bytes(sig_hex@) matches Some(sig) && accepts(key@, msg@, sig)),
{
    match hexadecimal::hex_decode(sig_hex) {
        Some(sig) => {
            if sig.len() != 64 {
                return false;
            }
            let sarr = array_of::<64>(sig.as_slice());
            assert(sarr@ == sig@);
            ed25519_verify(key, msg, &sarr)
        },
        None => false,
    }
}

/// Whether the node named `node_id_hex` signed `msg` with the hexadecimal signature `sig_hex`.
pub fn verify_hex(node_id_hex: &str, msg: &[u8], sig_hex: &str) -> (r: bool)
    ensures
        r == hex_accepts(node_id_hex@, msg@, sig_hex@),
{
    match hexadecimal::hex_decode(node_id_hex) {
        Some(key) => {
            if key.len() != 32 {
                return false;
            }
            let arr = array_of::<32>(key.as_slice());
            assert(arr@ == key@);
            verify_key_hex(&arr, msg, sig_hex)
        },
        None => false,
    }
}

/// A phrase stands for the first 32 bytes of the seed that BIP-39 derives from it without a
/// passphrase, and for nothing where it is not valid; white space around it makes no difference.
pub proof fn law_root_of_phrase(a: Seq<char>, phrase: Seq<char>, b: Seq<char>)
    requires
        forall|i: int| 0 <= i < a.len() ==> text::is_white_space(#[trigger] a[i]),
        forall|i: int| 0 <= i < b.len() ==> text::is_white_space(#[trigger] b[i]),
    ensures
        root_of(a + phrase + b) == root_of(phrase),
        text::trimmed(phrase) == phrase ==> (match bip39_seed(phrase, Seq::empty()) {
            Some(seed) => root_of(phrase) is Some && root_of(phrase)->0 == seed.take(32),
            None => root_of(phrase) is None,
        }),
{
    text::law_trimmed_ignores_padding(a, phrase, b);
}

/// A key accepts a signature where it has 32 bytes, the signature 64, and Ed25519 accepts it, and
/// nowhere else; in hexadecimal likewise, and what is no hexadecimal is not accepted.
pub proof fn law_accepts(
    key: Seq<u8>,
    msg: Seq<u8>,
    sig: Seq<u8>,
    key_text: Seq<char>,
    sig_text: Seq<char>,
)
    ensures
        accepts(key, msg, sig) <==> key.len() == 32 && sig.len() == 64 && ed25519_verifies(
            key,
            msg,
            sig,
        ),
        hex_accepts(key_text, msg, sig_text) ==> hexadecimal::hex_bytes(key_text) is Some
            && hexadecimal::hex_bytes(sig_text) is Some,
        hexadecimal::hex_bytes(key_text) == Some(key) && hexadecimal::hex_bytes(sig_text) == Some(
            sig,
        ) ==> (hex_accepts(key_text, msg, sig_text) <==> key.len() == 32 && sig.len() == 64
            && ed25519_verifies(key, msg, sig)),
{
}

/// A node bears the name of its public key: the hexadecimal text of the name gives back the key.
pub proof fn law_node_name(root: Seq<u8>)
    ensures
        hexadecimal::hex_bytes(node_name(root)) == Some(ed25519_public(root)),
        node_name(root) == hexadecimal::hex_text(ed25519_public(root)),
{
    hexadecimal::law_hex_bytes_of_text(ed25519_public(root));
}

} // verus!
