use netfory_provider::crypto::{
    generate_mnemonic, iroh_secret, node_id, root_from_mnemonic, sign_hex, signing_key, verify_hex,
    verify_key_hex, CryptoError, Root,
};

const PHRASE: &str =
    "abandon abandon abandon abandon abandon abandon abandon abandon abandon abandon abandon about";
const PHRASE_ROOT: &str = "5eb00bbddcf069084889a8ab9155568165f5c453ccb85e70811aaed6f6da5fc1";

const SEED: &str = "9d61b19deffd5a60ba844af492ec2cc44449c5697b326919703bac031cae7f60";
const PUBLIC: &str = "d75a980182b10ab7d54bfed3c964073a0ee172f3daa62325af021a68f707511a";
const SIGNATURE: &str = "e5564300c360ac729086e2cc806e828a84877f1eb8e5d974d873e065224901555fb8821590a33bacc61e39701cf9b46bd25bf5f0595bbe24655141438e7a100b";

fn root_of_hex(s: &str) -> Root {
    let bytes = hex::decode(s).unwrap();
    let mut root = [0u8; 32];
    root.copy_from_slice(&bytes);
    root
}

#[test]
fn root_is_first_half_of_seed() {
    let root = root_from_mnemonic(PHRASE).unwrap();
    assert_eq!(hex::encode(root), PHRASE_ROOT);
}

#[test]
fn phrase_is_trimmed() {
    let padded = format!("  \n{PHRASE}\t ");
    assert_eq!(root_from_mnemonic(&padded).unwrap(), root_from_mnemonic(PHRASE).unwrap());
}

#[test]
fn invalid_phrases_are_refused() {
    for s in ["", "   ", "abandon", "abandon abandon abandon abandon abandon abandon abandon abandon abandon abandon abandon abandon", "twelve words that are surely not in the list of any phrase here"] {
        assert!(matches!(root_from_mnemonic(s), Err(CryptoError::Mnemonic(_))), "{s}");
    }
}

#[test]
fn generated_phrase_is_valid() {
    let a = generate_mnemonic().unwrap();
    let b = generate_mnemonic().unwrap();
    assert_eq!(a.split(' ').count(), 12);
    assert!(a.split(' ').all(|w| !w.is_empty() && w.chars().all(|c| c.is_ascii_lowercase())));
    assert!(root_from_mnemonic(&a).is_ok());
    assert_ne!(a, b);
}

#[test]
fn node_is_named_by_its_public_key() {
    let root = root_of_hex(SEED);
    assert_eq!(iroh_secret(&root).bytes, root);
    assert_eq!(signing_key(&root).seed, root);
    assert_eq!(node_id(&iroh_secret(&root)), PUBLIC);
    let parsed: iroh::EndpointId = node_id(&iroh_secret(&root)).parse().unwrap();
    assert_eq!(hex::encode(parsed.as_bytes()), PUBLIC);
}

#[test]
fn signature_of_empty_message() {
    let root = root_of_hex(SEED);
    let sk = signing_key(&root);
    assert_eq!(sign_hex(&sk, b""), SIGNATURE);
    assert!(verify_hex(PUBLIC, b"", SIGNATURE));
    assert!(verify_hex(&PUBLIC.to_uppercase(), b"", &SIGNATURE.to_uppercase()));
}

#[test]
fn signature_is_accepted_for_its_message_alone() {
    let root = root_from_mnemonic(PHRASE).unwrap();
    let sk = signing_key(&root);
    let name = node_id(&iroh_secret(&root));
    let sig = sign_hex(&sk, b"height 42");
    assert!(verify_hex(&name, b"height 42", &sig));
    assert!(!verify_hex(&name, b"height 43", &sig));
    assert!(!verify_hex(PUBLIC, b"height 42", &sig));
    assert!(verify_key_hex(&root_of_hex(&name), b"height 42", &sig));
}

#[test]
fn malformed_keys_and_signatures_are_refused() {
    assert!(!verify_hex("", b"", SIGNATURE));
    assert!(!verify_hex("zz", b"", SIGNATURE));
    assert!(!verify_hex(&PUBLIC[2..], b"", SIGNATURE));
    assert!(!verify_hex(&PUBLIC[1..], b"", SIGNATURE));
    assert!(!verify_hex(PUBLIC, b"", ""));
    assert!(!verify_hex(PUBLIC, b"", &SIGNATURE[2..]));
    assert!(!verify_hex(PUBLIC, b"", &format!("{SIGNATURE}00")));
    // Not the encoding of a point on the curve.
    assert!(!verify_hex(&format!("02{}", "00".repeat(31)), b"", SIGNATURE));
}
