use age::secrecy::ExposeSecret;
use arca::secrets::{
    check_key_mode, collect_secrets, open_store, plan_load, read_store, require_slot, LoadStep,
    TomlItem,
};
use std::io::Write;

#[test]
fn missing_files_returns_empty() {
    assert!(matches!(plan_load(None, None, false, false), Ok(LoadStep::Empty)));
}

#[test]
fn half_a_store_is_no_store() {
    let e = plan_load(Some("a.age"), Some("k.key"), true, false).unwrap_err();
    assert_eq!(e, "secrets file present at a.age but key file missing at k.key");
    assert!(matches!(plan_load(Some("a.age"), None, true, false), Ok(LoadStep::Empty)));
    assert!(matches!(
        plan_load(Some("a.age"), Some("k.key"), true, true),
        Ok(LoadStep::Read)
    ));
}

#[test]
fn roundtrip_via_age() {
    let identity = age::x25519::Identity::generate();
    let pubkey = identity.to_public();
    let key_text = identity.to_string().expose_secret().to_string();
    let plaintext = b"plaid_navy_fed_access_token = \"abc-123\"\nmercury_main = \"merc-xyz\"\n";
    let recipients: Vec<Box<dyn age::Recipient + Send>> = vec![Box::new(pubkey)];
    let encryptor = age::Encryptor::with_recipients(recipients).unwrap();
    let mut ciphertext = Vec::new();
    let mut w = encryptor.wrap_output(&mut ciphertext).unwrap();
    w.write_all(plaintext).unwrap();
    w.finish().unwrap();

    let store = open_store(&key_text, "secrets.key", &ciphertext).unwrap();
    let names: Vec<String> = store.iter().map(|(k, _)| k.clone()).collect();
    let value = |key: &str| store[require_slot(&names, key).unwrap()].1.clone();
    assert_eq!(value("plaid_navy_fed_access_token"), "abc-123");
    assert_eq!(value("mercury_main"), "merc-xyz");
    assert_eq!(require_slot(&names, "missing").unwrap_err(), "missing secret: missing");

    // Another key does not open it.
    let other = age::x25519::Identity::generate().to_string().expose_secret().to_string();
    assert!(open_store(&other, "secrets.key", &ciphertext).is_err());
    // A file without a key, and bytes that are no store.
    assert!(open_store("# nothing\n", "secrets.key", &ciphertext).is_err());
    assert!(open_store(&key_text, "secrets.key", b"not age").is_err());
}

#[test]
fn key_must_be_private() {
    assert!(check_key_mode("k", 0o400).is_ok());
    assert!(check_key_mode("k", 0o600).is_ok());
    let e = check_key_mode("k", 0o644).unwrap_err();
    assert!(e.contains("644"), "got: {e}");
}

#[test]
fn stores_hold_texts_only() {
    let ok = collect_secrets(vec![("a".to_string(), TomlItem::Text("1".to_string()))]).unwrap();
    assert_eq!(ok, vec![("a".to_string(), "1".to_string())]);
    assert!(collect_secrets(vec![("a".to_string(), TomlItem::Other("integer".to_string()))]).is_err());
    assert!(read_store(b"a = 1\n".to_vec()).is_err());
    assert!(read_store(vec![0xff, 0xfe]).is_err());
    assert!(read_store(b"= broken".to_vec()).is_err());
    assert_eq!(read_store(b"a = \"x\"\n".to_vec()).unwrap().len(), 1);
    let accents = read_store("a = \"né€😀\"\n".as_bytes().to_vec()).unwrap();
    assert_eq!(accents[0].1, "né€😀");
}
