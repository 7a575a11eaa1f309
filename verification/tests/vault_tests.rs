use jolajoamemo::vault::Vault;

#[test]
fn encrypt_then_decrypt_returns_the_original() {
    let vault = Vault::generate();
    let stored = vault.encrypt_value("api-key-1234");
    let back = vault.decrypt_value(&stored);
    assert_eq!(back, Some("api-key-1234".to_string()));
}

#[test]
fn round_trip_holds_for_unicode_text() {
    let vault = Vault::generate();
    let secret = "비밀번호: hunter2 🙂";
    let back = vault.encrypt_decrypt_round_trip(secret);
    assert_eq!(back, Some(secret.to_string()));
}

#[test]
fn round_trip_holds_for_the_empty_string() {
    let vault = Vault::generate();
    let back = vault.encrypt_decrypt_round_trip("");
    assert_eq!(back, Some(String::new()));
}

#[test]
fn two_encryptions_of_one_value_differ_but_both_decrypt() {
    let vault = Vault::generate();
    let a = vault.encrypt_value("same value");
    let b = vault.encrypt_value("same value");
    // fresh random nonces make the envelopes differ
    assert_ne!(a, b);
    assert_eq!(vault.decrypt_value(&a), Some("same value".to_string()));
    assert_eq!(vault.decrypt_value(&b), Some("same value".to_string()));
}

#[test]
fn garbage_is_refused() {
    let vault = Vault::generate();
    assert_eq!(vault.decrypt_value("not base64 at all!!"), None);
    // valid base64 but too short for a nonce
    assert_eq!(vault.decrypt_value("AAAA"), None);
}

#[test]
fn a_foreign_key_cannot_open_the_envelope() {
    let vault = Vault::generate();
    let other = Vault::generate();
    let stored = vault.encrypt_value("top secret");
    assert_eq!(other.decrypt_value(&stored), None);
}

#[test]
fn exported_key_restores_the_same_vault() {
    let vault = Vault::generate();
    let stored = vault.encrypt_value("carry me over");
    let exported = vault.export_key();
    let restored = Vault::import_key(&exported).expect("a 32-byte key must import");
    assert_eq!(restored.decrypt_value(&stored), Some("carry me over".to_string()));
}

#[test]
fn import_refuses_a_short_key() {
    assert!(Vault::import_key("AAAA").is_none());
    assert!(Vault::import_key("???").is_none());
}
