use jolajoamemo::records::SecretKey;
use jolajoamemo::store::Store;
use jolajoamemo::vault::Vault;

const NOW: &str = "2026-01-02 10:00:00";

fn key(name: &str, value: &str, key_type: &str, provider: &str) -> SecretKey {
    SecretKey {
        id: 0,
        key_name: name.to_string(),
        key_value: value.to_string(),
        key_type: key_type.to_string(),
        provider: provider.to_string(),
        provider_url: None,
        description: None,
        issued_date: "2026-01-01".to_string(),
        expires_at: None,
        created_at: String::new(),
    }
}

#[test]
fn stored_values_are_encrypted_and_read_back_decrypted() {
    let vault = Vault::generate();
    let mut store = Store::new();
    store.save_secret_key(&vault, key("OPENAI_API_KEY", "sk-plain", "API_KEY", "OpenAI"), NOW);

    // at rest the value is an envelope, not the plaintext
    let raw = &store.secret_keys[0];
    assert_ne!(raw.key_value, "sk-plain");

    let shown = store.get_all_secret_keys(&vault);
    assert_eq!(shown.len(), 1);
    assert_eq!(shown[0].key_name, "OPENAI_API_KEY");
    assert_eq!(shown[0].key_value, "sk-plain");
}

#[test]
fn a_value_the_cipher_refuses_is_shown_as_stored() {
    let vault = Vault::generate();
    let mut store = Store::new();
    store.save_secret_key(&vault, key("K", "v", "API_KEY", "P"), NOW);
    // overwrite the stored envelope with text no cipher accepts
    store.secret_keys[0].key_value = "corrupted!!".to_string();
    let shown = store.get_all_secret_keys(&vault);
    assert_eq!(shown[0].key_value, "corrupted!!");
}

#[test]
fn filters_by_provider_and_type_decrypt_too() {
    let vault = Vault::generate();
    let mut store = Store::new();
    store.save_secret_key(&vault, key("A", "va", "API_KEY", "OpenAI"), NOW);
    store.save_secret_key(&vault, key("B", "vb", "TOKEN", "GitHub"), NOW);
    store.save_secret_key(&vault, key("C", "vc", "API_KEY", "OpenAI"), NOW);

    let by_provider = store.get_secret_keys_by_provider(&vault, "OpenAI");
    assert_eq!(by_provider.len(), 2);
    assert_eq!(by_provider[0].key_value, "va");
    assert_eq!(by_provider[1].key_value, "vc");

    let by_type = store.get_secret_keys_by_type(&vault, "TOKEN");
    assert_eq!(by_type.len(), 1);
    assert_eq!(by_type[0].key_value, "vb");

    assert_eq!(
        store.get_all_secret_providers(),
        vec!["OpenAI".to_string(), "GitHub".to_string()]
    );
}

#[test]
fn updating_reencrypts_the_new_value() {
    let vault = Vault::generate();
    let mut store = Store::new();
    let id = store.save_secret_key(&vault, key("K", "old", "API_KEY", "P"), NOW);
    store.update_secret_key(
        &vault,
        id,
        "K2",
        "new-value",
        "TOKEN",
        "P2",
        Some("https://p2.example"),
        None,
        "2026-02-01",
        None,
    );
    let raw = &store.secret_keys[0];
    assert_ne!(raw.key_value, "new-value");
    let shown = store.get_all_secret_keys(&vault);
    assert_eq!(shown[0].key_name, "K2");
    assert_eq!(shown[0].key_value, "new-value");
    assert_eq!(shown[0].provider_url, Some("https://p2.example".to_string()));

    store.delete_secret_key(id);
    assert!(store.get_all_secret_keys(&vault).is_empty());
}
