use rscholar::api_keys::{
    key_from_uuid, key_id_from_uuid, confirm_found_key, generate_key, hash_key_with_pepper, new_key_id, page_offset,
    prepare_custom_key, replaceable_key, validate_custom_key, verify_key_hash, ApiKey,
};
use rscholar::error::GscholarError;

const PEPPER: &str = "rscholar-default-pepper-change-in-production";

fn stored(hash: &str, is_admin: bool) -> ApiKey {
    ApiKey {
        id: "key_0123abcd".to_string(),
        key_hash: hash.to_string(),
        name: "Admin".to_string(),
        is_admin,
        rate_limit_rps: 1000,
        request_count: 0,
        last_used_at: None,
        created_at: 0,
    }
}

#[test]
fn test_constant_time_verify() {
    let (key, hash) = generate_key(PEPPER);

    // Correct key should verify
    assert!(verify_key_hash(PEPPER, &key, &hash));

    // Wrong key should not verify
    assert!(!verify_key_hash(PEPPER, "wrong-key", &hash));
}

#[test]
fn generated_keys_have_prefix_and_hex_body() {
    let (key, hash) = generate_key(PEPPER);
    assert!(key.starts_with("rgs_"));
    assert_eq!(key.len(), 36);
    assert!(key[4..].chars().all(|c| c.is_ascii_hexdigit() && !c.is_ascii_uppercase()));
    assert_eq!(hash, hash_key_with_pepper(PEPPER, &key));
    let (other, _) = generate_key(PEPPER);
    assert_ne!(key, other);
}

#[test]
fn hash_is_hmac_sha256_in_lowercase_hex() {
    // RFC 4231, test case 2.
    assert_eq!(
        hash_key_with_pepper("Jefe", "what do ya want for nothing?"),
        "5bdcc146bf60754e6a042426089575c75a003f089d2739839dec58b964ec3843"
    );
    let hash = hash_key_with_pepper(PEPPER, "123456");
    assert_eq!(hash.len(), 64);
    assert_ne!(hash, hash_key_with_pepper("another-pepper", "123456"));
}

#[test]
fn verification_depends_on_the_pepper() {
    let hash = hash_key_with_pepper(PEPPER, "deploy-admin-password-2026");
    assert!(verify_key_hash(PEPPER, "deploy-admin-password-2026", &hash));
    assert!(!verify_key_hash("other-pepper", "deploy-admin-password-2026", &hash));
    assert!(!verify_key_hash(PEPPER, "deploy-admin-password-2026", &hash[..63]));
}

#[test]
fn custom_keys_are_checked() {
    assert_eq!(validate_custom_key("123456"), Ok(()));
    assert_eq!(validate_custom_key("  deploy-admin-password-2026  "), Ok(()));
    assert_eq!(
        validate_custom_key("short"),
        Err(GscholarError::Validation(
            "New Admin API Key must be at least 6 characters.".to_string()
        ))
    );
    assert_eq!(
        validate_custom_key(&"k".repeat(129)),
        Err(GscholarError::Validation(
            "New Admin API Key must be 128 characters or fewer.".to_string()
        ))
    );
    assert_eq!(validate_custom_key(&"k".repeat(128)), Ok(()));
    assert_eq!(
        validate_custom_key("has space"),
        Err(GscholarError::Validation(
            "New Admin API Key cannot contain whitespace or control characters.".to_string()
        ))
    );
    assert_eq!(
        validate_custom_key("tab\u{7}bell"),
        Err(GscholarError::Validation(
            "New Admin API Key cannot contain whitespace or control characters.".to_string()
        ))
    );
    // Length is counted in UTF-8 bytes: two characters of three bytes each.
    assert_eq!(validate_custom_key("密码"), Ok(()));
}

#[test]
fn custom_key_is_trimmed_and_hashed() {
    let (key, hash) = prepare_custom_key(PEPPER, "  my-custom-admin-key-2026 ").expect("valid");
    assert_eq!(key, "my-custom-admin-key-2026");
    assert_eq!(hash, hash_key_with_pepper(PEPPER, "my-custom-admin-key-2026"));
    assert!(matches!(
        prepare_custom_key(PEPPER, "short"),
        Err(GscholarError::Validation(_))
    ));
}

#[test]
fn found_key_is_kept_only_when_it_verifies() {
    let hash = hash_key_with_pepper(PEPPER, "123456");
    let found = confirm_found_key(PEPPER, "123456", Some(stored(&hash, true)));
    assert_eq!(found.map(|k| k.id), Some("key_0123abcd".to_string()));
    assert!(confirm_found_key(PEPPER, "654321", Some(stored(&hash, true))).is_none());
    assert!(confirm_found_key(PEPPER, "123456", None).is_none());
}

#[test]
fn only_admin_keys_are_replaceable() {
    assert!(replaceable_key(Some(stored("h", true))).is_some());
    assert!(replaceable_key(Some(stored("h", false))).is_none());
    assert!(replaceable_key(None).is_none());
}

#[test]
fn key_ids_take_the_first_uuid_group() {
    let id = new_key_id();
    assert!(id.starts_with("key_"));
    assert_eq!(id.len(), 12);
    assert!(id[4..].chars().all(|c| c.is_ascii_hexdigit()));
}

#[test]
fn page_offsets() {
    assert_eq!(page_offset(0, 10), 0);
    assert_eq!(page_offset(1, 10), 0);
    assert_eq!(page_offset(3, 20), 40);
}

#[test]
fn keys_and_ids_are_made_from_the_drawn_uuid() {
    let uuid = "67e55044-10b1-426f-9247-bb680e5fe0c8";
    let (key, hash) = key_from_uuid(PEPPER, uuid);
    assert_eq!(key, "rgs_67e5504410b1426f9247bb680e5fe0c8");
    assert_eq!(hash, hash_key_with_pepper(PEPPER, &key));
    assert_eq!(key_id_from_uuid(uuid), "key_67e55044");
    assert_eq!(key_id_from_uuid("nodash"), "key_nodash");
}
