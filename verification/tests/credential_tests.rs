use issuetrack::credential::DERIVED_KEY_LEN;
use issuetrack::credential::verify_credential;

fn hex(bytes: &[u8]) -> String {
    let mut out = String::new();
    for b in bytes {
        out.push_str(&format!("{:02x}", b));
    }
    out
}

#[test]
fn known_vector_one_iteration() {
    let rec = issuetrack::credential::derive_with_salt("password", b"salt".to_vec(), 1);
    assert_eq!(
        hex(&rec.derived_key),
        "120fb6cffcf8b32c43e7225256c4f837a86548c92ccc35480805987cb70be17b"
    );
}

#[test]
fn known_vector_two_iterations() {
    let rec = issuetrack::credential::derive_with_salt("password", b"salt".to_vec(), 2);
    assert_eq!(
        hex(&rec.derived_key),
        "ae4d0c95af6b46d32d0adff928f06dd02a303f8ef3c251dfd6e2d85a95474c43"
    );
}

#[test]
fn derivation_is_deterministic() {
    let a = issuetrack::credential::derive_with_salt("hunter2", vec![7u8; 16], 1000);
    let b = issuetrack::credential::derive_with_salt("hunter2", vec![7u8; 16], 1000);
    assert_eq!(a.derived_key, b.derived_key);
    assert_eq!(a.derived_key.len(), DERIVED_KEY_LEN);
}

#[test]
fn changing_any_input_changes_the_key() {
    let base = issuetrack::credential::derive_with_salt("hunter2", vec![7u8; 16], 1000);
    let other_secret = issuetrack::credential::derive_with_salt("hunter3", vec![7u8; 16], 1000);
    let other_salt = issuetrack::credential::derive_with_salt("hunter2", vec![8u8; 16], 1000);
    let other_iterations = issuetrack::credential::derive_with_salt("hunter2", vec![7u8; 16], 1001);
    assert_ne!(base.derived_key, other_secret.derived_key);
    assert_ne!(base.derived_key, other_salt.derived_key);
    assert_ne!(base.derived_key, other_iterations.derived_key);
}

#[test]
fn fresh_salts_differ_between_accounts() {
    let a = issuetrack::credential::derive("same secret", 1000, 16).expect("entropy source available");
    let b = issuetrack::credential::derive("same secret", 1000, 16).expect("entropy source available");
    assert_eq!(a.salt.len(), 16);
    assert_eq!(b.salt.len(), 16);
    assert_ne!(a.salt, b.salt);
    assert_ne!(a.derived_key, b.derived_key);
}

#[test]
fn verification_accepts_the_right_secret_only() {
    let rec = issuetrack::credential::derive("open sesame", 1000, 16).expect("entropy source available");
    assert!(verify_credential("open sesame", &rec));
    assert!(!verify_credential("open sesame!", &rec));
    assert!(!verify_credential("", &rec));
}
