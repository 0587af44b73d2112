use authkit::hashing::encrypt_password;

#[test]
fn hash_is_deterministic() {
    let a = encrypt_password("password".to_string());
    let b = encrypt_password("password".to_string());
    assert_eq!(a, b);
}

#[test]
fn hash_matches_known_md5_values() {
    assert_eq!(encrypt_password("password".to_string()), "5f4dcc3b5aa765d61d8327deb882cf99");
    assert_eq!(encrypt_password(String::new()), "d41d8cd98f00b204e9800998ecf8427e");
    assert_eq!(encrypt_password("abc".to_string()), "900150983cd24fb0d6963f7d28e17f72");
}

#[test]
fn hash_differs_for_different_inputs() {
    let inputs = ["password", "Password", "password ", "hunter2", "", "a"];
    for (i, p) in inputs.iter().enumerate() {
        for q in inputs.iter().skip(i + 1) {
            assert_ne!(
                encrypt_password(p.to_string()),
                encrypt_password(q.to_string()),
                "digests of {:?} and {:?} must differ",
                p,
                q
            );
        }
    }
}

#[test]
fn digest_is_never_the_plaintext() {
    for p in ["password", "secret", "5f4dcc3b5aa765d61d8327deb882cf99"] {
        assert_ne!(encrypt_password(p.to_string()), p);
    }
}

#[test]
fn digest_is_32_lowercase_hex_characters() {
    let d = encrypt_password("anything at all".to_string());
    assert_eq!(d.len(), 32);
    assert!(d.chars().all(|c| c.is_ascii_hexdigit() && !c.is_ascii_uppercase()));
}
