use linkleaf_feed::ident::{derive_id, hex_encode, id_from_digest};

#[test]
fn derive_id_is_stable() {
    let a = derive_id("https://example.com", "2024-01-01");
    let b = derive_id("https://example.com", "2024-01-01");
    assert_eq!(a, b);
    assert_eq!(a.len(), 12);
}

#[test]
fn derive_id_exact_values() {
    assert_eq!(derive_id("https://example.com", "2024-01-01"), "23e86142c119");
    assert_eq!(derive_id("https://example.com", "2024-01-02"), "640cc270d99a");
    assert_eq!(derive_id("", ""), "cbe5cfdf7c21");
    assert_eq!(derive_id("héllo", "2025-05-05"), "29a49ec468da");
}

#[test]
fn derive_id_is_lowercase_hex() {
    let id = derive_id("https://rust-lang.org", "2025-02-03");
    assert!(id.chars().all(|c| c.is_ascii_digit() || ('a'..='f').contains(&c)));
}

#[test]
fn derive_id_separates_url_and_date() {
    assert_ne!(derive_id("ab", "c"), derive_id("a", "bc"));
    assert_ne!(derive_id("a", "b"), derive_id("b", "a"));
}

#[test]
fn derive_id_no_collisions_in_corpus() {
    let mut seen: Vec<String> = Vec::new();
    for u in 0..40 {
        for d in 1..=9 {
            let url = format!("https://example.com/page/{}", u);
            let date = format!("2024-03-0{}", d);
            let id = derive_id(&url, &date);
            assert!(!seen.contains(&id));
            seen.push(id);
        }
    }
    assert_eq!(seen.len(), 360);
}

#[test]
fn hex_encode_exact() {
    assert_eq!(hex_encode(&[]), "");
    assert_eq!(hex_encode(&[0x00, 0x0f, 0xa5, 0xff]), "000fa5ff");
    assert_eq!(hex_encode(&[0x12, 0x34, 0x56, 0x78, 0x9a, 0xbc, 0xde, 0xf0]), "123456789abcdef0");
}

#[test]
fn id_from_digest_takes_six_bytes() {
    let digest: Vec<u8> = (1u8..=32).collect();
    assert_eq!(id_from_digest(&digest), "010203040506");
    assert_eq!(id_from_digest(&[0xab, 0xcd]), "abcd");
    assert_eq!(id_from_digest(&[1, 2, 3, 4, 5, 6]), "010203040506");
}
