use linkleaf_feed::codec::{decode, encode};
use linkleaf_feed::error::StoreError;
use linkleaf_feed::model::{Feed, Link};

fn link(id: &str, tags: &[&str], via: &str) -> Link {
    Link {
        id: id.to_string(),
        title: format!("title {}", id),
        url: format!("https://example.com/{}", id),
        date: "2024-05-06".to_string(),
        summary: "résumé ✓".to_string(),
        tags: tags.iter().map(|t| t.to_string()).collect(),
        via: via.to_string(),
    }
}

fn sample() -> Feed {
    Feed {
        title: "Reading list".to_string(),
        version: 7,
        links: vec![link("c", &["a", "b"], "hn"), link("b", &[], ""), link("a", &["x"], "friend")],
    }
}

#[test]
fn encode_empty_feed_exact_bytes() {
    let feed = Feed { title: "T".to_string(), version: 1, links: vec![] };
    let mut expected: Vec<u8> = vec![1, 0, 0, 0, 0, 0, 0, 0, 0x54];
    expected.extend_from_slice(&[1, 0, 0, 0, 0, 0, 0, 0]);
    expected.extend_from_slice(&[0, 0, 0, 0, 0, 0, 0, 0]);
    assert_eq!(encode(&feed), expected);
}

#[test]
fn encode_one_link_exact_bytes() {
    let feed = Feed {
        title: "".to_string(),
        version: 258,
        links: vec![Link {
            id: "i".to_string(),
            title: "t".to_string(),
            url: "u".to_string(),
            date: "d".to_string(),
            summary: "".to_string(),
            tags: vec!["é".to_string()],
            via: "v".to_string(),
        }],
    };
    let mut e: Vec<u8> = vec![];
    e.extend_from_slice(&[0, 0, 0, 0, 0, 0, 0, 0]);
    e.extend_from_slice(&[2, 1, 0, 0, 0, 0, 0, 0]);
    e.extend_from_slice(&[1, 0, 0, 0, 0, 0, 0, 0]);
    e.extend_from_slice(&[1, 0, 0, 0, 0, 0, 0, 0, b'i']);
    e.extend_from_slice(&[1, 0, 0, 0, 0, 0, 0, 0, b't']);
    e.extend_from_slice(&[1, 0, 0, 0, 0, 0, 0, 0, b'u']);
    e.extend_from_slice(&[1, 0, 0, 0, 0, 0, 0, 0, b'd']);
    e.extend_from_slice(&[0, 0, 0, 0, 0, 0, 0, 0]);
    e.extend_from_slice(&[1, 0, 0, 0, 0, 0, 0, 0, b'v']);
    e.extend_from_slice(&[1, 0, 0, 0, 0, 0, 0, 0]);
    e.extend_from_slice(&[2, 0, 0, 0, 0, 0, 0, 0, 0xc3, 0xa9]);
    assert_eq!(encode(&feed), e);
}

#[test]
fn decode_encode_round_trip() {
    let feed = sample();
    let bytes = encode(&feed);
    assert_eq!(decode(&bytes), Ok(sample()));
}

#[test]
fn encode_is_byte_stable() {
    assert_eq!(encode(&sample()), encode(&sample()));
    let again = decode(&encode(&sample())).unwrap();
    assert_eq!(encode(&again), encode(&sample()));
}

#[test]
fn encode_decode_round_trip_on_bytes() {
    let mut bytes = encode(&sample());
    bytes.extend_from_slice(b"later additions");
    let first = decode(&bytes).unwrap();
    let second = decode(&encode(&first)).unwrap();
    assert_eq!(first, second);
    assert_eq!(first, sample());
}

#[test]
fn decode_ignores_trailing_bytes() {
    let mut bytes = encode(&sample());
    bytes.push(0xff);
    assert_eq!(decode(&bytes), Ok(sample()));
}

#[test]
fn decode_rejects_empty_input() {
    assert_eq!(decode(&[]), Err(StoreError::MalformedFeed));
}

#[test]
fn decode_rejects_truncated_input() {
    let bytes = encode(&sample());
    for cut in 0..bytes.len() {
        assert_eq!(decode(&bytes[..cut]), Err(StoreError::MalformedFeed), "cut at {}", cut);
    }
}

#[test]
fn decode_rejects_invalid_utf8() {
    let mut bytes: Vec<u8> = vec![2, 0, 0, 0, 0, 0, 0, 0, 0xff, 0xfe];
    bytes.extend_from_slice(&[1, 0, 0, 0, 0, 0, 0, 0]);
    bytes.extend_from_slice(&[0, 0, 0, 0, 0, 0, 0, 0]);
    assert_eq!(decode(&bytes), Err(StoreError::MalformedFeed));
}

#[test]
fn decode_reads_multibyte_text() {
    let mut bytes: Vec<u8> = vec![2, 0, 0, 0, 0, 0, 0, 0, 0xc3, 0xa9];
    bytes.extend_from_slice(&[1, 0, 0, 0, 0, 0, 0, 0]);
    bytes.extend_from_slice(&[0, 0, 0, 0, 0, 0, 0, 0]);
    let feed = decode(&bytes).unwrap();
    assert_eq!(feed.title, "é");
    assert_eq!(feed.version, 1);
    assert!(feed.links.is_empty());
}

#[test]
fn decode_rejects_version_beyond_32_bits() {
    let mut bytes: Vec<u8> = vec![0, 0, 0, 0, 0, 0, 0, 0];
    bytes.extend_from_slice(&[0, 0, 0, 0, 1, 0, 0, 0]);
    bytes.extend_from_slice(&[0, 0, 0, 0, 0, 0, 0, 0]);
    assert_eq!(decode(&bytes), Err(StoreError::MalformedFeed));
    let mut ok: Vec<u8> = vec![0, 0, 0, 0, 0, 0, 0, 0];
    ok.extend_from_slice(&[0xff, 0xff, 0xff, 0xff, 0, 0, 0, 0]);
    ok.extend_from_slice(&[0, 0, 0, 0, 0, 0, 0, 0]);
    assert_eq!(decode(&ok).unwrap().version, u32::MAX);
}

#[test]
fn decode_rejects_huge_counts() {
    let mut bytes: Vec<u8> = vec![0, 0, 0, 0, 0, 0, 0, 0];
    bytes.extend_from_slice(&[1, 0, 0, 0, 0, 0, 0, 0]);
    bytes.extend_from_slice(&[0xff; 8]);
    assert_eq!(decode(&bytes), Err(StoreError::MalformedFeed));
    let long_text: Vec<u8> = vec![0xff; 8];
    assert_eq!(decode(&long_text), Err(StoreError::MalformedFeed));
}
