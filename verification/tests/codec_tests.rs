use wot_api::b64url::{b64url_decode, b64url_encode};

fn encode(s: &[u8]) -> String {
    String::from_utf8(b64url_encode(&s.to_vec())).unwrap()
}

fn decode(s: &str) -> Option<Vec<u8>> {
    b64url_decode(&s.as_bytes().to_vec())
}

#[test]
fn encode_matches_reference_vectors() {
    assert_eq!(encode(b""), "");
    assert_eq!(encode(b"f"), "Zg");
    assert_eq!(encode(b"fo"), "Zm8");
    assert_eq!(encode(b"foo"), "Zm9v");
    assert_eq!(encode(b"foob"), "Zm9vYg");
    assert_eq!(encode(&[0xfb, 0xff, 0xfe]), "-__-");
}

#[test]
fn decode_inverts_encode() {
    let samples: Vec<Vec<u8>> = vec![
        vec![],
        vec![0],
        vec![255],
        b"f".to_vec(),
        b"fo".to_vec(),
        b"foo".to_vec(),
        b"any carnal pleasure.".to_vec(),
        (0u8..=255).collect(),
    ];
    for s in samples {
        assert_eq!(b64url_decode(&b64url_encode(&s)), Some(s));
    }
}

#[test]
fn decode_is_strict() {
    // A length of one symbol beyond a group boundary can encode nothing.
    assert_eq!(decode("A"), None);
    assert_eq!(decode("Zm9vA"), None);
    // Padding belongs to the padded alphabet and is rejected.
    assert_eq!(decode("Zg=="), None);
    // Symbols outside the URL-safe alphabet are rejected.
    assert_eq!(decode("Z+"), None);
    assert_eq!(decode("Z/"), None);
    assert_eq!(decode("Z."), None);
    // Non-zero trailing bits mean the string is no encoding of any bytes.
    assert_eq!(decode("Zh"), None);
    assert_eq!(decode("Zm9"), None);
    // The canonical forms still decode.
    assert_eq!(decode("Zg"), Some(b"f".to_vec()));
    assert_eq!(decode("Zm8"), Some(b"fo".to_vec()));
}
