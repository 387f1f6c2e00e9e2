use hashstore::{Hasher, HashDecodeError, EMPTY_HASH};

const SEVENS_ENC: &str = "BwcHBwcHBwcHBwcHBwcHBwcHBwcHBwcHBwcHBwcHBwc";

#[test]
fn encoded() {
    let sevens = hashstore::hash::Hash::wrap_bytes([7; 32]);
    assert_eq!(SEVENS_ENC, sevens.encoded());
}

#[test]
fn decode_ok() {
    let sevens = hashstore::hash::Hash::wrap_bytes([7; 32]);
    assert_eq!(Ok(sevens), hashstore::hash::Hash::decode(SEVENS_ENC));
}

#[test]
fn decode_wrong_size() {
    let s = "WrongLength";
    assert_eq!(
        Err(HashDecodeError::InvalidLength(s.len())),
        hashstore::hash::Hash::decode(s)
    );
}

#[test]
fn decode_bad_byte() {
    let junk = "BwcHBwcH*wcHBwcHBwcHBwcHBwcHBwcHBwcHBwcHBwc";
    assert_eq!(
        Err(HashDecodeError::InvalidBase64Byte(b'*', 8)),
        hashstore::hash::Hash::decode(junk)
    );
}

#[test]
fn decode_then_encode_reproduces_text() {
    let h = hashstore::hash::Hash::decode(SEVENS_ENC).unwrap();
    assert_eq!(*h.peek_bytes(), [7u8; 32]);
    assert_eq!(SEVENS_ENC, h.encoded());
}

#[test]
fn empty() {
    let henc = Hasher::new().finalize().encoded();
    assert_eq!(EMPTY_HASH, henc);
}

#[test]
fn hello_world() {
    let mut direct = Hasher::new();
    direct.update(b"Hello World!");

    let mut chunked = Hasher::new();
    chunked.update(b"Hello ");
    chunked.update(b"World!");

    for h in [direct, chunked] {
        let henc = h.finalize().encoded();
        assert_eq!("v1bAco_U6c9kv69tq6uBVUEDKYze5cxNWAQzqiXpiwA", henc);
    }
}

#[test]
fn streaming_equivalence_byte_by_byte() {
    let mut whole = Hasher::new();
    whole.update(b"The quick brown fox");

    let mut pieces = Hasher::new();
    for b in b"The quick brown fox" {
        pieces.update(&[*b]);
    }

    assert_eq!(whole.finalize(), pieces.finalize());
}

#[test]
fn update_prefix_feeds_only_the_prefix() {
    let mut h = Hasher::new();
    h.update_prefix(b"Hello World!...trailing junk", 12);
    let henc = h.finalize().encoded();
    assert_eq!("v1bAco_U6c9kv69tq6uBVUEDKYze5cxNWAQzqiXpiwA", henc);
}

#[test]
fn wrap_and_peek_are_inverse() {
    let mut bytes = [0u8; 32];
    for (i, b) in bytes.iter_mut().enumerate() {
        *b = i as u8;
    }
    let h = hashstore::hash::Hash::wrap_bytes(bytes);
    assert_eq!(*h.peek_bytes(), bytes);
}
