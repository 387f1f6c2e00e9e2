use hashstore::b64;
use hashstore::b64::B64DecodeError;

#[test]
fn empty_u8() {
    let arr: [u8; 0] = [0; 0];
    assert_eq!("", b64::encode(&arr));
}

#[test]
fn one_u8() {
    let arr: [u8; 1] = [42];
    assert_eq!("Kg", b64::encode(&arr));
}

#[test]
fn b64_empty_u8() {
    assert_eq!(Some(vec![]), b64::decode("").ok());
}

#[test]
fn b64_one_u8() {
    assert_eq!(Some(vec![42]), b64::decode("Kg").ok());
}

#[test]
fn malformed_single_char() {
    match b64::decode("K") {
        Err(B64DecodeError::InvalidLength(1)) => {}
        other => {
            assert!(false, "Unexpected success or error: {:?}", other);
        }
    }
}

#[test]
fn malformed_unrecognized_char() {
    match b64::decode("K!") {
        Err(B64DecodeError::InvalidByte(b'!', 1)) => {}
        other => {
            assert!(false, "Unexpected success or error: {:?}", other);
        }
    }
}

#[test]
fn roundtrip_all_byte_values() {
    let mut bytes: Vec<u8> = Vec::new();
    for i in 0..=255u8 {
        bytes.push(i);
    }
    let text = b64::encode(&bytes);
    assert_eq!(Ok(bytes), b64::decode(&text));
}

#[test]
fn roundtrip_every_short_length() {
    for n in 0..10usize {
        let bytes: Vec<u8> = (0..n).map(|i| (i * 37 + 5) as u8).collect();
        let text = b64::encode(&bytes);
        assert_eq!((n * 4 + 2) / 3, text.len());
        assert_eq!(Ok(bytes), b64::decode(&text));
    }
}

#[test]
fn known_vectors() {
    assert_eq!("AA", b64::encode(&[0]));
    assert_eq!("AAA", b64::encode(&[0, 0]));
    assert_eq!("AAAA", b64::encode(&[0, 0, 0]));
    assert_eq!("____", b64::encode(&[255, 255, 255]));
    assert_eq!("SGVsbG8", b64::encode(b"Hello"));
}

#[test]
fn first_bad_byte_reported() {
    // length 4, bytes at 0 and 1 valid, '=' at index 2 is outside the alphabet
    match b64::decode("AB=*") {
        Err(B64DecodeError::InvalidByte(b'=', 2)) => {}
        other => {
            assert!(false, "Unexpected success or error: {:?}", other);
        }
    }
}

#[test]
fn impossible_length_reported() {
    match b64::decode("ABCDE") {
        Err(B64DecodeError::InvalidLength(5)) => {}
        other => {
            assert!(false, "Unexpected success or error: {:?}", other);
        }
    }
}
