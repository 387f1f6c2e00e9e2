use hashstore::{HashStore, OpenOutcome, UniqueValue, EMPTY_HASH};

const SEVENS_ENC: &str = "BwcHBwcHBwcHBwcHBwcHBwcHBwcHBwcHBwcHBwcHBwc";

#[test]
fn blob_path_is_dir_slash_encoding() {
    let store = HashStore::at_dir(String::from("/data/store"));
    assert_eq!("/data/store", store.dir().as_str());
    let h = hashstore::hash::Hash::wrap_bytes([7; 32]);
    let expected = format!("/data/store/{}", SEVENS_ENC);
    assert_eq!(expected, store.blob_path(&h));
}

#[test]
fn temp_path_uses_reserved_prefix() {
    let store = HashStore::at_dir(String::from("d"));
    let token = UniqueValue::wrap_bytes([7; 32]);
    let expected = format!("d/in.{}", SEVENS_ENC);
    assert_eq!(expected, store.temp_path(&token));
}

#[test]
fn empty_content_blob_path() {
    let store = HashStore::at_dir(String::from("."));
    let h = hashstore::Hasher::new().finalize();
    let expected = format!("./{}", EMPTY_HASH);
    assert_eq!(expected, store.blob_path(&h));
}

#[test]
fn has_hash_present() {
    let store = HashStore::at_dir(String::from("d"));
    let r: Result<bool, i32> = store.has_hash(OpenOutcome::Opened);
    assert_eq!(Ok(true), r);
}

#[test]
fn has_hash_absent() {
    let store = HashStore::at_dir(String::from("d"));
    let r: Result<bool, i32> = store.has_hash(OpenOutcome::Missing);
    assert_eq!(Ok(false), r);
}

#[test]
fn has_hash_propagates_failure() {
    let store = HashStore::at_dir(String::from("d"));
    let r: Result<bool, i32> = store.has_hash(OpenOutcome::Failed(17));
    assert_eq!(Err(17), r);
}

#[test]
fn token_encoded_like_digest_text() {
    let token = UniqueValue::wrap_bytes([7; 32]);
    assert_eq!(SEVENS_ENC, token.encoded());
}

#[test]
fn token_accepts_only_full_reads() {
    assert!(UniqueValue::from_read([1; 32], 32).is_ok());
    assert_eq!(Some(31), UniqueValue::from_read([1; 32], 31).err());
}

#[test]
fn token_from_read_keeps_bytes() {
    let t = UniqueValue::from_read([9; 32], 32).unwrap();
    let direct = UniqueValue::wrap_bytes([9; 32]);
    assert_eq!(direct.encoded(), t.encoded());
}
