use credstore::encoding::{decode_current, encode_current, le_to_units, units_to_le};
use credstore::error::CredentialError;
use credstore::migration::{contains_nul, legacy_text};
use credstore::store::MemoryStore;
use credstore::target::{lookup_target, target_string};

fn legacy_store(service: &str, account: &str, text: &str) -> MemoryStore {
    let mut store = MemoryStore::new();
    store.write_raw(service, account, text.as_bytes().to_vec());
    store
}

#[test]
fn json_blob_is_migrated() {
    let mut store = legacy_store("svc", "acct", "{\"k\":\"v\"}");
    assert_eq!(store.migrate_keytar_password("svc", "acct"), Ok(true));
    assert_eq!(store.get_password("svc", "acct"), Ok("{\"k\":\"v\"}".to_string()));
}

#[test]
fn missing_record_is_not_migrated() {
    let mut store = MemoryStore::new();
    assert_eq!(store.migrate_keytar_password("svc2", "missing"), Ok(false));
    assert_eq!(store.get_password("svc2", "missing"), Err(CredentialError::NotFound));
    assert_eq!(store.read_raw("svc2", "missing"), None);
}

#[test]
fn non_ascii_legacy_text_round_trips() {
    let text = "h\u{e9}llo \u{2713} \u{1d11e}";
    let mut store = legacy_store("svc", "acct", text);
    assert_eq!(store.migrate_keytar_password("svc", "acct"), Ok(true));
    assert_eq!(store.get_password("svc", "acct"), Ok(text.to_string()));
}

#[test]
fn migrating_twice_changes_nothing_the_second_time() {
    let mut store = legacy_store("svc", "acct", "secret");
    assert_eq!(store.migrate_keytar_password("svc", "acct"), Ok(true));
    let after_first = store.read_raw("svc", "acct");
    assert_eq!(store.get_password("svc", "acct"), Ok("secret".to_string()));
    assert_eq!(store.migrate_keytar_password("svc", "acct"), Ok(false));
    assert_eq!(store.read_raw("svc", "acct"), after_first);
    assert_eq!(store.get_password("svc", "acct"), Ok("secret".to_string()));
}

#[test]
fn text_whose_wide_form_reads_as_utf8_migrates_again() {
    // U+4141 is stored as the bytes 0x41 0x41, which read as "AA".
    let mut store = legacy_store("svc", "acct", "\u{4141}");
    assert_eq!(store.migrate_keytar_password("svc", "acct"), Ok(true));
    assert_eq!(store.read_raw("svc", "acct"), Some(vec![0x41, 0x41]));
    assert_eq!(store.migrate_keytar_password("svc", "acct"), Ok(true));
    assert_eq!(store.get_password("svc", "acct"), Ok("AA".to_string()));
}

#[test]
fn current_record_is_left_alone() {
    let mut store = MemoryStore::new();
    store.set_password("svc", "acct", "hunter2");
    let raw = store.read_raw("svc", "acct");
    assert_eq!(store.migrate_keytar_password("svc", "acct"), Ok(false));
    assert_eq!(store.read_raw("svc", "acct"), raw);
    assert_eq!(store.get_password("svc", "acct"), Ok("hunter2".to_string()));
}

#[test]
fn blob_with_zero_byte_is_left_alone() {
    let mut store = MemoryStore::new();
    let blob = vec![b'a', b'b', 0, b'c', b'd'];
    store.write_raw("svc", "acct", blob.clone());
    assert_eq!(store.migrate_keytar_password("svc", "acct"), Ok(false));
    assert_eq!(store.read_raw("svc", "acct"), Some(blob));
}

#[test]
fn empty_and_invalid_blobs_are_left_alone() {
    let mut store = MemoryStore::new();
    store.write_raw("svc", "empty", Vec::new());
    store.write_raw("svc", "bad", vec![0xff, 0xfe, 0x41]);
    assert_eq!(store.migrate_keytar_password("svc", "empty"), Ok(false));
    assert_eq!(store.migrate_keytar_password("svc", "bad"), Ok(false));
    assert_eq!(store.read_raw("svc", "bad"), Some(vec![0xff, 0xfe, 0x41]));
    assert_eq!(store.get_password("svc", "bad"), Err(CredentialError::Decode));
}

#[test]
fn key_with_interior_nul_is_refused() {
    let mut store = MemoryStore::new();
    assert_eq!(
        store.migrate_keytar_password("s\0vc", "acct"),
        Err(CredentialError::InvalidTarget)
    );
    assert!(lookup_target("s\0vc", "acct").is_err());
    assert!(lookup_target("svc", "acct").is_ok());
    // A final U+0000 is taken as the terminator.
    assert!(lookup_target("svc", "acct\0").is_ok());
}

#[test]
fn set_get_delete() {
    let mut store = MemoryStore::new();
    assert!(store.is_available());
    store.set_password("svc", "acct", "one");
    store.set_password("svc", "acct", "two");
    store.set_password("svc", "other", "three");
    assert_eq!(store.get_password("svc", "acct"), Ok("two".to_string()));
    assert_eq!(store.get_password("svc", "other"), Ok("three".to_string()));
    assert_eq!(store.delete_password("svc", "acct"), Ok(()));
    assert_eq!(store.get_password("svc", "acct"), Err(CredentialError::NotFound));
    assert_eq!(store.delete_password("svc", "acct"), Err(CredentialError::NotFound));
    assert_eq!(store.get_password("svc", "other"), Ok("three".to_string()));
}

#[test]
fn keys_are_case_sensitive() {
    let mut store = MemoryStore::new();
    store.set_password("Svc", "acct", "a");
    assert_eq!(store.get_password("svc", "acct"), Err(CredentialError::NotFound));
}

#[test]
fn lookup_target_is_terminated_utf16() {
    let mut expected: Vec<u16> = "svc/acct".encode_utf16().collect();
    expected.push(0);
    assert_eq!(lookup_target("svc", "acct"), Ok(expected.clone()));
    // A final U+0000 already terminates the units and is not doubled.
    assert_eq!(lookup_target("svc", "acct\0"), Ok(expected));
    assert_eq!(
        lookup_target("s", "\u{1d11e}"),
        Ok(vec![0x73, 0x2f, 0xd834, 0xdd1e, 0])
    );
}

#[test]
fn target_joins_with_slash() {
    assert_eq!(target_string("svc", "acct"), "svc/acct");
}

#[test]
fn current_encoding_is_utf16_le() {
    assert_eq!(encode_current("A"), vec![0x41, 0x00]);
    assert_eq!(encode_current("\u{1d11e}"), vec![0x34, 0xd8, 0x1e, 0xdd]);
    assert_eq!(encode_current(""), Vec::<u8>::new());
    assert_eq!(decode_current(&[0x41, 0x00, 0x42, 0x00]), Some("AB".to_string()));
    assert_eq!(decode_current(&[0x41]), None);
    // A lone high surrogate.
    assert_eq!(decode_current(&[0x34, 0xd8]), None);
}

#[test]
fn little_endian_units() {
    assert_eq!(units_to_le(&[0x1234, 0x00ff]), vec![0x34, 0x12, 0xff, 0x00]);
    assert_eq!(le_to_units(&[0x34, 0x12, 0xff, 0x00]), Some(vec![0x1234, 0x00ff]));
    assert_eq!(le_to_units(&[1, 2, 3]), None);
}

#[test]
fn legacy_classification() {
    assert_eq!(legacy_text(b"{\"k\":\"v\"}".to_vec()), Some("{\"k\":\"v\"}".to_string()));
    assert_eq!(legacy_text(Vec::new()), None);
    assert_eq!(legacy_text(vec![0x41, 0x00]), None);
    assert_eq!(legacy_text(vec![0xc3, 0x28]), None);
    assert_eq!(legacy_text("\u{e9}".as_bytes().to_vec()), Some("\u{e9}".to_string()));
}

#[test]
fn nul_detection() {
    assert!(contains_nul("a\0b"));
    assert!(!contains_nul("abc"));
    assert!(!contains_nul(""));
}

#[test]
fn error_reasons() {
    assert_eq!(CredentialError::NotFound.reason(), "PASSWORD_NOT_FOUND");
    assert_eq!(CredentialError::Decode.reason(), "PASSWORD_NOT_DECODABLE");
    assert_eq!(CredentialError::InvalidTarget.reason(), "INVALID_TARGET");
}
