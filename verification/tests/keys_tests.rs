use nx_archive::formats::keyset::Keyset;
use nx_archive::formats::kv::KeyValueSet;
use nx_archive::formats::title_keyset::TitleKeys;

use cipher::{BlockEncrypt, KeyInit};

#[test]
fn test_title_keys() {
    let mut keys = TitleKeys::new();

    keys.add_title_key("foo", vec![0; 16]);
    keys.add_title_key("bar", vec![1; 16]);

    assert_eq!(keys.get_title_key("foo").unwrap(), &vec![0; 16]);
    assert_eq!(keys.get_title_key("bar").unwrap(), &vec![1; 16]);

    assert_eq!(keys.len(), 2);

    assert!(!keys.is_empty());

    assert!(keys.get_title_key("baz").is_none());
}

#[test]
fn test_case_insensitive_keys() {
    let mut keys = TitleKeys::new();

    keys.add_title_key("abc123", vec![0; 16]);

    assert_eq!(keys.get_title_key("ABC123").unwrap(), &vec![0; 16]);
    assert_eq!(keys.get_title_key("abc123").unwrap(), &vec![0; 16]);
}

#[test]
fn read_keyset_dummy() {
    let keyset = r#"
    foo = bar
    baz = qux
    quux = corge
    quuz = quux
    "#;
    let keyset = KeyValueSet::new(keyset);

    assert_eq!(keyset.get("foo"), Some(&b"bar".to_vec()));
    assert_eq!(keyset.get("baz"), Some(&b"qux".to_vec()));
    assert_eq!(keyset.get("quux"), Some(&b"corge".to_vec()));
    assert_eq!(keyset.get("quuz"), Some(&b"quux".to_vec()));
    assert_eq!(keyset.get("quuz"), Some(&b"quux".to_vec()));
}

#[test]
fn test_key_parsing_edge_cases() {
    let test_keys = r#"
    header_key = 0000000000000000000000000000000000000000000000000000000000000000
    key_area_key_application_00 = 00000000000000000000000000000000
    key_area_key_application_10 = 1010101010101010101010101010101a
    key_area_key_application_11 = 1111111111111111111111111111111b
    key_area_key_application_12 = 1212121212121212121212121212121c
    titlekek_00 = 00000000000000000000000000000000
    titlekek_10 = 1010101010101010101010101010101a
    titlekek_11 = 1111111111111111111111111111111b
    titlekek_12 = 1212121212121212121212121212121c
    ; Add some custom keys to test the new flexible system
    custom_test_key = aabbccddeeff00112233445566778899
    another_custom_key = 99887766554433221100ffeeddccbbaa
    "#;

    let keyset = Keyset::from_text(test_keys);

    let app_keys = keyset.key_area_keys_application();
    let title_keks = keyset.title_keks();

    assert!(app_keys.iter().any(|(i, _)| *i == 0));
    assert!(app_keys.iter().any(|(i, _)| *i == 16));
    assert!(app_keys.iter().any(|(i, _)| *i == 17));
    assert!(app_keys.iter().any(|(i, _)| *i == 18));

    assert!(title_keks.iter().any(|(i, _)| *i == 0));
    assert!(title_keks.iter().any(|(i, _)| *i == 16));
    assert!(title_keks.iter().any(|(i, _)| *i == 17));
    assert!(title_keks.iter().any(|(i, _)| *i == 18));

    if let Some(key) = keyset.get_key_area_key_application(16) {
        let expected_last_byte = 0x1a;
        assert_eq!(key[15], expected_last_byte, "Key value mismatch for app key 0x10");
    }

    if let Some(key) = keyset.get_title_kek(16) {
        let expected_last_byte = 0x1a;
        assert_eq!(key[15], expected_last_byte, "Key value mismatch for titlekek 0x10");
    }

    let custom_key = keyset.get_key("custom_test_key", 16);
    assert!(custom_key.is_some(), "Custom key should be loaded");

    if let Some(key) = custom_key {
        assert_eq!(key[0], 0xaa);
        assert_eq!(key[15], 0x99);
    }

    let custom_keys = keyset.get_keys_with_prefix("custom");
    assert_eq!(custom_keys.len(), 1);

    let title_keys = keyset.get_keys_with_prefix("titlekek");
    assert_eq!(title_keys.len(), 4);

    let prefixes = keyset.get_key_prefixes();
    assert!(prefixes.iter().any(|p| p == b"titlekek"));
    assert!(prefixes.iter().any(|p| p == b"key"));
    assert!(prefixes.iter().any(|p| p == b"custom"));
    assert!(prefixes.iter().any(|p| p == b"header"));
}

#[test]
fn test_header_key_and_crypt() {
    let test_keys = r#"
    header_key = 0000000000000000000000000000000000000000000000000000000000000001
    "#;

    let keyset = Keyset::from_text(test_keys);

    let header_key = keyset.header_key();
    assert!(header_key.is_some(), "Header key should be cached");

    if let Some(key) = header_key {
        assert_eq!(key[31], 0x01);
    }

    let pair = keyset.header_xts_pair();
    assert!(pair.is_some(), "Header cipher halves should be available");
    let (data_half, tweak_half) = pair.unwrap();
    assert_eq!(data_half, vec![0u8; 16]);
    assert_eq!(tweak_half[15], 0x01);
}

#[test]
fn keyset_comment_and_malformed_lines() {
    let text = "# leading comment\n// other comment\n; third comment\nshort_key = 0badc0de\nbad_hex = xyz\nodd = abc\nnot a key line\ntitlekek_00 = 000102030405060708090a0b0c0d0e0f\n";
    let keyset = Keyset::from_text(text);
    assert_eq!(keyset.get_key("short_key", 4), Some(vec![0x0b, 0xad, 0xc0, 0xde]));
    assert!(keyset.get_raw_key("bad_hex").is_none());
    assert!(keyset.get_raw_key("odd").is_none());
    let kek = keyset.get_title_kek(0).unwrap();
    assert_eq!(kek[0], 0x00);
    assert_eq!(kek[15], 0x0f);
    assert!(!keyset.has_required_nca_keys());
}

#[test]
fn titlekeys_from_text_filters_lines() {
    let text = "# comment\n00000000000000000000000000000001 = 000102030405060708090a0b0c0d0e0f\ntooshort = 000102030405060708090a0b0c0d0e0f\n00000000000000000000000000000002 = 0bad\n";
    let keys = TitleKeys::from_text(text);
    assert_eq!(keys.len(), 1);
    let k = keys.get_title_key("00000000000000000000000000000001").unwrap();
    assert_eq!(k.len(), 16);
    assert_eq!(k[15], 0x0f);
    assert!(keys.get_title_key("00000000000000000000000000000002").is_none());
}

#[test]
fn title_key_decrypt_round_trip() {
    // An encrypted title key equal to the ECB encryption of [0x42; 16]
    // under a zero key-encryption key must decrypt back to [0x42; 16].
    let kek = [0u8; 16];
    let plain = [0x42u8; 16];
    let cipher = aes::Aes128::new_from_slice(&kek).unwrap();
    let mut block = aes::Block::clone_from_slice(&plain);
    cipher.encrypt_block(&mut block);

    let mut keys = TitleKeys::new();
    keys.add_title_key("00000000000000000000000000000000", block.to_vec());
    let dec = keys
        .decrypt_title_key("00000000000000000000000000000000", &kek)
        .unwrap();
    assert_eq!(dec, plain.to_vec());
}

#[test]
fn title_key_missing_is_key_lookup_error() {
    let keys = TitleKeys::new();
    let kek = [0u8; 16];
    let r = keys.decrypt_title_key("00000000000000000000000000000000", &kek);
    match r {
        Err(nx_archive::error::Error::KeyLookupError { key_name }) => {
            assert_eq!(key_name, b"00000000000000000000000000000000".to_vec());
        },
        _ => panic!("expected a key-lookup error"),
    }
}
