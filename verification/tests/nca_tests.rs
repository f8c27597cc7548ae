use nx_archive::crypto::get_nintendo_tweak;
use nx_archive::error::Error;
use nx_archive::formats::keyset::Keyset;
use nx_archive::formats::nca::{decrypt_with_header_key, encrypt_with_header_key, Nca};
use nx_archive::io::VecSource;

use cipher::{BlockEncryptMut, KeyInit};
use xts_mode::get_tweak_default;

#[test]
fn test_nintendo_tweak_generation() {
    let sector = 0x01020304_u128;
    let tweak = get_nintendo_tweak(sector);
    let expected = [
        0x00, 0x00, 0x00, 0x00, 0x00, 0x00, 0x00, 0x00, 0x00, 0x00, 0x00, 0x00, 0x01, 0x02, 0x03,
        0x04,
    ];
    assert_eq!(tweak.as_slice(), &expected);
}

#[test]
fn test_standard_tweak_generation() {
    let sector = 0x01020304_u128;
    let tweak = get_tweak_default(sector);
    let expected = [
        0x04, 0x03, 0x02, 0x01, 0x00, 0x00, 0x00, 0x00, 0x00, 0x00, 0x00, 0x00, 0x00, 0x00, 0x00,
        0x00,
    ];
    assert_eq!(tweak.as_slice(), &expected);
}

#[test]
fn test_nintendo_standard_tweak_difference() {
    let sector = 0x0102030405060708_u128;
    let nintendo_tweak = get_nintendo_tweak(sector);
    let standard_tweak = get_tweak_default(sector);
    assert_ne!(nintendo_tweak, standard_tweak);
}

fn zero_header_keyset() -> Keyset {
    Keyset::from_text(
        "header_key = 0000000000000000000000000000000000000000000000000000000000000000\nkey_area_key_application_00 = 000102030405060708090a0b0c0d0e0f\n",
    )
}

#[test]
fn xts_header_round_trip() {
    // Encrypting a header-sized buffer under the header key with the
    // console tweak and decrypting it again gives the buffer back.
    let keyset = zero_header_keyset();
    let data: Vec<u8> = (0..0xC00u32).map(|i| (i % 253) as u8).collect();
    let encrypted = encrypt_with_header_key(&data, &keyset, 0x200, 0);
    assert_ne!(encrypted, data);
    let decrypted = decrypt_with_header_key(&encrypted, &keyset, 0x200, 0);
    assert_eq!(decrypted, data);
}

/// A header-sized plaintext whose main header carries the magic, zeroed
/// rights-id and the given four entry words.
fn synthetic_nca_plain(entries: [(u32, u32); 4]) -> Vec<u8> {
    let mut v = vec![0u8; 0xC00];
    v[0x200..0x204].copy_from_slice(b"NCA3");
    // distribution, content type, generations and key index stay zero
    v[0x210..0x218].copy_from_slice(&0x0102030405060708u64.to_le_bytes());
    for (i, (start, end)) in entries.iter().enumerate() {
        let base = 0x240 + 0x10 * i;
        v[base..base + 4].copy_from_slice(&start.to_le_bytes());
        v[base + 4..base + 8].copy_from_slice(&end.to_le_bytes());
    }
    v
}

#[test]
fn nca_with_zeroed_entries_exposes_no_sections() {
    let keyset = zero_header_keyset();
    let mut plain = synthetic_nca_plain([(0, 0); 4]);
    // key area: ECB-encrypt a recognizable key area under the
    // application key so that opening resolves it back
    let kak: Vec<u8> = (0..16u8).collect();
    let mut area = [0u8; 0x40];
    area[..0x20].copy_from_slice(&[1u8; 0x20]);
    area[0x20..0x30].copy_from_slice(&[2u8; 0x10]);
    let mut enc = ecb::Encryptor::<aes::Aes128>::new_from_slice(&kak).unwrap();
    let mut blocks: Vec<aes::Block> = area
        .chunks_exact(16)
        .map(aes::Block::clone_from_slice)
        .collect();
    enc.encrypt_blocks_mut(&mut blocks);
    let flat: Vec<u8> = blocks.into_iter().flatten().collect();
    plain[0x300..0x340].copy_from_slice(&flat);

    let image = encrypt_with_header_key(&plain, &keyset, 0x200, 0);
    let nca = Nca::from_reader(VecSource::new(image), &keyset, None).unwrap();

    assert_eq!(nca.filesystem_count(), 0);
    assert!(!nca.has_rights_id());
    assert_eq!(nca.get_key_generation(), 0);
    assert_eq!(nca.header.program_id, 0x0102030405060708);
    assert!(nca.has_valid_keys());
    assert_eq!(nca.get_aes_ctr_decrypt_key().unwrap(), vec![2u8; 16]);
    assert!(nca.get_fs_offset(0).is_none());
}

#[test]
fn nca_bad_magic_is_format_error() {
    let keyset = zero_header_keyset();
    let mut plain = synthetic_nca_plain([(0, 0); 4]);
    plain[0x200..0x204].copy_from_slice(b"XXXX");
    let image = encrypt_with_header_key(&plain, &keyset, 0x200, 0);
    match Nca::from_reader(VecSource::new(image), &keyset, None) {
        Err(Error::InvalidFormat { expected_magic, actual_magic }) => {
            assert_eq!(expected_magic, 0x41434E);
            assert_ne!(actual_magic, expected_magic);
        },
        _ => panic!("expected a format error"),
    }
}

#[test]
fn nca_missing_header_key_names_it() {
    let keyset = Keyset::from_text("");
    let image = vec![0u8; 0xC00];
    match Nca::from_reader(VecSource::new(image), &keyset, None) {
        Err(Error::KeyLookupError { key_name }) => {
            assert_eq!(key_name, b"header_key".to_vec());
        },
        _ => panic!("expected a key-lookup error"),
    }
}

#[test]
fn nca_missing_key_area_key_is_keys_invalid() {
    let keyset = Keyset::from_text(
        "header_key = 0000000000000000000000000000000000000000000000000000000000000000\n",
    );
    let plain = synthetic_nca_plain([(0, 0); 4]);
    let image = encrypt_with_header_key(&plain, &keyset, 0x200, 0);
    let nca = Nca::from_reader(VecSource::new(image), &keyset, None).unwrap();
    assert!(!nca.has_valid_keys());
    assert!(matches!(
        nca.get_aes_ctr_decrypt_key(),
        Err(Error::KeyLookupError { .. })
    ));
}
