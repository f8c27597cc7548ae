use nx_archive::align_down;
use nx_archive::align_to;
use nx_archive::align_up;
use nx_archive::error::Error;
use nx_archive::formats::hfs0::Hfs0;
use nx_archive::formats::ncz::{
    generate_counter_from_offset, generate_counter_from_section, BlockHeader, NczHeader, Section,
};
use nx_archive::io::VecSource;

fn push_u32(v: &mut Vec<u8>, x: u32) {
    v.extend_from_slice(&x.to_le_bytes());
}

fn push_u64(v: &mut Vec<u8>, x: u64) {
    v.extend_from_slice(&x.to_le_bytes());
}

/// A hashed archive holding `one.bin` = [0xAA; 4] and `two.bin` =
/// [0xBB; 2].
fn sample_hfs0() -> Vec<u8> {
    let mut v = Vec::new();
    v.extend_from_slice(b"HFS0");
    push_u32(&mut v, 2);
    push_u32(&mut v, 16);
    push_u32(&mut v, 0);
    // entry one.bin
    push_u64(&mut v, 0);
    push_u64(&mut v, 4);
    push_u32(&mut v, 0);
    push_u32(&mut v, 4);
    push_u64(&mut v, 0);
    v.extend_from_slice(&[0x11; 32]);
    // entry two.bin
    push_u64(&mut v, 4);
    push_u64(&mut v, 2);
    push_u32(&mut v, 8);
    push_u32(&mut v, 2);
    push_u64(&mut v, 0);
    v.extend_from_slice(&[0x22; 32]);
    // string table, padded to the declared 16 bytes
    v.extend_from_slice(b"one.bin\0two.bin\0");
    // data
    v.extend_from_slice(&[0xAA; 4]);
    v.extend_from_slice(&[0xBB; 2]);
    v
}

#[test]
fn hfs0_lists_and_reads_entries() {
    let mut hfs0 = Hfs0::new(VecSource::new(sample_hfs0())).unwrap();
    let files = hfs0.get_files();
    assert_eq!(files.len(), 2);
    assert_eq!(files[0].name, b"one.bin".to_vec());
    assert_eq!(files[1].name, b"two.bin".to_vec());
    assert_eq!(files[0].hash, vec![0x11; 32]);

    let one = hfs0.get_file("one.bin").unwrap().unwrap();
    let data = hfs0.read_to_vec(&one).unwrap();
    assert_eq!(data, vec![0xAA; 4]);

    let two = hfs0.get_file("two.bin").unwrap().unwrap();
    let data = hfs0.read_to_vec(&two).unwrap();
    assert_eq!(data, vec![0xBB; 2]);

    assert!(hfs0.get_file("three.bin").unwrap().is_none());
}

#[test]
fn hfs0_bad_magic_is_format_error() {
    let mut v = sample_hfs0();
    v[0] = b'Z';
    assert!(matches!(
        Hfs0::new(VecSource::new(v)),
        Err(Error::InvalidFormat { .. })
    ));
}

#[test]
fn alignment_helpers() {
    assert_eq!(align_down(0x1234, 0x10), 0x1230);
    assert_eq!(align_down(0x1230, 0x10), 0x1230);
    assert_eq!(align_up(0x1234, 0x10), 0x1240);
    assert_eq!(align_up(0x1230, 0x10), 0x1230);
    assert_eq!(align_to(0, 0x10), 0);
    assert_eq!(align_to(1, 0x10), 0x10);
    assert_eq!(align_to(0x2F, 0x10), 0x30);
}

#[test]
fn block_header_exponent_and_write() {
    let bh = BlockHeader::new(16 * 1024 * 1024, 0x12345678);
    assert_eq!(bh.version, 2);
    assert_eq!(bh.block_type, 1);
    assert_eq!(bh.block_size_exponent, 24);
    assert_eq!(bh.decompressed_size, 0x12345678);

    let mut out = Vec::new();
    let mut bh = bh;
    bh.block_sizes = vec![7, 9];
    bh.write(&mut out);
    assert_eq!(&out[0..8], b"NCZBLOCK");
    assert_eq!(out[8], 2);
    assert_eq!(out[9], 1);
    assert_eq!(out[10], 0);
    assert_eq!(out[11], 24);
    assert_eq!(&out[12..16], &2u32.to_le_bytes());
    assert_eq!(&out[16..24], &0x12345678u64.to_le_bytes());
    assert_eq!(&out[24..28], &7u32.to_le_bytes());
    assert_eq!(&out[28..32], &9u32.to_le_bytes());
    assert_eq!(out.len(), 32);
}

#[test]
fn ncz_section_serialization() {
    let section = Section {
        offset: 0x4000,
        size: 0x1000,
        crypto_type: 3,
        crypto_key: vec![0x42; 16],
        crypto_counter: vec![0x24; 16],
    };
    let header = NczHeader { sections: vec![section] };
    let mut out = Vec::new();
    header.write(&mut out);
    assert_eq!(&out[0..8], b"NCZSECTN");
    assert_eq!(&out[8..16], &1u64.to_le_bytes());
    assert_eq!(&out[16..24], &0x4000u64.to_le_bytes());
    assert_eq!(&out[24..32], &0x1000u64.to_le_bytes());
    assert_eq!(&out[32..40], &3u64.to_le_bytes());
    assert_eq!(&out[40..48], &[0u8; 8]);
    assert_eq!(&out[48..64], &[0x42u8; 16]);
    assert_eq!(&out[64..80], &[0x24u8; 16]);
}

#[test]
fn counter_generation() {
    let c = generate_counter_from_section(0x4000);
    let mut expected = [0u8; 16];
    expected[8..].copy_from_slice(&(0x4000u64 >> 4).to_be_bytes());
    assert_eq!(c, expected.to_vec());
    assert_eq!(generate_counter_from_offset(0x4000), c);
}
