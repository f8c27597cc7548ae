use nx_archive::formats::keyset::Keyset;
use nx_archive::formats::xci::Xci;
use nx_archive::io::VecSource;

fn push_u32(v: &mut Vec<u8>, at: usize, x: u32) {
    v[at..at + 4].copy_from_slice(&x.to_le_bytes());
}

fn push_u64(v: &mut Vec<u8>, at: usize, x: u64) {
    v[at..at + 8].copy_from_slice(&x.to_le_bytes());
}

/// An empty hashed archive: a bare header with no entries.
fn empty_hfs0() -> Vec<u8> {
    let mut v = Vec::new();
    v.extend_from_slice(b"HFS0");
    v.extend_from_slice(&0u32.to_le_bytes());
    v.extend_from_slice(&0u32.to_le_bytes());
    v.extend_from_slice(&0u32.to_le_bytes());
    v
}

/// A root hashed archive holding one empty `secure` partition.
fn root_hfs0() -> Vec<u8> {
    let mut v = Vec::new();
    v.extend_from_slice(b"HFS0");
    v.extend_from_slice(&1u32.to_le_bytes());
    v.extend_from_slice(&7u32.to_le_bytes()); // string table size
    v.extend_from_slice(&0u32.to_le_bytes());
    // one 0x40-byte entry: offset 0, size 0x10, name at 0
    v.extend_from_slice(&0u64.to_le_bytes());
    v.extend_from_slice(&0x10u64.to_le_bytes());
    v.extend_from_slice(&0u32.to_le_bytes());
    v.extend_from_slice(&0u32.to_le_bytes());
    v.extend_from_slice(&0u64.to_le_bytes());
    v.extend_from_slice(&[0u8; 32]);
    v.extend_from_slice(b"secure\0");
    // data region: the empty partition
    v.extend_from_slice(&empty_hfs0());
    v
}

/// A full gamecard image: a 0x1000-byte key area, the header at
/// 0x1000, and the root archive at 0x3000.
fn full_xci() -> Vec<u8> {
    let mut v = vec![0u8; 0x5000];
    v[0x1100..0x1104].copy_from_slice(b"HEAD");
    v[0x1000 + 0x10D] = 0xFA; // storage size code
    v[0x1000 + 0x10F] = 0x00; // flags
    push_u64(&mut v, 0x1000 + 0x110, 0x00AA00BB00CC00DD); // package id
    push_u32(&mut v, 0x1000 + 0x118, 0x10); // valid data end, media units
    push_u64(&mut v, 0x1000 + 0x130, 0x2000); // root offset field
    let root = root_hfs0();
    v[0x3000..0x3000 + root.len()].copy_from_slice(&root);
    // a distinctive key-area byte to check it is kept
    v[0] = 0x5A;
    v
}

#[test]
fn test_xci() {
    let image = full_xci();
    let xci = Xci::new(VecSource::new(image)).unwrap();
    assert!(xci.key_area.is_some());
    assert_eq!(xci.key_area.as_ref().unwrap()[0], 0x5A);
    assert_eq!(xci.header.package_id, 0x00AA00BB00CC00DD);
    assert_eq!(xci.header.hfs0_offset, 0x2000);
    assert_eq!(xci.get_hfs0_offset(), 0x3000);
    assert_eq!(xci.title_id().unwrap(), 0x00AA00BB00CC00DD);

    let root = xci.list_hfs0_partitions().unwrap();
    let files = root.get_files();
    assert_eq!(files.len(), 1);
    assert_eq!(files[0].name, b"secure".to_vec());

    let secure = xci.open_secure_partition().unwrap().unwrap();
    assert_eq!(secure.get_files().len(), 0);
    assert!(xci.open_logo_partition().unwrap().is_none());

    // the empty secure partition yields no content-meta tables
    let keyset = Keyset::from_text(
        "header_key = 0000000000000000000000000000000000000000000000000000000000000000\n",
    );
    let cnmts = xci.get_cnmts(&keyset, None).unwrap();
    assert!(cnmts.is_empty());
}

#[test]
fn xci_trimmed_matches_full() {
    // A trimmed image, the full one with its key area cut off, parses
    // to the same header and the same partitions.
    let image = full_xci();
    let trimmed = image[0x1000..].to_vec();

    let full = Xci::new(VecSource::new(image)).unwrap();
    let cut = Xci::new(VecSource::new(trimmed)).unwrap();

    assert!(full.key_area.is_some());
    assert!(cut.key_area.is_none());

    assert_eq!(full.header.package_id, cut.header.package_id);
    assert_eq!(full.header.hfs0_offset, cut.header.hfs0_offset);
    assert_eq!(full.header.valid_data_end_address, cut.header.valid_data_end_address);
    assert_eq!(full.header.rom_size, cut.header.rom_size);
    assert_eq!(full.get_hfs0_offset(), cut.get_hfs0_offset() + 0x1000);

    let full_files = full.list_hfs0_partitions().unwrap().get_files();
    let cut_files = cut.list_hfs0_partitions().unwrap().get_files();
    assert_eq!(full_files.len(), cut_files.len());
    for (a, b) in full_files.iter().zip(cut_files.iter()) {
        assert_eq!(a.name, b.name);
        assert_eq!(a.size, b.size);
        assert_eq!(a.offset, b.offset);
        assert_eq!(a.hash, b.hash);
    }

    let fs = full.open_secure_partition().unwrap().unwrap();
    let cs = cut.open_secure_partition().unwrap().unwrap();
    assert_eq!(fs.get_files().len(), cs.get_files().len());
}

#[test]
fn xci_without_magic_is_rejected() {
    let image = vec![0u8; 0x5000];
    assert!(Xci::new(VecSource::new(image)).is_err());
}
