use nx_archive::formats::keyset::Keyset;
use nx_archive::io::Source;
use nx_archive::util::{FileEntryExt, VirtualFSExt};
use nx_archive::formats::nca::encrypt_with_header_key;
use nx_archive::formats::pfs0::Pfs0;
use nx_archive::io::VecSource;

fn push_u32(v: &mut Vec<u8>, x: u32) {
    v.extend_from_slice(&x.to_le_bytes());
}

fn push_u64(v: &mut Vec<u8>, x: u64) {
    v.extend_from_slice(&x.to_le_bytes());
}

/// A flat archive holding one named file.
fn pfs0_with(name: &[u8], contents: &[u8]) -> Vec<u8> {
    let mut v = Vec::new();
    v.extend_from_slice(b"PFS0");
    push_u32(&mut v, 1);
    push_u32(&mut v, name.len() as u32 + 1);
    push_u32(&mut v, 0);
    push_u64(&mut v, 0);
    push_u64(&mut v, contents.len() as u64);
    push_u32(&mut v, 0);
    push_u32(&mut v, 0);
    v.extend_from_slice(name);
    v.push(0);
    v.extend_from_slice(contents);
    v
}

/// A minimal application content-meta table with no entries.
fn tiny_cnmt() -> Vec<u8> {
    let mut v = Vec::new();
    push_u64(&mut v, 0x0100C4C320C0FFEE);
    v.extend_from_slice(&0u32.to_le_bytes());
    v.push(0x80);
    v.push(0x00);
    v.extend_from_slice(&0x10u16.to_le_bytes());
    v.extend_from_slice(&0u16.to_le_bytes());
    v.extend_from_slice(&0u16.to_le_bytes());
    v.extend_from_slice(&[0, 0, 0, 0]);
    v.extend_from_slice(&0u32.to_le_bytes());
    v.extend_from_slice(&0u32.to_le_bytes());
    push_u64(&mut v, 0x0100C4C320C0FFEF);
    v.extend_from_slice(&0u32.to_le_bytes());
    v.extend_from_slice(&0u32.to_le_bytes());
    v
}

/// A content archive with one unencrypted flat-archive section
/// holding the given bytes as `Application.cnmt`.
fn meta_nca(keyset: &Keyset, inner: &[u8]) -> Vec<u8> {
    let mut plain = vec![0u8; 0xC00];
    plain[0x200..0x204].copy_from_slice(b"NCA3");
    // section entry 0: media units 6..7
    plain[0x240..0x244].copy_from_slice(&6u32.to_le_bytes());
    plain[0x244..0x248].copy_from_slice(&7u32.to_le_bytes());
    // section header at 0x400
    plain[0x400..0x402].copy_from_slice(&2u16.to_le_bytes()); // version
    plain[0x402] = 1; // partition filesystem
    plain[0x403] = 2; // layered hash
    plain[0x404] = 1; // no encryption
    plain[0x405] = 0;
    // the first layer region locates the payload: offset 0, the
    // archive's length
    plain[0x440..0x448].copy_from_slice(&0u64.to_le_bytes());
    plain[0x448..0x450].copy_from_slice(&(inner.len() as u64).to_le_bytes());
    let mut image = encrypt_with_header_key(&plain, keyset, 0x200, 0);
    image.extend_from_slice(inner);
    image
}

#[test]
fn collect_cnmts_through_the_nesting() {
    let keyset = Keyset::from_text(
        "header_key = 0000000000000000000000000000000000000000000000000000000000000000\nkey_area_key_application_00 = 000102030405060708090a0b0c0d0e0f\n",
    );
    let section = pfs0_with(b"Application.cnmt", &tiny_cnmt());
    let nca = meta_nca(&keyset, &section);
    let outer = pfs0_with(b"0100c4c320c0ffee.cnmt.nca", &nca);

    let mut pfs0 = Pfs0::from_reader(VecSource::new(outer)).unwrap();
    assert_eq!(pfs0.title_id().unwrap(), 0x0100c4c320c0ffee);

    let cnmts = pfs0.get_cnmts(&keyset, None).unwrap();
    assert_eq!(cnmts.len(), 1);
    assert_eq!(cnmts[0].get_title_id_string(), "0100C4C320C0FFEE");
    assert_eq!(cnmts[0].content_entries.len(), 0);
}

#[test]
fn open_section_as_flat_archive() {
    let keyset = Keyset::from_text(
        "header_key = 0000000000000000000000000000000000000000000000000000000000000000\n",
    );
    let section = pfs0_with(b"inner.bin", b"payload");
    let image = meta_nca(&keyset, &section);
    let nca =
        nx_archive::formats::nca::Nca::from_reader(VecSource::new(image), &keyset, None).unwrap();
    assert_eq!(nca.filesystem_count(), 1);
    assert_eq!(nca.get_fs_offset(0), Some(0xC00));
    let mut inner = nca.open_pfs0_filesystem(0).unwrap();
    assert_eq!(inner.file_count(), 1);
    assert_eq!(inner.read_file("inner.bin").unwrap(), b"payload".to_vec());
}

#[test]
fn facade_shape_over_containers() {
    // The same listing-and-reading shape applies to a flat archive
    // through the facade.
    let data = pfs0_with(b"inner.bin", b"payload");
    let mut pfs0 = Pfs0::from_reader(VecSource::new(data)).unwrap();
    let files = VirtualFSExt::list_files(&mut pfs0).unwrap();
    assert_eq!(files.len(), 1);
    assert_eq!(files[0].file_name(), b"inner.bin".to_vec());
    assert_eq!(files[0].file_size(), 7);
    let found = VirtualFSExt::get_file(&mut pfs0, "inner.bin").unwrap().unwrap();
    let mut reader = pfs0.create_reader(&found).unwrap();
    let bytes = reader.read_at(0, 7).unwrap();
    assert_eq!(bytes, b"payload".to_vec());
}
