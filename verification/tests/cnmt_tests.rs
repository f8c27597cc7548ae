use nx_archive::formats::cnmt::{
    Cnmt, CnmtHeader, ContentMetaPlatform, ContentMetaType, ExtendedHeader, PackagedContent,
    PackagedContentType,
};

#[test]
fn test_parse_cnmt_header() {
    let test_data = vec![
        // Header data
        0x01, 0x23, 0x45, 0x67, 0x89, 0xAB, 0xCD, 0xEF, // title_id (u64)
        0x12, 0x34, 0x56, 0x78, // title_version (u32)
        0x80, // meta_type (u8) - application
        0x00, // meta_platform (u8)
        0x10, 0x00, // extended_header_size (u16)
        0x02, 0x00, // total_content_entries (u16)
        0x01, 0x00, // total_content_meta_entries (u16)
        0x01, // attributes (u8)
        0x02, // storage_id (u8)
        0x03, // content_install_type (u8)
        0x04, // reserved (u8)
        0x11, 0x22, 0x33, 0x44, // required_dl_system_version (u32)
        0x55, 0x66, 0x77, 0x88, // reserved (u32)
    ];

    let header: CnmtHeader = CnmtHeader::parse(&test_data).unwrap();

    assert_eq!(header.title_id, 0xEFCDAB8967452301);
    assert_eq!(header.title_version, 0x78563412);
    assert_eq!(header.meta_type, ContentMetaType::Application);
    assert_eq!(header.meta_platform, ContentMetaPlatform::NX);
    assert_eq!(header.extended_header_size, 0x10);
    assert_eq!(header.total_content_entries, 0x02);
    assert_eq!(header.total_content_meta_entries, 0x01);
    assert_eq!(header.attributes, 0x01);
    assert_eq!(header.storage_id, 0x02);
    assert_eq!(header.content_install_type, 0x03);
    assert_eq!(header.required_dl_system_version, 0x44332211);
}

#[test]
fn test_content_entry() {
    let test_data = vec![
        // Hash (32 bytes)
        0x01, 0x02, 0x03, 0x04, 0x05, 0x06, 0x07, 0x08, 0x09, 0x0A, 0x0B, 0x0C, 0x0D, 0x0E, 0x0F,
        0x10, 0x11, 0x12, 0x13, 0x14, 0x15, 0x16, 0x17, 0x18, 0x19, 0x1A, 0x1B, 0x1C, 0x1D, 0x1E,
        0x1F, 0x20, // Content ID (16 bytes)
        0x21, 0x22, 0x23, 0x24, 0x25, 0x26, 0x27, 0x28, 0x29, 0x2A, 0x2B, 0x2C, 0x2D, 0x2E, 0x2F,
        0x30, // Size (6 bytes)
        0x31, 0x32, 0x33, 0x34, 0x35, 0x36, // Content type (1 byte)
        0x01, // ID offset (1 byte)
        0x42,
    ];

    let entry: PackagedContent = PackagedContent::parse(&test_data, 0).unwrap();

    let expected_hash = vec![
        0x01, 0x02, 0x03, 0x04, 0x05, 0x06, 0x07, 0x08, 0x09, 0x0A, 0x0B, 0x0C, 0x0D, 0x0E, 0x0F,
        0x10, 0x11, 0x12, 0x13, 0x14, 0x15, 0x16, 0x17, 0x18, 0x19, 0x1A, 0x1B, 0x1C, 0x1D, 0x1E,
        0x1F, 0x20,
    ];
    assert_eq!(entry.hash, expected_hash);

    let expected_content_id = vec![
        0x21, 0x22, 0x23, 0x24, 0x25, 0x26, 0x27, 0x28, 0x29, 0x2A, 0x2B, 0x2C, 0x2D, 0x2E, 0x2F,
        0x30,
    ];
    assert_eq!(entry.info.content_id, expected_content_id);

    let expected_size = 0x363534333231;
    assert_eq!(entry.info.size, expected_size);

    assert_eq!(entry.info.content_type, PackagedContentType::Program);
    assert_eq!(entry.info.id_offset, 0x42);
}

fn push_u64(v: &mut Vec<u8>, x: u64) {
    v.extend_from_slice(&x.to_le_bytes());
}

/// An application table with the literal header of the specification's
/// walkthrough, an application extended header, and two content
/// entries.
fn sample_application_cnmt() -> Vec<u8> {
    let mut v = Vec::new();
    push_u64(&mut v, 0x0100C4C320C0FFEE); // title_id
    v.extend_from_slice(&0u32.to_le_bytes()); // title_version
    v.push(0x80); // meta_type: application
    v.push(0x00); // platform
    v.extend_from_slice(&0x10u16.to_le_bytes()); // extended_header_size
    v.extend_from_slice(&2u16.to_le_bytes()); // content_count
    v.extend_from_slice(&0u16.to_le_bytes()); // content_meta_count
    v.push(0); // attributes
    v.push(0); // storage_id
    v.push(0); // content_install_type
    v.push(0); // reserved
    v.extend_from_slice(&0u32.to_le_bytes()); // required_dl_system_version
    v.extend_from_slice(&0u32.to_le_bytes()); // reserved
    // application extended header
    push_u64(&mut v, 0x0100C4C320C0FFEF); // patch_id
    v.extend_from_slice(&0u32.to_le_bytes()); // required_system_version
    v.extend_from_slice(&0u32.to_le_bytes()); // required_application_version
    // two content entries
    for (ct, id0) in [(1u8, 0x11u8), (3u8, 0x22u8)] {
        v.extend_from_slice(&[0xAB; 32]); // hash
        let mut cid = [0u8; 16];
        cid[0] = id0;
        v.extend_from_slice(&cid); // content_id
        v.extend_from_slice(&[0x00, 0x10, 0x00, 0x00, 0x00, 0x00]); // size
        v.push(ct); // content_type
        v.push(0); // id_offset
    }
    v
}

#[test]
fn cnmt_full_parse() {
    let bytes = sample_application_cnmt();
    let cnmt = Cnmt::parse(&bytes).unwrap();

    assert_eq!(cnmt.get_title_id_string(), "0100C4C320C0FFEE");
    assert_eq!(cnmt.header.meta_type, ContentMetaType::Application);
    assert_eq!(cnmt.content_entries.len(), 2);
    assert_eq!(cnmt.meta_entries.len(), 0);

    // Entry counts always agree with the header's declared counts.
    assert_eq!(cnmt.content_entries.len(), cnmt.header.total_content_entries as usize);
    assert_eq!(cnmt.meta_entries.len(), cnmt.header.total_content_meta_entries as usize);

    match &cnmt.extended_header {
        ExtendedHeader::Application(app) => {
            assert_eq!(app.patch_id, 0x0100C4C320C0FFEF);
            assert_eq!(app.required_system_version, 0);
        },
        _ => panic!("expected an application extended header"),
    }

    let program = cnmt.get_content_entry_by_type(PackagedContentType::Program).unwrap();
    assert_eq!(program.info.content_id[0], 0x11);
    assert_eq!(program.info.size, 0x1000);
    let main_id = cnmt.get_main_content_id().unwrap();
    assert_eq!(main_id[0], 0x11);
    assert!(cnmt.get_content_entry_by_type(PackagedContentType::Data).is_none());
}

#[test]
fn cnmt_short_input_is_parse_error() {
    let bytes = vec![0u8; 0x10];
    assert!(matches!(
        Cnmt::parse(&bytes),
        Err(nx_archive::error::Error::BinaryParser)
    ));
}

#[test]
fn cnmt_unknown_meta_type_is_parse_error() {
    let mut bytes = sample_application_cnmt();
    bytes[12] = 0x7F;
    assert!(matches!(
        Cnmt::parse(&bytes),
        Err(nx_archive::error::Error::BinaryParser)
    ));
}
