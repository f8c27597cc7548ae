use nx_archive::error::Error;
use nx_archive::formats::pfs0::Pfs0;
use nx_archive::io::VecSource;

fn push_u32(v: &mut Vec<u8>, x: u32) {
    v.extend_from_slice(&x.to_le_bytes());
}

fn push_u64(v: &mut Vec<u8>, x: u64) {
    v.extend_from_slice(&x.to_le_bytes());
}

/// Builds a flat archive holding `a.txt` = "hello" and `b.bin` =
/// [0x00, 0x01, 0x02].
fn sample_pfs0() -> Vec<u8> {
    let mut v = Vec::new();
    v.extend_from_slice(b"PFS0");
    push_u32(&mut v, 2);
    push_u32(&mut v, 12);
    push_u32(&mut v, 0);
    // entry a.txt
    push_u64(&mut v, 0);
    push_u64(&mut v, 5);
    push_u32(&mut v, 0);
    push_u32(&mut v, 0);
    // entry b.bin
    push_u64(&mut v, 5);
    push_u64(&mut v, 3);
    push_u32(&mut v, 6);
    push_u32(&mut v, 0);
    // string table
    v.extend_from_slice(b"a.txt\0b.bin\0");
    // data
    v.extend_from_slice(b"hello");
    v.extend_from_slice(&[0x00, 0x01, 0x02]);
    v
}

#[test]
fn pfs0_round_trip_extraction() {
    let mut pfs0 = Pfs0::from_reader(VecSource::new(sample_pfs0())).unwrap();
    assert_eq!(pfs0.file_count(), 2);

    let names = pfs0.list_files().unwrap();
    assert_eq!(names, vec![b"a.txt".to_vec(), b"b.bin".to_vec()]);

    let a = pfs0.read_file("a.txt").unwrap();
    assert_eq!(a, b"hello".to_vec());
    let b = pfs0.read_file("b.bin").unwrap();
    assert_eq!(b, vec![0x00, 0x01, 0x02]);

    assert!(matches!(pfs0.read_file("missing"), Err(Error::NotFound)));
}

#[test]
fn pfs0_lookup_each_listed_entry() {
    // Looking each listed entry's own name up returns that entry.
    let pfs0 = Pfs0::from_reader(VecSource::new(sample_pfs0())).unwrap();
    let files = pfs0.get_files();
    for f in &files {
        let name = String::from_utf8(f.name.clone()).unwrap();
        let found = pfs0.get_file(&name).unwrap();
        assert_eq!(found.name, f.name);
        assert_eq!(found.data_offset, f.data_offset);
        assert_eq!(found.size, f.size);
    }
}

#[test]
fn pfs0_empty_archive_lists_nothing() {
    let mut v = Vec::new();
    v.extend_from_slice(b"PFS0");
    push_u32(&mut v, 0);
    push_u32(&mut v, 0);
    push_u32(&mut v, 0);
    let pfs0 = Pfs0::from_reader(VecSource::new(v)).unwrap();
    assert_eq!(pfs0.file_count(), 0);
    assert!(pfs0.list_files().unwrap().is_empty());
    assert!(pfs0.get_file("anything").is_none());
}

#[test]
fn pfs0_bad_magic_is_format_error() {
    let mut v = sample_pfs0();
    v[0] = b'Q';
    match Pfs0::from_reader(VecSource::new(v)) {
        Err(Error::InvalidFormat { expected_magic, actual_magic }) => {
            assert_eq!(expected_magic, 0x30534650);
            assert_ne!(actual_magic, expected_magic);
        },
        _ => panic!("expected a format error"),
    }
}

#[test]
fn pfs0_short_table_is_parse_error() {
    let mut v = Vec::new();
    v.extend_from_slice(b"PFS0");
    push_u32(&mut v, 9);
    push_u32(&mut v, 0);
    push_u32(&mut v, 0);
    assert!(matches!(
        Pfs0::from_reader(VecSource::new(v)),
        Err(Error::BinaryParser)
    ));
}

#[test]
fn pfs0_title_id_from_meta_name() {
    let mut v = Vec::new();
    v.extend_from_slice(b"PFS0");
    push_u32(&mut v, 1);
    push_u32(&mut v, 26);
    push_u32(&mut v, 0);
    push_u64(&mut v, 0);
    push_u64(&mut v, 0);
    push_u32(&mut v, 0);
    push_u32(&mut v, 0);
    v.extend_from_slice(b"0100c4c320c0ffee.cnmt.nca\0");
    let pfs0 = Pfs0::from_reader(VecSource::new(v)).unwrap();
    assert_eq!(pfs0.title_id().unwrap(), 0x0100c4c320c0ffee);
}
