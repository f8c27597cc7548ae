use nx_archive::formats::romfs::RomFs;
use nx_archive::io::VecSource;

fn push_u32(v: &mut Vec<u8>, x: u32) {
    v.extend_from_slice(&x.to_le_bytes());
}

fn push_u64(v: &mut Vec<u8>, x: u64) {
    v.extend_from_slice(&x.to_le_bytes());
}

fn name_hash(parent: u32, name: &[u8], table_len: u32) -> u32 {
    let mut h = parent ^ 123456789;
    for &b in name {
        h = h.rotate_right(5);
        h ^= b as u32;
    }
    h % table_len
}

fn dir_entry(
    parent: u32,
    sibling: u32,
    child_dir: u32,
    child_file: u32,
    hash_sibling: u32,
    name: &[u8],
) -> Vec<u8> {
    let mut v = Vec::new();
    push_u32(&mut v, parent);
    push_u32(&mut v, sibling);
    push_u32(&mut v, child_dir);
    push_u32(&mut v, child_file);
    push_u32(&mut v, hash_sibling);
    push_u32(&mut v, name.len() as u32);
    v.extend_from_slice(name);
    v
}

fn file_entry(
    parent: u32,
    sibling: u32,
    data_offset: u64,
    data_size: u64,
    hash_sibling: u32,
    name: &[u8],
) -> Vec<u8> {
    let mut v = Vec::new();
    push_u32(&mut v, parent);
    push_u32(&mut v, sibling);
    push_u64(&mut v, data_offset);
    push_u64(&mut v, data_size);
    push_u32(&mut v, hash_sibling);
    push_u32(&mut v, name.len() as u32);
    v.extend_from_slice(name);
    v
}

/// A hand-built image with the tree `/a/b/c.txt`, `c.txt` holding
/// `data`.
fn sample_romfs() -> Vec<u8> {
    const INVALID: u32 = 0xFFFFFFFF;
    // directory table: root at 0, `a` at 0x18 + 0 = 0x18, `b` after it
    let root = dir_entry(0, INVALID, 0x18, INVALID, INVALID, b"");
    let a_off = root.len() as u32;
    let a = dir_entry(0, INVALID, 0, INVALID, INVALID, b"a"); // child_dir patched below
    let b_off = a_off + a.len() as u32;
    let b = dir_entry(a_off, INVALID, INVALID, 0, INVALID, b"b");
    let a = dir_entry(0, INVALID, b_off, INVALID, INVALID, b"a");
    let mut dir_table = Vec::new();
    dir_table.extend_from_slice(&root);
    dir_table.extend_from_slice(&a);
    dir_table.extend_from_slice(&b);

    let file_table = file_entry(b_off, INVALID, 0, 4, INVALID, b"c.txt");

    // hash tables, 4 slots each
    let mut dir_hash = [INVALID; 4];
    dir_hash[name_hash(0, b"a", 4) as usize] = a_off;
    let b_slot = name_hash(a_off, b"b", 4) as usize;
    if dir_hash[b_slot] == INVALID {
        dir_hash[b_slot] = b_off;
    } else {
        // chain `b` behind `a`
        dir_hash[b_slot] = b_off;
        // the sample names do not collide for a 4-slot table
        unreachable!();
    }
    let mut file_hash = [INVALID; 4];
    file_hash[name_hash(b_off, b"c.txt", 4) as usize] = 0;

    let dir_hash_off = 64u64;
    let dir_table_off = dir_hash_off + 16;
    let file_hash_off = dir_table_off + dir_table.len() as u64;
    let file_table_off = file_hash_off + 16;
    let file_data_off = file_table_off + file_table.len() as u64;

    let mut v = Vec::new();
    push_u32(&mut v, 60); // header_size
    push_u64(&mut v, dir_hash_off);
    push_u32(&mut v, 16);
    push_u64(&mut v, dir_table_off);
    push_u32(&mut v, dir_table.len() as u32);
    push_u64(&mut v, file_hash_off);
    push_u32(&mut v, 16);
    push_u64(&mut v, file_table_off);
    push_u32(&mut v, file_table.len() as u32);
    push_u64(&mut v, file_data_off);
    while v.len() < dir_hash_off as usize {
        v.push(0);
    }
    for h in dir_hash {
        push_u32(&mut v, h);
    }
    v.extend_from_slice(&dir_table);
    for h in file_hash {
        push_u32(&mut v, h);
    }
    v.extend_from_slice(&file_table);
    v.extend_from_slice(b"data");
    v
}

#[test]
fn romfs_path_lookup() {
    let mut romfs = RomFs::from_reader(VecSource::new(sample_romfs())).unwrap();

    let entry = romfs.get_file_by_path("/a/b/c.txt").unwrap().unwrap();
    assert_eq!(entry.data_size, 4);
    assert_eq!(entry.name, b"c.txt".to_vec());

    let contents = romfs.read_to_vec("/a/b/c.txt").unwrap().unwrap();
    assert_eq!(contents, b"data".to_vec());

    assert!(romfs.get_file_by_path("/a/missing").unwrap().is_none());
    assert!(romfs.get_file_by_path("/missing/c.txt").unwrap().is_none());
    assert!(romfs.file_exists("/a/b/c.txt"));
    assert!(!romfs.file_exists("/a/missing"));
    assert!(romfs.dir_exists("/a/b"));
    assert!(!romfs.dir_exists("/zzz"));
}

#[test]
fn romfs_dead_hash_chain_is_not_found() {
    // With both hash tables holding only end-of-chain markers, every
    // lookup comes back not-found at once.
    let mut image = sample_romfs();
    // overwrite both 4-slot tables with the end-of-chain marker
    for i in 0..4 {
        let at = 64 + 4 * i;
        image[at..at + 4].copy_from_slice(&0xFFFFFFFFu32.to_le_bytes());
    }
    let dir_table_len = {
        // recompute where the file hash table starts: 64 + 16 + dir table
        let dir_len = u32::from_le_bytes(image[24..28].try_into().unwrap());
        dir_len as usize
    };
    let file_hash_off = 64 + 16 + dir_table_len;
    for i in 0..4 {
        let at = file_hash_off + 4 * i;
        image[at..at + 4].copy_from_slice(&0xFFFFFFFFu32.to_le_bytes());
    }
    let mut romfs = RomFs::from_reader(VecSource::new(image)).unwrap();
    assert!(romfs.get_file_by_path("/a/b/c.txt").unwrap().is_none());
    assert!(!romfs.dir_exists("/a"));
}

#[test]
fn romfs_open_dir_lists_children() {
    let mut romfs = RomFs::from_reader(VecSource::new(sample_romfs())).unwrap();
    let mut it = romfs.open_dir("/a").unwrap();
    assert_eq!(it.dir_count(), 1);
    assert_eq!(it.file_count(), 0);
    assert_eq!(it.next_dir(), Some(b"b".to_vec()));
    assert_eq!(it.next_dir(), None);

    let mut it = romfs.open_dir("/a/b").unwrap();
    assert_eq!(it.dir_count(), 0);
    assert_eq!(it.file_count(), 1);
    assert_eq!(it.next_file(), Some((b"c.txt".to_vec(), 4)));
    assert_eq!(it.next_file(), None);
    it.rewind();
    assert_eq!(it.next_file(), Some((b"c.txt".to_vec(), 4)));
}

#[test]
fn romfs_bad_header_is_rejected() {
    let mut image = sample_romfs();
    image[0..4].copy_from_slice(&0u32.to_le_bytes());
    assert!(RomFs::from_reader(VecSource::new(image)).is_err());
}
