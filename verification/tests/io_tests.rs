use nx_archive::io::{Aes128CtrReader, SharedReader, Source, SubFile, VecSource};

use cipher::{KeyIvInit, StreamCipher};

#[test]
fn test_aes128_ctr_reader() {
    let test_data = b"0123456789ABCDEF0123456789ABCDEF";
    let key = vec![
        0x13, 0x37, 0x13, 0x37, 0x13, 0x37, 0x13, 0x37, 0x13, 0x37, 0x13, 0x37, 0x13, 0x37, 0x13,
        0x37,
    ];

    // First encrypt the data
    let iv = [0u8; 0x10];
    let mut cipher = ctr::Ctr128BE::<aes::Aes128>::new_from_slices(&key, &iv).unwrap();
    let mut encrypted = test_data.to_vec();
    cipher.apply_keystream(&mut encrypted);

    // Now test decryption through the counter-mode reader
    let shared = VecSource::new(encrypted);
    let mut aes_reader = Aes128CtrReader::new(shared, 0, 0, key);

    let buf = aes_reader.read_at(0, 16).unwrap();
    assert_eq!(&buf, &test_data[..16]);
}

#[test]
fn ctr_stream_misaligned_reads() {
    // Plaintext 0..1024 encrypted with the counter starting at the
    // 16-byte block number of base offset 0x4000; every read window,
    // aligned or not, must come back as the matching plaintext slice.
    let plaintext: Vec<u8> = (0..1024u32).map(|i| (i % 251) as u8).collect();
    let key = vec![0x10u8; 16];
    let base: u64 = 0x4000;
    let mut iv = [0u8; 16];
    iv[8..].copy_from_slice(&(base >> 4).to_be_bytes());
    let mut cipher = ctr::Ctr128BE::<aes::Aes128>::new_from_slices(&key, &iv).unwrap();
    let mut encrypted = plaintext.clone();
    cipher.apply_keystream(&mut encrypted);

    let mut image = vec![0xAAu8; base as usize];
    image.extend_from_slice(&encrypted);

    let mut reader = Aes128CtrReader::new(VecSource::new(image), base, 0, key);
    for &off in &[0usize, 1, 5, 15, 16, 17, 127, 1008] {
        for &len in &[1usize, 15, 16, 17, 100, 1024 - off] {
            if off + len > plaintext.len() {
                continue;
            }
            let got = reader.read_at(off as u64, len).unwrap();
            assert_eq!(&got, &plaintext[off..off + len], "offset {} length {}", off, len);
        }
    }
}

#[test]
fn subfile_window_and_seek() {
    let data: Vec<u8> = (0..32u8).collect();
    let src = VecSource::new(data.clone());
    let mut sub = SubFile::new(src, 8, 24);
    assert_eq!(sub.size(), 16);
    assert_eq!(sub.position(), 0);

    let got = sub.read_at(0, 16).unwrap();
    assert_eq!(&got, &data[8..24]);

    // A read past the window is short, then empty.
    let tail = sub.read_at(12, 100).unwrap();
    assert_eq!(&tail, &data[20..24]);
    let empty = sub.read_at(16, 4).unwrap();
    assert!(empty.is_empty());

    // Sequential reads advance the position; a seek past the window fails.
    let first = sub.read(4).unwrap();
    assert_eq!(&first, &data[8..12]);
    assert_eq!(sub.position(), 4);
    assert!(sub.seek(16).is_ok());
    assert!(sub.seek(17).is_err());
    assert_eq!(sub.position(), 16);
}

#[test]
fn subfile_clipped_by_source_end() {
    let data: Vec<u8> = (0..10u8).collect();
    let src = VecSource::new(data.clone());
    let mut sub = SubFile::new(src, 4, 64);
    assert_eq!(sub.source_size(), 6);
    let got = sub.read_at(0, 64).unwrap();
    assert_eq!(&got, &data[4..10]);
}

#[test]
fn shared_reader_handles_share_bytes() {
    let data: Vec<u8> = (0..64u8).collect();
    let shared = SharedReader::new(data.clone());
    let mut a = shared.sub_file(0, 16);
    let mut b = shared.sub_file(16, 64);
    assert_eq!(a.read_at(0, 16).unwrap(), data[0..16].to_vec());
    assert_eq!(b.read_at(0, 48).unwrap(), data[16..64].to_vec());
    // handles observe the same bytes after further duplication
    let mut c = b.duplicate();
    assert_eq!(c.read_at(4, 4).unwrap(), data[20..24].to_vec());
}

#[test]
fn shared_reader_ctr_view() {
    let plaintext: Vec<u8> = (0..64u32).map(|i| i as u8).collect();
    let key = vec![0x77u8; 16];
    let iv = [0u8; 16];
    let mut cipher = ctr::Ctr128BE::<aes::Aes128>::new_from_slices(&key, &iv).unwrap();
    let mut encrypted = plaintext.clone();
    cipher.apply_keystream(&mut encrypted);
    let shared = SharedReader::new(encrypted);
    let mut reader = shared.aes_ctr_reader(0, 0, key);
    assert_eq!(reader.read_at(0, 64).unwrap(), plaintext);
}
