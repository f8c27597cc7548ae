use vstd::prelude::*;

use cipher::{BlockDecrypt, BlockDecryptMut, KeyInit, KeyIvInit, StreamCipher};

verus! {

/// The 16 bytes of `x` in big-endian order.
pub open spec fn be_bytes_u128(x: u128) -> Seq<u8> {
    Seq::new(16, |i: int| (x >> ((15 - i) * 8)) as u8)
}

/// Builds the tweak used for the console's XTS header encryption: the
/// sector index serialized big-endian, where standard XTS serializes it
/// little-endian.
pub fn get_nintendo_tweak(sector_index: u128) -> (r: [u8; 16])
    ensures
        r@ == be_bytes_u128(sector_index),
{
    let r: [u8; 16] = [
        (sector_index >> 120) as u8,
        (sector_index >> 112) as u8,
        (sector_index >> 104) as u8,
        (sector_index >> 96) as u8,
        (sector_index >> 88) as u8,
        (sector_index >> 80) as u8,
        (sector_index >> 72) as u8,
        (sector_index >> 64) as u8,
        (sector_index >> 56) as u8,
        (sector_index >> 48) as u8,
        (sector_index >> 40) as u8,
        (sector_index >> 32) as u8,
        (sector_index >> 24) as u8,
        (sector_index >> 16) as u8,
        (sector_index >> 8) as u8,
        sector_index as u8,
    ];
    proof {
        let s = be_bytes_u128(sector_index);
        assert(s[0] == (sector_index >> 120) as u8);
        assert(s[1] == (sector_index >> 112) as u8);
        assert(s[2] == (sector_index >> 104) as u8);
        assert(s[3] == (sector_index >> 96) as u8);
        assert(s[4] == (sector_index >> 88) as u8);
        assert(s[5] == (sector_index >> 80) as u8);
        assert(s[6] == (sector_index >> 72) as u8);
        assert(s[7] == (sector_index >> 64) as u8);
        assert(s[8] == (sector_index >> 56) as u8);
        assert(s[9] == (sector_index >> 48) as u8);
        assert(s[10] == (sector_index >> 40) as u8);
        assert(s[11] == (sector_index >> 32) as u8);
        assert(s[12] == (sector_index >> 24) as u8);
        assert(s[13] == (sector_index >> 16) as u8);
        assert(s[14] == (sector_index >> 8) as u8);
        assert(s[15] == (sector_index >> 0) as u8);
        assert(sector_index >> 0 == sector_index) by (bit_vector);
        assert(r@ =~= s);
    }
    r
}

/// What the AES-128 block cipher returns for one 16-byte block under a
/// 16-byte key, in the encrypting direction.
pub uninterp spec fn aes128_encrypt_block(key: Seq<u8>, block: Seq<u8>) -> Seq<u8>;

/// What the AES-128 block cipher returns for one 16-byte block under a
/// 16-byte key, in the decrypting direction.
pub uninterp spec fn aes128_decrypt_block(key: Seq<u8>, block: Seq<u8>) -> Seq<u8>;

/// Relies on aes::Aes128: decrypts one 16-byte block; the two directions
/// of the cipher invert each other, so a block that is the encryption
/// of some plaintext decrypts back to exactly that plaintext.
#[verifier::external_body]
pub(crate) fn aes128_decrypt_one(key: &[u8], block: &[u8]) -> (r: Vec<u8>)
    requires
        key@.len() == 16,
        block@.len() == 16,
    ensures
        r@ == aes128_decrypt_block(key@, block@),
        r@.len() == 16,
        aes128_encrypt_block(key@, r@) == block@,
        forall|p: Seq<u8>| aes128_encrypt_block(key@, p) == block@ ==> r@ == p,
{
    let c = aes::Aes128::new_from_slice(key).unwrap();
    let mut b = aes::Block::clone_from_slice(block);
    c.decrypt_block(&mut b);
    b.to_vec()
}

/// A whole buffer decrypted in electronic-codebook mode: each 16-byte
/// block decrypted independently.
pub open spec fn ecb_aes128_decrypt_spec(key: Seq<u8>, s: Seq<u8>) -> Seq<u8> {
    Seq::new(
        s.len(),
        |i: int| aes128_decrypt_block(key, s.subrange(16 * (i / 16), 16 * (i / 16) + 16))[i % 16],
    )
}

/// Relies on ecb::Decryptor over aes::Aes128, which decrypts each
/// 16-byte block of the buffer independently with the block cipher.
#[verifier::external_body]
pub(crate) fn ecb_aes128_decrypt(key: &[u8], data: &[u8]) -> (r: Vec<u8>)
    requires
        key@.len() == 16,
        data@.len() % 16 == 0,
    ensures
        r@ == ecb_aes128_decrypt_spec(key@, data@),
        r@.len() == data@.len(),
{
    let mut dec = ecb::Decryptor::<aes::Aes128>::new_from_slice(key).unwrap();
    let mut blocks: Vec<aes::Block> = data.chunks_exact(16).map(aes::Block::clone_from_slice).collect();
    dec.decrypt_blocks_mut(&mut blocks);
    blocks.into_iter().flatten().collect()
}

/// What the AES-128 counter-mode keystream holds for one 16-byte block:
/// the block cipher applied to the big-endian bytes of the whole
/// 128-bit counter.
pub open spec fn aes_ctr_block(key: Seq<u8>, counter: int) -> Seq<u8> {
    aes128_encrypt_block(key, be_bytes_u128(counter as u128))
}

/// Relies on ctr::Ctr128BE over aes::Aes128: XORs the buffer with the
/// keystream whose blocks are the cipher applied to the big-endian
/// counter, starting at `ctr_hi * 2^64 + block_index` and incremented
/// once per 16 bytes.
#[verifier::external_body]
pub(crate) fn ctr_apply_keystream(key: &[u8], ctr_hi: u64, block_index: u64, data: &mut Vec<u8>)
    requires
        key@.len() == 16,
        block_index + (old(data)@.len() + 15) / 16 <= u64::MAX,
    ensures
        final(data)@.len() == old(data)@.len(),
        forall|i: int|
            0 <= i < final(data)@.len() ==> final(data)@[i] == (old(data)@[i] ^ aes_ctr_block(
                key@,
                0x10000000000000000 * (ctr_hi as int) + block_index as int + i / 16,
            )[i % 16]),
{
    let iv: [u8; 16] = (((ctr_hi as u128) << 64) | (block_index as u128)).to_be_bytes();
    let mut cipher = ctr::Ctr128BE::<aes::Aes128>::new_from_slices(key, &iv).unwrap();
    cipher.apply_keystream(data.as_mut_slice());
}

/// What xts-mode's area encryption over aes::Aes128 returns under the
/// console's big-endian tweak, sector by sector.
pub uninterp spec fn xts128_nintendo_encrypt(
    key: Seq<u8>,
    sector_size: int,
    first_sector_index: u128,
    data: Seq<u8>,
) -> Seq<u8>;

/// What xts-mode's area decryption over aes::Aes128 returns under the
/// console's big-endian tweak, sector by sector.
pub uninterp spec fn xts128_nintendo_decrypt(
    key: Seq<u8>,
    sector_size: int,
    first_sector_index: u128,
    data: Seq<u8>,
) -> Seq<u8>;

/// Relies on xts_mode::Xts128::encrypt_area over aes::Aes128 with the
/// big-endian tweak: an in-place area encryption that decrypt_area
/// inverts, as the crate's own round-trip examples show.
#[verifier::external_body]
pub(crate) fn xts128_encrypt_area(
    key: &[u8],
    sector_size: usize,
    first_sector_index: u128,
    data: &mut Vec<u8>,
)
    requires
        key@.len() == 32,
        sector_size >= 16,
        old(data)@.len() as int % (sector_size as int) == 0,
        first_sector_index + old(data)@.len() as int / (sector_size as int) <= u128::MAX,
    ensures
        final(data)@ == xts128_nintendo_encrypt(key@, sector_size as int, first_sector_index, old(data)@),
        final(data)@.len() == old(data)@.len(),
        xts128_nintendo_decrypt(key@, sector_size as int, first_sector_index, final(data)@) == old(data)@,
{
    let c1 = aes::Aes128::new_from_slice(&key[..16]).unwrap();
    let c2 = aes::Aes128::new_from_slice(&key[16..32]).unwrap();
    let xts = xts_mode::Xts128::new(c1, c2);
    xts.encrypt_area(data.as_mut_slice(), sector_size, first_sector_index, get_nintendo_tweak);
}

/// Relies on xts_mode::Xts128::decrypt_area over aes::Aes128 with the
/// big-endian tweak: an in-place area decryption that encrypt_area
/// inverts, as the crate's own round-trip examples show.
#[verifier::external_body]
pub(crate) fn xts128_decrypt_area(
    key: &[u8],
    sector_size: usize,
    first_sector_index: u128,
    data: &mut Vec<u8>,
)
    requires
        key@.len() == 32,
        sector_size >= 16,
        old(data)@.len() as int % (sector_size as int) == 0,
        first_sector_index + old(data)@.len() as int / (sector_size as int) <= u128::MAX,
    ensures
        final(data)@ == xts128_nintendo_decrypt(key@, sector_size as int, first_sector_index, old(data)@),
        final(data)@.len() == old(data)@.len(),
        xts128_nintendo_encrypt(key@, sector_size as int, first_sector_index, final(data)@) == old(data)@,
{
    let c1 = aes::Aes128::new_from_slice(&key[..16]).unwrap();
    let c2 = aes::Aes128::new_from_slice(&key[16..32]).unwrap();
    let xts = xts_mode::Xts128::new(c1, c2);
    xts.decrypt_area(data.as_mut_slice(), sector_size, first_sector_index, get_nintendo_tweak);
}

} // verus!
