use vstd::prelude::*;

use crate::bytes::le_val;
use crate::bytes::read_le;
use crate::error::Error;

verus! {

/// The size of the header region that compressed archives keep
/// verbatim.
pub open spec fn uncompressable_header_size() -> int {
    0x4000
}

/// The eight bytes of `x`, least significant first.
pub open spec fn u64_le_bytes(x: u64) -> Seq<u8> {
    Seq::new(8, |i: int| (x >> ((8 * i) as u64)) as u8)
}

/// The four bytes of `x`, least significant first.
pub open spec fn u32_le_bytes(x: u32) -> Seq<u8> {
    Seq::new(4, |i: int| (x >> ((8 * i) as u32)) as u8)
}

/// Appends the eight little-endian bytes of `x`.
pub fn push_le_u64(out: &mut Vec<u8>, x: u64)
    ensures
        final(out)@ == old(out)@ + u64_le_bytes(x),
{
    out.push(x as u8);
    out.push((x >> 8) as u8);
    out.push((x >> 16) as u8);
    out.push((x >> 24) as u8);
    out.push((x >> 32) as u8);
    out.push((x >> 40) as u8);
    out.push((x >> 48) as u8);
    out.push((x >> 56) as u8);
    proof {
        let b = u64_le_bytes(x);
        assert(b[0] == ((x >> 0) as u8));
        assert(b[1] == ((x >> 8) as u8));
        assert(b[2] == ((x >> 16) as u8));
        assert(b[3] == ((x >> 24) as u8));
        assert(b[4] == ((x >> 32) as u8));
        assert(b[5] == ((x >> 40) as u8));
        assert(b[6] == ((x >> 48) as u8));
        assert(b[7] == ((x >> 56) as u8));
        assert(x >> 0 == x) by (bit_vector);
        assert(out@ =~= old(out)@ + b);
    }
}

/// Appends the four little-endian bytes of `x`.
pub fn push_le_u32(out: &mut Vec<u8>, x: u32)
    ensures
        final(out)@ == old(out)@ + u32_le_bytes(x),
{
    out.push(x as u8);
    out.push((x >> 8) as u8);
    out.push((x >> 16) as u8);
    out.push((x >> 24) as u8);
    proof {
        let b = u32_le_bytes(x);
        assert(b[0] == ((x >> 0) as u8));
        assert(b[1] == ((x >> 8) as u8));
        assert(b[2] == ((x >> 16) as u8));
        assert(b[3] == ((x >> 24) as u8));
        assert(x >> 0 == x) by (bit_vector);
        assert(out@ =~= old(out)@ + b);
    }
}

/// One section record of a compressed archive: a region of the
/// original bytes together with how it was encrypted.
pub struct Section {
    pub offset: u64,
    pub size: u64,
    pub crypto_type: u64,
    pub crypto_key: Vec<u8>,
    pub crypto_counter: Vec<u8>,
}

/// The 0x38-byte serialization of a section record: offset, size and
/// crypto kind, eight bytes of padding, then the key and counter.
pub open spec fn section_bytes(s: &Section) -> Seq<u8> {
    u64_le_bytes(s.offset) + u64_le_bytes(s.size) + u64_le_bytes(s.crypto_type) + Seq::new(
        8,
        |i: int| 0u8,
    ) + s.crypto_key@ + s.crypto_counter@
}

impl Section {
    /// Appends the record's serialization.
    pub fn write(&self, out: &mut Vec<u8>)
        ensures
            final(out)@ == old(out)@ + section_bytes(self),
    {
        push_le_u64(out, self.offset);
        push_le_u64(out, self.size);
        push_le_u64(out, self.crypto_type);
        let mut i: usize = 0;
        let ghost mid = out@;
        while i < 8
            invariant
                i <= 8,
                out@ == mid + Seq::new(i as nat, |j: int| 0u8),
            decreases 8 - i,
        {
            out.push(0);
            proof {
                assert(mid + Seq::new(i as nat, |j: int| 0u8) + seq![0u8] =~= mid + Seq::new(
                    (i + 1) as nat,
                    |j: int| 0u8,
                ));
            }
            i = i + 1;
        }
        crate::bytes::extend_from(out, self.crypto_key.as_slice());
        crate::bytes::extend_from(out, self.crypto_counter.as_slice());
        proof {
            assert(out@ =~= old(out)@ + section_bytes(self));
        }
    }
}

/// The section table that heads a compressed archive.
pub struct NczHeader {
    pub sections: Vec<Section>,
}

impl NczHeader {
    /// Appends the table: the magic `NCZSECTN`, the record count, and
    /// each record in order.
    pub fn write(&self, out: &mut Vec<u8>)
        ensures
            final(out)@.len() >= old(out)@.len() as int + 16,
            final(out)@.subrange(old(out)@.len() as int, old(out)@.len() as int + 8) == magic_sectn(),
            final(out)@.subrange(old(out)@.len() as int + 8, old(out)@.len() as int + 16) == u64_le_bytes(
                self.sections@.len() as u64,
            ),
    {
        let ghost base = out@;
        crate::bytes::extend_from(out, &[0x4E, 0x43, 0x5A, 0x53, 0x45, 0x43, 0x54, 0x4E]);
        proof {
            reveal_with_fuel(crate::bytes::pow256, 9);
        }
        push_le_u64(out, self.sections.len() as u64);
        let ghost head = out@;
        let n = self.sections.len();
        let mut i: usize = 0;
        while i < n
            invariant
                i <= n,
                n == self.sections@.len(),
                out@.len() >= head.len(),
                out@.subrange(0, head.len() as int) == head,
            decreases n - i,
        {
            let ghost before = out@;
            self.sections[i].write(out);
            proof {
                assert(out@.subrange(0, head.len() as int) =~= before.subrange(
                    0,
                    head.len() as int,
                ));
            }
            i = i + 1;
        }
        proof {
            assert(head.subrange(base.len() as int, base.len() as int + 8) =~= magic_sectn());
            assert(head.subrange(base.len() as int + 8, base.len() as int + 16) =~= u64_le_bytes(
                self.sections@.len() as u64,
            ));
            assert(out@.subrange(base.len() as int, base.len() as int + 8) =~= head.subrange(
                base.len() as int,
                base.len() as int + 8,
            ));
            assert(out@.subrange(base.len() as int + 8, base.len() as int + 16) =~= head.subrange(
                base.len() as int + 8,
                base.len() as int + 16,
            ));
        }
    }
}

/// The section-table magic `NCZSECTN`.
pub open spec fn magic_sectn() -> Seq<u8> {
    seq![0x4Eu8, 0x43, 0x5A, 0x53, 0x45, 0x43, 0x54, 0x4E]
}

/// The block-table magic `NCZBLOCK`.
pub open spec fn magic_block() -> Seq<u8> {
    seq![0x4Eu8, 0x43, 0x5A, 0x42, 0x4C, 0x4F, 0x43, 0x4B]
}

/// The block table of a block-compressed archive.
pub struct BlockHeader {
    pub version: u8,
    pub block_type: u8,
    pub block_size_exponent: u8,
    pub block_sizes: Vec<u32>,
    pub decompressed_size: u64,
}

impl BlockHeader {
    /// A fresh block table for blocks of `block_size` bytes, which
    /// must be a power of two; the exponent stored is its base-two
    /// logarithm.
    pub fn new(block_size: usize, decompressed_size: u64) -> (r: BlockHeader)
        requires
            block_size > 0,
            (block_size & ((block_size - 1) as usize)) == 0,
        ensures
            r.version == 2,
            r.block_type == 1,
            vstd::arithmetic::power2::pow2(r.block_size_exponent as nat) == block_size,
            r.block_sizes@.len() == 0,
            r.decompressed_size == decompressed_size,
    {
        let mut b = block_size;
        let mut e: u8 = 0;
        proof {
            vstd::arithmetic::power2::lemma2_to64();
        }
        while b > 1
            invariant
                b > 0,
                (b & ((b - 1) as usize)) == 0,
                e <= 64,
                vstd::arithmetic::power2::pow2(e as nat) * b == block_size,
                b <= block_size,
            decreases b,
        {
            proof {
                let bb = b;
                assert((bb & ((bb - 1) as usize)) == 0 && bb > 1 ==> bb % 2 == 0 && ((bb / 2) & (((
                bb / 2) - 1) as usize)) == 0 && bb / 2 > 0) by (bit_vector);
                vstd::arithmetic::power2::lemma_pow2_unfold((e + 1) as nat);
                assert(vstd::arithmetic::power2::pow2((e + 1) as nat) * (b / 2)
                    == vstd::arithmetic::power2::pow2(e as nat) * b) by (nonlinear_arith)
                    requires
                        b % 2 == 0,
                        vstd::arithmetic::power2::pow2((e + 1) as nat) == 2
                            * vstd::arithmetic::power2::pow2(e as nat),
                ;
                assert(e < 64) by {
                    if e >= 64 {
                        vstd::arithmetic::power2::lemma_pow2_strictly_increases(64, e as nat + 1);
                        vstd::arithmetic::power2::lemma2_to64();
                        assert(vstd::arithmetic::power2::pow2(e as nat) >= 0x10000000000000000)
                            by {
                            if e as nat > 64 {
                                vstd::arithmetic::power2::lemma_pow2_strictly_increases(
                                    64,
                                    e as nat,
                                );
                            }
                        }
                        assert(vstd::arithmetic::power2::pow2(e as nat) * b
                            >= vstd::arithmetic::power2::pow2(e as nat)) by (nonlinear_arith)
                            requires
                                b > 0,
                                vstd::arithmetic::power2::pow2(e as nat) > 0,
                        ;
                        assert(block_size <= usize::MAX < 0x10000000000000000 || block_size
                            <= usize::MAX);
                        assert(false);
                    }
                }
            }
            b = b / 2;
            e = e + 1;
        }
        proof {
            assert(vstd::arithmetic::power2::pow2(e as nat) * 1
                == vstd::arithmetic::power2::pow2(e as nat));
        }
        BlockHeader {
            version: 2,
            block_type: 1,
            block_size_exponent: e,
            block_sizes: Vec::new(),
            decompressed_size,
        }
    }

    /// Appends the table: the magic `NCZBLOCK`, the fixed fields, the
    /// block count and the size of each block.
    pub fn write(&self, out: &mut Vec<u8>)
        ensures
            final(out)@.len() == old(out)@.len() + 24 + 4 * self.block_sizes@.len(),
            final(out)@.subrange(old(out)@.len() as int, old(out)@.len() as int + 8) == magic_block(),
    {
        let ghost base = out@;
        crate::bytes::extend_from(out, &[0x4E, 0x43, 0x5A, 0x42, 0x4C, 0x4F, 0x43, 0x4B]);
        out.push(self.version);
        out.push(self.block_type);
        out.push(0);
        out.push(self.block_size_exponent);
        push_le_u32(out, self.block_sizes.len() as u32);
        push_le_u64(out, self.decompressed_size);
        let ghost head = out@;
        let n = self.block_sizes.len();
        let mut i: usize = 0;
        while i < n
            invariant
                i <= n,
                n == self.block_sizes@.len(),
                out@.len() == head.len() + 4 * i,
                out@.subrange(0, head.len() as int) == head,
            decreases n - i,
        {
            let ghost before = out@;
            push_le_u32(out, self.block_sizes[i]);
            proof {
                assert(out@.subrange(0, head.len() as int) =~= before.subrange(
                    0,
                    head.len() as int,
                ));
            }
            i = i + 1;
        }
        proof {
            assert(head.subrange(base.len() as int, base.len() as int + 8) =~= magic_block());
            assert(out@.subrange(base.len() as int, base.len() as int + 8) =~= head.subrange(
                base.len() as int,
                base.len() as int + 8,
            ));
        }
    }
}

/// One entry of the archive's section table as the main header stores
/// it, with its bounds both in media units and in bytes.
pub struct SectionTableEntry {
    pub media_offset: u32,
    pub media_end_offset: u32,
    pub offset: u64,
    pub end_offset: u64,
}

impl SectionTableEntry {
    /// Reads an entry from four little-endian words at `off`: the two
    /// media-unit bounds, then two ignored words. The byte bounds are
    /// the media bounds times the 0x200-byte unit.
    pub fn new(data: &Vec<u8>, off: usize) -> (r: Result<SectionTableEntry, Error>)
        ensures
            match r {
                Ok(e) => {
                    &&& off + 16 <= data@.len()
                    &&& e.media_offset == le_val(data@, off as int, 4)
                    &&& e.media_end_offset == le_val(data@, off + 4, 4)
                    &&& e.offset == 0x200 * (e.media_offset as int)
                    &&& e.end_offset == 0x200 * (e.media_end_offset as int)
                },
                Err(e) => e == Error::BinaryParser && off + 16 > data@.len(),
            },
    {
        if data.len() < 16 || off > data.len() - 16 {
            return Err(Error::BinaryParser);
        }
        proof {
            reveal_with_fuel(crate::bytes::pow256, 5);
            crate::bytes::lemma_le_val_bound(data@, off as int, 4);
            crate::bytes::lemma_le_val_bound(data@, off + 4, 4);
        }
        let media_offset = read_le(data, off, 4) as u32;
        let media_end_offset = read_le(data, off + 4, 4) as u32;
        Ok(
            SectionTableEntry {
                media_offset,
                media_end_offset,
                offset: 0x200u64 * (media_offset as u64),
                end_offset: 0x200u64 * (media_end_offset as u64),
            },
        )
    }
}

/// The counter block for a section that begins at `offset`: the
/// offset's 16-byte block number, big-endian in the low eight bytes.
pub open spec fn counter_for_offset(offset: u64) -> Seq<u8> {
    Seq::new(
        16,
        |i: int|
            if i < 8 {
                0u8
            } else {
                ((offset >> 4) >> (((15 - i) * 8) as u64)) as u8
            },
    )
}

/// The counter block for the section that begins at `offset`.
pub fn generate_counter_from_section(offset: u64) -> (r: Vec<u8>)
    ensures
        r@ == counter_for_offset(offset),
{
    let sector = offset >> 4;
    let mut r: Vec<u8> = Vec::new();
    let mut i: usize = 0;
    while i < 8
        invariant
            i <= 8,
            r@.len() == i,
            forall|j: int| 0 <= j < i ==> r@[j] == 0u8,
        decreases 8 - i,
    {
        r.push(0);
        i = i + 1;
    }
    r.push((sector >> 56) as u8);
    r.push((sector >> 48) as u8);
    r.push((sector >> 40) as u8);
    r.push((sector >> 32) as u8);
    r.push((sector >> 24) as u8);
    r.push((sector >> 16) as u8);
    r.push((sector >> 8) as u8);
    r.push(sector as u8);
    proof {
        let c = counter_for_offset(offset);
        assert(c[8] == ((offset >> 4) >> 56) as u8);
        assert(c[9] == ((offset >> 4) >> 48) as u8);
        assert(c[10] == ((offset >> 4) >> 40) as u8);
        assert(c[11] == ((offset >> 4) >> 32) as u8);
        assert(c[12] == ((offset >> 4) >> 24) as u8);
        assert(c[13] == ((offset >> 4) >> 16) as u8);
        assert(c[14] == ((offset >> 4) >> 8) as u8);
        assert(c[15] == ((offset >> 4) >> 0) as u8);
        assert(sector >> 0 == sector) by (bit_vector);
        assert(r@ =~= c);
    }
    r
}

/// The counter block for a plain region that begins at `offset`; the
/// formula is the section one's.
pub fn generate_counter_from_offset(offset: u64) -> (r: Vec<u8>)
    ensures
        r@ == counter_for_offset(offset),
{
    generate_counter_from_section(offset)
}

} // verus!
