use vstd::prelude::*;

use crate::crypto::{aes_ctr_block, ctr_apply_keystream};
use crate::error::Error;

verus! {

/// The bytes that a read of `len` bytes at `off` returns from a source
/// holding `s`: the requested window, cut short at the end of the source,
/// and empty when `off` lies beyond it.
pub open spec fn read_range(s: Seq<u8>, off: int, len: int) -> Seq<u8> {
    if 0 <= off && off <= s.len() && 0 <= len {
        if off + len <= s.len() {
            s.subrange(off, off + len)
        } else {
            s.subrange(off, s.len() as int)
        }
    } else {
        Seq::<u8>::empty()
    }
}

/// A seekable byte source. Every handle observes one fixed sequence of
/// bytes; reads never change it, and duplicated handles observe the same
/// sequence, which is how several readers share one underlying source.
pub trait Source: Sized {
    /// The bytes the source holds.
    spec fn bytes(&self) -> Seq<u8>;

    /// The handle's well-formedness.
    spec fn wf(&self) -> bool;

    /// A well-formed source is addressable with 64-bit offsets.
    proof fn lemma_len_bound(&self)
        requires
            self.wf(),
        ensures
            self.bytes().len() <= u64::MAX,
    ;

    /// How many bytes the source holds.
    fn source_size(&self) -> (r: u64)
        requires
            self.wf(),
        ensures
            r == self.bytes().len(),
    ;

    /// Reads up to `len` bytes at offset `off`. A read past the end
    /// returns the short remainder, then nothing; a failure leaves the
    /// source's bytes as they were.
    fn read_at(&mut self, off: u64, len: usize) -> (r: Result<Vec<u8>, Error>)
        requires
            old(self).wf(),
        ensures
            final(self).wf(),
            final(self).bytes() == old(self).bytes(),
            match r {
                Ok(v) => v@ == read_range(old(self).bytes(), off as int, len as int),
                Err(e) => e == Error::Io,
            },
    ;

    /// A second handle onto the same bytes.
    fn duplicate(&self) -> (r: Self)
        requires
            self.wf(),
        ensures
            r.wf(),
            r.bytes() == self.bytes(),
    ;
}

/// An in-memory byte source.
pub struct VecSource {
    data: Vec<u8>,
}

impl VecSource {
    pub fn new(data: Vec<u8>) -> (r: VecSource)
        ensures
            r.wf(),
            r.bytes() == data@,
    {
        VecSource { data }
    }
}

impl Source for VecSource {
    closed spec fn bytes(&self) -> Seq<u8> {
        self.data@
    }

    closed spec fn wf(&self) -> bool {
        true
    }

    proof fn lemma_len_bound(&self) {
        broadcast use vstd::std_specs::vec::axiom_spec_len;

        assert(vstd::std_specs::vec::spec_vec_len(&self.data) == self.data@.len());
    }

    fn source_size(&self) -> (r: u64) {
        self.data.len() as u64
    }

    fn read_at(&mut self, off: u64, len: usize) -> (r: Result<Vec<u8>, Error>) {
        let n = self.data.len();
        if off > n as u64 {
            return Ok(Vec::new());
        }
        let start = off as usize;
        let end = if len <= n - start {
            start + len
        } else {
            n
        };
        Ok(crate::bytes::copy_range(&self.data, start, end))
    }

    fn duplicate(&self) -> (r: Self) {
        VecSource { data: self.data.clone() }
    }
}

/// A read-only view of the window `[start, end)` of another source.
/// Offsets inside the view map to `start + offset` in the source; reads
/// past the window return a short count, then nothing.
pub struct SubFile<S: Source> {
    reader: S,
    start: u64,
    end: u64,
    position: u64,
}

impl<S: Source> SubFile<S> {
    pub closed spec fn wf_sub(&self) -> bool {
        &&& self.reader.wf()
        &&& self.start <= self.end
        &&& self.position <= self.end - self.start
    }

    /// The window's bytes: the part of `[start, end)` that the
    /// underlying source actually holds.
    pub closed spec fn window(&self) -> Seq<u8> {
        read_range(self.reader.bytes(), self.start as int, self.end - self.start)
    }

    pub fn new(reader: S, start: u64, end: u64) -> (r: SubFile<S>)
        requires
            reader.wf(),
            start <= end,
        ensures
            r.wf(),
            r.bytes() == read_range(reader.bytes(), start as int, end - start),
            r.position_spec() == 0,
            r.start_spec() == start,
            r.end_spec() == end,
    {
        SubFile { reader, start, end, position: 0 }
    }

    pub closed spec fn position_spec(&self) -> u64 {
        self.position
    }

    /// The current sequential-read position, never past the window:
    /// every read and every successful seek keeps it at or below
    /// `end - start`.
    pub fn position(&self) -> (r: u64)
        requires
            self.wf(),
        ensures
            r == self.position_spec(),
            r <= self.end_spec() - self.start_spec(),
    {
        self.position
    }

    /// The size of the window as it was requested, `end - start`.
    pub fn size(&self) -> (r: u64)
        requires
            self.wf(),
        ensures
            r == self.end_spec() - self.start_spec(),
    {
        self.end - self.start
    }

    pub closed spec fn start_spec(&self) -> u64 {
        self.start
    }

    pub closed spec fn end_spec(&self) -> u64 {
        self.end
    }

    /// Moves the sequential-read position. A seek past the window fails
    /// with an invalid-argument error and moves nothing.
    pub fn seek(&mut self, pos: u64) -> (r: Result<u64, Error>)
        requires
            old(self).wf(),
        ensures
            final(self).wf(),
            final(self).bytes() == old(self).bytes(),
            final(self).start_spec() == old(self).start_spec(),
            final(self).end_spec() == old(self).end_spec(),
            match r {
                Ok(p) => p == pos && pos <= old(self).end_spec() - old(self).start_spec()
                    && final(self).position_spec() == pos,
                Err(e) => e == Error::InvalidArgument && pos > old(self).end_spec() - old(
                    self,
                ).start_spec() && final(self).position_spec() == old(self).position_spec(),
            },
    {
        if pos > self.end - self.start {
            return Err(Error::InvalidArgument);
        }
        self.position = pos;
        Ok(pos)
    }

    /// Reads up to `len` bytes at the current position and advances it by
    /// what was read.
    pub fn read(&mut self, len: usize) -> (r: Result<Vec<u8>, Error>)
        requires
            old(self).wf(),
        ensures
            final(self).wf(),
            final(self).bytes() == old(self).bytes(),
            match r {
                Ok(v) => {
                    &&& v@ == read_range(
                        old(self).bytes(),
                        old(self).position_spec() as int,
                        len as int,
                    )
                    &&& final(self).position_spec() == old(self).position_spec() + v@.len()
                },
                Err(e) => e == Error::Io,
            },
    {
        let pos = self.position;
        let r = self.read_at_window(pos, len);
        match r {
            Ok(v) => {
                proof {
                    self.lemma_len_bound();
                }
                let n = v.len() as u64;
                self.position = pos + n;
                Ok(v)
            },
            Err(e) => Err(e),
        }
    }

    /// Reads up to `len` bytes at offset `off` of the window, leaving
    /// the window and the sequential position unchanged.
    pub fn read_at_window(&mut self, off: u64, len: usize) -> (r: Result<Vec<u8>, Error>)
        requires
            old(self).wf(),
        ensures
            final(self).wf(),
            final(self).bytes() == old(self).bytes(),
            final(self).start_spec() == old(self).start_spec(),
            final(self).end_spec() == old(self).end_spec(),
            final(self).position_spec() == old(self).position_spec(),
            match r {
                Ok(v) => v@ == read_range(old(self).bytes(), off as int, len as int),
                Err(e) => e == Error::Io,
            },
    {
        let inner_len = self.reader.source_size();
        let wlen: u64 = if self.start >= inner_len {
            0
        } else if self.end > inner_len {
            inner_len - self.start
        } else {
            self.end - self.start
        };
        if off >= wlen {
            proof {
                assert(read_range(old(self).bytes(), off as int, len as int)
                    =~= Seq::<u8>::empty());
            }
            return Ok(Vec::new());
        }
        let n: u64 = if (len as u64) <= wlen - off {
            len as u64
        } else {
            wlen - off
        };
        let abs = self.start + off;
        match self.reader.read_at(abs, n as usize) {
            Ok(v) => {
                proof {
                    assert(v@ =~= read_range(old(self).bytes(), off as int, len as int));
                }
                Ok(v)
            },
            Err(e) => Err(e),
        }
    }
}

impl<S: Source> Source for SubFile<S> {
    closed spec fn bytes(&self) -> Seq<u8> {
        self.window()
    }

    closed spec fn wf(&self) -> bool {
        self.wf_sub()
    }

    proof fn lemma_len_bound(&self) {
        self.reader.lemma_len_bound();
    }

    fn source_size(&self) -> (r: u64) {
        let inner_len = self.reader.source_size();
        if self.start >= inner_len {
            0
        } else if self.end > inner_len {
            inner_len - self.start
        } else {
            self.end - self.start
        }
    }

    fn read_at(&mut self, off: u64, len: usize) -> (r: Result<Vec<u8>, Error>) {
        self.read_at_window(off, len)
    }

    fn duplicate(&self) -> (r: Self) {
        SubFile {
            reader: self.reader.duplicate(),
            start: self.start,
            end: self.end,
            position: self.position,
        }
    }
}

/// The byte of the AES-CTR keystream that covers absolute source offset
/// `abs`, under the section's upper counter word `ctr_hi`: the block's
/// 128-bit big-endian counter is `ctr_hi * 2^64` plus the offset's
/// 16-byte block number.
pub open spec fn ctr_keystream_byte(key: Seq<u8>, ctr_hi: u64, abs: int) -> u8 {
    aes_ctr_block(key, 0x10000000000000000 * (ctr_hi as int) + abs / 16)[abs % 16]
}

/// The plaintext that an AES-128-CTR view over `src` holds when its
/// window starts at `base`: each source byte from `base` on, combined
/// with the keystream byte addressed by its absolute source offset.
pub open spec fn ctr_stream_view(src: Seq<u8>, base: int, key: Seq<u8>, ctr_hi: u64) -> Seq<u8> {
    Seq::new(
        (src.len() - base) as nat,
        |i: int| (src[base + i] ^ ctr_keystream_byte(key, ctr_hi, base + i)),
    )
}

/// An AES-128-CTR decrypting view of another source. The source holds
/// ciphertext from `base_offset` on; this view holds the corresponding
/// plaintext, each byte decrypted with the keystream block addressed by
/// its absolute source offset, whatever alignment a read has.
pub struct Aes128CtrReader<S: Source> {
    reader: S,
    base_offset: u64,
    ctr: u64,
    key: Vec<u8>,
}

impl<S: Source> Aes128CtrReader<S> {
    pub closed spec fn wf_ctr(&self) -> bool {
        &&& self.reader.wf()
        &&& self.key_spec().len() == 16
        &&& self.base_spec() <= self.reader.bytes().len()
    }

    pub closed spec fn base_spec(&self) -> u64 {
        self.base_offset
    }

    pub closed spec fn ctr_spec(&self) -> u64 {
        self.ctr
    }

    pub closed spec fn key_spec(&self) -> Seq<u8> {
        self.key@
    }

    /// The decrypted stream: byte `i` is the source byte at
    /// `base_offset + i`, combined with the keystream byte for that
    /// absolute offset.
    pub closed spec fn plain(&self) -> Seq<u8> {
        Seq::new(
            (self.reader.bytes().len() - self.base_spec()) as nat,
            |i: int|
                (self.reader.bytes()[self.base_spec() + i] ^ ctr_keystream_byte(
                    self.key_spec(),
                    self.ctr_spec(),
                    self.base_spec() + i,
                )),
        )
    }

    pub fn new(reader: S, base_offset: u64, ctr: u64, key: Vec<u8>) -> (r: Aes128CtrReader<S>)
        requires
            reader.wf(),
            key@.len() == 16,
            base_offset <= reader.bytes().len(),
        ensures
            r.wf(),
            r.bytes() == ctr_stream_view(reader.bytes(), base_offset as int, key@, ctr),
    {
        let r = Aes128CtrReader { reader, base_offset, ctr, key };
        proof {
            assert(r.bytes() =~= ctr_stream_view(reader.bytes(), base_offset as int, key@, ctr));
        }
        r
    }
}

impl<S: Source> Source for Aes128CtrReader<S> {
    closed spec fn bytes(&self) -> Seq<u8> {
        self.plain()
    }

    closed spec fn wf(&self) -> bool {
        self.wf_ctr()
    }

    proof fn lemma_len_bound(&self) {
        self.reader.lemma_len_bound();
    }

    fn source_size(&self) -> (r: u64) {
        proof {
            self.reader.lemma_len_bound();
        }
        let inner_len = self.reader.source_size();
        inner_len - self.base_offset
    }

    fn read_at(&mut self, off: u64, len: usize) -> (r: Result<Vec<u8>, Error>) {
        proof {
            self.reader.lemma_len_bound();
        }
        let inner_len = self.reader.source_size();
        let slen = inner_len - self.base_offset;
        if off >= slen {
            proof {
                assert(read_range(old(self).bytes(), off as int, len as int)
                    =~= Seq::<u8>::empty());
            }
            return Ok(Vec::new());
        }
        let n: u64 = if (len as u64) <= slen - off {
            len as u64
        } else {
            slen - off
        };
        let abs = self.base_offset + off;
        let aligned = crate::align_down(abs, 16);
        let wanted = abs + n;
        let rem = wanted % 16;
        let aligned_end: u64 = if rem == 0 {
            wanted
        } else if inner_len - wanted < 16 - rem {
            inner_len
        } else {
            wanted + (16 - rem)
        };
        let diff = abs - aligned;
        let wsize = aligned_end - aligned;
        if wsize > usize::MAX as u64 {
            return Err(Error::Io);
        }
        let ghost inner = self.reader.bytes();
        proof {
            assert(aligned <= abs < inner.len());
            assert(abs + n <= aligned_end <= inner.len());
        }
        match self.reader.read_at(aligned, wsize as usize) {
            Ok(mut buf) => {
                proof {
                    assert(buf@ =~= inner.subrange(aligned as int, aligned_end as int));
                    assert(buf@.len() == aligned_end - aligned);
                    vstd::arithmetic::div_mod::lemma_div_is_ordered(
                        aligned as int,
                        u64::MAX as int,
                        16,
                    );
                    vstd::arithmetic::div_mod::lemma_div_is_ordered(
                        buf@.len() as int + 15,
                        u64::MAX as int + 15,
                        16,
                    );
                }
                ctr_apply_keystream(self.key.as_slice(), self.ctr, aligned / 16, &mut buf);
                let out = crate::bytes::copy_range(&buf, diff as usize, (diff + n) as usize);
                proof {
                    lemma_ctr_read_correct(
                        old(self).reader.bytes(),
                        self.key@,
                        self.ctr,
                        self.base_offset as int,
                        aligned as int,
                        abs as int,
                        n as int,
                        buf@,
                        out@,
                    );
                    assert(out@ =~= read_range(old(self).bytes(), off as int, len as int));
                }
                Ok(out)
            },
            Err(e) => Err(e),
        }
    }

    fn duplicate(&self) -> (r: Self) {
        Aes128CtrReader {
            reader: self.reader.duplicate(),
            base_offset: self.base_offset,
            ctr: self.ctr,
            key: self.key.clone(),
        }
    }
}

/// After the aligned window `buf` is combined with the keystream that
/// starts at its own block, the slice cut back out of it holds exactly
/// the decrypted stream bytes for `[abs, abs + n)`.
proof fn lemma_ctr_read_correct(
    inner: Seq<u8>,
    key: Seq<u8>,
    ctr_hi: u64,
    base: int,
    aligned: int,
    abs: int,
    n: int,
    buf: Seq<u8>,
    out: Seq<u8>,
)
    requires
        0 <= base <= abs,
        aligned == 16 * (abs / 16),
        abs + n <= inner.len(),
        n >= 0,
        aligned <= abs,
        buf.len() >= (abs - aligned) + n,
        aligned + buf.len() <= inner.len(),
        forall|j: int|
            0 <= j < buf.len() ==> buf[j] == (inner[aligned + j] ^ aes_ctr_block(
                key,
                0x10000000000000000 * (ctr_hi as int) + (aligned / 16) + j / 16,
            )[j % 16]),
        out == buf.subrange(abs - aligned, abs - aligned + n),
    ensures
        out.len() == n,
        forall|i: int|
            0 <= i < n ==> out[i] == (inner[abs + i] ^ ctr_keystream_byte(key, ctr_hi, abs + i)),
{
    assert forall|i: int| 0 <= i < n implies out[i] == (inner[abs + i] ^ ctr_keystream_byte(
        key,
        ctr_hi,
        abs + i,
    )) by {
        let j = abs - aligned + i;
        assert(out[i] == buf[j]);
        lemma_block_split(aligned, abs - aligned + i);
        assert(aligned + j == abs + i);
    }
}

/// Splitting an offset at a 16-byte block boundary splits its block
/// number and leaves its in-block position.
proof fn lemma_block_split(aligned: int, j: int)
    requires
        aligned % 16 == 0,
        aligned >= 0,
        j >= 0,
    ensures
        (aligned / 16) + j / 16 == (aligned + j) / 16,
        j % 16 == (aligned + j) % 16,
{
    vstd::arithmetic::div_mod::lemma_fundamental_div_mod(aligned, 16);
    vstd::arithmetic::div_mod::lemma_fundamental_div_mod(j, 16);
    vstd::arithmetic::div_mod::lemma_mod_division_less_than_divisor(j, 16);
    let q = aligned / 16 + j / 16;
    let r = j % 16;
    assert(aligned + j == 16 * q + r) by (nonlinear_arith)
        requires
            aligned == 16 * (aligned / 16),
            j == 16 * (j / 16) + j % 16,
            q == aligned / 16 + j / 16,
            r == j % 16,
    ;
    vstd::arithmetic::div_mod::lemma_fundamental_div_mod_converse_div(aligned + j, 16, q, r);
    vstd::arithmetic::div_mod::lemma_fundamental_div_mod_converse_mod(aligned + j, 16, q, r);
}


/// Counter-mode decryption inverts counter-mode encryption. When the
/// source's bytes from `base` on are the keystream-combined form of
/// `plain` -- the ciphertext that AES-128-CTR produces for it with the
/// same key, upper counter word and base offset -- the decrypting view
/// holds `plain` itself, and a read of any window of it, aligned or
/// not, returns exactly that window of `plain`.
pub proof fn lemma_ctr_round_trip(
    key: Seq<u8>,
    ctr_hi: u64,
    base: int,
    src: Seq<u8>,
    plain: Seq<u8>,
    pos: int,
    n: int,
)
    requires
        0 <= base,
        base + plain.len() == src.len(),
        forall|i: int|
            0 <= i < plain.len() ==> src[base + i] == (plain[i] ^ ctr_keystream_byte(
                key,
                ctr_hi,
                base + i,
            )),
        0 <= pos,
        0 <= n,
        pos + n <= plain.len(),
    ensures
        ctr_stream_view(src, base, key, ctr_hi) == plain,
        read_range(ctr_stream_view(src, base, key, ctr_hi), pos, n) == plain.subrange(
            pos,
            pos + n,
        ),
{
    assert forall|i: int| 0 <= i < plain.len() implies ctr_stream_view(src, base, key, ctr_hi)[i]
        == plain[i] by {
        let k = ctr_keystream_byte(key, ctr_hi, base + i);
        let p = plain[i];
        assert(((p ^ k) ^ k) == p) by (bit_vector);
    }
    assert(ctr_stream_view(src, base, key, ctr_hi) =~= plain);
    assert(read_range(ctr_stream_view(src, base, key, ctr_hi), pos, n) =~= plain.subrange(
        pos,
        pos + n,
    ));
}


/// Relies on Rc::clone from std: a second handle to the same shared
/// allocation, observing the same value; no bytes are copied.
#[verifier::external_body]
fn rc_share(v: &std::rc::Rc<Vec<u8>>) -> (r: std::rc::Rc<Vec<u8>>)
    ensures
        r@ == v@,
{
    std::rc::Rc::clone(v)
}

/// Relies on Rc's deref from std: a handle reads the shared value
/// itself.
#[verifier::external_body]
fn rc_as_vec<'a>(v: &'a std::rc::Rc<Vec<u8>>) -> (r: &'a Vec<u8>)
    ensures
        r@ == v@,
{
    &**v
}

/// An in-memory byte source whose handles share one allocation:
/// duplicating a handle copies no bytes, and every handle observes the
/// same sequence.
pub struct SharedReader {
    data: std::rc::Rc<Vec<u8>>,
}

impl SharedReader {
    pub fn new(data: Vec<u8>) -> (r: SharedReader)
        ensures
            r.wf(),
            r.bytes() == data@,
    {
        SharedReader { data: std::rc::Rc::new(data) }
    }

    /// A bounded window over the shared bytes, as a source of its own.
    pub fn sub_file(&self, start: u64, end: u64) -> (r: SubFile<SharedReader>)
        requires
            self.wf(),
            start <= end,
        ensures
            r.wf(),
            r.bytes() == read_range(self.bytes(), start as int, end - start),
    {
        SubFile::new(self.duplicate(), start, end)
    }

    /// A counter-mode decrypting view over the shared bytes from
    /// `base_offset` on.
    pub fn aes_ctr_reader(&self, base_offset: u64, ctr: u64, key: Vec<u8>) -> (r: Aes128CtrReader<
        SharedReader,
    >)
        requires
            self.wf(),
            key@.len() == 16,
            base_offset <= self.bytes().len(),
        ensures
            r.wf(),
            r.bytes() == ctr_stream_view(self.bytes(), base_offset as int, key@, ctr),
    {
        Aes128CtrReader::new(self.duplicate(), base_offset, ctr, key)
    }
}

impl Source for SharedReader {
    closed spec fn bytes(&self) -> Seq<u8> {
        self.data@
    }

    closed spec fn wf(&self) -> bool {
        true
    }

    proof fn lemma_len_bound(&self) {
        broadcast use vstd::std_specs::vec::axiom_spec_len;

        assert(vstd::std_specs::vec::spec_vec_len(&*self.data) == self.data@.len());
    }

    fn source_size(&self) -> (r: u64) {
        rc_as_vec(&self.data).len() as u64
    }

    fn read_at(&mut self, off: u64, len: usize) -> (r: Result<Vec<u8>, Error>) {
        let data = rc_as_vec(&self.data);
        let n = data.len();
        if off > n as u64 {
            return Ok(Vec::new());
        }
        let start = off as usize;
        let end = if len <= n - start {
            start + len
        } else {
            n
        };
        Ok(crate::bytes::copy_range(data, start, end))
    }

    fn duplicate(&self) -> (r: Self) {
        SharedReader { data: rc_share(&self.data) }
    }
}

} // verus!
