use vstd::prelude::*;
use vstd::string::StringSliceAdditionalSpecFns;

use crate::bytes::le_val;
use crate::bytes::read_le;
use crate::error::Error;
use crate::formats::keyset::clone_bytes;
use crate::io::{read_range, Source, SubFile};

verus! {

/// The sentinel offset that ends a hash chain or sibling chain.
pub open spec fn romfs_invalid_entry() -> u32 {
    0xFFFFFFFF
}

/// One step of the name hash: rotate right by five, then fold a byte in.
pub open spec fn rr5(h: u32) -> u32 {
    (h >> 5) | (h << 27)
}

/// The hash accumulator after folding in the bytes of `name` from `i` on.
pub open spec fn romfs_hash_acc(h: u32, name: Seq<u8>, i: int) -> u32
    decreases name.len() - i,
{
    if i < 0 || i >= name.len() {
        h
    } else {
        romfs_hash_acc(rr5(h) ^ (name[i] as u32), name, i + 1)
    }
}

/// The hash-table slot for a name under a parent directory: the parent
/// offset seeded with 123456789, each name byte folded in, reduced by
/// the table's length.
pub open spec fn romfs_name_hash(parent: u32, name: Seq<u8>, table_len: int) -> int {
    (romfs_hash_acc(parent ^ 123456789u32, name, 0) as int) % table_len
}

/// The header of a read-only filesystem image.
#[derive(Debug, Clone)]
pub struct RomFsHeader {
    pub header_size: u32,
    pub dir_hash_table_offset: u64,
    pub dir_hash_table_size: u32,
    pub dir_table_offset: u64,
    pub dir_table_size: u32,
    pub file_hash_table_offset: u64,
    pub file_hash_table_size: u32,
    pub file_table_offset: u64,
    pub file_table_size: u32,
    pub file_data_offset: u64,
}

/// One directory record of the directory table.
#[derive(Debug, Clone)]
pub struct DirectoryEntry {
    pub parent_offset: u32,
    pub sibling_offset: u32,
    pub child_dir_offset: u32,
    pub child_file_offset: u32,
    pub hash_sibling_offset: u32,
    pub name_size: u32,
    pub name: Vec<u8>,
}

/// One file record of the file table.
#[derive(Debug, Clone)]
pub struct FileEntry {
    pub parent_offset: u32,
    pub sibling_offset: u32,
    pub data_offset: u64,
    pub data_size: u64,
    pub hash_sibling_offset: u32,
    pub name_size: u32,
    pub name: Vec<u8>,
}

impl FileEntry {
    /// A copy of the entry.
    pub fn duplicate(&self) -> (r: FileEntry)
        ensures
            r.parent_offset == self.parent_offset,
            r.sibling_offset == self.sibling_offset,
            r.data_offset == self.data_offset,
            r.data_size == self.data_size,
            r.hash_sibling_offset == self.hash_sibling_offset,
            r.name_size == self.name_size,
            r.name@ == self.name@,
    {
        FileEntry {
            parent_offset: self.parent_offset,
            sibling_offset: self.sibling_offset,
            data_offset: self.data_offset,
            data_size: self.data_size,
            hash_sibling_offset: self.hash_sibling_offset,
            name_size: self.name_size,
            name: clone_bytes(&self.name),
        }
    }
}

/// True when `e` is the directory record that image `s` holds at
/// `off` in the directory table based at `table`.
pub open spec fn dir_entry_matches(s: Seq<u8>, table: int, off: int, e: DirectoryEntry) -> bool {
    &&& table + off + 0x18 + e.name_size <= s.len()
    &&& e.parent_offset == le_val(s, table + off, 4)
    &&& e.sibling_offset == le_val(s, table + off + 4, 4)
    &&& e.child_dir_offset == le_val(s, table + off + 8, 4)
    &&& e.child_file_offset == le_val(s, table + off + 12, 4)
    &&& e.hash_sibling_offset == le_val(s, table + off + 16, 4)
    &&& e.name_size == le_val(s, table + off + 20, 4)
    &&& e.name@ == s.subrange(table + off + 0x18, table + off + 0x18 + e.name_size)
}

/// True when `e` is the file record that image `s` holds at `off` in
/// the file table based at `table`.
pub open spec fn file_entry_matches(s: Seq<u8>, table: int, off: int, e: FileEntry) -> bool {
    &&& table + off + 0x20 + e.name_size <= s.len()
    &&& e.parent_offset == le_val(s, table + off, 4)
    &&& e.sibling_offset == le_val(s, table + off + 4, 4)
    &&& e.data_offset == le_val(s, table + off + 8, 8)
    &&& e.data_size == le_val(s, table + off + 16, 8)
    &&& e.hash_sibling_offset == le_val(s, table + off + 24, 4)
    &&& e.name_size == le_val(s, table + off + 28, 4)
    &&& e.name@ == s.subrange(table + off + 0x20, table + off + 0x20 + e.name_size)
}

/// True when offset `d` holds a directory record with this parent and
/// name.
pub open spec fn dir_hit(s: Seq<u8>, table: int, d: u32, parent: u32, name: Seq<u8>) -> bool {
    exists|e: DirectoryEntry|
        #[trigger] dir_entry_matches(s, table, d as int, e) && e.parent_offset == parent && e.name@
            == name
}

/// The non-empty `/`-separated segments of a path, in order.
pub open spec fn path_segments(p: Seq<u8>) -> Seq<Seq<u8>>
    decreases p.len(),
        via path_segments_decreases
{
    if p.len() == 0 {
        Seq::<Seq<u8>>::empty()
    } else {
        let e = crate::bytes::find_byte_spec(p, 0x2F);
        if e == 0 {
            path_segments(p.skip(1))
        } else if e >= p.len() {
            seq![p]
        } else {
            seq![p.take(e)] + path_segments(p.skip(e + 1))
        }
    }
}

#[via_fn]
proof fn path_segments_decreases(p: Seq<u8>) {
    if p.len() > 0 {
        crate::bytes::lemma_find_byte_facts(p, 0x2F);
    }
}

/// True when `dirs` witnesses a walk of the segments: it starts at the
/// root offset 0 and each step is a real directory record whose parent
/// is the previous step's offset and whose name is the segment.
pub open spec fn dir_chain_ok(s: Seq<u8>, table: int, segs: Seq<Seq<u8>>, dirs: Seq<u32>) -> bool {
    &&& dirs.len() == segs.len() + 1
    &&& dirs[0] == 0
    &&& forall|k: int|
        0 <= k < segs.len() ==> dir_hit(s, table, dirs[k + 1], #[trigger] dirs[k], segs[k])
}

/// True when walking the segments from the root resolves to the
/// directory record at offset `d`; no segments resolve to the root at
/// offset 0.
pub open spec fn dir_path_resolves(s: Seq<u8>, table: int, segs: Seq<Seq<u8>>, d: u32) -> bool {
    exists|dirs: Seq<u32>| #[trigger] dir_chain_ok(s, table, segs, dirs) && dirs.last() == d
}

/// The empty segment run resolves to the root.
pub proof fn lemma_resolves_root(s: Seq<u8>, table: int)
    ensures
        dir_path_resolves(s, table, Seq::<Seq<u8>>::empty(), 0),
{
    let dirs = seq![0u32];
    assert(dir_chain_ok(s, table, Seq::<Seq<u8>>::empty(), dirs) && dirs.last() == 0);
}

/// Extending a resolved segment run by one directory hit resolves the
/// longer run.
pub proof fn lemma_resolves_push(
    s: Seq<u8>,
    table: int,
    segs: Seq<Seq<u8>>,
    p: u32,
    d: u32,
    name: Seq<u8>,
)
    requires
        dir_path_resolves(s, table, segs, p),
        dir_hit(s, table, d, p, name),
    ensures
        dir_path_resolves(s, table, segs.push(name), d),
{
    let longer = segs.push(name);
    let dirs = choose|dirs: Seq<u32>| #[trigger] dir_chain_ok(s, table, segs, dirs) && dirs.last()
        == p;
    let nd = dirs.push(d);
    assert(nd.last() == d);
    assert(nd[0] == dirs[0]);
    assert forall|k: int| 0 <= k < longer.len() implies dir_hit(
        s,
        table,
        nd[k + 1],
        #[trigger] nd[k],
        longer[k],
    ) by {
        if k < segs.len() {
            assert(dir_hit(s, table, dirs[k + 1], dirs[k], segs[k]));
            assert(nd[k] == dirs[k]);
            assert(nd[k + 1] == dirs[k + 1]);
            assert(longer[k] == segs[k]);
        } else {
            assert(nd[k] == dirs.last());
            assert(nd[k + 1] == d);
            assert(longer[k] == name);
        }
    }
    assert(dir_chain_ok(s, table, longer, nd) && nd.last() == d);
}

/// True when `f` is a file record of the path: the leading segments
/// resolve a directory and `f` carries that parent and the last
/// segment's name.
pub open spec fn file_at_path(s: Seq<u8>, dtable: int, ftable: int, p: Seq<u8>, f: FileEntry) -> bool {
    &&& path_segments(p).len() >= 1
    &&& exists|parent: u32|
        #[trigger] dir_path_resolves(s, dtable, path_segments(p).drop_last(), parent) && file_hit(
            s,
            ftable,
            f,
            parent,
            path_segments(p).last(),
        )
}

/// True when a directory record somewhere holds this name.
pub open spec fn dir_name_present(s: Seq<u8>, table: int, nm: Seq<u8>) -> bool {
    exists|off: u32, e: DirectoryEntry|
        #[trigger] dir_entry_matches(s, table, off as int, e) && e.name@ == nm
}

/// True when a file record somewhere holds this name and size.
pub open spec fn file_name_present(s: Seq<u8>, table: int, nm: Seq<u8>, size: u64) -> bool {
    exists|off: u32, e: FileEntry|
        #[trigger] file_entry_matches(s, table, off as int, e) && e.name@ == nm && e.data_size
            == size
}

/// True when some offset of the file table holds `f`, a record with
/// this parent and name.
pub open spec fn file_hit(s: Seq<u8>, table: int, f: FileEntry, parent: u32, name: Seq<u8>) -> bool {
    exists|off: u32|
        #[trigger] file_entry_matches(s, table, off as int, f) && f.parent_offset == parent
            && f.name@ == name
}

/// True when some offset of the file table holds `f`.
pub open spec fn file_present(s: Seq<u8>, table: int, f: FileEntry) -> bool {
    exists|off: u32| #[trigger] file_entry_matches(s, table, off as int, f)
}

/// The header's own sanity bounds: a full header record, a header
/// size and hash-table sizes within the 256 MiB bound, and non-zero
/// hash-table offsets.
pub open spec fn romfs_header_sane(s: Seq<u8>) -> bool {
    &&& s.len() >= 60
    &&& 0 < le_val(s, 0, 4) <= 0x10000000
    &&& le_val(s, 12, 4) <= 0x10000000
    &&& le_val(s, 36, 4) <= 0x10000000
    &&& le_val(s, 4, 8) != 0
    &&& le_val(s, 28, 8) != 0
}

/// What a whole image must satisfy to parse: a full header, a header
/// size and hash-table sizes within the 256 MiB sanity bound, non-zero
/// hash-table offsets, and both hash tables inside the image.
pub open spec fn romfs_parse_ok(s: Seq<u8>) -> bool {
    &&& s.len() >= 60
    &&& 0 < le_val(s, 0, 4) <= 0x10000000
    &&& le_val(s, 12, 4) <= 0x10000000
    &&& le_val(s, 36, 4) <= 0x10000000
    &&& le_val(s, 4, 8) != 0
    &&& le_val(s, 28, 8) != 0
    &&& le_val(s, 4, 8) + le_val(s, 12, 4) <= s.len()
    &&& le_val(s, 28, 8) + le_val(s, 36, 4) <= s.len()
}

/// A read-only filesystem image over a byte source: a header, two hash
/// tables held in memory, and directory and file tables read on demand.
pub struct RomFs<S: Source> {
    reader: S,
    /// The parsed header.
    pub header: RomFsHeader,
    dir_hash_table: Vec<u32>,
    file_hash_table: Vec<u32>,
}

impl<S: Source> RomFs<S> {
    /// The bytes of the underlying source.
    pub closed spec fn src_bytes(&self) -> Seq<u8> {
        self.reader.bytes()
    }

    /// The parsed header, as a value.
    pub closed spec fn header_spec(&self) -> RomFsHeader {
        self.header
    }

    /// The in-memory directory hash table.
    pub closed spec fn dir_hash_spec(&self) -> Seq<u32> {
        self.dir_hash_table@
    }

    /// The in-memory file hash table.
    pub closed spec fn file_hash_spec(&self) -> Seq<u32> {
        self.file_hash_table@
    }

    /// The header's fields are the image's, and the tables were read
    /// from where it points.
    pub closed spec fn wf(&self) -> bool {
        &&& self.reader.wf()
        &&& romfs_parse_ok(self.src_bytes())
        &&& self.header.header_size == le_val(self.src_bytes(), 0, 4)
        &&& self.header.dir_hash_table_offset == le_val(self.src_bytes(), 4, 8)
        &&& self.header.dir_hash_table_size == le_val(self.src_bytes(), 12, 4)
        &&& self.header.dir_table_offset == le_val(self.src_bytes(), 16, 8)
        &&& self.header.dir_table_size == le_val(self.src_bytes(), 24, 4)
        &&& self.header.file_hash_table_offset == le_val(self.src_bytes(), 28, 8)
        &&& self.header.file_hash_table_size == le_val(self.src_bytes(), 36, 4)
        &&& self.header.file_table_offset == le_val(self.src_bytes(), 40, 8)
        &&& self.header.file_table_size == le_val(self.src_bytes(), 48, 4)
        &&& self.header.file_data_offset == le_val(self.src_bytes(), 52, 8)
        &&& self.dir_hash_spec().len() == le_val(self.src_bytes(), 12, 4) / 4
        &&& self.file_hash_spec().len() == le_val(self.src_bytes(), 36, 4) / 4
        &&& forall|i: int|
            0 <= i < self.dir_hash_spec().len() ==> #[trigger] self.dir_hash_spec()[i] == le_val(
                self.src_bytes(),
                le_val(self.src_bytes(), 4, 8) + 4 * i,
                4,
            )
        &&& forall|i: int|
            0 <= i < self.file_hash_spec().len() ==> #[trigger] self.file_hash_spec()[i] == le_val(
                self.src_bytes(),
                le_val(self.src_bytes(), 28, 8) + 4 * i,
                4,
            )
    }

    /// Parses an image from a source: the header, then both hash
    /// tables, read whole. Construction succeeds exactly when the
    /// header passes its sanity bounds and both tables fit (and reads
    /// succeed).
    pub fn from_reader(source: S) -> (r: Result<RomFs<S>, Error>)
        requires
            source.wf(),
        ensures
            match r {
                Ok(p) => {
                    &&& p.wf()
                    &&& p.src_bytes() == source.bytes()
                    &&& romfs_parse_ok(source.bytes())
                    &&& p.header_spec().header_size == le_val(source.bytes(), 0, 4)
                    &&& p.header_spec().dir_hash_table_offset == le_val(source.bytes(), 4, 8)
                    &&& p.header_spec().dir_hash_table_size == le_val(source.bytes(), 12, 4)
                    &&& p.header_spec().dir_table_offset == le_val(source.bytes(), 16, 8)
                    &&& p.header_spec().dir_table_size == le_val(source.bytes(), 24, 4)
                    &&& p.header_spec().file_hash_table_offset == le_val(source.bytes(), 28, 8)
                    &&& p.header_spec().file_hash_table_size == le_val(source.bytes(), 36, 4)
                    &&& p.header_spec().file_table_offset == le_val(source.bytes(), 40, 8)
                    &&& p.header_spec().file_table_size == le_val(source.bytes(), 48, 4)
                    &&& p.header_spec().file_data_offset == le_val(source.bytes(), 52, 8)
                    &&& p.dir_hash_spec().len() == le_val(source.bytes(), 12, 4) / 4
                    &&& p.file_hash_spec().len() == le_val(source.bytes(), 36, 4) / 4
                },
                Err(e) => {
                    ||| e == Error::Io
                    ||| (e == Error::InvalidData && !romfs_header_sane(source.bytes()))
                    ||| (e == Error::BinaryParser && romfs_header_sane(source.bytes())
                        && !romfs_parse_ok(source.bytes()))
                },
            },
    {
        let mut reader = source;
        let ghost s = reader.bytes();
        let header_buf = match reader.read_at(0, 60) {
            Ok(v) => v,
            Err(e) => {
                return Err(e);
            },
        };
        if header_buf.len() < 60 {
            proof {
                assert(read_range(s, 0, 60).len() < 60 ==> s.len() < 60);
            }
            return Err(Error::InvalidData);
        }
        proof {
            assert(header_buf@ =~= s.subrange(0, 60));
            crate::bytes::lemma_le_val_subrange(s, 0, 60, 0, 4);
            crate::bytes::lemma_le_val_subrange(s, 0, 60, 4, 8);
            crate::bytes::lemma_le_val_subrange(s, 0, 60, 12, 4);
            crate::bytes::lemma_le_val_subrange(s, 0, 60, 16, 8);
            crate::bytes::lemma_le_val_subrange(s, 0, 60, 24, 4);
            crate::bytes::lemma_le_val_subrange(s, 0, 60, 28, 8);
            crate::bytes::lemma_le_val_subrange(s, 0, 60, 36, 4);
            crate::bytes::lemma_le_val_subrange(s, 0, 60, 40, 8);
            crate::bytes::lemma_le_val_subrange(s, 0, 60, 48, 4);
            crate::bytes::lemma_le_val_subrange(s, 0, 60, 52, 8);
            reveal_with_fuel(crate::bytes::pow256, 9);
            crate::bytes::lemma_le_val_bound(s, 0, 4);
            crate::bytes::lemma_le_val_bound(s, 12, 4);
            crate::bytes::lemma_le_val_bound(s, 24, 4);
            crate::bytes::lemma_le_val_bound(s, 36, 4);
            crate::bytes::lemma_le_val_bound(s, 48, 4);
        }
        let header = RomFsHeader {
            header_size: read_le(&header_buf, 0, 4) as u32,
            dir_hash_table_offset: read_le(&header_buf, 4, 8),
            dir_hash_table_size: read_le(&header_buf, 12, 4) as u32,
            dir_table_offset: read_le(&header_buf, 16, 8),
            dir_table_size: read_le(&header_buf, 24, 4) as u32,
            file_hash_table_offset: read_le(&header_buf, 28, 8),
            file_hash_table_size: read_le(&header_buf, 36, 4) as u32,
            file_table_offset: read_le(&header_buf, 40, 8),
            file_table_size: read_le(&header_buf, 48, 4) as u32,
            file_data_offset: read_le(&header_buf, 52, 8),
        };
        if header.header_size == 0 || header.header_size > 0x10000000 {
            return Err(Error::InvalidData);
        }
        if header.dir_hash_table_size > 0x10000000 || header.file_hash_table_size > 0x10000000 {
            return Err(Error::InvalidData);
        }
        if header.dir_hash_table_offset == 0 || header.file_hash_table_offset == 0 {
            return Err(Error::InvalidData);
        }
        proof {
            reader.lemma_len_bound();
        }
        let slen = reader.source_size();
        if header.dir_hash_table_offset > slen || (header.dir_hash_table_size as u64) > slen
            - header.dir_hash_table_offset {
            return Err(Error::BinaryParser);
        }
        if header.file_hash_table_offset > slen || (header.file_hash_table_size as u64) > slen
            - header.file_hash_table_offset {
            return Err(Error::BinaryParser);
        }
        let dir_hash_table = match read_u32_table(
            &mut reader,
            header.dir_hash_table_offset,
            header.dir_hash_table_size as usize / 4,
        ) {
            Ok(t) => t,
            Err(e) => {
                return Err(e);
            },
        };
        let file_hash_table = match read_u32_table(
            &mut reader,
            header.file_hash_table_offset,
            header.file_hash_table_size as usize / 4,
        ) {
            Ok(t) => t,
            Err(e) => {
                return Err(e);
            },
        };
        let r = RomFs { reader, header, dir_hash_table, file_hash_table };
        proof {
            assert(romfs_parse_ok(s));
            assert(r.wf());
        }
        Ok(r)
    }

    /// Reads the directory record at `offset` in the directory table.
    pub fn read_dir_entry(&mut self, offset: u32) -> (r: Result<DirectoryEntry, Error>)
        requires
            old(self).wf(),
        ensures
            final(self).wf(),
            final(self).src_bytes() == old(self).src_bytes(),
            final(self).dir_hash_spec() == old(self).dir_hash_spec(),
            final(self).file_hash_spec() == old(self).file_hash_spec(),
            final(self).header_spec() == old(self).header_spec(),
            match r {
                Ok(e) => dir_entry_matches(
                    old(self).src_bytes(),
                    old(self).header_spec().dir_table_offset as int,
                    offset as int,
                    e,
                ),
                Err(e) => e == Error::Io || e == Error::BinaryParser || e == Error::InvalidData,
            },
    {
        let base = self.header.dir_table_offset;
        if offset as u64 > u64::MAX - base {
            return Err(Error::InvalidData);
        }
        let at = base + offset as u64;
        let head = match self.reader.read_at(at, 0x18) {
            Ok(v) => v,
            Err(e) => {
                return Err(e);
            },
        };
        if head.len() < 0x18 {
            return Err(Error::BinaryParser);
        }
        proof {
            assert(head@ =~= self.src_bytes().subrange(at as int, at as int + 0x18));
            crate::bytes::lemma_le_val_subrange(self.src_bytes(), at as int, at as int + 0x18, 0, 4);
            crate::bytes::lemma_le_val_subrange(self.src_bytes(), at as int, at as int + 0x18, 4, 4);
            crate::bytes::lemma_le_val_subrange(self.src_bytes(), at as int, at as int + 0x18, 8, 4);
            crate::bytes::lemma_le_val_subrange(
                self.src_bytes(),
                at as int,
                at as int + 0x18,
                12,
                4,
            );
            crate::bytes::lemma_le_val_subrange(
                self.src_bytes(),
                at as int,
                at as int + 0x18,
                16,
                4,
            );
            crate::bytes::lemma_le_val_subrange(
                self.src_bytes(),
                at as int,
                at as int + 0x18,
                20,
                4,
            );
            reveal_with_fuel(crate::bytes::pow256, 5);
            crate::bytes::lemma_le_val_bound(self.src_bytes(), at as int + 20, 4);
        }
        let name_size = read_le(&head, 20, 4) as u32;
        if (name_size as u64) > u64::MAX - 0x18 || (at > u64::MAX - 0x18 - name_size as u64) {
            return Err(Error::InvalidData);
        }
        let name = match self.reader.read_at(at + 0x18, name_size as usize) {
            Ok(v) => v,
            Err(e) => {
                return Err(e);
            },
        };
        if (name.len() as u64) < name_size as u64 {
            return Err(Error::BinaryParser);
        }
        let e = DirectoryEntry {
            parent_offset: read_le(&head, 0, 4) as u32,
            sibling_offset: read_le(&head, 4, 4) as u32,
            child_dir_offset: read_le(&head, 8, 4) as u32,
            child_file_offset: read_le(&head, 12, 4) as u32,
            hash_sibling_offset: read_le(&head, 16, 4) as u32,
            name_size,
            name,
        };
        proof {
            reveal_with_fuel(crate::bytes::pow256, 5);
            crate::bytes::lemma_le_val_bound(self.src_bytes(), at as int, 4);
            crate::bytes::lemma_le_val_bound(self.src_bytes(), at as int + 4, 4);
            crate::bytes::lemma_le_val_bound(self.src_bytes(), at as int + 8, 4);
            crate::bytes::lemma_le_val_bound(self.src_bytes(), at as int + 12, 4);
            crate::bytes::lemma_le_val_bound(self.src_bytes(), at as int + 16, 4);
            assert(e.name@ =~= self.src_bytes().subrange(
                at as int + 0x18,
                at as int + 0x18 + e.name_size,
            ));
        }
        Ok(e)
    }

    /// Reads the file record at `offset` in the file table.
    pub fn read_file_entry(&mut self, offset: u32) -> (r: Result<FileEntry, Error>)
        requires
            old(self).wf(),
        ensures
            final(self).wf(),
            final(self).src_bytes() == old(self).src_bytes(),
            final(self).dir_hash_spec() == old(self).dir_hash_spec(),
            final(self).file_hash_spec() == old(self).file_hash_spec(),
            final(self).header_spec() == old(self).header_spec(),
            match r {
                Ok(e) => file_entry_matches(
                    old(self).src_bytes(),
                    old(self).header_spec().file_table_offset as int,
                    offset as int,
                    e,
                ),
                Err(e) => e == Error::Io || e == Error::BinaryParser || e == Error::InvalidData,
            },
    {
        let base = self.header.file_table_offset;
        if offset as u64 > u64::MAX - base {
            return Err(Error::InvalidData);
        }
        let at = base + offset as u64;
        let head = match self.reader.read_at(at, 0x20) {
            Ok(v) => v,
            Err(e) => {
                return Err(e);
            },
        };
        if head.len() < 0x20 {
            return Err(Error::BinaryParser);
        }
        proof {
            assert(head@ =~= self.src_bytes().subrange(at as int, at as int + 0x20));
            crate::bytes::lemma_le_val_subrange(self.src_bytes(), at as int, at as int + 0x20, 0, 4);
            crate::bytes::lemma_le_val_subrange(self.src_bytes(), at as int, at as int + 0x20, 4, 4);
            crate::bytes::lemma_le_val_subrange(self.src_bytes(), at as int, at as int + 0x20, 8, 8);
            crate::bytes::lemma_le_val_subrange(
                self.src_bytes(),
                at as int,
                at as int + 0x20,
                16,
                8,
            );
            crate::bytes::lemma_le_val_subrange(
                self.src_bytes(),
                at as int,
                at as int + 0x20,
                24,
                4,
            );
            crate::bytes::lemma_le_val_subrange(
                self.src_bytes(),
                at as int,
                at as int + 0x20,
                28,
                4,
            );
            reveal_with_fuel(crate::bytes::pow256, 5);
            crate::bytes::lemma_le_val_bound(self.src_bytes(), at as int + 28, 4);
        }
        let name_size = read_le(&head, 28, 4) as u32;
        if (name_size as u64) > u64::MAX - 0x20 || (at > u64::MAX - 0x20 - name_size as u64) {
            return Err(Error::InvalidData);
        }
        let name = match self.reader.read_at(at + 0x20, name_size as usize) {
            Ok(v) => v,
            Err(e) => {
                return Err(e);
            },
        };
        if (name.len() as u64) < name_size as u64 {
            return Err(Error::BinaryParser);
        }
        let e = FileEntry {
            parent_offset: read_le(&head, 0, 4) as u32,
            sibling_offset: read_le(&head, 4, 4) as u32,
            data_offset: read_le(&head, 8, 8),
            data_size: read_le(&head, 16, 8),
            hash_sibling_offset: read_le(&head, 24, 4) as u32,
            name_size,
            name,
        };
        proof {
            reveal_with_fuel(crate::bytes::pow256, 5);
            crate::bytes::lemma_le_val_bound(self.src_bytes(), at as int, 4);
            crate::bytes::lemma_le_val_bound(self.src_bytes(), at as int + 4, 4);
            crate::bytes::lemma_le_val_bound(self.src_bytes(), at as int + 24, 4);
            assert(e.name@ =~= self.src_bytes().subrange(
                at as int + 0x20,
                at as int + 0x20 + e.name_size,
            ));
        }
        Ok(e)
    }

    /// The name hash of `name` under `parent`, reduced by `table_len`.
    fn compute_hash(&self, parent: u32, name: &[u8], table_len: usize) -> (r: u32)
        requires
            0 < table_len <= 0x4000000,
        ensures
            r as int == romfs_name_hash(parent, name@, table_len as int),
            r < table_len,
    {
        let mut hash: u32 = parent ^ 123456789;
        let n = name.len();
        let mut i: usize = 0;
        while i < n
            invariant
                i <= n,
                n == name@.len(),
                romfs_hash_acc(parent ^ 123456789u32, name@, 0) == romfs_hash_acc(
                    hash,
                    name@,
                    i as int,
                ),
            decreases n - i,
        {
            let b = *vstd::slice::slice_index_get(name, i);
            hash = ((hash >> 5) | (hash << 27)) ^ (b as u32);
            i = i + 1;
        }
        hash % (table_len as u32)
    }

    /// Walks the directory hash chain for `name` under the directory at
    /// `parent_offset`. A hit is a real directory record with that
    /// parent and name; an empty chain is not-found at once, and a walk
    /// longer than the directory table could hold is abandoned as
    /// not-found.
    #[verifier::spinoff_prover]
    #[verifier::rlimit(30)]
    pub fn find_dir_in_parent(&mut self, parent_offset: u32, name: &[u8]) -> (r: Result<u32, Error>)
        requires
            old(self).wf(),
        ensures
            final(self).wf(),
            final(self).src_bytes() == old(self).src_bytes(),
            final(self).dir_hash_spec() == old(self).dir_hash_spec(),
            final(self).file_hash_spec() == old(self).file_hash_spec(),
            final(self).header_spec() == old(self).header_spec(),
            match r {
                Ok(d) => dir_hit(
                    old(self).src_bytes(),
                    old(self).header_spec().dir_table_offset as int,
                    d,
                    parent_offset,
                    name@,
                ),
                Err(e) => e == Error::NotFound || e == Error::Io || e == Error::BinaryParser || e
                    == Error::InvalidData,
            },
            old(self).dir_hash_spec().len() > 0 && old(self).dir_hash_spec()[romfs_name_hash(
                parent_offset,
                name@,
                old(self).dir_hash_spec().len() as int,
            )] == romfs_invalid_entry() ==> r == Err::<u32, Error>(Error::NotFound),
            r is Ok ==> old(self).dir_hash_spec().len() > 0 && old(self).dir_hash_spec()[
                romfs_name_hash(parent_offset, name@, old(self).dir_hash_spec().len() as int)
            ] != romfs_invalid_entry(),
    {
        let tlen = self.dir_hash_table.len();
        if tlen == 0 {
            return Err(Error::NotFound);
        }
        proof {
            reveal_with_fuel(crate::bytes::pow256, 5);
            crate::bytes::lemma_le_val_bound(self.src_bytes(), 12, 4);
        }
        let hash = self.compute_hash(parent_offset, name, tlen);
        let first = self.dir_hash_table[hash as usize];
        if first == 0xFFFFFFFF {
            return Err(Error::NotFound);
        }
        let mut current = first;
        let mut fuel: u64 = self.header.dir_table_size as u64 / 0x18 + 1;
        while current != 0xFFFFFFFF && fuel > 0
            invariant
                self.wf(),
                self.src_bytes() == old(self).src_bytes(),
                self.dir_hash_spec() == old(self).dir_hash_spec(),
                self.file_hash_spec() == old(self).file_hash_spec(),
                self.header_spec() == old(self).header_spec(),
                old(self).dir_hash_spec().len() > 0,
                old(self).dir_hash_spec()[romfs_name_hash(
                    parent_offset,
                    name@,
                    old(self).dir_hash_spec().len() as int,
                )] != romfs_invalid_entry(),
            decreases fuel,
        {
            let entry = match self.read_dir_entry(current) {
                Ok(e) => e,
                Err(e) => {
                    return Err(e);
                },
            };
            if entry.parent_offset == parent_offset && crate::bytes::bytes_eq(
                entry.name.as_slice(),
                name,
            ) {
                proof {
                    assert(dir_entry_matches(
                        old(self).src_bytes(),
                        old(self).header_spec().dir_table_offset as int,
                        current as int,
                        entry,
                    ));
                    assert(dir_hit(
                        old(self).src_bytes(),
                        old(self).header_spec().dir_table_offset as int,
                        current,
                        parent_offset,
                        name@,
                    ));
                }
                return Ok(current);
            }
            current = entry.hash_sibling_offset;
            fuel = fuel - 1;
        }
        Err(Error::NotFound)
    }

    /// Walks the file hash chain for `name` under the directory at
    /// `parent_offset`, with the same guarantees as the directory walk.
    #[verifier::spinoff_prover]
    #[verifier::rlimit(30)]
    pub fn find_file_in_dir(&mut self, parent_offset: u32, name: &[u8]) -> (r: Result<
        FileEntry,
        Error,
    >)
        requires
            old(self).wf(),
        ensures
            final(self).wf(),
            final(self).src_bytes() == old(self).src_bytes(),
            final(self).dir_hash_spec() == old(self).dir_hash_spec(),
            final(self).file_hash_spec() == old(self).file_hash_spec(),
            final(self).header_spec() == old(self).header_spec(),
            match r {
                Ok(f) => file_hit(
                    old(self).src_bytes(),
                    old(self).header_spec().file_table_offset as int,
                    f,
                    parent_offset,
                    name@,
                ),
                Err(e) => e == Error::NotFound || e == Error::Io || e == Error::BinaryParser || e
                    == Error::InvalidData,
            },
            old(self).file_hash_spec().len() > 0 && old(self).file_hash_spec()[romfs_name_hash(
                parent_offset,
                name@,
                old(self).file_hash_spec().len() as int,
            )] == romfs_invalid_entry() ==> r == Err::<FileEntry, Error>(Error::NotFound),
            r is Ok ==> old(self).file_hash_spec().len() > 0 && old(self).file_hash_spec()[
                romfs_name_hash(parent_offset, name@, old(self).file_hash_spec().len() as int)
            ] != romfs_invalid_entry(),
    {
        let tlen = self.file_hash_table.len();
        if tlen == 0 {
            return Err(Error::NotFound);
        }
        proof {
            reveal_with_fuel(crate::bytes::pow256, 5);
            crate::bytes::lemma_le_val_bound(self.src_bytes(), 36, 4);
        }
        let hash = self.compute_hash(parent_offset, name, tlen);
        let first = self.file_hash_table[hash as usize];
        if first == 0xFFFFFFFF {
            return Err(Error::NotFound);
        }
        let mut current = first;
        let mut fuel: u64 = self.header.file_table_size as u64 / 0x20 + 1;
        while current != 0xFFFFFFFF && fuel > 0
            invariant
                self.wf(),
                self.src_bytes() == old(self).src_bytes(),
                self.dir_hash_spec() == old(self).dir_hash_spec(),
                self.file_hash_spec() == old(self).file_hash_spec(),
                self.header_spec() == old(self).header_spec(),
                old(self).file_hash_spec().len() > 0,
                old(self).file_hash_spec()[romfs_name_hash(
                    parent_offset,
                    name@,
                    old(self).file_hash_spec().len() as int,
                )] != romfs_invalid_entry(),
            decreases fuel,
        {
            let ghost cur = current;
            let entry = match self.read_file_entry(current) {
                Ok(e) => e,
                Err(e) => {
                    return Err(e);
                },
            };
            if entry.parent_offset == parent_offset && crate::bytes::bytes_eq(
                entry.name.as_slice(),
                name,
            ) {
                proof {
                    assert(file_entry_matches(
                        old(self).src_bytes(),
                        old(self).header_spec().file_table_offset as int,
                        cur as int,
                        entry,
                    ));
                    assert(file_hit(
                        old(self).src_bytes(),
                        old(self).header_spec().file_table_offset as int,
                        entry,
                        parent_offset,
                        name@,
                    ));
                }
                return Ok(entry);
            }
            current = entry.hash_sibling_offset;
            fuel = fuel - 1;
        }
        Err(Error::NotFound)
    }

    /// Resolves a path of `/`-separated directory names to a directory
    /// table offset, starting from the root at offset 0; empty segments
    /// are ignored. A hit for a non-empty path is a real directory
    /// record named as the last segment.
    pub fn find_dir(&mut self, path: &str) -> (r: Result<u32, Error>)
        requires
            old(self).wf(),
        ensures
            final(self).wf(),
            final(self).src_bytes() == old(self).src_bytes(),
            final(self).dir_hash_spec() == old(self).dir_hash_spec(),
            final(self).file_hash_spec() == old(self).file_hash_spec(),
            final(self).header_spec() == old(self).header_spec(),
            match r {
                Ok(d) => dir_path_resolves(
                    old(self).src_bytes(),
                    old(self).header_spec().dir_table_offset as int,
                    path_segments(path.spec_bytes()),
                    d,
                ),
                Err(e) => e == Error::NotFound || e == Error::Io || e == Error::BinaryParser || e
                    == Error::InvalidData,
            },
    {
        self.find_dir_str_bytes(path.as_bytes())
    }

    /// Looks a file up by its `/`-separated path: the leading segments
    /// resolve a directory, the last names a file in it. A hit is the
    /// file record the path resolves to; a missing file or directory is
    /// `None`; a path with no segments is an invalid argument.
    #[verifier::spinoff_prover]
    #[verifier::rlimit(100)]
    pub fn get_file_by_path(&mut self, path: &str) -> (r: Result<Option<FileEntry>, Error>)
        requires
            old(self).wf(),
        ensures
            final(self).wf(),
            final(self).src_bytes() == old(self).src_bytes(),
            final(self).dir_hash_spec() == old(self).dir_hash_spec(),
            final(self).file_hash_spec() == old(self).file_hash_spec(),
            final(self).header_spec() == old(self).header_spec(),
            match r {
                Ok(Some(f)) => file_at_path(
                    old(self).src_bytes(),
                    old(self).header_spec().dir_table_offset as int,
                    old(self).header_spec().file_table_offset as int,
                    path.spec_bytes(),
                    f,
                ),
                Ok(None) => true,
                Err(e) => e == Error::InvalidData || e == Error::Io || e == Error::BinaryParser,
            },
            path_segments(path.spec_bytes()).len() == 0 ==> r == Err::<Option<FileEntry>, Error>(
                Error::InvalidData,
            ),
            (forall|i: int|
                0 <= i < old(self).file_hash_spec().len() ==> old(self).file_hash_spec()[i]
                    == romfs_invalid_entry()) ==> !(r matches Ok(Some(_))),
    {
        let bytes = path.as_bytes();
        let n = bytes.len();
        let mut current: u32 = 0;
        let mut pending_start: usize = 0;
        let mut pending_end: usize = 0;
        let mut have_pending: bool = false;
        let mut pos: usize = 0;
        let ghost mut done: Seq<Seq<u8>> = Seq::empty();
        proof {
            assert(bytes@.skip(0) =~= bytes@);
            assert(done + path_segments(bytes@) =~= path_segments(bytes@));
            lemma_resolves_root(
                old(self).src_bytes(),
                old(self).header_spec().dir_table_offset as int,
            );
        }
        while pos < n
            invariant
                pos <= n,
                n == bytes@.len(),
                bytes@ == path.spec_bytes(),
                self.wf(),
                self.src_bytes() == old(self).src_bytes(),
                self.dir_hash_spec() == old(self).dir_hash_spec(),
                self.file_hash_spec() == old(self).file_hash_spec(),
                self.header_spec() == old(self).header_spec(),
                have_pending ==> pending_start < pending_end <= n,
                !have_pending ==> done.len() == 0,
                done + (if have_pending {
                    seq![bytes@.subrange(pending_start as int, pending_end as int)]
                } else {
                    Seq::<Seq<u8>>::empty()
                }) + path_segments(bytes@.skip(pos as int)) == path_segments(bytes@),
                dir_path_resolves(
                    old(self).src_bytes(),
                    old(self).header_spec().dir_table_offset as int,
                    done,
                    current,
                ),
            decreases n - pos,
        {
            let seg_end = crate::bytes::find_byte(bytes, pos, 0x2F);
            let next = if seg_end < n {
                seg_end + 1
            } else {
                n
            };
            let ghost rest = bytes@.skip(pos as int);
            proof {
                assert(rest.len() > 0);
                assert(crate::bytes::find_byte_spec(rest, 0x2F) == seg_end - pos);
                if seg_end == pos {
                    assert(rest.skip(1) =~= bytes@.skip(pos + 1));
                    assert(path_segments(rest) == path_segments(bytes@.skip(next as int)));
                } else if seg_end >= n {
                    assert(rest =~= bytes@.subrange(pos as int, seg_end as int));
                    assert(bytes@.skip(next as int) =~= Seq::<u8>::empty());
                    assert(path_segments(rest) == seq![
                        bytes@.subrange(pos as int, seg_end as int),
                    ] + path_segments(bytes@.skip(next as int)));
                } else {
                    assert(rest.take(seg_end - pos) =~= bytes@.subrange(
                        pos as int,
                        seg_end as int,
                    ));
                    assert(rest.skip(seg_end - pos + 1) =~= bytes@.skip(next as int));
                    assert(path_segments(rest) == seq![
                        bytes@.subrange(pos as int, seg_end as int),
                    ] + path_segments(bytes@.skip(next as int)));
                }
            }
            if seg_end > pos {
                if have_pending {
                    let seg = vstd::slice::slice_subrange(bytes, pending_start, pending_end);
                    let d = match self.find_dir_in_parent(current, seg) {
                        Ok(d) => d,
                        Err(Error::NotFound) => {
                            return Ok(None);
                        },
                        Err(Error::Io) => {
                            return Err(Error::Io);
                        },
                        Err(Error::BinaryParser) => {
                            return Err(Error::BinaryParser);
                        },
                        Err(_) => {
                            return Err(Error::InvalidData);
                        },
                    };
                    proof {
                        assert(dir_hit(
                            old(self).src_bytes(),
                            old(self).header_spec().dir_table_offset as int,
                            d,
                            current,
                            seg@,
                        ));
                        lemma_resolves_push(
                            old(self).src_bytes(),
                            old(self).header_spec().dir_table_offset as int,
                            done,
                            current,
                            d,
                            seg@,
                        );
                        done = done.push(seg@);
                    }
                    current = d;
                }
                pending_start = pos;
                pending_end = seg_end;
                have_pending = true;
            }
            proof {
                assert(done + (if have_pending {
                    seq![bytes@.subrange(pending_start as int, pending_end as int)]
                } else {
                    Seq::<Seq<u8>>::empty()
                }) + path_segments(bytes@.skip(next as int)) =~= path_segments(bytes@));
            }
            pos = next;
        }
        if !have_pending {
            proof {
                assert(bytes@.skip(n as int) =~= Seq::<u8>::empty());
                assert(done + Seq::<Seq<u8>>::empty() + Seq::<Seq<u8>>::empty() =~= done);
                assert(path_segments(bytes@) =~= done);
                assert(done.len() == 0) by {
                    if done.len() > 0 {
                        assert(path_segments(bytes@).len() > 0);
                    }
                }
            }
            return Err(Error::InvalidData);
        }
        let ghost last_seg = bytes@.subrange(pending_start as int, pending_end as int);
        proof {
            assert(bytes@.skip(n as int) =~= Seq::<u8>::empty());
            assert(path_segments(bytes@) =~= done.push(last_seg));
            assert(path_segments(bytes@).drop_last() =~= done);
            assert(path_segments(bytes@).last() == last_seg);
        }
        let file_name = vstd::slice::slice_subrange(bytes, pending_start, pending_end);
        match self.find_file_in_dir(current, file_name) {
            Ok(f) => {
                proof {
                    assert(file_hit(
                        old(self).src_bytes(),
                        old(self).header_spec().file_table_offset as int,
                        f,
                        current,
                        file_name@,
                    ));
                    assert(dir_path_resolves(
                        old(self).src_bytes(),
                        old(self).header_spec().dir_table_offset as int,
                        path_segments(path.spec_bytes()).drop_last(),
                        current,
                    ));
                    assert(file_hit(
                        old(self).src_bytes(),
                        old(self).header_spec().file_table_offset as int,
                        f,
                        current,
                        path_segments(path.spec_bytes()).last(),
                    ));
                    assert(file_at_path(
                        old(self).src_bytes(),
                        old(self).header_spec().dir_table_offset as int,
                        old(self).header_spec().file_table_offset as int,
                        path.spec_bytes(),
                        f,
                    ));
                    if forall|i: int|
                        0 <= i < old(self).file_hash_spec().len() ==> old(self).file_hash_spec()[i]
                            == romfs_invalid_entry() {
                        let hidx = romfs_name_hash(
                            current,
                            file_name@,
                            old(self).file_hash_spec().len() as int,
                        );
                        vstd::arithmetic::div_mod::lemma_mod_division_less_than_divisor(
                            romfs_hash_acc(current ^ 123456789u32, file_name@, 0) as int,
                            old(self).file_hash_spec().len() as int,
                        );
                        assert(old(self).file_hash_spec()[hidx] == romfs_invalid_entry());
                        assert(false);
                    }
                }
                Ok(Some(f))
            },
            Err(Error::NotFound) => Ok(None),
            Err(Error::Io) => Err(Error::Io),
            Err(Error::BinaryParser) => Err(Error::BinaryParser),
            Err(_) => Err(Error::InvalidData),
        }
    }

    /// As `find_dir`, over raw path bytes: resolves the path's
    /// segments from the root, one directory-hash lookup per segment.
    #[verifier::spinoff_prover]
    #[verifier::rlimit(100)]
    fn find_dir_str_bytes(&mut self, bytes: &[u8]) -> (r: Result<u32, Error>)
        requires
            old(self).wf(),
        ensures
            final(self).wf(),
            final(self).src_bytes() == old(self).src_bytes(),
            final(self).dir_hash_spec() == old(self).dir_hash_spec(),
            final(self).file_hash_spec() == old(self).file_hash_spec(),
            final(self).header_spec() == old(self).header_spec(),
            match r {
                Ok(d) => dir_path_resolves(
                    old(self).src_bytes(),
                    old(self).header_spec().dir_table_offset as int,
                    path_segments(bytes@),
                    d,
                ),
                Err(e) => e == Error::NotFound || e == Error::Io || e == Error::BinaryParser || e
                    == Error::InvalidData,
            },
    {
        let n = bytes.len();
        let mut current: u32 = 0;
        let mut pos: usize = 0;
        let ghost mut done: Seq<Seq<u8>> = Seq::empty();
        proof {
            assert(bytes@.skip(0) =~= bytes@);
            assert(done + path_segments(bytes@) =~= path_segments(bytes@));
            lemma_resolves_root(
                old(self).src_bytes(),
                old(self).header_spec().dir_table_offset as int,
            );
        }
        while pos < n
            invariant
                pos <= n,
                n == bytes@.len(),
                self.wf(),
                self.src_bytes() == old(self).src_bytes(),
                self.dir_hash_spec() == old(self).dir_hash_spec(),
                self.file_hash_spec() == old(self).file_hash_spec(),
                self.header_spec() == old(self).header_spec(),
                done + path_segments(bytes@.skip(pos as int)) == path_segments(bytes@),
                dir_path_resolves(
                    old(self).src_bytes(),
                    old(self).header_spec().dir_table_offset as int,
                    done,
                    current,
                ),
            decreases n - pos,
        {
            let seg_end = crate::bytes::find_byte(bytes, pos, 0x2F);
            let next = if seg_end < n {
                seg_end + 1
            } else {
                n
            };
            let ghost rest = bytes@.skip(pos as int);
            proof {
                assert(rest.len() > 0);
                assert(crate::bytes::find_byte_spec(rest, 0x2F) == seg_end - pos);
                if seg_end == pos {
                    assert(rest.skip(1) =~= bytes@.skip(pos + 1));
                    assert(path_segments(rest) == path_segments(bytes@.skip(next as int)));
                } else if seg_end >= n {
                    assert(rest =~= bytes@.subrange(pos as int, seg_end as int));
                    assert(bytes@.skip(next as int) =~= Seq::<u8>::empty());
                    assert(path_segments(rest) == seq![
                        bytes@.subrange(pos as int, seg_end as int),
                    ] + path_segments(bytes@.skip(next as int)));
                } else {
                    assert(rest.take(seg_end - pos) =~= bytes@.subrange(
                        pos as int,
                        seg_end as int,
                    ));
                    assert(rest.skip(seg_end - pos + 1) =~= bytes@.skip(next as int));
                    assert(path_segments(rest) == seq![
                        bytes@.subrange(pos as int, seg_end as int),
                    ] + path_segments(bytes@.skip(next as int)));
                }
            }
            if seg_end > pos {
                let seg = vstd::slice::slice_subrange(bytes, pos, seg_end);
                let d = match self.find_dir_in_parent(current, seg) {
                    Ok(d) => d,
                    Err(e) => {
                        return Err(e);
                    },
                };
                proof {
                    assert(dir_hit(
                        old(self).src_bytes(),
                        old(self).header_spec().dir_table_offset as int,
                        d,
                        current,
                        seg@,
                    ));
                    lemma_resolves_push(
                        old(self).src_bytes(),
                        old(self).header_spec().dir_table_offset as int,
                        done,
                        current,
                        d,
                        seg@,
                    );
                    done = done.push(seg@);
                    assert(done + path_segments(bytes@.skip(next as int)) =~= path_segments(
                        bytes@,
                    ));
                }
                current = d;
            }
            pos = next;
        }
        proof {
            assert(bytes@.skip(n as int) =~= Seq::<u8>::empty());
            assert(done =~= path_segments(bytes@));
        }
        Ok(current)
    }

    /// Whether the path resolves to a file.
    pub fn file_exists(&mut self, path: &str) -> (r: bool)
        requires
            old(self).wf(),
        ensures
            final(self).wf(),
            final(self).src_bytes() == old(self).src_bytes(),
            final(self).dir_hash_spec() == old(self).dir_hash_spec(),
            final(self).file_hash_spec() == old(self).file_hash_spec(),
            final(self).header_spec() == old(self).header_spec(),
            r ==> exists|f: FileEntry|
                #[trigger] file_at_path(
                    old(self).src_bytes(),
                    old(self).header_spec().dir_table_offset as int,
                    old(self).header_spec().file_table_offset as int,
                    path.spec_bytes(),
                    f,
                ),
    {
        match self.get_file_by_path(path) {
            Ok(Some(f)) => {
                proof {
                    assert(file_at_path(
                        old(self).src_bytes(),
                        old(self).header_spec().dir_table_offset as int,
                        old(self).header_spec().file_table_offset as int,
                        path.spec_bytes(),
                        f,
                    ));
                }
                true
            },
            _ => false,
        }
    }

    /// Whether the path's segments resolve to a directory.
    pub fn dir_exists(&mut self, path: &str) -> (r: bool)
        requires
            old(self).wf(),
        ensures
            final(self).wf(),
            final(self).src_bytes() == old(self).src_bytes(),
            final(self).dir_hash_spec() == old(self).dir_hash_spec(),
            final(self).file_hash_spec() == old(self).file_hash_spec(),
            final(self).header_spec() == old(self).header_spec(),
            r ==> exists|d: u32|
                #[trigger] dir_path_resolves(
                    old(self).src_bytes(),
                    old(self).header_spec().dir_table_offset as int,
                    path_segments(path.spec_bytes()),
                    d,
                ),
    {
        match self.find_dir(path) {
            Ok(d) => {
                proof {
                    assert(dir_path_resolves(
                        old(self).src_bytes(),
                        old(self).header_spec().dir_table_offset as int,
                        path_segments(path.spec_bytes()),
                        d,
                    ));
                }
                true
            },
            Err(_) => false,
        }
    }

    /// Reads a file's whole contents by path: the data window of the
    /// record the path resolves to, at the header's data offset plus
    /// the record's own.
    pub fn read_to_vec(&mut self, path: &str) -> (r: Result<Option<Vec<u8>>, Error>)
        requires
            old(self).wf(),
        ensures
            final(self).wf(),
            final(self).src_bytes() == old(self).src_bytes(),
            final(self).dir_hash_spec() == old(self).dir_hash_spec(),
            final(self).file_hash_spec() == old(self).file_hash_spec(),
            final(self).header_spec() == old(self).header_spec(),
            match r {
                Ok(Some(d)) => exists|f: FileEntry|
                    #[trigger] file_at_path(
                        old(self).src_bytes(),
                        old(self).header_spec().dir_table_offset as int,
                        old(self).header_spec().file_table_offset as int,
                        path.spec_bytes(),
                        f,
                    ) && d@ == read_range(
                        old(self).src_bytes(),
                        old(self).header_spec().file_data_offset + f.data_offset,
                        f.data_size as int,
                    ) && d@.len() == f.data_size,
                Ok(None) => true,
                Err(e) => e == Error::InvalidData || e == Error::Io || e == Error::BinaryParser,
            },
    {
        let file = match self.get_file_by_path(path) {
            Ok(Some(f)) => f,
            Ok(None) => {
                return Ok(None);
            },
            Err(e) => {
                return Err(e);
            },
        };
        if file.data_offset > u64::MAX - self.header.file_data_offset {
            return Err(Error::InvalidData);
        }
        let start = self.header.file_data_offset + file.data_offset;
        if file.data_size > usize::MAX as u64 {
            return Err(Error::InvalidData);
        }
        let data = match self.reader.read_at(start, file.data_size as usize) {
            Ok(d) => d,
            Err(e) => {
                return Err(e);
            },
        };
        if (data.len() as u64) < file.data_size {
            return Err(Error::Io);
        }
        proof {
            assert(file_at_path(
                old(self).src_bytes(),
                old(self).header_spec().dir_table_offset as int,
                old(self).header_spec().file_table_offset as int,
                path.spec_bytes(),
                file,
            ));
        }
        Ok(Some(data))
    }

    /// A bounded view of a file record's data.
    pub fn create_reader(&self, file: &FileEntry) -> (r: Result<SubFile<S>, Error>)
        requires
            self.wf(),
        ensures
            match r {
                Ok(sf) => sf.wf() && sf.bytes() == read_range(
                    self.src_bytes(),
                    self.header_spec().file_data_offset + file.data_offset,
                    file.data_size as int,
                ),
                Err(e) => e == Error::InvalidData,
            },
            (r is Err) <==> self.header_spec().file_data_offset + file.data_offset
                + file.data_size > u64::MAX,
    {
        if file.data_offset > u64::MAX - self.header.file_data_offset {
            return Err(Error::InvalidData);
        }
        let start = self.header.file_data_offset + file.data_offset;
        if file.data_size > u64::MAX - start {
            return Err(Error::InvalidData);
        }
        Ok(SubFile::new(self.reader.duplicate(), start, start + file.data_size))
    }

    /// Walks the file-hash-table slots as record offsets, keeping every
    /// offset that reads as a file record; a sparse table lists few or
    /// none.
    pub fn list_files(&mut self) -> (r: Result<Vec<FileEntry>, Error>)
        requires
            old(self).wf(),
        ensures
            final(self).wf(),
            final(self).src_bytes() == old(self).src_bytes(),
            final(self).dir_hash_spec() == old(self).dir_hash_spec(),
            final(self).file_hash_spec() == old(self).file_hash_spec(),
            final(self).header_spec() == old(self).header_spec(),
            match r {
                Ok(fs) => forall|j: int|
                    0 <= j < fs@.len() ==> file_present(
                        old(self).src_bytes(),
                        old(self).header_spec().file_table_offset as int,
                        #[trigger] fs@[j],
                    ),
                Err(_) => false,
            },
    {
        let mut files: Vec<FileEntry> = Vec::new();
        let n = self.file_hash_table.len();
        let mut i: usize = 0;
        while i < n
            invariant
                self.wf(),
                self.src_bytes() == old(self).src_bytes(),
                self.dir_hash_spec() == old(self).dir_hash_spec(),
                self.file_hash_spec() == old(self).file_hash_spec(),
                self.header_spec() == old(self).header_spec(),
                n == self.file_hash_spec().len(),
                i <= n,
                forall|j: int|
                    0 <= j < files@.len() ==> file_present(
                        old(self).src_bytes(),
                        old(self).header_spec().file_table_offset as int,
                        #[trigger] files@[j],
                    ),
            decreases n - i,
        {
            match self.read_file_entry(i as u32) {
                Ok(e) => {
                    proof {
                        assert(file_entry_matches(
                            old(self).src_bytes(),
                            old(self).header_spec().file_table_offset as int,
                            i as int,
                            e,
                        ));
                        assert(file_present(
                            old(self).src_bytes(),
                            old(self).header_spec().file_table_offset as int,
                            e,
                        ));
                    }
                    files.push(e);
                },
                Err(_) => {},
            }
            i = i + 1;
        }
        Ok(files)
    }

    /// Opens a directory for listing: resolves the path, then collects
    /// the names of its child directories and the names and sizes of
    /// its child files by walking the two sibling chains. Every listed
    /// name belongs to a real record of its table.
    pub fn open_dir(&mut self, path: &str) -> (r: Result<RomFsDirectoryIterator, Error>)
        requires
            old(self).wf(),
        ensures
            final(self).wf(),
            final(self).src_bytes() == old(self).src_bytes(),
            final(self).dir_hash_spec() == old(self).dir_hash_spec(),
            final(self).file_hash_spec() == old(self).file_hash_spec(),
            final(self).header_spec() == old(self).header_spec(),
            match r {
                Ok(it) => {
                    &&& exists|d: u32|
                        #[trigger] dir_path_resolves(
                            old(self).src_bytes(),
                            old(self).header_spec().dir_table_offset as int,
                            path_segments(path.spec_bytes()),
                            d,
                        )
                    &&& forall|k: int|
                        0 <= k < it.dirs_spec().len() ==> dir_name_present(
                            old(self).src_bytes(),
                            old(self).header_spec().dir_table_offset as int,
                            (#[trigger] it.dirs_spec()[k])@,
                        )
                    &&& forall|k: int|
                        0 <= k < it.files_spec().len() ==> file_name_present(
                            old(self).src_bytes(),
                            old(self).header_spec().file_table_offset as int,
                            (#[trigger] it.files_spec()[k]).0@,
                            it.files_spec()[k].1,
                        )
                },
                Err(_) => true,
            },
    {
        let dir_offset = match self.find_dir(path) {
            Ok(d) => d,
            Err(e) => {
                return Err(e);
            },
        };
        proof {
            assert(dir_path_resolves(
                old(self).src_bytes(),
                old(self).header_spec().dir_table_offset as int,
                path_segments(path.spec_bytes()),
                dir_offset,
            ));
        }
        let dir_entry = match self.read_dir_entry(dir_offset) {
            Ok(e) => e,
            Err(e) => {
                return Err(e);
            },
        };
        let mut dirs: Vec<Vec<u8>> = Vec::new();
        let mut current = dir_entry.child_dir_offset;
        let mut fuel: u64 = self.header.dir_table_size as u64 / 0x18 + 1;
        while current != 0xFFFFFFFF && fuel > 0
            invariant
                self.wf(),
                self.src_bytes() == old(self).src_bytes(),
                self.dir_hash_spec() == old(self).dir_hash_spec(),
                self.file_hash_spec() == old(self).file_hash_spec(),
                self.header_spec() == old(self).header_spec(),
                forall|k: int|
                    0 <= k < dirs@.len() ==> dir_name_present(
                        old(self).src_bytes(),
                        old(self).header_spec().dir_table_offset as int,
                        (#[trigger] dirs@[k])@,
                    ),
            decreases fuel,
        {
            let ghost cur = current;
            let e = match self.read_dir_entry(current) {
                Ok(e) => e,
                Err(e) => {
                    return Err(e);
                },
            };
            let ghost old_dirs = dirs@;
            proof {
                assert(dir_entry_matches(
                    old(self).src_bytes(),
                    old(self).header_spec().dir_table_offset as int,
                    cur as int,
                    e,
                ));
                assert(dir_name_present(
                    old(self).src_bytes(),
                    old(self).header_spec().dir_table_offset as int,
                    e.name@,
                ));
            }
            current = e.sibling_offset;
            dirs.push(e.name);
            proof {
                assert forall|k: int| 0 <= k < dirs@.len() implies dir_name_present(
                    old(self).src_bytes(),
                    old(self).header_spec().dir_table_offset as int,
                    (#[trigger] dirs@[k])@,
                ) by {
                    if k < old_dirs.len() {
                        assert(dirs@[k] == old_dirs[k]);
                    }
                }
            }
            fuel = fuel - 1;
        }
        let mut files: Vec<(Vec<u8>, u64)> = Vec::new();
        let mut fcurrent = dir_entry.child_file_offset;
        let mut ffuel: u64 = self.header.file_table_size as u64 / 0x20 + 1;
        while fcurrent != 0xFFFFFFFF && ffuel > 0
            invariant
                self.wf(),
                self.src_bytes() == old(self).src_bytes(),
                self.dir_hash_spec() == old(self).dir_hash_spec(),
                self.file_hash_spec() == old(self).file_hash_spec(),
                self.header_spec() == old(self).header_spec(),
                forall|k: int|
                    0 <= k < files@.len() ==> file_name_present(
                        old(self).src_bytes(),
                        old(self).header_spec().file_table_offset as int,
                        (#[trigger] files@[k]).0@,
                        files@[k].1,
                    ),
            decreases ffuel,
        {
            let ghost cur = fcurrent;
            let e = match self.read_file_entry(fcurrent) {
                Ok(e) => e,
                Err(e) => {
                    return Err(e);
                },
            };
            let ghost old_files = files@;
            proof {
                assert(file_entry_matches(
                    old(self).src_bytes(),
                    old(self).header_spec().file_table_offset as int,
                    cur as int,
                    e,
                ));
                assert(file_name_present(
                    old(self).src_bytes(),
                    old(self).header_spec().file_table_offset as int,
                    e.name@,
                    e.data_size,
                ));
            }
            fcurrent = e.sibling_offset;
            files.push((e.name, e.data_size));
            proof {
                assert forall|k: int| 0 <= k < files@.len() implies file_name_present(
                    old(self).src_bytes(),
                    old(self).header_spec().file_table_offset as int,
                    (#[trigger] files@[k]).0@,
                    files@[k].1,
                ) by {
                    if k < old_files.len() {
                        assert(files@[k] == old_files[k]);
                    }
                }
            }
            ffuel = ffuel - 1;
        }
        Ok(RomFsDirectoryIterator { dirs, files, dir_index: 0, file_index: 0 })
    }
}

/// Reads `count` little-endian words at `offset`.
fn read_u32_table<S: Source>(reader: &mut S, offset: u64, count: usize) -> (r: Result<
    Vec<u32>,
    Error,
>)
    requires
        old(reader).wf(),
        offset + 4 * count <= old(reader).bytes().len(),
        4 * count <= usize::MAX,
    ensures
        final(reader).wf(),
        final(reader).bytes() == old(reader).bytes(),
        match r {
            Ok(t) => t@.len() == count && forall|i: int|
                0 <= i < count ==> #[trigger] t@[i] == le_val(
                    old(reader).bytes(),
                    offset + 4 * i,
                    4,
                ),
            Err(e) => e == Error::Io,
        },
{
    let ghost s = reader.bytes();
    let buf = match reader.read_at(offset, 4 * count) {
        Ok(v) => v,
        Err(e) => {
            return Err(e);
        },
    };
    proof {
        assert(buf@ =~= s.subrange(offset as int, offset + 4 * (count as int)));
    }
    let mut t: Vec<u32> = Vec::new();
    let mut i: usize = 0;
    while i < count
        invariant
            s == old(reader).bytes(),
            i <= count,
            buf@ == s.subrange(offset as int, offset + 4 * (count as int)),
            offset + 4 * count <= s.len(),
            4 * count <= usize::MAX,
            t@.len() == i,
            forall|j: int| 0 <= j < i ==> #[trigger] t@[j] == le_val(s, offset + 4 * j, 4),
        decreases count - i,
    {
        proof {
            crate::bytes::lemma_le_val_subrange(
                s,
                offset as int,
                offset + 4 * (count as int),
                4 * (i as int),
                4,
            );
            reveal_with_fuel(crate::bytes::pow256, 5);
            crate::bytes::lemma_le_val_bound(s, offset + 4 * (i as int), 4);
        }
        let w = read_le(&buf, 4 * i, 4) as u32;
        t.push(w);
        i = i + 1;
    }
    Ok(t)
}

/// A listing of one directory: its child directories' names and its
/// child files' names and sizes, walked once and then stepped through.
pub struct RomFsDirectoryIterator {
    dirs: Vec<Vec<u8>>,
    files: Vec<(Vec<u8>, u64)>,
    dir_index: usize,
    file_index: usize,
}

impl RomFsDirectoryIterator {
    pub closed spec fn dirs_spec(&self) -> Seq<Vec<u8>> {
        self.dirs@
    }

    pub closed spec fn files_spec(&self) -> Seq<(Vec<u8>, u64)> {
        self.files@
    }

    pub closed spec fn dir_index_spec(&self) -> int {
        self.dir_index as int
    }

    pub closed spec fn file_index_spec(&self) -> int {
        self.file_index as int
    }

    /// The next child directory's name, or nothing when the listing is
    /// done.
    pub fn next_dir(&mut self) -> (r: Option<Vec<u8>>)
        ensures
            final(self).dirs_spec() == old(self).dirs_spec(),
            final(self).files_spec() == old(self).files_spec(),
            final(self).file_index_spec() == old(self).file_index_spec(),
            match r {
                Some(name) => old(self).dir_index_spec() < old(self).dirs_spec().len() && name@
                    == old(self).dirs_spec()[old(self).dir_index_spec()]@ && final(self).dir_index_spec() == old(self).dir_index_spec() + 1,
                None => old(self).dir_index_spec() >= old(self).dirs_spec().len() && final(self).dir_index_spec() == old(self).dir_index_spec(),
            },
    {
        if self.dir_index >= self.dirs.len() {
            return None;
        }
        let name = clone_bytes(&self.dirs[self.dir_index]);
        self.dir_index = self.dir_index + 1;
        Some(name)
    }

    /// The next child file's name and size, or nothing when the listing
    /// is done.
    pub fn next_file(&mut self) -> (r: Option<(Vec<u8>, u64)>)
        ensures
            final(self).dirs_spec() == old(self).dirs_spec(),
            final(self).files_spec() == old(self).files_spec(),
            final(self).dir_index_spec() == old(self).dir_index_spec(),
            match r {
                Some(nf) => old(self).file_index_spec() < old(self).files_spec().len() && nf.0@
                    == old(self).files_spec()[old(self).file_index_spec()].0@ && nf.1 == old(self).files_spec()[old(self).file_index_spec()].1 && final(self).file_index_spec()
                    == old(self).file_index_spec() + 1,
                None => old(self).file_index_spec() >= old(self).files_spec().len() && final(self).file_index_spec() == old(self).file_index_spec(),
            },
    {
        if self.file_index >= self.files.len() {
            return None;
        }
        let name = clone_bytes(&self.files[self.file_index].0);
        let size = self.files[self.file_index].1;
        self.file_index = self.file_index + 1;
        Some((name, size))
    }

    /// Starts the listing over.
    pub fn rewind(&mut self)
        ensures
            final(self).dirs_spec() == old(self).dirs_spec(),
            final(self).files_spec() == old(self).files_spec(),
            final(self).dir_index_spec() == 0,
            final(self).file_index_spec() == 0,
    {
        self.dir_index = 0;
        self.file_index = 0;
    }

    /// How many child directories the listing holds.
    pub fn dir_count(&self) -> (r: usize)
        ensures
            r == self.dirs_spec().len(),
    {
        self.dirs.len()
    }

    /// How many child files the listing holds.
    pub fn file_count(&self) -> (r: usize)
        ensures
            r == self.files_spec().len(),
    {
        self.files.len()
    }
}

} // verus!
