use vstd::prelude::*;
use vstd::string::StringSliceAdditionalSpecFns;

use crate::bytes::{find_byte, find_byte_spec, le_val, read_le};
use crate::error::Error;
use crate::formats::keyset::clone_bytes;
use crate::io::{read_range, Source, SubFile};

verus! {

/// The magic bytes `HFS0`, read little-endian.
pub open spec fn hfs0_magic() -> int {
    0x30534648
}

/// The number of files the header declares.
pub open spec fn hfs0_num_files(s: Seq<u8>) -> int {
    le_val(s, 4, 4)
}

/// The declared size of the string table.
pub open spec fn hfs0_strtab_size(s: Seq<u8>) -> int {
    le_val(s, 8, 4)
}

/// Where entry `i`'s record starts: 0x40 bytes per entry after the
/// 0x10-byte header.
pub open spec fn hfs0_entry_base(i: int) -> int {
    0x10 + 0x40 * i
}

/// Where the string table starts.
pub open spec fn hfs0_strtab_base(s: Seq<u8>) -> int {
    0x10 + 0x40 * hfs0_num_files(s)
}

/// Where the file-data region starts; entry offsets are relative to it.
pub open spec fn hfs0_data_base(s: Seq<u8>) -> int {
    hfs0_strtab_base(s) + hfs0_strtab_size(s)
}

/// Entry `i`'s data offset, relative to the data region.
pub open spec fn hfs0_entry_data_offset(s: Seq<u8>, i: int) -> int {
    le_val(s, hfs0_entry_base(i), 8)
}

/// Entry `i`'s data size.
pub open spec fn hfs0_entry_data_size(s: Seq<u8>, i: int) -> int {
    le_val(s, hfs0_entry_base(i) + 8, 8)
}

/// Entry `i`'s offset into the string table.
pub open spec fn hfs0_entry_name_offset(s: Seq<u8>, i: int) -> int {
    le_val(s, hfs0_entry_base(i) + 0x10, 4)
}

/// Entry `i`'s 32-byte hash over its hashed region.
pub open spec fn hfs0_entry_hash(s: Seq<u8>, i: int) -> Seq<u8> {
    s.subrange(hfs0_entry_base(i) + 0x20, hfs0_entry_base(i) + 0x40)
}

/// The string table.
pub open spec fn hfs0_strtab(s: Seq<u8>) -> Seq<u8> {
    s.subrange(hfs0_strtab_base(s), hfs0_data_base(s))
}

/// Entry `i`'s name: the run at its name offset up to the first NUL, or
/// to the table's end when none follows.
pub open spec fn hfs0_entry_name(s: Seq<u8>, i: int) -> Seq<u8> {
    let tail = hfs0_strtab(s).skip(hfs0_entry_name_offset(s, i));
    tail.take(find_byte_spec(tail, 0))
}

/// What a whole image must satisfy to parse: the magic, room for the
/// entry table and string table (within the machine's address range),
/// and every name offset inside the string table.
pub open spec fn hfs0_parse_ok(s: Seq<u8>) -> bool {
    &&& s.len() >= 0x10
    &&& le_val(s, 0, 4) == hfs0_magic()
    &&& hfs0_data_base(s) <= s.len()
    &&& hfs0_data_base(s) <= usize::MAX
    &&& forall|i: int|
        0 <= i < hfs0_num_files(s) ==> #[trigger] hfs0_entry_name_offset(s, i)
            <= hfs0_strtab_size(s)
    &&& forall|i: int|
        0 <= i < hfs0_num_files(s) ==> hfs0_data_base(s) + #[trigger] hfs0_entry_data_offset(s, i)
            <= u64::MAX
}

/// The 0x10-byte header of a hashed flat archive.
pub struct Hfs0Header {
    /// Number of files in the archive.
    pub file_count: u32,
    /// Size of the string table in bytes.
    pub string_table_size: u32,
    /// Reserved word, kept as read.
    pub reserved: u32,
}

/// One file of the archive, with its name resolved and its offset made
/// absolute within the archive.
pub struct Hfs0File {
    /// The file's name from the string table.
    pub name: Vec<u8>,
    /// Size of the data in bytes.
    pub size: u64,
    /// Offset of the data from the start of the archive.
    pub offset: u64,
    /// The 32-byte hash stored for the entry's hashed region.
    pub hash: Vec<u8>,
}

impl Hfs0File {
    /// A copy of the entry.
    pub fn duplicate(&self) -> (r: Hfs0File)
        ensures
            r.name@ == self.name@,
            r.size == self.size,
            r.offset == self.offset,
            r.hash@ == self.hash@,
    {
        Hfs0File {
            name: clone_bytes(&self.name),
            size: self.size,
            offset: self.offset,
            hash: clone_bytes(&self.hash),
        }
    }
}

/// True when entry `i` of `files` describes what image `s` holds there,
/// its offset made absolute.
pub open spec fn hfs0_file_matches(files: Seq<Hfs0File>, s: Seq<u8>, i: int) -> bool {
    &&& files[i].name@ == hfs0_entry_name(s, i)
    &&& files[i].offset == hfs0_data_base(s) + hfs0_entry_data_offset(s, i)
    &&& files[i].size == hfs0_entry_data_size(s, i)
    &&& files[i].hash@ == hfs0_entry_hash(s, i)
}

/// The window of one entry's data inside `src`, its archive based at
/// `base`.
pub open spec fn entry_window(src: Seq<u8>, base: int, f: Hfs0File) -> Seq<u8> {
    read_range(src, base + f.offset, f.size as int)
}

/// True when `files` is the entry listing that image `s` parses to.
pub open spec fn hfs0_lists(s: Seq<u8>, files: Seq<Hfs0File>) -> bool {
    &&& hfs0_parse_ok(s)
    &&& files.len() == hfs0_num_files(s)
    &&& forall|i: int| 0 <= i < files.len() ==> #[trigger] hfs0_file_matches(files, s, i)
}

/// True when `i` is the first entry named `name`.
pub open spec fn hfs0_first_match(files: Seq<Hfs0File>, name: Seq<u8>, i: int) -> bool {
    &&& 0 <= i < files.len()
    &&& files[i].name@ == name
    &&& forall|j: int| 0 <= j < i ==> (#[trigger] files[j]).name@ != name
}

/// A hashed flat `HFS0` archive over a byte source: the shape of a
/// `PFS0` with each entry extended by a hashed-region size and a hash.
pub struct Hfs0<S: Source> {
    reader: S,
    /// The parsed header.
    pub header: Hfs0Header,
    /// The parsed entries in archive order.
    pub files: Vec<Hfs0File>,
}

impl<S: Source> Hfs0<S> {
    /// The bytes of the underlying source.
    pub closed spec fn src_bytes(&self) -> Seq<u8> {
        self.reader.bytes()
    }

    /// The parsed entries, as a sequence.
    pub closed spec fn files_spec(&self) -> Seq<Hfs0File> {
        self.files@
    }

    /// The parsed header, as a value.
    pub closed spec fn header_spec(&self) -> Hfs0Header {
        self.header
    }

    /// The archive is the faithful parse of its source's bytes.
    pub closed spec fn wf(&self) -> bool {
        &&& self.reader.wf()
        &&& hfs0_parse_ok(self.src_bytes())
        &&& self.header.file_count == hfs0_num_files(self.src_bytes())
        &&& self.header.string_table_size == hfs0_strtab_size(self.src_bytes())
        &&& self.files_spec().len() == hfs0_num_files(self.src_bytes())
        &&& forall|i: int|
            0 <= i < self.files_spec().len() ==> #[trigger] hfs0_file_matches(
                self.files_spec(),
                self.src_bytes(),
                i,
            )
    }

    /// Parses an archive from a source. Construction succeeds exactly
    /// when the source's bytes parse (and reads succeed): a wrong magic
    /// is a format error naming both values; a table that does not fit,
    /// or a name offset outside the string table, is a parse error.
    pub fn new(source: S) -> (r: Result<Hfs0<S>, Error>)
        requires
            source.wf(),
        ensures
            match r {
                Ok(p) => {
                    &&& p.wf()
                    &&& p.src_bytes() == source.bytes()
                    &&& hfs0_parse_ok(source.bytes())
                    &&& p.header_spec().file_count == hfs0_num_files(source.bytes())
                    &&& p.header_spec().string_table_size == hfs0_strtab_size(source.bytes())
                    &&& p.files_spec().len() == hfs0_num_files(source.bytes())
                    &&& forall|i: int|
                        0 <= i < p.files_spec().len() ==> #[trigger] hfs0_file_matches(
                            p.files_spec(),
                            source.bytes(),
                            i,
                        )
                },
                Err(e) => {
                    ||| e == Error::Io
                    ||| (e matches Error::InvalidFormat { expected_magic, actual_magic }
                        && source.bytes().len() >= 0x10 && expected_magic == hfs0_magic()
                        && actual_magic == le_val(source.bytes(), 0, 4) && actual_magic
                        != hfs0_magic())
                    ||| (e == Error::BinaryParser && !hfs0_parse_ok(source.bytes()) && (
                    source.bytes().len() < 0x10 || le_val(source.bytes(), 0, 4) == hfs0_magic()))
                },
            },
    {
        let mut reader = source;
        let ghost s = reader.bytes();
        let header_buf = match reader.read_at(0, 0x10) {
            Ok(v) => v,
            Err(e) => {
                return Err(e);
            },
        };
        if header_buf.len() < 0x10 {
            proof {
                assert(read_range(s, 0, 0x10).len() < 0x10 ==> s.len() < 0x10);
            }
            return Err(Error::BinaryParser);
        }
        proof {
            assert(header_buf@ =~= s.subrange(0, 0x10));
            crate::bytes::lemma_le_val_subrange(s, 0, 0x10, 0, 4);
            crate::bytes::lemma_le_val_subrange(s, 0, 0x10, 4, 4);
            crate::bytes::lemma_le_val_subrange(s, 0, 0x10, 8, 4);
            crate::bytes::lemma_le_val_subrange(s, 0, 0x10, 12, 4);
        }
        let magic = crate::bytes::read_magic(&header_buf, 0);
        if magic != 0x30534648 {
            return Err(
                Error::InvalidFormat { expected_magic: 0x30534648, actual_magic: magic },
            );
        }
        let file_count = crate::bytes::read_magic(&header_buf, 4);
        let string_table_size = crate::bytes::read_magic(&header_buf, 8);
        let reserved = crate::bytes::read_magic(&header_buf, 12);
        proof {
            reader.lemma_len_bound();
            crate::bytes::lemma_le_val_bound(s, 4, 4);
            crate::bytes::lemma_le_val_bound(s, 8, 4);
        }
        let slen = reader.source_size();
        let entries_want: u64 = 0x40u64 * (file_count as u64);
        let data_base: u64 = 0x10u64 + entries_want + (string_table_size as u64);
        if data_base > slen {
            return Err(Error::BinaryParser);
        }
        if data_base > usize::MAX as u64 {
            return Err(Error::BinaryParser);
        }
        let entries_buf = match reader.read_at(0x10, entries_want as usize) {
            Ok(v) => v,
            Err(e) => {
                return Err(e);
            },
        };
        proof {
            assert(entries_buf@ =~= s.subrange(0x10, 0x10 + entries_want as int));
        }
        let strtab = match reader.read_at(0x10 + entries_want, string_table_size as usize) {
            Ok(v) => v,
            Err(e) => {
                return Err(e);
            },
        };
        proof {
            assert(strtab@ =~= hfs0_strtab(s));
        }
        let mut files: Vec<Hfs0File> = Vec::new();
        let mut i: usize = 0;
        let n = file_count as usize;
        while i < n
            invariant
                s == source.bytes(),
                reader.wf(),
                reader.bytes() == s,
                i <= n,
                n == hfs0_num_files(s),
                s.len() >= 0x10,
                le_val(s, 0, 4) == hfs0_magic(),
                hfs0_strtab_size(s) >= 0,
                hfs0_data_base(s) <= s.len(),
                hfs0_data_base(s) <= usize::MAX,
                0x10 + 0x40 * (n as int) <= s.len(),
                data_base == hfs0_data_base(s),
                entries_buf@ == s.subrange(0x10, 0x10 + 0x40 * (n as int)),
                strtab@ == hfs0_strtab(s),
                strtab@.len() == hfs0_strtab_size(s),
                files@.len() == i,
                forall|j: int| 0 <= j < i ==> #[trigger] hfs0_file_matches(files@, s, j),
                forall|j: int|
                    0 <= j < i ==> #[trigger] hfs0_entry_name_offset(s, j) <= hfs0_strtab_size(s),
                forall|j: int|
                    0 <= j < i ==> hfs0_data_base(s) + #[trigger] hfs0_entry_data_offset(s, j)
                        <= u64::MAX,
            decreases n - i,
        {
            proof {
                crate::bytes::lemma_le_val_subrange(s, 0x10, 0x10 + 0x40 * (n as int), 0x40 * (
                i as int), 8);
                crate::bytes::lemma_le_val_subrange(
                    s,
                    0x10,
                    0x10 + 0x40 * (n as int),
                    0x40 * (i as int) + 8,
                    8,
                );
                crate::bytes::lemma_le_val_subrange(
                    s,
                    0x10,
                    0x10 + 0x40 * (n as int),
                    0x40 * (i as int) + 0x10,
                    4,
                );
                crate::bytes::lemma_le_val_bound(s, hfs0_entry_base(i as int) + 0x10, 4);
                crate::bytes::lemma_le_val_bound(s, hfs0_entry_base(i as int), 8);
            }
            let rel_offset = read_le(&entries_buf, 0x40 * i, 8);
            let size = read_le(&entries_buf, 0x40 * i + 8, 8);
            let name_off = read_le(&entries_buf, 0x40 * i + 0x10, 4);
            let hash = crate::bytes::copy_range(&entries_buf, 0x40 * i + 0x20, 0x40 * i + 0x40);
            if name_off > strtab.len() as u64 {
                proof {
                    assert(hfs0_entry_name_offset(s, i as int) > hfs0_strtab_size(s));
                    assert(!hfs0_parse_ok(s));
                }
                return Err(Error::BinaryParser);
            }
            if rel_offset > u64::MAX - data_base {
                proof {
                    assert(hfs0_data_base(s) + hfs0_entry_data_offset(s, i as int) > u64::MAX);
                    assert(!hfs0_parse_ok(s));
                }
                return Err(Error::BinaryParser);
            }
            let name_end = find_byte(strtab.as_slice(), name_off as usize, 0);
            let name = crate::bytes::copy_range(&strtab, name_off as usize, name_end);
            proof {
                let tail = hfs0_strtab(s).skip(hfs0_entry_name_offset(s, i as int));
                assert(tail =~= strtab@.skip(name_off as int));
                assert(name@ =~= tail.take(find_byte_spec(tail, 0)));
                assert(hash@ =~= hfs0_entry_hash(s, i as int));
            }
            let ghost old_files = files@;
            files.push(Hfs0File { name, size, offset: data_base + rel_offset, hash });
            proof {
                assert(hfs0_file_matches(files@, s, i as int));
                assert forall|j: int| 0 <= j < i implies #[trigger] hfs0_file_matches(
                    files@,
                    s,
                    j,
                ) by {
                    assert(hfs0_file_matches(old_files, s, j));
                    assert(files@[j] == old_files[j]);
                }
            }
            i = i + 1;
        }
        let p = Hfs0 {
            reader,
            header: Hfs0Header { file_count, string_table_size, reserved },
            files,
        };
        Ok(p)
    }

    /// Copies of all entries, in archive order.
    pub fn get_files(&self) -> (r: Vec<Hfs0File>)
        ensures
            r@.len() == self.files_spec().len(),
            forall|i: int|
                #![all_triggers]
                0 <= i < r@.len() ==> r@[i].name@ == self.files_spec()[i].name@ && r@[i].offset
                    == self.files_spec()[i].offset && r@[i].size == self.files_spec()[i].size
                    && r@[i].hash@ == self.files_spec()[i].hash@,
    {
        let mut out: Vec<Hfs0File> = Vec::new();
        let n = self.files.len();
        let mut i: usize = 0;
        while i < n
            invariant
                i <= n,
                n == self.files_spec().len(),
                out@.len() == i,
                forall|j: int|
                    #![all_triggers]
                    0 <= j < i ==> out@[j].name@ == self.files_spec()[j].name@ && out@[j].offset
                        == self.files_spec()[j].offset && out@[j].size == self.files_spec()[j].size
                        && out@[j].hash@ == self.files_spec()[j].hash@,
            decreases n - i,
        {
            out.push(self.files[i].duplicate());
            i = i + 1;
        }
        out
    }

    /// All entries, in archive order.
    pub fn list_files(&self) -> (r: Result<Vec<Hfs0File>, Error>)
        ensures
            match r {
                Ok(fs) => fs@.len() == self.files_spec().len() && forall|i: int|
                    #![all_triggers]
                    0 <= i < fs@.len() ==> fs@[i].name@ == self.files_spec()[i].name@
                        && fs@[i].offset == self.files_spec()[i].offset && fs@[i].size
                        == self.files_spec()[i].size && fs@[i].hash@
                        == self.files_spec()[i].hash@,
                Err(_) => false,
            },
    {
        Ok(self.get_files())
    }

    /// The first entry with this name, if any.
    pub fn get_file(&self, name: &str) -> (r: Result<Option<Hfs0File>, Error>)
        ensures
            match r {
                Ok(Some(f)) => exists|i: int|
                    #[trigger] hfs0_first_match(self.files_spec(), name.spec_bytes(), i) && f.name@
                        == self.files_spec()[i].name@ && f.offset == self.files_spec()[i].offset
                        && f.size == self.files_spec()[i].size && f.hash@
                        == self.files_spec()[i].hash@,
                Ok(None) => forall|i: int|
                    0 <= i < self.files_spec().len() ==> (#[trigger] self.files_spec()[i]).name@
                        != name.spec_bytes(),
                Err(_) => false,
            },
    {
        let needle = name.as_bytes();
        let n = self.files.len();
        let mut i: usize = 0;
        while i < n
            invariant
                i <= n,
                n == self.files_spec().len(),
                needle@ == name.spec_bytes(),
                forall|j: int| 0 <= j < i ==> (#[trigger] self.files_spec()[j]).name@ != needle@,
            decreases n - i,
        {
            if crate::bytes::bytes_eq(self.files[i].name.as_slice(), needle) {
                proof {
                    assert(hfs0_first_match(self.files_spec(), name.spec_bytes(), i as int));
                }
                return Ok(Some(self.files[i].duplicate()));
            }
            i = i + 1;
        }
        Ok(None)
    }

    /// Reads an entry's whole contents. A read that comes back short of
    /// the entry's size is a failed read.
    pub fn read_to_vec(&mut self, file: &Hfs0File) -> (r: Result<Vec<u8>, Error>)
        requires
            old(self).wf(),
        ensures
            final(self).wf(),
            final(self).src_bytes() == old(self).src_bytes(),
            final(self).files_spec() == old(self).files_spec(),
            match r {
                Ok(d) => d@ == read_range(
                    old(self).src_bytes(),
                    file.offset as int,
                    file.size as int,
                ) && d@.len() == file.size,
                Err(e) => e == Error::Io || e == Error::InvalidData,
            },
    {
        if file.size > usize::MAX as u64 {
            return Err(Error::InvalidData);
        }
        let data = match self.reader.read_at(file.offset, file.size as usize) {
            Ok(d) => d,
            Err(e) => {
                return Err(e);
            },
        };
        if (data.len() as u64) < file.size {
            return Err(Error::Io);
        }
        Ok(data)
    }

    /// A bounded view of an entry's data.
    pub fn subfile(&self, file: &Hfs0File) -> (r: Result<SubFile<S>, Error>)
        requires
            self.wf(),
        ensures
            match r {
                Ok(sf) => sf.wf() && sf.bytes() == read_range(
                    self.src_bytes(),
                    file.offset as int,
                    file.size as int,
                ),
                Err(e) => e == Error::InvalidData,
            },
            (r is Err) <==> file.offset + file.size > u64::MAX,
    {
        if file.size > u64::MAX - file.offset {
            return Err(Error::InvalidData);
        }
        Ok(SubFile::new(self.reader.duplicate(), file.offset, file.offset + file.size))
    }
}

/// In an archive whose names are pairwise distinct, looking an entry's
/// own name up finds exactly that entry.
pub proof fn lemma_hfs0_lookup_round_trip(files: Seq<Hfs0File>, i: int)
    requires
        0 <= i < files.len(),
        forall|a: int, b: int|
            0 <= a < b < files.len() ==> (#[trigger] files[a]).name@ != (#[trigger] files[b]).name@,
    ensures
        hfs0_first_match(files, files[i].name@, i),
        forall|j: int| #[trigger] hfs0_first_match(files, files[i].name@, j) ==> j == i,
{
    assert forall|j: int| #[trigger] hfs0_first_match(files, files[i].name@, j) implies j == i by {
        if j < i {
            assert(files[j].name@ != files[i].name@);
        } else if j > i {
            assert(files[i].name@ != files[j].name@);
        }
    }
}

} // verus!
