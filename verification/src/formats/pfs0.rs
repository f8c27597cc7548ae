use vstd::prelude::*;
use vstd::string::StringSliceAdditionalSpecFns;

use crate::bytes::{find_byte, find_byte_spec, le_val, read_le};
use crate::error::Error;
use crate::formats::keyset::clone_bytes;
use crate::io::{read_range, Source, SubFile};
use crate::bytes::{hex_val_be, parse_hex_be};
use crate::formats::cnmt::{is_cnmt_nca_name, name_is_cnmt_nca, Cnmt};

verus! {

/// The magic bytes `PFS0`, read little-endian.
pub open spec fn pfs0_magic() -> int {
    0x30534650
}

/// The number of files the header declares.
pub open spec fn pfs0_num_files(s: Seq<u8>) -> int {
    le_val(s, 4, 4)
}

/// The declared size of the string table.
pub open spec fn pfs0_strtab_size(s: Seq<u8>) -> int {
    le_val(s, 8, 4)
}

/// Where entry `i`'s record starts: 0x18 bytes per entry after the
/// 0x10-byte header.
pub open spec fn pfs0_entry_base(i: int) -> int {
    0x10 + 0x18 * i
}

/// Where the string table starts.
pub open spec fn pfs0_strtab_base(s: Seq<u8>) -> int {
    0x10 + 0x18 * pfs0_num_files(s)
}

/// Where the file-data region starts.
pub open spec fn pfs0_data_base(s: Seq<u8>) -> int {
    pfs0_strtab_base(s) + pfs0_strtab_size(s)
}

/// Entry `i`'s data offset, relative to the data region.
pub open spec fn pfs0_entry_data_offset(s: Seq<u8>, i: int) -> int {
    le_val(s, pfs0_entry_base(i), 8)
}

/// Entry `i`'s data size.
pub open spec fn pfs0_entry_data_size(s: Seq<u8>, i: int) -> int {
    le_val(s, pfs0_entry_base(i) + 8, 8)
}

/// Entry `i`'s offset into the string table.
pub open spec fn pfs0_entry_name_offset(s: Seq<u8>, i: int) -> int {
    le_val(s, pfs0_entry_base(i) + 0x10, 4)
}

/// The string table.
pub open spec fn pfs0_strtab(s: Seq<u8>) -> Seq<u8> {
    s.subrange(pfs0_strtab_base(s), pfs0_data_base(s))
}

/// Entry `i`'s name: the run at its name offset up to the first NUL, or
/// to the table's end when none follows.
pub open spec fn pfs0_entry_name(s: Seq<u8>, i: int) -> Seq<u8> {
    let tail = pfs0_strtab(s).skip(pfs0_entry_name_offset(s, i));
    tail.take(find_byte_spec(tail, 0))
}

/// What a whole image must satisfy to parse: the magic, room for the
/// entry table and string table (within the machine's address range),
/// and every name offset inside the string table.
pub open spec fn pfs0_parse_ok(s: Seq<u8>) -> bool {
    &&& s.len() >= 0x10
    &&& le_val(s, 0, 4) == pfs0_magic()
    &&& pfs0_data_base(s) <= s.len()
    &&& pfs0_data_base(s) <= usize::MAX
    &&& forall|i: int|
        0 <= i < pfs0_num_files(s) ==> #[trigger] pfs0_entry_name_offset(s, i)
            <= pfs0_strtab_size(s)
}

/// The 0x10-byte header of a flat archive.
pub struct Pfs0Header {
    /// Number of files in the archive.
    pub num_files: u32,
    /// Size of the string table in bytes.
    pub str_table_offset: u32,
    /// Reserved word, kept as read.
    pub reserved: u32,
}

/// One file of the archive, with its name resolved.
pub struct Pfs0File {
    /// The file's name from the string table.
    pub name: Vec<u8>,
    /// Offset of the data, relative to the start of the data region.
    pub data_offset: u64,
    /// Size of the data in bytes.
    pub size: u64,
}

impl Pfs0File {
    /// A copy of the entry.
    pub fn duplicate(&self) -> (r: Pfs0File)
        ensures
            r.name@ == self.name@,
            r.data_offset == self.data_offset,
            r.size == self.size,
    {
        Pfs0File { name: clone_bytes(&self.name), data_offset: self.data_offset, size: self.size }
    }
}

/// True when entry `i` of `files` describes what image `s` holds there.
pub open spec fn pfs0_file_matches(files: Seq<Pfs0File>, s: Seq<u8>, i: int) -> bool {
    &&& files[i].name@ == pfs0_entry_name(s, i)
    &&& files[i].data_offset == pfs0_entry_data_offset(s, i)
    &&& files[i].size == pfs0_entry_data_size(s, i)
}

/// True when entry `i` is the first whose name ends in `.cnmt.nca`.
pub open spec fn pfs0_first_cnmt_nca(files: Seq<Pfs0File>, i: int) -> bool {
    &&& 0 <= i < files.len()
    &&& is_cnmt_nca_name(files[i].name@)
    &&& forall|j: int| 0 <= j < i ==> !is_cnmt_nca_name((#[trigger] files[j]).name@)
}

/// True when `i` is the first entry named `name`.
pub open spec fn pfs0_first_match(files: Seq<Pfs0File>, name: Seq<u8>, i: int) -> bool {
    &&& 0 <= i < files.len()
    &&& files[i].name@ == name
    &&& forall|j: int| 0 <= j < i ==> (#[trigger] files[j]).name@ != name
}

/// A flat `PFS0` archive over a byte source: a header, an entry table,
/// a string table of NUL-terminated names, and a data region.
pub struct Pfs0<S: Source> {
    reader: S,
    /// The parsed header.
    pub header: Pfs0Header,
    /// The parsed entries in archive order.
    pub files: Vec<Pfs0File>,
}

impl<S: Source> Pfs0<S> {
    /// The bytes of the underlying source.
    pub closed spec fn src_bytes(&self) -> Seq<u8> {
        self.reader.bytes()
    }

    /// The parsed entries, as a sequence.
    pub closed spec fn files_spec(&self) -> Seq<Pfs0File> {
        self.files@
    }

    /// The parsed header, as a value.
    pub closed spec fn header_spec(&self) -> Pfs0Header {
        self.header
    }

    /// The archive is the faithful parse of its source's bytes.
    pub closed spec fn wf(&self) -> bool {
        &&& self.reader.wf()
        &&& pfs0_parse_ok(self.src_bytes())
        &&& self.header.num_files == pfs0_num_files(self.src_bytes())
        &&& self.header.str_table_offset == pfs0_strtab_size(self.src_bytes())
        &&& self.files_spec().len() == pfs0_num_files(self.src_bytes())
        &&& forall|i: int|
            0 <= i < self.files_spec().len() ==> #[trigger] pfs0_file_matches(
                self.files_spec(),
                self.src_bytes(),
                i,
            )
    }

    /// Parses an archive from a source. Construction succeeds exactly
    /// when the source's bytes parse (and reads succeed): a wrong magic
    /// is a format error naming both values; a table that does not fit,
    /// or a name offset outside the string table, is a parse error.
    pub fn from_reader(source: S) -> (r: Result<Pfs0<S>, Error>)
        requires
            source.wf(),
        ensures
            match r {
                Ok(p) => {
                    &&& p.wf()
                    &&& p.src_bytes() == source.bytes()
                    &&& pfs0_parse_ok(source.bytes())
                    &&& p.header_spec().num_files == pfs0_num_files(source.bytes())
                    &&& p.header_spec().str_table_offset == pfs0_strtab_size(source.bytes())
                    &&& p.files_spec().len() == pfs0_num_files(source.bytes())
                    &&& forall|i: int|
                        0 <= i < p.files_spec().len() ==> #[trigger] pfs0_file_matches(
                            p.files_spec(),
                            source.bytes(),
                            i,
                        )
                },
                Err(e) => {
                    ||| e == Error::Io
                    ||| (e matches Error::InvalidFormat { expected_magic, actual_magic }
                        && source.bytes().len() >= 0x10 && expected_magic == pfs0_magic()
                        && actual_magic == le_val(source.bytes(), 0, 4) && actual_magic
                        != pfs0_magic())
                    ||| (e == Error::BinaryParser && !pfs0_parse_ok(source.bytes()) && (
                    source.bytes().len() < 0x10 || le_val(source.bytes(), 0, 4) == pfs0_magic()))
                },
            },
    {
        let mut reader = source;
        let ghost s = reader.bytes();
        let header_buf = match reader.read_at(0, 0x10) {
            Ok(v) => v,
            Err(e) => {
                return Err(e);
            },
        };
        if header_buf.len() < 0x10 {
            proof {
                assert(read_range(s, 0, 0x10).len() < 0x10 ==> s.len() < 0x10);
            }
            return Err(Error::BinaryParser);
        }
        proof {
            assert(header_buf@ =~= s.subrange(0, 0x10));
            crate::bytes::lemma_le_val_subrange(s, 0, 0x10, 0, 4);
            crate::bytes::lemma_le_val_subrange(s, 0, 0x10, 4, 4);
            crate::bytes::lemma_le_val_subrange(s, 0, 0x10, 8, 4);
            crate::bytes::lemma_le_val_subrange(s, 0, 0x10, 12, 4);
        }
        let magic = crate::bytes::read_magic(&header_buf, 0);
        if magic != 0x30534650 {
            return Err(
                Error::InvalidFormat { expected_magic: 0x30534650, actual_magic: magic },
            );
        }
        let num_files = crate::bytes::read_magic(&header_buf, 4);
        let str_table_size = crate::bytes::read_magic(&header_buf, 8);
        let reserved = crate::bytes::read_magic(&header_buf, 12);
        proof {
            reader.lemma_len_bound();
            crate::bytes::lemma_le_val_bound(s, 4, 4);
            crate::bytes::lemma_le_val_bound(s, 8, 4);
        }
        let slen = reader.source_size();
        let entries_want: u64 = 0x18u64 * (num_files as u64);
        let data_base: u64 = 0x10u64 + entries_want + (str_table_size as u64);
        if data_base > slen {
            return Err(Error::BinaryParser);
        }
        if data_base > usize::MAX as u64 {
            return Err(Error::BinaryParser);
        }
        let entries_buf = match reader.read_at(0x10, entries_want as usize) {
            Ok(v) => v,
            Err(e) => {
                return Err(e);
            },
        };
        proof {
            assert(entries_buf@ =~= s.subrange(0x10, 0x10 + entries_want as int));
        }
        let strtab = match reader.read_at(0x10 + entries_want, str_table_size as usize) {
            Ok(v) => v,
            Err(e) => {
                return Err(e);
            },
        };
        proof {
            assert(strtab@ =~= pfs0_strtab(s));
        }
        let mut files: Vec<Pfs0File> = Vec::new();
        let mut i: usize = 0;
        let n = num_files as usize;
        proof {
            crate::bytes::lemma_le_val_bound(s, 8, 4);
        }
        while i < n
            invariant
                s == source.bytes(),
                reader.wf(),
                reader.bytes() == s,
                i <= n,
                n == pfs0_num_files(s),
                s.len() >= 0x10,
                le_val(s, 0, 4) == pfs0_magic(),
                pfs0_strtab_size(s) >= 0,
                pfs0_data_base(s) <= s.len(),
                pfs0_data_base(s) <= usize::MAX,
                0x10 + 0x18 * (n as int) <= s.len(),
                entries_buf@ == s.subrange(0x10, 0x10 + 0x18 * (n as int)),
                strtab@ == pfs0_strtab(s),
                strtab@.len() == pfs0_strtab_size(s),
                files@.len() == i,
                forall|j: int| 0 <= j < i ==> #[trigger] pfs0_file_matches(files@, s, j),
                forall|j: int|
                    0 <= j < i ==> #[trigger] pfs0_entry_name_offset(s, j) <= pfs0_strtab_size(s),
            decreases n - i,
        {
            proof {
                crate::bytes::lemma_le_val_subrange(s, 0x10, 0x10 + 0x18 * (n as int), 0x18 * (
                i as int), 8);
                crate::bytes::lemma_le_val_subrange(
                    s,
                    0x10,
                    0x10 + 0x18 * (n as int),
                    0x18 * (i as int) + 8,
                    8,
                );
                crate::bytes::lemma_le_val_subrange(
                    s,
                    0x10,
                    0x10 + 0x18 * (n as int),
                    0x18 * (i as int) + 0x10,
                    4,
                );
                crate::bytes::lemma_le_val_bound(s, pfs0_entry_base(i as int) + 0x10, 4);
            }
            let data_offset = read_le(&entries_buf, 0x18 * i, 8);
            let size = read_le(&entries_buf, 0x18 * i + 8, 8);
            let name_off = read_le(&entries_buf, 0x18 * i + 0x10, 4);
            if name_off > strtab.len() as u64 {
                proof {
                    assert(s == source.bytes());
                    assert(pfs0_entry_name_offset(s, i as int) > pfs0_strtab_size(s));
                    assert(0 <= (i as int) && (i as int) < pfs0_num_files(s));
                    assert(!pfs0_parse_ok(s));
                    assert(s.len() >= 0x10 && le_val(s, 0, 4) == pfs0_magic());
                }
                return Err(Error::BinaryParser);
            }
            let name_end = find_byte(strtab.as_slice(), name_off as usize, 0);
            let name = crate::bytes::copy_range(&strtab, name_off as usize, name_end);
            proof {
                let tail = pfs0_strtab(s).skip(pfs0_entry_name_offset(s, i as int));
                assert(tail =~= strtab@.skip(name_off as int));
                assert(name@ =~= tail.take(find_byte_spec(tail, 0)));
            }
            let ghost old_files = files@;
            files.push(Pfs0File { name, data_offset, size });
            proof {
                assert(pfs0_file_matches(files@, s, i as int));
                assert forall|j: int| 0 <= j < i implies #[trigger] pfs0_file_matches(
                    files@,
                    s,
                    j,
                ) by {
                    assert(pfs0_file_matches(old_files, s, j));
                    assert(files@[j] == old_files[j]);
                }
            }
            i = i + 1;
        }
        let p = Pfs0 {
            reader,
            header: Pfs0Header { num_files, str_table_offset: str_table_size, reserved },
            files,
        };
        Ok(p)
    }

    /// How many files the archive holds.
    pub fn file_count(&self) -> (r: usize)
        ensures
            r == self.files_spec().len(),
    {
        self.files.len()
    }

    /// The names of the archive's files, in archive order.
    pub fn list_files(&self) -> (r: Result<Vec<Vec<u8>>, Error>)
        ensures
            match r {
                Ok(names) => names@.len() == self.files_spec().len() && forall|i: int|
                    0 <= i < names@.len() ==> names@[i]@ == (#[trigger] self.files_spec()[i]).name@,
                Err(_) => false,
            },
    {
        let mut names: Vec<Vec<u8>> = Vec::new();
        let n = self.files.len();
        let mut i: usize = 0;
        while i < n
            invariant
                i <= n,
                n == self.files_spec().len(),
                names@.len() == i,
                forall|j: int| 0 <= j < i ==> names@[j]@ == (#[trigger] self.files_spec()[j]).name@,
            decreases n - i,
        {
            names.push(clone_bytes(&self.files[i].name));
            i = i + 1;
        }
        Ok(names)
    }

    /// Copies of all entries, in archive order.
    pub fn get_files(&self) -> (r: Vec<Pfs0File>)
        ensures
            r@.len() == self.files_spec().len(),
            forall|i: int|
                #![all_triggers]
                0 <= i < r@.len() ==> r@[i].name@ == self.files_spec()[i].name@ && r@[i].data_offset
                    == self.files_spec()[i].data_offset && r@[i].size == self.files_spec()[i].size,
    {
        let mut out: Vec<Pfs0File> = Vec::new();
        let n = self.files.len();
        let mut i: usize = 0;
        while i < n
            invariant
                i <= n,
                n == self.files_spec().len(),
                out@.len() == i,
                forall|j: int|
                    #![all_triggers]
                    0 <= j < i ==> out@[j].name@ == self.files_spec()[j].name@ && out@[j].data_offset
                        == self.files_spec()[j].data_offset && out@[j].size == self.files_spec()[j].size,
            decreases n - i,
        {
            out.push(self.files[i].duplicate());
            i = i + 1;
        }
        out
    }

    /// The first entry with this name, if any.
    pub fn get_file(&self, path: &str) -> (r: Option<Pfs0File>)
        ensures
            match r {
                Some(f) => exists|i: int|
                    #[trigger] pfs0_first_match(self.files_spec(), path.spec_bytes(), i) && f.name@
                        == self.files_spec()[i].name@ && f.data_offset == self.files_spec()[i].data_offset
                        && f.size == self.files_spec()[i].size,
                None => forall|i: int|
                    0 <= i < self.files_spec().len() ==> (#[trigger] self.files_spec()[i]).name@
                        != path.spec_bytes(),
            },
    {
        let needle = path.as_bytes();
        let n = self.files.len();
        let mut i: usize = 0;
        while i < n
            invariant
                i <= n,
                n == self.files_spec().len(),
                needle@ == path.spec_bytes(),
                forall|j: int| 0 <= j < i ==> (#[trigger] self.files_spec()[j]).name@ != needle@,
            decreases n - i,
        {
            if crate::bytes::bytes_eq(self.files[i].name.as_slice(), needle) {
                proof {
                    assert(needle@ == path.spec_bytes());
                    assert(self.files@[i as int].name@ == path.spec_bytes());
                    assert(pfs0_first_match(self.files_spec(), path.spec_bytes(), i as int));
                }
                return Some(self.files[i].duplicate());
            }
            i = i + 1;
        }
        None
    }

    /// The absolute window of an entry's data in the source, or an
    /// invalid-data error when the offsets do not fit in 64 bits.
    fn data_window(&self, file: &Pfs0File) -> (r: Result<(u64, u64), Error>)
        requires
            self.wf(),
        ensures
            match r {
                Ok((start, end)) => start == pfs0_data_base(self.src_bytes())
                    + file.data_offset && end == start + file.size,
                Err(e) => e == Error::InvalidData,
            },
            (r is Err) <==> pfs0_data_base(self.src_bytes()) + file.data_offset + file.size
                > u64::MAX,
    {
        let base: u64 = 0x10u64 + 0x18u64 * (self.header.num_files as u64) + (
        self.header.str_table_offset as u64);
        if file.data_offset > u64::MAX - base {
            return Err(Error::InvalidData);
        }
        let start = base + file.data_offset;
        if file.size > u64::MAX - start {
            return Err(Error::InvalidData);
        }
        Ok((start, start + file.size))
    }

    /// Reads a named file's whole contents. An absent name is
    /// not-found; a read that comes back short of the entry's size
    /// is a failed read.
    pub fn read_file(&mut self, vpath: &str) -> (r: Result<Vec<u8>, Error>)
        requires
            old(self).wf(),
        ensures
            final(self).wf(),
            final(self).src_bytes() == old(self).src_bytes(),
            final(self).files_spec() == old(self).files_spec(),
            match r {
                Ok(d) => exists|i: int|
                    #[trigger] pfs0_first_match(old(self).files_spec(), vpath.spec_bytes(), i) && d@
                        == read_range(
                        old(self).src_bytes(),
                        pfs0_data_base(old(self).src_bytes())
                            + old(self).files_spec()[i].data_offset,
                        old(self).files_spec()[i].size as int,
                    ) && d@.len() == old(self).files_spec()[i].size,
                Err(e) => {
                    ||| (e == Error::NotFound && forall|i: int|
                        0 <= i < old(self).files_spec().len() ==> (#[trigger] old(self).files_spec()[i]).name@
                            != vpath.spec_bytes())
                    ||| e == Error::Io
                    ||| e == Error::InvalidData
                },
            },
    {
        let file = match self.get_file(vpath) {
            Some(f) => f,
            None => {
                return Err(Error::NotFound);
            },
        };
        let (start, end) = match self.data_window(&file) {
            Ok(w) => w,
            Err(e) => {
                return Err(e);
            },
        };
        if file.size > usize::MAX as u64 {
            return Err(Error::InvalidData);
        }
        let data = match self.reader.read_at(start, file.size as usize) {
            Ok(d) => d,
            Err(e) => {
                return Err(e);
            },
        };
        if (data.len() as u64) < file.size {
            return Err(Error::Io);
        }
        Ok(data)
    }


    /// A copy of entry `i`.
    pub fn file_at(&self, i: usize) -> (r: Pfs0File)
        requires
            i < self.files_spec().len(),
        ensures
            r.name@ == self.files_spec()[i as int].name@,
            r.data_offset == self.files_spec()[i as int].data_offset,
            r.size == self.files_spec()[i as int].size,
    {
        self.files[i].duplicate()
    }

    /// Reads one entry's whole data, by the entry value.
    pub fn read_entry(&mut self, file: &Pfs0File) -> (r: Result<Vec<u8>, Error>)
        requires
            old(self).wf(),
        ensures
            final(self).wf(),
            final(self).src_bytes() == old(self).src_bytes(),
            final(self).files_spec() == old(self).files_spec(),
            match r {
                Ok(d) => d@.len() == file.size && d@ == read_range(
                    old(self).src_bytes(),
                    pfs0_data_base(old(self).src_bytes()) + file.data_offset,
                    file.size as int,
                ),
                Err(e) => e == Error::Io || e == Error::InvalidData,
            },
    {
        let (start, end) = match self.data_window(file) {
            Ok(w) => w,
            Err(e) => {
                return Err(e);
            },
        };
        if file.size > usize::MAX as u64 {
            return Err(Error::InvalidData);
        }
        let data = match self.reader.read_at(start, file.size as usize) {
            Ok(d) => d,
            Err(e) => {
                return Err(e);
            },
        };
        if (data.len() as u64) < file.size {
            return Err(Error::Io);
        }
        Ok(data)
    }

    /// The title id spelled by the first meta archive's name: its
    /// first sixteen characters read as hexadecimal. An archive with
    /// no meta entry, or one whose name does not spell a number, is
    /// not-found.
    pub fn title_id(&self) -> (r: Result<u64, Error>)
        ensures
            match r {
                Ok(v) => exists|i: int|
                    #[trigger] pfs0_first_cnmt_nca(self.files_spec(), i)
                        && self.files_spec()[i].name@.len() >= 16 && v as int == hex_val_be(
                        self.files_spec()[i].name@,
                        0,
                        16,
                    ),
                Err(e) => e == Error::NotFound && {
                    ||| forall|i: int|
                        0 <= i < self.files_spec().len() ==> !is_cnmt_nca_name(
                            (#[trigger] self.files_spec()[i]).name@,
                        )
                    ||| exists|i: int|
                        #[trigger] pfs0_first_cnmt_nca(self.files_spec(), i) && (
                        self.files_spec()[i].name@.len() < 16 || exists|j: int|
                            0 <= j < 16 && !crate::bytes::is_hex_digit(
                                #[trigger] self.files_spec()[i].name@[j],
                            ))
                },
            },
    {
        let n = self.files.len();
        let mut i: usize = 0;
        while i < n
            invariant
                n == self.files_spec().len(),
                i <= n,
                forall|j: int|
                    0 <= j < i ==> !is_cnmt_nca_name((#[trigger] self.files_spec()[j]).name@),
            decreases n - i,
        {
            if name_is_cnmt_nca(self.files[i].name.as_slice()) {
                proof {
                    assert(pfs0_first_cnmt_nca(self.files_spec(), i as int));
                }
                if self.files[i].name.len() < 16 {
                    return Err(Error::NotFound);
                }
                match parse_hex_be(self.files[i].name.as_slice(), 0, 16) {
                    Some(v) => {
                        proof {
                            assert(self.files_spec()[i as int].name@.len() >= 16 && v as int
                                == hex_val_be(self.files_spec()[i as int].name@, 0, 16));
                        }
                        return Ok(v);
                    },
                    None => {
                        return Err(Error::NotFound);
                    },
                }
            }
            i = i + 1;
        }
        Err(Error::NotFound)
    }

    /// Parses every content-meta table the archive holds: each file
    /// named `*.cnmt.nca` is opened as a content archive, its first
    /// section as a flat archive, and each `*.cnmt` file inside is
    /// parsed. The result is those archives' tables, in entry order.
    pub fn get_cnmts(
        &mut self,
        keyset: &crate::formats::keyset::Keyset,
        title_keyset: Option<&crate::formats::title_keyset::TitleKeys>,
    ) -> (r: Result<Vec<Cnmt>, Error>)
        requires
            old(self).wf(),
            keyset.wf(),
        ensures
            final(self).wf(),
            final(self).src_bytes() == old(self).src_bytes(),
            final(self).files_spec() == old(self).files_spec(),
            match r {
                Ok(cs) => crate::formats::cnmt::all_parsed(cs@)
                    && crate::formats::nca::meta_tables_of_entries(
                    old(self).files_spec(),
                    old(self).src_bytes(),
                    keyset.key_map(),
                    cs@,
                ),
                Err(e) => true,
            },
    {
        let mut cnmts: Vec<Cnmt> = Vec::new();
        let count = self.files.len();
        let mut i: usize = 0;
        let ghost mut groups: Seq<Seq<Cnmt>> = Seq::empty();
        proof {
            assert(Seq::<Seq<Cnmt>>::empty().flatten() =~= Seq::<Cnmt>::empty());
        }
        while i < count
            invariant
                self.wf(),
                self.src_bytes() == old(self).src_bytes(),
                self.files_spec() == old(self).files_spec(),
                keyset.wf(),
                count == self.files_spec().len(),
                i <= count,
                crate::formats::cnmt::all_parsed(cnmts@),
                crate::formats::nca::groups_collect_upto(
                    old(self).files_spec(),
                    old(self).src_bytes(),
                    keyset.key_map(),
                    groups,
                    i as int,
                ),
                cnmts@ == groups.flatten(),
            decreases count - i,
        {
            broadcast use vstd::prelude::Seq::lemma_flatten_push;

            if name_is_cnmt_nca(self.files[i].name.as_slice()) {
                let file = self.files[i].duplicate();
                let data = match self.read_entry(&file) {
                    Ok(d) => d,
                    Err(e) => {
                        return Err(e);
                    },
                };
                let ghost gdata = data@;
                let before = cnmts.len();
                match crate::formats::nca::collect_cnmts_from_bytes(
                    data,
                    keyset,
                    title_keyset,
                    &mut cnmts,
                ) {
                    Ok(()) => {
                        proof {
                            let ts = choose|ts: Seq<Cnmt>|
                                #[trigger] crate::formats::nca::nca_meta_tables(
                                    keyset.key_map(),
                                    gdata,
                                    ts,
                                ) && cnmts@ == groups.flatten() + ts;
                            crate::formats::nca::lemma_groups_push(
                                old(self).files_spec(),
                                old(self).src_bytes(),
                                keyset.key_map(),
                                groups,
                                ts,
                                i as int,
                            );
                            groups = groups.push(ts);
                            assert(cnmts@ =~= groups.flatten());
                        }
                    },
                    Err(e) => {
                        return Err(e);
                    },
                }
            } else {
                proof {
                    crate::formats::nca::lemma_groups_push(
                        old(self).files_spec(),
                        old(self).src_bytes(),
                        keyset.key_map(),
                        groups,
                        Seq::<Cnmt>::empty(),
                        i as int,
                    );
                    groups = groups.push(Seq::<Cnmt>::empty());
                    assert(cnmts@ =~= groups.flatten());
                }
            }
            i = i + 1;
        }
        proof {
            assert(crate::formats::nca::groups_collect_upto(
                old(self).files_spec(),
                old(self).src_bytes(),
                keyset.key_map(),
                groups,
                old(self).files_spec().len() as int,
            ));
        }
        Ok(cnmts)
    }

    /// A bounded view of an entry's data.
    pub fn subfile(&self, file: &Pfs0File) -> (r: Result<SubFile<S>, Error>)
        requires
            self.wf(),
        ensures
            match r {
                Ok(sf) => sf.wf() && sf.bytes() == read_range(
                    self.src_bytes(),
                    pfs0_data_base(self.src_bytes()) + file.data_offset as int,
                    file.size as int,
                ),
                Err(e) => e == Error::InvalidData,
            },
            (r is Err) <==> pfs0_data_base(self.src_bytes()) + file.data_offset + file.size
                > u64::MAX,
    {
        let (start, end) = match self.data_window(file) {
            Ok(w) => w,
            Err(e) => {
                return Err(e);
            },
        };
        Ok(SubFile::new(self.reader.duplicate(), start, end))
    }
}

/// In an archive whose names are pairwise distinct, looking an entry's
/// own name up finds exactly that entry: the first match for
/// `files[i].name` is `i` itself and no other index.
pub proof fn lemma_pfs0_lookup_round_trip(files: Seq<Pfs0File>, i: int)
    requires
        0 <= i < files.len(),
        forall|a: int, b: int|
            0 <= a < b < files.len() ==> (#[trigger] files[a]).name@ != (#[trigger] files[b]).name@,
    ensures
        pfs0_first_match(files, files[i].name@, i),
        forall|j: int| #[trigger] pfs0_first_match(files, files[i].name@, j) ==> j == i,
{
    assert forall|j: int| #[trigger] pfs0_first_match(files, files[i].name@, j) implies j == i by {
        if j < i {
            assert(files[j].name@ != files[i].name@);
        } else if j > i {
            assert(files[i].name@ != files[j].name@);
        }
    }
}

} // verus!
