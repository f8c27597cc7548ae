use vstd::prelude::*;
use vstd::string::StringSliceAdditionalSpecFns;

use crate::error::Error;
use crate::formats::hfs0::{hfs0_first_match, Hfs0, Hfs0File};
use crate::formats::pfs0::{pfs0_data_base, pfs0_first_match, Pfs0, Pfs0File};
use crate::formats::romfs::{file_at_path, file_name_present, FileEntry, RomFs};
use crate::io::{read_range, Source, SubFile};

verus! {

/// One entry of a file-bearing container: it names a file and knows
/// its size.
pub trait FileEntryExt: Sized {
    /// The entry's name.
    spec fn name_spec(&self) -> Seq<u8>;

    /// The entry's size in bytes.
    spec fn size_spec(&self) -> int;

    /// The entry's name, as bytes.
    fn file_name(&self) -> (r: Vec<u8>)
        ensures
            r@ == self.name_spec(),
    ;

    /// The entry's size in bytes.
    fn file_size(&self) -> (r: u64)
        ensures
            r == self.size_spec(),
    ;
}

/// The shape every file-bearing container exposes: list its entries,
/// look one up by name, and open a bounded reader over one. None of
/// the operations change what the container holds; what a listing, a
/// hit and an entry's data mean is each container's own spec, and a
/// reader's bytes are exactly the entry's data, which is how the
/// containers nest.
pub trait VirtualFSExt<S: Source>: Sized {
    type Entry: FileEntryExt;

    /// The container's invariant.
    spec fn fs_wf(&self) -> bool;

    /// The bytes of the container's underlying source.
    spec fn fs_bytes(&self) -> Seq<u8>;

    /// What it means for `es` to be the container's listing.
    spec fn listing_ok(&self, es: Seq<Self::Entry>) -> bool;

    /// What it means for `e` to be the entry `name` resolves to.
    spec fn lookup_ok(&self, name: Seq<u8>, e: Self::Entry) -> bool;

    /// The bytes of one entry's data.
    spec fn entry_data(&self, e: Self::Entry) -> Seq<u8>;

    /// All entries of the container.
    fn list_files(&mut self) -> (r: Result<Vec<Self::Entry>, Error>)
        requires
            old(self).fs_wf(),
        ensures
            final(self).fs_wf(),
            final(self).fs_bytes() == old(self).fs_bytes(),
            match r {
                Ok(es) => old(self).listing_ok(es@),
                Err(_) => true,
            },
    ;

    /// The entry a name resolves to, if any.
    fn get_file(&mut self, name: &str) -> (r: Result<Option<Self::Entry>, Error>)
        requires
            old(self).fs_wf(),
        ensures
            final(self).fs_wf(),
            final(self).fs_bytes() == old(self).fs_bytes(),
            match r {
                Ok(Some(e)) => old(self).lookup_ok(name.spec_bytes(), e),
                _ => true,
            },
    ;

    /// A bounded reader over one entry's data.
    fn create_reader(&mut self, file: &Self::Entry) -> (r: Result<SubFile<S>, Error>)
        requires
            old(self).fs_wf(),
        ensures
            final(self).fs_wf(),
            final(self).fs_bytes() == old(self).fs_bytes(),
            match r {
                Ok(sf) => sf.wf() && sf.bytes() == old(self).entry_data(*file),
                Err(_) => true,
            },
    ;
}

impl FileEntryExt for Pfs0File {
    open spec fn name_spec(&self) -> Seq<u8> {
        self.name@
    }

    open spec fn size_spec(&self) -> int {
        self.size as int
    }

    fn file_name(&self) -> (r: Vec<u8>) {
        crate::formats::keyset::clone_bytes(&self.name)
    }

    fn file_size(&self) -> (r: u64) {
        self.size
    }
}

impl FileEntryExt for Hfs0File {
    open spec fn name_spec(&self) -> Seq<u8> {
        self.name@
    }

    open spec fn size_spec(&self) -> int {
        self.size as int
    }

    fn file_name(&self) -> (r: Vec<u8>) {
        crate::formats::keyset::clone_bytes(&self.name)
    }

    fn file_size(&self) -> (r: u64) {
        self.size
    }
}

impl FileEntryExt for FileEntry {
    open spec fn name_spec(&self) -> Seq<u8> {
        self.name@
    }

    open spec fn size_spec(&self) -> int {
        self.data_size as int
    }

    fn file_name(&self) -> (r: Vec<u8>) {
        crate::formats::keyset::clone_bytes(&self.name)
    }

    fn file_size(&self) -> (r: u64) {
        self.data_size
    }
}

impl<S: Source> VirtualFSExt<S> for Pfs0<S> {
    type Entry = Pfs0File;

    open spec fn fs_wf(&self) -> bool {
        self.wf()
    }

    open spec fn fs_bytes(&self) -> Seq<u8> {
        self.src_bytes()
    }

    open spec fn listing_ok(&self, es: Seq<Pfs0File>) -> bool {
        es.len() == self.files_spec().len() && forall|i: int|
            #![all_triggers]
            0 <= i < es.len() ==> es[i].name@ == self.files_spec()[i].name@ && es[i].data_offset
                == self.files_spec()[i].data_offset && es[i].size == self.files_spec()[i].size
    }

    open spec fn lookup_ok(&self, name: Seq<u8>, e: Pfs0File) -> bool {
        exists|i: int|
            #[trigger] pfs0_first_match(self.files_spec(), name, i) && e.name@
                == self.files_spec()[i].name@ && e.data_offset == self.files_spec()[i].data_offset
                && e.size == self.files_spec()[i].size
    }

    open spec fn entry_data(&self, e: Pfs0File) -> Seq<u8> {
        read_range(
            self.src_bytes(),
            pfs0_data_base(self.src_bytes()) + e.data_offset,
            e.size as int,
        )
    }

    fn list_files(&mut self) -> (r: Result<Vec<Pfs0File>, Error>) {
        Ok(self.get_files())
    }

    fn get_file(&mut self, name: &str) -> (r: Result<Option<Pfs0File>, Error>) {
        Ok(Pfs0::get_file(self, name))
    }

    fn create_reader(&mut self, file: &Pfs0File) -> (r: Result<SubFile<S>, Error>) {
        self.subfile(file)
    }
}

impl<S: Source> VirtualFSExt<S> for Hfs0<S> {
    type Entry = Hfs0File;

    open spec fn fs_wf(&self) -> bool {
        self.wf()
    }

    open spec fn fs_bytes(&self) -> Seq<u8> {
        self.src_bytes()
    }

    open spec fn listing_ok(&self, es: Seq<Hfs0File>) -> bool {
        es.len() == self.files_spec().len() && forall|i: int|
            #![all_triggers]
            0 <= i < es.len() ==> es[i].name@ == self.files_spec()[i].name@ && es[i].offset
                == self.files_spec()[i].offset && es[i].size == self.files_spec()[i].size
                && es[i].hash@ == self.files_spec()[i].hash@
    }

    open spec fn lookup_ok(&self, name: Seq<u8>, e: Hfs0File) -> bool {
        exists|i: int|
            #[trigger] hfs0_first_match(self.files_spec(), name, i) && e.name@
                == self.files_spec()[i].name@ && e.offset == self.files_spec()[i].offset && e.size
                == self.files_spec()[i].size && e.hash@ == self.files_spec()[i].hash@
    }

    open spec fn entry_data(&self, e: Hfs0File) -> Seq<u8> {
        read_range(self.src_bytes(), e.offset as int, e.size as int)
    }

    fn list_files(&mut self) -> (r: Result<Vec<Hfs0File>, Error>) {
        Ok(self.get_files())
    }

    fn get_file(&mut self, name: &str) -> (r: Result<Option<Hfs0File>, Error>) {
        Hfs0::get_file(self, name)
    }

    fn create_reader(&mut self, file: &Hfs0File) -> (r: Result<SubFile<S>, Error>) {
        self.subfile(file)
    }
}

impl<S: Source> VirtualFSExt<S> for RomFs<S> {
    type Entry = FileEntry;

    open spec fn fs_wf(&self) -> bool {
        self.wf()
    }

    open spec fn fs_bytes(&self) -> Seq<u8> {
        self.src_bytes()
    }

    open spec fn listing_ok(&self, es: Seq<FileEntry>) -> bool {
        forall|k: int|
            0 <= k < es.len() ==> file_name_present(
                self.src_bytes(),
                self.header_spec().file_table_offset as int,
                (#[trigger] es[k]).name@,
                es[k].data_size,
            )
    }

    open spec fn lookup_ok(&self, name: Seq<u8>, e: FileEntry) -> bool {
        file_at_path(
            self.src_bytes(),
            self.header_spec().dir_table_offset as int,
            self.header_spec().file_table_offset as int,
            name,
            e,
        )
    }

    open spec fn entry_data(&self, e: FileEntry) -> Seq<u8> {
        read_range(
            self.src_bytes(),
            self.header_spec().file_data_offset + e.data_offset,
            e.data_size as int,
        )
    }

    fn list_files(&mut self) -> (r: Result<Vec<FileEntry>, Error>) {
        let r = RomFs::list_files(self);
        match r {
            Ok(es) => {
                proof {
                    assert forall|k: int| 0 <= k < es@.len() implies file_name_present(
                        old(self).src_bytes(),
                        old(self).header_spec().file_table_offset as int,
                        (#[trigger] es@[k]).name@,
                        es@[k].data_size,
                    ) by {
                        assert(crate::formats::romfs::file_present(
                            old(self).src_bytes(),
                            old(self).header_spec().file_table_offset as int,
                            es@[k],
                        ));
                        let off = choose|off: u32|
                            #[trigger] crate::formats::romfs::file_entry_matches(
                                old(self).src_bytes(),
                                old(self).header_spec().file_table_offset as int,
                                off as int,
                                es@[k],
                            );
                        assert(file_name_present(
                            old(self).src_bytes(),
                            old(self).header_spec().file_table_offset as int,
                            es@[k].name@,
                            es@[k].data_size,
                        ));
                    }
                }
                Ok(es)
            },
            Err(e) => Err(e),
        }
    }

    fn get_file(&mut self, name: &str) -> (r: Result<Option<FileEntry>, Error>) {
        self.get_file_by_path(name)
    }

    fn create_reader(&mut self, file: &FileEntry) -> (r: Result<SubFile<S>, Error>) {
        RomFs::create_reader(self, file)
    }
}

} // verus!
