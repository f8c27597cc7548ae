use vstd::prelude::*;
use vstd::string::StringSliceAdditionalSpecFns;

use crate::bytes::le_val;
use crate::bytes::read_le;
use crate::error::Error;
use crate::formats::cnmt::{name_is_cnmt, name_is_cnmt_nca, Cnmt};
use crate::formats::hfs0::{entry_window, hfs0_first_match, hfs0_lists, hfs0_parse_ok, Hfs0, Hfs0File};
use crate::formats::keyset::Keyset;
use crate::formats::title_keyset::TitleKeys;
use crate::io::{read_range, Source, SubFile};

verus! {

/// The size of a media sector: gamecard offsets count in these units.
pub open spec fn media_size_spec() -> int {
    0x200
}

/// The gamecard's storage size code.
#[derive(Debug, Clone, Copy, PartialEq, Eq, Structural)]
pub enum RomSize {
    Size1Gb,
    Size2Gb,
    Size4Gb,
    Size8Gb,
    Size16Gb,
    Size32Gb,
}

pub open spec fn rom_size_of(v: u8) -> Option<RomSize> {
    if v == 0xFA {
        Some(RomSize::Size1Gb)
    } else if v == 0xF8 {
        Some(RomSize::Size2Gb)
    } else if v == 0xF0 {
        Some(RomSize::Size4Gb)
    } else if v == 0xE0 {
        Some(RomSize::Size8Gb)
    } else if v == 0xE1 {
        Some(RomSize::Size16Gb)
    } else if v == 0xE2 {
        Some(RomSize::Size32Gb)
    } else {
        None
    }
}

fn rom_size_u8(v: u8) -> (r: Option<RomSize>)
    ensures
        r == rom_size_of(v),
{
    match v {
        0xFA => Some(RomSize::Size1Gb),
        0xF8 => Some(RomSize::Size2Gb),
        0xF0 => Some(RomSize::Size4Gb),
        0xE0 => Some(RomSize::Size8Gb),
        0xE1 => Some(RomSize::Size16Gb),
        0xE2 => Some(RomSize::Size32Gb),
        _ => None,
    }
}

/// The gamecard's feature flags.
#[derive(Debug, Clone, Copy, PartialEq, Eq, Structural)]
pub enum GameCardFlags {
    AutoBoot,
    HistoryErase,
    RepairTool,
    DifferentRegionCupToTerraDevice,
    DifferentRegionCupToGlobalDevice,
    HasNewCardHeader,
    HasNewCardHeaderV2,
}

pub open spec fn gamecard_flags_of(v: u8) -> Option<GameCardFlags> {
    if v == 0 {
        Some(GameCardFlags::AutoBoot)
    } else if v == 1 {
        Some(GameCardFlags::HistoryErase)
    } else if v == 2 {
        Some(GameCardFlags::RepairTool)
    } else if v == 3 {
        Some(GameCardFlags::DifferentRegionCupToTerraDevice)
    } else if v == 4 {
        Some(GameCardFlags::DifferentRegionCupToGlobalDevice)
    } else if v == 7 {
        Some(GameCardFlags::HasNewCardHeader)
    } else if v == 8 {
        Some(GameCardFlags::HasNewCardHeaderV2)
    } else {
        None
    }
}

fn gamecard_flags_u8(v: u8) -> (r: Option<GameCardFlags>)
    ensures
        r == gamecard_flags_of(v),
{
    match v {
        0 => Some(GameCardFlags::AutoBoot),
        1 => Some(GameCardFlags::HistoryErase),
        2 => Some(GameCardFlags::RepairTool),
        3 => Some(GameCardFlags::DifferentRegionCupToTerraDevice),
        4 => Some(GameCardFlags::DifferentRegionCupToGlobalDevice),
        7 => Some(GameCardFlags::HasNewCardHeader),
        8 => Some(GameCardFlags::HasNewCardHeaderV2),
        _ => None,
    }
}

/// The gamecard's firmware version word, from the encrypted card data.
#[derive(Debug, Clone, Copy, PartialEq, Eq, Structural)]
pub enum FirmwareVersion {
    Development,
    Retail1_0_0,
    Retail4_0_0,
    Devel11_0_0,
    Retail11_0_0,
    Retail12_0_0,
}

/// The gamecard bus speed words, from the encrypted card data.
#[derive(Debug, Clone, Copy, PartialEq, Eq, Structural)]
pub enum AccessControlFlags {
    TwentyFiveMhz,
    FiftyMhz,
}

/// The gamecard's region-compatibility kind.
#[derive(Debug, Clone, Copy, PartialEq, Eq, Structural)]
pub enum CompatibilityType {
    Normal,
    Terra,
}

/// The 0x200-byte gamecard header, parsed at the probed offset.
#[derive(Debug, Clone)]
pub struct XciHeader {
    pub signature: Vec<u8>,
    pub rom_area_offset: u32,
    pub backup_area_offset: u32,
    pub title_kek_index: u8,
    pub rom_size: RomSize,
    pub gamecard_header_version: u8,
    pub gamecard_flags: GameCardFlags,
    pub package_id: u64,
    pub valid_data_end_address: u32,
    pub gamecard_flags2: u8,
    pub application_id_list_entry_count: u16,
    pub reversed_iv: Vec<u8>,
    pub hfs0_offset: u64,
    pub hfs0_header_size: u64,
    pub hfs0_header_hash: Vec<u8>,
    pub initial_data_hash: Vec<u8>,
    pub sel_sec: u32,
    pub sel_t1_key: u32,
    pub sel_key: u32,
    pub lim_area: u32,
    pub card_header_encrypted: Vec<u8>,
}

/// The gamecard certificate, read from 0x7000 past the header when
/// present.
#[derive(Debug, Clone)]
pub struct GamecardCertificate {
    pub signature: Vec<u8>,
    pub unknown1: Vec<u8>,
    pub unknown2: Vec<u8>,
    pub data: Vec<u8>,
}

/// True when the bytes hold the gamecard magic `HEAD` at 0x100 past
/// `h`, where a header based at `h` would keep it.
pub open spec fn xci_head_at(s: Seq<u8>, h: int) -> bool {
    h + 0x104 <= s.len() && le_val(s, h + 0x100, 4) == 0x44414548
}

/// Where the header lies: at 0 for a trimmed image, at 0x1000 for a
/// full image with its key area, probing in that order.
pub open spec fn xci_header_base(s: Seq<u8>) -> Option<int> {
    if xci_head_at(s, 0) {
        Some(0int)
    } else if xci_head_at(s, 0x1000) {
        Some(0x1000int)
    } else {
        None
    }
}

/// True when `h` is the parse of the header record at `base` in `s`.
pub open spec fn xci_header_matches(h: XciHeader, s: Seq<u8>, base: int) -> bool {
    &&& base + 0x200 <= s.len()
    &&& h.signature@ == s.subrange(base, base + 0x100)
    &&& h.rom_area_offset == le_val(s, base + 0x104, 4)
    &&& h.backup_area_offset == le_val(s, base + 0x108, 4)
    &&& h.title_kek_index == s[base + 0x10C]
    &&& Some(h.rom_size) == rom_size_of(s[base + 0x10D])
    &&& h.gamecard_header_version == s[base + 0x10E]
    &&& Some(h.gamecard_flags) == gamecard_flags_of(s[base + 0x10F])
    &&& h.package_id == le_val(s, base + 0x110, 8)
    &&& h.valid_data_end_address == le_val(s, base + 0x118, 4)
    &&& h.gamecard_flags2 == s[base + 0x11D]
    &&& h.application_id_list_entry_count == le_val(s, base + 0x11E, 2)
    &&& h.reversed_iv@ == s.subrange(base + 0x120, base + 0x130)
    &&& h.hfs0_offset == le_val(s, base + 0x130, 8)
    &&& h.hfs0_header_size == le_val(s, base + 0x138, 8)
    &&& h.hfs0_header_hash@ == s.subrange(base + 0x140, base + 0x160)
    &&& h.initial_data_hash@ == s.subrange(base + 0x160, base + 0x180)
    &&& h.sel_sec == le_val(s, base + 0x180, 4)
    &&& h.sel_t1_key == le_val(s, base + 0x184, 4)
    &&& h.sel_key == le_val(s, base + 0x188, 4)
    &&& h.lim_area == le_val(s, base + 0x18C, 4)
    &&& h.card_header_encrypted@ == s.subrange(base + 0x190, base + 0x200)
}

/// A gamecard image over a byte source: a header at the probed offset,
/// the key area when the image is full, and a root hashed archive that
/// holds the partitions.
pub struct Xci<S: Source> {
    reader: S,
    /// The parsed header.
    pub header: XciHeader,
    /// The 0x1000-byte key area of a full image; a trimmed image has
    /// none.
    pub key_area: Option<Vec<u8>>,
    /// The gamecard certificate, when one could be read.
    pub gamecard_cert: Option<GamecardCertificate>,
}

impl<S: Source> Xci<S> {
    /// The bytes of the underlying source.
    pub closed spec fn src_bytes(&self) -> Seq<u8> {
        self.reader.bytes()
    }

    pub closed spec fn header_spec(&self) -> XciHeader {
        self.header
    }

    pub closed spec fn key_area_spec(&self) -> Option<Vec<u8>> {
        self.key_area
    }

    /// The absolute offset of the root hashed archive.
    pub open spec fn root_offset_spec(&self) -> int {
        self.header_spec().hfs0_offset + (if self.key_area_spec() is Some {
            0x1000int
        } else {
            0int
        })
    }

    /// The root archive's window: from the root offset to the end of
    /// valid data, counted in media units.
    pub open spec fn root_window(&self) -> Seq<u8> {
        read_range(
            self.src_bytes(),
            self.root_offset_spec(),
            0x200 * self.header_spec().valid_data_end_address as int,
        )
    }

    /// The image is the faithful parse of its source's bytes: the
    /// header parsed at the probed offset, and the key area kept
    /// exactly when the header lies past one.
    pub closed spec fn wf(&self) -> bool {
        &&& self.reader.wf()
        &&& xci_header_base(self.src_bytes()) is Some
        &&& xci_header_matches(
            self.header,
            self.src_bytes(),
            xci_header_base(self.src_bytes()).unwrap(),
        )
        &&& (self.key_area is Some <==> xci_header_base(self.src_bytes()) == Some(0x1000int))
        &&& (match self.key_area {
            Some(k) => k@ == self.src_bytes().subrange(0, 0x1000),
            None => true,
        })
    }

    /// Opens a gamecard image: probes for the magic at 0x100, then at
    /// 0x1100 for a full image whose 0x1000-byte key area is kept, and
    /// parses the header found there. An image with the magic at
    /// neither probe is a format error naming the magic.
    pub fn new(source: S) -> (r: Result<Xci<S>, Error>)
        requires
            source.wf(),
        ensures
            match r {
                Ok(x) => {
                    &&& x.wf()
                    &&& x.src_bytes() == source.bytes()
                    &&& xci_header_base(source.bytes()) is Some
                    &&& xci_header_matches(
                        x.header_spec(),
                        source.bytes(),
                        xci_header_base(source.bytes()).unwrap(),
                    )
                    &&& (x.key_area_spec() is Some <==> xci_header_base(source.bytes()) == Some(
                        0x1000int,
                    ))
                    &&& (x.key_area_spec() is Some ==> x.key_area_spec().unwrap()@
                        == source.bytes().subrange(0, 0x1000))
                },
                Err(e) => {
                    ||| e == Error::Io
                    ||| (e == Error::BinaryParser && xci_header_base(source.bytes()) is Some && {
                        let base = xci_header_base(source.bytes()).unwrap();
                        ||| base + 0x200 > source.bytes().len()
                        ||| (base + 0x200 <= source.bytes().len() && (rom_size_of(
                            source.bytes()[base + 0x10D],
                        ) is None || gamecard_flags_of(source.bytes()[base + 0x10F]) is None))
                    })
                    ||| (e matches Error::InvalidFormat { expected_magic, .. } && expected_magic
                        == 0x44414548 && xci_header_base(source.bytes()) is None)
                },
            },
    {
        let mut reader = source;
        let ghost s = reader.bytes();
        proof {
            reader.lemma_len_bound();
        }
        let slen = reader.source_size();
        let probe0 = match probe_head(&mut reader, 0) {
            Ok(b) => b,
            Err(e) => {
                return Err(e);
            },
        };
        let header_offset: u64 = if probe0 {
            0
        } else {
            let probe1 = match probe_head(&mut reader, 0x1000) {
                Ok(b) => b,
                Err(e) => {
                    return Err(e);
                },
            };
            if !probe1 {
                return Err(
                    Error::InvalidFormat { expected_magic: 0x44414548, actual_magic: 0 },
                );
            }
            0x1000
        };
        let key_area: Option<Vec<u8>> = if header_offset == 0x1000 {
            let k = match reader.read_at(0, 0x1000) {
                Ok(v) => v,
                Err(e) => {
                    return Err(e);
                },
            };
            if k.len() < 0x1000 {
                return Err(Error::BinaryParser);
            }
            proof {
                assert(k@ =~= s.subrange(0, 0x1000));
            }
            Some(k)
        } else {
            None
        };
        let hbuf = match reader.read_at(header_offset, 0x200) {
            Ok(v) => v,
            Err(e) => {
                return Err(e);
            },
        };
        if hbuf.len() < 0x200 {
            return Err(Error::BinaryParser);
        }
        proof {
            assert(hbuf@ =~= s.subrange(header_offset as int, header_offset + 0x200));
            crate::bytes::lemma_le_val_subrange(s, header_offset as int, header_offset + 0x200, 0x104, 4);
            crate::bytes::lemma_le_val_subrange(s, header_offset as int, header_offset + 0x200, 0x108, 4);
            crate::bytes::lemma_le_val_subrange(s, header_offset as int, header_offset + 0x200, 0x110, 8);
            crate::bytes::lemma_le_val_subrange(s, header_offset as int, header_offset + 0x200, 0x118, 4);
            crate::bytes::lemma_le_val_subrange(s, header_offset as int, header_offset + 0x200, 0x11E, 2);
            crate::bytes::lemma_le_val_subrange(s, header_offset as int, header_offset + 0x200, 0x130, 8);
            crate::bytes::lemma_le_val_subrange(s, header_offset as int, header_offset + 0x200, 0x138, 8);
            crate::bytes::lemma_le_val_subrange(s, header_offset as int, header_offset + 0x200, 0x180, 4);
            crate::bytes::lemma_le_val_subrange(s, header_offset as int, header_offset + 0x200, 0x184, 4);
            crate::bytes::lemma_le_val_subrange(s, header_offset as int, header_offset + 0x200, 0x188, 4);
            crate::bytes::lemma_le_val_subrange(s, header_offset as int, header_offset + 0x200, 0x18C, 4);
            reveal_with_fuel(crate::bytes::pow256, 9);
            crate::bytes::lemma_le_val_bound(s, header_offset + 0x104, 4);
            crate::bytes::lemma_le_val_bound(s, header_offset + 0x108, 4);
            crate::bytes::lemma_le_val_bound(s, header_offset + 0x118, 4);
            crate::bytes::lemma_le_val_bound(s, header_offset + 0x11E, 2);
            crate::bytes::lemma_le_val_bound(s, header_offset + 0x180, 4);
            crate::bytes::lemma_le_val_bound(s, header_offset + 0x184, 4);
            crate::bytes::lemma_le_val_bound(s, header_offset + 0x188, 4);
            crate::bytes::lemma_le_val_bound(s, header_offset + 0x18C, 4);
        }
        let rom_size = match rom_size_u8(hbuf[0x10D]) {
            Some(v) => v,
            None => {
                return Err(Error::BinaryParser);
            },
        };
        let gamecard_flags = match gamecard_flags_u8(hbuf[0x10F]) {
            Some(v) => v,
            None => {
                return Err(Error::BinaryParser);
            },
        };
        let header = XciHeader {
            signature: crate::bytes::copy_range(&hbuf, 0, 0x100),
            rom_area_offset: read_le(&hbuf, 0x104, 4) as u32,
            backup_area_offset: read_le(&hbuf, 0x108, 4) as u32,
            title_kek_index: hbuf[0x10C],
            rom_size,
            gamecard_header_version: hbuf[0x10E],
            gamecard_flags,
            package_id: read_le(&hbuf, 0x110, 8),
            valid_data_end_address: read_le(&hbuf, 0x118, 4) as u32,
            gamecard_flags2: hbuf[0x11D],
            application_id_list_entry_count: read_le(&hbuf, 0x11E, 2) as u16,
            reversed_iv: crate::bytes::copy_range(&hbuf, 0x120, 0x130),
            hfs0_offset: read_le(&hbuf, 0x130, 8),
            hfs0_header_size: read_le(&hbuf, 0x138, 8),
            hfs0_header_hash: crate::bytes::copy_range(&hbuf, 0x140, 0x160),
            initial_data_hash: crate::bytes::copy_range(&hbuf, 0x160, 0x180),
            sel_sec: read_le(&hbuf, 0x180, 4) as u32,
            sel_t1_key: read_le(&hbuf, 0x184, 4) as u32,
            sel_key: read_le(&hbuf, 0x188, 4) as u32,
            lim_area: read_le(&hbuf, 0x18C, 4) as u32,
            card_header_encrypted: crate::bytes::copy_range(&hbuf, 0x190, 0x200),
        };
        let gamecard_cert = if header_offset <= u64::MAX - 0x7000 {
            read_certificate(&mut reader, header_offset + 0x7000)
        } else {
            None
        };
        let x = Xci { reader, header, key_area, gamecard_cert };
        proof {
            let base = header_offset as int;
            assert(x.header.signature@ =~= s.subrange(base, base + 0x100));
            assert(x.header.reversed_iv@ =~= s.subrange(base + 0x120, base + 0x130));
            assert(x.header.hfs0_header_hash@ =~= s.subrange(base + 0x140, base + 0x160));
            assert(x.header.initial_data_hash@ =~= s.subrange(base + 0x160, base + 0x180));
            assert(x.header.card_header_encrypted@ =~= s.subrange(base + 0x190, base + 0x200));
            assert(xci_header_matches(x.header, s, base));
        }
        Ok(x)
    }

    /// The absolute offset of the root hashed archive: the header's
    /// field, past the key area when one is present.
    pub fn get_hfs0_offset(&self) -> (r: u64)
        requires
            self.wf(),
            self.header_spec().hfs0_offset + 0x1000 <= u64::MAX,
        ensures
            r == self.header_spec().hfs0_offset + (if self.key_area_spec() is Some {
                0x1000int
            } else {
                0int
            }),
    {
        match &self.key_area {
            Some(_) => 0x1000 + self.header.hfs0_offset,
            None => self.header.hfs0_offset,
        }
    }

    /// Opens the root hashed archive: the window from the root offset
    /// to the end of valid data, in media units.
    pub fn list_hfs0_partitions(&self) -> (r: Result<Hfs0<SubFile<S>>, Error>)
        requires
            self.wf(),
            self.header_spec().hfs0_offset + 0x1000 <= u64::MAX,
        ensures
            match r {
                Ok(h) => h.wf() && h.src_bytes() == self.root_window() && hfs0_lists(
                    self.root_window(),
                    h.files_spec(),
                ),
                Err(e) => {
                    ||| e == Error::Io
                    ||| (e == Error::InvalidData && self.root_offset_spec() + 0x200
                        * self.header_spec().valid_data_end_address as int > u64::MAX)
                    ||| (e matches Error::InvalidFormat { .. })
                    ||| (e == Error::BinaryParser && !hfs0_parse_ok(self.root_window()))
                },
            },
    {
        let hfs0_offset = self.get_hfs0_offset();
        let span = 0x200u64 * (self.header.valid_data_end_address as u64);
        if span > u64::MAX - hfs0_offset {
            return Err(Error::InvalidData);
        }
        let sub = SubFile::new(self.reader.duplicate(), hfs0_offset, hfs0_offset + span);
        Hfs0::new(sub)
    }

    /// Opens the named partition of the root archive, if it exists:
    /// its window within the image, parsed as a hashed archive of its
    /// own.
    pub fn open_hfs0_partition(&self, part_name: &str) -> (r: Result<
        Option<Hfs0<SubFile<S>>>,
        Error,
    >)
        requires
            self.wf(),
            self.header_spec().hfs0_offset + 0x1000 <= u64::MAX,
        ensures
            match r {
                Ok(Some(h)) => h.wf() && hfs0_lists(h.src_bytes(), h.files_spec()) && exists|
                    files: Seq<Hfs0File>,
                    i: int,
                |
                    hfs0_lists(self.root_window(), files) && #[trigger] hfs0_first_match(
                        files,
                        part_name.spec_bytes(),
                        i,
                    ) && h.src_bytes() == read_range(
                        self.src_bytes(),
                        self.root_offset_spec() + files[i].offset,
                        files[i].size as int,
                    ),
                Ok(None) => exists|files: Seq<Hfs0File>|
                    #[trigger] hfs0_lists(self.root_window(), files) && forall|i: int|
                        0 <= i < files.len() ==> (#[trigger] files[i]).name@
                            != part_name.spec_bytes(),
                Err(e) => true,
            },
    {
        let root = match self.list_hfs0_partitions() {
            Ok(h) => h,
            Err(e) => {
                return Err(e);
            },
        };
        let file = match root.get_file(part_name) {
            Ok(Some(f)) => f,
            Ok(None) => {
                return Ok(None);
            },
            Err(e) => {
                return Err(e);
            },
        };
        let hfs0_offset = self.get_hfs0_offset();
        if file.offset > u64::MAX - hfs0_offset {
            return Err(Error::InvalidData);
        }
        let start = hfs0_offset + file.offset;
        if file.size > u64::MAX - start {
            return Err(Error::InvalidData);
        }
        let sub = SubFile::new(self.reader.duplicate(), start, start + file.size);
        match Hfs0::new(sub) {
            Ok(h) => Ok(Some(h)),
            Err(e) => Err(e),
        }
    }

    /// Opens the `secure` partition, if it exists: the window of the
    /// root entry of that name, parsed as a hashed archive of its own.
    pub fn open_secure_partition(&self) -> (r: Result<Option<Hfs0<SubFile<S>>>, Error>)
        requires
            self.wf(),
            self.header_spec().hfs0_offset + 0x1000 <= u64::MAX,
        ensures
            match r {
                Ok(Some(h)) => h.wf() && hfs0_lists(h.src_bytes(), h.files_spec()) && exists|
                    files: Seq<Hfs0File>,
                    i: int,
                |
                    hfs0_lists(self.root_window(), files) && #[trigger] hfs0_first_match(
                        files,
                        ("secure").spec_bytes(),
                        i,
                    ) && h.src_bytes() == read_range(
                        self.src_bytes(),
                        self.root_offset_spec() + files[i].offset,
                        files[i].size as int,
                    ),
                Ok(None) => exists|files: Seq<Hfs0File>|
                    #[trigger] hfs0_lists(self.root_window(), files) && forall|i: int|
                        0 <= i < files.len() ==> (#[trigger] files[i]).name@ != (
                        "secure").spec_bytes(),
                Err(e) => true,
            },
    {
        self.open_hfs0_partition("secure")
    }

    /// Opens the `normal` partition, if it exists: the window of the
    /// root entry of that name, parsed as a hashed archive of its own.
    pub fn open_normal_partition(&self) -> (r: Result<Option<Hfs0<SubFile<S>>>, Error>)
        requires
            self.wf(),
            self.header_spec().hfs0_offset + 0x1000 <= u64::MAX,
        ensures
            match r {
                Ok(Some(h)) => h.wf() && hfs0_lists(h.src_bytes(), h.files_spec()) && exists|
                    files: Seq<Hfs0File>,
                    i: int,
                |
                    hfs0_lists(self.root_window(), files) && #[trigger] hfs0_first_match(
                        files,
                        ("normal").spec_bytes(),
                        i,
                    ) && h.src_bytes() == read_range(
                        self.src_bytes(),
                        self.root_offset_spec() + files[i].offset,
                        files[i].size as int,
                    ),
                Ok(None) => exists|files: Seq<Hfs0File>|
                    #[trigger] hfs0_lists(self.root_window(), files) && forall|i: int|
                        0 <= i < files.len() ==> (#[trigger] files[i]).name@ != (
                        "normal").spec_bytes(),
                Err(e) => true,
            },
    {
        self.open_hfs0_partition("normal")
    }

    /// Opens the `logo` partition, if it exists: the window of the
    /// root entry of that name, parsed as a hashed archive of its own.
    pub fn open_logo_partition(&self) -> (r: Result<Option<Hfs0<SubFile<S>>>, Error>)
        requires
            self.wf(),
            self.header_spec().hfs0_offset + 0x1000 <= u64::MAX,
        ensures
            match r {
                Ok(Some(h)) => h.wf() && hfs0_lists(h.src_bytes(), h.files_spec()) && exists|
                    files: Seq<Hfs0File>,
                    i: int,
                |
                    hfs0_lists(self.root_window(), files) && #[trigger] hfs0_first_match(
                        files,
                        ("logo").spec_bytes(),
                        i,
                    ) && h.src_bytes() == read_range(
                        self.src_bytes(),
                        self.root_offset_spec() + files[i].offset,
                        files[i].size as int,
                    ),
                Ok(None) => exists|files: Seq<Hfs0File>|
                    #[trigger] hfs0_lists(self.root_window(), files) && forall|i: int|
                        0 <= i < files.len() ==> (#[trigger] files[i]).name@ != (
                        "logo").spec_bytes(),
                Err(e) => true,
            },
    {
        self.open_hfs0_partition("logo")
    }

    /// Opens the `update` partition, if it exists: the window of the
    /// root entry of that name, parsed as a hashed archive of its own.
    pub fn open_update_partition(&self) -> (r: Result<Option<Hfs0<SubFile<S>>>, Error>)
        requires
            self.wf(),
            self.header_spec().hfs0_offset + 0x1000 <= u64::MAX,
        ensures
            match r {
                Ok(Some(h)) => h.wf() && hfs0_lists(h.src_bytes(), h.files_spec()) && exists|
                    files: Seq<Hfs0File>,
                    i: int,
                |
                    hfs0_lists(self.root_window(), files) && #[trigger] hfs0_first_match(
                        files,
                        ("update").spec_bytes(),
                        i,
                    ) && h.src_bytes() == read_range(
                        self.src_bytes(),
                        self.root_offset_spec() + files[i].offset,
                        files[i].size as int,
                    ),
                Ok(None) => exists|files: Seq<Hfs0File>|
                    #[trigger] hfs0_lists(self.root_window(), files) && forall|i: int|
                        0 <= i < files.len() ==> (#[trigger] files[i]).name@ != (
                        "update").spec_bytes(),
                Err(e) => true,
            },
    {
        self.open_hfs0_partition("update")
    }


    /// Parses every content-meta table in the `secure` partition: each
    /// `*.cnmt.nca` file is opened as a content archive and its tables
    /// collected; a bare `*.cnmt` file is parsed directly. The result
    /// is the partition's tables in entry order; an image with no
    /// `secure` partition yields none.
    pub fn get_cnmts(&self, keyset: &Keyset, title_keyset: Option<&TitleKeys>) -> (r: Result<
        Vec<Cnmt>,
        Error,
    >)
        requires
            self.wf(),
            keyset.wf(),
            self.header_spec().hfs0_offset + 0x1000 <= u64::MAX,
        ensures
            match r {
                Ok(cs) => crate::formats::cnmt::all_parsed(cs@) && {
                    ||| (exists|rf: Seq<Hfs0File>|
                        #[trigger] hfs0_lists(self.root_window(), rf) && (forall|i: int|
                            0 <= i < rf.len() ==> (#[trigger] rf[i]).name@ != (
                            "secure").spec_bytes()) && cs@ == Seq::<Cnmt>::empty())
                    ||| (exists|rf: Seq<Hfs0File>, ri: int, pfiles: Seq<Hfs0File>|
                        #![trigger hfs0_first_match(rf, ("secure").spec_bytes(), ri), hfs0_lists(entry_window(self.src_bytes(), self.root_offset_spec(), rf[ri]), pfiles)]
                        hfs0_lists(self.root_window(), rf) && hfs0_first_match(
                            rf,
                            ("secure").spec_bytes(),
                            ri,
                        ) && hfs0_lists(
                            entry_window(self.src_bytes(), self.root_offset_spec(), rf[ri]),
                            pfiles,
                        ) && crate::formats::nca::hfs0_meta_tables_of_entries(
                            pfiles,
                            entry_window(self.src_bytes(), self.root_offset_spec(), rf[ri]),
                            keyset.key_map(),
                            cs@,
                        ))
                },
                Err(e) => true,
            },
    {
        let mut cnmts: Vec<Cnmt> = Vec::new();
        let mut secure = match self.open_secure_partition() {
            Ok(Some(h)) => h,
            Ok(None) => {
                return Ok(cnmts);
            },
            Err(e) => {
                return Err(e);
            },
        };
        let ghost (rf, ri): (Seq<Hfs0File>, int) = choose|rf: Seq<Hfs0File>, ri: int|
            hfs0_lists(self.root_window(), rf) && #[trigger] hfs0_first_match(
                rf,
                ("secure").spec_bytes(),
                ri,
            ) && secure.src_bytes() == read_range(
                self.src_bytes(),
                self.root_offset_spec() + rf[ri].offset,
                rf[ri].size as int,
            );
        let ghost win = secure.src_bytes();
        let ghost sfiles = secure.files_spec();
        let files = secure.get_files();
        let count = files.len();
        let mut i: usize = 0;
        let ghost mut groups: Seq<Seq<Cnmt>> = Seq::empty();
        proof {
            assert(Seq::<Seq<Cnmt>>::empty().flatten() =~= Seq::<Cnmt>::empty());
        }
        while i < count
            invariant
                self.wf(),
                keyset.wf(),
                secure.wf(),
                secure.src_bytes() == win,
                win == entry_window(self.src_bytes(), self.root_offset_spec(), rf[ri]),
                hfs0_lists(win, sfiles),
                hfs0_lists(self.root_window(), rf),
                hfs0_first_match(rf, ("secure").spec_bytes(), ri),
                count == files@.len(),
                count == secure.files_spec().len(),
                secure.files_spec() == sfiles,
                forall|j: int|
                    #![all_triggers]
                    0 <= j < count ==> files@[j].name@ == secure.files_spec()[j].name@
                        && files@[j].offset == secure.files_spec()[j].offset && files@[j].size
                        == secure.files_spec()[j].size,
                i <= count,
                crate::formats::cnmt::all_parsed(cnmts@),
                crate::formats::nca::hfs0_groups_upto(
                    secure.files_spec(),
                    win,
                    keyset.key_map(),
                    groups,
                    i as int,
                ),
                cnmts@ == groups.flatten(),
            decreases count - i,
        {
            broadcast use vstd::prelude::Seq::lemma_flatten_push;

            let file = files[i].duplicate();
            if name_is_cnmt_nca(file.name.as_slice()) {
                let data = match secure.read_to_vec(&file) {
                    Ok(d) => d,
                    Err(e) => {
                        return Err(e);
                    },
                };
                let ghost gdata = data@;
                match crate::formats::nca::collect_cnmts_from_bytes(
                    data,
                    keyset,
                    title_keyset,
                    &mut cnmts,
                ) {
                    Ok(()) => {
                        proof {
                            let ts = choose|ts: Seq<Cnmt>|
                                #[trigger] crate::formats::nca::nca_meta_tables(
                                    keyset.key_map(),
                                    gdata,
                                    ts,
                                ) && cnmts@ == groups.flatten() + ts;
                            crate::formats::nca::lemma_hfs0_groups_push(
                                secure.files_spec(),
                                win,
                                keyset.key_map(),
                                groups,
                                ts,
                                i as int,
                            );
                            groups = groups.push(ts);
                            assert(cnmts@ =~= groups.flatten());
                        }
                    },
                    Err(e) => {
                        return Err(e);
                    },
                }
            } else if name_is_cnmt(file.name.as_slice()) {
                let data = match secure.read_to_vec(&file) {
                    Ok(d) => d,
                    Err(e) => {
                        return Err(e);
                    },
                };
                match Cnmt::parse(&data) {
                    Ok(c) => {
                        proof {
                            crate::formats::cnmt::lemma_all_parsed_push(cnmts@, c, data@);
                            crate::formats::nca::lemma_hfs0_groups_push(
                                secure.files_spec(),
                                win,
                                keyset.key_map(),
                                groups,
                                seq![c],
                                i as int,
                            );
                            groups = groups.push(seq![c]);
                        }
                        cnmts.push(c);
                        proof {
                            assert(cnmts@ =~= groups.flatten());
                        }
                    },
                    Err(e) => {
                        return Err(e);
                    },
                }
            } else {
                proof {
                    crate::formats::nca::lemma_hfs0_groups_push(
                        secure.files_spec(),
                        win,
                        keyset.key_map(),
                        groups,
                        Seq::<Cnmt>::empty(),
                        i as int,
                    );
                    groups = groups.push(Seq::<Cnmt>::empty());
                    assert(cnmts@ =~= groups.flatten());
                }
            }
            i = i + 1;
        }
        proof {
            assert(crate::formats::nca::hfs0_meta_tables_of_entries(
                secure.files_spec(),
                win,
                keyset.key_map(),
                cnmts@,
            ));
            assert(hfs0_lists(
                entry_window(self.src_bytes(), self.root_offset_spec(), rf[ri]),
                sfiles,
            ));
            assert(crate::formats::nca::hfs0_meta_tables_of_entries(
                sfiles,
                entry_window(self.src_bytes(), self.root_offset_spec(), rf[ri]),
                keyset.key_map(),
                cnmts@,
            ));
        }
        Ok(cnmts)
    }

    /// The package id, standing in for a title id.
    pub fn title_id(&self) -> (r: Result<u64, Error>)
        ensures
            match r {
                Ok(v) => v == self.header_spec().package_id,
                Err(_) => false,
            },
    {
        Ok(self.header.package_id)
    }
}

/// Reads 4 bytes at 0x100 past `base` and compares them with `HEAD`.
fn probe_head<S: Source>(reader: &mut S, base: u64) -> (r: Result<bool, Error>)
    requires
        old(reader).wf(),
        base + 0x104 <= u64::MAX,
    ensures
        final(reader).wf(),
        final(reader).bytes() == old(reader).bytes(),
        match r {
            Ok(b) => b == xci_head_at(old(reader).bytes(), base as int),
            Err(e) => e == Error::Io,
        },
{
    let ghost s = reader.bytes();
    let buf = match reader.read_at(base + 0x100, 4) {
        Ok(v) => v,
        Err(e) => {
            return Err(e);
        },
    };
    if buf.len() < 4 {
        proof {
            assert(!xci_head_at(s, base as int));
        }
        return Ok(false);
    }
    proof {
        assert(buf@ =~= s.subrange(base + 0x100, base + 0x104));
        crate::bytes::lemma_le_val_subrange(s, base + 0x100, base + 0x104, 0, 4);
    }
    let magic = crate::bytes::read_magic(&buf, 0);
    Ok(magic == 0x44414548)
}

/// Reads the gamecard certificate at `at`, if its 0x1F4 bytes are
/// there and carry the `CERT` magic; anything else reads as none.
fn read_certificate<S: Source>(reader: &mut S, at: u64) -> (r: Option<GamecardCertificate>)
    requires
        old(reader).wf(),
    ensures
        final(reader).wf(),
        final(reader).bytes() == old(reader).bytes(),
{
    let buf = match reader.read_at(at, 0x1F4) {
        Ok(v) => v,
        Err(_) => {
            return None;
        },
    };
    if buf.len() < 0x1F4 {
        return None;
    }
    let magic = crate::bytes::read_magic(&buf, 0x100);
    if magic != 0x54524543 {
        return None;
    }
    Some(
        GamecardCertificate {
            signature: crate::bytes::copy_range(&buf, 0, 0x100),
            unknown1: crate::bytes::copy_range(&buf, 0x104, 0x114),
            unknown2: crate::bytes::copy_range(&buf, 0x114, 0x11E),
            data: crate::bytes::copy_range(&buf, 0x11E, 0x1F4),
        },
    )
}

/// A trimmed image reads as its full counterpart past the key area:
/// dropping the 0x1000-byte preamble moves the header probe from
/// 0x1100 to 0x100, every multi-byte field of the trimmed image equals
/// the full image's at the shifted offset, and every window of bytes
/// -- the root archive and its partitions among them -- is the same
/// sequence. A parse of the trimmed image therefore yields the same
/// header fields and the same partitions, shifted by the preamble.
pub proof fn lemma_trimmed_xci_matches_full(s: Seq<u8>)
    requires
        s.len() >= 0x1000,
    ensures
        xci_head_at(s.skip(0x1000), 0) == xci_head_at(s, 0x1000),
        forall|off: int, n: nat|
            0 <= off && off + n <= s.len() - 0x1000 ==> #[trigger] le_val(s.skip(0x1000), off, n)
                == le_val(s, 0x1000 + off, n),
        forall|a: int, b: int|
            0 <= a <= b <= s.len() - 0x1000 ==> #[trigger] s.skip(0x1000).subrange(a, b)
                == s.subrange(0x1000 + a, 0x1000 + b),
{
    let t = s.skip(0x1000);
    assert forall|off: int, n: nat| 0 <= off && off + n <= s.len() - 0x1000 implies #[trigger]
    le_val(t, off, n) == le_val(s, 0x1000 + off, n) by {
        assert(t =~= s.subrange(0x1000, s.len() as int));
        crate::bytes::lemma_le_val_subrange(s, 0x1000, s.len() as int, off, n);
    }
    assert forall|a: int, b: int| 0 <= a <= b <= s.len() - 0x1000 implies #[trigger] t.subrange(
        a,
        b,
    ) == s.subrange(0x1000 + a, 0x1000 + b) by {
        assert(t.subrange(a, b) =~= s.subrange(0x1000 + a, 0x1000 + b));
    }
    if xci_head_at(t, 0) || xci_head_at(s, 0x1000) {
        assert(le_val(t, 0x100, 4) == le_val(s, 0x1100, 4));
    }
}

} // verus!
