use vstd::prelude::*;
use vstd::string::StringSliceAdditionalSpecFns;

use crate::bytes::le_val;
use crate::bytes::read_le;
use crate::crypto::{
    ecb_aes128_decrypt, xts128_decrypt_area, xts128_encrypt_area, xts128_nintendo_decrypt,
    xts128_nintendo_encrypt,
};
use crate::error::Error;
use crate::formats::keyset::{clone_bytes, header_key_name, Keyset};
use crate::formats::cnmt::{name_is_cnmt, Cnmt};
use crate::formats::pfs0::Pfs0;
use crate::io::VecSource;
use crate::formats::romfs::RomFs;
use crate::formats::title_keyset::TitleKeys;
use crate::io::{ctr_stream_view, read_range, Aes128CtrReader, Source, SubFile};

verus! {

/// The media-unit size: NCA and gamecard offsets count in these blocks.
pub open spec fn block_size_spec() -> int {
    0x200
}

/// Turns a block count into a byte offset.
pub fn get_block_offset(offset: u64) -> (r: u64)
    requires
        0x200 * offset <= u64::MAX,
    ensures
        r == 0x200 * offset,
{
    0x200 * offset
}

/// An archive's version character, the fourth byte of its magic.
#[derive(Debug, Clone, Copy, PartialEq, Eq, Structural)]
pub struct NcaVersion(pub u8);

/// The first decimal digit of a number.
pub open spec fn first_decimal_digit(v: int) -> int
    decreases v,
{
    if v < 10 {
        v
    } else {
        first_decimal_digit(v / 10)
    }
}

impl NcaVersion {
    /// The version for a character.
    pub fn from_char(c: char) -> (r: NcaVersion)
        ensures
            r.0 == c as u8,
    {
        NcaVersion(c as u8)
    }

    /// The version as a character.
    pub fn as_char(&self) -> (r: char)
        ensures
            r == self.0 as char,
    {
        self.0 as char
    }

    /// The version for a raw byte.
    pub fn from_u8(value: u8) -> (r: NcaVersion)
        ensures
            r.0 == value,
    {
        NcaVersion(value)
    }

    /// The version whose character is the first decimal digit of a
    /// number, as the number would be written out.
    pub fn from_num(value: usize) -> (r: Result<NcaVersion, Error>)
        ensures
            match r {
                Ok(v) => v.0 == 0x30 + first_decimal_digit(value as int),
                Err(_) => false,
            },
    {
        let mut x = value;
        while x >= 10
            invariant
                first_decimal_digit(x as int) == first_decimal_digit(value as int),
            decreases x,
        {
            x = x / 10;
        }
        Ok(NcaVersion(0x30 + x as u8))
    }
}

/// Where the content came from.
#[derive(Debug, Clone, Copy, PartialEq, Eq, Structural)]
pub enum DistributionType {
    Download,
    GameCard,
}

/// The kind of content the archive holds.
#[derive(Debug, Clone, Copy, PartialEq, Eq, Structural)]
pub enum ContentType {
    Program,
    Meta,
    Control,
    Manual,
    Data,
    PublicData,
}

/// Which family of key-area keys decrypts the key area.
#[derive(Debug, Clone, Copy, PartialEq, Eq, Structural)]
pub enum KeyAreaEncryptionKeyIndex {
    Application,
    Ocean,
    System,
}

/// The filesystem kind of a section.
#[derive(Debug, Clone, Copy, PartialEq, Eq, Structural)]
pub enum FsType {
    RomFs,
    PartitionFs,
}

/// How a section's contents are hashed.
#[derive(Debug, Clone, Copy, PartialEq, Eq, Structural)]
pub enum HashType {
    Auto,
    NoHash,
    HierarchicalSha256Hash,
    HierarchicalIntegrityHash,
    AutoSha3,
    HierarchicalSha3256Hash,
    HierarchicalIntegritySha3Hash,
}

/// How a section's contents are encrypted.
#[derive(Debug, Clone, Copy, PartialEq, Eq, Structural)]
pub enum EncryptionType {
    Auto,
    NoCrypt,
    AesXts,
    AesCtr,
    AesCtrEx,
    AesCtrSkipLayerHash,
    AesCtrExSkipLayerHash,
}

/// How a section's metadata is hashed.
#[derive(Debug, Clone, Copy, PartialEq, Eq, Structural)]
pub enum MetaDataHashType {
    NoHash,
    HierarchicalIntegrity,
}

pub open spec fn distribution_of(v: u8) -> Option<DistributionType> {
    if v == 0 {
        Some(DistributionType::Download)
    } else if v == 1 {
        Some(DistributionType::GameCard)
    } else {
        None
    }
}

pub open spec fn content_type_of(v: u8) -> Option<ContentType> {
    if v == 0 {
        Some(ContentType::Program)
    } else if v == 1 {
        Some(ContentType::Meta)
    } else if v == 2 {
        Some(ContentType::Control)
    } else if v == 3 {
        Some(ContentType::Manual)
    } else if v == 4 {
        Some(ContentType::Data)
    } else if v == 5 {
        Some(ContentType::PublicData)
    } else {
        None
    }
}

pub open spec fn key_index_of(v: u8) -> Option<KeyAreaEncryptionKeyIndex> {
    if v == 0 {
        Some(KeyAreaEncryptionKeyIndex::Application)
    } else if v == 1 {
        Some(KeyAreaEncryptionKeyIndex::Ocean)
    } else if v == 2 {
        Some(KeyAreaEncryptionKeyIndex::System)
    } else {
        None
    }
}

pub open spec fn fs_type_of(v: u8) -> Option<FsType> {
    if v == 0 {
        Some(FsType::RomFs)
    } else if v == 1 {
        Some(FsType::PartitionFs)
    } else {
        None
    }
}

pub open spec fn hash_type_of(v: u8) -> Option<HashType> {
    if v == 0 {
        Some(HashType::Auto)
    } else if v == 1 {
        Some(HashType::NoHash)
    } else if v == 2 {
        Some(HashType::HierarchicalSha256Hash)
    } else if v == 3 {
        Some(HashType::HierarchicalIntegrityHash)
    } else if v == 4 {
        Some(HashType::AutoSha3)
    } else if v == 5 {
        Some(HashType::HierarchicalSha3256Hash)
    } else if v == 6 {
        Some(HashType::HierarchicalIntegritySha3Hash)
    } else {
        None
    }
}

pub open spec fn encryption_type_of(v: u8) -> Option<EncryptionType> {
    if v == 0 {
        Some(EncryptionType::Auto)
    } else if v == 1 {
        Some(EncryptionType::NoCrypt)
    } else if v == 2 {
        Some(EncryptionType::AesXts)
    } else if v == 3 {
        Some(EncryptionType::AesCtr)
    } else if v == 4 {
        Some(EncryptionType::AesCtrEx)
    } else if v == 5 {
        Some(EncryptionType::AesCtrSkipLayerHash)
    } else if v == 6 {
        Some(EncryptionType::AesCtrExSkipLayerHash)
    } else {
        None
    }
}

pub open spec fn metadata_hash_type_of(v: u8) -> Option<MetaDataHashType> {
    if v == 0 {
        Some(MetaDataHashType::NoHash)
    } else if v == 1 {
        Some(MetaDataHashType::HierarchicalIntegrity)
    } else {
        None
    }
}

/// One of the four filesystem entries: a section's bounds in media
/// units.
#[derive(Debug, Clone, Copy, PartialEq, Eq, Structural)]
pub struct FsEntry {
    pub start_offset: u32,
    pub end_offset: u32,
}

impl FsEntry {
    /// An entry with both bounds zero marks no section.
    pub open spec fn is_valid(&self) -> bool {
        self.start_offset != 0 || self.end_offset != 0
    }
}

/// The decrypted key area: an XTS key pair and a counter-mode key.
#[derive(Debug, Clone)]
pub struct KeyArea {
    pub aes_xts_key: Vec<u8>,
    pub aes_ctr_key: Vec<u8>,
}

/// One payload region of a hash layer.
#[derive(Debug, Clone, Copy, PartialEq, Eq, Structural)]
pub struct LayerRegion {
    pub offset: u64,
    pub size: u64,
}

/// The hash data of a section hashed with layered SHA-256: the first
/// layer region locates the filesystem payload.
#[derive(Debug, Clone)]
pub struct HierarchicalSha256Data {
    pub master_hash: Vec<u8>,
    pub hash_block_size: u32,
    pub layer_count: u32,
    pub hash_table_region: LayerRegion,
    pub layer_regions: Vec<LayerRegion>,
}

/// One level record of an integrity tree.
#[derive(Debug, Clone, Copy, PartialEq, Eq, Structural)]
pub struct HierarchicalIntegrityLevelInfo {
    pub logical_offset: u64,
    pub size: u64,
    pub block_size_log2: u32,
}

/// The level table of an integrity tree: the last level locates the
/// filesystem payload.
#[derive(Debug, Clone)]
pub struct InfoLevelHash {
    pub max_layers: u32,
    pub levels: Vec<HierarchicalIntegrityLevelInfo>,
    pub signature_salt: Vec<u8>,
}

impl InfoLevelHash {
    /// The declared number of layers.
    pub fn get_layer_count(&self) -> (r: u32)
        ensures
            r == self.max_layers,
    {
        self.max_layers
    }

    /// The block size of a level, two to its stored logarithm; nothing
    /// for a level index out of range.
    pub fn get_block_size(&self, layer_index: usize) -> (r: Option<u32>)
        requires
            forall|i: int|
                0 <= i < self.levels@.len() ==> (#[trigger] self.levels@[i]).block_size_log2 < 32,
        ensures
            match r {
                Some(v) => layer_index < self.levels@.len() && v == (1u32 << (
                self.levels@[layer_index as int].block_size_log2 as u32)),
                None => layer_index >= self.levels@.len(),
            },
    {
        if layer_index < self.levels.len() {
            let lg = self.levels[layer_index].block_size_log2;
            Some(1u32 << lg)
        } else {
            None
        }
    }

    /// The last level, if any level exists.
    pub fn get_last_layer(&self) -> (r: Option<&HierarchicalIntegrityLevelInfo>)
        ensures
            match r {
                Some(l) => self.levels@.len() > 0 && *l == self.levels@[self.levels@.len() - 1],
                None => self.levels@.len() == 0,
            },
    {
        if self.levels.len() > 0 {
            Some(&self.levels[self.levels.len() - 1])
        } else {
            None
        }
    }
}

/// The integrity-tree hash data.
#[derive(Debug, Clone)]
pub struct IntegrityMetaInfo {
    pub version: u32,
    pub master_hash_size: u32,
    pub info_level_hash: InfoLevelHash,
}

/// A section's hash data, one of two shapes chosen by its hash type.
#[derive(Debug, Clone)]
pub enum HashData {
    HierarchicalSha256(HierarchicalSha256Data),
    HierarchicalIntegrity(IntegrityMetaInfo),
}

/// One section's 0x200-byte filesystem header.
#[derive(Debug, Clone)]
pub struct FsHeader {
    pub version: u16,
    pub fs_type: FsType,
    pub hash_type: HashType,
    pub encryption_type: EncryptionType,
    pub metadata_hash_type: MetaDataHashType,
    pub hash_data: HashData,
    pub patch_info: Vec<u8>,
    pub ctr: u64,
    pub sparse_info: Vec<u8>,
    pub compression_info: Vec<u8>,
    pub metadata_hashdata_info: Vec<u8>,
}

/// What a section record's bytes must hold to parse: recognized type
/// bytes, one of the two supported hash shapes, and the integrity
/// magic where that shape asks for it.
pub open spec fn fs_header_parse_ok(s: Seq<u8>, base: int) -> bool {
    &&& fs_type_of(s[base + 2]).is_some()
    &&& hash_type_of(s[base + 3]).is_some()
    &&& encryption_type_of(s[base + 4]).is_some()
    &&& metadata_hash_type_of(s[base + 5]).is_some()
    &&& (hash_type_of(s[base + 3]).unwrap() is HierarchicalSha256Hash || hash_type_of(
        s[base + 3],
    ).unwrap() is HierarchicalIntegrityHash)
    &&& (hash_type_of(s[base + 3]).unwrap() is HierarchicalIntegrityHash ==> le_val(
        s,
        base + 8,
        4,
    ) == 0x43465649)
}

/// The parsed hash data has its full region table: four layer regions
/// or six integrity levels.
pub open spec fn fs_header_shape_ok(h: FsHeader) -> bool {
    match h.hash_data {
        HashData::HierarchicalSha256(d) => d.layer_regions@.len() == 4,
        HashData::HierarchicalIntegrity(d) => d.info_level_hash.levels@.len() == 6,
    }
}

/// True when `h` is the parse of the 0x200-byte record at `base` in the
/// decrypted window `s`.
pub open spec fn fs_header_matches(h: FsHeader, s: Seq<u8>, base: int) -> bool {
    &&& h.version == le_val(s, base, 2)
    &&& Some(h.fs_type) == fs_type_of(s[base + 2])
    &&& Some(h.hash_type) == hash_type_of(s[base + 3])
    &&& Some(h.encryption_type) == encryption_type_of(s[base + 4])
    &&& Some(h.metadata_hash_type) == metadata_hash_type_of(s[base + 5])
    &&& (h.hash_type is HierarchicalSha256Hash ==> h.hash_data is HierarchicalSha256)
    &&& (h.hash_type is HierarchicalIntegrityHash ==> h.hash_data is HierarchicalIntegrity)
    &&& match h.hash_data {
        HashData::HierarchicalSha256(d) => {
            &&& d.master_hash@ == s.subrange(base + 8, base + 40)
            &&& d.hash_block_size == le_val(s, base + 40, 4)
            &&& d.layer_count == le_val(s, base + 44, 4)
            &&& d.hash_table_region.offset == le_val(s, base + 48, 8)
            &&& d.hash_table_region.size == le_val(s, base + 56, 8)
            &&& d.layer_regions@.len() == 4
            &&& forall|i: int|
                0 <= i < 4 ==> (#[trigger] d.layer_regions@[i]).offset == le_val(
                    s,
                    base + 64 + 16 * i,
                    8,
                ) && d.layer_regions@[i].size == le_val(s, base + 72 + 16 * i, 8)
        },
        HashData::HierarchicalIntegrity(d) => {
            &&& le_val(s, base + 8, 4) == 0x43465649
            &&& d.version == le_val(s, base + 12, 4)
            &&& d.master_hash_size == le_val(s, base + 16, 4)
            &&& d.info_level_hash.max_layers == le_val(s, base + 20, 4)
            &&& d.info_level_hash.levels@.len() == 6
            &&& forall|i: int|
                0 <= i < 6 ==> (#[trigger] d.info_level_hash.levels@[i]).logical_offset == le_val(
                    s,
                    base + 24 + 24 * i,
                    8,
                ) && d.info_level_hash.levels@[i].size == le_val(s, base + 32 + 24 * i, 8)
                    && d.info_level_hash.levels@[i].block_size_log2 == le_val(
                    s,
                    base + 40 + 24 * i,
                    4,
                )
            &&& d.info_level_hash.signature_salt@ == s.subrange(base + 168, base + 200)
        },
    }
    &&& h.patch_info@ == s.subrange(base + 0x100, base + 0x140)
    &&& h.ctr == le_val(s, base + 0x140, 8)
    &&& h.sparse_info@ == s.subrange(base + 0x148, base + 0x178)
    &&& h.compression_info@ == s.subrange(base + 0x178, base + 0x1A0)
    &&& h.metadata_hashdata_info@ == s.subrange(base + 0x1A0, base + 0x1D0)
}

/// Parses one section header from the decrypted window.
fn parse_fs_header(win: &Vec<u8>, base: usize) -> (r: Result<FsHeader, Error>)
    requires
        base + 0x200 <= win@.len(),
    ensures
        match r {
            Ok(h) => fs_header_matches(h, win@, base as int) && fs_header_parse_ok(
                win@,
                base as int,
            ) && fs_header_shape_ok(h),
            Err(e) => e == Error::BinaryParser && !fs_header_parse_ok(win@, base as int),
        },
{
    let wlen = win.len();
    proof {
        reveal_with_fuel(crate::bytes::pow256, 9);
        crate::bytes::lemma_le_val_bound(win@, base as int, 2);
        crate::bytes::lemma_le_val_bound(win@, base + 40, 4);
        crate::bytes::lemma_le_val_bound(win@, base + 44, 4);
        crate::bytes::lemma_le_val_bound(win@, base + 12, 4);
        crate::bytes::lemma_le_val_bound(win@, base + 16, 4);
        crate::bytes::lemma_le_val_bound(win@, base + 20, 4);
    }
    let version = read_le(win, base, 2) as u16;
    let fs_type = match fs_type_u8(win[base + 2]) {
        Some(t) => t,
        None => {
            return Err(Error::BinaryParser);
        },
    };
    let hash_type = match hash_type_u8(win[base + 3]) {
        Some(t) => t,
        None => {
            return Err(Error::BinaryParser);
        },
    };
    let encryption_type = match encryption_type_u8(win[base + 4]) {
        Some(t) => t,
        None => {
            return Err(Error::BinaryParser);
        },
    };
    let metadata_hash_type = match metadata_hash_type_u8(win[base + 5]) {
        Some(t) => t,
        None => {
            return Err(Error::BinaryParser);
        },
    };
    let hash_data = match hash_type {
        HashType::HierarchicalSha256Hash => {
            let master_hash = crate::bytes::copy_range(win, base + 8, base + 40);
            let hash_block_size = read_le(win, base + 40, 4) as u32;
            let layer_count = read_le(win, base + 44, 4) as u32;
            let hash_table_region = LayerRegion {
                offset: read_le(win, base + 48, 8),
                size: read_le(win, base + 56, 8),
            };
            let mut layer_regions: Vec<LayerRegion> = Vec::new();
            let mut i: usize = 0;
            while i < 4
                invariant
                    base + 0x200 <= win@.len(),
                    win@.len() == wlen,
                    i <= 4,
                    layer_regions@.len() == i,
                    forall|j: int|
                        0 <= j < i ==> (#[trigger] layer_regions@[j]).offset == le_val(
                            win@,
                            base + 64 + 16 * j,
                            8,
                        ) && layer_regions@[j].size == le_val(win@, base + 72 + 16 * j, 8),
                decreases 4 - i,
            {
                layer_regions.push(
                    LayerRegion {
                        offset: read_le(win, base + 64 + 16 * i, 8),
                        size: read_le(win, base + 72 + 16 * i, 8),
                    },
                );
                i = i + 1;
            }
            HashData::HierarchicalSha256(
                HierarchicalSha256Data {
                    master_hash,
                    hash_block_size,
                    layer_count,
                    hash_table_region,
                    layer_regions,
                },
            )
        },
        HashType::HierarchicalIntegrityHash => {
            let magic = crate::bytes::read_magic(win, base + 8);
            if magic != 0x43465649 {
                return Err(Error::BinaryParser);
            }
            let version_f = read_le(win, base + 12, 4) as u32;
            let master_hash_size = read_le(win, base + 16, 4) as u32;
            let max_layers = read_le(win, base + 20, 4) as u32;
            let mut levels: Vec<HierarchicalIntegrityLevelInfo> = Vec::new();
            let mut i: usize = 0;
            while i < 6
                invariant
                    base + 0x200 <= win@.len(),
                    win@.len() == wlen,
                    i <= 6,
                    levels@.len() == i,
                    forall|j: int|
                        0 <= j < i ==> (#[trigger] levels@[j]).logical_offset == le_val(
                            win@,
                            base + 24 + 24 * j,
                            8,
                        ) && levels@[j].size == le_val(win@, base + 32 + 24 * j, 8)
                            && levels@[j].block_size_log2 == le_val(win@, base + 40 + 24 * j, 4),
                decreases 6 - i,
            {
                proof {
                    reveal_with_fuel(crate::bytes::pow256, 5);
                    crate::bytes::lemma_le_val_bound(win@, base + 40 + 24 * (i as int), 4);
                }
                levels.push(
                    HierarchicalIntegrityLevelInfo {
                        logical_offset: read_le(win, base + 24 + 24 * i, 8),
                        size: read_le(win, base + 32 + 24 * i, 8),
                        block_size_log2: read_le(win, base + 40 + 24 * i, 4) as u32,
                    },
                );
                i = i + 1;
            }
            let signature_salt = crate::bytes::copy_range(win, base + 168, base + 200);
            HashData::HierarchicalIntegrity(
                IntegrityMetaInfo {
                    version: version_f,
                    master_hash_size,
                    info_level_hash: InfoLevelHash { max_layers, levels, signature_salt },
                },
            )
        },
        _ => {
            proof {
                assert(!fs_header_parse_ok(win@, base as int));
            }
            return Err(Error::BinaryParser);
        },
    };
    Ok(
        FsHeader {
            version,
            fs_type,
            hash_type,
            encryption_type,
            metadata_hash_type,
            hash_data,
            patch_info: crate::bytes::copy_range(win, base + 0x100, base + 0x140),
            ctr: read_le(win, base + 0x140, 8),
            sparse_info: crate::bytes::copy_range(win, base + 0x148, base + 0x178),
            compression_info: crate::bytes::copy_range(win, base + 0x178, base + 0x1A0),
            metadata_hashdata_info: crate::bytes::copy_range(win, base + 0x1A0, base + 0x1D0),
        },
    )
}

fn fs_type_u8(v: u8) -> (r: Option<FsType>)
    ensures
        r == fs_type_of(v),
{
    match v {
        0 => Some(FsType::RomFs),
        1 => Some(FsType::PartitionFs),
        _ => None,
    }
}

fn hash_type_u8(v: u8) -> (r: Option<HashType>)
    ensures
        r == hash_type_of(v),
{
    match v {
        0 => Some(HashType::Auto),
        1 => Some(HashType::NoHash),
        2 => Some(HashType::HierarchicalSha256Hash),
        3 => Some(HashType::HierarchicalIntegrityHash),
        4 => Some(HashType::AutoSha3),
        5 => Some(HashType::HierarchicalSha3256Hash),
        6 => Some(HashType::HierarchicalIntegritySha3Hash),
        _ => None,
    }
}

fn encryption_type_u8(v: u8) -> (r: Option<EncryptionType>)
    ensures
        r == encryption_type_of(v),
{
    match v {
        0 => Some(EncryptionType::Auto),
        1 => Some(EncryptionType::NoCrypt),
        2 => Some(EncryptionType::AesXts),
        3 => Some(EncryptionType::AesCtr),
        4 => Some(EncryptionType::AesCtrEx),
        5 => Some(EncryptionType::AesCtrSkipLayerHash),
        6 => Some(EncryptionType::AesCtrExSkipLayerHash),
        _ => None,
    }
}

fn metadata_hash_type_u8(v: u8) -> (r: Option<MetaDataHashType>)
    ensures
        r == metadata_hash_type_of(v),
{
    match v {
        0 => Some(MetaDataHashType::NoHash),
        1 => Some(MetaDataHashType::HierarchicalIntegrity),
        _ => None,
    }
}

/// The archive's 0x340-byte main header, parsed after decryption.
#[derive(Debug, Clone)]
pub struct NcaHeader {
    pub header_sig: Vec<u8>,
    pub header_key_sig: Vec<u8>,
    pub nca_version: NcaVersion,
    pub distribution: DistributionType,
    pub content_type: ContentType,
    pub key_generation_old: u8,
    pub key_area_appkey_index: KeyAreaEncryptionKeyIndex,
    pub content_size: u64,
    pub program_id: u64,
    pub content_index: u32,
    pub sdk_version: u32,
    pub key_generation: u8,
    pub signature_key_generation: u8,
    pub rights_id: Vec<u8>,
    pub fs_entries: Vec<FsEntry>,
    pub sha256_hashes: Vec<Vec<u8>>,
    pub encrypted_keys: Vec<u8>,
}

/// The effective key generation: the larger of the two stored
/// generations, less one, except that zero stays zero.
pub open spec fn effective_key_generation(old_gen: u8, new_gen: u8) -> int {
    let base = if old_gen < new_gen {
        new_gen as int
    } else {
        old_gen as int
    };
    if base > 0 {
        base - 1
    } else {
        base
    }
}

/// True when `h` is the parse of the first 0x340 bytes of the
/// decrypted window `s`.
pub open spec fn nca_header_matches(h: NcaHeader, s: Seq<u8>) -> bool {
    &&& s.len() >= 0x340
    &&& le_val(s, 0x200, 3) == 0x41434E
    &&& h.header_sig@ == s.subrange(0, 0x100)
    &&& h.header_key_sig@ == s.subrange(0x100, 0x200)
    &&& h.nca_version.0 == s[0x203]
    &&& Some(h.distribution) == distribution_of(s[0x204])
    &&& Some(h.content_type) == content_type_of(s[0x205])
    &&& h.key_generation_old == s[0x206]
    &&& Some(h.key_area_appkey_index) == key_index_of(s[0x207])
    &&& h.content_size == le_val(s, 0x208, 8)
    &&& h.program_id == le_val(s, 0x210, 8)
    &&& h.content_index == le_val(s, 0x218, 4)
    &&& h.sdk_version == le_val(s, 0x21C, 4)
    &&& h.key_generation == s[0x220]
    &&& h.signature_key_generation == s[0x221]
    &&& h.rights_id@ == s.subrange(0x230, 0x240)
    &&& h.fs_entries@.len() == 4
    &&& forall|i: int|
        0 <= i < 4 ==> (#[trigger] h.fs_entries@[i]).start_offset == le_val(s, 0x240 + 0x10 * i, 4)
            && h.fs_entries@[i].end_offset == le_val(s, 0x244 + 0x10 * i, 4)
    &&& h.sha256_hashes@.len() == 4
    &&& forall|i: int|
        0 <= i < 4 ==> (#[trigger] h.sha256_hashes@[i])@ == s.subrange(
            0x280 + 0x20 * i,
            0x2A0 + 0x20 * i,
        )
    &&& h.encrypted_keys@ == s.subrange(0x300, 0x340)
}

/// What a decrypted window must hold for the header to parse: the
/// `NCA` magic and recognized type bytes.
pub open spec fn nca_header_parse_ok(s: Seq<u8>) -> bool {
    &&& s.len() >= 0x340
    &&& le_val(s, 0x200, 3) == 0x41434E
    &&& distribution_of(s[0x204]).is_some()
    &&& content_type_of(s[0x205]).is_some()
    &&& key_index_of(s[0x207]).is_some()
}

impl NcaHeader {
    /// Parses an already-decrypted header from its first 0x340 bytes.
    /// The three magic bytes must read `NCA`; the fourth is kept as the
    /// version character.
    pub fn from_bytes(bytes: &Vec<u8>) -> (r: Result<NcaHeader, Error>)
        ensures
            match r {
                Ok(h) => nca_header_matches(h, bytes@) && nca_header_parse_ok(bytes@),
                Err(e) => {
                    ||| (e == Error::BinaryParser && !nca_header_parse_ok(bytes@) && (bytes@.len()
                        < 0x340 || le_val(bytes@, 0x200, 3) == 0x41434E))
                    ||| (e matches Error::InvalidFormat { expected_magic, actual_magic }
                        && bytes@.len() >= 0x340 && expected_magic == 0x41434E && actual_magic
                        == le_val(bytes@, 0x200, 3) && actual_magic != 0x41434E)
                },
            },
    {
        let ghost s = bytes@;
        if bytes.len() < 0x340 {
            return Err(Error::BinaryParser);
        }
        proof {
            reveal_with_fuel(crate::bytes::pow256, 9);
            crate::bytes::lemma_le_val_bound(s, 0x200, 3);
            crate::bytes::lemma_le_val_bound(s, 0x218, 4);
            crate::bytes::lemma_le_val_bound(s, 0x21C, 4);
        }
        let magic = read_le(bytes, 0x200, 3) as u32;
        if magic != 0x41434E {
            return Err(Error::InvalidFormat { expected_magic: 0x41434E, actual_magic: magic });
        }
        let distribution = match distribution_u8(bytes[0x204]) {
            Some(d) => d,
            None => {
                return Err(Error::BinaryParser);
            },
        };
        let content_type = match content_type_u8(bytes[0x205]) {
            Some(c) => c,
            None => {
                return Err(Error::BinaryParser);
            },
        };
        let key_area_appkey_index = match key_index_u8(bytes[0x207]) {
            Some(k) => k,
            None => {
                return Err(Error::BinaryParser);
            },
        };
        let mut fs_entries: Vec<FsEntry> = Vec::new();
        let mut i: usize = 0;
        while i < 4
            invariant
                s == bytes@,
                s.len() >= 0x340,
                i <= 4,
                fs_entries@.len() == i,
                forall|j: int|
                    0 <= j < i ==> (#[trigger] fs_entries@[j]).start_offset == le_val(
                        s,
                        0x240 + 0x10 * j,
                        4,
                    ) && fs_entries@[j].end_offset == le_val(s, 0x244 + 0x10 * j, 4),
            decreases 4 - i,
        {
            proof {
                reveal_with_fuel(crate::bytes::pow256, 5);
                crate::bytes::lemma_le_val_bound(s, 0x240 + 0x10 * (i as int), 4);
                crate::bytes::lemma_le_val_bound(s, 0x244 + 0x10 * (i as int), 4);
            }
            fs_entries.push(
                FsEntry {
                    start_offset: read_le(bytes, 0x240 + 0x10 * i, 4) as u32,
                    end_offset: read_le(bytes, 0x244 + 0x10 * i, 4) as u32,
                },
            );
            i = i + 1;
        }
        let mut sha256_hashes: Vec<Vec<u8>> = Vec::new();
        let mut k: usize = 0;
        while k < 4
            invariant
                s == bytes@,
                s.len() >= 0x340,
                k <= 4,
                sha256_hashes@.len() == k,
                forall|j: int|
                    0 <= j < k ==> (#[trigger] sha256_hashes@[j])@ == s.subrange(
                        0x280 + 0x20 * j,
                        0x2A0 + 0x20 * j,
                    ),
            decreases 4 - k,
        {
            sha256_hashes.push(crate::bytes::copy_range(bytes, 0x280 + 0x20 * k, 0x2A0 + 0x20 * k));
            k = k + 1;
        }
        Ok(
            NcaHeader {
                header_sig: crate::bytes::copy_range(bytes, 0, 0x100),
                header_key_sig: crate::bytes::copy_range(bytes, 0x100, 0x200),
                nca_version: NcaVersion(bytes[0x203]),
                distribution,
                content_type,
                key_generation_old: bytes[0x206],
                key_area_appkey_index,
                content_size: read_le(bytes, 0x208, 8),
                program_id: read_le(bytes, 0x210, 8),
                content_index: read_le(bytes, 0x218, 4) as u32,
                sdk_version: read_le(bytes, 0x21C, 4) as u32,
                key_generation: bytes[0x220],
                signature_key_generation: bytes[0x221],
                rights_id: crate::bytes::copy_range(bytes, 0x230, 0x240),
                fs_entries,
                sha256_hashes,
                encrypted_keys: crate::bytes::copy_range(bytes, 0x300, 0x340),
            },
        )
    }

    /// Reads 0x340 bytes from the start of an already-decrypted source
    /// and parses them as the main header.
    pub fn from_reader<S: Source>(reader: &mut S) -> (r: Result<NcaHeader, Error>)
        requires
            old(reader).wf(),
        ensures
            final(reader).wf(),
            final(reader).bytes() == old(reader).bytes(),
            match r {
                Ok(h) => nca_header_matches(h, old(reader).bytes().subrange(0, 0x340)),
                Err(e) => e == Error::Io || e == Error::BinaryParser || e matches
                    Error::InvalidFormat { .. },
            },
    {
        let buf = match reader.read_at(0, 0x340) {
            Ok(v) => v,
            Err(e) => {
                return Err(e);
            },
        };
        if buf.len() < 0x340 {
            return Err(Error::BinaryParser);
        }
        proof {
            assert(buf@ =~= old(reader).bytes().subrange(0, 0x340));
        }
        NcaHeader::from_bytes(&buf)
    }

    /// The effective key generation for key selection.
    pub fn get_key_generation(&self) -> (r: u8)
        ensures
            r as int == effective_key_generation(self.key_generation_old, self.key_generation),
    {
        let base = if self.key_generation_old < self.key_generation {
            self.key_generation
        } else {
            self.key_generation_old
        };
        if base > 0 {
            base - 1
        } else {
            base
        }
    }

    /// Whether the rights-id is all zero, meaning the key area itself
    /// carries the content keys.
    pub open spec fn rights_id_zero(&self) -> bool {
        all_zero(self.rights_id@)
    }
}

fn distribution_u8(v: u8) -> (r: Option<DistributionType>)
    ensures
        r == distribution_of(v),
{
    match v {
        0 => Some(DistributionType::Download),
        1 => Some(DistributionType::GameCard),
        _ => None,
    }
}

fn content_type_u8(v: u8) -> (r: Option<ContentType>)
    ensures
        r == content_type_of(v),
{
    match v {
        0 => Some(ContentType::Program),
        1 => Some(ContentType::Meta),
        2 => Some(ContentType::Control),
        3 => Some(ContentType::Manual),
        4 => Some(ContentType::Data),
        5 => Some(ContentType::PublicData),
        _ => None,
    }
}

fn key_index_u8(v: u8) -> (r: Option<KeyAreaEncryptionKeyIndex>)
    ensures
        r == key_index_of(v),
{
    match v {
        0 => Some(KeyAreaEncryptionKeyIndex::Application),
        1 => Some(KeyAreaEncryptionKeyIndex::Ocean),
        2 => Some(KeyAreaEncryptionKeyIndex::System),
        _ => None,
    }
}

/// Encrypts a buffer with the keyset's header key: XTS over AES-128
/// with the console's big-endian tweak. The keyset must hold the
/// 32-byte header key.
pub fn encrypt_with_header_key(
    data: &[u8],
    keyset: &Keyset,
    sector_size: usize,
    first_sector_index: u128,
) -> (r: Vec<u8>)
    requires
        keyset.wf(),
        keyset.key_map().contains_key(header_key_name()),
        keyset.key_map()[header_key_name()].len() == 32,
        sector_size >= 16,
        data@.len() as int % sector_size as int == 0,
        first_sector_index + data@.len() as int / (sector_size as int) <= u128::MAX,
    ensures
        r@ == xts128_nintendo_encrypt(
            keyset.key_map()[header_key_name()],
            sector_size as int,
            first_sector_index,
            data@,
        ),
        r@.len() == data@.len(),
        xts128_nintendo_decrypt(
            keyset.key_map()[header_key_name()],
            sector_size as int,
            first_sector_index,
            r@,
        ) == data@,
{
    let key = match keyset.header_key() {
        Some(k) => k,
        None => {
            proof {
                assert(false);
            }
            unreached()
        },
    };
    let mut buf = vstd::slice::slice_to_vec(data);
    xts128_encrypt_area(key.as_slice(), sector_size, first_sector_index, &mut buf);
    buf
}

/// Decrypts a buffer with the keyset's header key, inverting
/// `encrypt_with_header_key` sector for sector.
pub fn decrypt_with_header_key(
    data: &[u8],
    keyset: &Keyset,
    sector_size: usize,
    first_sector_index: u128,
) -> (r: Vec<u8>)
    requires
        keyset.wf(),
        keyset.key_map().contains_key(header_key_name()),
        keyset.key_map()[header_key_name()].len() == 32,
        sector_size >= 16,
        data@.len() as int % sector_size as int == 0,
        first_sector_index + data@.len() as int / (sector_size as int) <= u128::MAX,
    ensures
        r@ == xts128_nintendo_decrypt(
            keyset.key_map()[header_key_name()],
            sector_size as int,
            first_sector_index,
            data@,
        ),
        r@.len() == data@.len(),
        xts128_nintendo_encrypt(
            keyset.key_map()[header_key_name()],
            sector_size as int,
            first_sector_index,
            r@,
        ) == data@,
{
    let key = match keyset.header_key() {
        Some(k) => k,
        None => {
            proof {
                assert(false);
            }
            unreached()
        },
    };
    let mut buf = vstd::slice::slice_to_vec(data);
    xts128_decrypt_area(key.as_slice(), sector_size, first_sector_index, &mut buf);
    buf
}

/// A reader over one section's filesystem payload: a plain window for
/// an unencrypted section, a counter-mode decrypting view for an
/// encrypted one.
pub enum SectionReader<S: Source> {
    Plain(SubFile<S>),
    Ctr(Aes128CtrReader<S>),
}

impl<S: Source> Source for SectionReader<S> {
    closed spec fn bytes(&self) -> Seq<u8> {
        match self {
            SectionReader::Plain(f) => f.bytes(),
            SectionReader::Ctr(c) => c.bytes(),
        }
    }

    closed spec fn wf(&self) -> bool {
        match self {
            SectionReader::Plain(f) => f.wf(),
            SectionReader::Ctr(c) => c.wf(),
        }
    }

    proof fn lemma_len_bound(&self) {
        match self {
            SectionReader::Plain(f) => f.lemma_len_bound(),
            SectionReader::Ctr(c) => c.lemma_len_bound(),
        }
    }

    fn source_size(&self) -> (r: u64) {
        match self {
            SectionReader::Plain(f) => f.source_size(),
            SectionReader::Ctr(c) => c.source_size(),
        }
    }

    fn read_at(&mut self, off: u64, len: usize) -> (r: Result<Vec<u8>, Error>) {
        match self {
            SectionReader::Plain(f) => f.read_at(off, len),
            SectionReader::Ctr(c) => c.read_at(off, len),
        }
    }

    fn duplicate(&self) -> (r: Self) {
        match self {
            SectionReader::Plain(f) => SectionReader::Plain(f.duplicate()),
            SectionReader::Ctr(c) => SectionReader::Ctr(c.duplicate()),
        }
    }
}

/// An opened content archive: the decrypted and parsed header, the
/// parsed section headers of its non-empty sections, and whatever
/// content key could be resolved.
pub struct Nca<S: Source> {
    reader: S,
    /// The decrypted main header.
    pub header: NcaHeader,
    /// The section headers of the non-empty sections, in entry order.
    pub fs_headers: Vec<FsHeader>,
    dec_title_key: Option<Vec<u8>>,
    dec_key_area: KeyArea,
    key_status: bool,
}

/// The rights-id rendered as upper-case hexadecimal digit bytes, two
/// per byte, most significant nibble first: the form the title-key
/// database is keyed by.
pub open spec fn rights_id_hex(rid: Seq<u8>) -> Seq<u8> {
    Seq::new(
        2 * rid.len(),
        |i: int|
            if i % 2 == 0 {
                crate::bytes::hex_digit_upper(rid[i / 2] as int / 16)
            } else {
                crate::bytes::hex_digit_upper(rid[i / 2] as int % 16)
            },
    )
}

/// The upper-case hexadecimal rendering of bytes is exactly
/// `rights_id_hex` of them.
proof fn lemma_hex_upper_is_rights_hex(rid: Seq<u8>, hexbytes: Seq<u8>)
    requires
        hexbytes.len() == 2 * rid.len(),
        forall|i: int|
            0 <= i < rid.len() ==> hexbytes[2 * i] == crate::bytes::hex_digit_upper(
                #[trigger] rid[i] as int / 16,
            ) && hexbytes[2 * i + 1] == crate::bytes::hex_digit_upper(rid[i] as int % 16),
    ensures
        hexbytes == rights_id_hex(rid),
{
    assert forall|j: int| 0 <= j < hexbytes.len() implies hexbytes[j] == rights_id_hex(rid)[j] by {
        vstd::arithmetic::div_mod::lemma_fundamental_div_mod(j, 2);
        vstd::arithmetic::div_mod::lemma_mod_division_less_than_divisor(j, 2);
        let i = j / 2;
        if j % 2 == 0 {
            assert(j == 2 * i);
        } else {
            assert(j == 2 * i + 1);
        }
    }
    assert(hexbytes =~= rights_id_hex(rid));
}

/// A string built character-for-character from upper-case hexadecimal
/// digit bytes spells the same bytes, and raising its case changes
/// nothing.
proof fn lemma_rights_hex_string(rid: Seq<u8>, hexbytes: Seq<u8>, s: &str)
    requires
        hexbytes.len() == 2 * rid.len(),
        forall|i: int|
            0 <= i < rid.len() ==> hexbytes[2 * i] == crate::bytes::hex_digit_upper(
                #[trigger] rid[i] as int / 16,
            ) && hexbytes[2 * i + 1] == crate::bytes::hex_digit_upper(rid[i] as int % 16),
        forall|i: int| 0 <= i < hexbytes.len() ==> #[trigger] hexbytes[i] < 0x80,
        s@.len() == hexbytes.len(),
        forall|i: int| 0 <= i < s@.len() ==> s@[i] == ((#[trigger] hexbytes[i]) as char),
    ensures
        crate::formats::title_keyset::upper_spec(s.spec_bytes()) == rights_id_hex(rid),
{
    lemma_hex_upper_is_rights_hex(rid, hexbytes);
    assert(vstd::utf8::is_ascii_chars(s@)) by {
        assert forall|i: int| 0 <= i < s@.len() implies '\0' <= #[trigger] s@[i] <= '\u{7f}' by {
            assert(hexbytes[i] < 0x80);
        }
    }
    vstd::string::is_ascii_spec_bytes(s);
    assert(s.spec_bytes() =~= hexbytes) by {
        assert forall|i: int| 0 <= i < s.spec_bytes().len() implies s.spec_bytes()[i]
            == hexbytes[i] by {
            assert(s.spec_bytes()[i] == s@[i] as u8);
        }
    }
    assert(crate::formats::title_keyset::upper_spec(s.spec_bytes()) =~= hexbytes) by {
        assert forall|i: int|
            0 <= i < hexbytes.len() implies crate::bytes::ascii_upper(#[trigger] hexbytes[i])
            == hexbytes[i] by {}
    }
}

/// The `k`-th parsed section header is the parse of its own record:
/// the one of the `k`-th non-empty entry, at 0x400 plus that entry's
/// index times 0x200 in the decrypted window.
pub open spec fn section_record_at(h: NcaHeader, fs: Seq<FsHeader>, dec: Seq<u8>, k: int) -> bool {
    exists|i: int|
        #[trigger] is_nth_valid(h.fs_entries@, i, k) && fs_header_matches(
            fs[k],
            dec,
            0x400 + 0x200 * i,
        ) && fs_header_shape_ok(fs[k])
}

/// Every parsed section header is the parse of its own 0x200-byte
/// record in the decrypted window.
pub open spec fn section_records_match(h: NcaHeader, fs: Seq<FsHeader>, dec: Seq<u8>) -> bool {
    forall|k: int| 0 <= k < fs.len() ==> #[trigger] section_record_at(h, fs, dec, k)
}

/// Appending a section header keeps every earlier record tie.
proof fn lemma_record_at_push(h: NcaHeader, fs: Seq<FsHeader>, f: FsHeader, dec: Seq<u8>, k: int)
    requires
        0 <= k < fs.len(),
        section_record_at(h, fs, dec, k),
    ensures
        section_record_at(h, fs.push(f), dec, k),
{
    let i = choose|i: int|
        #[trigger] is_nth_valid(h.fs_entries@, i, k) && fs_header_matches(
            fs[k],
            dec,
            0x400 + 0x200 * i,
        ) && fs_header_shape_ok(fs[k]);
    assert(fs.push(f)[k] == fs[k]);
    assert(is_nth_valid(h.fs_entries@, i, k) && fs_header_matches(
        fs.push(f)[k],
        dec,
        0x400 + 0x200 * i,
    ) && fs_header_shape_ok(fs.push(f)[k]));
}

/// The decrypted header window: the first 0xC00 bytes of the source,
/// decrypted with the header key under the console's XTS tweak.
pub open spec fn nca_dec_window(header_key: Seq<u8>, src: Seq<u8>) -> Seq<u8> {
    xts128_nintendo_decrypt(header_key, 0x200, 0, src.subrange(0, 0xC00))
}

/// The keyset name of the key-area key for an index family and an
/// effective generation.
pub open spec fn key_area_key_name(idx: KeyAreaEncryptionKeyIndex, gen: int) -> Seq<u8> {
    match idx {
        KeyAreaEncryptionKeyIndex::Application => crate::formats::keyset::indexed_key_name(
            crate::formats::keyset::key_area_application_prefix(),
            gen,
        ),
        KeyAreaEncryptionKeyIndex::Ocean => crate::formats::keyset::indexed_key_name(
            crate::formats::keyset::key_area_ocean_prefix(),
            gen,
        ),
        KeyAreaEncryptionKeyIndex::System => crate::formats::keyset::indexed_key_name(
            crate::formats::keyset::key_area_system_prefix(),
            gen,
        ),
    }
}

/// True when entry `j` is a section entry and exactly `idx` section
/// entries precede it: it is the section list's `idx`-th member.
pub open spec fn is_nth_valid(entries: Seq<FsEntry>, j: int, idx: int) -> bool {
    &&& 0 <= j < entries.len()
    &&& entries[j].is_valid()
    &&& valid_entry_count(entries.take(j)) == idx
}

/// Where a section's filesystem payload starts, relative to the
/// section: the first layer region under layered SHA-256, the last
/// level under an integrity tree.
pub open spec fn section_payload_offset(h: FsHeader) -> int {
    match h.hash_data {
        HashData::HierarchicalSha256(d) => d.layer_regions@[0].offset as int,
        HashData::HierarchicalIntegrity(d) => d.info_level_hash.levels@[d.info_level_hash.levels@.len()
            - 1].logical_offset as int,
    }
}

/// How large a section's filesystem payload is, from the same record
/// as its offset.
pub open spec fn section_payload_size(h: FsHeader) -> int {
    match h.hash_data {
        HashData::HierarchicalSha256(d) => d.layer_regions@[0].size as int,
        HashData::HierarchicalIntegrity(d) => d.info_level_hash.levels@[d.info_level_hash.levels@.len()
            - 1].size as int,
    }
}

/// What a section reader holds, by the section's encryption type: the
/// plain payload window of an unencrypted section, or the counter-mode
/// decrypting view of the whole source from the payload on, keyed by
/// the resolved content key.
pub open spec fn section_stream_matches(
    stream: Seq<u8>,
    src: Seq<u8>,
    abs: int,
    h: FsHeader,
    key: Seq<u8>,
) -> bool {
    &&& (h.encryption_type is NoCrypt || h.encryption_type is AesCtr)
    &&& (h.encryption_type is NoCrypt ==> stream == read_range(
        src,
        abs,
        section_payload_size(h),
    ))
    &&& (h.encryption_type is AesCtr ==> stream == ctr_stream_view(src, abs, key, h.ctr))
}

/// How many of the four entries mark a section.
pub open spec fn valid_entry_count(entries: Seq<FsEntry>) -> int
    decreases entries.len(),
{
    if entries.len() == 0 {
        0
    } else {
        valid_entry_count(entries.drop_last()) + (if entries.last().is_valid() {
            1int
        } else {
            0int
        })
    }
}

impl<S: Source> Nca<S> {
    /// The bytes of the underlying source.
    pub closed spec fn src_bytes(&self) -> Seq<u8> {
        self.reader.bytes()
    }

    pub closed spec fn fs_headers_spec(&self) -> Seq<FsHeader> {
        self.fs_headers@
    }

    pub closed spec fn header_spec(&self) -> NcaHeader {
        self.header
    }

    pub closed spec fn key_status_spec(&self) -> bool {
        self.key_status
    }

    pub closed spec fn dec_title_key_spec(&self) -> Option<Vec<u8>> {
        self.dec_title_key
    }

    pub closed spec fn dec_key_area_spec(&self) -> KeyArea {
        self.dec_key_area
    }

    /// The counter-mode key that section reads will use: the decrypted
    /// title key when a rights-id is set, else the key area's own.
    pub open spec fn resolved_ctr_key(&self) -> Seq<u8> {
        if self.header_spec().rights_id_zero() {
            self.dec_key_area_spec().aes_ctr_key@
        } else {
            match self.dec_title_key_spec() {
                Some(k) => k@,
                None => Seq::<u8>::empty(),
            }
        }
    }

    /// The archive's invariant: four entries, at most four parsed
    /// section headers, and 16-byte resolved keys whenever the key
    /// state is good.
    pub closed spec fn wf(&self) -> bool {
        &&& self.reader.wf()
        &&& self.header.fs_entries@.len() == 4
        &&& self.fs_headers@.len() == valid_entry_count(self.header.fs_entries@)
        &&& self.fs_headers@.len() <= 4
        &&& forall|k: int|
            0 <= k < self.fs_headers@.len() ==> fs_header_shape_ok(#[trigger] self.fs_headers@[k])
        &&& self.header.rights_id@.len() == 16
        &&& (self.key_status ==> self.resolved_ctr_key().len() == 16)
        &&& (match self.dec_title_key {
            Some(k) => k@.len() == 16,
            None => true,
        })
    }

    /// Opens an archive: decrypts the first 0xC00 bytes with the
    /// keyset's header key under the console's XTS tweak, parses the
    /// main header and the section headers of the non-empty entries,
    /// and resolves the content key. Key material that cannot be found
    /// leaves the archive in a keys-invalid state instead of failing;
    /// a missing header key, a bad magic, or a short source fails.
    #[verifier::spinoff_prover]
    #[verifier::rlimit(100)]
    pub fn from_reader(
        source: S,
        keyset: &Keyset,
        title_keys: Option<&TitleKeys>,
    ) -> (r: Result<Nca<S>, Error>)
        requires
            source.wf(),
            keyset.wf(),
        ensures
            match r {
                Ok(n) => {
                    &&& n.wf()
                    &&& n.src_bytes() == source.bytes()
                    &&& keyset.key_map().contains_key(header_key_name())
                    &&& keyset.key_map()[header_key_name()].len() == 32
                    &&& source.bytes().len() >= 0xC00
                    &&& nca_header_matches(
                        n.header_spec(),
                        nca_dec_window(keyset.key_map()[header_key_name()], source.bytes()),
                    )
                    &&& n.fs_headers_spec().len() == valid_entry_count(
                        n.header_spec().fs_entries@,
                    )
                    &&& n.fs_headers_spec().len() <= 4
                    &&& section_records_match(
                        n.header_spec(),
                        n.fs_headers_spec(),
                        nca_dec_window(keyset.key_map()[header_key_name()], source.bytes()),
                    )
                    &&& (!n.header_spec().rights_id_zero() && title_keys is Some ==> {
                        let db = title_keys.unwrap();
                        let tkname = crate::formats::keyset::indexed_key_name(
                            crate::formats::keyset::titlekek_prefix(),
                            effective_key_generation(
                                n.header_spec().key_generation_old,
                                n.header_spec().key_generation,
                            ),
                        );
                        let rhex = rights_id_hex(n.header_spec().rights_id@);
                        &&& (n.key_status_spec() <==> keyset.key_map().contains_key(tkname)
                            && keyset.key_map()[tkname].len() == 16 && db.title_map().contains_key(
                            rhex,
                        ) && db.title_map()[rhex].len() >= 16)
                        &&& (n.key_status_spec() ==> n.resolved_ctr_key()
                            == crate::crypto::aes128_decrypt_block(
                            keyset.key_map()[tkname],
                            db.title_map()[rhex].take(16),
                        ))
                    })
                    &&& (n.header_spec().rights_id_zero() ==> {
                        let kname = key_area_key_name(
                            n.header_spec().key_area_appkey_index,
                            effective_key_generation(
                                n.header_spec().key_generation_old,
                                n.header_spec().key_generation,
                            ),
                        );
                        &&& (n.key_status_spec() <==> keyset.key_map().contains_key(kname)
                            && keyset.key_map()[kname].len() == 16)
                        &&& (n.key_status_spec() ==> n.resolved_ctr_key()
                            == crate::crypto::ecb_aes128_decrypt_spec(
                            keyset.key_map()[kname],
                            nca_dec_window(
                                keyset.key_map()[header_key_name()],
                                source.bytes(),
                            ).subrange(0x300, 0x340),
                        ).subrange(0x20, 0x30))
                    })
                    &&& (!n.header_spec().rights_id_zero() && title_keys is None
                        ==> !n.key_status_spec())
                },
                Err(e) => {
                    ||| e == Error::Io
                    ||| (e == Error::BinaryParser && keyset.key_map().contains_key(
                        header_key_name(),
                    ) && keyset.key_map()[header_key_name()].len() == 32 && (source.bytes().len()
                        < 0xC00 || {
                        let d = nca_dec_window(
                            keyset.key_map()[header_key_name()],
                            source.bytes(),
                        );
                        ||| (!nca_header_parse_ok(d) && le_val(d, 0x200, 3) == 0x41434E)
                        ||| exists|i: int|
                            0 <= i < 4 && (le_val(d, 0x240 + 0x10 * i, 4) != 0 || le_val(
                                d,
                                0x244 + 0x10 * i,
                                4,
                            ) != 0) && !(#[trigger] fs_header_parse_ok(d, 0x400 + 0x200 * i))
                    }))
                    ||| (e matches Error::InvalidFormat { .. } && source.bytes().len() >= 0xC00
                        && le_val(
                        nca_dec_window(keyset.key_map()[header_key_name()], source.bytes()),
                        0x200,
                        3,
                    ) != 0x41434E)
                    ||| (e matches Error::KeyLookupError { key_name } && key_name@
                        == header_key_name() && !(keyset.key_map().contains_key(header_key_name())
                        && keyset.key_map()[header_key_name()].len() == 32))
                },
            },
            !(keyset.key_map().contains_key(header_key_name())
                && keyset.key_map()[header_key_name()].len() == 32) ==> (r matches Err(e) && e
                matches Error::KeyLookupError { key_name } && key_name@ == header_key_name()),
    {
        let mut reader = source;
        let ghost src = reader.bytes();
        let header_key = match keyset.header_key() {
            Some(k) => clone_bytes(k),
            None => {
                let mut name: Vec<u8> = Vec::new();
                name.push(0x68);
                name.push(0x65);
                name.push(0x61);
                name.push(0x64);
                name.push(0x65);
                name.push(0x72);
                name.push(0x5F);
                name.push(0x6B);
                name.push(0x65);
                name.push(0x79);
                proof {
                    assert(name@ =~= header_key_name());
                }
                return Err(Error::KeyLookupError { key_name: name });
            },
        };
        let mut encrypted = match reader.read_at(0, 0xC00) {
            Ok(v) => v,
            Err(e) => {
                return Err(e);
            },
        };
        if encrypted.len() < 0xC00 {
            return Err(Error::BinaryParser);
        }
        proof {
            assert(encrypted@ =~= src.subrange(0, 0xC00));
        }
        xts128_decrypt_area(header_key.as_slice(), 0x200, 0, &mut encrypted);
        let decrypted = encrypted;
        let header = match NcaHeader::from_bytes(&decrypted) {
            Ok(h) => h,
            Err(e) => {
                return Err(match e {
                    Error::InvalidFormat { expected_magic, actual_magic } => Error::InvalidFormat {
                        expected_magic,
                        actual_magic,
                    },
                    _ => Error::BinaryParser,
                });
            },
        };
        let mut fs_headers: Vec<FsHeader> = Vec::new();
        let mut i: usize = 0;
        while i < 4
            invariant
                src == source.bytes(),
                reader.wf(),
                reader.bytes() == src,
                src.len() >= 0xC00,
                decrypted@.len() == 0xC00,
                decrypted@ == xts128_nintendo_decrypt(
                    keyset.key_map()[header_key_name()],
                    0x200,
                    0,
                    src.subrange(0, 0xC00),
                ),
                keyset.key_map().contains_key(header_key_name()),
                keyset.key_map()[header_key_name()].len() == 32,
                nca_header_matches(header, decrypted@),
                header.fs_entries@.len() == 4,
                header.rights_id@.len() == 16,
                i <= 4,
                fs_headers@.len() == valid_entry_count(header.fs_entries@.take(i as int)),
                fs_headers@.len() <= i,
                forall|k: int|
                    0 <= k < fs_headers@.len() ==> #[trigger] section_record_at(
                        header,
                        fs_headers@,
                        decrypted@,
                        k,
                    ),
            decreases 4 - i,
        {
            let entry = FsEntry {
                start_offset: self_entry_start(&header, i),
                end_offset: self_entry_end(&header, i),
            };
            proof {
                assert(header.fs_entries@.take(i + 1).drop_last() =~= header.fs_entries@.take(
                    i as int,
                ));
                assert(header.fs_entries@.take(i + 1).last() == header.fs_entries@[i as int]);
            }
            if entry.start_offset != 0 || entry.end_offset != 0 {
                let fs_header = match parse_fs_header(&decrypted, 0x400 + 0x200 * i) {
                    Ok(h) => h,
                    Err(e) => {
                        proof {
                            assert(le_val(decrypted@, 0x240 + 0x10 * (i as int), 4) != 0 || le_val(
                                decrypted@,
                                0x244 + 0x10 * (i as int),
                                4,
                            ) != 0);
                            assert(!fs_header_parse_ok(decrypted@, 0x400 + 0x200 * (i as int)));
                        }
                        return Err(e);
                    },
                };
                let ghost old_fs = fs_headers@;
                let ghost kk = fs_headers@.len() as int;
                proof {
                    assert(is_nth_valid(header.fs_entries@, i as int, kk));
                }
                fs_headers.push(fs_header);
                proof {
                    assert(fs_headers@ =~= old_fs.push(fs_header));
                    assert forall|k: int|
                        0 <= k < fs_headers@.len() implies #[trigger] section_record_at(
                        header,
                        fs_headers@,
                        decrypted@,
                        k,
                    ) by {
                        if k < kk {
                            assert(section_record_at(header, old_fs, decrypted@, k));
                            lemma_record_at_push(header, old_fs, fs_header, decrypted@, k);
                        } else {
                            assert(fs_headers@[k] == fs_header);
                            assert(is_nth_valid(header.fs_entries@, i as int, k)
                                && fs_header_matches(fs_headers@[k], decrypted@, 0x400 + 0x200 * (
                            i as int)) && fs_header_shape_ok(fs_headers@[k]));
                        }
                    }
                }
            }
            i = i + 1;
        }
        proof {
            assert(header.fs_entries@.take(4) =~= header.fs_entries@);
        }
        proof {
            assert(nca_header_matches(
                header,
                xts128_nintendo_decrypt(
                    keyset.key_map()[header_key_name()],
                    0x200,
                    0,
                    src.subrange(0, 0xC00),
                ),
            ));
        }
        let mut n = Nca {
            reader,
            header,
            fs_headers,
            dec_title_key: None,
            dec_key_area: KeyArea { aes_xts_key: Vec::new(), aes_ctr_key: Vec::new() },
            key_status: true,
        };
        let rights_zero = is_all_zero(n.header.rights_id.as_slice());
        if !rights_zero {
            let key_gen = n.header.get_key_generation();
            match title_keys {
                Some(db) => {
                    match keyset.get_title_kek(key_gen as usize) {
                        Some(kek) => {
                            let rights_hex = crate::bytes::hex_encode_upper(
                                n.header.rights_id.as_slice(),
                            );
                            let ghost ghex = rights_hex@;
                            let rights_str = crate::bytes::ascii_to_string(rights_hex);
                            let rs = rights_str.as_str();
                            proof {
                                lemma_rights_hex_string(n.header.rights_id@, ghex, rs);
                            }
                            match db.decrypt_title_key(rs, kek.as_slice()) {
                                Ok(k) => {
                                    n.dec_title_key = Some(k);
                                },
                                Err(_) => {
                                    n.key_status = false;
                                },
                            }
                        },
                        None => {
                            n.key_status = false;
                        },
                    }
                },
                None => {
                    n.key_status = false;
                },
            }
        } else {
            let key_gen = n.header.get_key_generation();
            let kak = match n.header.key_area_appkey_index {
                KeyAreaEncryptionKeyIndex::Application => keyset.get_key_area_key_application(
                    key_gen as usize,
                ),
                KeyAreaEncryptionKeyIndex::Ocean => keyset.get_key_area_key_ocean(
                    key_gen as usize,
                ),
                KeyAreaEncryptionKeyIndex::System => keyset.get_key_area_key_system(
                    key_gen as usize,
                ),
            };
            match kak {
                Some(key) => {
                    let dec = ecb_aes128_decrypt(key.as_slice(), n.header.encrypted_keys.as_slice());
                    proof {
                        assert(dec@.len() == 0x40);
                    }
                    n.dec_key_area = KeyArea {
                        aes_xts_key: crate::bytes::copy_range(&dec, 0, 0x20),
                        aes_ctr_key: crate::bytes::copy_range(&dec, 0x20, 0x30),
                    };
                    proof {
                        assert(n.dec_key_area.aes_ctr_key@ =~= dec@.subrange(0x20, 0x30));
                    }
                },
                None => {
                    n.key_status = false;
                },
            }
        }
        proof {
            assert forall|k: int| 0 <= k < n.fs_headers@.len() implies fs_header_shape_ok(
                #[trigger] n.fs_headers@[k],
            ) by {
                assert(section_record_at(n.header, n.fs_headers@, decrypted@, k));
                let ii = choose|ii: int|
                    #[trigger] is_nth_valid(n.header.fs_entries@, ii, k) && fs_header_matches(
                        n.fs_headers@[k],
                        decrypted@,
                        0x400 + 0x200 * ii,
                    ) && fs_header_shape_ok(n.fs_headers@[k]);
            }
            if n.key_status {
                if n.header.rights_id_zero() {
                    assert(n.resolved_ctr_key() == n.dec_key_area.aes_ctr_key@);
                } else {
                    assert(n.dec_title_key is Some);
                }
            }
        }
        Ok(n)
    }

    /// How many non-empty sections the archive holds.
    pub fn filesystem_count(&self) -> (r: usize)
        ensures
            r == self.fs_headers_spec().len(),
    {
        self.fs_headers.len()
    }

    /// Whether the archive names a rights-id, so that its content key
    /// comes from the title-key database.
    pub fn has_rights_id(&self) -> (r: bool)
        requires
            self.wf(),
        ensures
            r == !self.header_spec().rights_id_zero(),
    {
        !is_all_zero(self.header.rights_id.as_slice())
    }

    /// Whether all key material the archive needs was resolved.
    pub fn has_valid_keys(&self) -> (r: bool)
        ensures
            r == self.key_status_spec(),
    {
        self.key_status
    }

    /// The effective key generation for key selection.
    pub fn get_key_generation(&self) -> (r: u8)
        ensures
            r as int == effective_key_generation(
                self.header_spec().key_generation_old,
                self.header_spec().key_generation,
            ),
    {
        self.header.get_key_generation()
    }

    /// The byte offset of non-empty section `idx`: its entry's start
    /// offset in media units of 0x200 bytes. Every returned offset is a
    /// multiple of 0x200.
    pub fn get_fs_offset(&self, idx: usize) -> (r: Option<u64>)
        requires
            self.wf(),
        ensures
            match r {
                Some(v) => idx < self.fs_headers_spec().len() && v % 0x200 == 0 && exists|j: int|
                    #[trigger] is_nth_valid(self.header_spec().fs_entries@, j, idx as int) && v
                        == 0x200 * self.header_spec().fs_entries@[j].start_offset,
                None => idx >= self.fs_headers_spec().len(),
            },
    {
        if idx >= self.fs_headers.len() {
            return None;
        }
        let mut seen: usize = 0;
        let mut i: usize = 0;
        while i < 4
            invariant
                self.wf(),
                i <= 4,
                seen <= i,
                idx < self.fs_headers_spec().len(),
                seen == valid_entry_count(self.header_spec().fs_entries@.take(i as int)),
                idx >= seen,
            decreases 4 - i,
        {
            let e = self_entry(&self.header, i);
            proof {
                assert(self.header_spec().fs_entries@.take(i + 1).drop_last()
                    =~= self.header_spec().fs_entries@.take(i as int));
                assert(self.header_spec().fs_entries@.take(i + 1).last()
                    == self.header_spec().fs_entries@[i as int]);
            }
            if e.start_offset != 0 || e.end_offset != 0 {
                if seen == idx {
                    let v = 0x200u64 * (e.start_offset as u64);
                    proof {
                        assert(0x200u64 * (e.start_offset as u64) % 0x200 == 0) by (nonlinear_arith);
                        assert(is_nth_valid(self.header_spec().fs_entries@, i as int, idx as int));
                    }
                    return Some(v);
                }
                seen = seen + 1;
            }
            i = i + 1;
        }
        proof {
            assert(self.header_spec().fs_entries@.take(4) =~= self.header_spec().fs_entries@);
            assert(false);
        }
        None
    }

    /// The counter-mode key for the archive's encrypted sections: the
    /// decrypted title key when a rights-id is set, else the key
    /// area's counter key. A keys-invalid archive names the key that
    /// was missing.
    pub fn get_aes_ctr_decrypt_key(&self) -> (r: Result<Vec<u8>, Error>)
        requires
            self.wf(),
        ensures
            match r {
                Ok(k) => self.key_status_spec() && k@ == self.resolved_ctr_key() && k@.len() == 16,
                Err(e) => e matches Error::KeyLookupError { key_name } && !(self.key_status_spec()
                    && self.resolved_ctr_key().len() == 16) && key_name@ == (
                if self.header_spec().rights_id_zero() {
                    key_area_key_name(
                        self.header_spec().key_area_appkey_index,
                        effective_key_generation(
                            self.header_spec().key_generation_old,
                            self.header_spec().key_generation,
                        ),
                    )
                } else {
                    rights_id_hex(self.header_spec().rights_id@)
                }),
            },
    {
        if !is_all_zero(self.header.rights_id.as_slice()) {
            match &self.dec_title_key {
                Some(k) => {
                    if self.key_status {
                        return Ok(clone_bytes(k));
                    }
                },
                None => {},
            }
            let rights_hex = crate::bytes::hex_encode_upper(self.header.rights_id.as_slice());
            proof {
                lemma_hex_upper_is_rights_hex(self.header.rights_id@, rights_hex@);
            }
            return Err(Error::KeyLookupError { key_name: rights_hex });
        }
        if !self.key_status || self.dec_key_area.aes_ctr_key.len() != 16 {
            let key_gen = self.header.get_key_generation();
            let mut prefix: Vec<u8> = Vec::new();
            match self.header.key_area_appkey_index {
                KeyAreaEncryptionKeyIndex::Application => {
                    crate::bytes::extend_from(
                        &mut prefix,
                        &[
                            0x6B, 0x65, 0x79, 0x5F, 0x61, 0x72, 0x65, 0x61, 0x5F, 0x6B, 0x65, 0x79,
                            0x5F, 0x61, 0x70, 0x70, 0x6C, 0x69, 0x63, 0x61, 0x74, 0x69, 0x6F, 0x6E,
                        ],
                    );
                },
                KeyAreaEncryptionKeyIndex::Ocean => {
                    crate::bytes::extend_from(
                        &mut prefix,
                        &[
                            0x6B, 0x65, 0x79, 0x5F, 0x61, 0x72, 0x65, 0x61, 0x5F, 0x6B, 0x65, 0x79,
                            0x5F, 0x6F, 0x63, 0x65, 0x61, 0x6E,
                        ],
                    );
                },
                KeyAreaEncryptionKeyIndex::System => {
                    crate::bytes::extend_from(
                        &mut prefix,
                        &[
                            0x6B, 0x65, 0x79, 0x5F, 0x61, 0x72, 0x65, 0x61, 0x5F, 0x6B, 0x65, 0x79,
                            0x5F, 0x73, 0x79, 0x73, 0x74, 0x65, 0x6D,
                        ],
                    );
                },
            }
            prefix.push(0x5F);
            let hi = key_gen / 16;
            let lo = key_gen % 16;
            if hi < 10 {
                prefix.push(0x30 + hi);
            } else {
                prefix.push(0x61 + (hi - 10));
            }
            if lo < 10 {
                prefix.push(0x30 + lo);
            } else {
                prefix.push(0x61 + (lo - 10));
            }
            proof {
                assert(prefix@ =~= key_area_key_name(
                    self.header_spec().key_area_appkey_index,
                    effective_key_generation(
                        self.header_spec().key_generation_old,
                        self.header_spec().key_generation,
                    ),
                ));
            }
            return Err(Error::KeyLookupError { key_name: prefix });
        }
        Ok(clone_bytes(&self.dec_key_area.aes_ctr_key))
    }

    /// Builds a reader over section `idx`'s filesystem payload. The
    /// payload region comes from the section's hash data: the first
    /// layer region under layered SHA-256, the last level under an
    /// integrity tree. An unencrypted section reads as a plain window;
    /// a counter-mode section reads as a decrypting view keyed by the
    /// resolved content key; any other encryption type is unsupported.
    pub fn prepare_fs_reader(&self, idx: usize) -> (r: Result<SectionReader<S>, Error>)
        requires
            self.wf(),
        ensures
            match r {
                Ok(sr) => {
                    &&& sr.wf()
                    &&& idx < self.fs_headers_spec().len()
                    &&& exists|j: int|
                        #[trigger] is_nth_valid(self.header_spec().fs_entries@, j, idx as int)
                            && section_stream_matches(
                            sr.bytes(),
                            self.src_bytes(),
                            0x200 * self.header_spec().fs_entries@[j].start_offset as int
                                + section_payload_offset(self.fs_headers_spec()[idx as int]),
                            self.fs_headers_spec()[idx as int],
                            self.resolved_ctr_key(),
                        )
                },
                Err(e) => {
                    ||| (e == Error::InvalidState && idx >= self.fs_headers_spec().len())
                    ||| (e == Error::NotSupported && idx < self.fs_headers_spec().len() && !(
                    self.fs_headers_spec()[idx as int].encryption_type is NoCrypt
                        || self.fs_headers_spec()[idx as int].encryption_type is AesCtr))
                    ||| (e matches Error::KeyLookupError { .. } && idx
                        < self.fs_headers_spec().len()
                        && self.fs_headers_spec()[idx as int].encryption_type is AesCtr && !(
                    self.key_status_spec() && self.resolved_ctr_key().len() == 16))
                    ||| (e == Error::InvalidData && idx < self.fs_headers_spec().len()
                        && exists|j: int|
                        #[trigger] is_nth_valid(self.header_spec().fs_entries@, j, idx as int) && {
                            let abs = 0x200 * self.header_spec().fs_entries@[j].start_offset as int
                                + section_payload_offset(self.fs_headers_spec()[idx as int]);
                            ||| abs > u64::MAX
                            ||| (self.fs_headers_spec()[idx as int].encryption_type is NoCrypt
                                && abs + section_payload_size(
                                self.fs_headers_spec()[idx as int],
                            ) > u64::MAX)
                            ||| (self.fs_headers_spec()[idx as int].encryption_type is AesCtr
                                && abs > self.src_bytes().len())
                        })
                },
            },
            (r is Err && idx >= self.fs_headers_spec().len()) ==> r == Err::<
                SectionReader<S>,
                Error,
            >(Error::InvalidState),
    {
        if idx >= self.fs_headers.len() {
            return Err(Error::InvalidState);
        }
        let fs_start_offset = match self.get_fs_offset(idx) {
            Some(v) => v,
            None => {
                proof {
                    assert(false);
                }
                return Err(Error::InvalidState);
            },
        };
        let fs_header = &self.fs_headers[idx];
        let (payload_off, payload_size) = match &fs_header.hash_data {
            HashData::HierarchicalSha256(h) => {
                if h.layer_regions.len() == 0 {
                    proof {
                        assert(fs_header_shape_ok(self.fs_headers@[idx as int]));
                        assert(false);
                    }
                    return Err(Error::InvalidData);
                }
                (h.layer_regions[0].offset, h.layer_regions[0].size)
            },
            HashData::HierarchicalIntegrity(h) => {
                let n = h.info_level_hash.levels.len();
                if n == 0 {
                    proof {
                        assert(fs_header_shape_ok(self.fs_headers@[idx as int]));
                        assert(false);
                    }
                    return Err(Error::InvalidData);
                }
                (
                    h.info_level_hash.levels[n - 1].logical_offset,
                    h.info_level_hash.levels[n - 1].size,
                )
            },
        };
        proof {
            assert(payload_off == section_payload_offset(self.fs_headers_spec()[idx as int]));
            assert(payload_size == section_payload_size(self.fs_headers_spec()[idx as int]));
        }
        proof {
            assert(exists|j: int|
                #[trigger] is_nth_valid(self.header_spec().fs_entries@, j, idx as int)
                    && fs_start_offset == 0x200
                    * self.header_spec().fs_entries@[j].start_offset);
        }
        let ghost jw: int = choose|j: int|
            #[trigger] is_nth_valid(self.header_spec().fs_entries@, j, idx as int)
                && fs_start_offset == 0x200 * self.header_spec().fs_entries@[j].start_offset;
        if payload_off > u64::MAX - fs_start_offset {
            proof {
                assert(is_nth_valid(self.header_spec().fs_entries@, jw, idx as int));
            }
            return Err(Error::InvalidData);
        }
        let fs_offset_abs = fs_start_offset + payload_off;
        match fs_header.encryption_type {
            EncryptionType::NoCrypt => {
                if payload_size > u64::MAX - fs_offset_abs {
                    proof {
                        assert(is_nth_valid(self.header_spec().fs_entries@, jw, idx as int));
                    }
                    return Err(Error::InvalidData);
                }
                Ok(
                    SectionReader::Plain(
                        SubFile::new(
                            self.reader.duplicate(),
                            fs_offset_abs,
                            fs_offset_abs + payload_size,
                        ),
                    ),
                )
            },
            EncryptionType::AesCtr => {
                let key = match self.get_aes_ctr_decrypt_key() {
                    Ok(k) => k,
                    Err(e) => {
                        return Err(e);
                    },
                };
                proof {
                    self.reader.lemma_len_bound();
                }
                let dup = self.reader.duplicate();
                let srclen = dup.source_size();
                if fs_offset_abs > srclen {
                    proof {
                        assert(is_nth_valid(self.header_spec().fs_entries@, jw, idx as int));
                    }
                    return Err(Error::InvalidData);
                }
                Ok(
                    SectionReader::Ctr(
                        Aes128CtrReader::new(dup, fs_offset_abs, fs_header.ctr, key),
                    ),
                )
            },
            _ => Err(Error::NotSupported),
        }
    }

    /// Opens section `idx` as a flat archive: the parse of the
    /// section's stream.
    pub fn open_pfs0_filesystem(&self, idx: usize) -> (r: Result<Pfs0<SectionReader<S>>, Error>)
        requires
            self.wf(),
        ensures
            match r {
                Ok(p) => {
                    &&& p.wf()
                    &&& idx < self.fs_headers_spec().len()
                    &&& crate::formats::pfs0::pfs0_parse_ok(p.src_bytes())
                    &&& p.files_spec().len() == crate::formats::pfs0::pfs0_num_files(
                        p.src_bytes(),
                    )
                    &&& forall|i: int|
                        0 <= i < p.files_spec().len()
                            ==> #[trigger] crate::formats::pfs0::pfs0_file_matches(
                            p.files_spec(),
                            p.src_bytes(),
                            i,
                        )
                    &&& exists|j: int|
                        #[trigger] is_nth_valid(self.header_spec().fs_entries@, j, idx as int)
                            && section_stream_matches(
                            p.src_bytes(),
                            self.src_bytes(),
                            0x200 * self.header_spec().fs_entries@[j].start_offset as int
                                + section_payload_offset(self.fs_headers_spec()[idx as int]),
                            self.fs_headers_spec()[idx as int],
                            self.resolved_ctr_key(),
                        )
                },
                Err(e) => true,
            },
            (r is Err && idx >= self.fs_headers_spec().len()) ==> r == Err::<
                Pfs0<SectionReader<S>>,
                Error,
            >(Error::InvalidState),
    {
        let reader = match self.prepare_fs_reader(idx) {
            Ok(sr) => sr,
            Err(e) => {
                return Err(e);
            },
        };
        let ghost stream = reader.bytes();
        let ghost jw: int = choose|j: int|
            #[trigger] is_nth_valid(self.header_spec().fs_entries@, j, idx as int)
                && section_stream_matches(
                stream,
                self.src_bytes(),
                0x200 * self.header_spec().fs_entries@[j].start_offset as int
                    + section_payload_offset(self.fs_headers_spec()[idx as int]),
                self.fs_headers_spec()[idx as int],
                self.resolved_ctr_key(),
            );
        match Pfs0::from_reader(reader) {
            Ok(p) => {
                proof {
                    assert(is_nth_valid(self.header_spec().fs_entries@, jw, idx as int)
                        && section_stream_matches(
                        p.src_bytes(),
                        self.src_bytes(),
                        0x200 * self.header_spec().fs_entries@[jw].start_offset as int
                            + section_payload_offset(self.fs_headers_spec()[idx as int]),
                        self.fs_headers_spec()[idx as int],
                        self.resolved_ctr_key(),
                    ));
                }
                Ok(p)
            },
            Err(e) => Err(e),
        }
    }

    /// Opens section `idx` as a read-only filesystem: the parse of the
    /// section's stream. A section of any other filesystem type is
    /// refused as an invalid state.
    pub fn open_romfs_filesystem(&self, idx: usize) -> (r: Result<RomFs<SectionReader<S>>, Error>)
        requires
            self.wf(),
        ensures
            match r {
                Ok(p) => {
                    &&& p.wf()
                    &&& idx < self.fs_headers_spec().len()
                    &&& self.fs_headers_spec()[idx as int].fs_type is RomFs
                    &&& exists|j: int|
                        #[trigger] is_nth_valid(self.header_spec().fs_entries@, j, idx as int)
                            && section_stream_matches(
                            p.src_bytes(),
                            self.src_bytes(),
                            0x200 * self.header_spec().fs_entries@[j].start_offset as int
                                + section_payload_offset(self.fs_headers_spec()[idx as int]),
                            self.fs_headers_spec()[idx as int],
                            self.resolved_ctr_key(),
                        )
                },
                Err(e) => true,
            },
            (r is Err && (idx >= self.fs_headers_spec().len() || !(self.fs_headers_spec()[
                idx as int
            ].fs_type is RomFs))) ==> r == Err::<RomFs<SectionReader<S>>, Error>(
                Error::InvalidState,
            ),
    {
        if idx >= self.fs_headers.len() {
            return Err(Error::InvalidState);
        }
        match self.fs_headers[idx].fs_type {
            FsType::RomFs => {},
            _ => {
                return Err(Error::InvalidState);
            },
        }
        let reader = match self.prepare_fs_reader(idx) {
            Ok(sr) => sr,
            Err(e) => {
                return Err(e);
            },
        };
        let ghost stream = reader.bytes();
        let ghost jw: int = choose|j: int|
            #[trigger] is_nth_valid(self.header_spec().fs_entries@, j, idx as int)
                && section_stream_matches(
                stream,
                self.src_bytes(),
                0x200 * self.header_spec().fs_entries@[j].start_offset as int
                    + section_payload_offset(self.fs_headers_spec()[idx as int]),
                self.fs_headers_spec()[idx as int],
                self.resolved_ctr_key(),
            );
        match RomFs::from_reader(reader) {
            Ok(p) => {
                proof {
                    assert(is_nth_valid(self.header_spec().fs_entries@, jw, idx as int)
                        && section_stream_matches(
                        p.src_bytes(),
                        self.src_bytes(),
                        0x200 * self.header_spec().fs_entries@[jw].start_offset as int
                            + section_payload_offset(self.fs_headers_spec()[idx as int]),
                        self.fs_headers_spec()[idx as int],
                        self.resolved_ctr_key(),
                    ));
                }
                Ok(p)
            },
            Err(e) => Err(e),
        }
    }

    /// Reads a whole section's decrypted payload: the full bytes of
    /// the section's stream.
    pub fn decrypt_and_dump_fs(&self, idx: usize) -> (r: Result<Vec<u8>, Error>)
        requires
            self.wf(),
        ensures
            match r {
                Ok(d) => idx < self.fs_headers_spec().len() && exists|j: int|
                    #[trigger] is_nth_valid(self.header_spec().fs_entries@, j, idx as int)
                        && section_stream_matches(
                        d@,
                        self.src_bytes(),
                        0x200 * self.header_spec().fs_entries@[j].start_offset as int
                            + section_payload_offset(self.fs_headers_spec()[idx as int]),
                        self.fs_headers_spec()[idx as int],
                        self.resolved_ctr_key(),
                    ),
                Err(e) => true,
            },
    {
        let mut reader = match self.prepare_fs_reader(idx) {
            Ok(sr) => sr,
            Err(e) => {
                return Err(e);
            },
        };
        proof {
            reader.lemma_len_bound();
        }
        let ghost stream = reader.bytes();
        let ghost jw: int = choose|j: int|
            #[trigger] is_nth_valid(self.header_spec().fs_entries@, j, idx as int)
                && section_stream_matches(
                stream,
                self.src_bytes(),
                0x200 * self.header_spec().fs_entries@[j].start_offset as int
                    + section_payload_offset(self.fs_headers_spec()[idx as int]),
                self.fs_headers_spec()[idx as int],
                self.resolved_ctr_key(),
            );
        let len = reader.source_size();
        if len > usize::MAX as u64 {
            return Err(Error::InvalidData);
        }
        match reader.read_at(0, len as usize) {
            Ok(d) => {
                proof {
                    assert(d@ =~= stream);
                    assert(is_nth_valid(self.header_spec().fs_entries@, jw, idx as int)
                        && section_stream_matches(
                        d@,
                        self.src_bytes(),
                        0x200 * self.header_spec().fs_entries@[jw].start_offset as int
                            + section_payload_offset(self.fs_headers_spec()[idx as int]),
                        self.fs_headers_spec()[idx as int],
                        self.resolved_ctr_key(),
                    ));
                }
                Ok(d)
            },
            Err(e) => Err(e),
        }
    }
}

fn self_entry(h: &NcaHeader, i: usize) -> (r: FsEntry)
    requires
        i < h.fs_entries@.len(),
    ensures
        r == h.fs_entries@[i as int],
{
    h.fs_entries[i]
}

fn self_entry_start(h: &NcaHeader, i: usize) -> (r: u32)
    requires
        i < h.fs_entries@.len(),
    ensures
        r == h.fs_entries@[i as int].start_offset,
{
    h.fs_entries[i].start_offset
}

fn self_entry_end(h: &NcaHeader, i: usize) -> (r: u32)
    requires
        i < h.fs_entries@.len(),
    ensures
        r == h.fs_entries@[i as int].end_offset,
{
    h.fs_entries[i].end_offset
}

/// True when every byte of `s` is zero.
pub open spec fn all_zero(s: Seq<u8>) -> bool {
    forall|i: int| 0 <= i < s.len() ==> s[i] == 0
}

/// True when every byte is zero.
fn is_all_zero(v: &[u8]) -> (r: bool)
    ensures
        r == all_zero(v@),
{
    let n = v.len();
    let mut i: usize = 0;
    while i < n
        invariant
            i <= n,
            n == v@.len(),
            forall|j: int| 0 <= j < i ==> v@[j] == 0,
        decreases n - i,
    {
        if *vstd::slice::slice_index_get(v, i) != 0 {
            proof {
                assert(v@[i as int] != 0);
            }
            return false;
        }
        i = i + 1;
    }
    true
}

/// An archive with all four entries zeroed exposes no sections: the
/// section list of a parse with no valid entries is empty.
pub proof fn lemma_zero_entries_no_sections(entries: Seq<FsEntry>)
    requires
        forall|i: int| 0 <= i < entries.len() ==> !(#[trigger] entries[i]).is_valid(),
    ensures
        valid_entry_count(entries) == 0,
    decreases entries.len(),
{
    if entries.len() > 0 {
        lemma_zero_entries_no_sections(entries.drop_last());
    }
}


/// The record base of section index `j` in the decrypted window.
pub open spec fn section_record_base(j: int) -> int {
    0x400 + 0x200 * j
}

/// The absolute payload offset of the section at entry `j` with
/// parsed header `fh`.
pub open spec fn section_abs_offset(h: NcaHeader, j: int, fh: FsHeader) -> int {
    0x200 * h.fs_entries@[j].start_offset + section_payload_offset(fh)
}

/// True when `stream` is the filesystem stream of the archive's first
/// section, for some content key: the header parses from the
/// decrypted window, entry `j` is the first non-empty one, its record
/// parses to `fh`, and the stream is the section's plain window or
/// counter-mode view.
pub open spec fn nca_first_section_stream_is(
    km: Map<Seq<u8>, Seq<u8>>,
    data: Seq<u8>,
    stream: Seq<u8>,
) -> bool {
    exists|h: NcaHeader, j: int, fh: FsHeader, key: Seq<u8>|
        #![trigger section_stream_matches(stream, data, section_abs_offset(h, j, fh), fh, key)]
        nca_header_matches(h, nca_dec_window(km[header_key_name()], data)) && is_nth_valid(
            h.fs_entries@,
            j,
            0,
        ) && fs_header_matches(fh, nca_dec_window(km[header_key_name()], data), section_record_base(j))
            && section_stream_matches(stream, data, section_abs_offset(h, j, fh), fh, key)
}

/// How many of the first `i` entries of image `s` carry a `.cnmt` name.
pub open spec fn cnmt_count_upto(s: Seq<u8>, i: int) -> int
    decreases i,
{
    if i <= 0 {
        0
    } else {
        cnmt_count_upto(s, i - 1) + (if crate::formats::cnmt::is_cnmt_name(
            crate::formats::pfs0::pfs0_entry_name(s, i - 1),
        ) {
            1int
        } else {
            0int
        })
    }
}

/// True when entry `i` of image `s` is its `k`-th `.cnmt`-named entry.
pub open spec fn is_nth_cnmt(s: Seq<u8>, i: int, k: int) -> bool {
    &&& 0 <= i < crate::formats::pfs0::pfs0_num_files(s)
    &&& crate::formats::cnmt::is_cnmt_name(crate::formats::pfs0::pfs0_entry_name(s, i))
    &&& cnmt_count_upto(s, i) == k
}

/// True when table `k` of `ts` parses from the bytes of the `k`-th
/// `.cnmt`-named entry of image `s`.
pub open spec fn cnmt_table_at(s: Seq<u8>, ts: Seq<Cnmt>, k: int) -> bool {
    exists|i: int|
        #[trigger] is_nth_cnmt(s, i, k) && ts[k].parsed_from(
            crate::io::read_range(
                s,
                crate::formats::pfs0::pfs0_data_base(s)
                    + crate::formats::pfs0::pfs0_entry_data_offset(s, i),
                crate::formats::pfs0::pfs0_entry_data_size(s, i),
            ),
        )
}

/// Keeping earlier tables and appending one more keeps their ties.
proof fn lemma_cnmt_table_at_push(s: Seq<u8>, ts: Seq<Cnmt>, c: Cnmt, k: int)
    requires
        0 <= k < ts.len(),
        cnmt_table_at(s, ts, k),
    ensures
        cnmt_table_at(s, ts.push(c), k),
{
    let i = choose|i: int|
        #[trigger] is_nth_cnmt(s, i, k) && ts[k].parsed_from(
            crate::io::read_range(
                s,
                crate::formats::pfs0::pfs0_data_base(s)
                    + crate::formats::pfs0::pfs0_entry_data_offset(s, i),
                crate::formats::pfs0::pfs0_entry_data_size(s, i),
            ),
        );
    assert(ts.push(c)[k] == ts[k]);
    assert(is_nth_cnmt(s, i, k) && ts.push(c)[k].parsed_from(
        crate::io::read_range(
            s,
            crate::formats::pfs0::pfs0_data_base(s)
                + crate::formats::pfs0::pfs0_entry_data_offset(s, i),
            crate::formats::pfs0::pfs0_entry_data_size(s, i),
        ),
    ));
}

/// The tables a flat-archive image yields: one per `.cnmt`-named
/// entry, in entry order, each the faithful parse of that entry's
/// bytes.
pub open spec fn pfs0_cnmt_tables(s: Seq<u8>, ts: Seq<Cnmt>) -> bool {
    &&& crate::formats::pfs0::pfs0_parse_ok(s)
    &&& ts.len() == cnmt_count_upto(s, crate::formats::pfs0::pfs0_num_files(s))
    &&& forall|k: int| 0 <= k < ts.len() ==> #[trigger] cnmt_table_at(s, ts, k)
}

/// The tables one meta archive's bytes yield under the given keys:
/// those of its first section's flat archive.
pub open spec fn nca_meta_tables(km: Map<Seq<u8>, Seq<u8>>, data: Seq<u8>, ts: Seq<Cnmt>) -> bool {
    exists|stream: Seq<u8>|
        #[trigger] nca_first_section_stream_is(km, data, stream) && pfs0_cnmt_tables(stream, ts)
}

/// True when `groups[i]` is what entry `i` contributes: a meta
/// archive's tables for a `.cnmt.nca` name, nothing for any other.
pub open spec fn group_for_entry(
    files: Seq<crate::formats::pfs0::Pfs0File>,
    src: Seq<u8>,
    km: Map<Seq<u8>, Seq<u8>>,
    groups: Seq<Seq<Cnmt>>,
    i: int,
) -> bool {
    if crate::formats::cnmt::is_cnmt_nca_name(files[i].name@) {
        nca_meta_tables(
            km,
            crate::io::read_range(
                src,
                crate::formats::pfs0::pfs0_data_base(src) + files[i].data_offset,
                files[i].size as int,
            ),
            groups[i],
        )
    } else {
        groups[i].len() == 0
    }
}

/// True when the first `m` entries each contributed their group.
pub open spec fn groups_collect_upto(
    files: Seq<crate::formats::pfs0::Pfs0File>,
    src: Seq<u8>,
    km: Map<Seq<u8>, Seq<u8>>,
    groups: Seq<Seq<Cnmt>>,
    m: int,
) -> bool {
    &&& groups.len() == m
    &&& forall|i: int| 0 <= i < m ==> #[trigger] group_for_entry(files, src, km, groups, i)
}

/// Appending one more entry's group keeps the earlier ones.
pub proof fn lemma_groups_push(
    files: Seq<crate::formats::pfs0::Pfs0File>,
    src: Seq<u8>,
    km: Map<Seq<u8>, Seq<u8>>,
    groups: Seq<Seq<Cnmt>>,
    g: Seq<Cnmt>,
    m: int,
)
    requires
        groups_collect_upto(files, src, km, groups, m),
        0 <= m < files.len(),
        crate::formats::cnmt::is_cnmt_nca_name(files[m].name@) ==> nca_meta_tables(
            km,
            crate::io::read_range(
                src,
                crate::formats::pfs0::pfs0_data_base(src) + files[m].data_offset,
                files[m].size as int,
            ),
            g,
        ),
        !crate::formats::cnmt::is_cnmt_nca_name(files[m].name@) ==> g.len() == 0,
    ensures
        groups_collect_upto(files, src, km, groups.push(g), m + 1),
{
    assert forall|i: int| 0 <= i < m + 1 implies #[trigger] group_for_entry(
        files,
        src,
        km,
        groups.push(g),
        i,
    ) by {
        if i < m {
            assert(group_for_entry(files, src, km, groups, i));
            assert(groups.push(g)[i] == groups[i]);
        } else {
            assert(groups.push(g)[i] == g);
        }
    }
}

/// The tables a flat archive's meta entries yield, in entry order:
/// the concatenation of each `.cnmt.nca` entry's tables.
pub open spec fn meta_tables_of_entries(
    files: Seq<crate::formats::pfs0::Pfs0File>,
    src: Seq<u8>,
    km: Map<Seq<u8>, Seq<u8>>,
    ts: Seq<Cnmt>,
) -> bool {
    exists|groups: Seq<Seq<Cnmt>>|
        #[trigger] groups_collect_upto(files, src, km, groups, files.len() as int) && ts
            == groups.flatten()
}

/// True when `groups[i]` is what hashed-archive entry `i` contributes:
/// a meta archive's tables for a `.cnmt.nca` name, one directly parsed
/// table for a bare `.cnmt` name, nothing otherwise.
pub open spec fn hfs0_group_for_entry(
    files: Seq<crate::formats::hfs0::Hfs0File>,
    src: Seq<u8>,
    km: Map<Seq<u8>, Seq<u8>>,
    groups: Seq<Seq<Cnmt>>,
    i: int,
) -> bool {
    if crate::formats::cnmt::is_cnmt_nca_name(files[i].name@) {
        nca_meta_tables(
            km,
            crate::io::read_range(src, files[i].offset as int, files[i].size as int),
            groups[i],
        )
    } else if crate::formats::cnmt::is_cnmt_name(files[i].name@) {
        groups[i].len() == 1 && groups[i][0].parsed_from(
            crate::io::read_range(src, files[i].offset as int, files[i].size as int),
        )
    } else {
        groups[i].len() == 0
    }
}

/// True when the first `m` hashed-archive entries each contributed
/// their group.
pub open spec fn hfs0_groups_upto(
    files: Seq<crate::formats::hfs0::Hfs0File>,
    src: Seq<u8>,
    km: Map<Seq<u8>, Seq<u8>>,
    groups: Seq<Seq<Cnmt>>,
    m: int,
) -> bool {
    &&& groups.len() == m
    &&& forall|i: int| 0 <= i < m ==> #[trigger] hfs0_group_for_entry(files, src, km, groups, i)
}

/// Appending one more hashed-archive entry's group keeps the earlier
/// ones.
pub proof fn lemma_hfs0_groups_push(
    files: Seq<crate::formats::hfs0::Hfs0File>,
    src: Seq<u8>,
    km: Map<Seq<u8>, Seq<u8>>,
    groups: Seq<Seq<Cnmt>>,
    g: Seq<Cnmt>,
    m: int,
)
    requires
        hfs0_groups_upto(files, src, km, groups, m),
        0 <= m < files.len(),
        crate::formats::cnmt::is_cnmt_nca_name(files[m].name@) ==> nca_meta_tables(
            km,
            crate::io::read_range(src, files[m].offset as int, files[m].size as int),
            g,
        ),
        (!crate::formats::cnmt::is_cnmt_nca_name(files[m].name@)
            && crate::formats::cnmt::is_cnmt_name(files[m].name@)) ==> g.len() == 1 && g[0].parsed_from(
            crate::io::read_range(src, files[m].offset as int, files[m].size as int),
        ),
        (!crate::formats::cnmt::is_cnmt_nca_name(files[m].name@)
            && !crate::formats::cnmt::is_cnmt_name(files[m].name@)) ==> g.len() == 0,
    ensures
        hfs0_groups_upto(files, src, km, groups.push(g), m + 1),
{
    assert forall|i: int| 0 <= i < m + 1 implies #[trigger] hfs0_group_for_entry(
        files,
        src,
        km,
        groups.push(g),
        i,
    ) by {
        if i < m {
            assert(hfs0_group_for_entry(files, src, km, groups, i));
            assert(groups.push(g)[i] == groups[i]);
        } else {
            assert(groups.push(g)[i] == g);
        }
    }
}

/// The tables a hashed archive's entries yield, in entry order.
pub open spec fn hfs0_meta_tables_of_entries(
    files: Seq<crate::formats::hfs0::Hfs0File>,
    src: Seq<u8>,
    km: Map<Seq<u8>, Seq<u8>>,
    ts: Seq<Cnmt>,
) -> bool {
    exists|groups: Seq<Seq<Cnmt>>|
        #[trigger] hfs0_groups_upto(files, src, km, groups, files.len() as int) && ts
            == groups.flatten()
}

/// Counting section entries over a longer prefix never counts fewer.
proof fn lemma_valid_count_mono(entries: Seq<FsEntry>, a: int, b: int)
    requires
        0 <= a <= b <= entries.len(),
    ensures
        valid_entry_count(entries.take(a)) <= valid_entry_count(entries.take(b)),
    decreases b,
{
    if a < b {
        lemma_valid_count_mono(entries, a, b - 1);
        assert(entries.take(b).drop_last() =~= entries.take(b - 1));
    }
}

/// Only one entry can be the `k`-th non-empty one.
proof fn lemma_nth_valid_unique(entries: Seq<FsEntry>, j1: int, j2: int, k: int)
    requires
        is_nth_valid(entries, j1, k),
        is_nth_valid(entries, j2, k),
    ensures
        j1 == j2,
{
    if j1 < j2 {
        assert(entries.take(j1 + 1).drop_last() =~= entries.take(j1));
        assert(entries.take(j1 + 1).last() == entries[j1]);
        lemma_valid_count_mono(entries, j1 + 1, j2);
        assert(false);
    } else if j2 < j1 {
        assert(entries.take(j2 + 1).drop_last() =~= entries.take(j2));
        assert(entries.take(j2 + 1).last() == entries[j2]);
        lemma_valid_count_mono(entries, j2 + 1, j1);
        assert(false);
    }
}

/// Parses every content-meta table inside one meta archive's bytes:
/// opens them as a content archive with the given keys, opens its
/// first section as a flat archive, and parses each file in it that
/// ends in `.cnmt`, appending the tables in file order.
pub fn collect_cnmts_from_bytes(
    data: Vec<u8>,
    keyset: &Keyset,
    title_keys: Option<&TitleKeys>,
    out: &mut Vec<Cnmt>,
) -> (r: Result<(), Error>)
    requires
        keyset.wf(),
        crate::formats::cnmt::all_parsed(old(out)@),
    ensures
        crate::formats::cnmt::all_parsed(final(out)@),
        match r {
            Ok(()) => exists|ts: Seq<Cnmt>|
                #[trigger] nca_meta_tables(keyset.key_map(), data@, ts) && final(out)@ == old(out)@
                    + ts,
            Err(_) => true,
        },
{
    let ghost gdata = data@;
    let nca = match Nca::from_reader(VecSource::new(data), keyset, title_keys) {
        Ok(n) => n,
        Err(e) => {
            return Err(e);
        },
    };
    let mut pfs0 = match nca.open_pfs0_filesystem(0) {
        Ok(p) => p,
        Err(e) => {
            return Err(e);
        },
    };
    let ghost stream = pfs0.src_bytes();
    proof {
        let dec = nca_dec_window(keyset.key_map()[header_key_name()], gdata);
        let js = choose|j: int|
            #[trigger] is_nth_valid(nca.header_spec().fs_entries@, j, 0) && section_stream_matches(
                stream,
                nca.src_bytes(),
                0x200 * nca.header_spec().fs_entries@[j].start_offset as int
                    + section_payload_offset(nca.fs_headers_spec()[0]),
                nca.fs_headers_spec()[0],
                nca.resolved_ctr_key(),
            );
        assert(section_record_at(nca.header_spec(), nca.fs_headers_spec(), dec, 0));
        let jr = choose|j: int|
            #[trigger] is_nth_valid(nca.header_spec().fs_entries@, j, 0) && fs_header_matches(
                nca.fs_headers_spec()[0],
                dec,
                0x400 + 0x200 * j,
            ) && fs_header_shape_ok(nca.fs_headers_spec()[0]);
        lemma_nth_valid_unique(nca.header_spec().fs_entries@, js, jr, 0);
        let h = nca.header_spec();
        let fh = nca.fs_headers_spec()[0];
        assert(section_stream_matches(
            stream,
            gdata,
            section_abs_offset(h, js, fh),
            fh,
            nca.resolved_ctr_key(),
        ));
        assert(fs_header_matches(fh, dec, section_record_base(js)));
        assert(nca_first_section_stream_is(keyset.key_map(), gdata, stream));
    }
    let count = pfs0.file_count();
    let ghost mut ts: Seq<Cnmt> = Seq::empty();
    let mut k: usize = 0;
    while k < count
        invariant
            keyset.wf(),
            pfs0.wf(),
            stream == pfs0.src_bytes(),
            count == pfs0.files_spec().len(),
            count == crate::formats::pfs0::pfs0_num_files(stream),
            forall|i: int|
                0 <= i < pfs0.files_spec().len()
                    ==> #[trigger] crate::formats::pfs0::pfs0_file_matches(
                    pfs0.files_spec(),
                    stream,
                    i,
                ),
            k <= count,
            out@ == old(out)@ + ts,
            crate::formats::cnmt::all_parsed(old(out)@),
            ts.len() == cnmt_count_upto(stream, k as int),
            forall|q: int| 0 <= q < ts.len() ==> #[trigger] cnmt_table_at(stream, ts, q),
            crate::formats::cnmt::all_parsed(out@),
        decreases count - k,
    {
        let file = pfs0.file_at(k);
        proof {
            assert(crate::formats::pfs0::pfs0_file_matches(pfs0.files_spec(), stream, k as int));
        }
        if name_is_cnmt(file.name.as_slice()) {
            let inner = match pfs0.read_entry(&file) {
                Ok(d) => d,
                Err(e) => {
                    return Err(e);
                },
            };
            match Cnmt::parse(&inner) {
                Ok(c) => {
                    proof {
                        crate::formats::cnmt::lemma_all_parsed_push(out@, c, inner@);
                        assert(is_nth_cnmt(stream, k as int, ts.len() as int));
                        assert(c.parsed_from(inner@));
                        let ghost old_ts = ts;
                        ts = ts.push(c);
                        assert(cnmt_table_at(stream, ts, old_ts.len() as int));
                        assert forall|q: int| 0 <= q < ts.len() implies #[trigger] cnmt_table_at(
                            stream,
                            ts,
                            q,
                        ) by {
                            if q < old_ts.len() {
                                lemma_cnmt_table_at_push(stream, old_ts, c, q);
                            }
                        }
                    }
                    out.push(c);
                    proof {
                        assert(out@ =~= old(out)@ + ts);
                    }
                },
                Err(e) => {
                    return Err(e);
                },
            }
        }
        k = k + 1;
    }
    proof {
        assert(pfs0_cnmt_tables(stream, ts));
        assert(nca_meta_tables(keyset.key_map(), gdata, ts));
    }
    Ok(())
}

} // verus!
