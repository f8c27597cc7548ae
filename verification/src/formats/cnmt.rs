use vstd::prelude::*;

use crate::bytes::{hex_digit_upper, le_val, read_le};
use crate::error::Error;
use crate::io::Source;

verus! {

/// The kind of content a content-meta table describes.
#[derive(Debug, Clone, Copy, PartialEq, Eq, Structural)]
pub enum ContentMetaType {
    Invalid,
    SystemProgram,
    SystemData,
    SystemUpdate,
    BootImagePackage,
    BootImagePackageSafe,
    Application,
    Patch,
    AddOnContent,
    Delta,
    DataPatch,
}

/// Decodes a content-meta type byte; recognized values only.
pub open spec fn meta_type_of(v: u8) -> Option<ContentMetaType> {
    if v == 0x00 {
        Some(ContentMetaType::Invalid)
    } else if v == 0x01 {
        Some(ContentMetaType::SystemProgram)
    } else if v == 0x02 {
        Some(ContentMetaType::SystemData)
    } else if v == 0x03 {
        Some(ContentMetaType::SystemUpdate)
    } else if v == 0x04 {
        Some(ContentMetaType::BootImagePackage)
    } else if v == 0x05 {
        Some(ContentMetaType::BootImagePackageSafe)
    } else if v == 0x80 {
        Some(ContentMetaType::Application)
    } else if v == 0x81 {
        Some(ContentMetaType::Patch)
    } else if v == 0x82 {
        Some(ContentMetaType::AddOnContent)
    } else if v == 0x83 {
        Some(ContentMetaType::Delta)
    } else if v == 0x84 {
        Some(ContentMetaType::DataPatch)
    } else {
        None
    }
}

fn meta_type_from_u8(v: u8) -> (r: Option<ContentMetaType>)
    ensures
        r == meta_type_of(v),
{
    match v {
        0x00 => Some(ContentMetaType::Invalid),
        0x01 => Some(ContentMetaType::SystemProgram),
        0x02 => Some(ContentMetaType::SystemData),
        0x03 => Some(ContentMetaType::SystemUpdate),
        0x04 => Some(ContentMetaType::BootImagePackage),
        0x05 => Some(ContentMetaType::BootImagePackageSafe),
        0x80 => Some(ContentMetaType::Application),
        0x81 => Some(ContentMetaType::Patch),
        0x82 => Some(ContentMetaType::AddOnContent),
        0x83 => Some(ContentMetaType::Delta),
        0x84 => Some(ContentMetaType::DataPatch),
        _ => None,
    }
}

/// The platform a content-meta table targets.
#[derive(Debug, Clone, Copy, PartialEq, Eq, Structural)]
pub enum ContentMetaPlatform {
    NX,
}

/// The kind of one packaged content file.
#[derive(Debug, Clone, Copy, PartialEq, Eq, Structural)]
pub enum PackagedContentType {
    Meta,
    Program,
    Data,
    Control,
    HtmlDocument,
    LegalInformation,
    DeltaFragment,
}

/// Decodes a packaged-content type byte; recognized values only.
pub open spec fn content_type_of(v: u8) -> Option<PackagedContentType> {
    if v == 0 {
        Some(PackagedContentType::Meta)
    } else if v == 1 {
        Some(PackagedContentType::Program)
    } else if v == 2 {
        Some(PackagedContentType::Data)
    } else if v == 3 {
        Some(PackagedContentType::Control)
    } else if v == 4 {
        Some(PackagedContentType::HtmlDocument)
    } else if v == 5 {
        Some(PackagedContentType::LegalInformation)
    } else if v == 6 {
        Some(PackagedContentType::DeltaFragment)
    } else {
        None
    }
}

fn content_type_from_u8(v: u8) -> (r: Option<PackagedContentType>)
    ensures
        r == content_type_of(v),
{
    match v {
        0 => Some(PackagedContentType::Meta),
        1 => Some(PackagedContentType::Program),
        2 => Some(PackagedContentType::Data),
        3 => Some(PackagedContentType::Control),
        4 => Some(PackagedContentType::HtmlDocument),
        5 => Some(PackagedContentType::LegalInformation),
        6 => Some(PackagedContentType::DeltaFragment),
        _ => None,
    }
}

/// The 0x20-byte header of a content-meta table.
#[derive(Debug, Clone)]
pub struct CnmtHeader {
    pub title_id: u64,
    pub title_version: u32,
    pub meta_type: ContentMetaType,
    pub meta_platform: ContentMetaPlatform,
    pub extended_header_size: u16,
    pub total_content_entries: u16,
    pub total_content_meta_entries: u16,
    pub attributes: u8,
    pub storage_id: u8,
    pub content_install_type: u8,
    pub required_dl_system_version: u32,
}

/// The extended header of an application table.
#[derive(Debug, Clone)]
pub struct ApplicationMetaExtendedHeader {
    pub patch_id: u64,
    pub required_system_version: u32,
    pub required_application_version: u32,
}

/// The extended header of a patch table.
#[derive(Debug, Clone)]
pub struct PatchMetaExtendedHeader {
    pub application_id: u64,
    pub required_system_version: u32,
    pub extended_data_size: u32,
}

/// The extended header of an add-on-content table.
#[derive(Debug, Clone)]
pub struct AddonContentMetaExtendedHeader {
    pub application_id: u64,
    pub required_application_version: u32,
    pub content_accessibilities: u8,
    pub data_patch_id: u64,
}

/// The extended header of a delta table.
#[derive(Debug, Clone)]
pub struct DeltaMetaExtendedHeader {
    pub application_id: u64,
    pub extended_data_size: u32,
}

/// The extended header of a system-update table.
#[derive(Debug, Clone)]
pub struct SystemUpdateMetaExtendedHeader {
    pub extended_data_size: u32,
}

/// The extended header of a data-patch table.
#[derive(Debug, Clone)]
pub struct DataPatchMetaExtendedHeader {
    pub application_id: u64,
    pub required_application_version: u32,
    pub extended_data_size: u32,
}

/// The extended header, interpreted by the table's meta type; an
/// unrecognized type keeps the raw bytes.
#[derive(Debug, Clone)]
pub enum ExtendedHeader {
    Application(ApplicationMetaExtendedHeader),
    Patch(PatchMetaExtendedHeader),
    Addon(AddonContentMetaExtendedHeader),
    Delta(DeltaMetaExtendedHeader),
    SystemUpdate(SystemUpdateMetaExtendedHeader),
    DataPatch(DataPatchMetaExtendedHeader),
    Unknown(Vec<u8>),
}

/// One packaged content record without its hash.
#[derive(Debug, Clone)]
pub struct PackagedContentInfo {
    /// The 16-byte content id.
    pub content_id: Vec<u8>,
    /// The content's size, a 48-bit value zero-extended (40 bits plus
    /// attributes on a data-patch table).
    pub size: u64,
    pub content_type: PackagedContentType,
    pub id_offset: u8,
}

/// One packaged content record.
#[derive(Debug, Clone)]
pub struct PackagedContent {
    /// The 32-byte hash of the content.
    pub hash: Vec<u8>,
    pub info: PackagedContentInfo,
}

/// One dependent content-meta record.
#[derive(Debug, Clone)]
pub struct ContentMetaEntry {
    pub title_id: u64,
    pub version: u32,
    pub meta_type: u8,
    pub attributes: u8,
}

/// The byte the table's meta type is stored in.
pub open spec fn cnmt_meta_type_byte(s: Seq<u8>) -> u8 {
    s[12]
}

/// Where the content entries start: after the header and the declared
/// extended header.
pub open spec fn cnmt_entries_base(s: Seq<u8>) -> int {
    0x20 + le_val(s, 14, 2)
}

/// The number of content entries the header declares.
pub open spec fn cnmt_content_count(s: Seq<u8>) -> int {
    le_val(s, 16, 2)
}

/// The number of dependent meta entries the header declares.
pub open spec fn cnmt_meta_count(s: Seq<u8>) -> int {
    le_val(s, 18, 2)
}

/// How many bytes the typed extended-header record occupies.
pub open spec fn cnmt_ext_struct_size(t: ContentMetaType) -> int {
    match t {
        ContentMetaType::Application => 0x10,
        ContentMetaType::Patch => 0x18,
        ContentMetaType::AddOnContent => 0x18,
        ContentMetaType::Delta => 0x10,
        ContentMetaType::SystemUpdate => 0x4,
        ContentMetaType::DataPatch => 0x18,
        _ => 0,
    }
}

/// What a whole table must satisfy to parse: a full header, recognized
/// meta type and platform bytes, room for the typed extended header and
/// for every entry, and a recognized type byte in every content entry.
pub open spec fn cnmt_parse_ok(s: Seq<u8>) -> bool {
    &&& s.len() >= 0x20
    &&& meta_type_of(s[12]).is_some()
    &&& s[13] == 0
    &&& 0x20 + cnmt_ext_struct_size(meta_type_of(s[12]).unwrap()) <= s.len()
    &&& (meta_type_of(s[12]).unwrap() is Invalid || meta_type_of(s[12]).unwrap()
        is SystemProgram || meta_type_of(s[12]).unwrap() is SystemData || meta_type_of(
        s[12],
    ).unwrap() is BootImagePackage || meta_type_of(s[12]).unwrap() is BootImagePackageSafe
        ==> cnmt_entries_base(s) <= s.len())
    &&& cnmt_entries_base(s) + 0x38 * cnmt_content_count(s) + 0x10 * cnmt_meta_count(s) <= s.len()
    &&& forall|i: int|
        0 <= i < cnmt_content_count(s) ==> content_type_of(
            #[trigger] s[cnmt_entries_base(s) + 0x38 * i + 54],
        ).is_some()
}

/// True when content entry `i` of `entries` describes what the table's
/// bytes hold there, under the given meta type.
pub open spec fn cnmt_entry_matches(
    entries: Seq<PackagedContent>,
    s: Seq<u8>,
    i: int,
    data_patch: bool,
) -> bool {
    let base = cnmt_entries_base(s) + 0x38 * i;
    &&& entries[i].hash@ == s.subrange(base, base + 32)
    &&& entries[i].info.content_id@ == s.subrange(base + 32, base + 48)
    &&& entries[i].info.size == (if data_patch {
        le_val(s, base + 48, 5)
    } else {
        le_val(s, base + 48, 6)
    })
    &&& Some(entries[i].info.content_type) == content_type_of(s[base + 54])
    &&& entries[i].info.id_offset == s[base + 55]
}

/// True when meta entry `i` of `metas` describes what the table's bytes
/// hold there.
pub open spec fn cnmt_meta_matches(metas: Seq<ContentMetaEntry>, s: Seq<u8>, i: int) -> bool {
    let base = cnmt_entries_base(s) + 0x38 * cnmt_content_count(s) + 0x10 * i;
    &&& metas[i].title_id == le_val(s, base, 8)
    &&& metas[i].version == le_val(s, base + 8, 4)
    &&& metas[i].meta_type == s[base + 12]
    &&& metas[i].attributes == s[base + 13]
}

/// A parsed content-meta table.
#[derive(Debug, Clone)]
pub struct Cnmt {
    pub header: CnmtHeader,
    pub extended_header: ExtendedHeader,
    pub content_entries: Vec<PackagedContent>,
    pub meta_entries: Vec<ContentMetaEntry>,
}

impl Cnmt {
    /// The parsed table is the faithful parse of `s`.
    pub open spec fn parsed_from(&self, s: Seq<u8>) -> bool {
        &&& cnmt_parse_ok(s)
        &&& self.header.title_id == le_val(s, 0, 8)
        &&& self.header.title_version == le_val(s, 8, 4)
        &&& Some(self.header.meta_type) == meta_type_of(s[12])
        &&& self.header.meta_platform == ContentMetaPlatform::NX
        &&& self.header.extended_header_size == le_val(s, 14, 2)
        &&& self.header.total_content_entries == cnmt_content_count(s)
        &&& self.header.total_content_meta_entries == cnmt_meta_count(s)
        &&& self.header.attributes == s[20]
        &&& self.header.storage_id == s[21]
        &&& self.header.content_install_type == s[22]
        &&& self.header.required_dl_system_version == le_val(s, 24, 4)
        &&& match self.header.meta_type {
            ContentMetaType::Application => self.extended_header matches ExtendedHeader::Application(
                a,
            ) && a.patch_id == le_val(s, 0x20, 8) && a.required_system_version == le_val(
                s,
                0x28,
                4,
            ) && a.required_application_version == le_val(s, 0x2C, 4),
            ContentMetaType::Patch => self.extended_header matches ExtendedHeader::Patch(p)
                && p.application_id == le_val(s, 0x20, 8) && p.required_system_version == le_val(
                s,
                0x28,
                4,
            ) && p.extended_data_size == le_val(s, 0x2C, 4),
            ContentMetaType::AddOnContent => self.extended_header matches ExtendedHeader::Addon(a)
                && a.application_id == le_val(s, 0x20, 8) && a.required_application_version
                == le_val(s, 0x28, 4) && a.content_accessibilities == s[0x2C] && a.data_patch_id
                == le_val(s, 0x30, 8),
            ContentMetaType::Delta => self.extended_header matches ExtendedHeader::Delta(d)
                && d.application_id == le_val(s, 0x20, 8) && d.extended_data_size == le_val(
                s,
                0x28,
                4,
            ),
            ContentMetaType::SystemUpdate => self.extended_header matches ExtendedHeader::SystemUpdate(
                u,
            ) && u.extended_data_size == le_val(s, 0x20, 4),
            ContentMetaType::DataPatch => self.extended_header matches ExtendedHeader::DataPatch(d)
                && d.application_id == le_val(s, 0x20, 8) && d.required_application_version
                == le_val(s, 0x28, 4) && d.extended_data_size == le_val(s, 0x2C, 4),
            _ => self.extended_header matches ExtendedHeader::Unknown(raw) && raw@ == s.subrange(
                0x20,
                cnmt_entries_base(s),
            ),
        }
        &&& self.content_entries@.len() == cnmt_content_count(s)
        &&& self.meta_entries@.len() == cnmt_meta_count(s)
        &&& forall|i: int|
            0 <= i < self.content_entries@.len() ==> #[trigger] cnmt_entry_matches(
                self.content_entries@,
                s,
                i,
                self.header.meta_type is DataPatch,
            )
        &&& forall|i: int|
            0 <= i < self.meta_entries@.len() ==> #[trigger] cnmt_meta_matches(
                self.meta_entries@,
                s,
                i,
            )
    }

    /// Parses a content-meta table from its bytes: the 0x20-byte
    /// header, the extended header chosen by the meta type, then the
    /// content entries and the dependent meta entries. A data-patch
    /// table's entries carry a 40-bit size and an attributes byte where
    /// the others carry a 48-bit size. Parsing succeeds exactly when
    /// the bytes are a whole table.
    pub fn parse(data: &Vec<u8>) -> (r: Result<Cnmt, Error>)
        ensures
            match r {
                Ok(c) => c.parsed_from(data@),
                Err(e) => e == Error::BinaryParser && !cnmt_parse_ok(data@),
            },
    {
        let ghost s = data@;
        let n = data.len();
        if n < 0x20 {
            return Err(Error::BinaryParser);
        }
        proof {
            reveal_with_fuel(crate::bytes::pow256, 9);
            crate::bytes::lemma_le_val_bound(s, 8, 4);
            crate::bytes::lemma_le_val_bound(s, 14, 2);
            crate::bytes::lemma_le_val_bound(s, 16, 2);
            crate::bytes::lemma_le_val_bound(s, 18, 2);
            crate::bytes::lemma_le_val_bound(s, 24, 4);
        }
        let title_id = read_le(data, 0, 8);
        let title_version = read_le(data, 8, 4) as u32;
        let meta_type_b = data[12];
        let platform_b = data[13];
        let extended_header_size = read_le(data, 14, 2) as u16;
        let total_content_entries = read_le(data, 16, 2) as u16;
        let total_content_meta_entries = read_le(data, 18, 2) as u16;
        let attributes = data[20];
        let storage_id = data[21];
        let content_install_type = data[22];
        let required_dl_system_version = read_le(data, 24, 4) as u32;
        let meta_type = match meta_type_from_u8(meta_type_b) {
            Some(t) => t,
            None => {
                return Err(Error::BinaryParser);
            },
        };
        if platform_b != 0 {
            return Err(Error::BinaryParser);
        }
        let ext_need: usize = match meta_type {
            ContentMetaType::Application => 0x10,
            ContentMetaType::Patch => 0x18,
            ContentMetaType::AddOnContent => 0x18,
            ContentMetaType::Delta => 0x10,
            ContentMetaType::SystemUpdate => 0x4,
            ContentMetaType::DataPatch => 0x18,
            _ => 0,
        };
        if n < 0x20 + ext_need {
            return Err(Error::BinaryParser);
        }
        proof {
            reveal_with_fuel(crate::bytes::pow256, 5);
            if 0x20 + 0xC + 4 <= n {
                crate::bytes::lemma_le_val_bound(s, 0x28, 4);
                crate::bytes::lemma_le_val_bound(s, 0x2C, 4);
            }
            if 0x20 + 4 <= n {
                crate::bytes::lemma_le_val_bound(s, 0x20, 4);
            }
        }
        let extended_header = match meta_type {
            ContentMetaType::Application => ExtendedHeader::Application(
                ApplicationMetaExtendedHeader {
                    patch_id: read_le(data, 0x20, 8),
                    required_system_version: read_le(data, 0x28, 4) as u32,
                    required_application_version: read_le(data, 0x2C, 4) as u32,
                },
            ),
            ContentMetaType::Patch => ExtendedHeader::Patch(
                PatchMetaExtendedHeader {
                    application_id: read_le(data, 0x20, 8),
                    required_system_version: read_le(data, 0x28, 4) as u32,
                    extended_data_size: read_le(data, 0x2C, 4) as u32,
                },
            ),
            ContentMetaType::AddOnContent => ExtendedHeader::Addon(
                AddonContentMetaExtendedHeader {
                    application_id: read_le(data, 0x20, 8),
                    required_application_version: read_le(data, 0x28, 4) as u32,
                    content_accessibilities: data[0x2C],
                    data_patch_id: read_le(data, 0x30, 8),
                },
            ),
            ContentMetaType::Delta => ExtendedHeader::Delta(
                DeltaMetaExtendedHeader {
                    application_id: read_le(data, 0x20, 8),
                    extended_data_size: read_le(data, 0x28, 4) as u32,
                },
            ),
            ContentMetaType::SystemUpdate => ExtendedHeader::SystemUpdate(
                SystemUpdateMetaExtendedHeader { extended_data_size: read_le(data, 0x20, 4) as u32 },
            ),
            ContentMetaType::DataPatch => ExtendedHeader::DataPatch(
                DataPatchMetaExtendedHeader {
                    application_id: read_le(data, 0x20, 8),
                    required_application_version: read_le(data, 0x28, 4) as u32,
                    extended_data_size: read_le(data, 0x2C, 4) as u32,
                },
            ),
            _ => {
                let take = if (extended_header_size as usize) <= n - 0x20 {
                    extended_header_size as usize
                } else {
                    return Err(Error::BinaryParser);
                };
                let raw = crate::bytes::copy_range(data, 0x20, 0x20 + take);
                proof {
                    assert(raw@ =~= s.subrange(0x20, cnmt_entries_base(s)));
                }
                ExtendedHeader::Unknown(raw)
            },
        };
        let entries_base: usize = 0x20 + extended_header_size as usize;
        let cc = total_content_entries as usize;
        let mc = total_content_meta_entries as usize;
        let need: usize = 0x38 * cc + 0x10 * mc;
        if entries_base > n || need > n - entries_base {
            return Err(Error::BinaryParser);
        }
        let data_patch = match meta_type {
            ContentMetaType::DataPatch => true,
            _ => false,
        };
        let mut content_entries: Vec<PackagedContent> = Vec::new();
        let mut i: usize = 0;
        while i < cc
            invariant
                s == data@,
                n == s.len(),
                i <= cc,
                cc == cnmt_content_count(s),
                s.len() >= 0x20,
                entries_base == cnmt_entries_base(s),
                entries_base + 0x38 * (cc as int) + 0x10 * (mc as int) <= n,
                data_patch == (meta_type is DataPatch),
                content_entries@.len() == i,
                forall|j: int|
                    0 <= j < i ==> #[trigger] cnmt_entry_matches(
                        content_entries@,
                        s,
                        j,
                        data_patch,
                    ),
                forall|j: int|
                    0 <= j < i ==> content_type_of(
                        #[trigger] s[cnmt_entries_base(s) + 0x38 * j + 54],
                    ).is_some(),
            decreases cc - i,
        {
            let base = entries_base + 0x38 * i;
            let hash = crate::bytes::copy_range(data, base, base + 32);
            let content_id = crate::bytes::copy_range(data, base + 32, base + 48);
            let size = if data_patch {
                read_le(data, base + 48, 5)
            } else {
                read_le(data, base + 48, 6)
            };
            let content_type = match content_type_from_u8(data[base + 54]) {
                Some(t) => t,
                None => {
                    proof {
                        assert(content_type_of(s[cnmt_entries_base(s) + 0x38 * (i as int)
                            + 54]).is_none());
                        assert(!cnmt_parse_ok(s));
                    }
                    return Err(Error::BinaryParser);
                },
            };
            let id_offset = data[base + 55];
            let ghost old_entries = content_entries@;
            content_entries.push(
                PackagedContent {
                    hash,
                    info: PackagedContentInfo { content_id, size, content_type, id_offset },
                },
            );
            proof {
                assert(cnmt_entry_matches(content_entries@, s, i as int, data_patch));
                assert forall|j: int| 0 <= j < i implies #[trigger] cnmt_entry_matches(
                    content_entries@,
                    s,
                    j,
                    data_patch,
                ) by {
                    assert(cnmt_entry_matches(old_entries, s, j, data_patch));
                    assert(content_entries@[j] == old_entries[j]);
                }
            }
            i = i + 1;
        }
        let metas_base: usize = entries_base + 0x38 * cc;
        let mut meta_entries: Vec<ContentMetaEntry> = Vec::new();
        let mut k: usize = 0;
        while k < mc
            invariant
                s == data@,
                n == s.len(),
                k <= mc,
                cc == cnmt_content_count(s),
                mc == cnmt_meta_count(s),
                s.len() >= 0x20,
                entries_base == cnmt_entries_base(s),
                metas_base == cnmt_entries_base(s) + 0x38 * (cc as int),
                metas_base + 0x10 * (mc as int) <= n,
                meta_entries@.len() == k,
                forall|j: int| 0 <= j < k ==> #[trigger] cnmt_meta_matches(meta_entries@, s, j),
            decreases mc - k,
        {
            let base = metas_base + 0x10 * k;
            proof {
                reveal_with_fuel(crate::bytes::pow256, 5);
                crate::bytes::lemma_le_val_bound(s, base + 8, 4);
            }
            let ghost old_metas = meta_entries@;
            meta_entries.push(
                ContentMetaEntry {
                    title_id: read_le(data, base, 8),
                    version: read_le(data, base + 8, 4) as u32,
                    meta_type: data[base + 12],
                    attributes: data[base + 13],
                },
            );
            proof {
                assert(cnmt_meta_matches(meta_entries@, s, k as int));
                assert forall|j: int| 0 <= j < k implies #[trigger] cnmt_meta_matches(
                    meta_entries@,
                    s,
                    j,
                ) by {
                    assert(cnmt_meta_matches(old_metas, s, j));
                    assert(meta_entries@[j] == old_metas[j]);
                }
            }
            k = k + 1;
        }
        Ok(
            Cnmt {
                header: CnmtHeader {
                    title_id,
                    title_version,
                    meta_type,
                    meta_platform: ContentMetaPlatform::NX,
                    extended_header_size,
                    total_content_entries,
                    total_content_meta_entries,
                    attributes,
                    storage_id,
                    content_install_type,
                    required_dl_system_version,
                },
                extended_header,
                content_entries,
                meta_entries,
            },
        )
    }

    /// Reads a whole table from a source and parses it.
    pub fn from_reader<S: Source>(reader: &mut S) -> (r: Result<Cnmt, Error>)
        requires
            old(reader).wf(),
        ensures
            final(reader).wf(),
            final(reader).bytes() == old(reader).bytes(),
            match r {
                Ok(c) => c.parsed_from(old(reader).bytes()),
                Err(e) => {
                    ||| e == Error::Io
                    ||| (e == Error::InvalidData && old(reader).bytes().len() > usize::MAX)
                    ||| (e == Error::BinaryParser && !cnmt_parse_ok(old(reader).bytes()))
                },
            },
    {
        proof {
            reader.lemma_len_bound();
        }
        let len = reader.source_size();
        if len > usize::MAX as u64 {
            return Err(Error::InvalidData);
        }
        let data = match reader.read_at(0, len as usize) {
            Ok(d) => d,
            Err(e) => {
                return Err(e);
            },
        };
        proof {
            assert(data@ =~= old(reader).bytes());
        }
        Cnmt::parse(&data)
    }

    /// The first content entry of this type, if any.
    pub fn get_content_entry_by_type(&self, content_type: PackagedContentType) -> (r: Option<
        &PackagedContent,
    >)
        ensures
            match r {
                Some(e) => exists|i: int|
                    0 <= i < self.content_entries@.len() && e == #[trigger] self.content_entries@[i]
                        && e.info.content_type == content_type && forall|j: int|
                        0 <= j < i ==> (#[trigger] self.content_entries@[j]).info.content_type
                            != content_type,
                None => forall|i: int|
                    0 <= i < self.content_entries@.len() ==> (
                    #[trigger] self.content_entries@[i]).info.content_type != content_type,
            },
    {
        let n = self.content_entries.len();
        let mut i: usize = 0;
        while i < n
            invariant
                i <= n,
                n == self.content_entries@.len(),
                forall|j: int|
                    0 <= j < i ==> (#[trigger] self.content_entries@[j]).info.content_type
                        != content_type,
            decreases n - i,
        {
            if self.content_entries[i].info.content_type == content_type {
                return Some(&self.content_entries[i]);
            }
            i = i + 1;
        }
        None
    }

    /// The content id of the first program entry, if any.
    pub fn get_main_content_id(&self) -> (r: Option<Vec<u8>>)
        ensures
            match r {
                Some(id) => exists|i: int|
                    0 <= i < self.content_entries@.len() && id@ == (
                    #[trigger] self.content_entries@[i]).info.content_id@
                        && self.content_entries@[i].info.content_type
                        == PackagedContentType::Program,
                None => forall|i: int|
                    0 <= i < self.content_entries@.len() ==> (
                    #[trigger] self.content_entries@[i]).info.content_type
                        != PackagedContentType::Program,
            },
    {
        match self.get_content_entry_by_type(PackagedContentType::Program) {
            Some(e) => Some(crate::formats::keyset::clone_bytes(&e.info.content_id)),
            None => None,
        }
    }

    /// The title id as sixteen upper-case hexadecimal characters, most
    /// significant digit first.
    pub fn get_title_id_string(&self) -> (r: String)
        ensures
            r@ == u64_hex_upper_chars(self.header.title_id),
    {
        let mut v: Vec<u8> = Vec::new();
        let x = self.header.title_id;
        let mut i: usize = 0;
        while i < 16
            invariant
                i <= 16,
                x == self.header.title_id,
                v@.len() == i,
                forall|j: int|
                    0 <= j < i ==> v@[j] == hex_digit_upper(
                        ((x >> (((15 - j) * 4) as u64)) & 0xF) as int,
                    ) && v@[j] < 0x80,
            decreases 16 - i,
        {
            let sh: u64 = (60 - 4 * i) as u64;
            let nib: u64 = (x >> sh) & 0xF;
            proof {
                assert((x >> sh) & 0xF < 16) by (bit_vector);
                assert(sh == ((15 - i as int) * 4) as u64);
            }
            if nib < 10 {
                v.push(0x30 + nib as u8);
            } else {
                v.push(0x41 + (nib - 10) as u8);
            }
            i = i + 1;
        }
        let r = crate::bytes::ascii_to_string(v);
        proof {
            assert(r@ =~= u64_hex_upper_chars(self.header.title_id));
        }
        r
    }
}

/// The sixteen upper-case hexadecimal characters of a 64-bit value,
/// most significant digit first.
pub open spec fn u64_hex_upper_chars(x: u64) -> Seq<char> {
    Seq::new(16, |j: int| hex_digit_upper(((x >> (((15 - j) * 4) as u64)) & 0xF) as int) as char)
}

/// True when the table is the faithful parse of some byte sequence.
pub open spec fn parsed_somewhere(c: Cnmt) -> bool {
    exists|b: Seq<u8>| c.parsed_from(b)
}

/// True when every table in the run is the faithful parse of some
/// byte sequence.
pub open spec fn all_parsed(cs: Seq<Cnmt>) -> bool {
    forall|i: int| 0 <= i < cs.len() ==> parsed_somewhere(#[trigger] cs[i])
}

pub proof fn lemma_all_parsed_push(cs: Seq<Cnmt>, c: Cnmt, b: Seq<u8>)
    requires
        all_parsed(cs),
        c.parsed_from(b),
    ensures
        all_parsed(cs.push(c)),
{
    assert(parsed_somewhere(c));
    assert forall|i: int| 0 <= i < cs.push(c).len() implies parsed_somewhere(
        #[trigger] cs.push(c)[i],
    ) by {
        if i < cs.len() {
            assert(cs.push(c)[i] == cs[i]);
            assert(parsed_somewhere(cs[i]));
        } else {
            assert(cs.push(c)[i] == c);
        }
    }
}

/// The suffix `.cnmt.nca` of a meta archive's name.
pub open spec fn cnmt_nca_suffix() -> Seq<u8> {
    seq![0x2Eu8, 0x63, 0x6E, 0x6D, 0x74, 0x2E, 0x6E, 0x63, 0x61]
}

/// The suffix `.cnmt` of a content-meta table's name.
pub open spec fn cnmt_suffix() -> Seq<u8> {
    seq![0x2Eu8, 0x63, 0x6E, 0x6D, 0x74]
}

/// True when `name` ends in `.cnmt.nca`.
pub open spec fn is_cnmt_nca_name(name: Seq<u8>) -> bool {
    name.len() >= 9 && name.skip(name.len() - 9) == cnmt_nca_suffix()
}

/// True when `name` ends in `.cnmt`.
pub open spec fn is_cnmt_name(name: Seq<u8>) -> bool {
    name.len() >= 5 && name.skip(name.len() - 5) == cnmt_suffix()
}

/// Tests a name for the `.cnmt.nca` suffix.
pub fn name_is_cnmt_nca(name: &[u8]) -> (r: bool)
    ensures
        r == is_cnmt_nca_name(name@),
{
    let r = crate::bytes::ends_with(name, &[0x2E, 0x63, 0x6E, 0x6D, 0x74, 0x2E, 0x6E, 0x63, 0x61]);
    proof {
        if name@.len() >= 9 {
            assert(seq![0x2Eu8, 0x63, 0x6E, 0x6D, 0x74, 0x2E, 0x6E, 0x63, 0x61]
                =~= cnmt_nca_suffix());
        }
    }
    r
}

/// Tests a name for the `.cnmt` suffix.
pub fn name_is_cnmt(name: &[u8]) -> (r: bool)
    ensures
        r == is_cnmt_name(name@),
{
    let r = crate::bytes::ends_with(name, &[0x2E, 0x63, 0x6E, 0x6D, 0x74]);
    proof {
        if name@.len() >= 5 {
            assert(seq![0x2Eu8, 0x63, 0x6E, 0x6D, 0x74] =~= cnmt_suffix());
        }
    }
    r
}


impl CnmtHeader {
    /// Parses just the 0x20-byte header of a table.
    pub fn parse(data: &Vec<u8>) -> (r: Result<CnmtHeader, Error>)
        ensures
            match r {
                Ok(h) => {
                    &&& data@.len() >= 0x20
                    &&& h.title_id == le_val(data@, 0, 8)
                    &&& h.title_version == le_val(data@, 8, 4)
                    &&& Some(h.meta_type) == meta_type_of(data@[12])
                    &&& h.meta_platform == ContentMetaPlatform::NX
                    &&& h.extended_header_size == le_val(data@, 14, 2)
                    &&& h.total_content_entries == le_val(data@, 16, 2)
                    &&& h.total_content_meta_entries == le_val(data@, 18, 2)
                    &&& h.attributes == data@[20]
                    &&& h.storage_id == data@[21]
                    &&& h.content_install_type == data@[22]
                    &&& h.required_dl_system_version == le_val(data@, 24, 4)
                },
                Err(e) => e == Error::BinaryParser && (data@.len() < 0x20 || meta_type_of(
                    data@[12],
                ).is_none() || data@[13] != 0),
            },
    {
        let ghost s = data@;
        if data.len() < 0x20 {
            return Err(Error::BinaryParser);
        }
        proof {
            reveal_with_fuel(crate::bytes::pow256, 9);
            crate::bytes::lemma_le_val_bound(s, 8, 4);
            crate::bytes::lemma_le_val_bound(s, 14, 2);
            crate::bytes::lemma_le_val_bound(s, 16, 2);
            crate::bytes::lemma_le_val_bound(s, 18, 2);
            crate::bytes::lemma_le_val_bound(s, 24, 4);
        }
        let meta_type = match meta_type_from_u8(data[12]) {
            Some(t) => t,
            None => {
                return Err(Error::BinaryParser);
            },
        };
        if data[13] != 0 {
            return Err(Error::BinaryParser);
        }
        Ok(
            CnmtHeader {
                title_id: read_le(data, 0, 8),
                title_version: read_le(data, 8, 4) as u32,
                meta_type,
                meta_platform: ContentMetaPlatform::NX,
                extended_header_size: read_le(data, 14, 2) as u16,
                total_content_entries: read_le(data, 16, 2) as u16,
                total_content_meta_entries: read_le(data, 18, 2) as u16,
                attributes: data[20],
                storage_id: data[21],
                content_install_type: data[22],
                required_dl_system_version: read_le(data, 24, 4) as u32,
            },
        )
    }
}

impl PackagedContent {
    /// Parses one 0x38-byte content record at `off`, with the 48-bit
    /// size of the ordinary layout.
    pub fn parse(data: &Vec<u8>, off: usize) -> (r: Result<PackagedContent, Error>)
        ensures
            match r {
                Ok(e) => {
                    &&& off + 0x38 <= data@.len()
                    &&& e.hash@ == data@.subrange(off as int, off + 32)
                    &&& e.info.content_id@ == data@.subrange(off + 32, off + 48)
                    &&& e.info.size == le_val(data@, off + 48, 6)
                    &&& Some(e.info.content_type) == content_type_of(data@[off + 54])
                    &&& e.info.id_offset == data@[off + 55]
                },
                Err(e) => e == Error::BinaryParser && (off + 0x38 > data@.len() || content_type_of(
                    data@[off + 54],
                ).is_none()),
            },
    {
        if data.len() < 0x38 || off > data.len() - 0x38 {
            return Err(Error::BinaryParser);
        }
        let content_type = match content_type_from_u8(data[off + 54]) {
            Some(t) => t,
            None => {
                return Err(Error::BinaryParser);
            },
        };
        Ok(
            PackagedContent {
                hash: crate::bytes::copy_range(data, off, off + 32),
                info: PackagedContentInfo {
                    content_id: crate::bytes::copy_range(data, off + 32, off + 48),
                    size: read_le(data, off + 48, 6),
                    content_type,
                    id_offset: data[off + 55],
                },
            },
        )
    }
}

} // verus!
