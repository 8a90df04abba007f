//! The fixed structures at the start of the file: the file type identifier,
//! the two header copies and the two region table copies.
use vstd::bytes::*;
use vstd::prelude::*;

use crate::bytes::{
    crc32c, crc32c_of, le128, le16, le32, le64, lemma_le_round_trip, push_u128, push_u16,
    push_u32, push_u64, push_zeros, read_u128, read_u16, read_u32, read_u64, zeros,
};
use crate::error::{Field, VhdxError};
use crate::guid::Guid;
use crate::signature::{lemma_tag4_value, tag4_of, tag8_of, Signature};
use crate::{Crc32, Validation, MB};

verus! {

/// Size of the file type identifier region.
pub const FTI_SIZE: usize = 65536;

/// Number of UTF-16 code units the creator field holds.
pub const CREATOR_UNITS: usize = 256;

/// Size of a header structure.
pub const HEADER_SIZE: usize = 4096;

/// Bytes of a header that carry fields; the rest is reserved.
pub const HEADER_FIELDS_SIZE: usize = 80;

/// Text of a sequence of UTF-16 code units, unpaired surrogates replaced by
/// U+FFFD.
pub uninterp spec fn utf16_text_of(units: Seq<u16>) -> Seq<char>;

/// Relies on `String::from_utf16_lossy`: the text depends on the code units
/// alone.
#[verifier::external_body]
fn utf16_text(units: &Vec<u16>) -> (r: String)
    ensures
        r@ == utf16_text_of(units@),
{
    String::from_utf16_lossy(units)
}

/// The creator's code units from unit `i` on, up to the first zero unit.
pub open spec fn creator_units_from(b: Seq<u8>, i: int) -> Seq<u16>
    decreases CREATOR_UNITS - i,
{
    if i < 0 || i >= CREATOR_UNITS || le16(b, 8 + 2 * i) == 0 {
        Seq::empty()
    } else {
        seq![le16(b, 8 + 2 * i)] + creator_units_from(b, i + 1)
    }
}

/// The creator's code units: those after the magic, up to the first zero
/// unit.
pub open spec fn creator_units(b: Seq<u8>) -> Seq<u16> {
    creator_units_from(b, 0)
}

#[derive(Debug)]
pub struct FileTypeIdentifier {
    pub signature: Signature,
    pub creator: String,
}

impl FileTypeIdentifier {
    pub fn new(signature: Signature, creator: String) -> (r: FileTypeIdentifier)
        ensures
            r.signature == signature,
            r.creator == creator,
    {
        FileTypeIdentifier { signature, creator }
    }

    /// Decodes the identifier region at the start of `b`.
    pub fn deserialize(b: &[u8]) -> (r: Result<FileTypeIdentifier, VhdxError>)
        ensures
            b@.len() < FTI_SIZE ==> r == Err::<FileTypeIdentifier, VhdxError>(
                VhdxError::ShortRead(FTI_SIZE as u64, b@.len() as u64),
            ),
            b@.len() >= FTI_SIZE && tag8_of(le64(b@, 0)) != Signature::Vhdxfile ==> r == Err::<
                FileTypeIdentifier,
                VhdxError,
            >(VhdxError::SignatureMismatch(Signature::Vhdxfile, tag8_of(le64(b@, 0)))),
            b@.len() >= FTI_SIZE && tag8_of(le64(b@, 0)) == Signature::Vhdxfile ==> r is Ok,
            r matches Ok(f) ==> f.signature == Signature::Vhdxfile && f.creator@ == utf16_text_of(
                creator_units(b@),
            ),
    {
        if b.len() < FTI_SIZE {
            return Err(VhdxError::ShortRead(FTI_SIZE as u64, b.len() as u64));
        }
        let signature = Signature::from_tag8(read_u64(b, 0));
        if !matches!(signature, Signature::Vhdxfile) {
            return Err(VhdxError::SignatureMismatch(Signature::Vhdxfile, signature));
        }
        let mut units: Vec<u16> = Vec::new();
        let mut i: usize = 0;
        while i < CREATOR_UNITS
            invariant
                b@.len() >= FTI_SIZE,
                0 <= i <= CREATOR_UNITS,
                units@ + creator_units_from(b@, i as int) == creator_units(b@),
            ensures
                units@ == creator_units(b@),
            decreases CREATOR_UNITS - i,
        {
            let u = read_u16(b, 8 + 2 * i);
            if u == 0 {
                assert(units@ + creator_units_from(b@, i as int) =~= units@);
                break;
            }
            let ghost before = units@;
            units.push(u);
            assert(units@ + creator_units_from(b@, i + 1) =~= before + creator_units_from(
                b@,
                i as int,
            ));
            i = i + 1;
            if i == CREATOR_UNITS {
                assert(units@ + creator_units_from(b@, i as int) =~= units@);
            }
        }
        Ok(FileTypeIdentifier::new(signature, utf16_text(&units)))
    }
}

// Since the header is used to locate the log, it cannot be updated through
// the log; two copies, at 64 KB and 128 KB, give power-failure consistency.
// Only the current copy is used.
#[derive(Debug, Clone, Copy, PartialEq, Eq, Structural)]
pub struct Header {
    /// Must be `head`.
    pub signature: Signature,
    /// CRC-32C over the 4 KB structure with this field zeroed.
    pub checksum: u32,
    /// The copy with the larger value is current.
    pub seq_number: u64,
    pub file_write_guid: Guid,
    pub data_write_guid: Guid,
    /// Zero when there is no log to replay; otherwise only log entries
    /// carrying this identifier are valid.
    pub log_guid: Guid,
    /// Must be 0 unless `log_guid` is zero.
    pub log_version: u16,
    /// Format version; must be 1.
    pub version: u16,
    /// Size of the log in bytes; a multiple of 1 MB.
    pub log_length: u32,
    /// File offset of the log; a multiple of 1 MB.
    pub log_offset: u64,
}

/// The header whose layout starts `b`.
pub open spec fn header_of(b: Seq<u8>) -> Header {
    Header {
        signature: tag4_of(le32(b, 0)),
        checksum: le32(b, 4),
        seq_number: le64(b, 8),
        file_write_guid: Guid { value: le128(b, 16) },
        data_write_guid: Guid { value: le128(b, 32) },
        log_guid: Guid { value: le128(b, 48) },
        log_version: le16(b, 64),
        version: le16(b, 66),
        log_length: le32(b, 68),
        log_offset: le64(b, 72),
    }
}

/// `b`'s first `size` bytes with the checksum field (bytes 4 to 7) zeroed.
pub open spec fn with_checksum_zeroed(b: Seq<u8>, size: int) -> Seq<u8> {
    b.subrange(0, 4) + zeros(4) + b.subrange(8, size)
}

impl Header {
    pub fn new(
        signature: Signature,
        checksum: u32,
        seq_number: u64,
        file_write_guid: Guid,
        data_write_guid: Guid,
        log_guid: Guid,
        log_version: u16,
        version: u16,
        log_length: u32,
        log_offset: u64,
    ) -> (r: Header)
        ensures
            r == (Header {
                signature,
                checksum,
                seq_number,
                file_write_guid,
                data_write_guid,
                log_guid,
                log_version,
                version,
                log_length,
                log_offset,
            }),
    {
        Header {
            signature,
            checksum,
            seq_number,
            file_write_guid,
            data_write_guid,
            log_guid,
            log_version,
            version,
            log_length,
            log_offset,
        }
    }

    pub fn sequence_number(&self) -> (r: u64)
        ensures
            r == self.seq_number,
    {
        self.seq_number
    }

    /// Decodes the header whose layout starts `b`.
    pub fn deserialize(b: &[u8]) -> (r: Result<Header, VhdxError>)
        ensures
            b@.len() < HEADER_SIZE ==> r == Err::<Header, VhdxError>(
                VhdxError::ShortRead(HEADER_SIZE as u64, b@.len() as u64),
            ),
            b@.len() >= HEADER_SIZE ==> r == Ok::<Header, VhdxError>(header_of(b@)),
    {
        if b.len() < HEADER_SIZE {
            return Err(VhdxError::ShortRead(HEADER_SIZE as u64, b.len() as u64));
        }
        Ok(
            Header::new(
                Signature::from_tag4(read_u32(b, 0)),
                read_u32(b, 4),
                read_u64(b, 8),
                Guid { value: read_u128(b, 16) },
                Guid { value: read_u128(b, 32) },
                Guid { value: read_u128(b, 48) },
                read_u16(b, 64),
                read_u16(b, 66),
                read_u32(b, 68),
                read_u64(b, 72),
            ),
        )
    }
}

impl Crc32 for Header {
    open spec fn crc_input(&self) -> Seq<u8> {
        spec_u32_to_le_bytes(self.signature.spec_tag_value() as u32) + zeros(4)
            + spec_u64_to_le_bytes(self.seq_number) + spec_u128_to_le_bytes(
            self.file_write_guid.value,
        ) + spec_u128_to_le_bytes(self.data_write_guid.value) + spec_u128_to_le_bytes(
            self.log_guid.value,
        ) + spec_u16_to_le_bytes(self.log_version) + spec_u16_to_le_bytes(self.version)
            + spec_u32_to_le_bytes(self.log_length) + spec_u64_to_le_bytes(self.log_offset) + zeros(
            (HEADER_SIZE - HEADER_FIELDS_SIZE) as nat,
        )
    }

    fn append_crc_input(&self, buf: &mut Vec<u8>) {
        push_u32(buf, self.signature.tag_value() as u32);
        push_zeros(buf, 4);
        push_u64(buf, self.seq_number);
        push_u128(buf, self.file_write_guid.value);
        push_u128(buf, self.data_write_guid.value);
        push_u128(buf, self.log_guid.value);
        push_u16(buf, self.log_version);
        push_u16(buf, self.version);
        push_u32(buf, self.log_length);
        push_u64(buf, self.log_offset);
        push_zeros(buf, HEADER_SIZE - HEADER_FIELDS_SIZE);
    }

    fn crc32(&self) -> (r: u32) {
        let mut buf: Vec<u8> = Vec::new();
        self.append_crc_input(&mut buf);
        assert(buf@ =~= self.crc_input());
        crc32c(buf.as_slice())
    }
}

impl Validation for Header {
    open spec fn validation(&self) -> Result<(), VhdxError> {
        if self.signature != Signature::Head {
            Err(VhdxError::SignatureMismatch(Signature::Head, self.signature))
        } else if self.checksum != crc32c_of(self.crc_input()) {
            Err(VhdxError::ChecksumMismatch(self.checksum, crc32c_of(self.crc_input())))
        } else if self.version != 1 {
            Err(VhdxError::UnsupportedVersion(self.version))
        } else if self.log_version != 0 && !self.log_guid.spec_is_nil() {
            Err(VhdxError::UnsupportedLogVersion(self.log_version))
        } else if self.log_length as u64 % MB != 0 {
            Err(VhdxError::AlignmentViolation(Field::LogLength, self.log_length as u64, MB))
        } else if self.log_offset % MB != 0 {
            Err(VhdxError::AlignmentViolation(Field::LogOffset, self.log_offset, MB))
        } else {
            Ok(())
        }
    }

    fn validate(&self) -> (r: Result<(), VhdxError>) {
        if !matches!(self.signature, Signature::Head) {
            return Err(VhdxError::SignatureMismatch(Signature::Head, self.signature));
        }
        let crc = self.crc32();
        if self.checksum != crc {
            return Err(VhdxError::ChecksumMismatch(self.checksum, crc));
        }
        if self.version != 1 {
            return Err(VhdxError::UnsupportedVersion(self.version));
        }
        if self.log_version != 0 && !self.log_guid.is_nil() {
            return Err(VhdxError::UnsupportedLogVersion(self.log_version));
        }
        if self.log_length as u64 % MB != 0 {
            return Err(VhdxError::AlignmentViolation(Field::LogLength, self.log_length as u64, MB));
        }
        if self.log_offset % MB != 0 {
            return Err(VhdxError::AlignmentViolation(Field::LogOffset, self.log_offset, MB));
        }
        Ok(())
    }
}

/// The current header of two copies: of the copies that validate, the one
/// with the larger sequence number (the first on a tie); if neither
/// validates, the first copy's error.
pub open spec fn current_header(first: Header, second: Header) -> Result<Header, VhdxError> {
    match (first.validation(), second.validation()) {
        (Ok(_), Ok(_)) => if second.seq_number > first.seq_number {
            Ok(second)
        } else {
            Ok(first)
        },
        (Ok(_), Err(_)) => Ok(first),
        (Err(_), Ok(_)) => Ok(second),
        (Err(e), Err(_)) => Err(e),
    }
}

/// Selects the current header of two copies.
pub fn select_header(first: &Header, second: &Header) -> (r: Result<Header, VhdxError>)
    ensures
        r == current_header(*first, *second),
{
    let v1 = first.validate();
    let v2 = second.validate();
    match (v1, v2) {
        (Ok(_), Ok(_)) => if second.seq_number > first.seq_number {
            Ok(*second)
        } else {
            Ok(*first)
        },
        (Ok(_), Err(_)) => Ok(*first),
        (Err(_), Ok(_)) => Ok(*second),
        (Err(e), Err(_)) => Err(e),
    }
}

/// Of two header copies that both validate and differ only in their
/// sequence numbers (and so in their checksums), the one with the larger
/// sequence number is current.
pub proof fn lemma_select_larger_sequence(first: Header, second: Header)
    requires
        first.validation() is Ok,
        second.validation() is Ok,
        first == (Header { seq_number: first.seq_number, checksum: first.checksum, ..second }),
    ensures
        current_header(first, second) == Ok::<Header, VhdxError>(
            if first.seq_number >= second.seq_number {
                first
            } else {
                second
            },
        ),
{
}

/// Recomputing the checksum of a decoded header reproduces the checksum of
/// its on-disk layout with the checksum field zeroed; so for any layout
/// whose stored checksum is right, recomputation gives the stored value.
pub proof fn lemma_header_checksum_round_trip(b: Seq<u8>)
    requires
        b.len() >= HEADER_SIZE,
        forall|i: int| HEADER_FIELDS_SIZE <= i < HEADER_SIZE ==> b[i] == 0,
    ensures
        header_of(b).crc_input() == with_checksum_zeroed(b, HEADER_SIZE as int),
        crc32c_of(with_checksum_zeroed(b, HEADER_SIZE as int)) == le32(b, 4) ==> crc32c_of(
            header_of(b).crc_input(),
        ) == header_of(b).checksum,
{
    let h = header_of(b);
    lemma_tag4_value(le32(b, 0));
    lemma_le_round_trip(b, 0);
    lemma_le_round_trip(b, 8);
    lemma_le_round_trip(b, 16);
    lemma_le_round_trip(b, 32);
    lemma_le_round_trip(b, 48);
    lemma_le_round_trip(b, 64);
    assert(spec_u16_to_le_bytes(le16(b, 66)) == b.subrange(66, 68)) by {
        lemma_le_round_trip(b, 66);
    }
    assert(spec_u32_to_le_bytes(le32(b, 68)) == b.subrange(68, 72)) by {
        lemma_le_round_trip(b, 68);
    }
    assert(spec_u64_to_le_bytes(le64(b, 72)) == b.subrange(72, 80)) by {
        lemma_le_round_trip(b, 72);
    }
    assert(b.subrange(80, 4096) =~= zeros(4016));
    assert(h.crc_input() =~= with_checksum_zeroed(b, HEADER_SIZE as int));
}

} // verus!

verus! {

/// Size of a region table copy.
pub const REGION_TABLE_SIZE: usize = 65536;

/// Size of the region table's own header.
pub const RT_HEADER_SIZE: usize = 16;

/// Size of one region table entry.
pub const RT_ENTRY_SIZE: usize = 32;

/// The most entries a region table may hold.
pub const MAX_RT_ENTRIES: u32 = 2047;

/// On-disk bytes of the block allocation table's identifier
/// `2dc27766-f623-4200-9d64-115e9bfd4a08`, read in little-endian order.
pub const BAT_GUID: u128 = 0x084a_fd9b_5e11_649d_4200_f623_2dc2_7766;

/// On-disk bytes of the metadata region's identifier
/// `8b7ca206-4790-4b9a-b8fe-575f050f886e`, read in little-endian order.
pub const METADATA_GUID: u128 = 0x6e88_0f05_5f57_feb8_4b9a_4790_8b7c_a206;

/// Known regions of the region table.
#[derive(Debug, Clone, Copy, PartialEq, Eq, Structural, PartialOrd, Ord, Hash)]
pub enum KnowRegion {
    Bat,
    MetaData,
}

/// The known region an identifier names, if any.
pub open spec fn region_of(id: Guid) -> Option<KnowRegion> {
    if id.value == BAT_GUID {
        Some(KnowRegion::Bat)
    } else if id.value == METADATA_GUID {
        Some(KnowRegion::MetaData)
    } else {
        None
    }
}

impl KnowRegion {
    /// Classifies an identifier against the known-region table.
    pub fn classify(id: &Guid) -> (r: Option<KnowRegion>)
        ensures
            r == region_of(*id),
    {
        if id.value == BAT_GUID {
            Some(KnowRegion::Bat)
        } else if id.value == METADATA_GUID {
            Some(KnowRegion::MetaData)
        } else {
            None
        }
    }
}

#[derive(Debug, Clone, Copy, PartialEq, Eq, Structural)]
pub struct RTEntry {
    /// Identifier of the region; unique within the table.
    pub guid: Guid,
    /// File offset of the region; a multiple of 1 MB.
    pub file_offset: u64,
    /// Length of the region in bytes; a multiple of 1 MB.
    pub length: u32,
    /// Whether the region must be recognized to load the file.
    pub required: bool,
}

/// The region table entry whose layout starts at `at`.
pub open spec fn rt_entry_of(b: Seq<u8>, at: int) -> RTEntry {
    RTEntry {
        guid: Guid { value: le128(b, at) },
        file_offset: le64(b, at + 16),
        length: le32(b, at + 24),
        required: le32(b, at + 28) != 0,
    }
}

/// The first `count` entries laid out after the table's header.
pub open spec fn rt_entries_of(b: Seq<u8>, count: nat) -> Seq<RTEntry> {
    Seq::new(count, |i: int| rt_entry_of(b, RT_HEADER_SIZE + RT_ENTRY_SIZE * i))
}

/// What is wrong with the `i`-th entry in the light of those before it: an
/// unrecognized identifier on a required entry, or a known region seen
/// before.
pub open spec fn rt_entry_error(es: Seq<RTEntry>, i: int) -> Option<VhdxError> {
    match region_of(es[i].guid) {
        None => if es[i].required {
            Some(VhdxError::UnrecognizedRequiredRegion(es[i].guid))
        } else {
            None
        },
        Some(r) => if exists|j: int| 0 <= j < i && region_of(#[trigger] es[j].guid) == Some(r) {
            Some(VhdxError::DuplicateRegion(r))
        } else {
            None
        },
    }
}

/// The first entry error from index `i` on.
pub open spec fn rt_first_error(es: Seq<RTEntry>, i: int) -> Option<VhdxError>
    decreases es.len() - i,
{
    if i < 0 || i >= es.len() {
        None
    } else if rt_entry_error(es, i) is Some {
        rt_entry_error(es, i)
    } else {
        rt_first_error(es, i + 1)
    }
}

/// Why decoding the region table at the start of `b` fails, if it does.
pub open spec fn rt_decode_error(b: Seq<u8>) -> Option<VhdxError> {
    if b.len() < RT_HEADER_SIZE {
        Some(VhdxError::ShortRead(RT_HEADER_SIZE as u64, b.len() as u64))
    } else if le32(b, 8) > MAX_RT_ENTRIES {
        Some(VhdxError::RegionCountExceeded(le32(b, 8)))
    } else if b.len() < RT_HEADER_SIZE + RT_ENTRY_SIZE * le32(b, 8) {
        Some(
            VhdxError::ShortRead(
                (RT_HEADER_SIZE + RT_ENTRY_SIZE * le32(b, 8)) as u64,
                b.len() as u64,
            ),
        )
    } else {
        rt_first_error(rt_entries_of(b, le32(b, 8) as nat), 0)
    }
}

/// A region table whose entry count exceeds the limit is refused on its
/// 16-byte header alone, whatever follows it.
pub proof fn lemma_count_checked_before_entries(b: Seq<u8>, rest: Seq<u8>)
    requires
        b.len() >= RT_HEADER_SIZE,
        le32(b, 8) > MAX_RT_ENTRIES,
    ensures
        rt_decode_error(b.subrange(0, RT_HEADER_SIZE as int) + rest) == Some(
            VhdxError::RegionCountExceeded(le32(b, 8)),
        ),
{
    let c = b.subrange(0, RT_HEADER_SIZE as int) + rest;
    assert(c.subrange(8, 12) =~= b.subrange(8, 12));
}

/// The first entry of `es` from index `i` on that names `region`.
pub open spec fn find_region_from(es: Seq<RTEntry>, region: KnowRegion, i: int) -> Option<
    RTEntry,
>
    decreases es.len() - i,
{
    if i < 0 || i >= es.len() {
        None
    } else if region_of(es[i].guid) == Some(region) {
        Some(es[i])
    } else {
        find_region_from(es, region, i + 1)
    }
}

/// The region table: a directory of the file's regions. Two copies, at
/// 192 KB and 256 KB.
#[derive(Debug)]
pub struct RegionTable {
    /// Must be `regi`.
    pub signature: Signature,
    /// CRC-32C over the 64 KB table with this field zeroed.
    pub checksum: u32,
    /// Number of entries; at most 2047.
    pub entry_count: u32,
    /// All entries in on-disk order, unrecognized optional ones included.
    pub table_entries: Vec<RTEntry>,
}

impl RegionTable {
    pub fn new(signature: Signature, checksum: u32, entry_count: u32) -> (r: RegionTable)
        ensures
            r.signature == signature,
            r.checksum == checksum,
            r.entry_count == entry_count,
            r.table_entries@ == Seq::<RTEntry>::empty(),
    {
        RegionTable { signature, checksum, entry_count, table_entries: Vec::new() }
    }

    /// Decodes the region table at the start of `b`. The entry count is
    /// checked against its limit before any entry is read.
    pub fn deserialize(b: &[u8]) -> (r: Result<RegionTable, VhdxError>)
        ensures
            r is Err <==> rt_decode_error(b@) is Some,
            r matches Err(e) ==> rt_decode_error(b@) == Some(e),
            r matches Ok(t) ==> {
                &&& t.signature == tag4_of(le32(b@, 0))
                &&& t.checksum == le32(b@, 4)
                &&& t.entry_count == le32(b@, 8)
                &&& t.table_entries@ == rt_entries_of(b@, t.entry_count as nat)
            },
    {
        if b.len() < RT_HEADER_SIZE {
            return Err(VhdxError::ShortRead(RT_HEADER_SIZE as u64, b.len() as u64));
        }
        let signature = Signature::from_tag4(read_u32(b, 0));
        let checksum = read_u32(b, 4);
        let entry_count = read_u32(b, 8);
        if entry_count > MAX_RT_ENTRIES {
            return Err(VhdxError::RegionCountExceeded(entry_count));
        }
        let needed = RT_HEADER_SIZE + RT_ENTRY_SIZE * entry_count as usize;
        if b.len() < needed {
            return Err(VhdxError::ShortRead(needed as u64, b.len() as u64));
        }
        let ghost es = rt_entries_of(b@, entry_count as nat);
        assert(rt_decode_error(b@) == rt_first_error(es, 0));
        let mut table = RegionTable::new(signature, checksum, entry_count);
        let mut seen_bat = false;
        let mut seen_meta = false;
        let mut i: u32 = 0;
        while i < entry_count
            invariant
                entry_count <= MAX_RT_ENTRIES,
                b@.len() >= RT_HEADER_SIZE + RT_ENTRY_SIZE * entry_count,
                es == rt_entries_of(b@, entry_count as nat),
                rt_decode_error(b@) == rt_first_error(es, 0),
                0 <= i <= entry_count,
                table.signature == signature,
                table.checksum == checksum,
                table.entry_count == entry_count,
                table.table_entries@ == es.subrange(0, i as int),
                rt_first_error(es, 0) == rt_first_error(es, i as int),
                seen_bat == exists|j: int|
                    0 <= j < i && region_of(#[trigger] es[j].guid) == Some(KnowRegion::Bat),
                seen_meta == exists|j: int|
                    0 <= j < i && region_of(#[trigger] es[j].guid) == Some(KnowRegion::MetaData),
            decreases entry_count - i,
        {
            let at = RT_HEADER_SIZE + RT_ENTRY_SIZE * i as usize;
            let entry = RTEntry::deserialize_at(b, at);
            assert(entry == es[i as int]);
            match KnowRegion::classify(&entry.guid) {
                None => {
                    if entry.required {
                        assert(rt_entry_error(es, i as int) == Some(
                            VhdxError::UnrecognizedRequiredRegion(entry.guid),
                        ));
                        return Err(VhdxError::UnrecognizedRequiredRegion(entry.guid));
                    }
                },
                Some(KnowRegion::Bat) => {
                    if seen_bat {
                        assert(rt_entry_error(es, i as int) is Some);
                        return Err(VhdxError::DuplicateRegion(KnowRegion::Bat));
                    }
                    seen_bat = true;
                },
                Some(KnowRegion::MetaData) => {
                    if seen_meta {
                        assert(rt_entry_error(es, i as int) is Some);
                        return Err(VhdxError::DuplicateRegion(KnowRegion::MetaData));
                    }
                    seen_meta = true;
                },
            }
            assert(rt_entry_error(es, i as int) is None);
            table.table_entries.push(entry);
            i = i + 1;
            assert(table.table_entries@ =~= es.subrange(0, i as int));
        }
        assert(es.subrange(0, entry_count as int) =~= es);
        Ok(table)
    }

    /// The entry naming `region`, if the table has one.
    pub fn entry(&self, region: KnowRegion) -> (r: Option<RTEntry>)
        ensures
            r == find_region_from(self.table_entries@, region, 0),
    {
        let mut i: usize = 0;
        while i < self.table_entries.len()
            invariant
                0 <= i <= self.table_entries@.len(),
                find_region_from(self.table_entries@, region, 0) == find_region_from(
                    self.table_entries@,
                    region,
                    i as int,
                ),
            decreases self.table_entries@.len() - i,
        {
            let e = self.table_entries[i];
            if KnowRegion::classify(&e.guid) == Some(region) {
                return Some(e);
            }
            i = i + 1;
        }
        None
    }
}

impl RTEntry {
    pub fn new(guid: Guid, file_offset: u64, length: u32, required: bool) -> (r: RTEntry)
        ensures
            r == (RTEntry { guid, file_offset, length, required }),
    {
        RTEntry { guid, file_offset, length, required }
    }

    /// Decodes the entry whose layout starts `b`.
    pub fn deserialize(b: &[u8]) -> (r: Result<RTEntry, VhdxError>)
        ensures
            b@.len() < RT_ENTRY_SIZE ==> r == Err::<RTEntry, VhdxError>(
                VhdxError::ShortRead(RT_ENTRY_SIZE as u64, b@.len() as u64),
            ),
            b@.len() >= RT_ENTRY_SIZE ==> r == Ok::<RTEntry, VhdxError>(rt_entry_of(b@, 0)),
    {
        if b.len() < RT_ENTRY_SIZE {
            return Err(VhdxError::ShortRead(RT_ENTRY_SIZE as u64, b.len() as u64));
        }
        Ok(RTEntry::deserialize_at(b, 0))
    }

    fn deserialize_at(b: &[u8], at: usize) -> (r: RTEntry)
        requires
            at + RT_ENTRY_SIZE <= b@.len(),
        ensures
            r == rt_entry_of(b@, at as int),
    {
        let len = b.len();
        proof {
            assert(at + RT_ENTRY_SIZE <= len);
        }
        RTEntry::new(
            Guid { value: read_u128(b, at) },
            read_u64(b, at + 16),
            read_u32(b, at + 24),
            read_u32(b, at + 28) != 0,
        )
    }
}

impl Crc32 for RTEntry {
    open spec fn crc_input(&self) -> Seq<u8> {
        spec_u128_to_le_bytes(self.guid.value) + spec_u64_to_le_bytes(self.file_offset)
            + spec_u32_to_le_bytes(self.length) + spec_u32_to_le_bytes(
            if self.required {
                1u32
            } else {
                0u32
            },
        )
    }

    fn append_crc_input(&self, buf: &mut Vec<u8>) {
        push_u128(buf, self.guid.value);
        push_u64(buf, self.file_offset);
        push_u32(buf, self.length);
        push_u32(
            buf,
            if self.required {
                1u32
            } else {
                0u32
            },
        );
    }

    fn crc32(&self) -> (r: u32) {
        let mut buf: Vec<u8> = Vec::new();
        self.append_crc_input(&mut buf);
        assert(buf@ =~= self.crc_input());
        crc32c(buf.as_slice())
    }
}

/// The entries' layouts, one after the other.
pub open spec fn rt_entries_input(es: Seq<RTEntry>) -> Seq<u8>
    decreases es.len(),
{
    if es.len() == 0 {
        Seq::empty()
    } else {
        rt_entries_input(es.drop_last()) + es.last().crc_input()
    }
}

/// Zero bytes that fill a table of `n` entries up to its fixed size.
pub open spec fn rt_padding(n: int) -> nat {
    if RT_HEADER_SIZE + RT_ENTRY_SIZE * n <= REGION_TABLE_SIZE {
        (REGION_TABLE_SIZE - RT_HEADER_SIZE - RT_ENTRY_SIZE * n) as nat
    } else {
        0
    }
}

impl Crc32 for RegionTable {
    open spec fn crc_input(&self) -> Seq<u8> {
        spec_u32_to_le_bytes(self.signature.spec_tag_value() as u32) + zeros(4)
            + spec_u32_to_le_bytes(self.entry_count) + zeros(4) + rt_entries_input(
            self.table_entries@,
        ) + zeros(rt_padding(self.table_entries@.len() as int))
    }

    fn append_crc_input(&self, buf: &mut Vec<u8>) {
        push_u32(buf, self.signature.tag_value() as u32);
        push_zeros(buf, 4);
        push_u32(buf, self.entry_count);
        push_zeros(buf, 4);
        let ghost start = buf@;
        let mut i: usize = 0;
        while i < self.table_entries.len()
            invariant
                0 <= i <= self.table_entries@.len(),
                buf@ == start + rt_entries_input(self.table_entries@.subrange(0, i as int)),
            decreases self.table_entries@.len() - i,
        {
            self.table_entries[i].append_crc_input(buf);
            proof {
                let es = self.table_entries@.subrange(0, i + 1);
                assert(es.drop_last() =~= self.table_entries@.subrange(0, i as int));
            }
            i = i + 1;
        }
        assert(self.table_entries@.subrange(0, i as int) =~= self.table_entries@);
        let n = self.table_entries.len();
        if n <= (REGION_TABLE_SIZE - RT_HEADER_SIZE) / RT_ENTRY_SIZE {
            push_zeros(buf, REGION_TABLE_SIZE - RT_HEADER_SIZE - RT_ENTRY_SIZE * n);
        } else {
            push_zeros(buf, 0);
        }
    }

    fn crc32(&self) -> (r: u32) {
        let mut buf: Vec<u8> = Vec::new();
        self.append_crc_input(&mut buf);
        assert(buf@ =~= self.crc_input());
        crc32c(buf.as_slice())
    }
}

impl Validation for RegionTable {
    open spec fn validation(&self) -> Result<(), VhdxError> {
        if self.signature != Signature::Regi {
            Err(VhdxError::SignatureMismatch(Signature::Regi, self.signature))
        } else if self.checksum != crc32c_of(self.crc_input()) {
            Err(VhdxError::ChecksumMismatch(self.checksum, crc32c_of(self.crc_input())))
        } else if self.entry_count > MAX_RT_ENTRIES {
            Err(VhdxError::RegionCountExceeded(self.entry_count))
        } else if find_region_from(self.table_entries@, KnowRegion::Bat, 0) is None {
            Err(VhdxError::MissingRegion(KnowRegion::Bat))
        } else if find_region_from(self.table_entries@, KnowRegion::MetaData, 0) is None {
            Err(VhdxError::MissingRegion(KnowRegion::MetaData))
        } else {
            Ok(())
        }
    }

    fn validate(&self) -> (r: Result<(), VhdxError>) {
        if !matches!(self.signature, Signature::Regi) {
            return Err(VhdxError::SignatureMismatch(Signature::Regi, self.signature));
        }
        let crc = self.crc32();
        if self.checksum != crc {
            return Err(VhdxError::ChecksumMismatch(self.checksum, crc));
        }
        if self.entry_count > MAX_RT_ENTRIES {
            return Err(VhdxError::RegionCountExceeded(self.entry_count));
        }
        if self.entry(KnowRegion::Bat).is_none() {
            return Err(VhdxError::MissingRegion(KnowRegion::Bat));
        }
        if self.entry(KnowRegion::MetaData).is_none() {
            return Err(VhdxError::MissingRegion(KnowRegion::MetaData));
        }
        Ok(())
    }
}

/// The current region table of two copies: the first if it validates,
/// else the second if it does, else the first copy's error.
pub open spec fn current_region_table(first: RegionTable, second: RegionTable) -> Result<
    RegionTable,
    VhdxError,
> {
    if first.validation() is Ok {
        Ok(first)
    } else if second.validation() is Ok {
        Ok(second)
    } else {
        Err(first.validation()->Err_0)
    }
}

/// Selects the current region table of two copies.
pub fn select_region_table<'a>(first: &'a RegionTable, second: &'a RegionTable) -> (r: Result<
    &'a RegionTable,
    VhdxError,
>)
    ensures
        current_region_table(*first, *second) matches Ok(t) ==> r == Ok::<&RegionTable, VhdxError>(
            &t,
        ),
        current_region_table(*first, *second) matches Err(e) ==> r == Err::<
            &RegionTable,
            VhdxError,
        >(e),
{
    match first.validate() {
        Ok(_) => Ok(first),
        Err(e) => match second.validate() {
            Ok(_) => Ok(second),
            Err(_) => Err(e),
        },
    }
}

} // verus!
