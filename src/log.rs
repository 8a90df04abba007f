//! The redo log: entry framing, descriptors, data sectors, per-entry
//! validation and the selection of the sequence to replay.
use vstd::bytes::*;
use vstd::prelude::*;

use crate::bytes::{
    crc32c, crc32c_of, end_of, end_offset, le128, le32, le64, push_bytes, push_u128, push_u32,
    push_u64, push_zeros, read_u128, read_u32, read_u64, zeros,
};
use crate::error::{Field, VhdxError};
use crate::guid::Guid;
use crate::signature::{tag4_of, Signature};
use crate::{Crc32, Validation, MB};

verus! {

/// Size of a log entry header.
pub const LOG_HEADER_SIZE: usize = 64;

/// Size of a descriptor.
pub const DESCRIPTOR_SIZE: usize = 32;

/// Size of a sector: the unit of log entry alignment, and of a data sector.
pub const SECTOR_SIZE: usize = 4096;

/// Size of a data sector's payload.
pub const PAYLOAD_SIZE: usize = 4084;

#[derive(Debug, Clone, Copy, PartialEq, Eq, Structural)]
pub struct LogHeader {
    /// Must be `loge`.
    pub signature: Signature,
    /// CRC-32C over the whole entry with this field zeroed.
    pub checksum: u32,
    /// Total length of the entry; a multiple of 4 KB.
    pub entry_length: u32,
    /// Offset in the log of the first entry of the sequence ending with
    /// this entry; a multiple of 4 KB.
    pub tail: u32,
    /// Larger than zero; grows from entry to entry.
    pub seq_number: u64,
    /// Number of descriptors; may be zero.
    pub descript_count: u32,
    /// The file header's log identifier when the entry was written.
    pub log_guid: Guid,
    /// A multiple of 1 MB.
    pub flushed_file_offset: u64,
    /// A multiple of 1 MB.
    pub last_file_offset: u64,
}

/// The log entry header whose layout starts at `at`.
pub open spec fn log_header_of(b: Seq<u8>, at: int) -> LogHeader {
    LogHeader {
        signature: tag4_of(le32(b, at)),
        checksum: le32(b, at + 4),
        entry_length: le32(b, at + 8),
        tail: le32(b, at + 12),
        seq_number: le64(b, at + 16),
        descript_count: le32(b, at + 24),
        log_guid: Guid { value: le128(b, at + 32) },
        flushed_file_offset: le64(b, at + 48),
        last_file_offset: le64(b, at + 56),
    }
}

impl LogHeader {
    pub fn new(
        signature: Signature,
        checksum: u32,
        entry_length: u32,
        tail: u32,
        seq_number: u64,
        descript_count: u32,
        log_guid: Guid,
        flushed_file_offset: u64,
        last_file_offset: u64,
    ) -> (r: LogHeader)
        ensures
            r == (LogHeader {
                signature,
                checksum,
                entry_length,
                tail,
                seq_number,
                descript_count,
                log_guid,
                flushed_file_offset,
                last_file_offset,
            }),
    {
        LogHeader {
            signature,
            checksum,
            entry_length,
            tail,
            seq_number,
            descript_count,
            log_guid,
            flushed_file_offset,
            last_file_offset,
        }
    }

    /// Decodes the log entry header whose layout starts `b`.
    pub fn deserialize(b: &[u8]) -> (r: Result<LogHeader, VhdxError>)
        ensures
            b@.len() < LOG_HEADER_SIZE ==> r == Err::<LogHeader, VhdxError>(
                VhdxError::ShortRead(LOG_HEADER_SIZE as u64, b@.len() as u64),
            ),
            b@.len() >= LOG_HEADER_SIZE ==> r == Ok::<LogHeader, VhdxError>(
                log_header_of(b@, 0),
            ),
    {
        if b.len() < LOG_HEADER_SIZE {
            return Err(VhdxError::ShortRead(LOG_HEADER_SIZE as u64, b.len() as u64));
        }
        Ok(LogHeader::deserialize_at(b, 0))
    }

    pub(crate) fn deserialize_at(b: &[u8], at: usize) -> (r: LogHeader)
        requires
            at + LOG_HEADER_SIZE <= b@.len(),
        ensures
            r == log_header_of(b@, at as int),
    {
        let len = b.len();
        proof {
            assert(at + LOG_HEADER_SIZE <= len);
        }
        LogHeader::new(
            Signature::from_tag4(read_u32(b, at)),
            read_u32(b, at + 4),
            read_u32(b, at + 8),
            read_u32(b, at + 12),
            read_u64(b, at + 16),
            read_u32(b, at + 24),
            Guid { value: read_u128(b, at + 32) },
            read_u64(b, at + 48),
            read_u64(b, at + 56),
        )
    }
}

impl Crc32 for LogHeader {
    open spec fn crc_input(&self) -> Seq<u8> {
        spec_u32_to_le_bytes(self.signature.spec_tag_value() as u32) + zeros(4)
            + spec_u32_to_le_bytes(self.entry_length) + spec_u32_to_le_bytes(self.tail)
            + spec_u64_to_le_bytes(self.seq_number) + spec_u32_to_le_bytes(self.descript_count)
            + zeros(4) + spec_u128_to_le_bytes(self.log_guid.value) + spec_u64_to_le_bytes(
            self.flushed_file_offset,
        ) + spec_u64_to_le_bytes(self.last_file_offset)
    }

    fn append_crc_input(&self, buf: &mut Vec<u8>) {
        push_u32(buf, self.signature.tag_value() as u32);
        push_zeros(buf, 4);
        push_u32(buf, self.entry_length);
        push_u32(buf, self.tail);
        push_u64(buf, self.seq_number);
        push_u32(buf, self.descript_count);
        push_zeros(buf, 4);
        push_u128(buf, self.log_guid.value);
        push_u64(buf, self.flushed_file_offset);
        push_u64(buf, self.last_file_offset);
    }

    fn crc32(&self) -> (r: u32) {
        let mut buf: Vec<u8> = Vec::new();
        self.append_crc_input(&mut buf);
        assert(buf@ =~= self.crc_input());
        crc32c(buf.as_slice())
    }
}

impl Validation for LogHeader {
    open spec fn validation(&self) -> Result<(), VhdxError> {
        if self.signature != Signature::Loge {
            Err(VhdxError::SignatureMismatch(Signature::Loge, self.signature))
        } else if self.entry_length % 4096 != 0 {
            Err(VhdxError::AlignmentViolation(Field::EntryLength, self.entry_length as u64, 4096))
        } else if self.tail % 4096 != 0 {
            Err(VhdxError::AlignmentViolation(Field::Tail, self.tail as u64, 4096))
        } else if self.seq_number == 0 {
            Err(VhdxError::RequiredFieldZero(Field::SequenceNumber))
        } else if self.flushed_file_offset % MB != 0 {
            Err(
                VhdxError::AlignmentViolation(
                    Field::FlushedFileOffset,
                    self.flushed_file_offset,
                    MB,
                ),
            )
        } else if self.last_file_offset % MB != 0 {
            Err(VhdxError::AlignmentViolation(Field::LastFileOffset, self.last_file_offset, MB))
        } else {
            Ok(())
        }
    }

    fn validate(&self) -> (r: Result<(), VhdxError>) {
        if !matches!(self.signature, Signature::Loge) {
            return Err(VhdxError::SignatureMismatch(Signature::Loge, self.signature));
        }
        if self.entry_length % 4096 != 0 {
            return Err(
                VhdxError::AlignmentViolation(Field::EntryLength, self.entry_length as u64, 4096),
            );
        }
        if self.tail % 4096 != 0 {
            return Err(VhdxError::AlignmentViolation(Field::Tail, self.tail as u64, 4096));
        }
        if self.seq_number == 0 {
            return Err(VhdxError::RequiredFieldZero(Field::SequenceNumber));
        }
        if self.flushed_file_offset % MB != 0 {
            return Err(
                VhdxError::AlignmentViolation(
                    Field::FlushedFileOffset,
                    self.flushed_file_offset,
                    MB,
                ),
            );
        }
        if self.last_file_offset % MB != 0 {
            return Err(
                VhdxError::AlignmentViolation(Field::LastFileOffset, self.last_file_offset, MB),
            );
        }
        Ok(())
    }
}

/// A descriptor asking for a range of the file to be zeroed.
#[derive(Debug, Clone, Copy, PartialEq, Eq, Structural)]
pub struct ZeroDesc {
    /// Must be `zero`.
    pub signature: Signature,
    /// Length of the range to zero; a multiple of 4 KB.
    pub zero_length: u64,
    /// File offset of the range; a multiple of 4 KB.
    pub file_offset: u64,
    /// Must match the entry's sequence number.
    pub seq_number: u64,
}

/// The zero descriptor whose layout starts at `at`.
pub open spec fn zero_desc_of(b: Seq<u8>, at: int) -> ZeroDesc {
    ZeroDesc {
        signature: tag4_of(le32(b, at)),
        zero_length: le64(b, at + 8),
        file_offset: le64(b, at + 16),
        seq_number: le64(b, at + 24),
    }
}

impl ZeroDesc {
    pub fn deserialize(b: &[u8], at: usize) -> (r: Result<ZeroDesc, VhdxError>)
        ensures
            at + DESCRIPTOR_SIZE > b@.len() ==> r == Err::<ZeroDesc, VhdxError>(
                VhdxError::ShortRead(end_of(at as int, DESCRIPTOR_SIZE as int), b@.len() as u64),
            ),
            at + DESCRIPTOR_SIZE <= b@.len() ==> r == Ok::<ZeroDesc, VhdxError>(
                zero_desc_of(b@, at as int),
            ),
    {
        if b.len() < DESCRIPTOR_SIZE || at > b.len() - DESCRIPTOR_SIZE {
            let end = end_offset(at, DESCRIPTOR_SIZE as u64);
            return Err(VhdxError::ShortRead(end, b.len() as u64));
        }
        Ok(
            ZeroDesc {
                signature: Signature::from_tag4(read_u32(b, at)),
                zero_length: read_u64(b, at + 8),
                file_offset: read_u64(b, at + 16),
                seq_number: read_u64(b, at + 24),
            },
        )
    }
}

impl Crc32 for ZeroDesc {
    open spec fn crc_input(&self) -> Seq<u8> {
        spec_u32_to_le_bytes(self.signature.spec_tag_value() as u32) + zeros(4)
            + spec_u64_to_le_bytes(self.zero_length) + spec_u64_to_le_bytes(self.file_offset)
            + spec_u64_to_le_bytes(self.seq_number)
    }

    fn append_crc_input(&self, buf: &mut Vec<u8>) {
        push_u32(buf, self.signature.tag_value() as u32);
        push_zeros(buf, 4);
        push_u64(buf, self.zero_length);
        push_u64(buf, self.file_offset);
        push_u64(buf, self.seq_number);
    }

    fn crc32(&self) -> (r: u32) {
        let mut buf: Vec<u8> = Vec::new();
        self.append_crc_input(&mut buf);
        assert(buf@ =~= self.crc_input());
        crc32c(buf.as_slice())
    }
}

/// A 4 KB sector of data belonging to a data descriptor.
#[derive(Debug)]
pub struct DataSector {
    /// Must be `data`.
    pub signature: Signature,
    /// The four most significant bytes of the owning entry's sequence number.
    pub seq_high: u32,
    /// Bytes 8 to 4091 of the update; the others are kept in the descriptor.
    pub data: Vec<u8>,
    /// The four least significant bytes of the owning entry's sequence number.
    pub seq_low: u32,
}

/// The combined sequence number of a data sector.
pub open spec fn combined_sequence(seq_high: u32, seq_low: u32) -> u64 {
    ((seq_high as u64) * 0x1_0000_0000 + seq_low as u64) as u64
}

impl DataSector {
    /// Whether this sector is the one laid out at `at`.
    pub open spec fn is_at(&self, b: Seq<u8>, at: int) -> bool {
        &&& self.signature == tag4_of(le32(b, at))
        &&& self.seq_high == le32(b, at + 4)
        &&& self.data@ == b.subrange(at + 8, at + 8 + PAYLOAD_SIZE)
        &&& self.seq_low == le32(b, at + 8 + PAYLOAD_SIZE)
    }

    pub open spec fn spec_sequence_number(&self) -> u64 {
        combined_sequence(self.seq_high, self.seq_low)
    }

    pub fn new(signature: Signature, seq_high: u32, data: &[u8], seq_low: u32) -> (r: DataSector)
        ensures
            r.signature == signature,
            r.seq_high == seq_high,
            r.data@ == data@,
            r.seq_low == seq_low,
    {
        let mut payload: Vec<u8> = Vec::new();
        push_bytes(&mut payload, data);
        DataSector { signature, seq_high, data: payload, seq_low }
    }

    /// `(seq_high << 32) | seq_low`.
    pub fn sequence_number(&self) -> (r: u64)
        ensures
            r == self.spec_sequence_number(),
    {
        let hi = self.seq_high;
        let lo = self.seq_low;
        assert(((hi as u64) << 32u64) | (lo as u64) == (hi as u64) * 0x1_0000_0000 + lo as u64)
            by (bit_vector);
        ((self.seq_high as u64) << 32u64) | self.seq_low as u64
    }

    pub fn deserialize(b: &[u8], at: usize) -> (r: Result<DataSector, VhdxError>)
        ensures
            at + SECTOR_SIZE > b@.len() ==> r == Err::<DataSector, VhdxError>(
                VhdxError::ShortRead(end_of(at as int, SECTOR_SIZE as int), b@.len() as u64),
            ),
            at + SECTOR_SIZE <= b@.len() ==> (r matches Ok(s) && s.is_at(b@, at as int)),
    {
        if b.len() < SECTOR_SIZE || at > b.len() - SECTOR_SIZE {
            return Err(VhdxError::ShortRead(end_offset(at, SECTOR_SIZE as u64), b.len() as u64));
        }
        Ok(
            DataSector::new(
                Signature::from_tag4(read_u32(b, at)),
                read_u32(b, at + 4),
                vstd::slice::slice_subrange(b, at + 8, at + 8 + PAYLOAD_SIZE),
                read_u32(b, at + 8 + PAYLOAD_SIZE),
            ),
        )
    }
}

impl Crc32 for DataSector {
    open spec fn crc_input(&self) -> Seq<u8> {
        spec_u32_to_le_bytes(self.signature.spec_tag_value() as u32) + spec_u32_to_le_bytes(
            self.seq_high,
        ) + self.data@ + spec_u32_to_le_bytes(self.seq_low)
    }

    fn append_crc_input(&self, buf: &mut Vec<u8>) {
        push_u32(buf, self.signature.tag_value() as u32);
        push_u32(buf, self.seq_high);
        push_bytes(buf, self.data.as_slice());
        push_u32(buf, self.seq_low);
    }

    fn crc32(&self) -> (r: u32) {
        let mut buf: Vec<u8> = Vec::new();
        self.append_crc_input(&mut buf);
        assert(buf@ =~= self.crc_input());
        crc32c(buf.as_slice())
    }
}

/// A descriptor of a write of one sector of data.
#[derive(Debug)]
pub struct DataDesc {
    /// Must be `desc`.
    pub signature: Signature,
    /// The four trailing bytes of the update, removed from its sector.
    pub trailing_bytes: Vec<u8>,
    /// The eight leading bytes of the update, removed from its sector.
    pub leading_bytes: Vec<u8>,
    /// File offset the data goes to; a multiple of 4 KB.
    pub file_offset: u64,
    /// Must match the entry's sequence number.
    pub seq_number: u64,
    /// The sector holding the rest of the update, once attached.
    pub data_sector: Option<DataSector>,
}

impl DataDesc {
    /// Whether the descriptor's own fields are those laid out at `at`.
    pub open spec fn is_at(&self, b: Seq<u8>, at: int) -> bool {
        &&& self.signature == tag4_of(le32(b, at))
        &&& self.trailing_bytes@ == b.subrange(at + 4, at + 8)
        &&& self.leading_bytes@ == b.subrange(at + 8, at + 16)
        &&& self.file_offset == le64(b, at + 16)
        &&& self.seq_number == le64(b, at + 24)
    }

    /// Decodes the descriptor laid out at `at`, with no sector attached.
    pub fn deserialize(b: &[u8], at: usize) -> (r: Result<DataDesc, VhdxError>)
        ensures
            at + DESCRIPTOR_SIZE > b@.len() ==> r == Err::<DataDesc, VhdxError>(
                VhdxError::ShortRead(end_of(at as int, DESCRIPTOR_SIZE as int), b@.len() as u64),
            ),
            at + DESCRIPTOR_SIZE <= b@.len() ==> (r matches Ok(d) && d.is_at(b@, at as int)
                && d.data_sector is None),
    {
        if b.len() < DESCRIPTOR_SIZE || at > b.len() - DESCRIPTOR_SIZE {
            let end = end_offset(at, DESCRIPTOR_SIZE as u64);
            return Err(VhdxError::ShortRead(end, b.len() as u64));
        }
        let mut trailing_bytes: Vec<u8> = Vec::new();
        push_bytes(&mut trailing_bytes, vstd::slice::slice_subrange(b, at + 4, at + 8));
        let mut leading_bytes: Vec<u8> = Vec::new();
        push_bytes(&mut leading_bytes, vstd::slice::slice_subrange(b, at + 8, at + 16));
        Ok(
            DataDesc {
                signature: Signature::from_tag4(read_u32(b, at)),
                trailing_bytes,
                leading_bytes,
                file_offset: read_u64(b, at + 16),
                seq_number: read_u64(b, at + 24),
                data_sector: None,
            },
        )
    }
}

impl Crc32 for DataDesc {
    open spec fn crc_input(&self) -> Seq<u8> {
        spec_u32_to_le_bytes(self.signature.spec_tag_value() as u32) + self.trailing_bytes@
            + self.leading_bytes@ + spec_u64_to_le_bytes(self.file_offset) + spec_u64_to_le_bytes(
            self.seq_number,
        )
    }

    fn append_crc_input(&self, buf: &mut Vec<u8>) {
        push_u32(buf, self.signature.tag_value() as u32);
        push_bytes(buf, self.trailing_bytes.as_slice());
        push_bytes(buf, self.leading_bytes.as_slice());
        push_u64(buf, self.file_offset);
        push_u64(buf, self.seq_number);
    }

    fn crc32(&self) -> (r: u32) {
        let mut buf: Vec<u8> = Vec::new();
        self.append_crc_input(&mut buf);
        assert(buf@ =~= self.crc_input());
        crc32c(buf.as_slice())
    }
}

} // verus!

verus! {

#[derive(Debug)]
pub enum Descriptor {
    Zero(ZeroDesc),
    Data(DataDesc),
}

impl Descriptor {
    /// Whether this descriptor is the one laid out at `at`, with, for a data
    /// descriptor, the sector laid out at `sector_at` attached.
    pub open spec fn is_at(&self, b: Seq<u8>, at: int, sector_at: int) -> bool {
        match self {
            Descriptor::Zero(z) => *z == zero_desc_of(b, at) && z.signature == Signature::Zero,
            Descriptor::Data(d) => {
                &&& d.is_at(b, at)
                &&& d.signature == Signature::Desc
                &&& d.data_sector matches Some(s) && s.is_at(b, sector_at)
            },
        }
    }

    /// Like `is_at`, before any sector is attached.
    pub open spec fn is_bare_at(&self, b: Seq<u8>, at: int) -> bool {
        match self {
            Descriptor::Zero(z) => *z == zero_desc_of(b, at) && z.signature == Signature::Zero,
            Descriptor::Data(d) => d.is_at(b, at) && d.signature == Signature::Desc
                && d.data_sector is None,
        }
    }

    /// Decodes the descriptor laid out at `at`, dispatching on its tag,
    /// with no sector attached.
    pub fn deserialize(b: &[u8], at: usize) -> (r: Result<Descriptor, VhdxError>)
        ensures
            at + DESCRIPTOR_SIZE > b@.len() ==> r == Err::<Descriptor, VhdxError>(
                VhdxError::ShortRead(end_of(at as int, DESCRIPTOR_SIZE as int), b@.len() as u64),
            ),
            at + DESCRIPTOR_SIZE <= b@.len() && !is_descriptor_tag(tag4_of(le32(b@, at as int)))
                ==> r == Err::<Descriptor, VhdxError>(
                VhdxError::MalformedLog(tag4_of(le32(b@, at as int))),
            ),
            at + DESCRIPTOR_SIZE <= b@.len() && is_descriptor_tag(tag4_of(le32(b@, at as int)))
                ==> (r matches Ok(d) && d.is_bare_at(b@, at as int)),
    {
        if b.len() < DESCRIPTOR_SIZE || at > b.len() - DESCRIPTOR_SIZE {
            let end = end_offset(at, DESCRIPTOR_SIZE as u64);
            return Err(VhdxError::ShortRead(end, b.len() as u64));
        }
        let tag = Signature::from_tag4(read_u32(b, at));
        match tag {
            Signature::Desc => match DataDesc::deserialize(b, at) {
                Ok(d) => Ok(Descriptor::Data(d)),
                Err(e) => Err(e),
            },
            Signature::Zero => match ZeroDesc::deserialize(b, at) {
                Ok(z) => Ok(Descriptor::Zero(z)),
                Err(e) => Err(e),
            },
            _ => Err(VhdxError::MalformedLog(tag)),
        }
    }
}

/// Whether a tag opens a descriptor.
pub open spec fn is_descriptor_tag(s: Signature) -> bool {
    s == Signature::Desc || s == Signature::Zero
}

impl Crc32 for Descriptor {
    open spec fn crc_input(&self) -> Seq<u8> {
        match self {
            Descriptor::Zero(z) => z.crc_input(),
            Descriptor::Data(d) => d.crc_input(),
        }
    }

    fn append_crc_input(&self, buf: &mut Vec<u8>) {
        match self {
            Descriptor::Zero(z) => z.append_crc_input(buf),
            Descriptor::Data(d) => d.append_crc_input(buf),
        }
    }

    fn crc32(&self) -> (r: u32) {
        let mut buf: Vec<u8> = Vec::new();
        self.append_crc_input(&mut buf);
        assert(buf@ =~= self.crc_input());
        crc32c(buf.as_slice())
    }
}

/// `n` rounded up to a multiple of the sector size.
pub open spec fn round_up_sector(n: int) -> int {
    ((n + SECTOR_SIZE - 1) / SECTOR_SIZE as int) * SECTOR_SIZE
}

/// Number of descriptors of the entry at `p`.
pub open spec fn desc_count_at(b: Seq<u8>, p: int) -> int {
    le32(b, p + 24) as int
}

/// Where the `k`-th descriptor of the entry at `p` starts.
pub open spec fn desc_pos(p: int, k: int) -> int {
    p + LOG_HEADER_SIZE + DESCRIPTOR_SIZE * k
}

/// The tag of the `k`-th descriptor of the entry at `p`.
pub open spec fn desc_tag(b: Seq<u8>, p: int, k: int) -> Signature {
    tag4_of(le32(b, desc_pos(p, k)))
}

/// Length of the header and `n` descriptors, padded to a sector boundary.
pub open spec fn desc_area_len(n: int) -> int {
    round_up_sector(LOG_HEADER_SIZE + DESCRIPTOR_SIZE * n)
}

/// Number of data descriptors among the first `k` of the entry at `p`.
pub open spec fn data_before(b: Seq<u8>, p: int, k: int) -> int
    decreases k,
{
    if k <= 0 {
        0
    } else {
        data_before(b, p, k - 1) + if desc_tag(b, p, k - 1) == Signature::Desc {
            1int
        } else {
            0int
        }
    }
}

/// Where the sector of the `k`-th descriptor of the entry at `p` starts,
/// when that descriptor is a data descriptor.
pub open spec fn sector_pos(b: Seq<u8>, p: int, k: int) -> int {
    p + desc_area_len(desc_count_at(b, p)) + SECTOR_SIZE * data_before(b, p, k)
}

/// Length of the entry at `p` as framed on disk: header, descriptors,
/// padding, then one sector per data descriptor.
pub open spec fn frame_len(b: Seq<u8>, p: int) -> int {
    desc_area_len(desc_count_at(b, p)) + SECTOR_SIZE * data_before(b, p, desc_count_at(b, p))
}

/// The first descriptor tag of the entry at `p`, from the `k`-th on, that
/// opens no descriptor.
pub open spec fn first_bad_tag(b: Seq<u8>, p: int, k: int) -> Option<Signature>
    decreases desc_count_at(b, p) - k,
{
    if k < 0 || k >= desc_count_at(b, p) {
        None
    } else if !is_descriptor_tag(desc_tag(b, p, k)) {
        Some(desc_tag(b, p, k))
    } else {
        first_bad_tag(b, p, k + 1)
    }
}

/// Why decoding the entry at `p` fails, if it does.
pub open spec fn entry_decode_error(b: Seq<u8>, p: int) -> Option<VhdxError> {
    let n = desc_count_at(b, p);
    if p + LOG_HEADER_SIZE > b.len() {
        Some(VhdxError::ShortRead(end_of(p, LOG_HEADER_SIZE as int), b.len() as u64))
    } else if p + LOG_HEADER_SIZE + DESCRIPTOR_SIZE * n > b.len() {
        Some(VhdxError::ShortRead(end_of(p, LOG_HEADER_SIZE + DESCRIPTOR_SIZE * n), b.len() as u64))
    } else if first_bad_tag(b, p, 0) is Some {
        Some(VhdxError::MalformedLog(first_bad_tag(b, p, 0)->Some_0))
    } else if p + frame_len(b, p) > b.len() {
        Some(VhdxError::ShortRead(end_of(p, frame_len(b, p)), b.len() as u64))
    } else {
        None
    }
}

proof fn lemma_data_before_mono(b: Seq<u8>, p: int, k: int, n: int)
    requires
        0 <= k <= n,
    ensures
        data_before(b, p, k) <= data_before(b, p, n),
        data_before(b, p, k) <= k,
    decreases n - k,
{
    if k < n {
        lemma_data_before_mono(b, p, k + 1, n);
    }
    lemma_data_before_le(b, p, k);
}

proof fn lemma_data_before_le(b: Seq<u8>, p: int, k: int)
    ensures
        0 <= data_before(b, p, k),
        k >= 0 ==> data_before(b, p, k) <= k,
    decreases k,
{
    if k > 0 {
        lemma_data_before_le(b, p, k - 1);
    }
}

/// A log entry: its header, then its descriptors with their sectors.
#[derive(Debug)]
pub struct LogEntry {
    pub header: LogHeader,
    pub descriptors: Vec<Descriptor>,
    /// Offset of the entry within the log.
    pub offset: u64,
}

/// The descriptors' layouts, one after the other.
pub open spec fn descs_input(ds: Seq<Descriptor>) -> Seq<u8>
    decreases ds.len(),
{
    if ds.len() == 0 {
        Seq::empty()
    } else {
        descs_input(ds.drop_last()) + ds.last().crc_input()
    }
}

/// The layout of a descriptor's attached sector, if any.
pub open spec fn sector_input(d: Descriptor) -> Seq<u8> {
    match d {
        Descriptor::Data(dd) => match dd.data_sector {
            Some(s) => s.crc_input(),
            None => Seq::empty(),
        },
        Descriptor::Zero(_) => Seq::empty(),
    }
}

/// The attached sectors' layouts, in descriptor order.
pub open spec fn sectors_input(ds: Seq<Descriptor>) -> Seq<u8>
    decreases ds.len(),
{
    if ds.len() == 0 {
        Seq::empty()
    } else {
        sectors_input(ds.drop_last()) + sector_input(ds.last())
    }
}

/// The cross-check of a data descriptor against its sector.
pub open spec fn sector_mismatch(d: Descriptor) -> Option<VhdxError> {
    match d {
        Descriptor::Data(dd) => match dd.data_sector {
            Some(s) => if s.spec_sequence_number() != dd.seq_number {
                Some(
                    VhdxError::LogEntrySequenceCrossCheckFailed(
                        dd.seq_number,
                        s.spec_sequence_number(),
                    ),
                )
            } else {
                None
            },
            None => None,
        },
        Descriptor::Zero(_) => None,
    }
}

/// The first failed cross-check from the `k`-th descriptor on.
pub open spec fn first_sector_mismatch(ds: Seq<Descriptor>, k: int) -> Option<VhdxError>
    decreases ds.len() - k,
{
    if k < 0 || k >= ds.len() {
        None
    } else if sector_mismatch(ds[k]) is Some {
        sector_mismatch(ds[k])
    } else {
        first_sector_mismatch(ds, k + 1)
    }
}

impl LogEntry {
    /// Whether this entry is the one framed at `p`.
    pub open spec fn is_at(&self, b: Seq<u8>, p: int) -> bool {
        &&& self.header == log_header_of(b, p)
        &&& self.offset == p
        &&& self.descriptors@.len() == desc_count_at(b, p)
        &&& forall|k: int|
            0 <= k < self.descriptors@.len() ==> #[trigger] self.descriptors@[k].is_at(
                b,
                desc_pos(p, k),
                sector_pos(b, p, k),
            )
    }

    fn new(header: LogHeader, descriptors: Vec<Descriptor>, offset: u64) -> (r: LogEntry)
        ensures
            r.header == header,
            r.descriptors == descriptors,
            r.offset == offset,
    {
        LogEntry { header, descriptors, offset }
    }

    /// Decodes the entry framed at `at`: its header, its descriptors (first
    /// pass), then the sector of each data descriptor, in order, from the
    /// first sector boundary after the descriptors (second pass).
    pub fn deserialize(b: &[u8], at: usize) -> (r: Result<LogEntry, VhdxError>)
        ensures
            r is Err <==> entry_decode_error(b@, at as int) is Some,
            r matches Err(e) ==> entry_decode_error(b@, at as int) == Some(e),
            r matches Ok(e) ==> e.is_at(b@, at as int),
    {
        match LogEntry::deserialize_framed(b, at) {
            Ok((e, _)) => Ok(e),
            Err(e) => Err(e),
        }
    }

    /// `deserialize`, also giving the entry's framed length.
    fn deserialize_framed(b: &[u8], at: usize) -> (r: Result<(LogEntry, usize), VhdxError>)
        ensures
            r is Err <==> entry_decode_error(b@, at as int) is Some,
            r matches Err(e) ==> entry_decode_error(b@, at as int) == Some(e),
            r matches Ok((e, f)) ==> e.is_at(b@, at as int) && f == frame_len(b@, at as int),
    {
        let len = b.len();
        if len < LOG_HEADER_SIZE || at > len - LOG_HEADER_SIZE {
            return Err(VhdxError::ShortRead(end_offset(at, LOG_HEADER_SIZE as u64), len as u64));
        }
        let header = LogHeader::deserialize_at(b, at);
        let area64 = LOG_HEADER_SIZE as u64 + DESCRIPTOR_SIZE as u64 * header.descript_count as u64;
        if area64 > (len - at) as u64 {
            return Err(VhdxError::ShortRead(end_offset(at, area64), len as u64));
        }
        let n = header.descript_count as usize;
        let area = area64 as usize;
        // First pass: the descriptors.
        let mut descriptors: Vec<Descriptor> = Vec::new();
        let mut data_count: usize = 0;
        let mut k: usize = 0;
        while k < n
            invariant
                len == b@.len(),
                n == desc_count_at(b@, at as int),
                at + LOG_HEADER_SIZE + DESCRIPTOR_SIZE * n <= len,
                0 <= k <= n,
                descriptors@.len() == k,
                forall|j: int|
                    0 <= j < k ==> #[trigger] descriptors@[j].is_bare_at(
                        b@,
                        desc_pos(at as int, j),
                    ),
                first_bad_tag(b@, at as int, 0) == first_bad_tag(b@, at as int, k as int),
                data_count == data_before(b@, at as int, k as int),
                data_count <= k,
            decreases n - k,
        {
            let pos = at + LOG_HEADER_SIZE + DESCRIPTOR_SIZE * k;
            let d = match Descriptor::deserialize(b, pos) {
                Ok(d) => d,
                Err(e) => {
                    return Err(e);
                },
            };
            if matches!(d, Descriptor::Data(_)) {
                data_count = data_count + 1;
            }
            descriptors.push(d);
            k = k + 1;
        }
        let area_len64 = if area64 % SECTOR_SIZE as u64 == 0 {
            area64
        } else {
            area64 + (SECTOR_SIZE as u64 - area64 % SECTOR_SIZE as u64)
        };
        assert(area_len64 == desc_area_len(n as int));
        let frame = area_len64 + SECTOR_SIZE as u64 * data_count as u64;
        if frame > (len - at) as u64 {
            return Err(VhdxError::ShortRead(end_offset(at, frame), len as u64));
        }
        let area_len = area_len64 as usize;
        // Second pass: one sector per data descriptor, in order.
        let mut seen: usize = 0;
        let mut k: usize = 0;
        while k < n
            invariant
                len == b@.len(),
                n == desc_count_at(b@, at as int),
                data_count == data_before(b@, at as int, n as int),
                area_len == desc_area_len(n as int),
                at + area_len + SECTOR_SIZE * data_count <= len,
                0 <= k <= n,
                descriptors@.len() == n,
                forall|j: int|
                    0 <= j < k ==> #[trigger] descriptors@[j].is_at(
                        b@,
                        desc_pos(at as int, j),
                        sector_pos(b@, at as int, j),
                    ),
                forall|j: int|
                    k <= j < n ==> #[trigger] descriptors@[j].is_bare_at(
                        b@,
                        desc_pos(at as int, j),
                    ),
                seen == data_before(b@, at as int, k as int),
            decreases n - k,
        {
            let ghost before = descriptors@;
            proof {
                assert(descriptors@[k as int].is_bare_at(b@, desc_pos(at as int, k as int)));
                lemma_data_before_mono(b@, at as int, k + 1, n as int);
            }
            if matches!(descriptors[k], Descriptor::Data(_)) {
                assert(desc_tag(b@, at as int, k as int) == Signature::Desc);
                assert(data_before(b@, at as int, k + 1) == seen + 1);
                let sector_at = at + area_len + SECTOR_SIZE * seen;
                let sector = match DataSector::deserialize(b, sector_at) {
                    Ok(s) => s,
                    Err(e) => {
                        return Err(e);
                    },
                };
                match &mut descriptors[k] {
                    Descriptor::Data(d) => {
                        d.data_sector = Some(sector);
                    },
                    Descriptor::Zero(_) => {},
                }
                assert(descriptors@[k as int].is_at(
                    b@,
                    desc_pos(at as int, k as int),
                    sector_pos(b@, at as int, k as int),
                ));
                assert(forall|j: int| 0 <= j < n && j != k ==> descriptors@[j] == before[j]);
                seen = seen + 1;
            } else {
                assert(desc_tag(b@, at as int, k as int) == Signature::Zero);
            }
            k = k + 1;
        }
        Ok((LogEntry::new(header, descriptors, at as u64), frame as usize))
    }
}

} // verus!

verus! {

/// Zero bytes that bring a layout of `len` bytes to a sector boundary.
pub open spec fn sector_padding(len: int) -> nat {
    ((SECTOR_SIZE - len % SECTOR_SIZE as int) % SECTOR_SIZE as int) as nat
}

impl Crc32 for LogEntry {
    /// Header and descriptors, zero padding to the next sector boundary,
    /// then the attached sectors in descriptor order.
    open spec fn crc_input(&self) -> Seq<u8> {
        let head = self.header.crc_input() + descs_input(self.descriptors@);
        head + zeros(sector_padding(head.len() as int)) + sectors_input(self.descriptors@)
    }

    fn append_crc_input(&self, buf: &mut Vec<u8>) {
        let ghost start = buf@;
        let start_len = buf.len();
        self.header.append_crc_input(buf);
        let ghost after_header = buf@;
        let mut i: usize = 0;
        while i < self.descriptors.len()
            invariant
                0 <= i <= self.descriptors@.len(),
                after_header == start + self.header.crc_input(),
                buf@ == after_header + descs_input(self.descriptors@.subrange(0, i as int)),
            decreases self.descriptors@.len() - i,
        {
            self.descriptors[i].append_crc_input(buf);
            proof {
                let ds = self.descriptors@.subrange(0, i + 1);
                assert(ds.drop_last() =~= self.descriptors@.subrange(0, i as int));
            }
            i = i + 1;
        }
        assert(self.descriptors@.subrange(0, i as int) =~= self.descriptors@);
        let ghost head = self.header.crc_input() + descs_input(self.descriptors@);
        assert(buf@ =~= start + head);
        let written = buf.len() - start_len;
        push_zeros(buf, (SECTOR_SIZE - written % SECTOR_SIZE) % SECTOR_SIZE);
        let ghost after_pad = buf@;
        let mut i: usize = 0;
        while i < self.descriptors.len()
            invariant
                0 <= i <= self.descriptors@.len(),
                buf@ == after_pad + sectors_input(self.descriptors@.subrange(0, i as int)),
            decreases self.descriptors@.len() - i,
        {
            match &self.descriptors[i] {
                Descriptor::Data(d) => match &d.data_sector {
                    Some(s) => s.append_crc_input(buf),
                    None => {},
                },
                Descriptor::Zero(_) => {},
            }
            proof {
                let ds = self.descriptors@.subrange(0, i + 1);
                assert(ds.drop_last() =~= self.descriptors@.subrange(0, i as int));
                assert(buf@ =~= after_pad + sectors_input(ds));
            }
            i = i + 1;
        }
        assert(self.descriptors@.subrange(0, i as int) =~= self.descriptors@);
        assert(buf@ =~= old(buf)@ + self.crc_input());
    }

    fn crc32(&self) -> (r: u32) {
        let mut buf: Vec<u8> = Vec::new();
        self.append_crc_input(&mut buf);
        assert(buf@ =~= self.crc_input());
        crc32c(buf.as_slice())
    }
}

impl Validation for LogEntry {
    /// The header's rules, then the checksum over the whole entry, then the
    /// sequence number of each attached sector against its descriptor's.
    open spec fn validation(&self) -> Result<(), VhdxError> {
        match self.header.validation() {
            Err(e) => Err(e),
            Ok(_) => if self.header.checksum != crc32c_of(self.crc_input()) {
                Err(VhdxError::ChecksumMismatch(self.header.checksum, crc32c_of(self.crc_input())))
            } else {
                match first_sector_mismatch(self.descriptors@, 0) {
                    Some(e) => Err(e),
                    None => Ok(()),
                }
            },
        }
    }

    fn validate(&self) -> (r: Result<(), VhdxError>) {
        match self.header.validate() {
            Err(e) => {
                return Err(e);
            },
            Ok(_) => {},
        }
        let crc = self.crc32();
        if self.header.checksum != crc {
            return Err(VhdxError::ChecksumMismatch(self.header.checksum, crc));
        }
        let mut k: usize = 0;
        while k < self.descriptors.len()
            invariant
                0 <= k <= self.descriptors@.len(),
                self.header.validation() is Ok,
                self.header.checksum == crc32c_of(self.crc_input()),
                first_sector_mismatch(self.descriptors@, 0) == first_sector_mismatch(
                    self.descriptors@,
                    k as int,
                ),
            decreases self.descriptors@.len() - k,
        {
            match &self.descriptors[k] {
                Descriptor::Data(d) => match &d.data_sector {
                    Some(s) => {
                        let seq = s.sequence_number();
                        if seq != d.seq_number {
                            assert(sector_mismatch(self.descriptors@[k as int]) == Some(
                                VhdxError::LogEntrySequenceCrossCheckFailed(d.seq_number, seq),
                            ));
                            return Err(
                                VhdxError::LogEntrySequenceCrossCheckFailed(d.seq_number, seq),
                            );
                        }
                    },
                    None => {},
                },
                Descriptor::Zero(_) => {},
            }
            k = k + 1;
        }
        Ok(())
    }
}

/// Whether the entry takes part in replay under the file's log identifier:
/// it validates, and when the identifier is set, the entry carries it.
pub open spec fn replay_check(e: LogEntry, log_id: Guid) -> Result<(), VhdxError> {
    match e.validation() {
        Err(x) => Err(x),
        Ok(_) => if !log_id.spec_is_nil() && e.header.log_guid != log_id {
            Err(VhdxError::LogIdMismatch(e.header.log_guid, log_id))
        } else {
            Ok(())
        },
    }
}

impl LogEntry {
    pub fn check_replayable(&self, log_id: &Guid) -> (r: Result<(), VhdxError>)
        ensures
            r == replay_check(*self, *log_id),
    {
        match self.validate() {
            Err(x) => Err(x),
            Ok(_) => if !log_id.is_nil() && self.header.log_guid != *log_id {
                Err(VhdxError::LogIdMismatch(self.header.log_guid, *log_id))
            } else {
                Ok(())
            },
        }
    }
}

} // verus!

verus! {

/// Among the first `n` entries, the index of the replayable one with the
/// largest sequence number (the earliest on a tie), if any.
pub open spec fn best_head(es: Seq<LogEntry>, ok: Seq<bool>, n: int) -> Option<int>
    decreases n,
{
    if n <= 0 {
        None
    } else {
        let prev = best_head(es, ok, n - 1);
        if ok[n - 1] && (prev is None || es[n - 1].header.seq_number
            > es[prev->Some_0].header.seq_number) {
            Some(n - 1)
        } else {
            prev
        }
    }
}

/// Where the run ending at `h` starts: walking back from `h` while the
/// previous entry is replayable and has a smaller sequence number.
pub open spec fn run_start(es: Seq<LogEntry>, ok: Seq<bool>, h: int) -> int
    decreases h,
{
    if h > 0 && ok[h - 1] && es[h - 1].header.seq_number < es[h].header.seq_number {
        run_start(es, ok, h - 1)
    } else {
        h
    }
}

/// The replay run of a pool of entries in on-disk order, given which
/// entries are replayable: first and last index, or none when no entry
/// qualifies. Its last entry (the head) is the replayable entry with the
/// largest sequence number; the run reaches back over replayable entries
/// with strictly increasing sequence numbers.
pub open spec fn replay_run(es: Seq<LogEntry>, ok: Seq<bool>) -> Option<(int, int)> {
    match best_head(es, ok, es.len() as int) {
        None => None,
        Some(h) => Some((run_start(es, ok, h), h)),
    }
}

/// For each entry of the pool, whether it takes part in replay.
pub open spec fn replay_flags(es: Seq<LogEntry>, log_id: Guid) -> Seq<bool> {
    Seq::new(es.len(), |i: int| replay_check(es[i], log_id) is Ok)
}

/// The replay sequence: a view of a run of the parsed pool.
#[derive(Debug)]
pub struct LogSequence<'a> {
    /// Sequence number of the head entry; 0 when empty.
    pub sequence_number: u64,
    /// The run's entries, head last.
    pub entries: &'a [LogEntry],
    /// Offset in the log of the head entry; 0 when empty.
    pub head_value: u64,
    /// Offset in the log of the run's first entry; 0 when empty.
    pub tail_value: u64,
}

proof fn lemma_best_head_bounds(es: Seq<LogEntry>, ok: Seq<bool>, n: int)
    requires
        n <= ok.len(),
    ensures
        best_head(es, ok, n) matches Some(h) ==> 0 <= h < n && ok[h],
    decreases n,
{
    if n > 0 {
        lemma_best_head_bounds(es, ok, n - 1);
    }
}

proof fn lemma_run_start_bounds(es: Seq<LogEntry>, ok: Seq<bool>, h: int)
    requires
        0 <= h < ok.len(),
    ensures
        0 <= run_start(es, ok, h) <= h,
        forall|i: int| run_start(es, ok, h) <= i < h ==> ok[i],
    decreases h,
{
    if h > 0 && ok[h - 1] && es[h - 1].header.seq_number < es[h].header.seq_number {
        lemma_run_start_bounds(es, ok, h - 1);
    }
}

impl<'a> LogSequence<'a> {
    /// Selects the replay run of `entries`, given which are replayable.
    pub fn select(entries: &'a [LogEntry], replayable: &[bool]) -> (r: LogSequence<'a>)
        requires
            replayable@.len() == entries@.len(),
        ensures
            replay_run(entries@, replayable@) is None ==> {
                &&& r.entries@.len() == 0
                &&& r.sequence_number == 0
                &&& r.head_value == 0
                &&& r.tail_value == 0
            },
            replay_run(entries@, replayable@) matches Some((s, h)) ==> {
                &&& r.entries@ == entries@.subrange(s, h + 1)
                &&& r.sequence_number == entries@[h].header.seq_number
                &&& r.head_value == entries@[h].offset
                &&& r.tail_value == entries@[s].offset
            },
    {
        let ghost es = entries@;
        let ghost ok = replayable@;
        let mut best: Option<usize> = None;
        let mut i: usize = 0;
        while i < entries.len()
            invariant
                ok.len() == es.len(),
                es == entries@,
                ok == replayable@,
                0 <= i <= es.len(),
                best_head(es, ok, i as int) == match best {
                    Some(b) => Some(b as int),
                    None => None::<int>,
                },
                best matches Some(b) ==> b < i,
            decreases es.len() - i,
        {
            let take = match best {
                None => replayable[i],
                Some(b) => replayable[i] && entries[i].header.seq_number
                    > entries[b].header.seq_number,
            };
            if take {
                best = Some(i);
            }
            i = i + 1;
        }
        match best {
            None => LogSequence {
                sequence_number: 0,
                entries: vstd::slice::slice_subrange(entries, 0, 0),
                head_value: 0,
                tail_value: 0,
            },
            Some(h) => {
                let mut s: usize = h;
                while s > 0 && replayable[s - 1] && entries[s - 1].header.seq_number
                    < entries[s].header.seq_number
                    invariant
                        ok.len() == es.len(),
                        es == entries@,
                        ok == replayable@,
                        h < es.len(),
                        s <= h,
                        run_start(es, ok, h as int) == run_start(es, ok, s as int),
                    decreases s,
                {
                    s = s - 1;
                }
                LogSequence {
                    sequence_number: entries[h].header.seq_number,
                    entries: vstd::slice::slice_subrange(entries, s, h + 1),
                    head_value: entries[h].offset,
                    tail_value: entries[s].offset,
                }
            },
        }
    }

    pub fn is_empty(&self) -> (r: bool)
        ensures
            r == (self.entries@.len() == 0),
    {
        self.entries.len() == 0
    }

    /// The head entry: the last of the run.
    pub fn head(&self) -> (r: Option<&'a LogEntry>)
        ensures
            self.entries@.len() == 0 ==> r is None,
            self.entries@.len() > 0 ==> r == Some(&self.entries@.last()),
    {
        if self.entries.len() == 0 {
            None
        } else {
            Some(&self.entries[self.entries.len() - 1])
        }
    }

    /// A non-empty sequence is replayable only if its head's tail lies
    /// between the run's first and last offsets.
    pub fn is_valid(&self) -> (r: bool)
        ensures
            r == (self.entries@.len() > 0 && self.tail_value <= self.entries@.last().header.tail
                <= self.head_value),
    {
        match self.head() {
            None => false,
            Some(h) => self.tail_value <= h.header.tail as u64 && h.header.tail as u64
                <= self.head_value,
        }
    }
}

/// A Data descriptor whose sector's sequence number differs from its own
/// keeps its entry out of the replay run.
pub proof fn lemma_mismatched_sector_excluded(es: Seq<LogEntry>, log_id: Guid, i: int, k: int)
    requires
        0 <= i < es.len(),
        0 <= k < es[i].descriptors@.len(),
        sector_mismatch(es[i].descriptors@[k]) is Some,
    ensures
        replay_run(es, replay_flags(es, log_id)) matches Some((s, h)) ==> !(s <= i <= h),
{
    let ok = replay_flags(es, log_id);
    lemma_first_sector_mismatch_found(es[i].descriptors@, 0, k);
    assert(!ok[i]);
    lemma_best_head_bounds(es, ok, es.len() as int);
    if let Some(h) = best_head(es, ok, es.len() as int) {
        lemma_run_start_bounds(es, ok, h);
    }
}

proof fn lemma_first_sector_mismatch_found(ds: Seq<Descriptor>, j: int, k: int)
    requires
        0 <= j <= k < ds.len(),
        sector_mismatch(ds[k]) is Some,
    ensures
        first_sector_mismatch(ds, j) is Some,
    decreases k - j,
{
    if j < k && sector_mismatch(ds[j]) is None {
        lemma_first_sector_mismatch_found(ds, j + 1, k);
    }
}

/// Entries that are replayable, with strictly increasing sequence numbers,
/// followed by one whose checksum is wrong: the replay run is exactly the
/// entries before it.
pub proof fn lemma_run_stops_at_corrupt_entry(es: Seq<LogEntry>, log_id: Guid)
    requires
        es.len() >= 2,
        forall|i: int| 0 <= i < es.len() - 1 ==> #[trigger] replay_check(es[i], log_id) is Ok,
        forall|i: int|
            0 <= i < es.len() - 2 ==> #[trigger] es[i].header.seq_number < es[i
                + 1].header.seq_number,
        es.last().header.checksum != crc32c_of(es.last().crc_input()),
    ensures
        replay_run(es, replay_flags(es, log_id)) == Some((0int, es.len() - 2)),
{
    let ok = replay_flags(es, log_id);
    let n = es.len() - 1;
    assert(!ok[n]);
    lemma_increasing_best_head(es, ok, n);
    lemma_increasing_run_start(es, ok, n - 1);
}

proof fn lemma_increasing_best_head(es: Seq<LogEntry>, ok: Seq<bool>, m: int)
    requires
        1 <= m <= es.len(),
        ok.len() == es.len(),
        forall|i: int| 0 <= i < m ==> ok[i],
        forall|i: int|
            0 <= i < m - 1 ==> #[trigger] es[i].header.seq_number < es[i + 1].header.seq_number,
    ensures
        best_head(es, ok, m) == Some(m - 1),
    decreases m,
{
    if m > 1 {
        lemma_increasing_best_head(es, ok, m - 1);
        assert(es[m - 2].header.seq_number < es[m - 1].header.seq_number);
    } else {
        assert(best_head(es, ok, 0) is None);
    }
}

proof fn lemma_increasing_run_start(es: Seq<LogEntry>, ok: Seq<bool>, h: int)
    requires
        0 <= h < es.len(),
        ok.len() == es.len(),
        forall|i: int| 0 <= i <= h ==> ok[i],
        forall|i: int|
            0 <= i < h ==> #[trigger] es[i].header.seq_number < es[i + 1].header.seq_number,
    ensures
        run_start(es, ok, h) == 0,
    decreases h,
{
    if h > 0 {
        lemma_increasing_run_start(es, ok, h - 1);
    }
}

} // verus!

verus! {

/// Offsets of the entries framed one after another from `p`, up to the
/// end of the log or the first tag that is not `loge`; or the first
/// entry's decoding error.
pub open spec fn scan_offsets(b: Seq<u8>, p: int) -> Result<Seq<int>, VhdxError>
    decreases b.len() - p,
{
    if p < 0 || p + 4 > b.len() || tag4_of(le32(b, p)) != Signature::Loge {
        Ok(Seq::empty())
    } else if entry_decode_error(b, p) is Some {
        Err(entry_decode_error(b, p)->Some_0)
    } else if frame_len(b, p) <= 0 {
        Ok(Seq::empty())
    } else {
        match scan_offsets(b, p + frame_len(b, p)) {
            Ok(s) => Ok(seq![p] + s),
            Err(e) => Err(e),
        }
    }
}

spec fn after(done: Seq<int>, rest: Result<Seq<int>, VhdxError>) -> Result<Seq<int>, VhdxError> {
    match rest {
        Ok(s) => Ok(done + s),
        Err(e) => Err(e),
    }
}

/// The parsed log: its pool of entries in on-disk order, and the file's log
/// identifier they are checked against.
#[derive(Debug)]
pub struct Log {
    pub log_entries: Vec<LogEntry>,
    pub log_id: Guid,
}

impl Log {
    pub fn new(log_entries: Vec<LogEntry>, log_id: Guid) -> (r: Log)
        ensures
            r.log_entries == log_entries,
            r.log_id == log_id,
    {
        Log { log_entries, log_id }
    }

    /// Parses the log region `b`: entries framed one after another from its
    /// start, until its end or a tag that is not `loge`.
    pub fn parse(b: &[u8], log_id: Guid) -> (r: Result<Log, VhdxError>)
        ensures
            r is Err <==> scan_offsets(b@, 0) is Err,
            r matches Err(e) ==> scan_offsets(b@, 0) == Err::<Seq<int>, VhdxError>(e),
            r matches Ok(log) ==> {
                &&& log.log_id == log_id
                &&& scan_offsets(b@, 0) matches Ok(offs) && offs.len() == log.log_entries@.len()
                    && forall|i: int|
                    0 <= i < offs.len() ==> #[trigger] log.log_entries@[i].is_at(b@, offs[i])
            },
    {
        let len = b.len();
        let mut entries: Vec<LogEntry> = Vec::new();
        let mut pos: usize = 0;
        let ghost mut offs: Seq<int> = Seq::empty();
        while pos <= len && len - pos >= 4
            invariant
                len == b@.len(),
                pos <= len,
                entries@.len() == offs.len(),
                forall|i: int| 0 <= i < offs.len() ==> #[trigger] entries@[i].is_at(b@, offs[i]),
                scan_offsets(b@, 0) == after(offs, scan_offsets(b@, pos as int)),
            ensures
                scan_offsets(b@, 0) == after(offs, scan_offsets(b@, pos as int)),
                scan_offsets(b@, pos as int) == Ok::<Seq<int>, VhdxError>(Seq::empty()),
            decreases len - pos,
        {
            let tag = Signature::from_tag4(read_u32(b, pos));
            if !matches!(tag, Signature::Loge) {
                break;
            }
            let (entry, frame) = match LogEntry::deserialize_framed(b, pos) {
                Ok(x) => x,
                Err(e) => {
                    return Err(e);
                },
            };
            proof {
                lemma_frame_len_positive(b@, pos as int);
                let rest = scan_offsets(b@, pos + frame);
                let next = offs.push(pos as int);
                assert(after(offs, scan_offsets(b@, pos as int)) == after(next, rest)) by {
                    match rest {
                        Ok(s) => {
                            assert(offs + (seq![pos as int] + s) =~= offs.push(pos as int) + s);
                        },
                        Err(_) => {},
                    }
                }
                offs = offs.push(pos as int);
            }
            entries.push(entry);
            pos = pos + frame;
        }
        proof {
            assert(offs + Seq::<int>::empty() =~= offs);
        }
        Ok(Log::new(entries, log_id))
    }

    /// Which entries of the pool take part in replay.
    pub fn replayable(&self) -> (r: Vec<bool>)
        ensures
            r@ == replay_flags(self.log_entries@, self.log_id),
    {
        let mut flags: Vec<bool> = Vec::new();
        let mut i: usize = 0;
        while i < self.log_entries.len()
            invariant
                0 <= i <= self.log_entries@.len(),
                flags@ == replay_flags(self.log_entries@, self.log_id).subrange(0, i as int),
            decreases self.log_entries@.len() - i,
        {
            let ok = self.log_entries[i].check_replayable(&self.log_id).is_ok();
            flags.push(ok);
            i = i + 1;
            assert(flags@ =~= replay_flags(self.log_entries@, self.log_id).subrange(0, i as int));
        }
        assert(flags@ =~= replay_flags(self.log_entries@, self.log_id));
        flags
    }

    /// The sequence to replay. With no log identifier in the file header the
    /// log is empty, whatever the region holds.
    pub fn log_sequence(&self) -> (r: LogSequence<'_>)
        ensures
            self.log_id.spec_is_nil() ==> r.entries@.len() == 0 && r.sequence_number == 0,
            !self.log_id.spec_is_nil() ==> match replay_run(
                self.log_entries@,
                replay_flags(self.log_entries@, self.log_id),
            ) {
                None => r.entries@.len() == 0 && r.sequence_number == 0,
                Some((s, h)) => {
                    &&& r.entries@ == self.log_entries@.subrange(s, h + 1)
                    &&& r.sequence_number == self.log_entries@[h].header.seq_number
                    &&& r.head_value == self.log_entries@[h].offset
                    &&& r.tail_value == self.log_entries@[s].offset
                },
            },
    {
        if self.log_id.is_nil() {
            return LogSequence {
                sequence_number: 0,
                entries: vstd::slice::slice_subrange(self.log_entries.as_slice(), 0, 0),
                head_value: 0,
                tail_value: 0,
            };
        }
        let flags = self.replayable();
        LogSequence::select(self.log_entries.as_slice(), flags.as_slice())
    }
}

proof fn lemma_frame_len_positive(b: Seq<u8>, p: int)
    ensures
        frame_len(b, p) >= SECTOR_SIZE,
{
    let n = desc_count_at(b, p);
    lemma_data_before_le(b, p, n);
    let x = LOG_HEADER_SIZE + DESCRIPTOR_SIZE * n;
    assert(round_up_sector(x) >= SECTOR_SIZE) by (nonlinear_arith)
        requires
            x >= 64,
    {
    }
    assert(SECTOR_SIZE * data_before(b, p, n) >= 0) by (nonlinear_arith)
        requires
            data_before(b, p, n) >= 0,
    {
    }
}

} // verus!
