//! Composition of the fixed structures and the log into an opened file.
use vstd::prelude::*;
use vstd::slice::slice_subrange;

use crate::bytes::{le32, le64};
use crate::error::VhdxError;
use crate::header::{
    creator_units, current_header, current_region_table, find_region_from, header_of,
    rt_decode_error, rt_entries_of, select_header, select_region_table, utf16_text_of,
    FileTypeIdentifier, Header, KnowRegion, RegionTable, FTI_SIZE, HEADER_SIZE,
};
use crate::log::{scan_offsets, Log};
use crate::signature::{tag4_of, tag8_of, Signature};

verus! {

/// File offset of the first header copy.
pub const HEADER_1_OFFSET: usize = 65536;
/// File offset of the second header copy.
pub const HEADER_2_OFFSET: usize = 131072;
/// File offset of the first region table copy.
pub const REGION_TABLE_1_OFFSET: usize = 196608;
/// File offset of the second region table copy.
pub const REGION_TABLE_2_OFFSET: usize = 262144;

/// The bytes of `b` from `off` on; empty when `off` lies past its end.
pub open spec fn from_offset(b: Seq<u8>, off: int) -> Seq<u8> {
    if off <= b.len() {
        b.subrange(off, b.len() as int)
    } else {
        Seq::empty()
    }
}

fn slice_from(b: &[u8], off: usize) -> (r: &[u8])
    ensures
        r@ == from_offset(b@, off as int),
{
    if off <= b.len() {
        slice_subrange(b, off, b.len())
    } else {
        slice_subrange(b, b.len(), b.len())
    }
}

/// Why decoding the file type identifier at the start of `b` fails.
pub open spec fn fti_error(b: Seq<u8>) -> Option<VhdxError> {
    if b.len() < FTI_SIZE {
        Some(VhdxError::ShortRead(FTI_SIZE as u64, b.len() as u64))
    } else if tag8_of(le64(b, 0)) != Signature::Vhdxfile {
        Some(VhdxError::SignatureMismatch(Signature::Vhdxfile, tag8_of(le64(b, 0))))
    } else {
        None
    }
}

/// Why decoding the header at the start of `b` fails.
pub open spec fn header_error(b: Seq<u8>) -> Option<VhdxError> {
    if b.len() < HEADER_SIZE {
        Some(VhdxError::ShortRead(HEADER_SIZE as u64, b.len() as u64))
    } else {
        None
    }
}

/// Why decoding the fixed structures at the start of the file `b` fails:
/// the first failure, in file order.
pub open spec fn vhdx_header_error(b: Seq<u8>) -> Option<VhdxError> {
    if fti_error(b) is Some {
        fti_error(b)
    } else if header_error(from_offset(b, HEADER_1_OFFSET as int)) is Some {
        header_error(from_offset(b, HEADER_1_OFFSET as int))
    } else if header_error(from_offset(b, HEADER_2_OFFSET as int)) is Some {
        header_error(from_offset(b, HEADER_2_OFFSET as int))
    } else if rt_decode_error(from_offset(b, REGION_TABLE_1_OFFSET as int)) is Some {
        rt_decode_error(from_offset(b, REGION_TABLE_1_OFFSET as int))
    } else {
        rt_decode_error(from_offset(b, REGION_TABLE_2_OFFSET as int))
    }
}

/// Whether `t` is the region table decoded from `b`.
pub open spec fn region_table_decoded(t: RegionTable, b: Seq<u8>) -> bool {
    &&& t.signature == tag4_of(le32(b, 0))
    &&& t.checksum == le32(b, 4)
    &&& t.entry_count == le32(b, 8)
    &&& t.table_entries@ == rt_entries_of(b, t.entry_count as nat)
}

/// The fixed structures at the start of the file, both copies of each.
#[derive(Debug)]
pub struct VhdxHeader {
    pub fti: FileTypeIdentifier,
    pub header_1: Header,
    pub header_2: Header,
    pub region_table_1: RegionTable,
    pub region_table_2: RegionTable,
}

impl VhdxHeader {
    pub fn new(
        fti: FileTypeIdentifier,
        header_1: Header,
        header_2: Header,
        region_table_1: RegionTable,
        region_table_2: RegionTable,
    ) -> (r: VhdxHeader)
        ensures
            r == (VhdxHeader { fti, header_1, header_2, region_table_1, region_table_2 }),
    {
        VhdxHeader { fti, header_1, header_2, region_table_1, region_table_2 }
    }

    /// Decodes the structures at the start of the file `b`: the identifier
    /// at 0, the header copies at 64 KB and 128 KB, the region table copies
    /// at 192 KB and 256 KB. Nothing is validated here.
    pub fn deserialize(b: &[u8]) -> (r: Result<VhdxHeader, VhdxError>)
        ensures
            r is Err <==> vhdx_header_error(b@) is Some,
            r matches Err(e) ==> vhdx_header_error(b@) == Some(e),
            r matches Ok(h) ==> {
                &&& h.fti.signature == Signature::Vhdxfile
                &&& h.fti.creator@ == utf16_text_of(creator_units(b@))
                &&& h.header_1 == header_of(from_offset(b@, HEADER_1_OFFSET as int))
                &&& h.header_2 == header_of(from_offset(b@, HEADER_2_OFFSET as int))
                &&& region_table_decoded(
                    h.region_table_1,
                    from_offset(b@, REGION_TABLE_1_OFFSET as int),
                )
                &&& region_table_decoded(
                    h.region_table_2,
                    from_offset(b@, REGION_TABLE_2_OFFSET as int),
                )
            },
    {
        let fti = match FileTypeIdentifier::deserialize(b) {
            Ok(f) => f,
            Err(e) => {
                return Err(e);
            },
        };
        let header_1 = match Header::deserialize(slice_from(b, HEADER_1_OFFSET)) {
            Ok(h) => h,
            Err(e) => {
                return Err(e);
            },
        };
        let header_2 = match Header::deserialize(slice_from(b, HEADER_2_OFFSET)) {
            Ok(h) => h,
            Err(e) => {
                return Err(e);
            },
        };
        let region_table_1 = match RegionTable::deserialize(slice_from(b, REGION_TABLE_1_OFFSET)) {
            Ok(t) => t,
            Err(e) => {
                return Err(e);
            },
        };
        let region_table_2 = match RegionTable::deserialize(slice_from(b, REGION_TABLE_2_OFFSET)) {
            Ok(t) => t,
            Err(e) => {
                return Err(e);
            },
        };
        Ok(VhdxHeader::new(fti, header_1, header_2, region_table_1, region_table_2))
    }

    /// The current header copy.
    pub fn current_header(&self) -> (r: Result<Header, VhdxError>)
        ensures
            r == current_header(self.header_1, self.header_2),
    {
        select_header(&self.header_1, &self.header_2)
    }

    /// The current region table copy.
    pub fn current_region_table(&self) -> (r: Result<&RegionTable, VhdxError>)
        ensures
            current_region_table(self.region_table_1, self.region_table_2) matches Ok(t) ==> r
                == Ok::<&RegionTable, VhdxError>(&t),
            current_region_table(self.region_table_1, self.region_table_2) matches Err(e) ==> r
                == Err::<&RegionTable, VhdxError>(e),
    {
        select_region_table(&self.region_table_1, &self.region_table_2)
    }
}

/// An opened file: its fixed structures, its log, and where its metadata
/// region starts.
#[derive(Debug)]
pub struct Vhdx {
    pub header: VhdxHeader,
    pub log: Log,
    pub meta_data_offset: u64,
}

/// Why opening fails, given the fixed structures and the log region's
/// bytes: no current header; a log region whose length is not the current
/// header's; an entry that cannot be decoded; no current region table.
pub open spec fn open_error(h: VhdxHeader, log_region: Seq<u8>) -> Option<VhdxError> {
    match current_header(h.header_1, h.header_2) {
        Err(e) => Some(e),
        Ok(cur) => if log_region.len() != cur.log_length {
            Some(VhdxError::ShortRead(cur.log_length as u64, log_region.len() as u64))
        } else if scan_offsets(log_region, 0) is Err {
            Some(scan_offsets(log_region, 0)->Err_0)
        } else {
            match current_region_table(h.region_table_1, h.region_table_2) {
                Err(e) => Some(e),
                Ok(_) => None,
            }
        },
    }
}

impl Vhdx {
    /// Opens a file from its decoded fixed structures and the bytes of its
    /// log region (`log_length` bytes at `log_offset`, as the current header
    /// gives them): selects the current header and region table, parses the
    /// log, and locates the metadata region.
    pub fn new(header: VhdxHeader, log_region: &[u8]) -> (r: Result<Vhdx, VhdxError>)
        ensures
            r is Err <==> open_error(header, log_region@) is Some,
            r matches Err(e) ==> open_error(header, log_region@) == Some(e),
            r matches Ok(v) ==> {
                &&& v.header == header
                &&& current_header(header.header_1, header.header_2) matches Ok(cur)
                    && v.log.log_id == cur.log_guid
                &&& scan_offsets(log_region@, 0) matches Ok(offs) && offs.len()
                    == v.log.log_entries@.len() && forall|i: int|
                    0 <= i < offs.len() ==> #[trigger] v.log.log_entries@[i].is_at(
                        log_region@,
                        offs[i],
                    )
                &&& current_region_table(header.region_table_1, header.region_table_2) matches Ok(
                    t,
                ) && find_region_from(t.table_entries@, KnowRegion::MetaData, 0) matches Some(m)
                    && v.meta_data_offset == m.file_offset
            },
    {
        let current = match header.current_header() {
            Ok(h) => h,
            Err(e) => {
                return Err(e);
            },
        };
        if log_region.len() as u64 != current.log_length as u64 {
            return Err(VhdxError::ShortRead(current.log_length as u64, log_region.len() as u64));
        }
        let log = match Log::parse(log_region, current.log_guid) {
            Ok(l) => l,
            Err(e) => {
                return Err(e);
            },
        };
        let meta_data_offset = match header.current_region_table() {
            Err(e) => {
                return Err(e);
            },
            Ok(t) => match t.entry(KnowRegion::MetaData) {
                Some(m) => m.file_offset,
                None => {
                    return Err(VhdxError::MissingRegion(KnowRegion::MetaData));
                },
            },
        };
        Ok(Vhdx { header, log, meta_data_offset })
    }
}

} // verus!
