use crc::{Crc, CRC_32_ISCSI};
use vhdx::log::{DataSector, Descriptor, Log, LogEntry, LogHeader, LogSequence};
use vhdx::{Crc32, Field, Guid, Signature, Validation, VhdxError};

const LOG_ID: u128 = 0x1122_3344_5566_7788_99aa_bbcc_ddee_ff00;

enum Desc {
    Zero(u64),
    /// Descriptor sequence number, sector sequence number.
    Data(u64, u64),
}

/// Frames one log entry and stores its checksum (or a wrong one).
fn entry(seq: u64, log_id: u128, tail: u32, descs: &[Desc], corrupt: bool) -> Vec<u8> {
    let mut b = Vec::new();
    b.extend_from_slice(b"loge");
    b.extend_from_slice(&[0; 4]);
    b.extend_from_slice(&0u32.to_le_bytes());
    b.extend_from_slice(&tail.to_le_bytes());
    b.extend_from_slice(&seq.to_le_bytes());
    b.extend_from_slice(&(descs.len() as u32).to_le_bytes());
    b.extend_from_slice(&[0; 4]);
    b.extend_from_slice(&log_id.to_le_bytes());
    b.extend_from_slice(&(2u64 * 1048576).to_le_bytes());
    b.extend_from_slice(&(3u64 * 1048576).to_le_bytes());
    for d in descs {
        match d {
            Desc::Zero(s) => {
                b.extend_from_slice(b"zero");
                b.extend_from_slice(&[0; 4]);
                b.extend_from_slice(&8192u64.to_le_bytes());
                b.extend_from_slice(&(4u64 * 1048576).to_le_bytes());
                b.extend_from_slice(&s.to_le_bytes());
            }
            Desc::Data(s, _) => {
                b.extend_from_slice(b"desc");
                b.extend_from_slice(&[1, 2, 3, 4]);
                b.extend_from_slice(&[5, 6, 7, 8, 9, 10, 11, 12]);
                b.extend_from_slice(&(6u64 * 1048576).to_le_bytes());
                b.extend_from_slice(&s.to_le_bytes());
            }
        }
    }
    let padded = (b.len() + 4095) / 4096 * 4096;
    b.resize(padded, 0);
    for d in descs {
        if let Desc::Data(_, sector_seq) = d {
            b.extend_from_slice(b"data");
            b.extend_from_slice(&((sector_seq >> 32) as u32).to_le_bytes());
            b.extend_from_slice(&[0xab; 4084]);
            b.extend_from_slice(&(*sector_seq as u32).to_le_bytes());
        }
    }
    let len = b.len() as u32;
    b[8..12].copy_from_slice(&len.to_le_bytes());
    let mut crc = Crc::<u32>::new(&CRC_32_ISCSI).checksum(&b);
    if corrupt {
        crc ^= 0xffff;
    }
    b[4..8].copy_from_slice(&crc.to_le_bytes());
    b
}

fn region(entries: &[Vec<u8>], len: usize) -> Vec<u8> {
    let mut b: Vec<u8> = entries.concat();
    b.resize(len, 0);
    b
}

#[test]
fn should_deserialize_entry_header() {
    let bytes = vec![
        0x6c, 0x6f, 0x67, 0x65, 0xbc, 0x30, 0xfd, 0xe9, 0x00, 0x10, 0x00, 0x00, 0x00, 0x00,
        0x00, 0x00, 0x8d, 0xec, 0x92, 0x41, 0x0f, 0x51, 0x28, 0x36, 0x00, 0x00, 0x00, 0x00,
        0x00, 0x00, 0x00, 0x00, 0x02, 0x0a, 0x46, 0xdd, 0xb4, 0x1d, 0x13, 0x4d, 0xad, 0x70,
        0xdc, 0x30, 0x93, 0xaf, 0xd5, 0xc2, 0x00, 0x00, 0x80, 0x00, 0x00, 0x00, 0x00, 0x00,
        0x00, 0x00, 0x80, 0x00, 0x00, 0x00, 0x00, 0x00, 0x00, 0x00, 0x00, 0x00, 0x00, 0x00,
        0x00, 0x00, 0x00, 0x00, 0x00, 0x00, 0x00, 0x00, 0x00, 0x00,
    ];

    let entry_header = LogHeader::deserialize(&bytes).unwrap();

    assert_eq!(Signature::Loge, entry_header.signature);
}

#[test]
fn entry_header_fields() {
    let b = entry(7, LOG_ID, 4096, &[], false);
    let h = LogHeader::deserialize(&b).unwrap();
    assert_eq!(4096, h.entry_length);
    assert_eq!(4096, h.tail);
    assert_eq!(7, h.seq_number);
    assert_eq!(0, h.descript_count);
    assert_eq!(Guid { value: LOG_ID }, h.log_guid);
    assert_eq!(2 * 1048576, h.flushed_file_offset);
    assert_eq!(3 * 1048576, h.last_file_offset);
    assert_eq!(Ok(()), h.validate());
}

#[test]
fn entry_header_short_input() {
    assert_eq!(Err(VhdxError::ShortRead(64, 10)), LogHeader::deserialize(&[0u8; 10]));
}

#[test]
fn entry_header_sequence_number_zero() {
    let b = entry(0, LOG_ID, 0, &[], false);
    let h = LogHeader::deserialize(&b).unwrap();
    assert_eq!(Err(VhdxError::RequiredFieldZero(Field::SequenceNumber)), h.validate());
}

#[test]
fn entry_header_tail_alignment() {
    let b = entry(1, LOG_ID, 100, &[], false);
    let h = LogHeader::deserialize(&b).unwrap();
    assert_eq!(Err(VhdxError::AlignmentViolation(Field::Tail, 100, 4096)), h.validate());
}

#[test]
fn sector_sequence_number_combines_halves() {
    let s = DataSector::new(Signature::Data, 0x0000_0002, &[0u8; 4084], 0x0000_0001);
    assert_eq!(0x0000_0002_0000_0001, s.sequence_number());
    assert_eq!(4084, s.data.len());
}

#[test]
fn entry_with_descriptors_decodes_and_validates() {
    let b = entry(5, LOG_ID, 0, &[Desc::Zero(5), Desc::Data(5, 5), Desc::Data(5, 5)], false);
    assert_eq!(3 * 4096, b.len());
    let e = LogEntry::deserialize(&b, 0).unwrap();
    assert_eq!(3, e.descriptors.len());
    match &e.descriptors[0] {
        Descriptor::Zero(z) => {
            assert_eq!(8192, z.zero_length);
            assert_eq!(4 * 1048576, z.file_offset);
            assert_eq!(5, z.seq_number);
        }
        Descriptor::Data(_) => panic!("expected a zero descriptor"),
    }
    match &e.descriptors[1] {
        Descriptor::Data(d) => {
            assert_eq!(vec![1, 2, 3, 4], d.trailing_bytes);
            assert_eq!(vec![5, 6, 7, 8, 9, 10, 11, 12], d.leading_bytes);
            let s = d.data_sector.as_ref().unwrap();
            assert_eq!(Signature::Data, s.signature);
            assert_eq!(5, s.sequence_number());
            assert_eq!(vec![0xab; 4084], s.data);
        }
        Descriptor::Zero(_) => panic!("expected a data descriptor"),
    }
    assert_eq!(e.header.checksum, e.crc32());
    assert_eq!(Ok(()), e.validate());
    assert_eq!(Ok(()), e.check_replayable(&Guid { value: LOG_ID }));
}

#[test]
fn entry_with_wrong_checksum() {
    let b = entry(5, LOG_ID, 0, &[Desc::Zero(5)], true);
    let e = LogEntry::deserialize(&b, 0).unwrap();
    let computed = e.crc32();
    assert_ne!(e.header.checksum, computed);
    assert_eq!(Err(VhdxError::ChecksumMismatch(e.header.checksum, computed)), e.validate());
}

#[test]
fn sector_mismatch_fails_cross_check() {
    let b = entry(2, LOG_ID, 0, &[Desc::Data(2, 3)], false);
    let e = LogEntry::deserialize(&b, 0).unwrap();
    assert_eq!(Err(VhdxError::LogEntrySequenceCrossCheckFailed(2, 3)), e.validate());
}

#[test]
fn entry_log_id_mismatch() {
    let b = entry(2, 9, 0, &[], false);
    let e = LogEntry::deserialize(&b, 0).unwrap();
    assert_eq!(
        Err(VhdxError::LogIdMismatch(Guid { value: 9 }, Guid { value: LOG_ID })),
        e.check_replayable(&Guid { value: LOG_ID })
    );
}

#[test]
fn malformed_descriptor_tag() {
    let mut b = entry(2, LOG_ID, 0, &[Desc::Zero(2)], false);
    b[64..68].copy_from_slice(b"junk");
    let tag = u32::from_le_bytes(*b"junk") as u64;
    assert_eq!(
        VhdxError::MalformedLog(Signature::Unknown(tag)),
        LogEntry::deserialize(&b, 0).unwrap_err()
    );
}

#[test]
fn entry_missing_its_sector() {
    let b = entry(2, LOG_ID, 0, &[Desc::Data(2, 2)], false);
    assert_eq!(
        VhdxError::ShortRead(8192, 4096),
        LogEntry::deserialize(&b[..4096], 0).unwrap_err()
    );
}

#[test]
fn sequence_stops_before_corrupt_entry() {
    let entries = vec![
        entry(1, LOG_ID, 0, &[Desc::Zero(1)], false),
        entry(2, LOG_ID, 0, &[Desc::Data(2, 2)], false),
        entry(3, LOG_ID, 0, &[Desc::Zero(3)], false),
        entry(4, LOG_ID, 0, &[Desc::Zero(4)], true),
    ];
    let b = region(&entries, 1048576);
    let log = Log::parse(&b, Guid { value: LOG_ID }).unwrap();
    assert_eq!(4, log.log_entries.len());
    let offsets: Vec<u64> = log.log_entries.iter().map(|e| e.offset).collect();
    assert_eq!(vec![0, 4096, 12288, 16384], offsets);
    let s = log.log_sequence();
    assert_eq!(3, s.entries.len());
    assert_eq!(vec![1, 2, 3], s.entries.iter().map(|e| e.header.seq_number).collect::<Vec<_>>());
    assert_eq!(3, s.sequence_number);
    assert_eq!(0, s.tail_value);
    assert_eq!(12288, s.head_value);
    assert!(s.is_valid());
    assert_eq!(3, s.head().unwrap().header.seq_number);
}

#[test]
fn sector_mismatch_excluded_from_sequence() {
    let entries = vec![
        entry(1, LOG_ID, 0, &[Desc::Zero(1)], false),
        entry(2, LOG_ID, 0, &[Desc::Data(2, 7)], false),
    ];
    let b = region(&entries, 1048576);
    let log = Log::parse(&b, Guid { value: LOG_ID }).unwrap();
    assert_eq!(vec![true, false], log.replayable());
    let s = log.log_sequence();
    assert_eq!(1, s.entries.len());
    assert_eq!(1, s.sequence_number);
}

#[test]
fn nil_log_id_means_empty_log() {
    let entries = vec![
        entry(1, 0, 0, &[Desc::Zero(1)], false),
        entry(2, 0, 0, &[Desc::Zero(2)], false),
    ];
    let b = region(&entries, 1048576);
    let log = Log::parse(&b, Guid::nil()).unwrap();
    assert_eq!(2, log.log_entries.len());
    let s = log.log_sequence();
    assert!(s.is_empty());
    assert!(!s.is_valid());
    assert_eq!(0, s.sequence_number);
}

#[test]
fn sequence_takes_most_recent_run() {
    let entries = vec![
        entry(7, LOG_ID, 0, &[Desc::Zero(7)], false),
        entry(8, LOG_ID, 0, &[Desc::Zero(8)], false),
        entry(3, LOG_ID, 0, &[Desc::Zero(3)], false),
        entry(4, LOG_ID, 0, &[Desc::Zero(4)], false),
    ];
    let b = region(&entries, 1048576);
    let log = Log::parse(&b, Guid { value: LOG_ID }).unwrap();
    let s = log.log_sequence();
    assert_eq!(vec![7, 8], s.entries.iter().map(|e| e.header.seq_number).collect::<Vec<_>>());
    assert_eq!(4096, s.head_value);
    assert_eq!(0, s.tail_value);
}

#[test]
fn sequence_with_tail_outside_run_is_not_valid() {
    let entries = vec![
        entry(1, LOG_ID, 0, &[], false),
        entry(2, LOG_ID, 65536, &[], false),
    ];
    let b = region(&entries, 1048576);
    let log = Log::parse(&b, Guid { value: LOG_ID }).unwrap();
    let s = log.log_sequence();
    assert_eq!(2, s.entries.len());
    assert!(!s.is_valid());
}

#[test]
fn select_from_flags() {
    let entries = vec![
        entry(1, LOG_ID, 0, &[], false),
        entry(2, LOG_ID, 0, &[], false),
        entry(3, LOG_ID, 0, &[], false),
    ];
    let b = region(&entries, 3 * 4096);
    let log = Log::parse(&b, Guid { value: LOG_ID }).unwrap();
    let s = LogSequence::select(&log.log_entries, &[true, false, true]);
    assert_eq!(1, s.entries.len());
    assert_eq!(3, s.sequence_number);
    assert_eq!(8192, s.tail_value);
    let none = LogSequence::select(&log.log_entries, &[false, false, false]);
    assert!(none.is_empty());
}

#[test]
fn scan_stops_at_non_log_tag() {
    let mut entries = vec![entry(1, LOG_ID, 0, &[], false)];
    let mut other = vec![0u8; 4096];
    other[..4].copy_from_slice(b"head");
    entries.push(other);
    entries.push(entry(2, LOG_ID, 0, &[], false));
    let b = region(&entries, 1048576);
    let log = Log::parse(&b, Guid { value: LOG_ID }).unwrap();
    assert_eq!(1, log.log_entries.len());
}

#[test]
fn scan_fails_on_truncated_entry() {
    let entries = vec![entry(1, LOG_ID, 0, &[Desc::Data(1, 1)], false)];
    let b: Vec<u8> = entries.concat();
    assert_eq!(
        VhdxError::ShortRead(8192, 6000),
        Log::parse(&b[..6000], Guid { value: LOG_ID }).unwrap_err()
    );
}
