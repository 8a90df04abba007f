use vhdx::header::{
    select_header, FileTypeIdentifier, Header, KnowRegion, RTEntry, RegionTable, FTI_SIZE,
    HEADER_SIZE,
};
use vhdx::vhdx::{Vhdx, VhdxHeader};
use vhdx::{Crc32, Field, Guid, Signature, Validation, VhdxError, KB};

fn fti_bytes() -> Vec<u8> {
    vec![
        0x76, 0x68, 0x64, 0x78, 0x66, 0x69, 0x6c, 0x65, 0x4d, 0x00, 0x69, 0x00, 0x63, 0x00,
        0x72, 0x00, 0x6f, 0x00, 0x73, 0x00, 0x6f, 0x00, 0x66, 0x00, 0x74, 0x00, 0x20, 0x00,
        0x57, 0x00, 0x69, 0x00, 0x6e, 0x00, 0x64, 0x00, 0x6f, 0x00, 0x77, 0x00, 0x73, 0x00,
        0x20, 0x00, 0x31, 0x00, 0x30, 0x00, 0x2e, 0x00, 0x30, 0x00, 0x2e, 0x00, 0x31, 0x00,
        0x39, 0x00, 0x30, 0x00, 0x34, 0x00, 0x35, 0x00, 0x2e, 0x00, 0x30,
    ]
}

fn header_bytes() -> Vec<u8> {
    vec![
        0x68, 0x65, 0x61, 0x64, 0x6c, 0xef, 0x07, 0x80, 0x04, 0x00, 0x00, 0x00, 0x00, 0x00,
        0x00, 0x00, 0xcc, 0xe0, 0x65, 0xb3, 0xaa, 0xf1, 0xd8, 0x4b, 0x9c, 0x8d, 0x16, 0x09,
        0xd9, 0x38, 0xb5, 0xec, 0x59, 0xe3, 0xca, 0x76, 0xef, 0xf9, 0xab, 0x45, 0xad, 0x4a,
        0x77, 0xda, 0xae, 0xce, 0xf6, 0x17, 0x00, 0x00, 0x00, 0x00, 0x00, 0x00, 0x00, 0x00,
        0x00, 0x00, 0x00, 0x00, 0x00, 0x00, 0x00, 0x00, 0x00, 0x00, 0x01, 0x00, 0x00, 0x00,
        0x10, 0x00, 0x00, 0x00, 0x10, 0x00, 0x00, 0x00, 0x00, 0x00, 0x00, 0x00, 0x00, 0x00,
        0x00, 0x00, 0x00, 0x00, 0x00, 0x00, 0x00, 0x00, 0x00, 0x00, 0x00, 0x00,
    ]
}

fn region_table_bytes() -> Vec<u8> {
    vec![
        0x72, 0x65, 0x67, 0x69, 0xae, 0x8c, 0x6b, 0xc6, 0x02, 0x00, 0x00, 0x00, 0x00, 0x00,
        0x00, 0x00, 0x66, 0x77, 0xc2, 0x2d, 0x23, 0xf6, 0x00, 0x42, 0x9d, 0x64, 0x11, 0x5e,
        0x9b, 0xfd, 0x4a, 0x08, 0x00, 0x00, 0x30, 0x00, 0x00, 0x00, 0x00, 0x00, 0x00, 0x00,
        0x10, 0x00, 0x01, 0x00, 0x00, 0x00, 0x06, 0xa2, 0x7c, 0x8b, 0x90, 0x47, 0x9a, 0x4b,
        0xb8, 0xfe, 0x57, 0x5f, 0x05, 0x0f, 0x88, 0x6e, 0x00, 0x00, 0x20, 0x00, 0x00, 0x00,
        0x00, 0x00, 0x00, 0x00, 0x10, 0x00, 0x01, 0x00, 0x00, 0x00, 0x00, 0x00, 0x00, 0x00,
        0x00, 0x00, 0x00, 0x00, 0x00, 0x00, 0x00, 0x00, 0x00, 0x00, 0x00, 0x00,
    ]
}

fn fixture_header() -> Header {
    let mut values = header_bytes();
    values.resize(KB as usize * 64, 0);
    Header::deserialize(&values).unwrap()
}

fn fixture_region_table() -> RegionTable {
    let mut values = region_table_bytes();
    values.resize(65536, 0);
    RegionTable::deserialize(&values).unwrap()
}

/// A well-formed image of the first 320 KB of a file.
fn file_start() -> Vec<u8> {
    let mut bytes = fti_bytes();
    bytes.resize(64 * 1024, 0);
    for _ in 0..2 {
        let mut h = header_bytes();
        h.resize(64 * 1024, 0);
        bytes.extend_from_slice(&h);
    }
    for _ in 0..2 {
        let mut t = region_table_bytes();
        t.resize(64 * 1024, 0);
        bytes.extend_from_slice(&t);
    }
    bytes
}

fn with_new_checksum(mut h: Header) -> Header {
    h.checksum = h.crc32();
    h
}

#[test]
fn parse_file_header() {
    let mut b_fti = fti_bytes();
    b_fti.resize(64000, 0);
    let mut b_header_1 = header_bytes();
    b_header_1.resize(64000, 0);
    let mut b_header_2 = b_header_1.clone();
    let mut b_region_table_1 = region_table_bytes();
    b_region_table_1.resize(64000, 0);
    let mut b_region_table_2 = b_region_table_1.clone();

    let mut bytes = Vec::new();
    bytes.append(&mut b_fti);
    bytes.append(&mut b_header_1);
    bytes.append(&mut b_header_2);
    bytes.append(&mut b_region_table_1);
    bytes.append(&mut b_region_table_2);

    let header = VhdxHeader::deserialize(&bytes).unwrap();

    assert_eq!(Signature::Vhdxfile, header.fti.signature);
}

#[test]
fn parse_fti() {
    let mut values = fti_bytes();
    values.resize(FTI_SIZE, 0);

    let fti = FileTypeIdentifier::deserialize(&values).unwrap();

    assert_eq!(Signature::Vhdxfile, fti.signature);
    assert_eq!("Microsoft Windows 10.0.19045.0", fti.creator);
}

#[test]
fn parse_headers() {
    let mut values = header_bytes();
    values.resize(KB as usize * 64, 0);

    let headers = Header::deserialize(&values).unwrap();

    assert_eq!(Signature::Head, headers.signature);
    assert_eq!(2148003692, headers.checksum);
    assert_eq!(4, headers.seq_number);
    assert_eq!("b365e0cc-f1aa-4bd8-9c8d-1609d938b5ec", headers.file_write_guid.to_text());
    assert_eq!("76cae359-f9ef-45ab-ad4a-77daaecef617", headers.data_write_guid.to_text());

    // 0 means there are no log entries
    assert_eq!("00000000-0000-0000-0000-000000000000", headers.log_guid.to_text());
    assert_eq!(0, headers.log_version);
    assert_eq!(1, headers.version);

    // 1 mb in binary equals 1048576 (2^20)
    assert_eq!(1048576, headers.log_length);
    assert_eq!(1048576, headers.log_offset);
}

#[test]
fn header_fixture_fields() {
    let h = fixture_header();
    assert_eq!(Signature::Head, h.signature);
    assert_eq!(4, h.sequence_number());
    assert_eq!(1, h.version);
    assert_eq!(1048576, h.log_length);
    assert_eq!(1048576, h.log_offset);
    assert!(h.log_guid.is_nil());
}

#[test]
fn header_checksum_recomputes_stored_value() {
    let h = fixture_header();
    assert_eq!(h.checksum, h.crc32());
    assert_eq!(Ok(()), h.validate());
}

#[test]
fn header_checksum_changes_with_fields() {
    let h = fixture_header();
    let mut other = h;
    other.seq_number = 5;
    assert_ne!(h.crc32(), other.crc32());
}

#[test]
fn header_short_input() {
    assert_eq!(
        Err(VhdxError::ShortRead(HEADER_SIZE as u64, 100)),
        Header::deserialize(&vec![0u8; 100])
    );
}

#[test]
fn select_prefers_larger_sequence_number() {
    let first = fixture_header();
    let mut second = first;
    second.seq_number = 9;
    let second = with_new_checksum(second);
    assert_eq!(Ok(()), second.validate());
    assert_eq!(Ok(second), select_header(&first, &second));
    assert_eq!(Ok(second), select_header(&second, &first));
}

#[test]
fn select_uses_only_valid_copy() {
    let good = fixture_header();
    let mut bad = good;
    bad.seq_number = 100;
    assert_eq!(Ok(good), select_header(&bad, &good));
    assert_eq!(Ok(good), select_header(&good, &bad));
}

#[test]
fn select_fails_when_no_copy_validates() {
    let mut bad = fixture_header();
    bad.seq_number = 100;
    let stored = bad.checksum;
    let computed = bad.crc32();
    assert_eq!(
        Err(VhdxError::ChecksumMismatch(stored, computed)),
        select_header(&bad, &bad)
    );
}

#[test]
fn header_signature_mismatch() {
    let mut h = fixture_header();
    h.signature = Signature::Regi;
    assert_eq!(Err(VhdxError::SignatureMismatch(Signature::Head, Signature::Regi)), h.validate());
}

#[test]
fn header_unsupported_version() {
    let mut h = fixture_header();
    h.version = 2;
    let h = with_new_checksum(h);
    assert_eq!(Err(VhdxError::UnsupportedVersion(2)), h.validate());
}

#[test]
fn header_log_version_needs_nil_log_id() {
    let mut h = fixture_header();
    h.log_version = 1;
    let allowed = with_new_checksum(h);
    assert_eq!(Ok(()), allowed.validate());
    h.log_guid = Guid { value: 7 };
    let refused = with_new_checksum(h);
    assert_eq!(Err(VhdxError::UnsupportedLogVersion(1)), refused.validate());
}

#[test]
fn header_alignment_violations() {
    let mut h = fixture_header();
    h.log_length = 4096;
    let h1 = with_new_checksum(h);
    assert_eq!(
        Err(VhdxError::AlignmentViolation(Field::LogLength, 4096, 1048576)),
        h1.validate()
    );
    let mut h = fixture_header();
    h.log_offset = 1048576 + 512;
    let h2 = with_new_checksum(h);
    assert_eq!(
        Err(VhdxError::AlignmentViolation(Field::LogOffset, 1048576 + 512, 1048576)),
        h2.validate()
    );
}

#[test]
fn fti_signature_mismatch() {
    let mut values = fti_bytes();
    values[0] = b'x';
    values.resize(FTI_SIZE, 0);
    let err = FileTypeIdentifier::deserialize(&values).unwrap_err();
    assert!(matches!(
        err,
        VhdxError::SignatureMismatch(Signature::Vhdxfile, Signature::Unknown(_))
    ));
}

#[test]
fn fti_short_input() {
    let values = fti_bytes();
    assert_eq!(
        VhdxError::ShortRead(65536, values.len() as u64),
        FileTypeIdentifier::deserialize(&values).unwrap_err()
    );
}

#[test]
fn region_table_fixture() {
    let t = fixture_region_table();
    assert_eq!(Signature::Regi, t.signature);
    assert_eq!(2, t.entry_count);
    assert_eq!(2, t.table_entries.len());
    assert_eq!(Ok(()), t.validate());
    let bat = t.entry(KnowRegion::Bat).unwrap();
    assert_eq!(0x30_0000, bat.file_offset);
    assert_eq!(0x10_0000, bat.length);
    assert!(bat.required);
    let meta = t.entry(KnowRegion::MetaData).unwrap();
    assert_eq!(0x20_0000, meta.file_offset);
    assert_eq!("8b7ca206-4790-4b9a-b8fe-575f050f886e", meta.guid.to_text());
}

#[test]
fn metadata_identifier_classifies() {
    let bytes: [u8; 16] = [
        0x06, 0xa2, 0x7c, 0x8b, 0x90, 0x47, 0x9a, 0x4b, 0xb8, 0xfe, 0x57, 0x5f, 0x05, 0x0f, 0x88,
        0x6e,
    ];
    let id = Guid { value: u128::from_le_bytes(bytes) };
    assert_eq!("8b7ca206-4790-4b9a-b8fe-575f050f886e", id.to_text());
    assert_eq!(Some(KnowRegion::MetaData), KnowRegion::classify(&id));
    let bat = Guid { value: u128::from_le_bytes([
        0x66, 0x77, 0xc2, 0x2d, 0x23, 0xf6, 0x00, 0x42, 0x9d, 0x64, 0x11, 0x5e, 0x9b, 0xfd, 0x4a,
        0x08,
    ]) };
    assert_eq!(Some(KnowRegion::Bat), KnowRegion::classify(&bat));
    assert_eq!(None, KnowRegion::classify(&Guid { value: 1 }));
}

#[test]
fn region_count_exceeded_before_entries() {
    let mut b = vec![0x72, 0x65, 0x67, 0x69, 0, 0, 0, 0];
    b.extend_from_slice(&2048u32.to_le_bytes());
    b.extend_from_slice(&[0, 0, 0, 0]);
    assert_eq!(16, b.len());
    assert_eq!(VhdxError::RegionCountExceeded(2048), RegionTable::deserialize(&b).unwrap_err());
}

#[test]
fn region_table_short_entries() {
    let b = region_table_bytes();
    assert_eq!(
        VhdxError::ShortRead(80, b[..60].len() as u64),
        RegionTable::deserialize(&b[..60]).unwrap_err()
    );
}

fn table_with_extra_entry(id: u128, required: bool) -> Vec<u8> {
    let mut b = region_table_bytes();
    b.truncate(80);
    b[8] = 3;
    b.extend_from_slice(&id.to_le_bytes());
    b.extend_from_slice(&(5u64 * 1048576).to_le_bytes());
    b.extend_from_slice(&1048576u32.to_le_bytes());
    b.extend_from_slice(&(required as u32).to_le_bytes());
    b.resize(65536, 0);
    b
}

#[test]
fn unrecognized_required_region_is_fatal() {
    let id = 0x0123_4567_89ab_cdef_0011_2233_4455_6677u128;
    let b = table_with_extra_entry(id, true);
    let err = RegionTable::deserialize(&b).unwrap_err();
    assert_eq!(VhdxError::UnrecognizedRequiredRegion(Guid { value: id }), err);
    assert_eq!("44556677-2233-0011-efcd-ab8967452301", Guid { value: id }.to_text());
}

#[test]
fn unrecognized_optional_region_is_kept() {
    let id = 0x0123_4567_89ab_cdef_0011_2233_4455_6677u128;
    let b = table_with_extra_entry(id, false);
    let t = RegionTable::deserialize(&b).unwrap();
    assert_eq!(3, t.table_entries.len());
    assert_eq!(
        RTEntry::new(Guid { value: id }, 5 * 1048576, 1048576, false),
        t.table_entries[2]
    );
    assert_eq!(0x20_0000, t.entry(KnowRegion::MetaData).unwrap().file_offset);
}

#[test]
fn duplicate_known_region_is_refused() {
    let meta = 0x6e88_0f05_5f57_feb8_4b9a_4790_8b7c_a206u128;
    let b = table_with_extra_entry(meta, true);
    assert_eq!(
        VhdxError::DuplicateRegion(KnowRegion::MetaData),
        RegionTable::deserialize(&b).unwrap_err()
    );
}

#[test]
fn region_table_missing_region() {
    let mut t = RegionTable::new(Signature::Regi, 0, 1);
    t.table_entries.push(RTEntry::new(
        Guid { value: 0x084a_fd9b_5e11_649d_4200_f623_2dc2_7766 },
        3 * 1048576,
        1048576,
        true,
    ));
    t.checksum = t.crc32();
    assert_eq!(Err(VhdxError::MissingRegion(KnowRegion::MetaData)), t.validate());
}

#[test]
fn region_table_checksum_mismatch() {
    let mut t = fixture_region_table();
    t.checksum ^= 1;
    let stored = t.checksum;
    assert_eq!(Err(VhdxError::ChecksumMismatch(stored, stored ^ 1)), t.validate());
}

#[test]
fn header_set_current_copies() {
    let h = VhdxHeader::deserialize(&file_start()).unwrap();
    assert_eq!("Microsoft Windows 10.0.19045.0", h.fti.creator);
    assert_eq!(Ok(fixture_header()), h.current_header());
    let t = h.current_region_table().unwrap();
    assert_eq!(0x20_0000, t.entry(KnowRegion::MetaData).unwrap().file_offset);
}

#[test]
fn open_file_without_log() {
    let h = VhdxHeader::deserialize(&file_start()).unwrap();
    let region = vec![0u8; 1048576];
    let v = Vhdx::new(h, &region).unwrap();
    assert_eq!(0x20_0000, v.meta_data_offset);
    assert!(v.log.log_entries.is_empty());
    assert!(v.log.log_sequence().is_empty());
}

#[test]
fn open_file_with_wrong_log_length() {
    let h = VhdxHeader::deserialize(&file_start()).unwrap();
    let region = vec![0u8; 4096];
    assert_eq!(VhdxError::ShortRead(1048576, 4096), Vhdx::new(h, &region).unwrap_err());
}
