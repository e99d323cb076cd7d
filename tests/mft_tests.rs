use disk_forensics::bytestream::{interpret_bytes_as_utf16, ByteStream, DecodeError};
use disk_forensics::mft::{
    parse_mft, parse_mft_file_record, parse_pbr, AttributeHeader, DataRun, MftAttribute,
    MftFileDescriptor, NtfsDatetime, NtfsPartitionBootRecord, NtfsPermissions, StandardInformation,
};
use disk_forensics::timestomp::{timestomp_mft, timestomp_plan, Timestomp};

const SI_TIME: u64 = 133_340_808_000_000_000;

fn utf16(s: &str) -> Vec<u8> {
    s.encode_utf16().flat_map(|u| u.to_le_bytes()).collect()
}

fn resident(kind: u32, body: &[u8]) -> Vec<u8> {
    let len = (24 + body.len() + 7) / 8 * 8;
    let mut a = vec![0u8; len];
    a[0..4].copy_from_slice(&kind.to_le_bytes());
    a[4..8].copy_from_slice(&(len as u32).to_le_bytes());
    a[16..20].copy_from_slice(&(body.len() as u32).to_le_bytes());
    a[20..22].copy_from_slice(&24u16.to_le_bytes());
    a[24..24 + body.len()].copy_from_slice(body);
    a
}

fn standard_information(t: u64) -> Vec<u8> {
    let mut b = vec![0u8; 48];
    for i in 0..4 {
        b[8 * i..8 * i + 8].copy_from_slice(&(t + i as u64).to_le_bytes());
    }
    b[32..36].copy_from_slice(&0x20u32.to_le_bytes());
    b
}

fn file_name(name: &str, t: u64) -> Vec<u8> {
    let units = utf16(name);
    let mut b = vec![0u8; 66];
    b[0..8].copy_from_slice(&5u64.to_le_bytes());
    for i in 0..4 {
        b[8 + 8 * i..16 + 8 * i].copy_from_slice(&(t + 10 + i as u64).to_le_bytes());
    }
    b[64] = (units.len() / 2) as u8;
    b[65] = 1;
    b.extend_from_slice(&units);
    b
}

fn data_attribute(allocation: u64) -> Vec<u8> {
    let mut a = vec![0u8; 72];
    a[0..4].copy_from_slice(&0x80u32.to_le_bytes());
    a[4..8].copy_from_slice(&72u32.to_le_bytes());
    a[8] = 1;
    a[32..34].copy_from_slice(&64u16.to_le_bytes());
    a[40..48].copy_from_slice(&allocation.to_le_bytes());
    a[48..56].copy_from_slice(&allocation.to_le_bytes());
    a[64..70].copy_from_slice(&[0x31, 0x40, 0x55, 0x4F, 0x01, 0x00]);
    a
}

fn record(attrs: &[Vec<u8>]) -> Vec<u8> {
    let mut r = vec![0u8; 1024];
    r[0..4].copy_from_slice(b"FILE");
    r[20..22].copy_from_slice(&56u16.to_le_bytes());
    let mut at = 56;
    for a in attrs {
        r[at..at + a.len()].copy_from_slice(a);
        at += a.len();
    }
    r[at..at + 4].copy_from_slice(&[0xFF; 4]);
    r
}

/// An NTFS volume at LBA 2 whose MFT (record size 1024, four slots) starts at
/// byte 5120: the $MFT record, "hello.txt", an empty slot, and "other".
fn ntfs_image() -> Vec<u8> {
    let mut image = vec![0u8; 512 * 24];
    let pbr = 1024;
    image[pbr..pbr + 3].copy_from_slice(&[0xEB, 0x52, 0x90]);
    image[pbr + 3..pbr + 11].copy_from_slice(b"NTFS    ");
    image[pbr + 11..pbr + 13].copy_from_slice(&512u16.to_le_bytes());
    image[pbr + 13] = 1;
    image[pbr + 48..pbr + 56].copy_from_slice(&8u64.to_le_bytes());
    image[pbr + 64] = 0xF6;
    image[pbr + 510] = 0x55;
    image[pbr + 511] = 0xAA;
    let mft = 5120;
    let r0 = record(&[
        resident(0x10, &standard_information(SI_TIME)),
        resident(0x30, &file_name("$MFT", SI_TIME)),
        data_attribute(4096),
    ]);
    let r1 = record(&[
        resident(0x10, &standard_information(SI_TIME)),
        resident(0x30, &file_name("hello.txt", SI_TIME)),
        resident(0x30, &file_name("HELLO~1.TXT", SI_TIME)),
    ]);
    let r3 = record(&[resident(0x30, &file_name("other", SI_TIME))]);
    image[mft..mft + 1024].copy_from_slice(&r0);
    image[mft + 1024..mft + 2048].copy_from_slice(&r1);
    image[mft + 3072..mft + 4096].copy_from_slice(&r3);
    image
}

#[test]
fn datarun_test() {
    let datarun: [u8; 8] = [128, 0x0, 0x0, 0x0, 80, 0x00, 0x00, 0x00];
    assert_eq!(DataRun::decode(&datarun, 0, 8), Err(DecodeError::Io));
}

#[test]
fn datarun_decode() {
    let run = [0x31, 0x40, 0x55, 0x4F, 0x01, 0x00, 0x00, 0x00];
    assert_eq!(DataRun::decode(&run, 0, 8), Ok(DataRun { length: 64, offset: 0x01_4F55 }));
    let negative = [0x21, 0x10, 0x00, 0xFF];
    assert_eq!(DataRun::decode(&negative, 0, 4), Ok(DataRun { length: 16, offset: -256 }));
    let wide = [0x19, 0, 0, 0];
    assert_eq!(DataRun::decode(&wide, 0, 4), Err(DecodeError::Integrity));
}

#[test]
fn test_stomp() {
    let bytes = [0x00, 0x48, 0xbc, 0xf4, 0xe0, 0x1d, 0xd9, 0x01];
    let num = u64::from_le_bytes(bytes);
    let datetime = NtfsDatetime { ole2: num };
    assert_eq!(datetime.ole2(), 133_170_516_000_000_000);
    assert_eq!(datetime.unix_timestamp(), 1_672_578_000);
}

#[test]
fn ole2_conversions() {
    let d = NtfsDatetime::from_unix(1_672_578_000);
    assert_eq!(d.ole2(), 133_170_516_000_000_000);
    assert_eq!(d.ole2_le_bytes(), [0x00, 0x48, 0xbc, 0xf4, 0xe0, 0x1d, 0xd9, 0x01]);
    assert_eq!(d.unix_timestamp(), 1_672_578_000);
    assert_eq!(NtfsDatetime { ole2: 133_340_808_000_000_000 }.unix_timestamp(), 1_689_607_200);
    assert_eq!(NtfsDatetime::from_unix(0).unix_timestamp(), 0);
    assert_eq!(NtfsDatetime { ole2: 0 }.unix_timestamp(), -11_644_473_600);
    assert!(NtfsDatetime::checked_from_unix(u64::MAX).is_none());
}

#[test]
fn utf16_names() {
    assert_eq!(interpret_bytes_as_utf16(&utf16("h\u{e9}llo")).unwrap(), "h\u{e9}llo");
    assert_eq!(interpret_bytes_as_utf16(&utf16("\u{1F600}")).unwrap(), "\u{1F600}");
    assert_eq!(interpret_bytes_as_utf16(&[0x00, 0xD8]), Err(DecodeError::Encoding));
    assert_eq!(interpret_bytes_as_utf16(&[0x41]), Err(DecodeError::Encoding));
}

#[test]
fn byte_stream_reads() {
    let image: Vec<u8> = (0..2048u32).map(|i| (i % 251) as u8).collect();
    let mut s = ByteStream::from_byte_offset(&image, 512, 700).unwrap();
    assert_eq!(s.get_byte_offset(), 700);
    assert_eq!(s.read_u8().unwrap(), (700 % 251) as u8);
    assert_eq!(s.peek_le_u32().unwrap(), u32::from_le_bytes([image[701], image[702], image[703], image[704]]));
    assert_eq!(s.read_be_u16().unwrap(), u16::from_be_bytes([image[701], image[702]]));
    let before = s.get_byte_offset();
    let raw = s.read_raw_sectors_from_file(3, 1).unwrap();
    assert_eq!(raw, image[1536..2048].to_vec());
    assert_eq!(s.get_byte_offset(), before);
    assert_eq!(s.read_raw_bytes_from_file(2040, 16), Err(DecodeError::Io));
    assert_eq!(s.skip_bytes(1000), Err(DecodeError::Io));
    assert_eq!(s.get_byte_offset(), before);
    assert!(ByteStream::new(&image, 512, 4).is_err());
    assert!(ByteStream::new(&image, 512, 3).is_ok());
}

#[test]
fn attribute_header_variants() {
    let mut named = data_attribute(8192);
    named[9] = 2;
    let mut bytes = named[..64].to_vec();
    bytes.extend_from_slice(&utf16("$I"));
    let h = AttributeHeader::read(&bytes, 0, bytes.len()).unwrap();
    assert!(matches!(h, AttributeHeader::NonResidentNamed { ref attribute_name, .. } if attribute_name == "$I"));
    assert_eq!(h.attribute_type(), 0x80);
    assert_eq!(h.file_allocation_size(), Some(8192));
    assert_eq!(h.datarun_offset(), 64);
    let si = resident(0x10, &standard_information(SI_TIME));
    let h = AttributeHeader::read(&si, 0, si.len()).unwrap();
    assert_eq!(h.attribute_length(), 72);
    assert_eq!(h.file_allocation_size(), None);
    assert_eq!(h.datarun_offset(), 0);
}

#[test]
fn mft_walk() {
    let image = ntfs_image();
    let records = parse_pbr(&image, 2).unwrap();
    assert_eq!(records.len(), 3);
    assert!(records[1].has_file_name_attribute("hello.txt"));
    assert!(!records[1].has_file_name_attribute("HELLO~1.TXT"));
    assert!(records[2].has_file_name_attribute("other"));
    let data = records[0].attributes.iter().find_map(|a| match &a.body {
        MftAttribute::Data(d) => Some(*d),
        _ => None,
    });
    assert_eq!(data, Some(DataRun { length: 64, offset: 0x01_4F55 }));
    assert_eq!(records[1].attributes.len(), 2);
    assert_eq!(records[1].attributes[0].offset, 5120 + 1024 + 56 + 24);
    match &records[1].attributes[0].body {
        MftAttribute::StandardInformation(si) => assert_eq!(si.datetime_file_creation.unix_timestamp(), 1_689_607_200),
        _ => panic!("expected $STANDARD_INFORMATION"),
    }
}

#[test]
fn mft_record_edge_cases() {
    let mut image = ntfs_image();
    assert!(matches!(parse_mft_file_record(&image, 5120 + 2048, 1024, true), Ok(None)));
    image[5120 + 1024..5120 + 1028].copy_from_slice(b"BAAD");
    assert!(matches!(parse_mft_file_record(&image, 5120 + 1024, 1024, true), Err(DecodeError::Integrity)));
    assert!(matches!(parse_mft(&image, 5120 + 2048, 1024), Err(DecodeError::Signature)));
    assert!(matches!(parse_mft_file_record(&image, 5120, 1024, true), Ok(Some(_))));
    assert!(matches!(parse_mft_file_record(&image, image.len() as u64, 1024, true), Err(DecodeError::Io)));
}

#[test]
fn pbr_fields() {
    let image = ntfs_image();
    let pbr = NtfsPartitionBootRecord::read(&image, 1024);
    assert_eq!(pbr.oem_id_str().unwrap(), "NTFS");
    assert_eq!(pbr.is_ntfs(), Ok(true));
    let mut bad = ntfs_image();
    bad[1024 + 3..1024 + 11].copy_from_slice(&[0xFF; 8]);
    assert!(matches!(parse_pbr(&bad, 2), Err(DecodeError::Encoding)));
    let mut nbsp = ntfs_image();
    nbsp[1024 + 3..1024 + 11].copy_from_slice(b"NTFS\xC2\xA0  ");
    assert_eq!(NtfsPartitionBootRecord::read(&nbsp, 1024).oem_id_str().unwrap(), "NTFS");
    let mut zero_spc = ntfs_image();
    zero_spc[1024 + 64] = 2;
    zero_spc[1024 + 13] = 0;
    assert!(matches!(parse_pbr(&zero_spc, 2), Err(DecodeError::Unsupported)));
    assert_eq!(pbr.mft_record_size(), Ok(1024));
    assert_eq!(pbr.mft_lcn, 8);
    assert_eq!(pbr.mft_size, -10);
    let mut other = ntfs_image();
    other[1024 + 3..1024 + 11].copy_from_slice(b"MSDOS5.0");
    assert!(matches!(parse_pbr(&other, 2), Err(DecodeError::Unsupported)));
    let mut unsigned = ntfs_image();
    unsigned[1024 + 510] = 0;
    assert!(matches!(parse_pbr(&unsigned, 2), Err(DecodeError::Signature)));
}

#[test]
fn timestomp_rewrites_both_timestamp_sets() {
    let mut image = ntfs_image();
    let records = parse_pbr(&image, 2).unwrap();
    let request = Timestomp::Timestomp { file_name: "hello.txt".to_string(), timestamp: 1_000_000_000 };
    let before = image.clone();
    let writes = timestomp_mft(&mut image, &records, &request).unwrap();
    assert_eq!(writes.len(), 64);
    let ole2 = NtfsDatetime::from_unix(1_000_000_000).ole2();
    let si = 5120 + 1024 + 56 + 24;
    let fname = si + 72;
    for i in 0..4 {
        assert_eq!(u64::from_le_bytes(image[si + 8 * i..si + 8 * i + 8].try_into().unwrap()), ole2);
        assert_eq!(u64::from_le_bytes(image[fname + 8 + 8 * i..fname + 16 + 8 * i].try_into().unwrap()), ole2);
    }
    let changed = image.iter().zip(before.iter()).filter(|(a, b)| a != b).count();
    assert!(changed <= 64);
    assert_eq!(image[fname..fname + 8], before[fname..fname + 8]);
}

#[test]
fn timestomp_twice_equals_once() {
    let base = ntfs_image();
    let records = parse_pbr(&base, 2).unwrap();
    let t1 = Timestomp::Timestomp { file_name: "hello.txt".to_string(), timestamp: 5 };
    let t2 = Timestomp::Timestomp { file_name: "hello.txt".to_string(), timestamp: 1_700_000_000 };
    let mut once = base.clone();
    timestomp_mft(&mut once, &records, &t2).unwrap();
    let mut twice = base.clone();
    timestomp_mft(&mut twice, &records, &t2).unwrap();
    timestomp_mft(&mut twice, &records, &t2).unwrap();
    assert_eq!(once, twice);
    let mut last_wins = base.clone();
    timestomp_mft(&mut last_wins, &records, &t1).unwrap();
    timestomp_mft(&mut last_wins, &records, &t2).unwrap();
    assert_eq!(once, last_wins);
}

#[test]
fn timestomp_missing_name() {
    let mut image = ntfs_image();
    let records = parse_pbr(&image, 2).unwrap();
    let request = Timestomp::Timestomp { file_name: "nope".to_string(), timestamp: 1 };
    let before = image.clone();
    assert!(matches!(timestomp_mft(&mut image, &records, &request), Err(DecodeError::NotFound)));
    assert_eq!(image, before);
    let request = Timestomp::Timestomp { file_name: "other".to_string(), timestamp: 1 };
    assert!(matches!(timestomp_plan(&records, &request), Err(DecodeError::NotFound)));
    let request = Timestomp::Timestomp { file_name: "hello.txt".to_string(), timestamp: u64::MAX };
    assert!(matches!(timestomp_plan(&records, &request), Err(DecodeError::Unsupported)));
}

#[test]
fn standard_information_round_trip() {
    let body = standard_information(SI_TIME);
    let si = StandardInformation::read(&body, 0, body.len()).unwrap();
    assert_eq!(si.datetime_file_modification.ole2(), SI_TIME + 1);
    assert_eq!(si.file_permission_flags, 0x20);
    assert_eq!(si.to_bytes(), body);
    assert!(StandardInformation::read(&body, 8, body.len()).is_err());
}

#[test]
fn record_header_fields() {
    let image = ntfs_image();
    let d = MftFileDescriptor::read(&image, 5120);
    assert_eq!(&d.signature, b"FILE");
    assert_eq!(d.offset_first_attribute, 56);
}

#[test]
fn permission_flags() {
    assert_eq!(NtfsPermissions::from_flag(0x20), Some(NtfsPermissions::Archive));
    assert_eq!(NtfsPermissions::from_flag(0x4000).map(|p| p.flag()), Some(0x4000));
    assert_eq!(NtfsPermissions::from_flag(0x21), None);
}

#[test]
fn test_erroring_file_record() {
    let image = ntfs_image();
    let record = parse_mft_file_record(&image, 5120 + 1024, 1024, true).unwrap();
    let record = record.unwrap();
    assert_eq!(record.attributes.len(), 2);
    let mut broken = ntfs_image();
    // a zero attribute length is an integrity error
    broken[5120 + 1024 + 56 + 4..5120 + 1024 + 56 + 8].copy_from_slice(&0u32.to_le_bytes());
    assert!(matches!(parse_mft_file_record(&broken, 5120 + 1024, 1024, true), Err(DecodeError::Integrity)));
    let mut unterminated = ntfs_image();
    // an attribute running past the end of its record
    unterminated[5120 + 1024 + 56 + 4..5120 + 1024 + 56 + 8].copy_from_slice(&4000u32.to_le_bytes());
    assert!(matches!(parse_mft_file_record(&unterminated, 5120 + 1024, 1024, true), Err(DecodeError::Integrity)));
}
