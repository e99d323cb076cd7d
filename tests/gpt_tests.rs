use disk_forensics::bytestream::DecodeError;
use disk_forensics::scheme::{detect_scheme, find_ntfs_partition, PartitionScheme};
use disk_forensics::gpt::{
    calculate_crc32, is_valid_header_crc32, lookup_partition_type, parse_gpt, write_header_crc32,
    Guid, GptPartitionTableEntry,
};

#[test]
fn test_guid() {
    let bytes: [u8; 16] = [
        0x28, 0x73, 0x2a, 0xc1, 0x1f, 0xf8, 0xd2, 0x11, 0xba, 0x4b, 0x00, 0xa0, 0xc9, 0x3e, 0xc9,
        0x3b,
    ];
    let guid = Guid::new(bytes);
    assert_eq!(
        format!("{}", guid.to_string()),
        "C12A7328-F81F-11D2-BA4B-00A0C93EC93B"
    )
}

#[test]
fn guid_fields_are_mixed_endian() {
    let bytes: [u8; 16] = [
        0x28, 0x73, 0x2a, 0xc1, 0x1f, 0xf8, 0xd2, 0x11, 0xba, 0x4b, 0x00, 0xa0, 0xc9, 0x3e, 0xc9,
        0x3b,
    ];
    let guid = Guid::new(bytes);
    assert_eq!(guid.time_low, 0xC12A7328);
    assert_eq!(guid.time_mid, 0xF81F);
    assert_eq!(guid.time_high_and_version, 0x11D2);
    assert_eq!(guid.to_bytes(), bytes);
}

#[test]
fn guid_text_round_trip() {
    let bytes: [u8; 16] = [
        0xa2, 0xa0, 0xd0, 0xeb, 0xe5, 0xb9, 0x33, 0x44, 0x87, 0xc0, 0x68, 0xb6, 0xb7, 0x26, 0x99,
        0xc7,
    ];
    let text = Guid::new(bytes).to_string();
    assert_eq!(text, "EBD0A0A2-B9E5-4433-87C0-68B6B72699C7");
    let back = Guid::parse(&text).unwrap();
    assert_eq!(back.to_bytes(), bytes);
    let lower = Guid::parse("ebd0a0a2-b9e5-4433-87c0-68b6b72699c7").unwrap();
    assert_eq!(lower.to_bytes(), bytes);
}

#[test]
fn guid_parse_rejects_malformed_text() {
    assert!(Guid::parse("EBD0A0A2B9E5-4433-87C0-68B6B72699C7-").is_none());
    assert!(Guid::parse("EBD0A0A2-B9E5-4433-87C0-68B6B72699C").is_none());
    assert!(Guid::parse("XBD0A0A2-B9E5-4433-87C0-68B6B72699C7").is_none());
}

#[test]
fn apple_guid_is_efi_system() {
    let bytes: [u8; 16] = [
        0x28, 0x73, 0x2a, 0xc1, 0x1f, 0xf8, 0xd2, 0x11, 0xba, 0x4b, 0x00, 0xa0, 0xc9, 0x3e, 0xc9,
        0x3b,
    ];
    assert_eq!(lookup_partition_type(Guid::new(bytes)), "EFI System");
    assert_eq!(lookup_partition_type(Guid::new([0u8; 16])), "Unknown Partition Type");
}

#[test]
fn crc32_known_value() {
    assert_eq!(calculate_crc32(b"123456789"), 0xCBF43926);
    assert_eq!(calculate_crc32(&[]), 0);
}

#[test]
fn header_crc_self_check() {
    let mut header: Vec<u8> = (0..92u32).map(|i| (i * 7 + 3) as u8).collect();
    write_header_crc32(&mut header);
    let stored = u32::from_le_bytes([header[16], header[17], header[18], header[19]]);
    assert!(is_valid_header_crc32(&header, stored));
    assert!(!is_valid_header_crc32(&header, stored ^ 1));
    assert!(!is_valid_header_crc32(&header[..10], stored));
}

fn put(image: &mut [u8], at: usize, bytes: &[u8]) {
    image[at..at + bytes.len()].copy_from_slice(bytes);
}

/// A disk with a protective MBR, a GPT header at LBA 1 and its entry array
/// at LBA 2, holding one "Microsoft basic data" partition named "data".
fn gpt_image() -> Vec<u8> {
    let mut image = vec![0u8; 512 * 8];
    // protective MBR entry of type 0xEE
    put(&mut image, 446, &[0x00, 0x00, 0x02, 0x00, 0xEE, 0xFF, 0xFF, 0xFF]);
    put(&mut image, 446 + 8, &1u32.to_le_bytes());
    put(&mut image, 446 + 12, &7u32.to_le_bytes());
    image[510] = 0x55;
    image[511] = 0xAA;
    // entry array: 4 entries of 128 bytes at LBA 2
    let entry = 1024;
    put(&mut image, entry, &[
        0xa2, 0xa0, 0xd0, 0xeb, 0xe5, 0xb9, 0x33, 0x44, 0x87, 0xc0, 0x68, 0xb6, 0xb7, 0x26, 0x99, 0xc7,
    ]);
    put(&mut image, entry + 16, &[0x11; 16]);
    put(&mut image, entry + 32, &4u64.to_le_bytes());
    put(&mut image, entry + 40, &7u64.to_le_bytes());
    put(&mut image, entry + 56, &[b'd', 0, b'a', 0, b't', 0, b'a', 0]);
    let array_crc = calculate_crc32(&image[1024..1024 + 4 * 128]);
    // header at LBA 1
    let mut header = vec![0u8; 92];
    header[0..8].copy_from_slice(b"EFI PART");
    header[8..12].copy_from_slice(&[0, 0, 1, 0]);
    header[12..16].copy_from_slice(&92u32.to_le_bytes());
    header[24..32].copy_from_slice(&1u64.to_le_bytes());
    header[72..80].copy_from_slice(&2u64.to_le_bytes());
    header[80..84].copy_from_slice(&4u32.to_le_bytes());
    header[84..88].copy_from_slice(&128u32.to_le_bytes());
    header[88..92].copy_from_slice(&array_crc.to_le_bytes());
    write_header_crc32(&mut header);
    put(&mut image, 512, &header);
    image
}

#[test]
fn gpt_parses_entries_and_crcs() {
    let image = gpt_image();
    let table = parse_gpt(&image).unwrap();
    assert!(table.header_crc_valid);
    assert!(table.entries_crc_valid);
    assert_eq!(table.header.signature().unwrap(), "EFI PART");
    assert_eq!(table.header.header_size(), 92);
    assert_eq!(table.header.starting_lba_of_partition_entries(), 2);
    assert_eq!(table.entries.len(), 1);
    let e = &table.entries[0];
    assert_eq!(e.starting_lba(), 4);
    assert_eq!(e.ending_lba(), 7);
    assert_eq!(e.partition_name().unwrap(), "data");
    assert_eq!(e.get_partition_type_guid(), "EBD0A0A2-B9E5-4433-87C0-68B6B72699C7");
    assert_eq!(lookup_partition_type(e.partition_type_guid()), "Microsoft basic data");
    assert!(!e.is_empty());
    assert_eq!(e.total_sectors(), 4);
}

#[test]
fn protective_mbr_dispatches_to_gpt() {
    let image = gpt_image();
    assert_eq!(detect_scheme(&image).unwrap(), PartitionScheme::Gpt);
    assert_eq!(find_ntfs_partition(&image).unwrap(), 4);
}

#[test]
fn gpt_crc_mismatch_is_reported_not_fatal() {
    let mut image = gpt_image();
    image[1024 + 48] = 0x01;
    let table = parse_gpt(&image).unwrap();
    assert!(table.header_crc_valid);
    assert!(!table.entries_crc_valid);
    assert_eq!(table.entries.len(), 1);
    image[512 + 40] ^= 0xFF;
    let table = parse_gpt(&image).unwrap();
    assert!(!table.header_crc_valid);
}

#[test]
fn gpt_errors() {
    let mut image = gpt_image();
    assert_eq!(parse_gpt(&image[..1000]).unwrap_err(), DecodeError::Io);
    image[512] = b'X';
    assert_eq!(parse_gpt(&image).unwrap_err(), DecodeError::Signature);
    let mut image = gpt_image();
    image[512 + 84] = 64;
    assert_eq!(parse_gpt(&image).unwrap_err(), DecodeError::Integrity);
    let mut image = gpt_image();
    image[512 + 80] = 0xFF;
    assert_eq!(parse_gpt(&image).unwrap_err(), DecodeError::Io);
}

#[test]
fn gpt_entry_bytes_round_trip() {
    let image = gpt_image();
    let table = parse_gpt(&image).unwrap();
    assert_eq!(table.entries[0].to_bytes(), image[1024..1152].to_vec());
    assert_eq!(table.header.to_bytes(), image[512..604].to_vec());
    let empty = GptPartitionTableEntry::from_bytes(vec![0u8; 128]);
    assert!(empty.is_empty());
}

#[test]
fn gpt_entries_step_by_entry_size() {
    let mut image = gpt_image();
    // 256-byte entries: two slots per sector; add a second entry in slot 1
    image[512 + 84..512 + 88].copy_from_slice(&256u32.to_le_bytes());
    image[1024 + 256..1024 + 272].copy_from_slice(&[0x22; 16]);
    image[1024 + 256 + 32..1024 + 256 + 40].copy_from_slice(&5u64.to_le_bytes());
    let table = parse_gpt(&image).unwrap();
    assert_eq!(table.entries.len(), 2);
    assert_eq!(table.entries[1].starting_lba(), 5);
}

#[test]
fn gpt_entries_larger_than_a_sector() {
    let mut image = gpt_image();
    image[512 + 80..512 + 84].copy_from_slice(&2u32.to_le_bytes());
    image[512 + 84..512 + 88].copy_from_slice(&1024u32.to_le_bytes());
    image[1024 + 1024..1024 + 1040].copy_from_slice(&[0x33; 16]);
    image[1024 + 1024 + 32..1024 + 1024 + 40].copy_from_slice(&6u64.to_le_bytes());
    let table = parse_gpt(&image).unwrap();
    assert_eq!(table.entries.len(), 2);
    assert_eq!(table.entries[1].starting_lba(), 6);
}
