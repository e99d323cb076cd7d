use disk_forensics::apm::{is_apm_disk, parse_apm, DriverDescriptorMap};
use disk_forensics::bytestream::DecodeError;
use disk_forensics::scheme::{detect_scheme, find_ntfs_partition, PartitionScheme};

fn apm_entry(image: &mut [u8], lba: usize, name: &str, kind: &str, start: u32, size: u32) {
    let at = lba * 512;
    image[at] = b'P';
    image[at + 1] = b'M';
    image[at + 4..at + 8].copy_from_slice(&3u32.to_be_bytes());
    image[at + 8..at + 12].copy_from_slice(&start.to_be_bytes());
    image[at + 12..at + 16].copy_from_slice(&size.to_be_bytes());
    image[at + 16..at + 16 + name.len()].copy_from_slice(name.as_bytes());
    image[at + 48..at + 48 + kind.len()].copy_from_slice(kind.as_bytes());
}

#[test]
fn apm_detect() {
    let mut image = vec![0u8; 512];
    image[0] = b'E';
    image[1] = b'R';
    assert!(is_apm_disk(&image).unwrap());
    image[0] = b'M';
    image[1] = b'B';
    assert!(!is_apm_disk(&image).unwrap());
    assert_eq!(is_apm_disk(&image[..10]).unwrap_err(), DecodeError::Io);
}

#[test]
fn apm_entries_stop_at_first_non_pm() {
    let mut image = vec![0u8; 512 * 8];
    image[0] = b'E';
    image[1] = b'R';
    apm_entry(&mut image, 1, "Apple", "Apple_partition_map", 1, 63);
    apm_entry(&mut image, 2, "disk", "Apple_HFS", 64, 1000);
    apm_entry(&mut image, 4, "late", "Apple_Free", 2000, 10);
    let entries = parse_apm(&image).unwrap();
    assert_eq!(entries.len(), 2);
    assert!(entries[0].is_valid_apm_partition_table_entry());
    assert_eq!(entries[1].starting_lba, 64);
    assert_eq!(entries[1].size_in_sectors, 1000);
    assert!(entries[1].partition_name.starts_with("disk"));
    assert!(entries[1].partition_type.starts_with("Apple_HFS"));
    assert_eq!(detect_scheme(&image).unwrap(), PartitionScheme::Apm);
    assert_eq!(find_ntfs_partition(&image).unwrap_err(), DecodeError::Unsupported);
}

#[test]
fn apm_never_reads_past_lba_62() {
    let mut image = vec![0u8; 512 * 70];
    for lba in 1..70 {
        apm_entry(&mut image, lba, "p", "t", lba as u32, 1);
    }
    assert_eq!(parse_apm(&image).unwrap().len(), 62);
    assert_eq!(parse_apm(&image[..512 * 10]).unwrap_err(), DecodeError::Io);
}

#[test]
fn apm_name_encoding_error() {
    let mut image = vec![0u8; 512 * 4];
    apm_entry(&mut image, 1, "x", "y", 1, 1);
    image[512 + 16] = 0xFF;
    assert_eq!(parse_apm(&image).unwrap_err(), DecodeError::Encoding);
}

#[test]
fn driver_descriptor_map_fields() {
    let mut image = vec![0u8; 512];
    image[0] = b'E';
    image[1] = b'R';
    image[2..4].copy_from_slice(&512u16.to_be_bytes());
    image[4..8].copy_from_slice(&4096u32.to_be_bytes());
    image[16..18].copy_from_slice(&1u16.to_be_bytes());
    image[18..22].copy_from_slice(&64u32.to_be_bytes());
    image[22..24].copy_from_slice(&32u16.to_be_bytes());
    image[24..26].copy_from_slice(&0x0701u16.to_be_bytes());
    let map = DriverDescriptorMap::read(&image, 0);
    assert!(map.is_apm_signature());
    assert_eq!(map.block_size, 512);
    assert_eq!(map.block_count, 4096);
    assert_eq!(map.driver_descriptor_count, 1);
    assert_eq!(map.driver_descriptor_map.len(), 8);
    assert_eq!(map.driver_descriptor_map[0].start_lba, 64);
    assert_eq!(map.driver_descriptor_map[0].size_in_sectors, 32);
    assert_eq!(map.driver_descriptor_map[0].sys_type, 0x0701);
}
