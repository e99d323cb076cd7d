use disk_forensics::bytestream::DecodeError;
use disk_forensics::mbr::{lookup_partition_type, parse_mbr, parse_sector, MbrPartitionTableEntry};
use disk_forensics::scheme::{detect_scheme, find_ntfs_partition, PartitionScheme};

fn entry(bootable: u8, ptype: u8, start: u32, count: u32) -> [u8; 16] {
    let mut e = [0u8; 16];
    e[0] = bootable;
    e[1..4].copy_from_slice(&[0x01, 0xC2, 0x03]);
    e[4] = ptype;
    e[5..8].copy_from_slice(&[0xFE, 0xFF, 0xFF]);
    e[8..12].copy_from_slice(&start.to_le_bytes());
    e[12..16].copy_from_slice(&count.to_le_bytes());
    e
}

fn put_entry(image: &mut [u8], lba: usize, k: usize, e: [u8; 16]) {
    let at = lba * 512 + 446 + 16 * k;
    image[at..at + 16].copy_from_slice(&e);
}

#[test]
fn chs_decode() {
    assert_eq!(MbrPartitionTableEntry::chs_head([0x01, 0xC2, 0x03]), 1);
    assert_eq!(MbrPartitionTableEntry::chs_sector([0x01, 0xC2, 0x03]), 2);
    assert_eq!(MbrPartitionTableEntry::chs_cylinder([0x01, 0xC2, 0x03]), 771);
    let e = MbrPartitionTableEntry::read(&entry(0x80, 0x07, 2048, 100), 0);
    assert_eq!(e.parse_starting_chs(), (771, 1, 2));
    assert_eq!(e.parse_ending_chs(), (1023, 254, 63));
}

#[test]
fn mbr_entry_round_trip() {
    let raw = entry(0x80, 0x07, 2048, 409600);
    let e = MbrPartitionTableEntry::read(&raw, 0);
    assert_eq!(e.starting_lba(), 2048);
    assert_eq!(e.num_sectors(), 409600);
    assert_eq!(e.to_bytes(), raw);
    assert!(!e.is_empty());
    assert!(MbrPartitionTableEntry::read(&[0u8; 16], 0).is_empty());
}

#[test]
fn mbr_with_ebr_chain() {
    let mut image = vec![0u8; 512 * 64];
    put_entry(&mut image, 0, 0, entry(0x80, 0x07, 1, 9));
    put_entry(&mut image, 0, 1, entry(0x00, 0x05, 10, 40));
    // first EBR at LBA 10: a data entry and a link to the next EBR (relative to 10)
    put_entry(&mut image, 10, 0, entry(0x00, 0x83, 1, 5));
    put_entry(&mut image, 10, 1, entry(0x00, 0x05, 10, 20));
    // second EBR at LBA 20: one data entry
    put_entry(&mut image, 20, 0, entry(0x00, 0x83, 1, 5));
    let root = parse_mbr(&image).unwrap();
    let children = root.children.as_ref().unwrap();
    assert_eq!(children.len(), 2);
    assert_eq!(children[0].starting_lba(), 1);
    assert!(children[1].is_extended_partition());
    let ebr1 = children[1].children.as_ref().unwrap();
    assert_eq!(ebr1.len(), 2);
    assert_eq!(ebr1[0].image_offset_sectors, 10);
    assert_eq!(ebr1[1].image_offset_sectors, 10);
    let ebr2 = ebr1[1].children.as_ref().unwrap();
    assert_eq!(ebr2.len(), 1);
    assert_eq!(ebr2[0].image_offset_sectors, 20);
    assert!(!root.is_gpt());
    assert_eq!(detect_scheme(&image).unwrap(), PartitionScheme::Mbr);
    assert_eq!(find_ntfs_partition(&image).unwrap(), 1);
}

#[test]
fn mbr_stops_at_invalid_bootable_and_follows_every_extended() {
    let mut image = vec![0u8; 512 * 16];
    put_entry(&mut image, 0, 0, entry(0x80, 0x07, 1, 2));
    put_entry(&mut image, 0, 1, entry(0x7F, 0x07, 3, 2));
    put_entry(&mut image, 0, 2, entry(0x00, 0x07, 5, 2));
    let root = parse_mbr(&image).unwrap();
    assert_eq!(root.children.as_ref().unwrap().len(), 1);

    let mut image = vec![0u8; 512 * 16];
    put_entry(&mut image, 0, 0, entry(0x00, 0x05, 4, 2));
    put_entry(&mut image, 0, 1, entry(0x00, 0x0F, 8, 2));
    put_entry(&mut image, 8, 0, entry(0x00, 0x83, 1, 1));
    let root = parse_mbr(&image).unwrap();
    let children = root.children.as_ref().unwrap();
    assert_eq!(children.len(), 2);
    assert!(children[0].children.is_none() || children[0].children.as_ref().unwrap().is_empty());
    assert_eq!(children[1].children.as_ref().unwrap().len(), 1);
    assert_eq!(children[1].children.as_ref().unwrap()[0].image_offset_sectors, 8);
}

#[test]
fn parse_sector_appends_to_existing_children() {
    let mut image = vec![0u8; 512 * 4];
    put_entry(&mut image, 0, 0, entry(0x00, 0x83, 1, 1));
    put_entry(&mut image, 0, 1, entry(0x00, 0x83, 2, 1));
    let mut root = parse_mbr(&image).unwrap();
    parse_sector(&mut root, &image, true, 0, 0, 8).unwrap();
    let children = root.children.as_ref().unwrap();
    assert_eq!(children.len(), 4);
    assert_eq!(children[2].starting_lba(), 1);
    assert_eq!(children[3].starting_lba(), 2);
}

#[test]
fn mbr_ebr_loop_is_integrity_error() {
    let mut image = vec![0u8; 512 * 16];
    put_entry(&mut image, 0, 0, entry(0x00, 0x05, 4, 8));
    // the EBR at 4 links back to itself
    put_entry(&mut image, 4, 0, entry(0x00, 0x83, 1, 1));
    put_entry(&mut image, 4, 1, entry(0x00, 0x05, 0, 8));
    assert_eq!(parse_mbr(&image).unwrap_err(), DecodeError::Integrity);
    assert_eq!(parse_mbr(&image[..100]).unwrap_err(), DecodeError::Io);
}

#[test]
fn mbr_gpt_dispatch() {
    let mut image = vec![0u8; 512 * 4];
    put_entry(&mut image, 0, 0, entry(0x00, 0xEE, 1, 3));
    let root = parse_mbr(&image).unwrap();
    assert!(root.is_gpt());
    assert_eq!(detect_scheme(&image).unwrap(), PartitionScheme::Gpt);
}

#[test]
fn mbr_type_names() {
    assert_eq!(lookup_partition_type(0x07), "HPFS/NTFS/exFAT");
    assert_eq!(lookup_partition_type(0xee), "GPT");
    assert_eq!(lookup_partition_type(0x13), "Unknown Partition Type");
}

#[test]
fn protective_entry_spanning_disk_selects_gpt() {
    let mut image = vec![0u8; 512 * 16];
    image[510] = 0x55;
    image[511] = 0xAA;
    let sectors = (image.len() / 512 - 1) as u32;
    put_entry(&mut image, 0, 0, entry(0x00, 0xEE, 1, sectors));
    let root = parse_mbr(&image).unwrap();
    assert!(root.is_gpt());
    assert_eq!(detect_scheme(&image).unwrap(), PartitionScheme::Gpt);
}
