//! Apple Partition Map: the "ER" driver descriptor at LBA 0 and the "PM"
//! partition entries that follow it. All fields are big-endian.

use vstd::prelude::*;
use crate::bytestream::{
    be_u16_at, be_u32_at, be16, be32, slice_range, string_from_utf8, utf8_text, DecodeError, SECTOR_SIZE,
};

verus! {

/// Last LBA that may hold a partition map entry.
pub const APM_LAST_ENTRY_LBA: u64 = 62;

/// Whether the two bytes at `at` read "PM".
pub open spec fn has_pm_signature(b: Seq<u8>, at: int) -> bool {
    b[at] == 0x50 && b[at + 1] == 0x4D
}

/// One Apple partition map entry.
#[derive(Debug)]
pub struct ApmPartitionTable {
    pub signature: [u8; 2],
    pub number_of_partitions: u32,
    pub starting_lba: u32,
    pub size_in_sectors: u32,
    pub partition_name: String,
    pub partition_type: String,
    pub starting_lba_of_data: u32,
    pub size_in_sectors_of_data: u32,
    pub partition_status: u32,
    pub starting_lba_boot_code: u32,
    pub size_boot_code: u32,
    pub address_boot_loader: u32,
    pub boot_entry_point: u32,
    pub checksum: u32,
    pub processor_type: Vec<u8>,
}

/// `e` is the partition map entry stored at byte `at` of `b`.
pub open spec fn apm_entry_decoded_from(e: ApmPartitionTable, b: Seq<u8>, at: int) -> bool {
    &&& e.signature@ == b.subrange(at, at + 2)
    &&& e.number_of_partitions as int == be_u32_at(b, at + 4)
    &&& e.starting_lba as int == be_u32_at(b, at + 8)
    &&& e.size_in_sectors as int == be_u32_at(b, at + 12)
    &&& utf8_text(b.subrange(at + 16, at + 48)) == Some(e.partition_name@)
    &&& utf8_text(b.subrange(at + 48, at + 80)) == Some(e.partition_type@)
    &&& e.starting_lba_of_data as int == be_u32_at(b, at + 80)
    &&& e.size_in_sectors_of_data as int == be_u32_at(b, at + 84)
    &&& e.partition_status as int == be_u32_at(b, at + 88)
    &&& e.starting_lba_boot_code as int == be_u32_at(b, at + 92)
    &&& e.size_boot_code as int == be_u32_at(b, at + 96)
    &&& e.address_boot_loader as int == be_u32_at(b, at + 100)
    &&& e.boot_entry_point as int == be_u32_at(b, at + 108)
    &&& e.checksum as int == be_u32_at(b, at + 116)
    &&& e.processor_type@ == b.subrange(at + 120, at + 136)
}

/// Whether the names of the entry at `at` are valid UTF-8.
pub open spec fn apm_names_decode(b: Seq<u8>, at: int) -> bool {
    utf8_text(b.subrange(at + 16, at + 48)) is Some && utf8_text(b.subrange(at + 48, at + 80)) is Some
}

impl ApmPartitionTable {
    /// Decodes the entry stored at byte `at` of `b`; names that are not
    /// UTF-8 are an `Encoding` error.
    pub fn read(b: &[u8], at: usize) -> (r: Result<Self, DecodeError>)
        requires
            at + 136 <= b.len(),
        ensures
            match r {
                Ok(e) => apm_entry_decoded_from(e, b@, at as int),
                Err(e) => e == DecodeError::Encoding && !apm_names_decode(b@, at as int),
            },
    {
        let partition_name = match string_from_utf8(slice_range(b, at + 16, at + 48)) {
            Some(s) => s,
            None => return Err(DecodeError::Encoding),
        };
        let partition_type = match string_from_utf8(slice_range(b, at + 48, at + 80)) {
            Some(s) => s,
            None => return Err(DecodeError::Encoding),
        };
        let signature = [b[at], b[at + 1]];
        assert(signature@ =~= b@.subrange(at as int, at + 2));
        Ok(ApmPartitionTable {
            signature,
            number_of_partitions: be32(b, at + 4),
            starting_lba: be32(b, at + 8),
            size_in_sectors: be32(b, at + 12),
            partition_name,
            partition_type,
            starting_lba_of_data: be32(b, at + 80),
            size_in_sectors_of_data: be32(b, at + 84),
            partition_status: be32(b, at + 88),
            starting_lba_boot_code: be32(b, at + 92),
            size_boot_code: be32(b, at + 96),
            address_boot_loader: be32(b, at + 100),
            boot_entry_point: be32(b, at + 108),
            checksum: be32(b, at + 116),
            processor_type: slice_range(b, at + 120, at + 136),
        })
    }

    /// An entry is valid when its signature reads "PM".
    pub fn is_valid_apm_partition_table_entry(&self) -> (r: bool)
        ensures
            r == (self.signature@ == seq![0x50u8, 0x4D]),
    {
        let r = self.signature[0] == 0x50 && self.signature[1] == 0x4D;
        assert(r == (self.signature@ =~= seq![0x50u8, 0x4D]));
        r
    }
}

/// One driver entry of the driver descriptor map.
#[derive(Debug, Clone, Copy)]
pub struct DriverDescriptorEntry {
    pub start_lba: u32,
    pub size_in_sectors: u16,
    pub sys_type: u16,
}

/// The driver descriptor map at LBA 0 of an APM disk.
#[derive(Debug)]
pub struct DriverDescriptorMap {
    pub signature: [u8; 2],
    pub block_size: u16,
    pub block_count: u32,
    pub device_type: u16,
    pub device_id: u16,
    pub driver_data: u32,
    pub driver_descriptor_count: u16,
    pub driver_descriptor_map: Vec<DriverDescriptorEntry>,
}

/// Size in bytes of the driver descriptor map: an 18-byte head and eight
/// 8-byte driver entries.
pub const DRIVER_DESCRIPTOR_MAP_SIZE: usize = 82;

/// `m` is the driver descriptor map stored at byte `at` of `b`.
pub open spec fn ddm_decoded_from(m: DriverDescriptorMap, b: Seq<u8>, at: int) -> bool {
    &&& m.signature@ == b.subrange(at, at + 2)
    &&& m.block_size as int == be_u16_at(b, at + 2)
    &&& m.block_count as int == be_u32_at(b, at + 4)
    &&& m.device_type as int == be_u16_at(b, at + 8)
    &&& m.device_id as int == be_u16_at(b, at + 10)
    &&& m.driver_data as int == be_u32_at(b, at + 12)
    &&& m.driver_descriptor_count as int == be_u16_at(b, at + 16)
    &&& m.driver_descriptor_map@.len() == 8
    &&& forall|k: int|
        0 <= k < 8 ==> {
            let e = #[trigger] m.driver_descriptor_map@[k];
            &&& e.start_lba as int == be_u32_at(b, at + 18 + 8 * k)
            &&& e.size_in_sectors as int == be_u16_at(b, at + 22 + 8 * k)
            &&& e.sys_type as int == be_u16_at(b, at + 24 + 8 * k)
        }
}

impl DriverDescriptorMap {
    /// Decodes the driver descriptor map stored at byte `at` of `b`.
    pub fn read(b: &[u8], at: usize) -> (r: Self)
        requires
            at + 82 <= b.len(),
        ensures
            ddm_decoded_from(r, b@, at as int),
    {
        let mut entries: Vec<DriverDescriptorEntry> = Vec::with_capacity(8);
        let mut k: usize = 0;
        while k < 8
            invariant
                k <= 8,
                at + 82 <= b.len(),
                entries@.len() == k,
                forall|j: int|
                    0 <= j < k ==> {
                        let e = #[trigger] entries@[j];
                        &&& e.start_lba as int == be_u32_at(b@, at + 18 + 8 * j)
                        &&& e.size_in_sectors as int == be_u16_at(b@, at + 22 + 8 * j)
                        &&& e.sys_type as int == be_u16_at(b@, at + 24 + 8 * j)
                    },
            decreases 8 - k,
        {
            let base = at + 18 + 8 * k;
            entries.push(DriverDescriptorEntry {
                start_lba: be32(b, base),
                size_in_sectors: be16(b, base + 4),
                sys_type: be16(b, base + 6),
            });
            k = k + 1;
        }
        let signature = [b[at], b[at + 1]];
        assert(signature@ =~= b@.subrange(at as int, at + 2));
        DriverDescriptorMap {
            signature,
            block_size: be16(b, at + 2),
            block_count: be32(b, at + 4),
            device_type: be16(b, at + 8),
            device_id: be16(b, at + 10),
            driver_data: be32(b, at + 12),
            driver_descriptor_count: be16(b, at + 16),
            driver_descriptor_map: entries,
        }
    }

    /// Whether the signature reads "ER".
    pub fn is_apm_signature(&self) -> (r: bool)
        ensures
            r == (self.signature@[0] == 0x45 && self.signature@[1] == 0x52),
    {
        self.signature[0] == 0x45 && self.signature[1] == 0x52
    }
}

/// Whether the image's first sector carries the "ER" driver descriptor
/// signature. An image shorter than one sector is an `Io` error.
pub fn is_apm_disk(image: &[u8]) -> (r: Result<bool, DecodeError>)
    ensures
        match r {
            Ok(b) => image@.len() >= 512 && b == (image@[0] == 0x45 && image@[1] == 0x52),
            Err(e) => e == DecodeError::Io && image@.len() < 512,
        },
{
    if image.len() < SECTOR_SIZE {
        return Err(DecodeError::Io);
    }
    let map = DriverDescriptorMap::read(image, 0);
    Ok(map.is_apm_signature())
}

/// How the partition map walk from LBA `lba` ends: `None` when it reaches
/// a sector not signed "PM" or passes LBA 62; `Io` when the image ends
/// first; `Encoding` at a "PM" entry whose names are not UTF-8.
pub open spec fn apm_outcome(img: Seq<u8>, lba: int) -> Option<DecodeError>
    decreases 63 - lba,
{
    if lba > 62 || lba < 1 {
        None
    } else if (lba + 1) * 512 > img.len() {
        Some(DecodeError::Io)
    } else if !has_pm_signature(img, lba * 512) {
        None
    } else if !apm_names_decode(img, lba * 512) {
        Some(DecodeError::Encoding)
    } else {
        apm_outcome(img, lba + 1)
    }
}

/// Number of consecutive "PM" entries from LBA `lba` up to LBA 62.
pub open spec fn apm_count(img: Seq<u8>, lba: int) -> nat
    decreases 63 - lba,
{
    if lba > 62 || lba < 1 || (lba + 1) * 512 > img.len() || !has_pm_signature(img, lba * 512) {
        0
    } else {
        1 + apm_count(img, lba + 1)
    }
}

/// The partition map walk reads no sector past LBA 62: two images at least
/// 63 sectors long that agree on their first 63 sectors end the walk alike
/// and keep as many entries.
pub proof fn lemma_apm_reads_to_lba_62(i1: Seq<u8>, i2: Seq<u8>, lba: int)
    requires
        i1.len() >= 63 * 512,
        i2.len() >= 63 * 512,
        forall|p: int| 0 <= p < 63 * 512 ==> i1[p] == i2[p],
    ensures
        apm_outcome(i1, lba) == apm_outcome(i2, lba),
        apm_count(i1, lba) == apm_count(i2, lba),
    decreases 63 - lba,
{
    if 1 <= lba <= 62 {
        let at = lba * 512;
        assert(i1.subrange(at + 16, at + 48) =~= i2.subrange(at + 16, at + 48));
        assert(i1.subrange(at + 48, at + 80) =~= i2.subrange(at + 48, at + 80));
        assert(i1[at] == i2[at] && i1[at + 1] == i2[at + 1]);
        lemma_apm_reads_to_lba_62(i1, i2, lba + 1);
    }
}

/// Sector `i` is in the image, signed "PM", with names that decode.
pub open spec fn apm_sector_ok(img: Seq<u8>, i: int) -> bool {
    (i + 1) * 512 <= img.len() && has_pm_signature(img, i * 512) && apm_names_decode(img, i * 512)
}

/// APM termination: when sector `k` (at most 63) is the first sector from
/// LBA 1 not signed "PM", every sector before it is in the image with names
/// that decode, and sector `k` is in the image too (unless `k` is 63), the
/// walk from `lba` succeeds and keeps exactly the entries of LBA `lba` to
/// `k - 1`.
pub proof fn lemma_apm_stops_at_first_non_pm(img: Seq<u8>, k: int, lba: int)
    requires
        1 <= lba <= k <= 63,
        k <= 62 ==> (k + 1) * 512 <= img.len() && !has_pm_signature(img, k * 512),
        forall|i: int| 1 <= i < k ==> #[trigger] apm_sector_ok(img, i),
    ensures
        apm_outcome(img, lba) is None,
        apm_count(img, lba) == k - lba,
    decreases 63 - lba,
{
    if lba < k {
        assert(apm_sector_ok(img, lba));
        lemma_apm_stops_at_first_non_pm(img, k, lba + 1);
    }
}

/// Reads the partition map entries at LBA 1, 2, ... up to the first one
/// whose signature is not "PM", reading no sector past LBA 62.
pub fn parse_apm(image: &[u8]) -> (r: Result<Vec<ApmPartitionTable>, DecodeError>)
    ensures
        match r {
            Ok(v) => {
                &&& apm_outcome(image@, 1) is None
                &&& v@.len() == apm_count(image@, 1)
                &&& v@.len() <= 62
                &&& forall|j: int|
                    0 <= j < v@.len() ==> {
                        &&& apm_entry_decoded_from(#[trigger] v@[j], image@, (j + 1) * 512)
                        &&& v@[j].signature@ == seq![0x50u8, 0x4D]
                    }
            },
            Err(e) => apm_outcome(image@, 1) == Some(e),
        },
{
    let len = image.len();
    let mut partition_tables: Vec<ApmPartitionTable> = Vec::new();
    let mut lba: usize = 1;
    while lba <= APM_LAST_ENTRY_LBA as usize
        invariant
            1 <= lba <= 63,
            len == image@.len(),
            partition_tables@.len() == lba - 1,
            apm_outcome(image@, 1) == apm_outcome(image@, lba as int),
            apm_count(image@, 1) == (lba - 1) + apm_count(image@, lba as int),
            forall|j: int|
                0 <= j < partition_tables@.len() ==> {
                    &&& apm_entry_decoded_from(#[trigger] partition_tables@[j], image@, (j + 1) * 512)
                    &&& partition_tables@[j].signature@ == seq![0x50u8, 0x4D]
                },
        decreases 63 - lba,
    {
        proof {
            vstd::arithmetic::div_mod::lemma_fundamental_div_mod(len as int, 512);
        }
        if len / SECTOR_SIZE <= lba {
            assert((lba + 1) * 512 > len) by (nonlinear_arith)
                requires
                    len / 512 <= lba,
                    len == 512 * (len / 512) + len % 512,
                    len % 512 < 512,
            ;
            return Err(DecodeError::Io);
        }
        let at = lba * SECTOR_SIZE;
        assert((lba + 1) * 512 <= len) by (nonlinear_arith)
            requires
                len / 512 > lba,
                len == 512 * (len / 512) + len % 512,
                len % 512 >= 0,
        ;
        assert(at as int == (partition_tables@.len() + 1) as int * 512);
        if !(image[at] == 0x50 && image[at + 1] == 0x4D) {
            assert(!has_pm_signature(image@, at as int));
            return Ok(partition_tables);
        }
        assert(has_pm_signature(image@, at as int));
        let entry = match ApmPartitionTable::read(image, at) {
            Ok(e) => e,
            Err(e) => return Err(e),
        };
        let ghost prev = partition_tables@;
        partition_tables.push(entry);
        assert forall|j: int| 0 <= j < partition_tables@.len() implies {
            &&& apm_entry_decoded_from(#[trigger] partition_tables@[j], image@, (j + 1) * 512)
            &&& partition_tables@[j].signature@ == seq![0x50u8, 0x4D]
        } by {
            if j < prev.len() {
                assert(partition_tables@[j] == prev[j]);
            } else {
                assert(j + 1 == lba);
                assert((j + 1) * 512 == at);
                assert(partition_tables@[j].signature@ =~= seq![0x50u8, 0x4D]);
            }
        }
        lba = lba + 1;
    }
    Ok(partition_tables)
}

} // verus!
