//! NTFS: the partition boot record, the master file table's records and
//! their attributes ($STANDARD_INFORMATION, $FILE_NAME, $DATA), and the
//! in-place rewriting of a record's timestamps.

use vstd::prelude::*;
use crate::bytestream::{
    le_u16_at, le_u32_at, le_u64_at, le_uint, pow256, lemma_le_uint_bounds, lemma_pow256_le,
    le_uint_of, u64_to_le_bytes, ByteStream, DecodeError, SECTOR_SIZE, utf16_units, utf16_decodes_to,
    utf16_valid, interpret_bytes_as_utf16, in_image, le_bytes_of, lemma_le_bytes_of_uint,
    lemma_le_fixed_is_uint, utf8_text,
};

verus! {

/// 100-nanosecond intervals between 1601-01-01 and 1970-01-01 (UTC).
pub const OLE2_UNIX_EPOCH_DIFF: u64 = 116_444_736_000_000_000;

/// 100-nanosecond intervals in one second.
pub const OLE2_TICKS_PER_SECOND: u64 = 10_000_000;

/// Largest Unix time whose OLE2 timestamp fits in 64 bits.
pub const MAX_OLE2_UNIX_SECONDS: u64 = 1_833_029_933_770;

/// The OLE2 (FILETIME) timestamp of Unix time `t`.
pub open spec fn unix_to_ole2(t: int) -> int {
    t * 10_000_000 + 116_444_736_000_000_000
}

/// The Unix time, in whole seconds truncated toward zero, of the OLE2
/// timestamp `ft`.
pub open spec fn ole2_to_unix(ft: int) -> int {
    if ft >= 116_444_736_000_000_000 {
        (ft - 116_444_736_000_000_000) / 10_000_000
    } else {
        -((116_444_736_000_000_000 - ft) / 10_000_000)
    }
}

/// OLE2 round trip: the Unix time of the OLE2 timestamp of a Unix time `t`
/// is `t` again.
pub proof fn lemma_ole2_round_trip(t: int)
    requires
        t >= 0,
    ensures
        ole2_to_unix(unix_to_ole2(t)) == t,
{
    assert((t * 10_000_000) / 10_000_000 == t) by (nonlinear_arith);
}

/// An NTFS timestamp: a count of 100-nanosecond intervals since 1601-01-01.
#[derive(Debug, Clone, Copy, PartialEq, Eq, Structural)]
pub struct NtfsDatetime {
    pub ole2: u64,
}

impl NtfsDatetime {
    /// The timestamp of Unix time `unix_epoch`.
    pub fn from_unix(unix_epoch: u64) -> (r: Self)
        requires
            unix_epoch <= MAX_OLE2_UNIX_SECONDS,
        ensures
            r.ole2 as int == unix_to_ole2(unix_epoch as int),
    {
        NtfsDatetime { ole2: unix_epoch * OLE2_TICKS_PER_SECOND + OLE2_UNIX_EPOCH_DIFF }
    }

    /// The timestamp of Unix time `unix_epoch`, when it has one.
    pub fn checked_from_unix(unix_epoch: u64) -> (r: Option<Self>)
        ensures
            match r {
                Some(d) => unix_epoch <= MAX_OLE2_UNIX_SECONDS && d.ole2 as int == unix_to_ole2(unix_epoch as int),
                None => unix_epoch > MAX_OLE2_UNIX_SECONDS,
            },
    {
        if unix_epoch > MAX_OLE2_UNIX_SECONDS {
            None
        } else {
            Some(Self::from_unix(unix_epoch))
        }
    }

    pub fn ole2(&self) -> (r: u64)
        ensures
            r == self.ole2,
    {
        self.ole2
    }

    /// The eight little-endian bytes of the timestamp.
    pub fn ole2_le_bytes(&self) -> (r: [u8; 8])
        ensures
            r@.len() == 8,
            le_u64_at(r@, 0) == self.ole2 as int,
    {
        u64_to_le_bytes(self.ole2)
    }

    /// Unix time in whole seconds, truncated toward zero.
    pub fn unix_timestamp(&self) -> (r: i64)
        ensures
            r as int == ole2_to_unix(self.ole2 as int),
    {
        if self.ole2 >= OLE2_UNIX_EPOCH_DIFF {
            ((self.ole2 - OLE2_UNIX_EPOCH_DIFF) / OLE2_TICKS_PER_SECOND) as i64
        } else {
            -(((OLE2_UNIX_EPOCH_DIFF - self.ole2) / OLE2_TICKS_PER_SECOND) as i64)
        }
    }
}

/// `le_uint(b, i, n)` read as an `n`-byte two's-complement number.
pub open spec fn le_signed(b: Seq<u8>, i: int, n: nat) -> int {
    if n > 0 && le_uint(b, i, n) * 2 >= pow256(n) {
        le_uint(b, i, n) - pow256(n)
    } else {
        le_uint(b, i, n)
    }
}

/// The first fragment of a data run list: how many clusters, and where they
/// start relative to the previous fragment.
#[derive(Debug, Clone, Copy, PartialEq, Eq, Structural)]
pub struct DataRun {
    pub length: u64,
    pub offset: i64,
}

/// Size field widths of the data run whose header byte is `h`: the low
/// nibble gives the length's width, the high nibble the offset's.
pub open spec fn run_length_width(h: u8) -> nat {
    (h % 16) as nat
}

pub open spec fn run_offset_width(h: u8) -> nat {
    (h / 16) as nat
}

impl DataRun {
    /// Decodes the first data run at byte `at` of `b`, reading no byte at or
    /// past `end`. Fields wider than eight bytes are an `Integrity` error.
    pub fn decode(b: &[u8], at: usize, end: usize) -> (r: Result<DataRun, DecodeError>)
        requires
            end <= b.len(),
        ensures
            ({
                let h = b@[at as int];
                let lw = run_length_width(h);
                let ow = run_offset_width(h);
                match r {
                    Ok(d) => {
                        &&& at + 1 + lw + ow <= end
                        &&& lw <= 8 && ow <= 8
                        &&& d.length as int == le_uint(b@, at + 1, lw)
                        &&& d.offset as int == le_signed(b@, at + 1 + lw, ow)
                    },
                    Err(e) => {
                        ||| e == DecodeError::Io && at + 1 > end
                        ||| e == DecodeError::Integrity && at + 1 <= end && (lw > 8 || ow > 8)
                        ||| e == DecodeError::Io && at + 1 <= end && lw <= 8 && ow <= 8 && at + 1 + lw + ow > end
                    },
                }
            }),
    {
        if at >= end {
            return Err(DecodeError::Io);
        }
        let h = b[at];
        let low = (h % 16) as usize;
        let high = (h / 16) as usize;
        if low > 8 || high > 8 {
            return Err(DecodeError::Integrity);
        }
        if 1 + low + high > end - at {
            return Err(DecodeError::Io);
        }
        let length = le_uint_of(b, at + 1, low);
        let raw = le_uint_of(b, at + 1 + low, high);
        proof {
            lemma_le_uint_bounds(b@, at + 1 + low, high as nat);
            lemma_pow256_le(high as nat);
        }
        let mut pow: u128 = 1;
        let mut k: usize = 0;
        while k < high
            invariant
                k <= high <= 8,
                pow as int == pow256(k as nat),
            decreases high - k,
        {
            proof {
                lemma_pow256_le(k as nat);
                lemma_pow256_le((k + 1) as nat);
            }
            pow = pow * 256;
            k = k + 1;
        }
        let offset: i64 = if high > 0 && (raw as u128) * 2 >= pow {
            (raw as i128 - pow as i128) as i64
        } else {
            raw as i64
        };
        Ok(DataRun { length, offset })
    }
}

/// The header of an MFT file record.
#[derive(Debug, Clone, Copy)]
pub struct MftFileDescriptor {
    pub signature: [u8; 4],
    pub offset_of_update_seq: u16,
    pub size_of_update_seq: u16,
    pub log_file_seq_nr: u64,
    pub use_count: u8,
    pub deletion_count: u8,
    pub hard_link_count: u16,
    pub offset_first_attribute: u16,
    pub flags: u16,
    pub file_size_on_disk: u32,
    pub space_allocated: u32,
    pub base_register: u64,
    pub next_attribute_id: u16,
    pub update_sequence_number: u16,
    pub update_sequence: u32,
}

/// Size in bytes of an MFT record header.
pub const MFT_HEADER_SIZE: usize = 48;

/// `d` is the record header stored at byte `at` of `b`.
pub open spec fn descriptor_decoded_from(d: MftFileDescriptor, b: Seq<u8>, at: int) -> bool {
    &&& d.signature@ == b.subrange(at, at + 4)
    &&& d.offset_of_update_seq as int == le_u16_at(b, at + 4)
    &&& d.size_of_update_seq as int == le_u16_at(b, at + 6)
    &&& d.log_file_seq_nr as int == le_u64_at(b, at + 8)
    &&& d.use_count == b[at + 16]
    &&& d.deletion_count == b[at + 17]
    &&& d.hard_link_count as int == le_u16_at(b, at + 18)
    &&& d.offset_first_attribute as int == le_u16_at(b, at + 20)
    &&& d.flags as int == le_u16_at(b, at + 22)
    &&& d.file_size_on_disk as int == le_u32_at(b, at + 24)
    &&& d.space_allocated as int == le_u32_at(b, at + 28)
    &&& d.base_register as int == le_u64_at(b, at + 32)
    &&& d.next_attribute_id as int == le_u16_at(b, at + 40)
    &&& d.update_sequence_number as int == le_u16_at(b, at + 42)
    &&& d.update_sequence as int == le_u32_at(b, at + 44)
}

impl MftFileDescriptor {
    /// Decodes the record header stored at byte `at` of `b`.
    pub fn read(b: &[u8], at: usize) -> (r: Self)
        requires
            at + 48 <= b.len(),
        ensures
            descriptor_decoded_from(r, b@, at as int),
    {
        let signature = [b[at], b[at + 1], b[at + 2], b[at + 3]];
        assert(signature@ =~= b@.subrange(at as int, at + 4));
        MftFileDescriptor {
            signature,
            offset_of_update_seq: crate::bytestream::le16(b, at + 4),
            size_of_update_seq: crate::bytestream::le16(b, at + 6),
            log_file_seq_nr: crate::bytestream::le64(b, at + 8),
            use_count: b[at + 16],
            deletion_count: b[at + 17],
            hard_link_count: crate::bytestream::le16(b, at + 18),
            offset_first_attribute: crate::bytestream::le16(b, at + 20),
            flags: crate::bytestream::le16(b, at + 22),
            file_size_on_disk: crate::bytestream::le32(b, at + 24),
            space_allocated: crate::bytestream::le32(b, at + 28),
            base_register: crate::bytestream::le64(b, at + 32),
            next_attribute_id: crate::bytestream::le16(b, at + 40),
            update_sequence_number: crate::bytestream::le16(b, at + 42),
            update_sequence: crate::bytestream::le32(b, at + 44),
        }
    }
}

/// The 48 on-disk bytes of a record header.
pub open spec fn descriptor_layout(d: MftFileDescriptor) -> Seq<u8> {
    d.signature@ + le_bytes_of(d.offset_of_update_seq as int, 2) + le_bytes_of(d.size_of_update_seq as int, 2)
        + le_bytes_of(d.log_file_seq_nr as int, 8) + seq![d.use_count, d.deletion_count] + le_bytes_of(
        d.hard_link_count as int,
        2,
    ) + le_bytes_of(d.offset_first_attribute as int, 2) + le_bytes_of(d.flags as int, 2) + le_bytes_of(
        d.file_size_on_disk as int,
        4,
    ) + le_bytes_of(d.space_allocated as int, 4) + le_bytes_of(d.base_register as int, 8) + le_bytes_of(
        d.next_attribute_id as int,
        2,
    ) + le_bytes_of(d.update_sequence_number as int, 2) + le_bytes_of(d.update_sequence as int, 4)
}

/// Re-serialising a decoded record header gives back the 48 bytes it was
/// read from.
pub proof fn lemma_descriptor_round_trip(d: MftFileDescriptor, b: Seq<u8>, at: int)
    requires
        0 <= at && at + 48 <= b.len(),
        descriptor_decoded_from(d, b, at),
    ensures
        descriptor_layout(d) == b.subrange(at, at + 48),
{
    assert(le_bytes_of(d.offset_of_update_seq as int, 2) == b.subrange(at + 4, at + 6)) by {
        lemma_le_fixed_is_uint(b, at + 4);
        lemma_le_bytes_of_uint(b, at + 4, 2);
    }
    assert(le_bytes_of(d.size_of_update_seq as int, 2) == b.subrange(at + 6, at + 8)) by {
        lemma_le_fixed_is_uint(b, at + 6);
        lemma_le_bytes_of_uint(b, at + 6, 2);
    }
    assert(le_bytes_of(d.log_file_seq_nr as int, 8) == b.subrange(at + 8, at + 16)) by {
        lemma_le_fixed_is_uint(b, at + 8);
        lemma_le_bytes_of_uint(b, at + 8, 8);
    }
    assert(le_bytes_of(d.hard_link_count as int, 2) == b.subrange(at + 18, at + 20)) by {
        lemma_le_fixed_is_uint(b, at + 18);
        lemma_le_bytes_of_uint(b, at + 18, 2);
    }
    assert(le_bytes_of(d.offset_first_attribute as int, 2) == b.subrange(at + 20, at + 22)) by {
        lemma_le_fixed_is_uint(b, at + 20);
        lemma_le_bytes_of_uint(b, at + 20, 2);
    }
    assert(le_bytes_of(d.flags as int, 2) == b.subrange(at + 22, at + 24)) by {
        lemma_le_fixed_is_uint(b, at + 22);
        lemma_le_bytes_of_uint(b, at + 22, 2);
    }
    assert(le_bytes_of(d.file_size_on_disk as int, 4) == b.subrange(at + 24, at + 28)) by {
        lemma_le_fixed_is_uint(b, at + 24);
        lemma_le_bytes_of_uint(b, at + 24, 4);
    }
    assert(le_bytes_of(d.space_allocated as int, 4) == b.subrange(at + 28, at + 32)) by {
        lemma_le_fixed_is_uint(b, at + 28);
        lemma_le_bytes_of_uint(b, at + 28, 4);
    }
    assert(le_bytes_of(d.base_register as int, 8) == b.subrange(at + 32, at + 40)) by {
        lemma_le_fixed_is_uint(b, at + 32);
        lemma_le_bytes_of_uint(b, at + 32, 8);
    }
    assert(le_bytes_of(d.next_attribute_id as int, 2) == b.subrange(at + 40, at + 42)) by {
        lemma_le_fixed_is_uint(b, at + 40);
        lemma_le_bytes_of_uint(b, at + 40, 2);
    }
    assert(le_bytes_of(d.update_sequence_number as int, 2) == b.subrange(at + 42, at + 44)) by {
        lemma_le_fixed_is_uint(b, at + 42);
        lemma_le_bytes_of_uint(b, at + 42, 2);
    }
    assert(le_bytes_of(d.update_sequence as int, 4) == b.subrange(at + 44, at + 48)) by {
        lemma_le_fixed_is_uint(b, at + 44);
        lemma_le_bytes_of_uint(b, at + 44, 4);
    }
    assert(seq![d.use_count, d.deletion_count] =~= b.subrange(at + 16, at + 18));
    assert(descriptor_layout(d) =~= b.subrange(at, at + 48));
}

/// The fields every attribute header starts with.
#[derive(Debug, Clone, Copy)]
pub struct CommonAttributeHeader {
    pub attribute_type: u32,
    pub length: u32,
    pub non_resident_flag: u8,
    pub name_length: u8,
    pub name_offset: u16,
    pub flags: u16,
    pub attribute_id: u16,
}

/// The tail of a resident attribute's header.
#[derive(Debug, Clone, Copy)]
pub struct ResidentAttributeHeader {
    pub attribute_length: u32,
    pub attribute_offset: u16,
    pub indexed_flag: u8,
}

/// The tail of a non-resident attribute's header.
#[derive(Debug, Clone, Copy)]
pub struct NonResidentAttributeHeader {
    pub starting_vcn: u64,
    pub ending_vcn: u64,
    pub data_runs_offset: u16,
    pub compression_unit_size: u16,
    pub file_allocation_size: u64,
    pub file_real_size: u64,
    pub initialized_data_size: u64,
}

/// An attribute header: resident or not, named or not.
#[derive(Debug)]
pub enum AttributeHeader {
    ResidentNoName { common_header: CommonAttributeHeader, resident_header: ResidentAttributeHeader },
    ResidentNamed {
        common_header: CommonAttributeHeader,
        resident_header: ResidentAttributeHeader,
        attribute_name: String,
    },
    NonResidentNoName {
        common_header: CommonAttributeHeader,
        non_resident_header: NonResidentAttributeHeader,
    },
    NonResidentNamed {
        common_header: CommonAttributeHeader,
        non_resident_header: NonResidentAttributeHeader,
        attribute_name: String,
    },
}

pub open spec fn common_decoded_from(c: CommonAttributeHeader, b: Seq<u8>, at: int) -> bool {
    &&& c.attribute_type as int == le_u32_at(b, at)
    &&& c.length as int == le_u32_at(b, at + 4)
    &&& c.non_resident_flag == b[at + 8]
    &&& c.name_length == b[at + 9]
    &&& c.name_offset as int == le_u16_at(b, at + 10)
    &&& c.flags as int == le_u16_at(b, at + 12)
    &&& c.attribute_id as int == le_u16_at(b, at + 14)
}

pub open spec fn resident_decoded_from(t: ResidentAttributeHeader, b: Seq<u8>, at: int) -> bool {
    &&& t.attribute_length as int == le_u32_at(b, at + 16)
    &&& t.attribute_offset as int == le_u16_at(b, at + 20)
    &&& t.indexed_flag == b[at + 22]
}

pub open spec fn non_resident_decoded_from(t: NonResidentAttributeHeader, b: Seq<u8>, at: int) -> bool {
    &&& t.starting_vcn as int == le_u64_at(b, at + 16)
    &&& t.ending_vcn as int == le_u64_at(b, at + 24)
    &&& t.data_runs_offset as int == le_u16_at(b, at + 32)
    &&& t.compression_unit_size as int == le_u16_at(b, at + 34)
    &&& t.file_allocation_size as int == le_u64_at(b, at + 40)
    &&& t.file_real_size as int == le_u64_at(b, at + 48)
    &&& t.initialized_data_size as int == le_u64_at(b, at + 56)
}

/// Length of the fixed part of the header of the attribute at `at`: 24
/// bytes when it is resident, 64 when it is not.
pub open spec fn header_tail_end(b: Seq<u8>, at: int) -> int {
    if b[at + 8] == 0 {
        24
    } else {
        64
    }
}

/// Length of the whole header of the attribute at `at`, its UTF-16 name
/// included.
pub open spec fn header_len(b: Seq<u8>, at: int) -> int {
    header_tail_end(b, at) + 2 * b[at + 9]
}

/// The code units of the name of the attribute at `at`.
pub open spec fn header_name_units(b: Seq<u8>, at: int) -> Seq<u16> {
    utf16_units(b.subrange(at + header_tail_end(b, at), at + header_len(b, at)))
}

/// `h` is the attribute header stored at byte `at` of `b`.
pub open spec fn header_decoded_from(h: AttributeHeader, b: Seq<u8>, at: int) -> bool {
    match h {
        AttributeHeader::ResidentNoName { common_header, resident_header } => {
            &&& common_decoded_from(common_header, b, at)
            &&& b[at + 8] == 0 && b[at + 9] == 0
            &&& resident_decoded_from(resident_header, b, at)
        },
        AttributeHeader::ResidentNamed { common_header, resident_header, attribute_name } => {
            &&& common_decoded_from(common_header, b, at)
            &&& b[at + 8] == 0 && b[at + 9] > 0
            &&& resident_decoded_from(resident_header, b, at)
            &&& utf16_decodes_to(header_name_units(b, at), attribute_name@)
        },
        AttributeHeader::NonResidentNoName { common_header, non_resident_header } => {
            &&& common_decoded_from(common_header, b, at)
            &&& b[at + 8] != 0 && b[at + 9] == 0
            &&& non_resident_decoded_from(non_resident_header, b, at)
        },
        AttributeHeader::NonResidentNamed { common_header, non_resident_header, attribute_name } => {
            &&& common_decoded_from(common_header, b, at)
            &&& b[at + 8] != 0 && b[at + 9] > 0
            &&& non_resident_decoded_from(non_resident_header, b, at)
            &&& utf16_decodes_to(header_name_units(b, at), attribute_name@)
        },
    }
}

pub open spec fn spec_common(h: AttributeHeader) -> CommonAttributeHeader {
    match h {
        AttributeHeader::ResidentNoName { common_header, .. } => common_header,
        AttributeHeader::ResidentNamed { common_header, .. } => common_header,
        AttributeHeader::NonResidentNoName { common_header, .. } => common_header,
        AttributeHeader::NonResidentNamed { common_header, .. } => common_header,
    }
}

pub open spec fn spec_allocation_size(h: AttributeHeader) -> Option<u64> {
    match h {
        AttributeHeader::NonResidentNoName { non_resident_header, .. } => Some(non_resident_header.file_allocation_size),
        AttributeHeader::NonResidentNamed { non_resident_header, .. } => Some(non_resident_header.file_allocation_size),
        _ => None,
    }
}

fn read_common(b: &[u8], at: usize) -> (r: CommonAttributeHeader)
    requires
        at + 16 <= b.len(),
    ensures
        common_decoded_from(r, b@, at as int),
{
    CommonAttributeHeader {
        attribute_type: crate::bytestream::le32(b, at),
        length: crate::bytestream::le32(b, at + 4),
        non_resident_flag: b[at + 8],
        name_length: b[at + 9],
        name_offset: crate::bytestream::le16(b, at + 10),
        flags: crate::bytestream::le16(b, at + 12),
        attribute_id: crate::bytestream::le16(b, at + 14),
    }
}

impl AttributeHeader {
    /// Decodes the attribute header at byte `at` of `b`, reading no byte at
    /// or past `end`; its name follows the fixed part directly.
    pub fn read(b: &[u8], at: usize, end: usize) -> (r: Result<AttributeHeader, DecodeError>)
        requires
            end <= b.len(),
        ensures
            match r {
                Ok(h) => at + 16 <= end && at + header_len(b@, at as int) <= end && header_decoded_from(
                    h,
                    b@,
                    at as int,
                ),
                Err(e) => {
                    ||| e == DecodeError::Io && (at + 16 > end || at + header_len(b@, at as int) > end)
                    ||| e == DecodeError::Encoding && at + 16 <= end && at + header_len(b@, at as int)
                        <= end && b@[at + 9] > 0 && !utf16_valid(header_name_units(b@, at as int))
                },
            },
    {
        if at > end || 16 > end - at {
            return Err(DecodeError::Io);
        }
        let common_header = read_common(b, at);
        let tail: usize = if common_header.non_resident_flag == 0 { 24 } else { 64 };
        let name_bytes = 2 * common_header.name_length as usize;
        if tail + name_bytes > end - at {
            return Err(DecodeError::Io);
        }
        if common_header.non_resident_flag == 0 {
            let resident_header = ResidentAttributeHeader {
                attribute_length: crate::bytestream::le32(b, at + 16),
                attribute_offset: crate::bytestream::le16(b, at + 20),
                indexed_flag: b[at + 22],
            };
            if common_header.name_length > 0 {
                let raw = crate::bytestream::slice_range(b, at + tail, at + tail + name_bytes);
                let attribute_name = interpret_bytes_as_utf16(raw.as_slice())?;
                Ok(AttributeHeader::ResidentNamed { common_header, resident_header, attribute_name })
            } else {
                Ok(AttributeHeader::ResidentNoName { common_header, resident_header })
            }
        } else {
            let non_resident_header = NonResidentAttributeHeader {
                starting_vcn: crate::bytestream::le64(b, at + 16),
                ending_vcn: crate::bytestream::le64(b, at + 24),
                data_runs_offset: crate::bytestream::le16(b, at + 32),
                compression_unit_size: crate::bytestream::le16(b, at + 34),
                file_allocation_size: crate::bytestream::le64(b, at + 40),
                file_real_size: crate::bytestream::le64(b, at + 48),
                initialized_data_size: crate::bytestream::le64(b, at + 56),
            };
            if common_header.name_length > 0 {
                let raw = crate::bytestream::slice_range(b, at + tail, at + tail + name_bytes);
                let attribute_name = interpret_bytes_as_utf16(raw.as_slice())?;
                Ok(AttributeHeader::NonResidentNamed { common_header, non_resident_header, attribute_name })
            } else {
                Ok(AttributeHeader::NonResidentNoName { common_header, non_resident_header })
            }
        }
    }

    pub fn common_header(&self) -> (r: &CommonAttributeHeader)
        ensures
            *r == spec_common(*self),
    {
        match self {
            AttributeHeader::ResidentNoName { common_header, .. } => common_header,
            AttributeHeader::ResidentNamed { common_header, .. } => common_header,
            AttributeHeader::NonResidentNoName { common_header, .. } => common_header,
            AttributeHeader::NonResidentNamed { common_header, .. } => common_header,
        }
    }

    pub fn attribute_type(&self) -> (r: u32)
        ensures
            r == spec_common(*self).attribute_type,
    {
        self.common_header().attribute_type
    }

    pub fn attribute_length(&self) -> (r: u32)
        ensures
            r == spec_common(*self).length,
    {
        self.common_header().length
    }

    /// The allocated size of a non-resident attribute; `None` when resident.
    pub fn file_allocation_size(&self) -> (r: Option<u64>)
        ensures
            r == spec_allocation_size(*self),
    {
        match self {
            AttributeHeader::NonResidentNoName { non_resident_header, .. } => Some(
                non_resident_header.file_allocation_size,
            ),
            AttributeHeader::NonResidentNamed { non_resident_header, .. } => Some(
                non_resident_header.file_allocation_size,
            ),
            _ => None,
        }
    }

    /// Offset of the data runs of a non-resident attribute; 0 when resident.
    pub fn datarun_offset(&self) -> (r: u16)
        ensures
            r == match *self {
                AttributeHeader::NonResidentNoName { non_resident_header, .. } => non_resident_header.data_runs_offset,
                AttributeHeader::NonResidentNamed { non_resident_header, .. } => non_resident_header.data_runs_offset,
                _ => 0u16,
            },
    {
        match self {
            AttributeHeader::NonResidentNoName { non_resident_header, .. } => non_resident_header.data_runs_offset,
            AttributeHeader::NonResidentNamed { non_resident_header, .. } => non_resident_header.data_runs_offset,
            _ => 0,
        }
    }
}

/// One of the NTFS file permission flags.
#[derive(Debug, Clone, Copy, PartialEq, Eq, Structural)]
pub enum NtfsPermissions {
    ReadOnly,
    Hidden,
    System,
    Archive,
    Device,
    Normal,
    Temporary,
    SparseFile,
    ReparseFile,
    Compressed,
    Offline,
    NotContentIndexed,
    Encrypted,
}

/// The flag value of each permission.
pub open spec fn permission_flag(p: NtfsPermissions) -> u32 {
    match p {
        NtfsPermissions::ReadOnly => 0x0001,
        NtfsPermissions::Hidden => 0x0002,
        NtfsPermissions::System => 0x0004,
        NtfsPermissions::Archive => 0x0020,
        NtfsPermissions::Device => 0x0040,
        NtfsPermissions::Normal => 0x0080,
        NtfsPermissions::Temporary => 0x0100,
        NtfsPermissions::SparseFile => 0x0200,
        NtfsPermissions::ReparseFile => 0x0400,
        NtfsPermissions::Compressed => 0x0800,
        NtfsPermissions::Offline => 0x1000,
        NtfsPermissions::NotContentIndexed => 0x2000,
        NtfsPermissions::Encrypted => 0x4000,
    }
}

impl NtfsPermissions {
    /// The permission whose flag value is exactly `value`, if any.
    pub fn from_flag(value: u32) -> (r: Option<NtfsPermissions>)
        ensures
            match r {
                Some(p) => permission_flag(p) == value,
                None => forall|p: NtfsPermissions| permission_flag(p) != value,
            },
    {
        let r = match value {
            0x0001 => Some(NtfsPermissions::ReadOnly),
            0x0002 => Some(NtfsPermissions::Hidden),
            0x0004 => Some(NtfsPermissions::System),
            0x0020 => Some(NtfsPermissions::Archive),
            0x0040 => Some(NtfsPermissions::Device),
            0x0080 => Some(NtfsPermissions::Normal),
            0x0100 => Some(NtfsPermissions::Temporary),
            0x0200 => Some(NtfsPermissions::SparseFile),
            0x0400 => Some(NtfsPermissions::ReparseFile),
            0x0800 => Some(NtfsPermissions::Compressed),
            0x1000 => Some(NtfsPermissions::Offline),
            0x2000 => Some(NtfsPermissions::NotContentIndexed),
            0x4000 => Some(NtfsPermissions::Encrypted),
            _ => None,
        };
        proof {
            if r is None {
                assert forall|p: NtfsPermissions| permission_flag(p) != value by {
                    match p {
                        _ => {},
                    }
                }
            }
        }
        r
    }

    /// The flag value of this permission.
    pub fn flag(&self) -> (r: u32)
        ensures
            r == permission_flag(*self),
    {
        match self {
            NtfsPermissions::ReadOnly => 0x0001,
            NtfsPermissions::Hidden => 0x0002,
            NtfsPermissions::System => 0x0004,
            NtfsPermissions::Archive => 0x0020,
            NtfsPermissions::Device => 0x0040,
            NtfsPermissions::Normal => 0x0080,
            NtfsPermissions::Temporary => 0x0100,
            NtfsPermissions::SparseFile => 0x0200,
            NtfsPermissions::ReparseFile => 0x0400,
            NtfsPermissions::Compressed => 0x0800,
            NtfsPermissions::Offline => 0x1000,
            NtfsPermissions::NotContentIndexed => 0x2000,
            NtfsPermissions::Encrypted => 0x4000,
        }
    }
}

/// The body of a $STANDARD_INFORMATION (0x10) attribute.
#[derive(Debug, Clone, Copy)]
pub struct StandardInformation {
    pub datetime_file_creation: NtfsDatetime,
    pub datetime_file_modification: NtfsDatetime,
    pub datetime_mft_modification: NtfsDatetime,
    pub datetime_file_reading: NtfsDatetime,
    pub file_permission_flags: u32,
    pub maximum_number_versions: u32,
    pub version_number: u64,
}

/// Size in bytes of a $STANDARD_INFORMATION body as read here.
pub const STANDARD_INFORMATION_SIZE: usize = 48;

pub open spec fn si_decoded_from(si: StandardInformation, b: Seq<u8>, at: int) -> bool {
    &&& si.datetime_file_creation.ole2 as int == le_u64_at(b, at)
    &&& si.datetime_file_modification.ole2 as int == le_u64_at(b, at + 8)
    &&& si.datetime_mft_modification.ole2 as int == le_u64_at(b, at + 16)
    &&& si.datetime_file_reading.ole2 as int == le_u64_at(b, at + 24)
    &&& si.file_permission_flags as int == le_u32_at(b, at + 32)
    &&& si.maximum_number_versions as int == le_u32_at(b, at + 36)
    &&& si.version_number as int == le_u64_at(b, at + 40)
}

impl StandardInformation {
    /// Decodes the body at byte `at` of `b`, reading no byte at or past
    /// `end`.
    pub fn read(b: &[u8], at: usize, end: usize) -> (r: Result<Self, DecodeError>)
        requires
            end <= b.len(),
        ensures
            match r {
                Ok(si) => at + 48 <= end && si_decoded_from(si, b@, at as int),
                Err(e) => e == DecodeError::Io && at + 48 > end,
            },
    {
        if at > end || STANDARD_INFORMATION_SIZE > end - at {
            return Err(DecodeError::Io);
        }
        Ok(StandardInformation {
            datetime_file_creation: NtfsDatetime { ole2: crate::bytestream::le64(b, at) },
            datetime_file_modification: NtfsDatetime { ole2: crate::bytestream::le64(b, at + 8) },
            datetime_mft_modification: NtfsDatetime { ole2: crate::bytestream::le64(b, at + 16) },
            datetime_file_reading: NtfsDatetime { ole2: crate::bytestream::le64(b, at + 24) },
            file_permission_flags: crate::bytestream::le32(b, at + 32),
            maximum_number_versions: crate::bytestream::le32(b, at + 36),
            version_number: crate::bytestream::le64(b, at + 40),
        })
    }
}

/// The 48 on-disk bytes of a $STANDARD_INFORMATION body.
pub open spec fn si_layout(si: StandardInformation) -> Seq<u8> {
    le_bytes_of(si.datetime_file_creation.ole2 as int, 8) + le_bytes_of(
        si.datetime_file_modification.ole2 as int,
        8,
    ) + le_bytes_of(si.datetime_mft_modification.ole2 as int, 8) + le_bytes_of(
        si.datetime_file_reading.ole2 as int,
        8,
    ) + le_bytes_of(si.file_permission_flags as int, 4) + le_bytes_of(
        si.maximum_number_versions as int,
        4,
    ) + le_bytes_of(si.version_number as int, 8)
}

impl StandardInformation {
    /// The on-disk bytes of this body.
    pub fn to_bytes(&self) -> (r: Vec<u8>)
        ensures
            r@ == si_layout(*self),
    {
        let mut r: Vec<u8> = Vec::with_capacity(STANDARD_INFORMATION_SIZE);
        let bytes = u64_to_le_bytes(self.datetime_file_creation.ole2);
        let mut a = crate::bytestream::slice_range(bytes.as_slice(), 0, 8);
        r.append(&mut a);
        let bytes = u64_to_le_bytes(self.datetime_file_modification.ole2);
        let mut a = crate::bytestream::slice_range(bytes.as_slice(), 0, 8);
        r.append(&mut a);
        let bytes = u64_to_le_bytes(self.datetime_mft_modification.ole2);
        let mut a = crate::bytestream::slice_range(bytes.as_slice(), 0, 8);
        r.append(&mut a);
        let bytes = u64_to_le_bytes(self.datetime_file_reading.ole2);
        let mut a = crate::bytestream::slice_range(bytes.as_slice(), 0, 8);
        r.append(&mut a);
        let bytes = crate::bytestream::u32_to_le_bytes(self.file_permission_flags);
        let mut a = crate::bytestream::slice_range(bytes.as_slice(), 0, 4);
        r.append(&mut a);
        let bytes = crate::bytestream::u32_to_le_bytes(self.maximum_number_versions);
        let mut a = crate::bytestream::slice_range(bytes.as_slice(), 0, 4);
        r.append(&mut a);
        let bytes = u64_to_le_bytes(self.version_number);
        let mut a = crate::bytestream::slice_range(bytes.as_slice(), 0, 8);
        r.append(&mut a);
        assert(r@ =~= si_layout(*self));
        r
    }
}

/// Re-serialising a decoded $STANDARD_INFORMATION body gives back the 48
/// bytes it was read from.
pub proof fn lemma_si_round_trip(si: StandardInformation, b: Seq<u8>, at: int)
    requires
        0 <= at && at + 48 <= b.len(),
        si_decoded_from(si, b, at),
    ensures
        si_layout(si) == b.subrange(at, at + 48),
{
    lemma_le_fixed_is_uint(b, at);
    lemma_le_fixed_is_uint(b, at + 8);
    lemma_le_fixed_is_uint(b, at + 16);
    lemma_le_fixed_is_uint(b, at + 24);
    lemma_le_fixed_is_uint(b, at + 32);
    lemma_le_fixed_is_uint(b, at + 36);
    lemma_le_fixed_is_uint(b, at + 40);
    lemma_le_bytes_of_uint(b, at, 8);
    lemma_le_bytes_of_uint(b, at + 8, 8);
    lemma_le_bytes_of_uint(b, at + 16, 8);
    lemma_le_bytes_of_uint(b, at + 24, 8);
    lemma_le_bytes_of_uint(b, at + 32, 4);
    lemma_le_bytes_of_uint(b, at + 36, 4);
    lemma_le_bytes_of_uint(b, at + 40, 8);
    assert(si_layout(si) =~= b.subrange(at, at + 48));
}

/// The body of a $FILE_NAME (0x30) attribute.
#[derive(Debug)]
pub struct FileName {
    pub reference_to_parent_dir: u64,
    pub datetime_file_creation: NtfsDatetime,
    pub datetime_file_modification: NtfsDatetime,
    pub datetime_mft_modification: NtfsDatetime,
    pub datetime_file_reading: NtfsDatetime,
    pub file_size_allocated_on_disk: u64,
    pub real_file_size: u64,
    pub file_permission_flags: u32,
    pub extended_attributes_and_reparse: u32,
    pub name_size: u8,
    pub namespace: u8,
    pub name: String,
}

/// Length of a $FILE_NAME body: 66 fixed bytes and the UTF-16 name.
pub open spec fn file_name_len(b: Seq<u8>, at: int) -> int {
    66 + 2 * b[at + 64]
}

pub open spec fn file_name_units(b: Seq<u8>, at: int) -> Seq<u16> {
    utf16_units(b.subrange(at + 66, at + file_name_len(b, at)))
}

pub open spec fn fn_decoded_from(f: FileName, b: Seq<u8>, at: int) -> bool {
    &&& f.reference_to_parent_dir as int == le_u64_at(b, at)
    &&& f.datetime_file_creation.ole2 as int == le_u64_at(b, at + 8)
    &&& f.datetime_file_modification.ole2 as int == le_u64_at(b, at + 16)
    &&& f.datetime_mft_modification.ole2 as int == le_u64_at(b, at + 24)
    &&& f.datetime_file_reading.ole2 as int == le_u64_at(b, at + 32)
    &&& f.file_size_allocated_on_disk as int == le_u64_at(b, at + 40)
    &&& f.real_file_size as int == le_u64_at(b, at + 48)
    &&& f.file_permission_flags as int == le_u32_at(b, at + 56)
    &&& f.extended_attributes_and_reparse as int == le_u32_at(b, at + 60)
    &&& f.name_size == b[at + 64]
    &&& f.namespace == b[at + 65]
    &&& utf16_decodes_to(file_name_units(b, at), f.name@)
}

impl FileName {
    /// Decodes the body at byte `at` of `b`, reading no byte at or past
    /// `end`.
    pub fn read(b: &[u8], at: usize, end: usize) -> (r: Result<Self, DecodeError>)
        requires
            end <= b.len(),
        ensures
            match r {
                Ok(f) => at + 66 <= end && at + file_name_len(b@, at as int) <= end && fn_decoded_from(
                    f,
                    b@,
                    at as int,
                ),
                Err(e) => {
                    ||| e == DecodeError::Io && (at + 66 > end || at + file_name_len(b@, at as int) > end)
                    ||| e == DecodeError::Encoding && at + 66 <= end && at + file_name_len(b@, at as int)
                        <= end && !utf16_valid(file_name_units(b@, at as int))
                },
            },
    {
        if at > end || 66 > end - at {
            return Err(DecodeError::Io);
        }
        let name_size = b[at + 64];
        let name_bytes = 2 * name_size as usize;
        if 66 + name_bytes > end - at {
            return Err(DecodeError::Io);
        }
        let raw = crate::bytestream::slice_range(b, at + 66, at + 66 + name_bytes);
        let name = interpret_bytes_as_utf16(raw.as_slice())?;
        Ok(FileName {
            reference_to_parent_dir: crate::bytestream::le64(b, at),
            datetime_file_creation: NtfsDatetime { ole2: crate::bytestream::le64(b, at + 8) },
            datetime_file_modification: NtfsDatetime { ole2: crate::bytestream::le64(b, at + 16) },
            datetime_mft_modification: NtfsDatetime { ole2: crate::bytestream::le64(b, at + 24) },
            datetime_file_reading: NtfsDatetime { ole2: crate::bytestream::le64(b, at + 32) },
            file_size_allocated_on_disk: crate::bytestream::le64(b, at + 40),
            real_file_size: crate::bytestream::le64(b, at + 48),
            file_permission_flags: crate::bytestream::le32(b, at + 56),
            extended_attributes_and_reparse: crate::bytestream::le32(b, at + 60),
            name_size,
            namespace: b[at + 65],
            name,
        })
    }
}

/// A decoded attribute body.
#[derive(Debug)]
pub enum MftAttribute {
    StandardInformation(StandardInformation),
    FileName(FileName),
    Data(DataRun),
}

/// One attribute of a record: the absolute image offset of its body, its
/// header, and its decoded body.
#[derive(Debug)]
pub struct RecordAttribute {
    pub offset: u64,
    pub header: AttributeHeader,
    pub body: MftAttribute,
}

/// A decoded MFT file record.
#[derive(Debug)]
pub struct MftFileRecord {
    pub file_descriptor: MftFileDescriptor,
    pub attributes: Vec<RecordAttribute>,
}

/// The attribute type code a body belongs to.
pub open spec fn body_type(a: MftAttribute) -> u32 {
    match a {
        MftAttribute::StandardInformation(_) => 0x10,
        MftAttribute::FileName(_) => 0x30,
        MftAttribute::Data(_) => 0x80,
    }
}

/// Whether attribute `i` of `attrs` is a $FILE_NAME named `name`.
pub open spec fn is_file_name_attr(attrs: Seq<RecordAttribute>, i: int, name: Seq<char>) -> bool {
    &&& spec_common(attrs[i].header).attribute_type == 0x30
    &&& match attrs[i].body {
        MftAttribute::FileName(f) => f.name@ == name,
        _ => false,
    }
}

/// Whether some $FILE_NAME attribute of `r` is named `name`.
pub open spec fn record_has_name(r: MftFileRecord, name: Seq<char>) -> bool {
    exists|i: int| 0 <= i < r.attributes@.len() && #[trigger] is_file_name_attr(r.attributes@, i, name)
}

impl MftFileRecord {
    /// Whether one of the record's $FILE_NAME attributes is `file_name`.
    pub fn has_file_name_attribute(&self, file_name: &str) -> (r: bool)
        ensures
            r == record_has_name(*self, file_name@),
    {
        let wanted = <String as vstd::string::StringExecFns>::from_str(file_name);
        let mut i: usize = 0;
        while i < self.attributes.len()
            invariant
                i <= self.attributes@.len(),
                wanted@ == file_name@,
                forall|j: int| 0 <= j < i ==> !is_file_name_attr(self.attributes@, j, file_name@),
            decreases self.attributes@.len() - i,
        {
            let a = &self.attributes[i];
            if a.header.attribute_type() == 0x30 {
                match &a.body {
                    MftAttribute::FileName(f) => {
                        if f.name == wanted {
                            assert(is_file_name_attr(self.attributes@, i as int, file_name@));
                            return true;
                        }
                    },
                    _ => {},
                }
            }
            i = i + 1;
        }
        false
    }
}

/// `d` is the data run stored at byte `at` of `b`.
pub open spec fn run_decoded_from(d: DataRun, b: Seq<u8>, at: int) -> bool {
    let h = b[at];
    &&& run_length_width(h) <= 8 && run_offset_width(h) <= 8
    &&& d.length as int == le_uint(b, at + 1, run_length_width(h))
    &&& d.offset as int == le_signed(b, at + 1 + run_length_width(h), run_offset_width(h))
}

/// `a` is an attribute whose header starts at `hdr` in `b`, inside the
/// record bytes `[lo, hi)`, and whose body, right after the header, is
/// decoded from `b`.
#[verifier::opaque]
pub open spec fn attribute_decoded_at(a: RecordAttribute, b: Seq<u8>, hdr: int, lo: int, hi: int) -> bool {
    &&& lo <= hdr
    &&& hdr + header_len(b, hdr) <= hi
    &&& header_decoded_from(a.header, b, hdr)
    &&& a.offset == hdr + header_len(b, hdr)
    &&& body_type(a.body) == spec_common(a.header).attribute_type
    &&& match a.body {
        MftAttribute::StandardInformation(si) => a.offset + 48 <= hi && si_decoded_from(si, b, a.offset as int),
        MftAttribute::FileName(f) => a.offset + file_name_len(b, a.offset as int) <= hi && fn_decoded_from(f, b, a.offset as int),
        MftAttribute::Data(d) => a.offset < hi && run_decoded_from(d, b, a.offset as int),
    }
}

/// Record signature "FILE".
pub open spec fn file_signature() -> Seq<u8> {
    seq![0x46u8, 0x49, 0x4C, 0x45]
}

/// Record signature "BAAD", marking a record that failed its update
/// sequence check.
pub open spec fn baad_signature() -> Seq<u8> {
    seq![0x42u8, 0x41, 0x41, 0x44]
}

/// How reading the attribute header at `at` fails, reading below `end`.
pub open spec fn header_outcome(b: Seq<u8>, at: int, end: int) -> Option<DecodeError> {
    if at + 16 > end || at + header_len(b, at) > end {
        Some(DecodeError::Io)
    } else if b[at + 9] > 0 && !utf16_valid(header_name_units(b, at)) {
        Some(DecodeError::Encoding)
    } else {
        None
    }
}

/// How reading the $FILE_NAME body at `at` fails, reading below `end`.
pub open spec fn fn_outcome(b: Seq<u8>, at: int, end: int) -> Option<DecodeError> {
    if at + 66 > end || at + file_name_len(b, at) > end {
        Some(DecodeError::Io)
    } else if !utf16_valid(file_name_units(b, at)) {
        Some(DecodeError::Encoding)
    } else {
        None
    }
}

/// How decoding the data run at `at` fails, reading below `end`.
pub open spec fn run_outcome(b: Seq<u8>, at: int, end: int) -> Option<DecodeError> {
    let h = b[at];
    if at + 1 > end {
        Some(DecodeError::Io)
    } else if run_length_width(h) > 8 || run_offset_width(h) > 8 {
        Some(DecodeError::Integrity)
    } else if at + 1 + run_length_width(h) + run_offset_width(h) > end {
        Some(DecodeError::Io)
    } else {
        None
    }
}

/// The walk of an attribute chain from the header at `pos`, inside a record
/// ending at `end`: the header positions of the attributes kept, and the
/// error that ends the walk, if any. The walk steps by each attribute's
/// length and stops at the `0xFFFFFFFF` terminator, at an unknown type, or
/// at $DATA when `ignore_data` holds; it keeps the first
/// $STANDARD_INFORMATION and the first $FILE_NAME and skips later ones. A
/// length of zero, not longer than its header, or running past the record
/// is an `Integrity` error.
pub open spec fn attr_walk(b: Seq<u8>, pos: int, end: int, seen_si: bool, seen_fn: bool, ignore_data: bool) -> (Seq<int>, Option<DecodeError>)
    decreases end - pos,
{
    if pos > end {
        (Seq::empty(), None)
    } else if pos + 4 > end {
        (Seq::empty(), Some(DecodeError::Io))
    } else if le_u32_at(b, pos) == 0xFFFF_FFFF {
        (Seq::empty(), None)
    } else if header_outcome(b, pos, end) is Some {
        (Seq::empty(), header_outcome(b, pos, end))
    } else {
        let len = le_u32_at(b, pos + 4);
        let body = pos + header_len(b, pos);
        let t = le_u32_at(b, pos);
        if len == 0 || len <= header_len(b, pos) || len > end - pos {
            (Seq::empty(), Some(DecodeError::Integrity))
        } else if t == 0x10 {
            if seen_si {
                attr_walk(b, pos + len, end, seen_si, seen_fn, ignore_data)
            } else if body + 48 > end {
                (Seq::empty(), Some(DecodeError::Io))
            } else {
                let w = attr_walk(b, pos + len, end, true, seen_fn, ignore_data);
                (seq![pos] + w.0, w.1)
            }
        } else if t == 0x30 {
            if seen_fn {
                attr_walk(b, pos + len, end, seen_si, seen_fn, ignore_data)
            } else if fn_outcome(b, body, end) is Some {
                (Seq::empty(), fn_outcome(b, body, end))
            } else {
                let w = attr_walk(b, pos + len, end, seen_si, true, ignore_data);
                (seq![pos] + w.0, w.1)
            }
        } else if t == 0x80 {
            if ignore_data {
                (Seq::empty(), None)
            } else if run_outcome(b, body, end) is Some {
                (Seq::empty(), run_outcome(b, body, end))
            } else {
                let w = attr_walk(b, pos + len, end, seen_si, seen_fn, ignore_data);
                (seq![pos] + w.0, w.1)
            }
        } else {
            (Seq::empty(), None)
        }
    }
}

/// Offset of the first attribute of the record at `off`.
pub open spec fn first_attribute_at(b: Seq<u8>, off: int) -> int {
    off + le_u16_at(b, off + 20)
}

/// How reading the `rs`-byte record at `off` fails, if it does.
pub open spec fn record_error(b: Seq<u8>, off: int, rs: int, ignore_data: bool) -> Option<DecodeError> {
    if !(in_image(b.len() as int, off, rs) && rs >= 48) {
        Some(DecodeError::Io)
    } else if b.subrange(off, off + 4) == baad_signature() {
        Some(DecodeError::Integrity)
    } else if b.subrange(off, off + 4) != file_signature() {
        None
    } else if le_u16_at(b, off + 20) > rs {
        Some(DecodeError::Integrity)
    } else {
        attr_walk(b, first_attribute_at(b, off), off + rs, false, false, ignore_data).1
    }
}

/// Header positions of the attributes the record at `off` keeps.
pub open spec fn record_headers(b: Seq<u8>, off: int, rs: int, ignore_data: bool) -> Seq<int> {
    attr_walk(b, first_attribute_at(b, off), off + rs, false, false, ignore_data).0
}

/// `rec` is the "FILE" record of `rs` bytes at `off`: its header, and one
/// attribute for each header position of the walk, in order.
pub open spec fn record_matches(rec: MftFileRecord, b: Seq<u8>, off: int, rs: int, ignore_data: bool) -> bool {
    &&& descriptor_decoded_from(rec.file_descriptor, b, off)
    &&& rec.file_descriptor.signature@ == file_signature()
    &&& rec.attributes@.len() == record_headers(b, off, rs, ignore_data).len()
    &&& forall|i: int|
        0 <= i < rec.attributes@.len() ==> attribute_decoded_at(
            #[trigger] rec.attributes@[i],
            b,
            record_headers(b, off, rs, ignore_data)[i],
            off,
            off + rs,
        )
}

/// One step of the attribute walk of a record.
pub enum AttributeStep {
    /// The walk ends here without error.
    Stop,
    /// The attribute is skipped; the next header is at the given offset.
    Next(usize),
    /// The attribute is kept; the next header is at the given offset.
    Keep(RecordAttribute, usize),
}

/// Reads the attribute whose header is at `pos` in the record `[start,
/// end)` and says how the walk goes on.
fn read_attribute_step(
    image: &[u8],
    start: usize,
    pos: usize,
    end: usize,
    seen_si: bool,
    seen_fn: bool,
    ignore_data: bool,
) -> (r: Result<AttributeStep, DecodeError>)
    requires
        start <= pos <= end <= image.len(),
    ensures
        ({
            let w = attr_walk(image@, pos as int, end as int, seen_si, seen_fn, ignore_data);
            match r {
                Err(e) => w == (Seq::<int>::empty(), Some(e)),
                Ok(AttributeStep::Stop) => w == (Seq::<int>::empty(), None::<DecodeError>),
                Ok(AttributeStep::Next(p)) => pos < p <= end && w == attr_walk(image@, p as int, end as int, seen_si, seen_fn, ignore_data),
                Ok(AttributeStep::Keep(a, p)) => {
                    let w2 = attr_walk(
                        image@,
                        p as int,
                        end as int,
                        seen_si || a.body is StandardInformation,
                        seen_fn || a.body is FileName,
                        ignore_data,
                    );
                    &&& pos < p <= end
                    &&& attribute_decoded_at(a, image@, pos as int, start as int, end as int)
                    &&& w.0 == seq![pos as int] + w2.0
                    &&& w.1 == w2.1
                }
            }
        }),
{
    let ghost b = image@;
    if 4 > end - pos {
        return Err(DecodeError::Io);
    }
    if crate::bytestream::le32(image, pos) == 0xFFFF_FFFF {
        return Ok(AttributeStep::Stop);
    }
    let header = match AttributeHeader::read(image, pos, end) {
        Ok(h) => h,
        Err(e) => {
            return Err(e);
        },
    };
    proof {
        if b[pos + 9] > 0 {
            let nm = match header {
                AttributeHeader::ResidentNamed { ref attribute_name, .. } => attribute_name@,
                AttributeHeader::NonResidentNamed { ref attribute_name, .. } => attribute_name@,
                _ => Seq::empty(),
            };
            assert(utf16_decodes_to(header_name_units(b, pos as int), nm));
        }
        assert(header_outcome(b, pos as int, end as int) is None);
    }
    reveal(attribute_decoded_at);
    let length = header.attribute_length() as usize;
    if length == 0 {
        return Err(DecodeError::Integrity);
    }
    let common = header.common_header();
    let tail: usize = if common.non_resident_flag == 0 { 24 } else { 64 };
    let body_at = pos + tail + 2 * common.name_length as usize;
    assert(body_at == pos + header_len(b, pos as int));
    if length <= body_at - pos || length > end - pos {
        return Err(DecodeError::Integrity);
    }
    let next = pos + length;
    let attribute_type = header.attribute_type();
    if attribute_type == 0x10 {
        if seen_si {
            return Ok(AttributeStep::Next(next));
        }
        let si = match StandardInformation::read(image, body_at, end) {
            Ok(v) => v,
            Err(e) => return Err(e),
        };
        let a = RecordAttribute { offset: body_at as u64, header, body: MftAttribute::StandardInformation(si) };
        Ok(AttributeStep::Keep(a, next))
    } else if attribute_type == 0x30 {
        if seen_fn {
            return Ok(AttributeStep::Next(next));
        }
        let f = match FileName::read(image, body_at, end) {
            Ok(v) => v,
            Err(e) => return Err(e),
        };
        proof {
            assert(utf16_decodes_to(file_name_units(b, body_at as int), f.name@));
            assert(fn_outcome(b, body_at as int, end as int) is None);
        }
        let a = RecordAttribute { offset: body_at as u64, header, body: MftAttribute::FileName(f) };
        Ok(AttributeStep::Keep(a, next))
    } else if attribute_type == 0x80 {
        if ignore_data {
            return Ok(AttributeStep::Stop);
        }
        let d = match DataRun::decode(image, body_at, end) {
            Ok(v) => v,
            Err(e) => return Err(e),
        };
        let a = RecordAttribute { offset: body_at as u64, header, body: MftAttribute::Data(d) };
        Ok(AttributeStep::Keep(a, next))
    } else {
        Ok(AttributeStep::Stop)
    }
}

/// Reads the record of `mft_record_size` bytes at byte `starting_offset`.
/// A record signed "FILE" has its attributes decoded, from
/// `offset_first_attribute` up to the `0xFFFFFFFF` terminator, stepping by
/// each attribute's length; a second $STANDARD_INFORMATION or $FILE_NAME is
/// skipped, and an unknown type (or $DATA, when `ignore_data_attribute`)
/// ends the list. A record signed "BAAD" is an `Integrity` error; any other
/// signature is no record.
pub fn parse_mft_file_record(
    image: &[u8],
    starting_offset: u64,
    mft_record_size: usize,
    ignore_data_attribute: bool,
) -> (r: Result<Option<MftFileRecord>, DecodeError>)
    ensures
        match r {
            Ok(Some(rec)) => record_error(image@, starting_offset as int, mft_record_size as int, ignore_data_attribute) is None
                && record_matches(rec, image@, starting_offset as int, mft_record_size as int, ignore_data_attribute),
            Ok(None) => record_error(image@, starting_offset as int, mft_record_size as int, ignore_data_attribute) is None
                && image@.subrange(starting_offset as int, starting_offset + 4) != file_signature(),
            Err(e) => record_error(image@, starting_offset as int, mft_record_size as int, ignore_data_attribute) == Some(e),
        },
{
    let len = image.len();
    if starting_offset > len as u64 || mft_record_size > len - starting_offset as usize {
        return Err(DecodeError::Io);
    }
    if mft_record_size < MFT_HEADER_SIZE {
        return Err(DecodeError::Io);
    }
    let start = starting_offset as usize;
    let end = start + mft_record_size;
    let desc = MftFileDescriptor::read(image, start);
    let sig = desc.signature;
    let is_file = sig[0] == 0x46 && sig[1] == 0x49 && sig[2] == 0x4C && sig[3] == 0x45;
    let is_baad = sig[0] == 0x42 && sig[1] == 0x41 && sig[2] == 0x41 && sig[3] == 0x44;
    assert(is_file == (desc.signature@ =~= file_signature()));
    assert(is_baad == (desc.signature@ =~= baad_signature()));
    if is_baad {
        return Err(DecodeError::Integrity);
    }
    if !is_file {
        return Ok(None);
    }
    if desc.offset_first_attribute as usize > mft_record_size {
        return Err(DecodeError::Integrity);
    }
    let ghost b = image@;
    let ghost walk = attr_walk(b, start + desc.offset_first_attribute, end as int, false, false, ignore_data_attribute);
    let ghost mut hdrs: Seq<int> = Seq::empty();
    let mut attributes: Vec<RecordAttribute> = Vec::new();
    let mut pos: usize = start + desc.offset_first_attribute as usize;
    let mut seen_si = false;
    let mut seen_fn = false;
    while pos <= end
        invariant
            end == start + mft_record_size <= image@.len() == len,
            b == image@,
            start == starting_offset,
            start <= pos,
            mft_record_size >= 48,
            image@.subrange(start as int, start + 4) == file_signature(),
            walk == attr_walk(b, first_attribute_at(b, start as int), end as int, false, false, ignore_data_attribute),
            attributes@.len() == hdrs.len(),
            forall|i: int| 0 <= i < attributes@.len() ==> attribute_decoded_at(#[trigger] attributes@[i], b, hdrs[i], start as int, end as int),
            walk.0 == hdrs + attr_walk(b, pos as int, end as int, seen_si, seen_fn, ignore_data_attribute).0,
            walk.1 == attr_walk(b, pos as int, end as int, seen_si, seen_fn, ignore_data_attribute).1,
        ensures
            walk.1 is None,
            walk.0 == hdrs,
            attributes@.len() == hdrs.len(),
            forall|i: int| 0 <= i < attributes@.len() ==> attribute_decoded_at(#[trigger] attributes@[i], b, hdrs[i], start as int, end as int),
        decreases end + 1 - pos,
    {
        match read_attribute_step(image, start, pos, end, seen_si, seen_fn, ignore_data_attribute) {
            Err(e) => {
                return Err(e);
            },
            Ok(AttributeStep::Stop) => {
                assert(walk.0 =~= hdrs);
                break;
            },
            Ok(AttributeStep::Next(next)) => {
                pos = next;
            },
            Ok(AttributeStep::Keep(a, next)) => {
                let is_si = match &a.body {
                    MftAttribute::StandardInformation(_) => true,
                    _ => false,
                };
                let is_fn = match &a.body {
                    MftAttribute::FileName(_) => true,
                    _ => false,
                };
                let ghost p0 = pos as int;
                let ghost w = attr_walk(b, next as int, end as int, seen_si || is_si, seen_fn || is_fn, ignore_data_attribute);
                attributes.push(a);
                proof {
                    let old_hdrs = hdrs;
                    hdrs = hdrs.push(p0);
                    assert(walk.0 =~= hdrs + w.0);
                    assert(forall|i: int| 0 <= i < old_hdrs.len() ==> hdrs[i] == old_hdrs[i]);
                }
                seen_si = seen_si || is_si;
                seen_fn = seen_fn || is_fn;
                pos = next;
            },
        }
    }
    let rec = MftFileRecord { file_descriptor: desc, attributes };
    assert(record_headers(b, start as int, mft_record_size as int, ignore_data_attribute) == hdrs);
    Ok(Some(rec))
}

/// Whether attribute `k` is the first $DATA attribute of `attrs`.
pub open spec fn is_first_data(attrs: Seq<RecordAttribute>, k: int) -> bool {
    &&& 0 <= k < attrs.len()
    &&& body_type(attrs[k].body) == 0x80
    &&& forall|i: int| 0 <= i < k ==> body_type((#[trigger] attrs[i]).body) != 0x80
}

/// The first $DATA attribute of a record, if it has one.
fn first_data_attribute(rec: &MftFileRecord) -> (r: Option<usize>)
    ensures
        match r {
            Some(k) => is_first_data(rec.attributes@, k as int),
            None => forall|i: int| 0 <= i < rec.attributes@.len() ==> body_type((#[trigger] rec.attributes@[i]).body) != 0x80,
        },
{
    let mut i: usize = 0;
    while i < rec.attributes.len()
        invariant
            i <= rec.attributes@.len(),
            forall|j: int| 0 <= j < i ==> body_type((#[trigger] rec.attributes@[j]).body) != 0x80,
        decreases rec.attributes@.len() - i,
    {
        match &rec.attributes[i].body {
            MftAttribute::Data(_) => {
                return Some(i);
            },
            _ => {},
        }
        i = i + 1;
    }
    None
}

/// Header `k` of `hs` is the first whose type is $DATA.
pub open spec fn is_first_data_header(b: Seq<u8>, hs: Seq<int>, k: int) -> bool {
    &&& 0 <= k < hs.len()
    &&& le_u32_at(b, hs[k]) == 0x80
    &&& forall|j: int| 0 <= j < k ==> le_u32_at(b, #[trigger] hs[j]) != 0x80
}

/// The walk of the record slots at `o`, `o + rs`, ... that lie less than
/// `alloc` bytes past the MFT start `m`: the offsets of the slots holding a
/// record, and the error of the first slot that fails, if any.
pub open spec fn slot_walk(b: Seq<u8>, m: int, rs: int, alloc: int, o: int) -> (Seq<int>, Option<DecodeError>)
    decreases alloc + rs - (o - m),
{
    if rs <= 0 || o <= m || o - m >= alloc {
        (Seq::empty(), None)
    } else if record_error(b, o, rs, true) is Some {
        (Seq::empty(), record_error(b, o, rs, true))
    } else if b.subrange(o, o + 4) == file_signature() {
        let w = slot_walk(b, m, rs, alloc, o + rs);
        (seq![o] + w.0, w.1)
    } else {
        slot_walk(b, m, rs, alloc, o + rs)
    }
}

/// The $DATA header of the MFT's own record at `m`, if it has one.
pub open spec fn mft_data_header(b: Seq<u8>, m: int, rs: int) -> Option<int> {
    let hs = record_headers(b, m, rs, false);
    if exists|k: int| is_first_data_header(b, hs, k) {
        Some(hs[choose|k: int| is_first_data_header(b, hs, k)])
    } else {
        None
    }
}

/// How walking the MFT at `m` in records of `rs` bytes fails, if it does:
/// its own record fails or is not signed "FILE" (`Signature`), its $DATA is
/// resident (`Integrity`), or a slot within the allocation fails.
pub open spec fn mft_error(b: Seq<u8>, m: int, rs: int) -> Option<DecodeError> {
    if record_error(b, m, rs, false) is Some {
        record_error(b, m, rs, false)
    } else if b.subrange(m, m + 4) != file_signature() {
        Some(DecodeError::Signature)
    } else {
        match mft_data_header(b, m, rs) {
            None => None,
            Some(h) => if b[h + 8] == 0 {
                Some(DecodeError::Integrity)
            } else {
                slot_walk(b, m, rs, le_u64_at(b, h + 40), m + rs).1
            },
        }
    }
}

/// Offsets of the slots after the MFT's own record that hold a record.
pub open spec fn mft_slots(b: Seq<u8>, m: int, rs: int) -> Seq<int> {
    match mft_data_header(b, m, rs) {
        None => Seq::empty(),
        Some(h) => slot_walk(b, m, rs, le_u64_at(b, h + 40), m + rs).0,
    }
}

/// Walks the MFT at byte `mft_byte_offset`: its own record first (with its
/// $DATA run), then every `mft_record_size`-byte slot that lies within the
/// allocated size of that $DATA attribute, keeping the slots that hold a
/// record. A first record that is missing, or whose $DATA is resident, is
/// an error; without $DATA only the first record is returned.
pub fn parse_mft(image: &[u8], mft_byte_offset: u64, mft_record_size: usize) -> (r: Result<Vec<MftFileRecord>, DecodeError>)
    ensures
        ({
            let b = image@;
            let m = mft_byte_offset as int;
            let rs = mft_record_size as int;
            match r {
                Ok(records) => {
                    &&& mft_error(b, m, rs) is None
                    &&& records@.len() == 1 + mft_slots(b, m, rs).len()
                    &&& record_matches(records@[0], b, m, rs, false)
                    &&& forall|i: int|
                        0 <= i < mft_slots(b, m, rs).len() ==> record_matches(
                            #[trigger] records@[i + 1],
                            b,
                            mft_slots(b, m, rs)[i],
                            rs,
                            true,
                        )
                },
                Err(e) => mft_error(b, m, rs) == Some(e),
            }
        }),
{
    let ghost b = image@;
    let ghost m = mft_byte_offset as int;
    let ghost rs_i = mft_record_size as int;
    let mft = match parse_mft_file_record(image, mft_byte_offset, mft_record_size, false) {
        Ok(Some(v)) => v,
        Ok(None) => return Err(DecodeError::Signature),
        Err(e) => return Err(e),
    };
    let ghost hs = record_headers(b, m, rs_i, false);
    let data = first_data_attribute(&mft);
    proof {
        reveal(attribute_decoded_at);
        assert forall|i: int| 0 <= i < mft.attributes@.len() implies body_type((#[trigger] mft.attributes@[i]).body) as int == le_u32_at(b, hs[i]) by {
            assert(attribute_decoded_at(mft.attributes@[i], b, hs[i], m, m + rs_i));
        }
    }
    let mut records: Vec<MftFileRecord> = Vec::new();
    match data {
        None => {
            proof {
                if exists|k: int| is_first_data_header(b, hs, k) {
                    let k = choose|k: int| is_first_data_header(b, hs, k);
                    assert(body_type(mft.attributes@[k].body) != 0x80);
                    assert(false);
                }
            }
            records.push(mft);
            assert(mft_slots(b, m, rs_i) =~= Seq::<int>::empty());
            Ok(records)
        },
        Some(k) => {
            let ghost h = hs[k as int];
            proof {
                assert(body_type(mft.attributes@[k as int].body) == 0x80);
                assert forall|j: int| 0 <= j < k implies le_u32_at(b, #[trigger] hs[j]) != 0x80 by {
                    assert(body_type(mft.attributes@[j].body) != 0x80);
                }
                assert(is_first_data_header(b, hs, k as int));
                let k2 = choose|k2: int| is_first_data_header(b, hs, k2);
                if k2 < k {
                    assert(body_type(mft.attributes@[k2].body) != 0x80);
                } else if k2 > k as int {
                    assert(le_u32_at(b, hs[k as int]) != 0x80);
                }
                assert(mft_data_header(b, m, rs_i) == Some(h));
                reveal(attribute_decoded_at);
                assert(attribute_decoded_at(mft.attributes@[k as int], b, h, m, m + rs_i));
            }
            let allocation_size = match mft.attributes[k].header.file_allocation_size() {
                Some(a) => a,
                None => return Err(DecodeError::Integrity),
            };
            let ghost first = mft;
            records.push(mft);
            let rs = mft_record_size as u64;
            assert(mft_byte_offset + rs <= image.len());
            let mut offset: u64 = mft_byte_offset + rs;
            let ghost whole = slot_walk(b, m, rs_i, allocation_size as int, m + rs_i);
            let ghost mut slots: Seq<int> = Seq::empty();
            assert(mft_error(b, m, rs_i) == whole.1);
            assert(mft_slots(b, m, rs_i) == whole.0);
            while offset - mft_byte_offset < allocation_size
                invariant
                    rs == mft_record_size >= 48,
                    rs_i == rs,
                    b == image@,
                    m == mft_byte_offset,
                    mft_byte_offset < offset <= image.len(),
                    records@.len() == 1 + slots.len(),
                    records@[0] == first,
                    forall|i: int| 0 <= i < slots.len() ==> record_matches(#[trigger] records@[i + 1], b, slots[i], rs_i, true),
                    whole.0 == slots + slot_walk(b, m, rs_i, allocation_size as int, offset as int).0,
                    whole.1 == slot_walk(b, m, rs_i, allocation_size as int, offset as int).1,
                    mft_error(b, m, rs_i) == whole.1,
                    mft_slots(b, m, rs_i) == whole.0,
                    record_matches(first, b, m, rs_i, false),
                decreases image.len() - offset,
            {
                let record = match parse_mft_file_record(image, offset, mft_record_size, true) {
                    Ok(v) => v,
                    Err(e) => return Err(e),
                };
                let ghost prev = records@;
                let ghost w = slot_walk(b, m, rs_i, allocation_size as int, offset + rs_i);
                match record {
                    Some(rec) => {
                        records.push(rec);
                        proof {
                            let old_slots = slots;
                            slots = slots.push(offset as int);
                            assert(whole.0 =~= slots + w.0);
                            assert forall|i: int| 0 <= i < slots.len() implies record_matches(#[trigger] records@[i + 1], b, slots[i], rs_i, true) by {
                                if i < old_slots.len() {
                                    assert(records@[i + 1] == prev[i + 1]);
                                }
                            }
                        }
                    },
                    None => {},
                }
                offset = offset + rs;
            }
            assert(whole.0 =~= slots);
            Ok(records)
        },
    }
}

/// MFT bound: a record count `n` with `n * size < allocation + size` is at
/// most `ceil(allocation / size)`, the number of record slots the MFT's
/// allocation holds.
pub proof fn lemma_mft_slot_bound(n: int, allocation: int, size: int)
    requires
        size > 0,
        allocation >= 0,
        n >= 0,
        n * size < allocation + size,
    ensures
        n <= (allocation + size - 1) / size,
{
    assert((n - 1) * size < allocation) by (nonlinear_arith)
        requires
            n * size < allocation + size,
    ;
    vstd::arithmetic::div_mod::lemma_fundamental_div_mod(allocation + size - 1, size);
    let q = (allocation + size - 1) / size;
    let m = (allocation + size - 1) % size;
    assert(n <= q) by (nonlinear_arith)
        requires
            (n - 1) * size < allocation,
            allocation + size - 1 == size * q + m,
            0 <= m < size,
            size > 0,
    ;
}

/// What `str::trim` makes of a text: the text without its leading and
/// trailing Unicode whitespace.
pub uninterp spec fn trimmed_text(s: Seq<char>) -> Seq<char>;

/// Relies on `str::trim`: the text without leading and trailing whitespace.
#[verifier::external_body]
fn trim_text(s: &str) -> (r: String)
    ensures
        r@ == trimmed_text(s@),
{
    s.trim().to_string()
}

/// Whether the OEM ID bytes `oem`, decoded as UTF-8 and trimmed, read
/// "NTFS".
pub open spec fn oem_is_ntfs(oem: Seq<u8>) -> bool {
    utf8_text(oem) is Some && trimmed_text(utf8_text(oem)->Some_0) == "NTFS"@
}

/// Two's-complement value of a byte.
pub open spec fn signed_byte(v: u8) -> int {
    if v < 128 {
        v as int
    } else {
        v - 256
    }
}

/// `2` raised to the power `n`.
pub open spec fn pow2n(n: nat) -> int
    decreases n,
{
    if n == 0 {
        1
    } else {
        2 * pow2n((n - 1) as nat)
    }
}

/// Size in bytes of one MFT record: `2^|code|` for a negative size code,
/// otherwise `code` clusters.
pub open spec fn spec_mft_record_size(code: int, sectors_per_cluster: int, bytes_per_sector: int) -> int {
    if code < 0 {
        pow2n((-code) as nat)
    } else {
        code * sectors_per_cluster * bytes_per_sector
    }
}

/// The NTFS partition boot record (BIOS parameter block included).
#[derive(Debug)]
pub struct NtfsPartitionBootRecord {
    pub jump_instruction: [u8; 3],
    pub oem_id: [u8; 8],
    pub bytes_per_sector: u16,
    pub sectors_per_cluster: u8,
    pub device_type: u8,
    pub number_of_sectors_in_volume: u64,
    pub mft_lcn: u64,
    pub backup_mft_lcn: u64,
    pub mft_size: i8,
    pub number_of_clusters_per_index_buffer: u8,
    pub serial_number: [u8; 8],
    pub error_bytes: Vec<u8>,
}

/// Size in bytes of the boot record fields read here.
pub const PBR_SIZE: usize = 84;

/// `p` is the boot record stored at byte `at` of `b`.
pub open spec fn pbr_decoded_from(p: NtfsPartitionBootRecord, b: Seq<u8>, at: int) -> bool {
    &&& p.jump_instruction@ == b.subrange(at, at + 3)
    &&& p.oem_id@ == b.subrange(at + 3, at + 11)
    &&& p.bytes_per_sector as int == le_u16_at(b, at + 11)
    &&& p.sectors_per_cluster == b[at + 13]
    &&& p.device_type == b[at + 21]
    &&& p.number_of_sectors_in_volume as int == le_u64_at(b, at + 40)
    &&& p.mft_lcn as int == le_u64_at(b, at + 48)
    &&& p.backup_mft_lcn as int == le_u64_at(b, at + 56)
    &&& p.mft_size as int == signed_byte(b[at + 64])
    &&& p.number_of_clusters_per_index_buffer == b[at + 68]
    &&& p.serial_number@ == b.subrange(at + 72, at + 80)
    &&& p.error_bytes@ == b.subrange(at + 14, at + 21) + b.subrange(at + 22, at + 24) + b.subrange(at + 32, at + 36)
}

fn array8(b: &[u8], at: usize) -> (r: [u8; 8])
    requires
        at + 8 <= b.len(),
    ensures
        r@ == b@.subrange(at as int, at + 8),
{
    let r = [b[at], b[at + 1], b[at + 2], b[at + 3], b[at + 4], b[at + 5], b[at + 6], b[at + 7]];
    assert(r@ =~= b@.subrange(at as int, at + 8));
    r
}

impl NtfsPartitionBootRecord {
    /// Decodes the boot record stored at byte `at` of `b`.
    pub fn read(b: &[u8], at: usize) -> (r: Self)
        requires
            at + 84 <= b.len(),
        ensures
            pbr_decoded_from(r, b@, at as int),
    {
        let jump_instruction = [b[at], b[at + 1], b[at + 2]];
        assert(jump_instruction@ =~= b@.subrange(at as int, at + 3));
        let mut error_bytes = crate::bytestream::slice_range(b, at + 14, at + 21);
        let mut more = crate::bytestream::slice_range(b, at + 22, at + 24);
        error_bytes.append(&mut more);
        let mut last = crate::bytestream::slice_range(b, at + 32, at + 36);
        error_bytes.append(&mut last);
        let code = b[at + 64];
        let mft_size: i8 = if code < 128 {
            code as i8
        } else {
            (code as i16 - 256) as i8
        };
        NtfsPartitionBootRecord {
            jump_instruction,
            oem_id: array8(b, at + 3),
            bytes_per_sector: crate::bytestream::le16(b, at + 11),
            sectors_per_cluster: b[at + 13],
            device_type: b[at + 21],
            number_of_sectors_in_volume: crate::bytestream::le64(b, at + 40),
            mft_lcn: crate::bytestream::le64(b, at + 48),
            backup_mft_lcn: crate::bytestream::le64(b, at + 56),
            mft_size,
            number_of_clusters_per_index_buffer: b[at + 68],
            serial_number: array8(b, at + 72),
            error_bytes,
        }
    }

    /// The OEM ID decoded as UTF-8 and trimmed of surrounding whitespace;
    /// bytes that are not UTF-8 are an `Encoding` error.
    pub fn oem_id_str(&self) -> (r: Result<String, DecodeError>)
        ensures
            match r {
                Ok(s) => utf8_text(self.oem_id@) is Some && s@ == trimmed_text(utf8_text(self.oem_id@)->Some_0),
                Err(e) => e == DecodeError::Encoding && utf8_text(self.oem_id@) is None,
            },
    {
        match crate::bytestream::string_from_utf8(crate::bytestream::slice_range(self.oem_id.as_slice(), 0, 8)) {
            Some(s) => {
                assert(self.oem_id@.subrange(0, 8) =~= self.oem_id@);
                Ok(trim_text(s.as_str()))
            },
            None => {
                assert(self.oem_id@.subrange(0, 8) =~= self.oem_id@);
                Err(DecodeError::Encoding)
            },
        }
    }

    /// Whether the decoded, trimmed OEM ID reads "NTFS"; an OEM ID that is
    /// not UTF-8 is an `Encoding` error.
    pub fn is_ntfs(&self) -> (r: Result<bool, DecodeError>)
        ensures
            match r {
                Ok(b) => utf8_text(self.oem_id@) is Some && b == oem_is_ntfs(self.oem_id@),
                Err(e) => e == DecodeError::Encoding && utf8_text(self.oem_id@) is None,
            },
    {
        let t = self.oem_id_str()?;
        Ok(t == <String as vstd::string::StringExecFns>::from_str("NTFS"))
    }

    /// Size in bytes of one MFT record. A non-negative size code on a
    /// volume without clusters or sectors, a zero size, or a size of 2^32
    /// bytes or more is `Unsupported`.
    pub fn mft_record_size(&self) -> (r: Result<u64, DecodeError>)
        ensures
            match r {
                Ok(n) => n as int == spec_mft_record_size(
                    self.mft_size as int,
                    self.sectors_per_cluster as int,
                    self.bytes_per_sector as int,
                ) && 0 < n < 0x1_0000_0000,
                Err(e) => e == DecodeError::Unsupported && !(0 < spec_mft_record_size(
                    self.mft_size as int,
                    self.sectors_per_cluster as int,
                    self.bytes_per_sector as int,
                ) < 0x1_0000_0000),
            },
    {
        if self.mft_size < 0 {
            let exp: u32 = (-(self.mft_size as i16)) as u32;
            assert(exp as int == -(self.mft_size as int));
            proof {
                lemma_pow2n_grows(exp as nat);
            }
            if exp >= 32 {
                return Err(DecodeError::Unsupported);
            }
            let mut v: u64 = 1;
            let mut k: u32 = 0;
            while k < exp
                invariant
                    k <= exp < 32,
                    v as int == pow2n(k as nat),
                decreases exp - k,
            {
                proof {
                    lemma_pow2n_grows((k + 1) as nat);
                    lemma_pow2n_mono((k + 1) as nat, 32);
                }
                v = v * 2;
                k = k + 1;
            }
            proof {
                lemma_pow2n_mono(exp as nat, 31);
            }
            Ok(v)
        } else {
            let code = self.mft_size as u64;
            let spc = self.sectors_per_cluster as u64;
            let bps = self.bytes_per_sector as u64;
            assert(code * spc <= 127 * 255) by (nonlinear_arith)
                requires
                    code <= 127,
                    spc <= 255,
            ;
            let clusters = code * spc;
            assert(clusters * bps <= 127 * 255 * 65535) by (nonlinear_arith)
                requires
                    clusters <= 127 * 255,
                    bps <= 65535,
            ;
            let n = clusters * bps;
            assert(n as int == self.mft_size as int * self.sectors_per_cluster as int * self.bytes_per_sector as int) by (nonlinear_arith)
                requires
                    n == clusters * bps,
                    clusters == code * spc,
                    code == self.mft_size as int,
                    spc == self.sectors_per_cluster as int,
                    bps == self.bytes_per_sector as int,
            ;
            if n == 0 || n >= 0x1_0000_0000 {
                return Err(DecodeError::Unsupported);
            }
            Ok(n)
        }
    }
}

proof fn lemma_pow2n_grows(n: nat)
    ensures
        pow2n(n) >= 1,
        n >= 32 ==> pow2n(n) >= 0x1_0000_0000,
        pow2n(32) == 0x1_0000_0000,
        pow2n(31) == 0x8000_0000,
    decreases n,
{
    reveal_with_fuel(pow2n, 33);
    if n > 0 {
        lemma_pow2n_grows((n - 1) as nat);
    }
}

proof fn lemma_pow2n_mono(a: nat, b: nat)
    requires
        a <= b,
    ensures
        pow2n(a) <= pow2n(b),
    decreases b - a,
{
    if a < b {
        lemma_pow2n_mono(a, (b - 1) as nat);
        lemma_pow2n_grows((b - 1) as nat);
    }
}

/// The slots of a walk from `o` lie in `[o, m + alloc)`, in increasing
/// order, and there are fewer than `(alloc - (o - m)) / rs + 1` of them.
pub proof fn lemma_slot_walk_bounds(b: Seq<u8>, m: int, rs: int, alloc: int, o: int)
    requires
        rs > 0,
        o > m,
    ensures
        ({
            let w = slot_walk(b, m, rs, alloc, o).0;
            &&& forall|i: int| 0 <= i < w.len() ==> o <= #[trigger] w[i] < m + alloc
            &&& forall|i: int, j: int| 0 <= i < j < w.len() ==> #[trigger] w[i] < #[trigger] w[j]
            &&& w.len() == 0 || w.len() * rs < alloc - (o - m) + rs
        }),
    decreases alloc + rs - (o - m),
{
    if o - m >= alloc || record_error(b, o, rs, true) is Some {
    } else {
        lemma_slot_walk_bounds(b, m, rs, alloc, o + rs);
        let w2 = slot_walk(b, m, rs, alloc, o + rs).0;
        if b.subrange(o, o + 4) == file_signature() {
            let w = slot_walk(b, m, rs, alloc, o).0;
            assert(w == seq![o] + w2);
            assert forall|i: int| 0 <= i < w.len() implies o <= #[trigger] w[i] < m + alloc by {
                if i > 0 {
                    assert(w[i] == w2[i - 1]);
                }
            }
            assert forall|i: int, j: int| 0 <= i < j < w.len() implies #[trigger] w[i] < #[trigger] w[j] by {
                assert(w[j] == w2[j - 1]);
                if i > 0 {
                    assert(w[i] == w2[i - 1]);
                }
            }
            let n2 = w2.len() as int;
            assert(w.len() * rs < alloc - (o - m) + rs) by (nonlinear_arith)
                requires
                    w.len() == n2 + 1,
                    n2 == 0 || n2 * rs < alloc - (o + rs - m) + rs,
                    o - m < alloc,
            ;
        } else {
            let n2 = w2.len() as int;
            assert(n2 == 0 || n2 * rs < alloc - (o - m) + rs) by (nonlinear_arith)
                requires
                    n2 == 0 || n2 * rs < alloc - (o + rs - m) + rs,
                    rs > 0,
            ;
        }
    }
}

/// MFT bound: the walk of an MFT whose $DATA allocation is `alloc` keeps
/// only slots inside that allocation, and returns at most
/// `ceil(alloc / rs)` records, its own included, when `alloc > 0`.
pub proof fn lemma_mft_walk_bound(b: Seq<u8>, m: int, rs: int)
    requires
        rs > 0,
        mft_data_header(b, m, rs) is Some,
    ensures
        ({
            let alloc = le_u64_at(b, mft_data_header(b, m, rs)->Some_0 + 40);
            let slots = mft_slots(b, m, rs);
            &&& forall|i: int| 0 <= i < slots.len() ==> m + rs <= #[trigger] slots[i] < m + alloc
            &&& alloc > 0 ==> 1 + slots.len() <= (alloc + rs - 1) / rs
        }),
{
    let alloc = le_u64_at(b, mft_data_header(b, m, rs)->Some_0 + 40);
    lemma_slot_walk_bounds(b, m, rs, alloc, m + rs);
    let n = slot_walk(b, m, rs, alloc, m + rs).0.len() as int;
    if alloc > 0 {
        assert((1 + n) * rs < alloc + rs) by (nonlinear_arith)
            requires
                n == 0 || n * rs < alloc - rs + rs,
                alloc > 0,
                rs > 0,
        ;
        lemma_mft_slot_bound(1 + n, alloc, rs);
    }
}

/// Boot sector signature bytes 0x55, 0xAA.
pub open spec fn boot_signature_at(b: Seq<u8>, at: int) -> bool {
    b[at] == 0x55 && b[at + 1] == 0xAA
}

/// Byte offset of the MFT of the NTFS volume starting at sector `lba`.
pub open spec fn spec_mft_byte_offset(lba: int, p: NtfsPartitionBootRecord) -> int {
    lba * 512 + p.mft_lcn * p.sectors_per_cluster * 512
}

/// Byte offset of the MFT of the NTFS volume whose boot sector is at `lba`.
pub open spec fn pbr_mft_offset(b: Seq<u8>, lba: int) -> int {
    let at = lba * 512;
    at + le_u64_at(b, at + 48) * b[at + 13] * 512
}

/// MFT record size of the NTFS volume whose boot sector is at `lba`.
pub open spec fn pbr_record_size(b: Seq<u8>, lba: int) -> int {
    let at = lba * 512;
    spec_mft_record_size(signed_byte(b[at + 64]), b[at + 13] as int, le_u16_at(b, at + 11))
}

/// How reading the NTFS volume at sector `lba` fails, if it does.
pub open spec fn pbr_error(b: Seq<u8>, lba: int) -> Option<DecodeError> {
    let at = lba * 512;
    if at + 512 > b.len() {
        Some(DecodeError::Io)
    } else if utf8_text(b.subrange(at + 3, at + 11)) is None {
        Some(DecodeError::Encoding)
    } else if !oem_is_ntfs(b.subrange(at + 3, at + 11)) {
        Some(DecodeError::Unsupported)
    } else if !boot_signature_at(b, at + 510) {
        Some(DecodeError::Signature)
    } else if !(0 < pbr_record_size(b, lba) < 0x1_0000_0000) {
        Some(DecodeError::Unsupported)
    } else if pbr_mft_offset(b, lba) > b.len() {
        Some(DecodeError::Io)
    } else {
        mft_error(b, pbr_mft_offset(b, lba), pbr_record_size(b, lba))
    }
}

/// Reads the boot record of the NTFS volume starting at sector
/// `starting_lba` and walks its MFT. An OEM ID that is not UTF-8 is an
/// `Encoding` error; a volume whose trimmed OEM ID is not "NTFS" is
/// `Unsupported`; a boot sector not ending in 0x55 0xAA is a `Signature`
/// error; an MFT record size that is zero or of 2^32 bytes or more is
/// `Unsupported`.
pub fn parse_pbr(image: &[u8], starting_lba: u64) -> (r: Result<Vec<MftFileRecord>, DecodeError>)
    ensures
        ({
            let b = image@;
            let m = pbr_mft_offset(b, starting_lba as int);
            let rs = pbr_record_size(b, starting_lba as int);
            match r {
                Ok(records) => {
                    &&& pbr_error(b, starting_lba as int) is None
                    &&& records@.len() == 1 + mft_slots(b, m, rs).len()
                    &&& record_matches(records@[0], b, m, rs, false)
                    &&& forall|i: int|
                        0 <= i < mft_slots(b, m, rs).len() ==> record_matches(
                            #[trigger] records@[i + 1],
                            b,
                            mft_slots(b, m, rs)[i],
                            rs,
                            true,
                        )
                },
                Err(e) => pbr_error(b, starting_lba as int) == Some(e),
            }
        }),
{
    let mut stream = match ByteStream::new(image, SECTOR_SIZE, starting_lba) {
        Ok(st) => st,
        Err(e) => return Err(e),
    };
    let origin = stream.get_byte_offset();
    let raw = stream.read_byte_array(PBR_SIZE).unwrap();
    let pbr = NtfsPartitionBootRecord::read(raw.as_slice(), 0);
    proof {
        assert forall|i: int| 0 <= i < 84 implies raw@[i] == image@[origin + i] by {}
        assert(pbr_decoded_from(pbr, raw@, 0));
        assert(raw@ =~= image@.subrange(origin as int, origin + 84));
        assert(pbr_decoded_from(pbr, image@, origin as int)) by {
            assert(pbr.jump_instruction@ =~= image@.subrange(origin as int, origin + 3));
            assert(pbr.oem_id@ =~= image@.subrange(origin + 3, origin + 11));
            assert(pbr.serial_number@ =~= image@.subrange(origin + 72, origin + 80));
            assert(raw@.subrange(14, 21) =~= image@.subrange(origin + 14, origin + 21));
            assert(raw@.subrange(22, 24) =~= image@.subrange(origin + 22, origin + 24));
            assert(raw@.subrange(32, 36) =~= image@.subrange(origin + 32, origin + 36));
        }
    }
    match pbr.is_ntfs() {
        Err(e) => return Err(e),
        Ok(false) => return Err(DecodeError::Unsupported),
        Ok(true) => {},
    }
    stream.skip_bytes(426).unwrap();
    let signature = stream.read_byte_array(2).unwrap();
    assert(signature@[0] == image@[origin + 510] && signature@[1] == image@[origin + 511]);
    if !(signature[0] == 0x55 && signature[1] == 0xAA) {
        return Err(DecodeError::Signature);
    }
    let record_size = match pbr.mft_record_size() {
        Ok(n) => n,
        Err(e) => return Err(e),
    };
    let lcn = pbr.mft_lcn as u128;
    let spc = pbr.sectors_per_cluster as u128;
    assert(lcn * spc <= 0xFFFF_FFFF_FFFF_FFFF * 255) by (nonlinear_arith)
        requires
            lcn <= 0xFFFF_FFFF_FFFF_FFFF,
            spc <= 255,
    ;
    let cluster = lcn * spc * 512;
    let offset = starting_lba as u128 * 512 + cluster;
    assert(offset as int == pbr_mft_offset(image@, starting_lba as int));
    if offset > image.len() as u128 {
        return Err(DecodeError::Io);
    }
    parse_mft(image, offset as u64, record_size as usize)
}

} // verus!
