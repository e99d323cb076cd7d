//! GUID Partition Table: mixed-endian GUIDs, CRC32 validation, header and
//! entry decoding, and partition-type names.

use vstd::prelude::*;
use crate::bytestream::{
    le_byte, lemma_le16_bytes, lemma_le32_bytes, lemma_le_bytes_u32, pow2_8,
    le_u16_at, le_u32_at, le_u64_at, le16, le32, le64, push_char, DecodeError, ByteStream,
    SECTOR_SIZE, utf16_units, utf16_decodes_to, utf16_valid, interpret_bytes_as_utf16,
    slice_range,
};

verus! {

/// The sixteen uppercase hexadecimal digits.
pub open spec fn hex_digits() -> Seq<char> {
    seq!['0', '1', '2', '3', '4', '5', '6', '7', '8', '9', 'A', 'B', 'C', 'D', 'E', 'F']
}

/// The value of a hexadecimal digit of either case.
pub open spec fn hex_value(c: char) -> Option<u8> {
    if c == '0' { Some(0u8) }
    else if c == '1' { Some(1u8) }
    else if c == '2' { Some(2u8) }
    else if c == '3' { Some(3u8) }
    else if c == '4' { Some(4u8) }
    else if c == '5' { Some(5u8) }
    else if c == '6' { Some(6u8) }
    else if c == '7' { Some(7u8) }
    else if c == '8' { Some(8u8) }
    else if c == '9' { Some(9u8) }
    else if c == 'A' || c == 'a' { Some(10u8) }
    else if c == 'B' || c == 'b' { Some(11u8) }
    else if c == 'C' || c == 'c' { Some(12u8) }
    else if c == 'D' || c == 'd' { Some(13u8) }
    else if c == 'E' || c == 'e' { Some(14u8) }
    else if c == 'F' || c == 'f' { Some(15u8) }
    else { None }
}

/// On-disk index of the `k`-th byte of a GUID in its text form: the first
/// three fields are stored little-endian, the last two big-endian.
pub open spec fn guid_display_byte(k: int) -> int {
    if k < 4 {
        3 - k
    } else if k < 6 {
        9 - k
    } else if k < 8 {
        13 - k
    } else {
        k
    }
}

/// Number of dashes that precede the `k`-th displayed byte.
pub open spec fn guid_dashes_before(k: int) -> int {
    (if k >= 4 { 1int } else { 0 }) + (if k >= 6 { 1int } else { 0 }) + (if k >= 8 { 1int } else { 0 })
        + (if k >= 10 { 1int } else { 0 })
}

/// Text position of the first hex digit of the `k`-th displayed byte.
pub open spec fn guid_char_pos(k: int) -> int {
    2 * k + guid_dashes_before(k)
}

pub open spec fn is_guid_dash_pos(i: int) -> bool {
    i == 8 || i == 13 || i == 18 || i == 23
}

/// Character `i` of the canonical text of the GUID stored as `b`.
pub open spec fn guid_char(b: Seq<u8>, i: int) -> char {
    let d = (if i > 8 { 1int } else { 0 }) + (if i > 13 { 1int } else { 0 }) + (if i > 18 {
        1int
    } else {
        0
    }) + (if i > 23 { 1int } else { 0 });
    let v = b[guid_display_byte((i - d) / 2)];
    if is_guid_dash_pos(i) {
        '-'
    } else if (i - d) % 2 == 0 {
        hex_digits()[v as int / 16]
    } else {
        hex_digits()[v as int % 16]
    }
}

/// Canonical text `XXXXXXXX-XXXX-XXXX-XXXX-XXXXXXXXXXXX` of the GUID whose
/// sixteen on-disk bytes are `b`.
pub open spec fn guid_text(b: Seq<u8>) -> Seq<char> {
    Seq::new(36, |i: int| guid_char(b, i))
}

/// The byte written by the two hex digits at text position `i`.
pub open spec fn hex_byte_at(t: Seq<char>, i: int) -> u8 {
    (hex_value(t[i])->Some_0 * 16 + hex_value(t[i + 1])->Some_0) as u8
}

/// Whether `t` has the canonical GUID shape (hex digits of either case).
pub open spec fn guid_text_ok(t: Seq<char>) -> bool {
    &&& t.len() == 36
    &&& forall|i: int| 0 <= i < 36 && is_guid_dash_pos(i) ==> t[i] == '-'
    &&& forall|i: int| 0 <= i < 36 && !is_guid_dash_pos(i) ==> hex_value(t[i]) is Some
}

/// The sixteen on-disk bytes of the GUID written as `t`, if it is one.
pub open spec fn guid_from_text(t: Seq<char>) -> Option<Seq<u8>> {
    if guid_text_ok(t) {
        Some(Seq::new(16, |j: int| hex_byte_at(t, guid_char_pos(guid_display_byte(j)))))
    } else {
        None
    }
}

/// A GUID as RFC 4122 lays it out.
#[derive(Debug, Clone, Copy)]
pub struct Guid {
    pub time_low: u32,
    pub time_mid: u16,
    pub time_high_and_version: u16,
    pub clock_seq_high_and_reserved: u8,
    pub clock_seq_low: u8,
    pub node_identifier: [u8; 6],
}

impl Guid {
    /// The sixteen bytes this GUID is stored as on disk.
    pub open spec fn spec_bytes(&self) -> Seq<u8> {
        Seq::new(
            16,
            |j: int|
                if j < 4 {
                    ((self.time_low as int / pow2_8(j)) % 256) as u8
                } else if j < 6 {
                    ((self.time_mid as int / pow2_8(j - 4)) % 256) as u8
                } else if j < 8 {
                    ((self.time_high_and_version as int / pow2_8(j - 6)) % 256) as u8
                } else if j == 8 {
                    self.clock_seq_high_and_reserved
                } else if j == 9 {
                    self.clock_seq_low
                } else {
                    self.node_identifier@[j - 10]
                },
        )
    }

    /// Decodes the sixteen on-disk bytes of a GUID.
    pub fn new(bytes: [u8; 16]) -> (r: Self)
        ensures
            r.spec_bytes() == bytes@,
            r.time_low as int == le_u32_at(bytes@, 0),
            r.time_mid as int == le_u16_at(bytes@, 4),
            r.time_high_and_version as int == le_u16_at(bytes@, 6),
    {
        let b = bytes.as_slice();
        let node_identifier = [bytes[10], bytes[11], bytes[12], bytes[13], bytes[14], bytes[15]];
        let r = Guid {
            time_low: le32(b, 0),
            time_mid: le16(b, 4),
            time_high_and_version: le16(b, 6),
            clock_seq_high_and_reserved: bytes[8],
            clock_seq_low: bytes[9],
            node_identifier,
        };
        assert(node_identifier@ =~= bytes@.subrange(10, 16));
        proof {
            lemma_le32_bytes(bytes@, 0);
            lemma_le16_bytes(bytes@, 4);
            lemma_le16_bytes(bytes@, 6);
        }
        assert(r.spec_bytes() =~= bytes@);
        r
    }

    /// The sixteen bytes this GUID is stored as on disk.
    pub fn to_bytes(&self) -> (r: [u8; 16])
        ensures
            r@ == self.spec_bytes(),
    {
        let t = self.time_low;
        let m = self.time_mid;
        let h = self.time_high_and_version;
        let n = self.node_identifier;
        let r = [
            (t % 256) as u8,
            (t / 256 % 256) as u8,
            (t / 65536 % 256) as u8,
            (t / 16777216 % 256) as u8,
            (m % 256) as u8,
            (m / 256 % 256) as u8,
            (h % 256) as u8,
            (h / 256 % 256) as u8,
            self.clock_seq_high_and_reserved,
            self.clock_seq_low,
            n[0],
            n[1],
            n[2],
            n[3],
            n[4],
            n[5],
        ];
        assert(r@ =~= self.spec_bytes());
        r
    }

    /// Canonical uppercase text, e.g. `C12A7328-F81F-11D2-BA4B-00A0C93EC93B`.
    pub fn to_string(&self) -> (r: String)
        ensures
            r@ == guid_text(self.spec_bytes()),
    {
        let bytes = self.to_bytes();
        let digits: [char; 16] = [
            '0', '1', '2', '3', '4', '5', '6', '7', '8', '9', 'A', 'B', 'C', 'D', 'E', 'F',
        ];
        assert(digits@ =~= hex_digits());
        let ghost b = bytes@;
        let mut s = String::new();
        let mut k: usize = 0;
        while k < 16
            invariant
                k <= 16,
                b == bytes@,
                b.len() == 16,
                digits@ == hex_digits(),
                s@ =~= guid_text(b).subrange(0, guid_char_pos(k as int) - (if k == 4 || k == 6 || k == 8 || k == 10 { 1int } else { 0 })),
            decreases 16 - k,
        {
            if k == 4 || k == 6 || k == 8 || k == 10 {
                push_char(&mut s, '-');
            }
            let j: usize = if k < 4 {
                3 - k
            } else if k < 6 {
                9 - k
            } else if k < 8 {
                13 - k
            } else {
                k
            };
            let v = bytes[j];
            push_char(&mut s, digits[(v / 16) as usize]);
            push_char(&mut s, digits[(v % 16) as usize]);
            k = k + 1;
        }
        s
    }
}



/// The value of a hexadecimal digit of either case.
fn hex_val(c: char) -> (r: Option<u8>)
    ensures
        r == hex_value(c),
{
    match c {
        '0' => Some(0u8),
        '1' => Some(1u8),
        '2' => Some(2u8),
        '3' => Some(3u8),
        '4' => Some(4u8),
        '5' => Some(5u8),
        '6' => Some(6u8),
        '7' => Some(7u8),
        '8' => Some(8u8),
        '9' => Some(9u8),
        'A' | 'a' => Some(10u8),
        'B' | 'b' => Some(11u8),
        'C' | 'c' => Some(12u8),
        'D' | 'd' => Some(13u8),
        'E' | 'e' => Some(14u8),
        'F' | 'f' => Some(15u8),
        _ => None,
    }
}

/// Whether `text` has the canonical GUID shape.
fn guid_text_shape(text: &str) -> (r: bool)
    ensures
        r == guid_text_ok(text@),
{
    let n = text.unicode_len();
    if n != 36 {
        return false;
    }
    let mut i: usize = 0;
    while i < 36
        invariant
            n == 36 == text@.len(),
            i <= 36,
            forall|p: int| 0 <= p < i && is_guid_dash_pos(p) ==> text@[p] == '-',
            forall|p: int| 0 <= p < i && !is_guid_dash_pos(p) ==> hex_value(text@[p]) is Some,
        decreases 36 - i,
    {
        let c = text.get_char(i);
        if i == 8 || i == 13 || i == 18 || i == 23 {
            if c != '-' {
                assert(is_guid_dash_pos(i as int) && text@[i as int] != '-');
                return false;
            }
        } else if hex_val(c).is_none() {
            assert(!is_guid_dash_pos(i as int) && hex_value(text@[i as int]) is None);
            return false;
        }
        i = i + 1;
    }
    true
}

/// The byte written at the text position of the `j`-th on-disk byte.
fn guid_text_byte(text: &str, j: usize) -> (r: u8)
    requires
        guid_text_ok(text@),
        j < 16,
    ensures
        r == hex_byte_at(text@, guid_char_pos(guid_display_byte(j as int))),
{
    let k: usize = if j < 4 {
        3 - j
    } else if j < 6 {
        9 - j
    } else if j < 8 {
        13 - j
    } else {
        j
    };
    let d: usize = (if k >= 4 { 1usize } else { 0 }) + (if k >= 6 { 1usize } else { 0 }) + (if k
        >= 8 {
        1usize
    } else {
        0
    }) + (if k >= 10 { 1usize } else { 0 });
    let p = 2 * k + d;
    assert(p as int == guid_char_pos(guid_display_byte(j as int)));
    assert(p + 1 < 36 && !is_guid_dash_pos(p as int) && !is_guid_dash_pos(p + 1));
    let hi = hex_val(text.get_char(p)).unwrap();
    let lo = hex_val(text.get_char(p + 1)).unwrap();
    hi * 16 + lo
}

impl Guid {
    /// Reads a GUID from its canonical text (hex digits of either case).
    pub fn parse(text: &str) -> (r: Option<Guid>)
        ensures
            match r {
                Some(g) => guid_from_text(text@) == Some(g.spec_bytes()),
                None => guid_from_text(text@) is None,
            },
    {
        if !guid_text_shape(text) {
            return None;
        }
        let mut v: Vec<u8> = Vec::with_capacity(16);
        let mut j: usize = 0;
        while j < 16
            invariant
                guid_text_ok(text@),
                j <= 16,
                v@ =~= guid_from_text(text@)->Some_0.subrange(0, j as int),
            decreases 16 - j,
        {
            v.push(guid_text_byte(text, j));
            j = j + 1;
        }
        let bytes: [u8; 16] = [
            v[0], v[1], v[2], v[3], v[4], v[5], v[6], v[7], v[8], v[9], v[10], v[11], v[12], v[13],
            v[14], v[15],
        ];
        assert(bytes@ =~= v@);
        Some(Guid::new(bytes))
    }
}

/// GUID text round trip: decoding sixteen bytes as a GUID, writing its
/// canonical text and reading that text back yields the same sixteen bytes.
pub proof fn lemma_guid_round_trip(b: Seq<u8>)
    requires
        b.len() == 16,
    ensures
        guid_text(b).len() == 36,
        guid_from_text(guid_text(b)) == Some(b),
{
    let t = guid_text(b);
    assert forall|n: int| 0 <= n < 16 implies #[trigger] hex_value(hex_digits()[n]) == Some(n as u8) by {
        assert(hex_digits()[n] == seq!['0', '1', '2', '3', '4', '5', '6', '7', '8', '9', 'A', 'B', 'C', 'D', 'E', 'F'][n]);
    }
    assert forall|i: int| 0 <= i < 36 && !is_guid_dash_pos(i) implies hex_value(t[i]) is Some by {
        let d = (if i > 8 { 1int } else { 0 }) + (if i > 13 { 1int } else { 0 }) + (if i > 18 {
            1int
        } else {
            0
        }) + (if i > 23 { 1int } else { 0 });
        let v = b[guid_display_byte((i - d) / 2)];
        assert(0 <= v as int / 16 < 16);
        assert(0 <= v as int % 16 < 16);
    }
    assert(guid_text_ok(t));
    assert forall|j: int| 0 <= j < 16 implies hex_byte_at(t, guid_char_pos(guid_display_byte(j)))
        == b[j] by {
        let k = guid_display_byte(j);
        let p = guid_char_pos(k);
        let v = b[j];
        assert(guid_display_byte(k) == j);
        assert(0 <= v as int / 16 < 16);
        assert(0 <= v as int % 16 < 16);
        assert(t[p] == hex_digits()[v as int / 16]);
        assert(t[p + 1] == hex_digits()[v as int % 16]);
    }
    assert(guid_from_text(t)->Some_0 =~= b);
}

/// One step of the reflected CRC-32 register (polynomial `0xEDB88320`).
pub open spec fn crc32_shift(c: u32) -> u32 {
    if c & 1 == 1 {
        (c >> 1) ^ 0xEDB8_8320u32
    } else {
        c >> 1
    }
}

/// `n` steps of the CRC-32 register.
pub open spec fn crc32_shifts(c: u32, n: nat) -> u32
    decreases n,
{
    if n == 0 {
        c
    } else {
        crc32_shifts(crc32_shift(c), (n - 1) as nat)
    }
}

/// The CRC-32 register after the bytes `b`, starting from `0xFFFFFFFF`.
pub open spec fn crc32_register(b: Seq<u8>) -> u32
    decreases b.len(),
{
    if b.len() == 0 {
        0xFFFF_FFFFu32
    } else {
        crc32_shifts(crc32_register(b.drop_last()) ^ (b.last() as u32), 8)
    }
}

/// IEEE 802.3 CRC-32 of `b`: the final register, bitwise inverted.
pub open spec fn crc32(b: Seq<u8>) -> u32 {
    !crc32_register(b)
}

/// Computes the IEEE 802.3 CRC-32 of `bytes`.
pub fn calculate_crc32(bytes: &[u8]) -> (r: u32)
    ensures
        r == crc32(bytes@),
{
    let mut crc: u32 = 0xFFFF_FFFF;
    let mut i: usize = 0;
    while i < bytes.len()
        invariant
            i <= bytes@.len(),
            crc == crc32_register(bytes@.subrange(0, i as int)),
        decreases bytes@.len() - i,
    {
        let ghost start = crc ^ (bytes@[i as int] as u32);
        crc = crc ^ (bytes[i] as u32);
        let mut bit: usize = 0;
        while bit < 8
            invariant
                bit <= 8,
                crc32_shifts(start, 8) == crc32_shifts(crc, (8 - bit) as nat),
            decreases 8 - bit,
        {
            if crc & 1 == 1 {
                crc = (crc >> 1) ^ 0xEDB8_8320;
            } else {
                crc = crc >> 1;
            }
            bit = bit + 1;
        }
        assert(bytes@.subrange(0, i + 1).drop_last() =~= bytes@.subrange(0, i as int));
        i = i + 1;
    }
    assert(bytes@.subrange(0, bytes@.len() as int) =~= bytes@);
    !crc
}

/// Offset of the header's own CRC-32 field.
pub const HEADER_CRC_OFFSET: usize = 16;


/// The header bytes `h` with the CRC field zeroed.
pub open spec fn zero_crc_field(h: Seq<u8>) -> Seq<u8> {
    h.update(16, 0).update(17, 0).update(18, 0).update(19, 0)
}

/// The header bytes `h` with `crc` stored little-endian in the CRC field.
pub open spec fn write_crc_field(h: Seq<u8>, crc: u32) -> Seq<u8> {
    h.update(16, le_byte(crc, 0)).update(17, le_byte(crc, 1)).update(18, le_byte(crc, 2)).update(
        19,
        le_byte(crc, 3),
    )
}

/// A header whose stored CRC is the CRC-32 of the header with that field
/// zeroed.
pub open spec fn header_crc_matches(h: Seq<u8>, crc: u32) -> bool {
    h.len() >= 20 && crc32(zero_crc_field(h)) == crc
}

/// Whether `crc32` is the CRC-32 of `header_bytes` with its CRC field zeroed.
/// A header too short to hold that field never matches.
pub fn is_valid_header_crc32(header_bytes: &[u8], crc32: u32) -> (r: bool)
    ensures
        r == header_crc_matches(header_bytes@, crc32),
{
    if header_bytes.len() < 20 {
        return false;
    }
    let mut h = slice_range(header_bytes, 0, header_bytes.len());
    h.set(16, 0);
    h.set(17, 0);
    h.set(18, 0);
    h.set(19, 0);
    assert(h@ =~= zero_crc_field(header_bytes@));
    calculate_crc32(h.as_slice()) == crc32
}

/// Stores in the CRC field of `header` the CRC-32 of the header with that
/// field zeroed.
pub fn write_header_crc32(header: &mut Vec<u8>)
    requires
        old(header)@.len() >= 20,
    ensures
        final(header)@ == write_crc_field(old(header)@, crc32(zero_crc_field(old(header)@))),
{
    let ghost h0 = header@;
    header.set(16, 0);
    header.set(17, 0);
    header.set(18, 0);
    header.set(19, 0);
    assert(header@ =~= zero_crc_field(h0));
    let crc = calculate_crc32(header.as_slice());
    header.set(16, (crc % 256) as u8);
    header.set(17, (crc / 256 % 256) as u8);
    header.set(18, (crc / 65536 % 256) as u8);
    header.set(19, (crc / 16777216 % 256) as u8);
    assert(header@ =~= write_crc_field(h0, crc));
}


/// CRC self-check: after the CRC of a header (with the field zeroed) is
/// written into its field, zeroing the field again and computing the CRC
/// gives exactly the value stored there.
pub proof fn lemma_header_crc_self_check(h: Seq<u8>)
    requires
        h.len() >= 20,
    ensures
        ({
            let w = write_crc_field(h, crc32(zero_crc_field(h)));
            &&& header_crc_matches(w, le_u32_at(w, 16) as u32)
            &&& crc32(zero_crc_field(w)) == le_u32_at(w, 16)
        }),
{
    let c = crc32(zero_crc_field(h));
    let w = write_crc_field(h, c);
    assert(zero_crc_field(w) =~= zero_crc_field(h));
    lemma_le_bytes_u32(c);
}

/// Name of the partition type whose GUID has the canonical text `t`.
pub open spec fn gpt_type_name(t: Seq<char>) -> Seq<char> {
    if t == "C12A7328-F81F-11D2-BA4B-00A0C93EC93B"@ {
        "EFI System"@
    } else if t == "024DEE41-33E7-11D3-9D69-0008C781F39F"@ {
        "MBR partition scheme"@
    } else if t == "D3BFE2DE-3DAF-11DF-BA40-E3A556D89593"@ {
        "Intel Fast Flash"@
    } else if t == "21686148-6449-6E6F-744E-656564454649"@ {
        "BIOS boot"@
    } else if t == "F4019732-066E-4E12-8273-346C5641494F"@ {
        "Sony boot partition"@
    } else if t == "BFBFAFE7-A34F-448A-9A5B-6213EB736C22"@ {
        "Lenovo boot partition"@
    } else if t == "9E1A2D38-C612-4316-AA26-8B49521E5A8B"@ {
        "PowerPC PReP boot"@
    } else if t == "7412F7D5-A156-4B13-81DC-867174929325"@ {
        "ONIE boot"@
    } else if t == "D4E6E2CD-4469-46F3-B5CB-1BFF57AFC149"@ {
        "ONIE config"@
    } else if t == "E3C9E316-0B5C-4DB8-817D-F92DF00215AE"@ {
        "Microsoft reserved"@
    } else if t == "EBD0A0A2-B9E5-4433-87C0-68B6B72699C7"@ {
        "Microsoft basic data"@
    } else if t == "5808C8AA-7E8F-42E0-85D2-E1E90434CFB3"@ {
        "Microsoft LDM metadata"@
    } else if t == "AF9B60A0-1431-4F62-BC68-3311714A69AD"@ {
        "Microsoft LDM data"@
    } else if t == "DE94BBA4-06D1-4D40-A16A-BFD50179D6AC"@ {
        "Windows recovery environment"@
    } else if t == "37AFFC90-EF7D-4E96-91C3-2D7AE055B174"@ {
        "IBM General Parallel Fs"@
    } else if t == "E75CAF8F-F680-4CEE-AFA3-B001E56EFC2D"@ {
        "Microsoft Storage Spaces"@
    } else if t == "75894C1E-3AEB-11D3-B7C1-7B03A0000000"@ {
        "HP-UX data"@
    } else if t == "E2A1E728-32E3-11D6-A682-7B03A0000000"@ {
        "HP-UX service"@
    } else if t == "0657FD6D-A4AB-43C4-84E5-0933C84B4F4F"@ {
        "Linux swap"@
    } else if t == "0FC63DAF-8483-4772-8E79-3D69D8477DE4"@ {
        "Linux filesystem"@
    } else if t == "3B8F8425-20E0-4F3B-907F-1A25A76F98E8"@ {
        "Linux server data"@
    } else if t == "44479540-F297-41B2-9AF7-D131D5F0458A"@ {
        "Linux root (x86)"@
    } else if t == "69DAD710-2CE4-4E3C-B16C-21A1D49ABED3"@ {
        "Linux root (ARM)"@
    } else if t == "4F68BCE3-E8CD-4DB1-96E7-FBCAF984B709"@ {
        "Linux root (x86-64)"@
    } else if t == "B921B045-1DF0-41C3-AF44-4C6F280D3FAE"@ {
        "Linux root (ARM-64)"@
    } else if t == "993D8D3D-F80E-4225-855A-9DAF8ED7EA97"@ {
        "Linux root  (IA-64)"@
    } else if t == "8DA63339-0007-60C0-C436-083AC8230908"@ {
        "Linux reserved"@
    } else if t == "933AC7E1-2EB4-4F13-B844-0E14E2AEF915"@ {
        "Linux home"@
    } else if t == "A19D880F-05FC-4D3B-A006-743F0F84911E"@ {
        "Linux RAID"@
    } else if t == "BC13C2FF-59E6-4262-A352-B275FD6F7172"@ {
        "Linux extended boot"@
    } else if t == "E6D6D379-F507-44C2-A23C-238F2A3DF928"@ {
        "Linux LVM"@
    } else if t == "516E7CB4-6ECF-11D6-8FF8-00022D09712B"@ {
        "FreeBSD data"@
    } else if t == "83BD6B9D-7F41-11DC-BE0B-001560B84F0F"@ {
        "FreeBSD boot"@
    } else if t == "516E7CB5-6ECF-11D6-8FF8-00022D09712B"@ {
        "FreeBSD swap"@
    } else if t == "516E7CB6-6ECF-11D6-8FF8-00022D09712B"@ {
        "FreeBSD UFS"@
    } else if t == "516E7CBA-6ECF-11D6-8FF8-00022D09712B"@ {
        "FreeBSD ZFS"@
    } else if t == "516E7CB8-6ECF-11D6-8FF8-00022D09712B"@ {
        "FreeBSD Vinum"@
    } else if t == "48465300-0000-11AA-AA11-00306543ECAC"@ {
        "Apple HFS/HFS+"@
    } else if t == "55465300-0000-11AA-AA11-00306543ECAC"@ {
        "Apple UFS"@
    } else if t == "52414944-0000-11AA-AA11-00306543ECAC"@ {
        "Apple RAID"@
    } else if t == "52414944-5F4F-11AA-AA11-00306543ECAC"@ {
        "Apple RAID offline"@
    } else if t == "426F6F74-0000-11AA-AA11-00306543ECAC"@ {
        "Apple boot"@
    } else if t == "4C616265-6C00-11AA-AA11-00306543ECAC"@ {
        "Apple label"@
    } else if t == "5265636F-7665-11AA-AA11-00306543ECAC"@ {
        "Apple TV recovery"@
    } else if t == "53746F72-6167-11AA-AA11-00306543ECAC"@ {
        "Apple Core storage"@
    } else if t == "6A82CB45-1DD2-11B2-99A6-080020736631"@ {
        "Solaris boot"@
    } else if t == "6A85CF4D-1DD2-11B2-99A6-080020736631"@ {
        "Solaris root"@
    } else if t == "6A898CC3-1DD2-11B2-99A6-080020736631"@ {
        "Solaris /usr & Apple ZFS"@
    } else if t == "6A87C46F-1DD2-11B2-99A6-080020736631"@ {
        "Solaris swap"@
    } else if t == "6A8B642B-1DD2-11B2-99A6-080020736631"@ {
        "Solaris backup"@
    } else if t == "6A8EF2E9-1DD2-11B2-99A6-080020736631"@ {
        "Solaris /var"@
    } else if t == "6A90BA39-1DD2-11B2-99A6-080020736631"@ {
        "Solaris /home"@
    } else if t == "6A9283A5-1DD2-11B2-99A6-080020736631"@ {
        "Solaris alternate sector"@
    } else if t == "6A945A3B-1DD2-11B2-99A6-080020736631"@ {
        "Solaris reserved 1"@
    } else if t == "6A9630D1-1DD2-11B2-99A6-080020736631"@ {
        "Solaris reserved 2"@
    } else if t == "6A980767-1DD2-11B2-99A6-080020736631"@ {
        "Solaris reserved 3"@
    } else if t == "6A96237F-1DD2-11B2-99A6-080020736631"@ {
        "Solaris reserved 4"@
    } else if t == "6A8D2AC7-1DD2-11B2-99A6-080020736631"@ {
        "Solaris reserved 5"@
    } else if t == "49F48D32-B10E-11DC-B99B-0019D1879648"@ {
        "NetBSD swap"@
    } else if t == "49F48D5A-B10E-11DC-B99B-0019D1879648"@ {
        "NetBSD FFS"@
    } else if t == "49F48D82-B10E-11DC-B99B-0019D1879648"@ {
        "NetBSD LFS"@
    } else if t == "2DB519C4-B10E-11DC-B99B-0019D1879648"@ {
        "NetBSD concatenated"@
    } else if t == "2DB519EC-B10E-11DC-B99B-0019D1879648"@ {
        "NetBSD encrypted"@
    } else if t == "49F48DAA-B10E-11DC-B99B-0019D1879648"@ {
        "NetBSD RAID"@
    } else if t == "FE3A2A5D-4F32-41A7-B725-ACCC3285A309"@ {
        "ChromeOS kernel"@
    } else if t == "3CB8E202-3B7E-47DD-8A3C-7FF2A13CFCEC"@ {
        "ChromeOS root fs"@
    } else if t == "2E0A753D-9E48-43B0-8337-B15192CB1B5E"@ {
        "ChromeOS reserved"@
    } else if t == "85D5E45A-237C-11E1-B4B3-E89A8F7FC3A7"@ {
        "MidnightBSD data"@
    } else if t == "85D5E45E-237C-11E1-B4B3-E89A8F7FC3A7"@ {
        "MidnightBSD boot"@
    } else if t == "85D5E45B-237C-11E1-B4B3-E89A8F7FC3A7"@ {
        "MidnightBSD swap"@
    } else if t == "0394EF8B-237E-11E1-B4B3-E89A8F7FC3A7"@ {
        "MidnightBSD UFS"@
    } else if t == "85D5E45D-237C-11E1-B4B3-E89A8F7FC3A7"@ {
        "MidnightBSD ZFS"@
    } else if t == "85D5E45C-237C-11E1-B4B3-E89A8F7FC3A7"@ {
        "MidnightBSD Vinum"@
    } else if t == "45B0969E-9B03-4F30-B4C6-B4B80CEFF106"@ {
        "Ceph Journal"@
    } else if t == "45B0969E-9B03-4F30-B4C6-5EC00CEFF106"@ {
        "Ceph Encrypted Journal"@
    } else if t == "4FBD7E29-9D25-41B8-AFD0-062C0CEFF05D"@ {
        "Ceph OSD"@
    } else if t == "4FBD7E29-9D25-41B8-AFD0-5EC00CEFF05D"@ {
        "Ceph crypt OSD"@
    } else if t == "89C57F98-2FE5-4DC0-89C1-F3AD0CEFF2BE"@ {
        "Ceph disk in creation"@
    } else if t == "89C57F98-2FE5-4DC0-89C1-5EC00CEFF2BE"@ {
        "Ceph crypt disk in creation"@
    } else if t == "AA31E02A-400F-11DB-9590-000C2911D1B8"@ {
        "VMware VMFS"@
    } else if t == "9D275380-40AD-11DB-BF97-000C2911D1B8"@ {
        "VMware Diagnostic"@
    } else if t == "381CFCCC-7288-11E0-92EE-000C2911D0B2"@ {
        "VMware Virtual SAN"@
    } else if t == "77719A0C-A4A0-11E3-A47E-000C29745A24"@ {
        "VMware Virsto"@
    } else if t == "9198EFFC-31C0-11DB-8F78-000C2911D1B8"@ {
        "VMware Reserved"@
    } else if t == "824CC7A0-36A8-11E3-890A-952519AD3F61"@ {
        "OpenBSD data"@
    } else if t == "CEF5A9AD-73BC-4601-89F3-CDEEEEE321A1"@ {
        "QNX6 file system"@
    } else if t == "C91818F9-8025-47AF-89D2-F030D7000C2C"@ {
        "Plan 9 partition"@
    } else if t == "5B193300-FC78-40CD-8002-E86C45580B47"@ {
        "HiFive Unleashed FSBL"@
    } else if t == "2E54B353-1271-4842-806F-E436D6AF6985"@ {
        "HiFive Unleashed BBL"@
    } else {
        "Unknown Partition Type"@
    }
}

/// Whether the text `t` is exactly `lit`.
fn text_is(t: &String, lit: &str) -> (r: bool)
    ensures
        r == (t@ == lit@),
{
    *t == <String as vstd::string::StringExecFns>::from_str(lit)
}

/// Name of a partition type GUID; unknown GUIDs are "Unknown Partition Type".
pub fn lookup_partition_type(partition_type: Guid) -> (r: String)
    ensures
        r@ == gpt_type_name(guid_text(partition_type.spec_bytes())),
{
    let t = partition_type.to_string();
    let name: &str = if text_is(&t, "C12A7328-F81F-11D2-BA4B-00A0C93EC93B") {
        "EFI System"
    } else if text_is(&t, "024DEE41-33E7-11D3-9D69-0008C781F39F") {
        "MBR partition scheme"
    } else if text_is(&t, "D3BFE2DE-3DAF-11DF-BA40-E3A556D89593") {
        "Intel Fast Flash"
    } else if text_is(&t, "21686148-6449-6E6F-744E-656564454649") {
        "BIOS boot"
    } else if text_is(&t, "F4019732-066E-4E12-8273-346C5641494F") {
        "Sony boot partition"
    } else if text_is(&t, "BFBFAFE7-A34F-448A-9A5B-6213EB736C22") {
        "Lenovo boot partition"
    } else if text_is(&t, "9E1A2D38-C612-4316-AA26-8B49521E5A8B") {
        "PowerPC PReP boot"
    } else if text_is(&t, "7412F7D5-A156-4B13-81DC-867174929325") {
        "ONIE boot"
    } else if text_is(&t, "D4E6E2CD-4469-46F3-B5CB-1BFF57AFC149") {
        "ONIE config"
    } else if text_is(&t, "E3C9E316-0B5C-4DB8-817D-F92DF00215AE") {
        "Microsoft reserved"
    } else if text_is(&t, "EBD0A0A2-B9E5-4433-87C0-68B6B72699C7") {
        "Microsoft basic data"
    } else if text_is(&t, "5808C8AA-7E8F-42E0-85D2-E1E90434CFB3") {
        "Microsoft LDM metadata"
    } else if text_is(&t, "AF9B60A0-1431-4F62-BC68-3311714A69AD") {
        "Microsoft LDM data"
    } else if text_is(&t, "DE94BBA4-06D1-4D40-A16A-BFD50179D6AC") {
        "Windows recovery environment"
    } else if text_is(&t, "37AFFC90-EF7D-4E96-91C3-2D7AE055B174") {
        "IBM General Parallel Fs"
    } else if text_is(&t, "E75CAF8F-F680-4CEE-AFA3-B001E56EFC2D") {
        "Microsoft Storage Spaces"
    } else if text_is(&t, "75894C1E-3AEB-11D3-B7C1-7B03A0000000") {
        "HP-UX data"
    } else if text_is(&t, "E2A1E728-32E3-11D6-A682-7B03A0000000") {
        "HP-UX service"
    } else if text_is(&t, "0657FD6D-A4AB-43C4-84E5-0933C84B4F4F") {
        "Linux swap"
    } else if text_is(&t, "0FC63DAF-8483-4772-8E79-3D69D8477DE4") {
        "Linux filesystem"
    } else if text_is(&t, "3B8F8425-20E0-4F3B-907F-1A25A76F98E8") {
        "Linux server data"
    } else if text_is(&t, "44479540-F297-41B2-9AF7-D131D5F0458A") {
        "Linux root (x86)"
    } else if text_is(&t, "69DAD710-2CE4-4E3C-B16C-21A1D49ABED3") {
        "Linux root (ARM)"
    } else if text_is(&t, "4F68BCE3-E8CD-4DB1-96E7-FBCAF984B709") {
        "Linux root (x86-64)"
    } else if text_is(&t, "B921B045-1DF0-41C3-AF44-4C6F280D3FAE") {
        "Linux root (ARM-64)"
    } else if text_is(&t, "993D8D3D-F80E-4225-855A-9DAF8ED7EA97") {
        "Linux root  (IA-64)"
    } else if text_is(&t, "8DA63339-0007-60C0-C436-083AC8230908") {
        "Linux reserved"
    } else if text_is(&t, "933AC7E1-2EB4-4F13-B844-0E14E2AEF915") {
        "Linux home"
    } else if text_is(&t, "A19D880F-05FC-4D3B-A006-743F0F84911E") {
        "Linux RAID"
    } else if text_is(&t, "BC13C2FF-59E6-4262-A352-B275FD6F7172") {
        "Linux extended boot"
    } else if text_is(&t, "E6D6D379-F507-44C2-A23C-238F2A3DF928") {
        "Linux LVM"
    } else if text_is(&t, "516E7CB4-6ECF-11D6-8FF8-00022D09712B") {
        "FreeBSD data"
    } else if text_is(&t, "83BD6B9D-7F41-11DC-BE0B-001560B84F0F") {
        "FreeBSD boot"
    } else if text_is(&t, "516E7CB5-6ECF-11D6-8FF8-00022D09712B") {
        "FreeBSD swap"
    } else if text_is(&t, "516E7CB6-6ECF-11D6-8FF8-00022D09712B") {
        "FreeBSD UFS"
    } else if text_is(&t, "516E7CBA-6ECF-11D6-8FF8-00022D09712B") {
        "FreeBSD ZFS"
    } else if text_is(&t, "516E7CB8-6ECF-11D6-8FF8-00022D09712B") {
        "FreeBSD Vinum"
    } else if text_is(&t, "48465300-0000-11AA-AA11-00306543ECAC") {
        "Apple HFS/HFS+"
    } else if text_is(&t, "55465300-0000-11AA-AA11-00306543ECAC") {
        "Apple UFS"
    } else if text_is(&t, "52414944-0000-11AA-AA11-00306543ECAC") {
        "Apple RAID"
    } else if text_is(&t, "52414944-5F4F-11AA-AA11-00306543ECAC") {
        "Apple RAID offline"
    } else if text_is(&t, "426F6F74-0000-11AA-AA11-00306543ECAC") {
        "Apple boot"
    } else if text_is(&t, "4C616265-6C00-11AA-AA11-00306543ECAC") {
        "Apple label"
    } else if text_is(&t, "5265636F-7665-11AA-AA11-00306543ECAC") {
        "Apple TV recovery"
    } else if text_is(&t, "53746F72-6167-11AA-AA11-00306543ECAC") {
        "Apple Core storage"
    } else if text_is(&t, "6A82CB45-1DD2-11B2-99A6-080020736631") {
        "Solaris boot"
    } else if text_is(&t, "6A85CF4D-1DD2-11B2-99A6-080020736631") {
        "Solaris root"
    } else if text_is(&t, "6A898CC3-1DD2-11B2-99A6-080020736631") {
        "Solaris /usr & Apple ZFS"
    } else if text_is(&t, "6A87C46F-1DD2-11B2-99A6-080020736631") {
        "Solaris swap"
    } else if text_is(&t, "6A8B642B-1DD2-11B2-99A6-080020736631") {
        "Solaris backup"
    } else if text_is(&t, "6A8EF2E9-1DD2-11B2-99A6-080020736631") {
        "Solaris /var"
    } else if text_is(&t, "6A90BA39-1DD2-11B2-99A6-080020736631") {
        "Solaris /home"
    } else if text_is(&t, "6A9283A5-1DD2-11B2-99A6-080020736631") {
        "Solaris alternate sector"
    } else if text_is(&t, "6A945A3B-1DD2-11B2-99A6-080020736631") {
        "Solaris reserved 1"
    } else if text_is(&t, "6A9630D1-1DD2-11B2-99A6-080020736631") {
        "Solaris reserved 2"
    } else if text_is(&t, "6A980767-1DD2-11B2-99A6-080020736631") {
        "Solaris reserved 3"
    } else if text_is(&t, "6A96237F-1DD2-11B2-99A6-080020736631") {
        "Solaris reserved 4"
    } else if text_is(&t, "6A8D2AC7-1DD2-11B2-99A6-080020736631") {
        "Solaris reserved 5"
    } else if text_is(&t, "49F48D32-B10E-11DC-B99B-0019D1879648") {
        "NetBSD swap"
    } else if text_is(&t, "49F48D5A-B10E-11DC-B99B-0019D1879648") {
        "NetBSD FFS"
    } else if text_is(&t, "49F48D82-B10E-11DC-B99B-0019D1879648") {
        "NetBSD LFS"
    } else if text_is(&t, "2DB519C4-B10E-11DC-B99B-0019D1879648") {
        "NetBSD concatenated"
    } else if text_is(&t, "2DB519EC-B10E-11DC-B99B-0019D1879648") {
        "NetBSD encrypted"
    } else if text_is(&t, "49F48DAA-B10E-11DC-B99B-0019D1879648") {
        "NetBSD RAID"
    } else if text_is(&t, "FE3A2A5D-4F32-41A7-B725-ACCC3285A309") {
        "ChromeOS kernel"
    } else if text_is(&t, "3CB8E202-3B7E-47DD-8A3C-7FF2A13CFCEC") {
        "ChromeOS root fs"
    } else if text_is(&t, "2E0A753D-9E48-43B0-8337-B15192CB1B5E") {
        "ChromeOS reserved"
    } else if text_is(&t, "85D5E45A-237C-11E1-B4B3-E89A8F7FC3A7") {
        "MidnightBSD data"
    } else if text_is(&t, "85D5E45E-237C-11E1-B4B3-E89A8F7FC3A7") {
        "MidnightBSD boot"
    } else if text_is(&t, "85D5E45B-237C-11E1-B4B3-E89A8F7FC3A7") {
        "MidnightBSD swap"
    } else if text_is(&t, "0394EF8B-237E-11E1-B4B3-E89A8F7FC3A7") {
        "MidnightBSD UFS"
    } else if text_is(&t, "85D5E45D-237C-11E1-B4B3-E89A8F7FC3A7") {
        "MidnightBSD ZFS"
    } else if text_is(&t, "85D5E45C-237C-11E1-B4B3-E89A8F7FC3A7") {
        "MidnightBSD Vinum"
    } else if text_is(&t, "45B0969E-9B03-4F30-B4C6-B4B80CEFF106") {
        "Ceph Journal"
    } else if text_is(&t, "45B0969E-9B03-4F30-B4C6-5EC00CEFF106") {
        "Ceph Encrypted Journal"
    } else if text_is(&t, "4FBD7E29-9D25-41B8-AFD0-062C0CEFF05D") {
        "Ceph OSD"
    } else if text_is(&t, "4FBD7E29-9D25-41B8-AFD0-5EC00CEFF05D") {
        "Ceph crypt OSD"
    } else if text_is(&t, "89C57F98-2FE5-4DC0-89C1-F3AD0CEFF2BE") {
        "Ceph disk in creation"
    } else if text_is(&t, "89C57F98-2FE5-4DC0-89C1-5EC00CEFF2BE") {
        "Ceph crypt disk in creation"
    } else if text_is(&t, "AA31E02A-400F-11DB-9590-000C2911D1B8") {
        "VMware VMFS"
    } else if text_is(&t, "9D275380-40AD-11DB-BF97-000C2911D1B8") {
        "VMware Diagnostic"
    } else if text_is(&t, "381CFCCC-7288-11E0-92EE-000C2911D0B2") {
        "VMware Virtual SAN"
    } else if text_is(&t, "77719A0C-A4A0-11E3-A47E-000C29745A24") {
        "VMware Virsto"
    } else if text_is(&t, "9198EFFC-31C0-11DB-8F78-000C2911D1B8") {
        "VMware Reserved"
    } else if text_is(&t, "824CC7A0-36A8-11E3-890A-952519AD3F61") {
        "OpenBSD data"
    } else if text_is(&t, "CEF5A9AD-73BC-4601-89F3-CDEEEEE321A1") {
        "QNX6 file system"
    } else if text_is(&t, "C91818F9-8025-47AF-89D2-F030D7000C2C") {
        "Plan 9 partition"
    } else if text_is(&t, "5B193300-FC78-40CD-8002-E86C45580B47") {
        "HiFive Unleashed FSBL"
    } else if text_is(&t, "2E54B353-1271-4842-806F-E436D6AF6985") {
        "HiFive Unleashed BBL"
    } else {
        "Unknown Partition Type"
    };
    <String as vstd::string::StringExecFns>::from_str(name)
}

/// Whether every byte of `s` is zero.
pub open spec fn all_zero(s: Seq<u8>) -> bool {
    forall|i: int| 0 <= i < s.len() ==> s[i] == 0
}

/// Whether `b[from..to]` is all zero.
fn is_zero_range(b: &[u8], from: usize, to: usize) -> (r: bool)
    requires
        from <= to <= b@.len(),
    ensures
        r == all_zero(b@.subrange(from as int, to as int)),
{
    let mut i: usize = from;
    while i < to
        invariant
            from <= i <= to <= b@.len(),
            forall|j: int| from <= j < i ==> b@[j] == 0,
        decreases to - i,
    {
        if b[i] != 0 {
            assert(b@.subrange(from as int, to as int)[i - from] != 0);
            return false;
        }
        i = i + 1;
    }
    true
}

/// The GUID stored in the sixteen bytes at `at`.
fn guid_at(b: &[u8], at: usize) -> (r: Guid)
    requires
        at + 16 <= b@.len(),
    ensures
        r.spec_bytes() == b@.subrange(at as int, at + 16),
{
    let bytes: [u8; 16] = [
        b[at], b[at + 1], b[at + 2], b[at + 3], b[at + 4], b[at + 5], b[at + 6], b[at + 7], b[at
            + 8], b[at + 9], b[at + 10], b[at + 11], b[at + 12], b[at + 13], b[at + 14], b[at + 15],
    ];
    assert(bytes@ =~= b@.subrange(at as int, at + 16));
    Guid::new(bytes)
}

/// Size in bytes of the GPT header structure.
pub const GPT_HEADER_SIZE: usize = 92;

/// Size in bytes of one GPT partition entry.
pub const GPT_ENTRY_SIZE: usize = 128;

/// The GPT header, kept as its on-disk bytes.
#[derive(Debug)]
pub struct GptHeader {
    raw: Vec<u8>,
}

impl View for GptHeader {
    type V = Seq<u8>;

    closed spec fn view(&self) -> Seq<u8> {
        self.raw@
    }
}

impl GptHeader {
    pub open spec fn wf(&self) -> bool {
        self@.len() == GPT_HEADER_SIZE
    }

    /// Takes the header from its 92 on-disk bytes.
    pub fn from_bytes(raw: Vec<u8>) -> (r: Self)
        requires
            raw@.len() == GPT_HEADER_SIZE,
        ensures
            r@ == raw@,
            r.wf(),
    {
        GptHeader { raw }
    }

    /// The on-disk bytes of the header.
    pub fn to_bytes(&self) -> (r: Vec<u8>)
        ensures
            r@ == self@,
    {
        self.raw.clone()
    }

    /// Whether the eight signature bytes read `EFI PART`.
    pub fn has_signature(&self) -> (r: bool)
        requires
            self.wf(),
        ensures
            r == (self@.subrange(0, 8) == seq![0x45u8, 0x46, 0x49, 0x20, 0x50, 0x41, 0x52, 0x54]),
    {
        let b = self.raw.as_slice();
        let r = b[0] == 0x45 && b[1] == 0x46 && b[2] == 0x49 && b[3] == 0x20 && b[4] == 0x50 && b[5]
            == 0x41 && b[6] == 0x52 && b[7] == 0x54;
        assert(r == (self@.subrange(0, 8) =~= seq![0x45u8, 0x46, 0x49, 0x20, 0x50, 0x41, 0x52, 0x54]));
        r
    }

    /// The signature as text.
    pub fn signature(&self) -> (r: Result<String, DecodeError>)
        requires
            self.wf(),
        ensures
            match r {
                Ok(s) => crate::bytestream::utf8_text(self@.subrange(0, 8)) == Some(s@),
                Err(e) => e == DecodeError::Encoding && crate::bytestream::utf8_text(self@.subrange(0, 8)) is None,
            },
    {
        match crate::bytestream::string_from_utf8(slice_range(self.raw.as_slice(), 0, 8)) {
            Some(s) => Ok(s),
            None => Err(DecodeError::Encoding),
        }
    }

    pub fn header_size(&self) -> (r: u32)
        requires
            self.wf(),
        ensures
            r as int == le_u32_at(self@, 12),
    {
        le32(self.raw.as_slice(), 12)
    }

    pub fn crc32(&self) -> (r: u32)
        requires
            self.wf(),
        ensures
            r as int == le_u32_at(self@, 16),
    {
        le32(self.raw.as_slice(), 16)
    }

    pub fn current_lba(&self) -> (r: u64)
        requires
            self.wf(),
        ensures
            r as int == le_u64_at(self@, 24),
    {
        le64(self.raw.as_slice(), 24)
    }

    pub fn backup_lba(&self) -> (r: u64)
        requires
            self.wf(),
        ensures
            r as int == le_u64_at(self@, 32),
    {
        le64(self.raw.as_slice(), 32)
    }

    pub fn first_usable_lba(&self) -> (r: u64)
        requires
            self.wf(),
        ensures
            r as int == le_u64_at(self@, 40),
    {
        le64(self.raw.as_slice(), 40)
    }

    pub fn last_usable_lba(&self) -> (r: u64)
        requires
            self.wf(),
        ensures
            r as int == le_u64_at(self@, 48),
    {
        le64(self.raw.as_slice(), 48)
    }

    pub fn disk_guid(&self) -> (r: Guid)
        requires
            self.wf(),
        ensures
            r.spec_bytes() == self@.subrange(56, 72),
    {
        guid_at(self.raw.as_slice(), 56)
    }

    pub fn starting_lba_of_partition_entries(&self) -> (r: u64)
        requires
            self.wf(),
        ensures
            r as int == le_u64_at(self@, 72),
    {
        le64(self.raw.as_slice(), 72)
    }

    pub fn number_partition_entries(&self) -> (r: u32)
        requires
            self.wf(),
        ensures
            r as int == le_u32_at(self@, 80),
    {
        le32(self.raw.as_slice(), 80)
    }

    pub fn size_single_partition_entry(&self) -> (r: u32)
        requires
            self.wf(),
        ensures
            r as int == le_u32_at(self@, 84),
    {
        le32(self.raw.as_slice(), 84)
    }

    pub fn crc32_partition_entries(&self) -> (r: u32)
        requires
            self.wf(),
        ensures
            r as int == le_u32_at(self@, 88),
    {
        le32(self.raw.as_slice(), 88)
    }
}

/// The first NUL code unit of `u` is at `n` (or there is none and `n` is
/// the length).
pub open spec fn first_nul_at(u: Seq<u16>, n: int) -> bool {
    &&& 0 <= n <= u.len()
    &&& forall|i: int| 0 <= i < n ==> u[i] != 0
    &&& n < u.len() ==> u[n] == 0
}

/// One GPT partition entry, kept as its 128 on-disk bytes.
#[derive(Debug)]
pub struct GptPartitionTableEntry {
    raw: Vec<u8>,
}

impl View for GptPartitionTableEntry {
    type V = Seq<u8>;

    closed spec fn view(&self) -> Seq<u8> {
        self.raw@
    }
}

impl GptPartitionTableEntry {
    pub open spec fn wf(&self) -> bool {
        self@.len() == GPT_ENTRY_SIZE
    }

    /// Takes an entry from its 128 on-disk bytes.
    pub fn from_bytes(raw: Vec<u8>) -> (r: Self)
        requires
            raw@.len() == GPT_ENTRY_SIZE,
        ensures
            r@ == raw@,
            r.wf(),
    {
        GptPartitionTableEntry { raw }
    }

    /// The on-disk bytes of the entry.
    pub fn to_bytes(&self) -> (r: Vec<u8>)
        ensures
            r@ == self@,
    {
        self.raw.clone()
    }

    /// An entry is empty when every one of its bytes is zero.
    pub fn is_empty(&self) -> (r: bool)
        requires
            self.wf(),
        ensures
            r == all_zero(self@),
    {
        let r = is_zero_range(self.raw.as_slice(), 0, GPT_ENTRY_SIZE);
        assert(self@.subrange(0, 128) =~= self@);
        r
    }

    pub fn partition_type_guid(&self) -> (r: Guid)
        requires
            self.wf(),
        ensures
            r.spec_bytes() == self@.subrange(0, 16),
    {
        guid_at(self.raw.as_slice(), 0)
    }

    pub fn unique_partition_guid(&self) -> (r: Guid)
        requires
            self.wf(),
        ensures
            r.spec_bytes() == self@.subrange(16, 32),
    {
        guid_at(self.raw.as_slice(), 16)
    }

    pub fn starting_lba(&self) -> (r: u64)
        requires
            self.wf(),
        ensures
            r as int == le_u64_at(self@, 32),
    {
        le64(self.raw.as_slice(), 32)
    }

    pub fn ending_lba(&self) -> (r: u64)
        requires
            self.wf(),
        ensures
            r as int == le_u64_at(self@, 40),
    {
        le64(self.raw.as_slice(), 40)
    }

    pub fn attribute_flags(&self) -> (r: u64)
        requires
            self.wf(),
        ensures
            r as int == le_u64_at(self@, 48),
    {
        le64(self.raw.as_slice(), 48)
    }

    /// Number of sectors from the starting to the ending LBA, both included;
    /// 0 when the ending LBA comes first.
    pub fn total_sectors(&self) -> (r: u64)
        requires
            self.wf(),
        ensures
            r as int == if le_u64_at(self@, 40) >= le_u64_at(self@, 32) && le_u64_at(self@, 40) - le_u64_at(self@, 32) < u64::MAX {
                le_u64_at(self@, 40) - le_u64_at(self@, 32) + 1
            } else if le_u64_at(self@, 40) >= le_u64_at(self@, 32) {
                u64::MAX as int
            } else {
                0
            },
    {
        let start = self.starting_lba();
        let end = self.ending_lba();
        if end < start {
            0
        } else if end - start == u64::MAX {
            u64::MAX
        } else {
            end - start + 1
        }
    }

    /// Canonical text of the partition type GUID.
    pub fn get_partition_type_guid(&self) -> (r: String)
        requires
            self.wf(),
        ensures
            r@ == guid_text(self@.subrange(0, 16)),
    {
        self.partition_type_guid().to_string()
    }

    /// The UTF-16LE partition name, up to its first NUL code unit.
    pub fn partition_name(&self) -> (r: Result<String, DecodeError>)
        requires
            self.wf(),
        ensures
            ({
                let u = utf16_units(self@.subrange(56, 128));
                exists|n: int|
                    first_nul_at(u, n) && match r {
                        Ok(s) => utf16_decodes_to(u.subrange(0, n), s@),
                        Err(e) => e == DecodeError::Encoding && !utf16_valid(u.subrange(0, n)),
                    }
            }),
    {
        let ghost u = utf16_units(self@.subrange(56, 128));
        let b = self.raw.as_slice();
        let mut n: usize = 0;
        while n < 36 && !(b[56 + 2 * n] == 0 && b[56 + 2 * n + 1] == 0)
            invariant
                n <= 36,
                b@ == self@,
                b@.len() == 128,
                u == utf16_units(self@.subrange(56, 128)),
                forall|i: int| 0 <= i < n ==> u[i] != 0,
            decreases 36 - n,
        {
            n = n + 1;
        }
        let name_bytes = slice_range(b, 56, 56 + 2 * n);
        assert(utf16_units(name_bytes@) =~= u.subrange(0, n as int));
        assert(first_nul_at(u, n as int));
        interpret_bytes_as_utf16(name_bytes.as_slice())
    }
}

/// The 128 bytes of entry `j` of the entry array `a`, entries `es` bytes
/// apart.
pub open spec fn gpt_slot(a: Seq<u8>, j: int, es: int) -> Seq<u8> {
    a.subrange(j * es, j * es + 128)
}

/// The non-empty entries of the array `a` (`n` entries `es` bytes apart),
/// from entry `j` on, in on-disk order: within the sector where an entry
/// starts, the entries after the first all-zero one are skipped.
/// `blocked` is the sector whose remaining entries are skipped (or -1).
pub open spec fn gpt_walk(a: Seq<u8>, es: int, n: int, j: int, blocked: int) -> Seq<Seq<u8>>
    decreases n - j,
{
    if j >= n || j < 0 {
        Seq::empty()
    } else if (j * es) / 512 == blocked {
        gpt_walk(a, es, n, j + 1, blocked)
    } else if all_zero(gpt_slot(a, j, es)) {
        gpt_walk(a, es, n, j + 1, (j * es) / 512)
    } else {
        seq![gpt_slot(a, j, es)] + gpt_walk(a, es, n, j + 1, blocked)
    }
}

/// The header signature `EFI PART`.
pub open spec fn efi_part() -> Seq<u8> {
    seq![0x45u8, 0x46, 0x49, 0x20, 0x50, 0x41, 0x52, 0x54]
}

/// The GPT header bytes of an image (at LBA 1).
pub open spec fn gpt_header_bytes(img: Seq<u8>) -> Seq<u8> {
    img.subrange(512, 604)
}

/// The partition entry array an image's GPT header points to.
pub open spec fn gpt_entry_array(img: Seq<u8>) -> Seq<u8> {
    let h = gpt_header_bytes(img);
    let start = le_u64_at(h, 72) * 512;
    img.subrange(start, start + le_u32_at(h, 80) * le_u32_at(h, 84))
}

/// The non-empty entries, as on-disk bytes, of an image's GPT.
pub open spec fn gpt_image_entries(img: Seq<u8>) -> Seq<Seq<u8>> {
    let h = gpt_header_bytes(img);
    gpt_walk(gpt_entry_array(img), le_u32_at(h, 84), le_u32_at(h, 80), 0, -1)
}

/// What a GPT scan found: the primary header, whether its CRC and the entry
/// array's CRC matched, and the non-empty entries in on-disk order.
#[derive(Debug)]
pub struct GptPartitions {
    pub header: GptHeader,
    pub header_crc_valid: bool,
    pub entries_crc_valid: bool,
    pub entries: Vec<GptPartitionTableEntry>,
}

/// The entries' on-disk bytes.
pub open spec fn entry_bytes(v: Seq<GptPartitionTableEntry>) -> Seq<Seq<u8>> {
    v.map_values(|e: GptPartitionTableEntry| e@)
}

/// Whether an entry size can hold a 128-byte entry.
pub open spec fn entry_size_ok(es: int) -> bool {
    128 <= es
}

/// How reading an image's GPT fails, if it does.
pub open spec fn gpt_error(img: Seq<u8>) -> Option<DecodeError> {
    let h = img.subrange(512, 604);
    if img.len() < 1024 {
        Some(DecodeError::Io)
    } else if h.subrange(0, 8) != efi_part() {
        Some(DecodeError::Signature)
    } else if !entry_size_ok(le_u32_at(h, 84)) {
        Some(DecodeError::Integrity)
    } else if 512 + le_u32_at(h, 12) > img.len() || le_u64_at(h, 72) * 512 + le_u32_at(h, 80) * le_u32_at(h, 84)
        > img.len() {
        Some(DecodeError::Io)
    } else {
        None
    }
}

/// Reads the GPT of an image: the header at LBA 1 (signature `EFI PART`),
/// both CRCs, and the non-empty entries of the entry array, stepping by the
/// header's entry size; within each sector, entries after the first empty
/// one are skipped. An entry size below 128 bytes is an `Integrity` error.
pub fn parse_gpt(image: &[u8]) -> (r: Result<GptPartitions, DecodeError>)
    ensures
        match r {
            Ok(_) => gpt_error(image@) is None,
            Err(e) => gpt_error(image@) == Some(e),
        },
        match r {
            Ok(t) => {
                let img = image@;
                let h = img.subrange(512, 604);
                let hs = le_u32_at(h, 12);
                let es = le_u32_at(h, 84);
                let start = le_u64_at(h, 72) * 512;
                let total = le_u32_at(h, 80) * es;
                let a = img.subrange(start, start + total);
                &&& img.len() >= 1024
                &&& t.header@ == h
                &&& t.header.wf()
                &&& h.subrange(0, 8) == efi_part()
                &&& entry_size_ok(es)
                &&& 512 + hs <= img.len()
                &&& t.header_crc_valid == header_crc_matches(img.subrange(512, 512 + hs), le_u32_at(h, 16) as u32)
                &&& start + total <= img.len()
                &&& t.entries_crc_valid == (crc32(a) == le_u32_at(h, 88))
                &&& forall|i: int| 0 <= i < t.entries@.len() ==> (#[trigger] t.entries@[i]).wf()
                &&& entry_bytes(t.entries@) == gpt_image_entries(img)
            },
            Err(e) => {
                let img = image@;
                let h = img.subrange(512, 604);
                ||| e == DecodeError::Io && img.len() < 1024
                ||| e == DecodeError::Signature && img.len() >= 1024 && h.subrange(0, 8) != efi_part()
                ||| e == DecodeError::Integrity && img.len() >= 1024 && h.subrange(0, 8) == efi_part()
                    && !entry_size_ok(le_u32_at(h, 84))
                ||| e == DecodeError::Io && img.len() >= 1024 && h.subrange(0, 8) == efi_part()
                    && entry_size_ok(le_u32_at(h, 84)) && (512 + le_u32_at(h, 12) > img.len()
                    || le_u64_at(h, 72) * 512 + le_u32_at(h, 80) * le_u32_at(h, 84) > img.len())
            },
        },
{
    let mut stream = ByteStream::new(image, SECTOR_SIZE, 1)?;
    let raw = stream.read_byte_array(GPT_HEADER_SIZE).unwrap();
    let header = GptHeader::from_bytes(raw);
    assert(header@ =~= image@.subrange(512, 604));
    if !header.has_signature() {
        return Err(DecodeError::Signature);
    }
    let es = header.size_single_partition_entry() as usize;
    if es < GPT_ENTRY_SIZE {
        return Err(DecodeError::Integrity);
    }
    let header_bytes = stream.read_raw_bytes_from_file(SECTOR_SIZE, header.header_size() as usize)?;
    let header_crc_valid = is_valid_header_crc32(header_bytes.as_slice(), header.crc32());

    let len = image.len();
    let start_lba = header.starting_lba_of_partition_entries();
    let count = header.number_partition_entries() as u64;
    if start_lba > (len / SECTOR_SIZE) as u64 {
        return Err(DecodeError::Io);
    }
    let start = start_lba as usize * SECTOR_SIZE;
    let ghost room: int = (len - start) as int;
    let ghost e: int = es as int;
    let ghost c: int = count as int;
    proof {
        vstd::arithmetic::div_mod::lemma_fundamental_div_mod(room, e);
    }
    let q = (len - start) / es;
    assert(q as int == room / e);
    if count > q as u64 {
        assert(c * e > room) by (nonlinear_arith)
            requires
                c > room / e,
                room == e * (room / e) + room % e,
                room % e < e,
                e > 0,
        ;
        return Err(DecodeError::Io);
    }
    assert(c * e <= room) by (nonlinear_arith)
        requires
            c <= room / e,
            room == e * (room / e) + room % e,
            room % e >= 0,
            e > 0,
    ;
    let total = count as usize * es;
    let array = stream.read_raw_bytes_from_file(start, total).unwrap();
    let entries_crc_valid = calculate_crc32(array.as_slice()) == header.crc32_partition_entries();

    let a = array.as_slice();
    let n = count as usize;
    let ghost whole = gpt_walk(a@, es as int, n as int, 0, -1);
    let mut entries: Vec<GptPartitionTableEntry> = Vec::new();
    let mut blocked: Option<usize> = None;
    let mut j: usize = 0;
    while j < n
        invariant
            j <= n,
            total == n * es,
            total == a@.len(),
            es >= 128,
            whole == gpt_walk(a@, es as int, n as int, 0, -1),
            forall|i: int| 0 <= i < entries@.len() ==> (#[trigger] entries@[i]).wf(),
            whole == entry_bytes(entries@) + gpt_walk(a@, es as int, n as int, j as int, match blocked {
                Some(g) => g as int,
                None => -1,
            }),
        decreases n - j,
    {
        assert(j * es + es <= n * es) by (nonlinear_arith)
            requires
                j < n,
        ;
        let from = j * es;
        let sector = from / SECTOR_SIZE;
        let ghost bl: int = match blocked {
            Some(g) => g as int,
            None => -1,
        };
        let ghost rest = gpt_walk(a@, es as int, n as int, j as int + 1, bl);
        if blocked == Some(sector) {
            j = j + 1;
        } else if is_zero_range(a, from, from + GPT_ENTRY_SIZE) {
            blocked = Some(sector);
            j = j + 1;
        } else {
            let entry = GptPartitionTableEntry::from_bytes(slice_range(a, from, from + GPT_ENTRY_SIZE));
            let ghost prev = entries@;
            entries.push(entry);
            assert(entry_bytes(entries@) =~= entry_bytes(prev).push(gpt_slot(a@, j as int, es as int)));
            assert(whole =~= entry_bytes(entries@) + rest);
            j = j + 1;
        }
    }
    assert(whole =~= entry_bytes(entries@));
    Ok(GptPartitions { header, header_crc_valid, entries_crc_valid, entries })
}

} // verus!
