//! Master Boot Record: the four-entry table at LBA 0, CHS triples, and the
//! chain of Extended Boot Records behind an extended partition.

use vstd::prelude::*;
use crate::bytestream::{le_u32_at, le32, DecodeError, SECTOR_SIZE};
use crate::bytestream::{le_byte, lemma_le32_bytes};


verus! {

/// Length of the bootstrap code that precedes the partition table.
pub const BOOTSTRAPER_LENGTH: usize = 446;

/// Size in bytes of one partition table entry.
pub const MBR_ENTRY_SIZE: usize = 16;

/// Largest boot record sector for which absolute partition bounds fit in
/// 64 bits.
pub const MAX_BOOT_RECORD_OFFSET: u64 = 0xFFFF_FFFE_0000_0000;

/// Partition type of a GPT protective partition.
pub const GPT_PARTITION_TYPE: u8 = 0xee;

/// One 16-byte partition table entry of an MBR or EBR.
#[derive(Debug, Clone, Copy)]
pub struct MbrPartitionTableEntry {
    pub bootable: u8,
    pub starting_chs: [u8; 3],
    pub partition_type: u8,
    pub ending_chs: [u8; 3],
    pub lba_start: u32,
    pub num_sectors: u32,
}

/// `e` is the entry stored in the sixteen bytes of `b` at `at`.
pub open spec fn entry_decoded_from(e: MbrPartitionTableEntry, b: Seq<u8>, at: int) -> bool {
    &&& e.bootable == b[at]
    &&& e.starting_chs@ == b.subrange(at + 1, at + 4)
    &&& e.partition_type == b[at + 4]
    &&& e.ending_chs@ == b.subrange(at + 5, at + 8)
    &&& e.lba_start as int == le_u32_at(b, at + 8)
    &&& e.num_sectors as int == le_u32_at(b, at + 12)
}

/// The sixteen on-disk bytes of an entry.
pub open spec fn entry_layout(e: MbrPartitionTableEntry) -> Seq<u8> {
    seq![e.bootable] + e.starting_chs@ + seq![e.partition_type] + e.ending_chs@ + seq![
        le_byte(e.lba_start, 0),
        le_byte(e.lba_start, 1),
        le_byte(e.lba_start, 2),
        le_byte(e.lba_start, 3),
        le_byte(e.num_sectors, 0),
        le_byte(e.num_sectors, 1),
        le_byte(e.num_sectors, 2),
        le_byte(e.num_sectors, 3),
    ]
}

/// Whether the type byte marks an extended partition (0x05 or 0x0F).
pub open spec fn is_extended_type(t: u8) -> bool {
    t == 0x05 || t == 0x0F
}

/// Whether a bootable byte is one the MBR format declares invalid.
pub open spec fn is_invalid_bootable(b: u8) -> bool {
    0x01 <= b <= 0x7F
}

pub open spec fn spec_chs_head(chs: Seq<u8>) -> u8 {
    chs[0]
}

pub open spec fn spec_chs_sector(chs: Seq<u8>) -> u8 {
    chs[1] & 0x3F
}

pub open spec fn spec_chs_cylinder(chs: Seq<u8>) -> u16 {
    ((chs[1] as u16 & 0xC0) << 2) | chs[2] as u16
}

impl MbrPartitionTableEntry {
    /// Decodes the entry stored at byte `at` of `b`.
    pub fn read(b: &[u8], at: usize) -> (r: Self)
        requires
            at + 16 <= b.len(),
        ensures
            entry_decoded_from(r, b@, at as int),
    {
        let starting_chs = [b[at + 1], b[at + 2], b[at + 3]];
        let ending_chs = [b[at + 5], b[at + 6], b[at + 7]];
        assert(starting_chs@ =~= b@.subrange(at + 1, at + 4));
        assert(ending_chs@ =~= b@.subrange(at + 5, at + 8));
        MbrPartitionTableEntry {
            bootable: b[at],
            starting_chs,
            partition_type: b[at + 4],
            ending_chs,
            lba_start: le32(b, at + 8),
            num_sectors: le32(b, at + 12),
        }
    }

    /// The sixteen on-disk bytes of this entry.
    pub fn to_bytes(&self) -> (r: [u8; 16])
        ensures
            r@ == entry_layout(*self),
    {
        let s = self.lba_start;
        let n = self.num_sectors;
        let r = [
            self.bootable,
            self.starting_chs[0],
            self.starting_chs[1],
            self.starting_chs[2],
            self.partition_type,
            self.ending_chs[0],
            self.ending_chs[1],
            self.ending_chs[2],
            (s % 256) as u8,
            (s / 256 % 256) as u8,
            (s / 65536 % 256) as u8,
            (s / 16777216 % 256) as u8,
            (n % 256) as u8,
            (n / 256 % 256) as u8,
            (n / 65536 % 256) as u8,
            (n / 16777216 % 256) as u8,
        ];
        assert(r@ =~= entry_layout(*self));
        r
    }

    /// An entry is empty when all of its bytes are zero.
    pub fn is_empty(&self) -> (r: bool)
        ensures
            r == (entry_layout(*self) == Seq::new(16, |i: int| 0u8)),
    {
        let r = self.bootable == 0 && self.starting_chs[0] == 0 && self.starting_chs[1] == 0
            && self.starting_chs[2] == 0 && self.partition_type == 0 && self.ending_chs[0] == 0
            && self.ending_chs[1] == 0 && self.ending_chs[2] == 0 && self.lba_start == 0
            && self.num_sectors == 0;
        proof {
            let z = Seq::new(16, |i: int| 0u8);
            let l = entry_layout(*self);
            if r {
                assert(l =~= z);
            } else if l == z {
                assert(l[0] == 0 && l[1] == 0 && l[2] == 0 && l[3] == 0 && l[4] == 0);
                assert(l[5] == 0 && l[6] == 0 && l[7] == 0);
                assert(l[8] == 0 && l[9] == 0 && l[10] == 0 && l[11] == 0);
                assert(l[12] == 0 && l[13] == 0 && l[14] == 0 && l[15] == 0);
                crate::bytestream::lemma_le_bytes_u32(self.lba_start);
                crate::bytestream::lemma_le_bytes_u32(self.num_sectors);
                assert(false);
            }
        }
        r
    }

    pub fn is_extended_partition(&self) -> (r: bool)
        ensures
            r == is_extended_type(self.partition_type),
    {
        self.partition_type == 0x05 || self.partition_type == 0x0F
    }

    pub fn starting_lba(&self) -> (r: u32)
        ensures
            r == self.lba_start,
    {
        self.lba_start
    }

    pub fn num_sectors(&self) -> (r: u32)
        ensures
            r == self.num_sectors,
    {
        self.num_sectors
    }

    /// Starting (cylinder, head, sector).
    pub fn parse_starting_chs(&self) -> (r: (u16, u8, u8))
        ensures
            r == (spec_chs_cylinder(self.starting_chs@), spec_chs_head(self.starting_chs@), spec_chs_sector(self.starting_chs@)),
    {
        (
            Self::chs_cylinder(self.starting_chs),
            Self::chs_head(self.starting_chs),
            Self::chs_sector(self.starting_chs),
        )
    }

    /// Ending (cylinder, head, sector).
    pub fn parse_ending_chs(&self) -> (r: (u16, u8, u8))
        ensures
            r == (spec_chs_cylinder(self.ending_chs@), spec_chs_head(self.ending_chs@), spec_chs_sector(self.ending_chs@)),
    {
        (
            Self::chs_cylinder(self.ending_chs),
            Self::chs_head(self.ending_chs),
            Self::chs_sector(self.ending_chs),
        )
    }

    /// The head: the first byte.
    pub fn chs_head(chs: [u8; 3]) -> (r: u8)
        ensures
            r == spec_chs_head(chs@),
    {
        chs[0]
    }

    /// The sector: the low six bits of the second byte.
    pub fn chs_sector(chs: [u8; 3]) -> (r: u8)
        ensures
            r == spec_chs_sector(chs@),
            r < 64,
    {
        let c1 = chs[1];
        let r = c1 & 0x3F;
        assert(c1 & 0x3F < 64) by (bit_vector);
        r
    }

    /// The cylinder: the top two bits of the second byte above the third.
    pub fn chs_cylinder(chs: [u8; 3]) -> (r: u16)
        ensures
            r == spec_chs_cylinder(chs@),
            r as int == (chs@[1] as int / 64) * 256 + chs@[2] as int,
    {
        let c1 = chs[1];
        let c2 = chs[2];
        let r = ((c1 as u16 & 0xC0) << 2) | c2 as u16;
        assert(((c1 as u16 & 0xC0) << 2) | c2 as u16 == (c1 as u16 / 64) * 256 + c2 as u16) by (bit_vector);
        r
    }
}

impl MbrPartitionTableEntry {
    /// Absolute first sector of the partition, for an entry found in the
    /// boot record at sector `image_offset_sectors`.
    pub fn absolute_starting_lba(&self, image_offset_sectors: u64) -> (r: u64)
        requires
            image_offset_sectors <= MAX_BOOT_RECORD_OFFSET,
        ensures
            r == image_offset_sectors + self.lba_start,
    {
        image_offset_sectors + self.lba_start as u64
    }

    /// Absolute last sector of the partition (its first sector when it is
    /// empty).
    pub fn absolute_ending_lba(&self, image_offset_sectors: u64) -> (r: u64)
        requires
            image_offset_sectors <= MAX_BOOT_RECORD_OFFSET,
        ensures
            r == image_offset_sectors + self.lba_start + if self.num_sectors > 0 { self.num_sectors - 1 } else { 0 },
    {
        let start = self.absolute_starting_lba(image_offset_sectors);
        if self.num_sectors > 0 {
            start + (self.num_sectors as u64 - 1)
        } else {
            start
        }
    }
}

/// Re-serialising a decoded entry gives back the sixteen bytes it was read
/// from.
pub proof fn lemma_entry_round_trip(e: MbrPartitionTableEntry, b: Seq<u8>, at: int)
    requires
        0 <= at && at + 16 <= b.len(),
        entry_decoded_from(e, b, at),
    ensures
        entry_layout(e) == b.subrange(at, at + 16),
{
    lemma_le32_bytes(b, at + 8);
    lemma_le32_bytes(b, at + 12);
    assert(entry_layout(e) =~= b.subrange(at, at + 16));
}

/// A node of the partition tree: the root (no entry) stands for the MBR;
/// every other node holds one entry and, for an extended partition, the
/// entries of the EBR it leads to.
#[derive(Debug)]
pub struct MbrPartitionTableEntryNode {
    pub partition_table_entry: Option<MbrPartitionTableEntry>,
    pub children: Option<Vec<MbrPartitionTableEntryNode>>,
    pub image_offset_sectors: u64,
}

/// The children of a node, as a sequence (empty when it has none).
pub open spec fn child_seq(n: MbrPartitionTableEntryNode) -> Seq<MbrPartitionTableEntryNode> {
    match n.children {
        Some(c) => c@,
        None => Seq::empty(),
    }
}

pub open spec fn node_is_extended(n: MbrPartitionTableEntryNode) -> bool {
    match n.partition_table_entry {
        Some(e) => is_extended_type(e.partition_type),
        None => false,
    }
}

/// Number of extended partitions among `c`.
pub open spec fn extended_count(c: Seq<MbrPartitionTableEntryNode>) -> nat
    decreases c.len(),
{
    if c.len() == 0 {
        0
    } else {
        extended_count(c.drop_last()) + if node_is_extended(c.last()) { 1nat } else { 0 }
    }
}

/// Every node of the tree below `n`, `n` included, has at most one extended
/// child, and the tree is at most `depth` levels deep.
pub open spec fn chain_bounded(n: MbrPartitionTableEntryNode, depth: nat) -> bool
    decreases depth,
{
    &&& extended_count(child_seq(n)) <= 1
    &&& child_seq(n).len() <= 4
    &&& (depth == 0 ==> child_seq(n).len() == 0)
    &&& (depth > 0 ==> forall|i: int|
        0 <= i < child_seq(n).len() ==> chain_bounded(#[trigger] child_seq(n)[i], (depth - 1) as nat))
}

/// Whether any child is a GPT protective partition.
pub open spec fn has_gpt_child(n: MbrPartitionTableEntryNode) -> bool {
    exists|i: int|
        0 <= i < child_seq(n).len() && match (#[trigger] child_seq(n)[i]).partition_table_entry {
            Some(e) => e.partition_type == GPT_PARTITION_TYPE,
            None => false,
        }
}

impl Default for MbrPartitionTableEntryNode {
    /// The root of an empty tree.
    fn default() -> (r: Self)
        ensures
            r.partition_table_entry is None,
            r.children is None,
            r.image_offset_sectors == 0,
    {
        MbrPartitionTableEntryNode::root()
    }
}

impl MbrPartitionTableEntryNode {
    /// The root of an empty tree.
    pub fn root() -> (r: Self)
        ensures
            r.partition_table_entry is None,
            r.children is None,
            r.image_offset_sectors == 0,
    {
        MbrPartitionTableEntryNode { partition_table_entry: None, children: None, image_offset_sectors: 0 }
    }

    pub fn new(partition_table_entry: MbrPartitionTableEntry, image_offset_sectors: u64) -> (r: Self)
        ensures
            r.partition_table_entry == Some(partition_table_entry),
            r.children is None,
            r.image_offset_sectors == image_offset_sectors,
    {
        MbrPartitionTableEntryNode {
            partition_table_entry: Some(partition_table_entry),
            children: None,
            image_offset_sectors,
        }
    }

    /// Appends `node` to the children.
    pub fn add_child(&mut self, node: MbrPartitionTableEntryNode)
        ensures
            child_seq(*final(self)) == child_seq(*old(self)).push(node),
            final(self).children is Some,
            final(self).partition_table_entry == old(self).partition_table_entry,
            final(self).image_offset_sectors == old(self).image_offset_sectors,
    {
        match &mut self.children {
            Some(children) => children.push(node),
            None => {
                let mut v = Vec::new();
                v.push(node);
                self.children = Some(v);
            },
        }
    }

    pub fn is_extended_partition(&self) -> (r: bool)
        ensures
            r == node_is_extended(*self),
    {
        match &self.partition_table_entry {
            Some(entry) => entry.is_extended_partition(),
            None => false,
        }
    }

    /// Whether a child is a GPT protective partition (type 0xEE).
    pub fn is_gpt(&self) -> (r: bool)
        ensures
            r == has_gpt_child(*self),
    {
        match &self.children {
            Some(children) => {
                let mut i: usize = 0;
                while i < children.len()
                    invariant
                        i <= children@.len(),
                        child_seq(*self) == children@,
                        forall|j: int| 0 <= j < i ==> match (#[trigger] children@[j]).partition_table_entry {
                            Some(e) => e.partition_type != GPT_PARTITION_TYPE,
                            None => true,
                        },
                    decreases children@.len() - i,
                {
                    match &children[i].partition_table_entry {
                        Some(e) => {
                            if e.partition_type == GPT_PARTITION_TYPE {
                                assert(match child_seq(*self)[i as int].partition_table_entry {
                                    Some(e) => e.partition_type == GPT_PARTITION_TYPE,
                                    None => false,
                                });
                                return true;
                            }
                        },
                        None => {},
                    }
                    i = i + 1;
                }
                false
            },
            None => false,
        }
    }

    /// The entry's starting LBA, relative to the boot record holding it; 0
    /// for the root.
    pub fn starting_lba(&self) -> (r: u32)
        ensures
            r == match self.partition_table_entry {
                Some(e) => e.lba_start,
                None => 0,
            },
    {
        match &self.partition_table_entry {
            Some(entry) => entry.starting_lba(),
            None => 0,
        }
    }
}

/// Byte offset of the `k`-th partition table entry of the boot record at
/// sector `lba`.
pub open spec fn entry_offset(lba: int, k: int) -> int {
    lba * 512 + 446 + 16 * k
}

/// The sixteen bytes of entry `k` of the boot record at sector `lba`.
pub open spec fn entry_bytes_at(img: Seq<u8>, lba: int, k: int) -> Seq<u8> {
    img.subrange(entry_offset(lba, k), entry_offset(lba, k) + 16)
}

/// The partition type byte of entry `k` of the boot record at `lba`.
pub open spec fn entry_type_at(img: Seq<u8>, lba: int, k: int) -> u8 {
    img[entry_offset(lba, k) + 4]
}

/// The start LBA field of entry `k` of the boot record at `lba`.
pub open spec fn entry_start_at(img: Seq<u8>, lba: int, k: int) -> int {
    le_u32_at(img, entry_offset(lba, k) + 8)
}

/// Entry `k` ends the table: it is all zero or its bootable byte is
/// invalid.
pub open spec fn entry_stops(img: Seq<u8>, lba: int, k: int) -> bool {
    ||| entry_bytes_at(img, lba, k) == Seq::new(16, |i: int| 0u8)
    ||| is_invalid_bootable(img[entry_offset(lba, k)])
}

/// How many entries, from slot `k` on, the boot record at `lba` keeps.
pub open spec fn kept_from(img: Seq<u8>, lba: int, k: int) -> int
    decreases 4 - k,
{
    if k >= 4 || k < 0 || entry_stops(img, lba, k) {
        0
    } else {
        1 + kept_from(img, lba, k + 1)
    }
}

/// Sector of the EBR that extended entry `k` leads to: its start LBA from
/// the MBR, or that start relative to the first EBR from inside an EBR.
pub open spec fn ebr_target(img: Seq<u8>, lba: int, k: int, is_first: bool, first_ebr: int) -> int {
    if is_first {
        entry_start_at(img, lba, k)
    } else {
        first_ebr + entry_start_at(img, lba, k)
    }
}

/// The first EBR's sector below extended entry `k`.
pub open spec fn ebr_first(img: Seq<u8>, lba: int, k: int, is_first: bool, first_ebr: int) -> int {
    if is_first {
        entry_start_at(img, lba, k)
    } else {
        first_ebr
    }
}

/// How reading the boot record at `lba` fails, if it does: `Io` when the
/// sector lies outside the image, `Integrity` when the chain is deeper than
/// `depth`, or the failure of an EBR that a kept extended entry leads to.
pub open spec fn sector_error(img: Seq<u8>, is_first: bool, lba: int, first_ebr: int, depth: nat) -> Option<DecodeError>
    decreases depth, 5int,
{
    if (lba + 1) * 512 > img.len() || lba < 0 {
        Some(DecodeError::Io)
    } else if depth == 0 {
        Some(DecodeError::Integrity)
    } else {
        entries_error(img, is_first, lba, first_ebr, depth, 0)
    }
}

/// The failure of the EBRs behind the kept entries from slot `k` on.
pub open spec fn entries_error(img: Seq<u8>, is_first: bool, lba: int, first_ebr: int, depth: nat, k: int) -> Option<DecodeError>
    decreases depth, 4 - k,
{
    if depth == 0 || k >= 4 || k < 0 || entry_stops(img, lba, k) {
        None
    } else if is_extended_type(entry_type_at(img, lba, k)) {
        match sector_error(
            img,
            false,
            ebr_target(img, lba, k, is_first, first_ebr),
            ebr_first(img, lba, k, is_first, first_ebr),
            (depth - 1) as nat,
        ) {
            Some(e) => Some(e),
            None => entries_error(img, is_first, lba, first_ebr, depth, k + 1),
        }
    } else {
        entries_error(img, is_first, lba, first_ebr, depth, k + 1)
    }
}

/// `n`'s children are exactly the kept entries of the boot record at `lba`.
pub open spec fn sector_tree(n: MbrPartitionTableEntryNode, img: Seq<u8>, is_first: bool, lba: int, first_ebr: int, depth: nat) -> bool
    decreases depth, 2int,
{
    kept_children(child_seq(n), img, is_first, lba, first_ebr, depth)
}

/// `c` are exactly the kept entries of the boot record at `lba`, in order,
/// and each extended one holds the tree of the EBR it leads to.
pub open spec fn kept_children(
    c: Seq<MbrPartitionTableEntryNode>,
    img: Seq<u8>,
    is_first: bool,
    lba: int,
    first_ebr: int,
    depth: nat,
) -> bool
    decreases depth, 1int,
{
    &&& depth > 0
    &&& c.len() == kept_from(img, lba, 0)
    &&& forall|k: int| 0 <= k < c.len() ==> child_in_tree(#[trigger] c[k], img, is_first, lba, first_ebr, depth, k)
}

/// Child `c` stands for entry `k` of the boot record at `lba`.
pub open spec fn child_in_tree(
    c: MbrPartitionTableEntryNode,
    img: Seq<u8>,
    is_first: bool,
    lba: int,
    first_ebr: int,
    depth: nat,
    k: int,
) -> bool
    decreases depth, 0int,
{
    &&& c.image_offset_sectors == lba
    &&& c.partition_table_entry is Some
    &&& entry_decoded_from(c.partition_table_entry->Some_0, img, entry_offset(lba, k))
    &&& if depth > 0 && is_extended_type(entry_type_at(img, lba, k)) {
        sector_tree(
            c,
            img,
            false,
            ebr_target(img, lba, k, is_first, first_ebr),
            ebr_first(img, lba, k, is_first, first_ebr),
            (depth - 1) as nat,
        )
    } else {
        c.children is None
    }
}

/// Reads the boot record at sector `image_offset_sector` and appends its
/// entries to `node`'s children, following every extended entry into its
/// EBR: from the MBR an extended entry's start is absolute and becomes
/// `first_ebr_lba`; inside an EBR it is relative to `first_ebr_lba`.
/// Reading stops at an empty entry or at an invalid bootable byte, keeping
/// the entries before it. An EBR chain deeper than `depth` is a loop and
/// fails with `Integrity`.
pub fn parse_sector(
    node: &mut MbrPartitionTableEntryNode,
    image: &[u8],
    is_first: bool,
    image_offset_sector: u64,
    first_ebr_lba: u64,
    depth: usize,
) -> (r: Result<(), DecodeError>)
    ensures
        final(node).partition_table_entry == old(node).partition_table_entry,
        final(node).image_offset_sectors == old(node).image_offset_sectors,
        r == match sector_error(image@, is_first, image_offset_sector as int, first_ebr_lba as int, depth as nat) {
            Some(e) => Err(e),
            None => Ok::<(), DecodeError>(()),
        },
        r is Ok ==> {
            let old_len = child_seq(*old(node)).len() as int;
            let c = child_seq(*final(node));
            &&& c.subrange(0, old_len) == child_seq(*old(node))
            &&& kept_children(
                c.subrange(old_len, c.len() as int),
                image@,
                is_first,
                image_offset_sector as int,
                first_ebr_lba as int,
                depth as nat,
            )
        },
    decreases depth,
{
    let len = image.len();
    proof {
        vstd::arithmetic::div_mod::lemma_fundamental_div_mod(len as int, 512);
    }
    if image_offset_sector >= (len / SECTOR_SIZE) as u64 {
        assert((image_offset_sector + 1) * 512 > len) by (nonlinear_arith)
            requires
                image_offset_sector >= len / 512,
                len == 512 * (len / 512) + len % 512,
                len % 512 < 512,
        ;
        return Err(DecodeError::Io);
    }
    assert((image_offset_sector + 1) * 512 <= len) by (nonlinear_arith)
        requires
            image_offset_sector < len / 512,
            len == 512 * (len / 512) + len % 512,
            len % 512 >= 0,
    ;
    if depth == 0 {
        return Err(DecodeError::Integrity);
    }
    let ghost img = image@;
    let ghost lba = image_offset_sector as int;
    let ghost first = first_ebr_lba as int;
    let ghost old_children = child_seq(*node);
    let ghost old_len = old_children.len() as int;
    let base = image_offset_sector as usize * SECTOR_SIZE + BOOTSTRAPER_LENGTH;
    let mut k: usize = 0;
    while k < 4
        invariant
            k <= 4,
            depth > 0,
            img == image@,
            lba == image_offset_sector,
            first == first_ebr_lba,
            base == image_offset_sector * 512 + 446,
            (image_offset_sector + 1) * 512 <= image@.len() == len,
            node.partition_table_entry == old(node).partition_table_entry,
            node.image_offset_sectors == old(node).image_offset_sectors,
            old_children == child_seq(*old(node)),
            old_len == old_children.len(),
            child_seq(*node).len() == old_len + k,
            child_seq(*node).subrange(0, old_len) == old_children,
            kept_from(img, lba, 0) == k + kept_from(img, lba, k as int),
            entries_error(img, is_first, lba, first, depth as nat, 0) == entries_error(img, is_first, lba, first, depth as nat, k as int),
            forall|j: int|
                0 <= j < k ==> child_in_tree(#[trigger] child_seq(*node)[old_len + j], img, is_first, lba, first, depth as nat, j),
        ensures
            node.partition_table_entry == old(node).partition_table_entry,
            node.image_offset_sectors == old(node).image_offset_sectors,
            child_seq(*node).subrange(0, old_len) == old_children,
            kept_from(img, lba, 0) == child_seq(*node).len() - old_len,
            child_seq(*node).len() >= old_len,
            entries_error(img, is_first, lba, first, depth as nat, 0) is None,
            forall|j: int|
                0 <= j < child_seq(*node).len() - old_len ==> child_in_tree(#[trigger] child_seq(*node)[old_len + j], img, is_first, lba, first, depth as nat, j),
        decreases 4 - k,
    {
        let entry = MbrPartitionTableEntry::read(image, base + MBR_ENTRY_SIZE * k);
        proof {
            lemma_entry_round_trip(entry, img, entry_offset(lba, k as int));
        }
        if entry.is_empty() {
            assert(entry_bytes_at(img, lba, k as int) =~= Seq::new(16, |i: int| 0u8));
            break;
        }
        assert(entry_bytes_at(img, lba, k as int) != Seq::new(16, |i: int| 0u8));
        if 0x01 <= entry.bootable && entry.bootable <= 0x7F {
            break;
        }
        let ghost before = child_seq(*node);
        if entry.is_extended_partition() {
            let start_lba = entry.starting_lba() as u64;
            let mut next_node = MbrPartitionTableEntryNode::new(entry, image_offset_sector);
            if is_first {
                parse_sector(&mut next_node, image, false, start_lba, start_lba, depth - 1)?;
            } else {
                if first_ebr_lba > u64::MAX - start_lba {
                    assert(sector_error(img, false, ebr_target(img, lba, k as int, is_first, first), ebr_first(img, lba, k as int, is_first, first), (depth - 1) as nat) == Some(DecodeError::Io));
                    return Err(DecodeError::Io);
                }
                parse_sector(
                    &mut next_node,
                    image,
                    false,
                    first_ebr_lba + start_lba,
                    first_ebr_lba,
                    depth - 1,
                )?;
            }
            assert(child_seq(next_node).subrange(0, 0) =~= child_seq(next_node).subrange(0, 0));
            assert(child_seq(next_node).subrange(0, child_seq(next_node).len() as int) =~= child_seq(next_node));
            assert(child_in_tree(next_node, img, is_first, lba, first, depth as nat, k as int));
            node.add_child(next_node);
        } else {
            let leaf = MbrPartitionTableEntryNode::new(entry, image_offset_sector);
            assert(child_in_tree(leaf, img, is_first, lba, first, depth as nat, k as int));
            node.add_child(leaf);
        }
        assert(child_seq(*node).drop_last() =~= before);
        assert(child_seq(*node).subrange(0, old_len) =~= before.subrange(0, old_len));
        k = k + 1;
    }
    proof {
        let c = child_seq(*node);
        let added = c.subrange(old_len, c.len() as int);
        assert forall|j: int| 0 <= j < added.len() implies child_in_tree(#[trigger] added[j], img, is_first, lba, first, depth as nat, j) by {
            assert(added[j] == c[old_len + j]);
        }
        assert(kept_children(added, img, is_first, lba, first, depth as nat));
    }
    Ok(())
}

/// Reads the MBR at LBA 0 and every EBR chained behind it. No chain can be
/// deeper than the image has sectors.
pub fn parse_mbr(image: &[u8]) -> (r: Result<MbrPartitionTableEntryNode, DecodeError>)
    ensures
        r is Err <==> sector_error(image@, true, 0, 0, (image@.len() / 512 + 1) as nat) is Some,
        match r {
            Ok(root) => {
                &&& root.partition_table_entry is None
                &&& sector_tree(root, image@, true, 0, 0, (image@.len() / 512 + 1) as nat)
            },
            Err(e) => sector_error(image@, true, 0, 0, (image@.len() / 512 + 1) as nat) == Some(e),
        },
{
    let mut root = MbrPartitionTableEntryNode::root();
    let depth = image.len() / SECTOR_SIZE + 1;
    parse_sector(&mut root, image, true, 0, 0, depth)?;
    assert(child_seq(root).subrange(0, child_seq(root).len() as int) =~= child_seq(root));
    Ok(root)
}

/// Number of extended entries among the first `m` entries of the boot
/// record at `lba`.
pub open spec fn kept_extended(img: Seq<u8>, lba: int, m: int) -> nat
    decreases m,
{
    if m <= 0 {
        0
    } else {
        kept_extended(img, lba, m - 1) + if is_extended_type(entry_type_at(img, lba, m - 1)) { 1nat } else { 0 }
    }
}

/// The chain from the boot record at `lba` is well formed within `depth`
/// levels: the record lies in the image, its kept entries hold at most one
/// extended entry, and the chain behind that entry is well formed one level
/// down.
pub open spec fn chain_well_formed(img: Seq<u8>, is_first: bool, lba: int, first_ebr: int, depth: nat) -> bool
    decreases depth, 5int,
{
    &&& 0 <= lba
    &&& (lba + 1) * 512 <= img.len()
    &&& depth > 0
    &&& kept_extended(img, lba, kept_from(img, lba, 0)) <= 1
    &&& entries_well_formed(img, is_first, lba, first_ebr, depth, 0)
}

/// The chains behind the kept extended entries from slot `k` on are well
/// formed one level down.
pub open spec fn entries_well_formed(img: Seq<u8>, is_first: bool, lba: int, first_ebr: int, depth: nat, k: int) -> bool
    decreases depth, 4 - k,
{
    if depth == 0 || k >= 4 || k < 0 || entry_stops(img, lba, k) {
        true
    } else {
        &&& (is_extended_type(entry_type_at(img, lba, k)) ==> chain_well_formed(
            img,
            false,
            ebr_target(img, lba, k, is_first, first_ebr),
            ebr_first(img, lba, k, is_first, first_ebr),
            (depth - 1) as nat,
        ))
        &&& entries_well_formed(img, is_first, lba, first_ebr, depth, k + 1)
    }
}

proof fn lemma_wf_no_error(img: Seq<u8>, is_first: bool, lba: int, first_ebr: int, depth: nat)
    requires
        chain_well_formed(img, is_first, lba, first_ebr, depth),
    ensures
        sector_error(img, is_first, lba, first_ebr, depth) is None,
    decreases depth, 5int,
{
    lemma_entries_wf_no_error(img, is_first, lba, first_ebr, depth, 0);
}

proof fn lemma_entries_wf_no_error(img: Seq<u8>, is_first: bool, lba: int, first_ebr: int, depth: nat, k: int)
    requires
        depth > 0,
        entries_well_formed(img, is_first, lba, first_ebr, depth, k),
    ensures
        entries_error(img, is_first, lba, first_ebr, depth, k) is None,
    decreases depth, 4 - k,
{
    if !(k >= 4 || k < 0 || entry_stops(img, lba, k)) {
        if is_extended_type(entry_type_at(img, lba, k)) {
            lemma_wf_no_error(
                img,
                false,
                ebr_target(img, lba, k, is_first, first_ebr),
                ebr_first(img, lba, k, is_first, first_ebr),
                (depth - 1) as nat,
            );
        }
        lemma_entries_wf_no_error(img, is_first, lba, first_ebr, depth, k + 1);
    }
}

proof fn lemma_kept_from_le(img: Seq<u8>, lba: int, k: int)
    requires
        0 <= k <= 4,
    ensures
        0 <= kept_from(img, lba, k) <= 4 - k,
    decreases 4 - k,
{
    if k < 4 && !entry_stops(img, lba, k) {
        lemma_kept_from_le(img, lba, k + 1);
    }
}

proof fn lemma_entries_wf_at(img: Seq<u8>, is_first: bool, lba: int, first_ebr: int, depth: nat, k: int, i: int)
    requires
        depth > 0,
        0 <= k <= i,
        i < k + kept_from(img, lba, k),
        entries_well_formed(img, is_first, lba, first_ebr, depth, k),
    ensures
        is_extended_type(entry_type_at(img, lba, i)) ==> chain_well_formed(
            img,
            false,
            ebr_target(img, lba, i, is_first, first_ebr),
            ebr_first(img, lba, i, is_first, first_ebr),
            (depth - 1) as nat,
        ),
    decreases i - k,
{
    if i > k {
        lemma_entries_wf_at(img, is_first, lba, first_ebr, depth, k + 1, i);
    }
}

proof fn lemma_extended_count_kept(c: Seq<MbrPartitionTableEntryNode>, img: Seq<u8>, lba: int, m: int)
    requires
        0 <= m <= c.len(),
        forall|j: int|
            0 <= j < c.len() ==> (#[trigger] c[j]).partition_table_entry is Some
                && c[j].partition_table_entry->Some_0.partition_type == entry_type_at(img, lba, j),
    ensures
        extended_count(c.subrange(0, m)) == kept_extended(img, lba, m),
    decreases m,
{
    if m > 0 {
        assert(c.subrange(0, m).drop_last() =~= c.subrange(0, m - 1));
        lemma_extended_count_kept(c, img, lba, m - 1);
        assert(c.subrange(0, m).last() == c[m - 1]);
    }
}

proof fn lemma_wf_bounded(n: MbrPartitionTableEntryNode, img: Seq<u8>, is_first: bool, lba: int, first_ebr: int, depth: nat)
    requires
        chain_well_formed(img, is_first, lba, first_ebr, depth),
        sector_tree(n, img, is_first, lba, first_ebr, depth),
    ensures
        chain_bounded(n, depth),
    decreases depth,
{
    let c = child_seq(n);
    lemma_kept_from_le(img, lba, 0);
    assert forall|j: int| 0 <= j < c.len() implies (#[trigger] c[j]).partition_table_entry is Some
        && c[j].partition_table_entry->Some_0.partition_type == entry_type_at(img, lba, j) by {
        assert(child_in_tree(c[j], img, is_first, lba, first_ebr, depth, j));
    }
    lemma_extended_count_kept(c, img, lba, c.len() as int);
    assert(c.subrange(0, c.len() as int) =~= c);
    assert forall|i: int| 0 <= i < c.len() implies chain_bounded(#[trigger] c[i], (depth - 1) as nat) by {
        assert(child_in_tree(c[i], img, is_first, lba, first_ebr, depth, i));
        if is_extended_type(entry_type_at(img, lba, i)) {
            lemma_entries_wf_at(img, is_first, lba, first_ebr, depth, 0, i);
            lemma_wf_bounded(
                c[i],
                img,
                false,
                ebr_target(img, lba, i, is_first, first_ebr),
                ebr_first(img, lba, i, is_first, first_ebr),
                (depth - 1) as nat,
            );
        } else {
            assert(child_seq(c[i]) =~= Seq::<MbrPartitionTableEntryNode>::empty());
        }
    }
}

/// MBR bounded recursion: when the chain from the primary MBR is well
/// formed (every boot record reached lies in the image and keeps at most
/// one extended entry, and the chain ends within as many levels as the
/// image has sectors), `parse_mbr` succeeds, and in the tree it returns
/// every node has at most four children, at most one of them extended, and
/// the depth is bounded.
pub proof fn lemma_mbr_bounded_recursion(img: Seq<u8>, root: MbrPartitionTableEntryNode)
    requires
        chain_well_formed(img, true, 0, 0, (img.len() / 512 + 1) as nat),
    ensures
        sector_error(img, true, 0, 0, (img.len() / 512 + 1) as nat) is None,
        sector_tree(root, img, true, 0, 0, (img.len() / 512 + 1) as nat) ==> chain_bounded(
            root,
            (img.len() / 512 + 1) as nat,
        ),
{
    lemma_wf_no_error(img, true, 0, 0, (img.len() / 512 + 1) as nat);
    if sector_tree(root, img, true, 0, 0, (img.len() / 512 + 1) as nat) {
        lemma_wf_bounded(root, img, true, 0, 0, (img.len() / 512 + 1) as nat);
    }
}

/// Name of an MBR partition type byte.
pub open spec fn mbr_type_name(t: u8) -> Seq<char> {
    match t {
        0x0 => "Empty"@,
        0x1 => "FAT12"@,
        0x2 => "XENIX root"@,
        0x3 => "XENIX usr"@,
        0x4 => "FAT16 <32M"@,
        0x5 => "Extended"@,
        0x6 => "FAT16"@,
        0x7 => "HPFS/NTFS/exFAT"@,
        0x8 => "AIX"@,
        0x9 => "AIX bootable"@,
        0xa => "OS/2 Boot Manag"@,
        0xb => "W95 FAT32"@,
        0xc => "W95 FAT32 (LBA)"@,
        0xe => "W95 FAT16 (LBA)"@,
        0xf => "W95 Ext'd (LBA)"@,
        0x10 => "OPUS"@,
        0x11 => "Hidden FAT12"@,
        0x12 => "Compaq diagnost"@,
        0x14 => "Hidden FAT16 <3"@,
        0x16 => "Hidden FAT16"@,
        0x17 => "Hidden HPFS/NTF"@,
        0x18 => "AST SmartSleep"@,
        0x1b => "Hidden W95 FAT3"@,
        0x1c => "Hidden W95 FAT3"@,
        0x1e => "Hidden W95 FAT1"@,
        0x24 => "NEC DOS"@,
        0x27 => "Hidden NTFS Win"@,
        0x39 => "Plan 9"@,
        0x3c => "PartitionMagic"@,
        0x40 => "Venix 80286"@,
        0x41 => "PPC PReP Boot"@,
        0x42 => "SFS"@,
        0x4d => "QNX4.x"@,
        0x4e => "QNX4.x 2nd part"@,
        0x4f => "QNX4.x 3rd part"@,
        0x50 => "OnTrack DM"@,
        0x51 => "OnTrack DM6 Aux"@,
        0x52 => "CP/M"@,
        0x53 => "OnTrack DM6 Aux"@,
        0x54 => "OnTrackDM6"@,
        0x55 => "EZ-Drive"@,
        0x56 => "Golden Bow"@,
        0x5c => "Priam Edisk"@,
        0x61 => "SpeedStor"@,
        0x63 => "GNU HURD or Sys"@,
        0x64 => "Novell Netware"@,
        0x65 => "Novell Netware"@,
        0x70 => "DiskSecure Mult"@,
        0x75 => "PC/IX"@,
        0x80 => "Old Minix"@,
        0x81 => "Minix / old Lin"@,
        0x82 => "Linux swap / So"@,
        0x83 => "Linux"@,
        0x84 => "OS/2 hidden or"@,
        0x85 => "Linux extended"@,
        0x86 => "NTFS volume set"@,
        0x87 => "NTFS volume set"@,
        0x88 => "Linux plaintext"@,
        0x8e => "Linux LVM"@,
        0x93 => "Amoeba"@,
        0x94 => "Amoeba BBT"@,
        0x9f => "BSD/OS"@,
        0xa0 => "IBM Thinkpad hi"@,
        0xa5 => "FreeBSD"@,
        0xa6 => "OpenBSD"@,
        0xa7 => "NeXTSTEP"@,
        0xa8 => "Darwin UFS"@,
        0xa9 => "NetBSD"@,
        0xab => "Darwin boot"@,
        0xaf => "HFS / HFS+"@,
        0xb7 => "BSDI fs"@,
        0xb8 => "BSDI swap"@,
        0xbb => "Boot Wizard hid"@,
        0xbc => "Acronis FAT32 L"@,
        0xbe => "Solaris boot"@,
        0xbf => "Solaris"@,
        0xc1 => "DRDOS/sec (FAT-"@,
        0xc4 => "DRDOS/sec (FAT-"@,
        0xc6 => "DRDOS/sec (FAT-"@,
        0xc7 => "Syrinx"@,
        0xda => "Non-FS data"@,
        0xdb => "CP/M / CTOS / ."@,
        0xde => "Dell Utility"@,
        0xdf => "BootIt"@,
        0xe1 => "DOS access"@,
        0xe3 => "DOS R/O"@,
        0xe4 => "SpeedStor"@,
        0xea => "Rufus alignment"@,
        0xeb => "BeOS fs"@,
        0xee => "GPT"@,
        0xef => "EFI (FAT-12/16/"@,
        0xf0 => "Linux/PA-RISC b"@,
        0xf1 => "SpeedStor"@,
        0xf4 => "SpeedStor"@,
        0xf2 => "DOS secondary"@,
        0xfb => "VMware VMFS"@,
        0xfc => "VMware VMKCORE"@,
        0xfd => "Linux raid auto"@,
        0xfe => "LANstep"@,
        0xff => "BBT"@,
        _ => "Unknown Partition Type"@,
    }
}

/// Name of an MBR partition type byte; unknown bytes are "Unknown Partition Type".
pub fn lookup_partition_type(partition_type: u8) -> (r: String)
    ensures
        r@ == mbr_type_name(partition_type),
{
    let name: &str = match partition_type {
        0x0 => "Empty",
        0x1 => "FAT12",
        0x2 => "XENIX root",
        0x3 => "XENIX usr",
        0x4 => "FAT16 <32M",
        0x5 => "Extended",
        0x6 => "FAT16",
        0x7 => "HPFS/NTFS/exFAT",
        0x8 => "AIX",
        0x9 => "AIX bootable",
        0xa => "OS/2 Boot Manag",
        0xb => "W95 FAT32",
        0xc => "W95 FAT32 (LBA)",
        0xe => "W95 FAT16 (LBA)",
        0xf => "W95 Ext'd (LBA)",
        0x10 => "OPUS",
        0x11 => "Hidden FAT12",
        0x12 => "Compaq diagnost",
        0x14 => "Hidden FAT16 <3",
        0x16 => "Hidden FAT16",
        0x17 => "Hidden HPFS/NTF",
        0x18 => "AST SmartSleep",
        0x1b => "Hidden W95 FAT3",
        0x1c => "Hidden W95 FAT3",
        0x1e => "Hidden W95 FAT1",
        0x24 => "NEC DOS",
        0x27 => "Hidden NTFS Win",
        0x39 => "Plan 9",
        0x3c => "PartitionMagic",
        0x40 => "Venix 80286",
        0x41 => "PPC PReP Boot",
        0x42 => "SFS",
        0x4d => "QNX4.x",
        0x4e => "QNX4.x 2nd part",
        0x4f => "QNX4.x 3rd part",
        0x50 => "OnTrack DM",
        0x51 => "OnTrack DM6 Aux",
        0x52 => "CP/M",
        0x53 => "OnTrack DM6 Aux",
        0x54 => "OnTrackDM6",
        0x55 => "EZ-Drive",
        0x56 => "Golden Bow",
        0x5c => "Priam Edisk",
        0x61 => "SpeedStor",
        0x63 => "GNU HURD or Sys",
        0x64 => "Novell Netware",
        0x65 => "Novell Netware",
        0x70 => "DiskSecure Mult",
        0x75 => "PC/IX",
        0x80 => "Old Minix",
        0x81 => "Minix / old Lin",
        0x82 => "Linux swap / So",
        0x83 => "Linux",
        0x84 => "OS/2 hidden or",
        0x85 => "Linux extended",
        0x86 => "NTFS volume set",
        0x87 => "NTFS volume set",
        0x88 => "Linux plaintext",
        0x8e => "Linux LVM",
        0x93 => "Amoeba",
        0x94 => "Amoeba BBT",
        0x9f => "BSD/OS",
        0xa0 => "IBM Thinkpad hi",
        0xa5 => "FreeBSD",
        0xa6 => "OpenBSD",
        0xa7 => "NeXTSTEP",
        0xa8 => "Darwin UFS",
        0xa9 => "NetBSD",
        0xab => "Darwin boot",
        0xaf => "HFS / HFS+",
        0xb7 => "BSDI fs",
        0xb8 => "BSDI swap",
        0xbb => "Boot Wizard hid",
        0xbc => "Acronis FAT32 L",
        0xbe => "Solaris boot",
        0xbf => "Solaris",
        0xc1 => "DRDOS/sec (FAT-",
        0xc4 => "DRDOS/sec (FAT-",
        0xc6 => "DRDOS/sec (FAT-",
        0xc7 => "Syrinx",
        0xda => "Non-FS data",
        0xdb => "CP/M / CTOS / .",
        0xde => "Dell Utility",
        0xdf => "BootIt",
        0xe1 => "DOS access",
        0xe3 => "DOS R/O",
        0xe4 => "SpeedStor",
        0xea => "Rufus alignment",
        0xeb => "BeOS fs",
        0xee => "GPT",
        0xef => "EFI (FAT-12/16/",
        0xf0 => "Linux/PA-RISC b",
        0xf1 => "SpeedStor",
        0xf4 => "SpeedStor",
        0xf2 => "DOS secondary",
        0xfb => "VMware VMFS",
        0xfc => "VMware VMKCORE",
        0xfd => "Linux raid auto",
        0xfe => "LANstep",
        0xff => "BBT",
        _ => "Unknown Partition Type",
    };
    <String as vstd::string::StringExecFns>::from_str(name)
}

} // verus!
