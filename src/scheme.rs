//! Classifying an image by partitioning scheme and locating the NTFS volume
//! to inspect.

use vstd::prelude::*;
use crate::bytestream::DecodeError;
use crate::apm::is_apm_disk;
use crate::gpt::{entry_bytes, gpt_error, gpt_image_entries, guid_text, parse_gpt, GptPartitions};
use crate::bytestream::le_u64_at;
use crate::mbr::{
    child_in_tree, child_seq, entry_start_at, entry_type_at, has_gpt_child, kept_from, parse_mbr,
    sector_error, sector_tree, MbrPartitionTableEntryNode, GPT_PARTITION_TYPE,
};

verus! {

/// The partitioning scheme of an image.
#[derive(Debug, Clone, Copy, PartialEq, Eq, Structural)]
pub enum PartitionScheme {
    /// Apple Partition Map ("ER" at byte 0).
    Apm,
    /// GPT behind a protective MBR entry of type 0xEE.
    Gpt,
    /// A legacy MBR with its EBR chains.
    Mbr,
}

/// Whether the image starts with the APM driver descriptor signature "ER".
pub open spec fn is_apm_image(img: Seq<u8>) -> bool {
    img.len() >= 512 && img[0] == 0x45 && img[1] == 0x52
}

/// How deep an EBR chain of the image may go.
pub open spec fn mbr_depth(img: Seq<u8>) -> nat {
    (img.len() / 512 + 1) as nat
}

/// Whether an entry kept from the primary MBR has type 0xEE.
pub open spec fn mbr_has_protective(img: Seq<u8>) -> bool {
    exists|k: int| 0 <= k < kept_from(img, 0, 0) && #[trigger] entry_type_at(img, 0, k) == 0xEE
}

/// Classifies an image: APM when its first two bytes read "ER"; otherwise
/// GPT when an entry kept from the primary MBR has type 0xEE; otherwise MBR.
pub fn detect_scheme(image: &[u8]) -> (r: Result<PartitionScheme, DecodeError>)
    ensures
        match r {
            Ok(PartitionScheme::Apm) => is_apm_image(image@),
            Ok(PartitionScheme::Gpt) => !is_apm_image(image@) && sector_error(image@, true, 0, 0, mbr_depth(image@)) is None
                && mbr_has_protective(image@),
            Ok(PartitionScheme::Mbr) => !is_apm_image(image@) && sector_error(image@, true, 0, 0, mbr_depth(image@)) is None
                && !mbr_has_protective(image@),
            Err(e) => !is_apm_image(image@) && sector_error(image@, true, 0, 0, mbr_depth(image@)) == Some(e),
        },
{
    if image.len() < 512 {
        return Err(DecodeError::Io);
    }
    if is_apm_disk(image).unwrap() {
        return Ok(PartitionScheme::Apm);
    }
    let root = parse_mbr(image)?;
    proof {
        lemma_gpt_child_iff(root, image@);
    }
    if root.is_gpt() {
        Ok(PartitionScheme::Gpt)
    } else {
        Ok(PartitionScheme::Mbr)
    }
}

/// GPT dispatch: on the tree read from the primary MBR, `is_gpt` holds
/// exactly when an entry kept from that table has type 0xEE.
pub proof fn lemma_gpt_child_iff(root: MbrPartitionTableEntryNode, img: Seq<u8>)
    requires
        sector_tree(root, img, true, 0, 0, mbr_depth(img)),
    ensures
        has_gpt_child(root) == mbr_has_protective(img),
{
    let c = child_seq(root);
    assert forall|k: int| 0 <= k < c.len() implies (#[trigger] c[k]).partition_table_entry is Some && c[k].partition_table_entry->Some_0.partition_type == entry_type_at(img, 0, k) by {
        assert(child_in_tree(c[k], img, true, 0, 0, mbr_depth(img), k));
    }
    if has_gpt_child(root) {
        let k = choose|k: int| 0 <= k < c.len() && match (#[trigger] c[k]).partition_table_entry {
            Some(e) => e.partition_type == GPT_PARTITION_TYPE,
            None => false,
        };
        assert(entry_type_at(img, 0, k) == 0xEE);
    }
    if mbr_has_protective(img) {
        let k = choose|k: int| 0 <= k < kept_from(img, 0, 0) && #[trigger] entry_type_at(img, 0, k) == 0xEE;
        assert(match c[k].partition_table_entry {
            Some(e) => e.partition_type == GPT_PARTITION_TYPE,
            None => false,
        });
    }
}

/// Canonical text of the "Microsoft basic data" partition type.
pub open spec fn basic_data_guid() -> Seq<char> {
    "EBD0A0A2-B9E5-4433-87C0-68B6B72699C7"@
}

/// Entry `i` is the first of `es` whose type is "Microsoft basic data".
pub open spec fn is_first_basic_data(es: Seq<Seq<u8>>, i: int) -> bool {
    &&& 0 <= i < es.len()
    &&& guid_text(es[i].subrange(0, 16)) == basic_data_guid()
    &&& forall|j: int| 0 <= j < i ==> guid_text((#[trigger] es[j]).subrange(0, 16)) != basic_data_guid()
}

/// How locating the NTFS partition of an image fails, if it does.
pub open spec fn ntfs_partition_error(img: Seq<u8>) -> Option<DecodeError> {
    if is_apm_image(img) {
        Some(DecodeError::Unsupported)
    } else if sector_error(img, true, 0, 0, mbr_depth(img)) is Some {
        sector_error(img, true, 0, 0, mbr_depth(img))
    } else if mbr_has_protective(img) {
        if gpt_error(img) is Some {
            gpt_error(img)
        } else if exists|i: int| is_first_basic_data(gpt_image_entries(img), i) {
            None
        } else {
            Some(DecodeError::NotFound)
        }
    } else if kept_from(img, 0, 0) == 0 {
        Some(DecodeError::NotFound)
    } else {
        None
    }
}

/// Starting sector of the NTFS partition of an image, when it has one.
pub open spec fn ntfs_partition_start(img: Seq<u8>) -> int {
    if mbr_has_protective(img) {
        le_u64_at(gpt_image_entries(img)[choose|i: int| is_first_basic_data(gpt_image_entries(img), i)], 32)
    } else {
        entry_start_at(img, 0, 0)
    }
}

/// The first GPT entry whose type is "Microsoft basic data".
pub fn find_basic_data_partition(table: &GptPartitions) -> (r: Option<usize>)
    requires
        forall|i: int| 0 <= i < table.entries@.len() ==> (#[trigger] table.entries@[i]).wf(),
    ensures
        match r {
            Some(i) => is_first_basic_data(entry_bytes(table.entries@), i as int),
            None => forall|j: int| 0 <= j < table.entries@.len() ==> guid_text((#[trigger] table.entries@[j])@.subrange(0, 16)) != basic_data_guid(),
        },
{
    let wanted = <String as vstd::string::StringExecFns>::from_str("EBD0A0A2-B9E5-4433-87C0-68B6B72699C7");
    let mut i: usize = 0;
    while i < table.entries.len()
        invariant
            i <= table.entries@.len(),
            wanted@ == basic_data_guid(),
            forall|j: int| 0 <= j < table.entries@.len() ==> (#[trigger] table.entries@[j]).wf(),
            forall|j: int| 0 <= j < i ==> guid_text((#[trigger] entry_bytes(table.entries@)[j]).subrange(0, 16)) != basic_data_guid(),
        decreases table.entries@.len() - i,
    {
        let text = table.entries[i].get_partition_type_guid();
        if text == wanted {
            return Some(i);
        }
        assert(entry_bytes(table.entries@)[i as int] == table.entries@[i as int]@);
        i = i + 1;
    }
    proof {
        assert forall|j: int| 0 <= j < table.entries@.len() implies guid_text((#[trigger] table.entries@[j])@.subrange(0, 16)) != basic_data_guid() by {
            assert(entry_bytes(table.entries@)[j] == table.entries@[j]@);
        }
    }
    None
}

/// Starting sector of the NTFS volume to inspect: on a GPT disk the first
/// "Microsoft basic data" partition, on an MBR disk the first primary
/// entry. APM disks are `Unsupported`; a disk without such a partition is
/// `NotFound`.
pub fn find_ntfs_partition(image: &[u8]) -> (r: Result<u64, DecodeError>)
    ensures
        match r {
            Ok(lba) => ntfs_partition_error(image@) is None && lba as int == ntfs_partition_start(image@),
            Err(e) => ntfs_partition_error(image@) == Some(e),
        },
{
    match detect_scheme(image) {
        Err(e) => Err(e),
        Ok(PartitionScheme::Apm) => Err(DecodeError::Unsupported),
        Ok(PartitionScheme::Gpt) => {
            let table = match parse_gpt(image) {
                Ok(t) => t,
                Err(e) => return Err(e),
            };
            match find_basic_data_partition(&table) {
                Some(i) => {
                    let lba = table.entries[i].starting_lba();
                    proof {
                        let es = gpt_image_entries(image@);
                        assert(entry_bytes(table.entries@)[i as int] == table.entries@[i as int]@);
                        assert(is_first_basic_data(es, i as int));
                        let i2 = choose|i2: int| is_first_basic_data(es, i2);
                        if i2 < i {
                            assert(guid_text(es[i2].subrange(0, 16)) != basic_data_guid());
                        } else if i2 > i {
                            assert(guid_text(es[i as int].subrange(0, 16)) != basic_data_guid());
                        }
                    }
                    Ok(lba)
                },
                None => {
                    proof {
                        let es = gpt_image_entries(image@);
                        if exists|i: int| is_first_basic_data(es, i) {
                            let i = choose|i: int| is_first_basic_data(es, i);
                            assert(es[i] == table.entries@[i]@);
                            assert(false);
                        }
                    }
                    Err(DecodeError::NotFound)
                },
            }
        },
        Ok(PartitionScheme::Mbr) => {
            let root = match parse_mbr(image) {
                Ok(root) => root,
                Err(e) => return Err(e),
            };
            match &root.children {
                Some(children) => {
                    if children.len() == 0 {
                        return Err(DecodeError::NotFound);
                    }
                    let lba = children[0].starting_lba() as u64;
                    proof {
                        assert(child_seq(root)[0] == children@[0]);
                        assert(child_in_tree(children@[0], image@, true, 0, 0, mbr_depth(image@), 0));
                    }
                    Ok(lba)
                },
                None => Err(DecodeError::NotFound),
            }
        },
    }
}

} // verus!
