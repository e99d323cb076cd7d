//! Forensic inspection of raw disk images: partition schemes (APM, MBR/EBR,
//! GPT) and the NTFS master file table, with in-place timestamp rewriting.

pub mod bytestream;
pub mod gpt;
pub mod mbr;
pub mod apm;
pub mod mft;
pub mod timestomp;
pub mod scheme;
