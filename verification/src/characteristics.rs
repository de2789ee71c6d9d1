//! Named bit values for the `characteristics` field of a section header.
//!
//! These are fixed by the COFF specification; their exact numeric values are
//! part of the on-disk format. The alignment sub-field occupies four bits
//! isolated by `IMAGE_SCN_ALIGN_MASK`; each power-of-two alignment from 1 to
//! 8192 bytes is a distinct enumerated value, not a shift of the exponent.

use vstd::prelude::*;

verus! {

/// The section should not be padded to the next boundary. This flag is
/// obsolete and is replaced by `IMAGE_SCN_ALIGN_1BYTES`. Object files only.
pub const IMAGE_SCN_TYPE_NO_PAD: u32 = 0x00000008;

/// The section contains executable code.
pub const IMAGE_SCN_CNT_CODE: u32 = 0x00000020;

/// The section contains initialized data.
pub const IMAGE_SCN_CNT_INITIALIZED_DATA: u32 = 0x00000040;

/// The section contains uninitialized data.
pub const IMAGE_SCN_CNT_UNINITIALIZED_DATA: u32 = 0x00000080;

pub const IMAGE_SCN_LNK_OTHER: u32 = 0x00000100;

/// The section contains comments or other information. The .drectve section
/// has this type. Object files only.
pub const IMAGE_SCN_LNK_INFO: u32 = 0x00000200;

/// The section will not become part of the image. Object files only.
pub const IMAGE_SCN_LNK_REMOVE: u32 = 0x00000800;

/// The section contains COMDAT data. Object files only.
pub const IMAGE_SCN_LNK_COMDAT: u32 = 0x00001000;

/// The section contains data referenced through the global pointer (GP).
pub const IMAGE_SCN_GPREL: u32 = 0x00008000;

pub const IMAGE_SCN_MEM_PURGEABLE: u32 = 0x00020000;

pub const IMAGE_SCN_MEM_16BIT: u32 = 0x00020000;

pub const IMAGE_SCN_MEM_LOCKED: u32 = 0x00040000;

pub const IMAGE_SCN_MEM_PRELOAD: u32 = 0x00080000;

pub const IMAGE_SCN_ALIGN_1BYTES: u32 = 0x00100000;

pub const IMAGE_SCN_ALIGN_2BYTES: u32 = 0x00200000;

pub const IMAGE_SCN_ALIGN_4BYTES: u32 = 0x00300000;

pub const IMAGE_SCN_ALIGN_8BYTES: u32 = 0x00400000;

pub const IMAGE_SCN_ALIGN_16BYTES: u32 = 0x00500000;

pub const IMAGE_SCN_ALIGN_32BYTES: u32 = 0x00600000;

pub const IMAGE_SCN_ALIGN_64BYTES: u32 = 0x00700000;

pub const IMAGE_SCN_ALIGN_128BYTES: u32 = 0x00800000;

pub const IMAGE_SCN_ALIGN_256BYTES: u32 = 0x00900000;

pub const IMAGE_SCN_ALIGN_512BYTES: u32 = 0x00A00000;

pub const IMAGE_SCN_ALIGN_1024BYTES: u32 = 0x00B00000;

pub const IMAGE_SCN_ALIGN_2048BYTES: u32 = 0x00C00000;

pub const IMAGE_SCN_ALIGN_4096BYTES: u32 = 0x00D00000;

pub const IMAGE_SCN_ALIGN_8192BYTES: u32 = 0x00E00000;

/// Isolates the four alignment bits from a characteristics value.
pub const IMAGE_SCN_ALIGN_MASK: u32 = 0x00F00000;

/// The section contains extended relocations.
pub const IMAGE_SCN_LNK_NRELOC_OVFL: u32 = 0x01000000;

/// The section can be discarded as needed.
pub const IMAGE_SCN_MEM_DISCARDABLE: u32 = 0x02000000;

/// The section cannot be cached.
pub const IMAGE_SCN_MEM_NOT_CACHED: u32 = 0x04000000;

/// The section is not pageable.
pub const IMAGE_SCN_MEM_NOT_PAGED: u32 = 0x08000000;

/// The section can be shared in memory.
pub const IMAGE_SCN_MEM_SHARED: u32 = 0x10000000;

/// The section can be executed as code.
pub const IMAGE_SCN_MEM_EXECUTE: u32 = 0x20000000;

/// The section can be read.
pub const IMAGE_SCN_MEM_READ: u32 = 0x40000000;

/// The section can be written to.
pub const IMAGE_SCN_MEM_WRITE: u32 = 0x80000000;

} // verus!
