//! Reader for the on-disk layout of VHDX virtual hard disk containers:
//! checksummed headers, the region table and the redo log.
use vstd::prelude::*;

pub mod bytes;
pub mod error;
pub mod guid;
pub mod header;
pub mod log;
pub mod signature;
pub mod vhdx;

pub use error::{Field, VhdxError};
pub use header::KnowRegion;
pub use guid::Guid;
pub use signature::Signature;

use crate::bytes::crc32c_of;

verus! {

/// One kibibyte.
pub const KB: u64 = 1024;

/// One mebibyte.
pub const MB: u64 = 1024 * 1024;

/// A decoded structure's consistency rules.
pub trait Validation {
    /// What validating the structure yields.
    spec fn validation(&self) -> Result<(), VhdxError>;

    fn validate(&self) -> (r: Result<(), VhdxError>)
        ensures
            r == self.validation(),
    ;
}

/// The checksum engine: a structure's on-disk layout, with its checksum
/// field and reserved space as zero bytes, fed to CRC-32C.
pub trait Crc32 {
    /// The bytes the checksum is computed over.
    spec fn crc_input(&self) -> Seq<u8>;

    fn append_crc_input(&self, buf: &mut Vec<u8>)
        ensures
            final(buf)@ == old(buf)@ + self.crc_input(),
    ;

    fn crc32(&self) -> (r: u32)
        ensures
            r == crc32c_of(self.crc_input()),
    ;
}

} // verus!
