//! Packs arbitrary byte payloads into fixed-size EIP-4844-style blobs.
//!
//! A blob is a fixed-length array of 32-byte field elements; a field element
//! must stay below a large prime modulus, so only some of its bits may carry
//! payload. Two strategies are offered:
//!
//! - the byte-aligned packer in [`packer`], which uses 31 of the 32 bytes of
//!   every field element, and
//! - the bit-aligned packer in [`packer_tight`], which uses 254 of the 256
//!   bits of every field element.
//!
//! Both append a `0x80` marker byte followed by zero-fill to the payload, so
//! that the original byte sequence can be recovered exactly from the blobs.

use vstd::prelude::*;

pub mod bits;
pub mod pad;
pub mod packer;
pub mod packer_tight;

verus! {

/// Failure of packing or unpacking.
#[derive(Debug, Clone, Copy, PartialEq, Eq, Structural)]
pub enum PackingError {
    /// The input is empty or exceeds the capacity of one transaction.
    DataLengthError,
    /// No valid padding marker was found while unpacking.
    UnpadError,
}

} // verus!
