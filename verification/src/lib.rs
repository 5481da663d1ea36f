//! Verified core of a disk-installation pipeline.
//!
//! The library holds the logic of the installer: integrity-digest parsing
//! and validation, bootloader-entry text transforms, busy-partition
//! diagnostics, and the install state machine. All device and filesystem
//! I/O lives outside the library, in a thin driver that calls into it.

use vstd::prelude::*;

pub mod bls;
pub mod devguard;
pub mod errors;
pub mod hash;
pub mod pipeline;
pub mod strutil;

verus! {

/// The length, in bytes, of the zero-fill that destroys a partition table.
pub const WIPE_LEN: usize = 1048576;

/// A zero-filled block large enough to cover every offset where a
/// partition-table signature could live (the first 1 MiB of the device).
pub fn wipe_block() -> (r: Vec<u8>)
    ensures
        r@.len() == WIPE_LEN,
        forall|i: int| 0 <= i < r@.len() ==> r@[i] == 0u8,
{
    let mut v: Vec<u8> = Vec::new();
    let mut i: usize = 0;
    while i < WIPE_LEN
        invariant
            i <= WIPE_LEN,
            v@.len() == i,
            forall|j: int| 0 <= j < i ==> v@[j] == 0u8,
        decreases WIPE_LEN - i,
    {
        v.push(0u8);
        i = i + 1;
    }
    v
}

} // verus!
