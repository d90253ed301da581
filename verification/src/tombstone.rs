//! The tombstone rule: an input can only be spent before its tombstone block, and a
//! tombstone may not lie too far in the future.

use vstd::prelude::*;

verus! {

/// The largest distance, in blocks, between the current block and a tombstone block.
pub const MAX_TOMBSTONE_BLOCKS: u64 = 20160;

/// Why a tombstone block is not acceptable at the current block.
#[derive(Clone, Copy, Debug, PartialEq, Eq, Structural)]
pub enum TombstoneError {
    /// The current block is at or past the tombstone block.
    TombstoneBlockExceeded,
    /// The tombstone block lies more than `MAX_TOMBSTONE_BLOCKS` past the current block.
    TombstoneBlockTooFar,
}

/// Whether a tombstone block is no longer acceptable at the current block.
pub open spec fn tombstone_expired(current_block_index: u64, tombstone_block_index: u64) -> bool {
    current_block_index >= tombstone_block_index || tombstone_block_index > current_block_index
        + MAX_TOMBSTONE_BLOCKS
}

/// Checks a tombstone block against the current block index.
pub fn validate_tombstone(current_block_index: u64, tombstone_block_index: u64) -> (r: Result<
    (),
    TombstoneError,
>)
    ensures
        r is Err <==> tombstone_expired(current_block_index, tombstone_block_index),
        r == Err::<(), TombstoneError>(TombstoneError::TombstoneBlockExceeded) <==> current_block_index
            >= tombstone_block_index,
{
    if current_block_index >= tombstone_block_index {
        return Err(TombstoneError::TombstoneBlockExceeded);
    }
    if tombstone_block_index - current_block_index > MAX_TOMBSTONE_BLOCKS {
        return Err(TombstoneError::TombstoneBlockTooFar);
    }
    Ok(())
}

} // verus!
