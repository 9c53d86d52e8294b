//! The heights that a new transaction is built for.

use crate::error::Error;
use vstd::prelude::*;

verus! {

/// How many blocks below the target height the anchor lies.
pub const ANCHOR_OFFSET: u32 = 10;

/// The height a transaction targets when the newest scanned block is at `max_height`.
pub open spec fn target_height(max_height: int) -> int {
    max_height + 1
}

/// The height whose commitment tree anchors the spends when the scanned blocks run from
/// `min_height` to `max_height`.
pub open spec fn anchor_height(min_height: int, max_height: int) -> int {
    if target_height(max_height) - ANCHOR_OFFSET >= min_height {
        target_height(max_height) - ANCHOR_OFFSET
    } else {
        min_height
    }
}

/// Determines the target height for a transaction, and the height from which to select
/// the anchor, out of the lowest and highest scanned block heights (`None` where no block
/// has been scanned).
pub fn get_target_and_anchor_heights(scanned: Option<(u32, u32)>) -> (heights: Result<
    (u32, u32),
    Error,
>)
    requires
        scanned matches Some((_, max_height)) ==> max_height < u32::MAX,
    ensures
        match scanned {
            None => heights matches Err(Error::ScanRequired),
            Some((min_height, max_height)) => {
                &&& heights matches Ok((target, anchor))
                &&& target == target_height(max_height as int)
                &&& anchor == anchor_height(min_height as int, max_height as int)
            },
        },
{
    match scanned {
        None => Err(Error::ScanRequired),
        Some((min_height, max_height)) => {
            let target: u32 = max_height + 1;
            let back: u32 = target.saturating_sub(ANCHOR_OFFSET);
            let anchor: u32 = if back >= min_height {
                back
            } else {
                min_height
            };
            Ok((target, anchor))
        },
    }
}

/// The anchor always is a scanned block, and lies `ANCHOR_OFFSET` blocks below the target
/// unless the chain scanned so far is too short for that.
pub proof fn lemma_anchor_is_scanned(min_height: int, max_height: int)
    requires
        min_height <= max_height,
    ensures
        min_height <= anchor_height(min_height, max_height) <= max_height,
        anchor_height(min_height, max_height) == target_height(max_height) - ANCHOR_OFFSET
            || anchor_height(min_height, max_height) == min_height,
{
}

/// Scanning further blocks never moves the anchor back.
pub proof fn lemma_anchor_never_moves_back(min_height: int, max_height: int, later: int)
    requires
        max_height <= later,
    ensures
        anchor_height(min_height, max_height) <= anchor_height(min_height, later),
{
}

} // verus!
