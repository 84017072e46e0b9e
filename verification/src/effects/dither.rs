//! The ordered-dither pattern: a 4x4 Bayer matrix tiled over the frame.

use vstd::prelude::*;

verus! {

/// The 4x4 Bayer matrix, row by row.
pub open spec fn bayer_matrix() -> Seq<Seq<u8>> {
    seq![seq![0u8, 8, 2, 10], seq![12u8, 4, 14, 6], seq![3u8, 11, 1, 9], seq![15u8, 7, 13, 5]]
}

/// The rank (0 to 15) of pixel `(x, y)` in the tiled Bayer pattern.
pub open spec fn bayer_rank(x: u32, y: u32) -> u8 {
    bayer_matrix()[(y % 4) as int][(x % 4) as int]
}

/// The rank of pixel `(x, y)` in the tiled 4x4 Bayer pattern.
pub fn bayer_value(x: u32, y: u32) -> (v: u8)
    ensures
        v == bayer_rank(x, y),
{
    let row = y % 4;
    let col = x % 4;
    let r: [u8; 4] = if row == 0 {
        [0, 8, 2, 10]
    } else if row == 1 {
        [12, 4, 14, 6]
    } else if row == 2 {
        [3, 11, 1, 9]
    } else {
        [15, 7, 13, 5]
    };
    assert(r@ == bayer_matrix()[row as int]);
    r[col as usize]
}

/// The pattern repeats every four pixels across and down.
pub proof fn lemma_bayer_tiles(x: u32, y: u32)
    requires
        x + 4 <= u32::MAX,
        y + 4 <= u32::MAX,
    ensures
        bayer_rank((x + 4) as u32, y) == bayer_rank(x, y),
        bayer_rank(x, (y + 4) as u32) == bayer_rank(x, y),
{
}

/// Each rank from 0 to 15 appears exactly once in every 4x4 tile.
pub proof fn lemma_bayer_ranks_distinct(x1: u32, y1: u32, x2: u32, y2: u32)
    requires
        (x1 % 4, y1 % 4) != (x2 % 4, y2 % 4),
    ensures
        bayer_rank(x1, y1) != bayer_rank(x2, y2),
        bayer_rank(x1, y1) < 16,
{
}

} // verus!
