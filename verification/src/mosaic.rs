//! Laying nine pictures of one size out as one picture: three rows of three,
//! a margin apart.

use vstd::prelude::*;

verus! {

/// The pixels between two neighbouring pictures.
pub const MARGIN: u32 = 10;

/// The length of a side of the whole along which each picture measures
/// `tile`.
pub open spec fn mosaic_side(tile: int) -> int {
    3 * tile + 2 * MARGIN
}

/// Where on a side the picture in column or row `k` begins.
pub open spec fn mosaic_offset(k: int, tile: int) -> int {
    k * (tile + MARGIN)
}

/// The width and height of the whole for pictures of width `w` and height
/// `h`; `None` where one of them does not fit the type.
pub fn mosaic_size(w: u32, h: u32) -> (r: Option<(u32, u32)>)
    ensures
        r == if mosaic_side(w as int) <= u32::MAX && mosaic_side(h as int) <= u32::MAX {
            Some((mosaic_side(w as int) as u32, mosaic_side(h as int) as u32))
        } else {
            None
        },
{
    let wide: u64 = 3 * (w as u64) + 2 * (MARGIN as u64);
    let high: u64 = 3 * (h as u64) + 2 * (MARGIN as u64);
    if wide <= u32::MAX as u64 && high <= u32::MAX as u64 {
        Some((wide as u32, high as u32))
    } else {
        None
    }
}

/// The top left corner of picture `i` of the nine, counted row by row, for
/// pictures of width `w` and height `h` whose whole fits the type.
pub fn mosaic_origin(i: u32, w: u32, h: u32) -> (r: (u32, u32))
    requires
        i < 9,
        mosaic_side(w as int) <= u32::MAX,
        mosaic_side(h as int) <= u32::MAX,
    ensures
        r.0 == mosaic_offset(i as int % 3, w as int),
        r.1 == mosaic_offset(i as int / 3, h as int),
{
    let column: u32 = i % 3;
    let row: u32 = i / 3;
    proof {
        lemma_offset_fits(column as int, w as int);
        lemma_offset_fits(row as int, h as int);
    }
    (column * (w + MARGIN), row * (h + MARGIN))
}

/// A picture in one of the three columns or rows lies within the side, and
/// ends a margin before the next one begins.
pub proof fn lemma_offset_fits(k: int, tile: int)
    requires
        0 <= k < 3,
        0 <= tile,
    ensures
        0 <= mosaic_offset(k, tile),
        mosaic_offset(k, tile) + tile <= mosaic_side(tile),
        k < 2 ==> mosaic_offset(k, tile) + tile + MARGIN == mosaic_offset(k + 1, tile),
{
    assert(mosaic_offset(0, tile) == 0);
    assert(mosaic_offset(1, tile) == tile + MARGIN);
    assert(mosaic_offset(2, tile) == 2 * tile + 2 * MARGIN);
}

/// Every one of the nine pictures lies within the whole, and no two of them
/// share a pixel.
pub proof fn lemma_tiles_lie_apart(i: int, j: int, w: int, h: int)
    requires
        0 <= i < 9,
        0 <= j < 9,
        i != j,
        0 < w,
        0 < h,
    ensures
        mosaic_offset(i % 3, w) + w <= mosaic_side(w),
        mosaic_offset(i / 3, h) + h <= mosaic_side(h),
        mosaic_offset(i % 3, w) + w <= mosaic_offset(j % 3, w) || mosaic_offset(j % 3, w) + w
            <= mosaic_offset(i % 3, w) || mosaic_offset(i / 3, h) + h <= mosaic_offset(j / 3, h)
            || mosaic_offset(j / 3, h) + h <= mosaic_offset(i / 3, h),
{
    lemma_offset_fits(i % 3, w);
    lemma_offset_fits(i / 3, h);
    lemma_offset_fits(j % 3, w);
    lemma_offset_fits(j / 3, h);
    lemma_offset_fits(0, w);
    lemma_offset_fits(1, w);
    lemma_offset_fits(0, h);
    lemma_offset_fits(1, h);
}

} // verus!
