//! The order in which the pixels of an image are produced.
//!
//! Pixels are addressed by column `i` (left to right) and row `j`, counted
//! from the bottom of the image as the camera's vertical coordinate is. They
//! are produced row by row from the top of the image down, each row from left
//! to right, so that the output keeps this order however the work is done.

use vstd::prelude::*;
use vstd::arithmetic::div_mod::{lemma_fundamental_div_mod, lemma_mod_pos_bound, lemma_div_pos_is_pos, lemma_fundamental_div_mod_converse};

verus! {

/// The size of an image in pixels.
#[derive(Clone, Copy, Debug, PartialEq, Eq, Structural)]
pub struct ImageSize {
    pub width: u32,
    pub height: u32,
}

/// The column of the `k`-th pixel produced.
pub open spec fn column_at(width: int, k: int) -> int {
    k % width
}

/// The row, counted from the bottom, of the `k`-th pixel produced.
pub open spec fn row_at(width: int, height: int, k: int) -> int {
    height - 1 - k / width
}

/// The position in the output of the pixel at column `i`, row `j`.
pub open spec fn scan_index(width: int, height: int, i: int, j: int) -> int {
    (height - 1 - j) * width + i
}

/// Splits a position of the output into the row from the top and the column.
proof fn lemma_split(width: int, height: int, k: int)
    requires
        0 < width,
        0 <= k < width * height,
    ensures
        0 <= k % width < width,
        0 <= k / width < height,
        k == (k / width) * width + k % width,
{
    lemma_fundamental_div_mod(k, width);
    lemma_mod_pos_bound(k, width);
    lemma_div_pos_is_pos(k, width);
    let q = k / width;
    let r = k % width;
    assert(q * width == width * q) by (nonlinear_arith);
    assert(q < height) by (nonlinear_arith)
        requires
            k == q * width + r,
            0 <= r,
            k < width * height,
            0 < width,
    ;
}

impl ImageSize {
    /// The number of pixels of the image.
    pub open spec fn count(self) -> int {
        self.width * self.height
    }

    /// Returns the number of pixels of the image.
    pub fn pixel_count(&self) -> (n: u64)
        ensures
            n == self.count(),
    {
        assert(self.width * self.height <= u32::MAX * u32::MAX) by (nonlinear_arith);
        (self.width as u64) * (self.height as u64)
    }

    /// Returns the column and the row (from the bottom) of the `k`-th pixel
    /// produced.
    pub fn pixel_at(&self, k: u64) -> (r: (u32, u32))
        requires
            k < self.count(),
        ensures
            r.0 == column_at(self.width as int, k as int),
            r.1 == row_at(self.width as int, self.height as int, k as int),
            r.0 < self.width,
            r.1 < self.height,
    {
        proof {
            lemma_split(self.width as int, self.height as int, k as int);
        }
        let w = self.width as u64;
        let i = (k % w) as u32;
        let j = (self.height as u64 - 1 - k / w) as u32;
        (i, j)
    }
}

/// Each pixel of the image is produced exactly once: the `k`-th pixel
/// produced lies in the image and comes at position `k`, and each pixel of the
/// image comes at a position before the end of the output.
pub proof fn lemma_scan_is_one_to_one(size: ImageSize, k: int, i: int, j: int)
    requires
        0 <= k < size.count(),
        0 <= i < size.width,
        0 <= j < size.height,
    ensures
        0 <= column_at(size.width as int, k) < size.width,
        0 <= row_at(size.width as int, size.height as int, k) < size.height,
        scan_index(
            size.width as int,
            size.height as int,
            column_at(size.width as int, k),
            row_at(size.width as int, size.height as int, k),
        ) == k,
        0 <= scan_index(size.width as int, size.height as int, i, j) < size.count(),
        column_at(size.width as int, scan_index(size.width as int, size.height as int, i, j)) == i,
        row_at(
            size.width as int,
            size.height as int,
            scan_index(size.width as int, size.height as int, i, j),
        ) == j,
{
    let w = size.width as int;
    let h = size.height as int;
    lemma_split(w, h, k);
    let q = h - 1 - j;
    let x = q * w + i;
    assert(0 <= x < w * h) by (nonlinear_arith)
        requires
            x == q * w + i,
            0 <= q < h,
            0 <= i < w,
    ;
    lemma_fundamental_div_mod_converse(x, w, q, i);
}

/// Rows come out from the top of the image down, and each row from left to
/// right: of two pixels, the one produced first lies in a higher row, or in the
/// same row further left.
pub proof fn lemma_scan_order(size: ImageSize, k1: int, k2: int)
    requires
        0 <= k1 < k2 < size.count(),
    ensures
        row_at(size.width as int, size.height as int, k1) > row_at(
            size.width as int,
            size.height as int,
            k2,
        ) || (row_at(size.width as int, size.height as int, k1) == row_at(
            size.width as int,
            size.height as int,
            k2,
        ) && column_at(size.width as int, k1) < column_at(size.width as int, k2)),
{
    let w = size.width as int;
    let h = size.height as int;
    lemma_split(w, h, k1);
    lemma_split(w, h, k2);
    let q1 = k1 / w;
    let q2 = k2 / w;
    let r1 = k1 % w;
    let r2 = k2 % w;
    assert(q1 < q2 || (q1 == q2 && r1 < r2)) by (nonlinear_arith)
        requires
            k1 == q1 * w + r1,
            k2 == q2 * w + r2,
            0 <= r1 < w,
            0 <= r2 < w,
            k1 < k2,
    ;
}

} // verus!
