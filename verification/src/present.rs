//! Handing a finished frame to the presentation surface.
//!
//! The surface lends out its pixels as a run of bytes whose rows may be
//! further apart than a row of pixels is long. [`blit`] copies the frame
//! into it row by row and leaves the bytes between the rows alone.

use crate::sim_interface::{Bitmap, Canvas};
use vstd::prelude::*;

verus! {

/// Index of byte `j` of row `y` where rows are `pitch` bytes apart.
pub open spec fn row_byte(pitch: int, y: int, j: int) -> int {
    y * pitch + j
}

/// Index `i` is one of the first `row_len` bytes of a row before `rows`, or
/// one of the first `extra` bytes of row `rows`.
pub open spec fn written(i: int, pitch: int, row_len: int, rows: int, extra: int) -> bool {
    exists|y: int, j: int|
        0 <= y <= rows && 0 <= j < row_len && (y < rows || j < extra) && i == #[trigger] row_byte(
            pitch,
            y,
            j,
        )
}

/// Rows that are at least a row's length apart do not overlap: a byte of an
/// earlier row lies before a later row starts.
proof fn lemma_rows_in_order(pitch: int, row_len: int, y1: int, j1: int, y2: int)
    requires
        0 <= y1 < y2,
        0 <= j1 < row_len <= pitch,
    ensures
        0 <= row_byte(pitch, y1, j1) < row_byte(pitch, y2, 0),
{
    assert(0 <= y1 * pitch && y1 * pitch + pitch <= y2 * pitch) by (nonlinear_arith)
        requires
            0 <= y1 < y2,
            0 <= pitch,
    ;
}

/// A `width` by `height` corner of `canvas` can be copied into `len` bytes
/// whose rows are `pitch` bytes apart: the corner lies on the canvas, the
/// rows of the target do not overlap, and its last row ends within it.
pub open spec fn can_hold(canvas: Canvas, width: int, height: int, len: int, pitch: int) -> bool {
    &&& canvas.wf()
    &&& width <= canvas.width
    &&& height <= canvas.height
    &&& width * 4 <= pitch
    &&& height > 0 ==> (height - 1) * pitch + width * 4 <= len
}

/// Tests [`can_hold`].
pub fn fits(bitmap: &Bitmap, width: usize, height: usize, len: usize, pitch: usize) -> (ok: bool)
    ensures
        ok == can_hold(bitmap@, width as int, height as int, len as int, pitch as int),
{
    if !bitmap.is_wf() || width > bitmap.width || height > bitmap.height {
        return false;
    }
    let row: usize = width * 4;
    if row > pitch {
        return false;
    }
    if height == 0 {
        return true;
    }
    match (height - 1).checked_mul(pitch) {
        Some(rows) => match rows.checked_add(row) {
            Some(end) => end <= len,
            None => false,
        },
        None => false,
    }
}

/// Copies the top-left `width` by `height` pixels of `bitmap` into `buffer`,
/// whose rows are `pitch` bytes apart. Every other byte of `buffer` keeps
/// its value.
pub fn blit(bitmap: &Bitmap, width: usize, height: usize, buffer: &mut [u8], pitch: usize)
    requires
        can_hold(bitmap@, width as int, height as int, old(buffer)@.len() as int, pitch as int),
    ensures
        final(buffer)@.len() == old(buffer)@.len(),
        forall|y: int, j: int|
            0 <= y < height && 0 <= j < width * 4 ==> final(buffer)@[#[trigger] row_byte(
                pitch as int,
                y,
                j,
            )] == bitmap.memory@[row_byte(bitmap.pitch as int, y, j)],
        forall|i: int|
            0 <= i < old(buffer)@.len() && !written(i, pitch as int, width * 4, height as int, 0)
                ==> final(buffer)@[i] == old(buffer)@[i],
{
    let row_len: usize = width * 4;
    let source_len: usize = bitmap.memory.len();
    let target_len: usize = buffer.len();
    let mut y: usize = 0;
    while y < height
        invariant
            y <= height,
            row_len == width * 4,
            row_len <= pitch,
            row_len <= bitmap.pitch,
            bitmap@.wf(),
            height <= bitmap.height,
            source_len == bitmap.memory@.len(),
            target_len == buffer@.len(),
            buffer@.len() == old(buffer)@.len(),
            height > 0 ==> (height - 1) * pitch + row_len <= buffer@.len(),
            forall|y0: int, j0: int|
                0 <= y0 < y && 0 <= j0 < row_len ==> buffer@[#[trigger] row_byte(
                    pitch as int,
                    y0,
                    j0,
                )] == bitmap.memory@[row_byte(bitmap.pitch as int, y0, j0)],
            forall|i: int|
                0 <= i < buffer@.len() && !written(i, pitch as int, row_len as int, y as int, 0)
                    ==> buffer@[i] == old(buffer)@[i],
        decreases height - y,
    {
        proof {
            assert(0 <= y * pitch <= (height - 1) * pitch) by (nonlinear_arith)
                requires
                    0 <= y <= height - 1,
                    0 <= pitch,
            ;
            assert(0 <= y * bitmap.pitch && y * bitmap.pitch + bitmap.pitch <= bitmap.pitch
                * bitmap.height) by (nonlinear_arith)
                requires
                    0 <= y < bitmap.height,
                    0 <= bitmap.pitch,
            ;
        }
        let target: usize = y * pitch;
        let source: usize = y * bitmap.pitch;
        let mut j: usize = 0;
        while j < row_len
            invariant
                y < height,
                j <= row_len,
                row_len <= pitch,
                target == y * pitch,
                source == y * bitmap.pitch,
                target + row_len <= target_len == buffer@.len(),
                source + row_len <= source_len == bitmap.memory@.len(),
                buffer@.len() == old(buffer)@.len(),
                forall|y0: int, j0: int|
                    0 <= y0 <= y && 0 <= j0 < row_len && (y0 < y || j0 < j) ==> buffer@[#[trigger] row_byte(
                        pitch as int,
                        y0,
                        j0,
                    )] == bitmap.memory@[row_byte(bitmap.pitch as int, y0, j0)],
                forall|i: int|
                    0 <= i < buffer@.len() && !written(
                        i,
                        pitch as int,
                        row_len as int,
                        y as int,
                        j as int,
                    ) ==> buffer@[i] == old(buffer)@[i],
            decreases row_len - j,
        {
            let ghost before = buffer@;
            buffer[target + j] = bitmap.memory[source + j];
            proof {
                let p = pitch as int;
                assert(target + j == row_byte(p, y as int, j as int));
                assert forall|y0: int, j0: int|
                    0 <= y0 <= y && 0 <= j0 < row_len && (y0 < y || j0 < j + 1) implies buffer@[#[trigger] row_byte(
                    p,
                    y0,
                    j0,
                )] == bitmap.memory@[row_byte(bitmap.pitch as int, y0, j0)] by {
                    if y0 < y {
                        lemma_rows_in_order(p, row_len as int, y0, j0, y as int);
                    }
                }
                assert forall|i: int|
                    0 <= i < buffer@.len() && !written(
                        i,
                        p,
                        row_len as int,
                        y as int,
                        j + 1,
                    ) implies buffer@[i] == old(buffer)@[i] by {
                    if i == target + j {
                        assert(written(i, p, row_len as int, y as int, j + 1));
                    }
                    if written(i, p, row_len as int, y as int, j as int) {
                        let (y0, j0) = choose|y0: int, j0: int|
                            0 <= y0 <= y && 0 <= j0 < row_len && (y0 < y || j0 < j) && i
                                == #[trigger] row_byte(p, y0, j0);
                        assert(i == row_byte(p, y0, j0));
                        assert(written(i, p, row_len as int, y as int, j + 1));
                    }
                    assert(before[i] == old(buffer)@[i]);
                }
            }
            j += 1;
        }
        proof {
            let p = pitch as int;
            assert forall|i: int|
                0 <= i < buffer@.len() && !written(
                    i,
                    p,
                    row_len as int,
                    y + 1,
                    0,
                ) implies buffer@[i] == old(buffer)@[i] by {
                if written(i, p, row_len as int, y as int, row_len as int) {
                    let (y0, j0) = choose|y0: int, j0: int|
                        0 <= y0 <= y && 0 <= j0 < row_len && (y0 < y || j0 < row_len) && i
                            == #[trigger] row_byte(p, y0, j0);
                    assert(i == row_byte(p, y0, j0));
                    assert(written(i, p, row_len as int, y + 1, 0));
                }
            }
        }
        y += 1;
    }
}

} // verus!
