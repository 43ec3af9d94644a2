//! Decoded luma frames.
//!
//! Logo learning and detection, and scene-change detection, all work on the
//! luma plane alone, so the reader asks ffmpeg for `gray` and nothing else.
//!
//! The frame index must map exactly onto a timestamp, because a cut placed one
//! frame out is a cut placed in the wrong place. That is why the spacing of
//! frames is kept as a ratio of whole numbers.

use vstd::prelude::*;
use crate::analyze::TIME_LIMIT;

verus! {

/// How far apart consecutive frames are: `micros` microseconds pass every
/// `frames` frames.
#[derive(Debug, Clone, Copy, PartialEq, Eq, Structural)]
pub struct FrameSpacing {
    /// Microseconds.
    pub micros: u64,
    /// Frames in that time.
    pub frames: u64,
}

impl FrameSpacing {
    /// There is some number of frames to divide by.
    pub open spec fn wf(self) -> bool {
        self.frames > 0
    }

    /// When a frame is shown, in whole microseconds.
    pub open spec fn moment(self, index: int) -> int {
        (index * self.micros) / (self.frames as int)
    }

    /// Frames up to this one are shown within the limit on moments.
    pub open spec fn reaches(self, index: int) -> bool {
        self.wf() && self.moment(index) <= TIME_LIMIT
    }

    /// When a frame is shown, in microseconds.
    #[must_use]
    pub fn time_of(&self, index: u64) -> (moment: i64)
        requires
            self.reaches(index as int),
        ensures
            moment == self.moment(index as int),
            0 <= moment <= TIME_LIMIT,
    {
        proof {
            moment_is_monotonic(*self, 0, index as int);
            assert(index * self.micros <= u64::MAX * u64::MAX) by (nonlinear_arith)
                requires
                    0 <= index <= u64::MAX,
                    0 <= self.micros <= u64::MAX,
            ;
        }
        (index as u128 * self.micros as u128 / self.frames as u128) as i64
    }

    /// Whether frames up to this one are shown within the limit on moments.
    #[must_use]
    pub fn can_reach(&self, index: u64) -> (yes: bool)
        ensures
            yes == self.reaches(index as int),
    {
        proof {
            assert(0 <= index * self.micros <= u64::MAX * u64::MAX) by (nonlinear_arith)
                requires
                    0 <= index <= u64::MAX,
                    0 <= self.micros <= u64::MAX,
            ;
        }
        self.frames > 0 && index as u128 * self.micros as u128 / self.frames as u128
            <= TIME_LIMIT as u128
    }
}

/// Later frames are never shown earlier.
pub proof fn moment_is_monotonic(spacing: FrameSpacing, early: int, late: int)
    requires
        spacing.wf(),
        0 <= early <= late,
    ensures
        0 <= spacing.moment(early) <= spacing.moment(late),
{
    assert(0 <= early * spacing.micros <= late * spacing.micros) by (nonlinear_arith)
        requires
            0 <= early <= late,
            0 <= spacing.micros,
    ;
    vstd::arithmetic::div_mod::lemma_div_is_ordered(
        early * spacing.micros,
        late * spacing.micros,
        spacing.frames as int,
    );
    vstd::arithmetic::div_mod::lemma_div_pos_is_pos(
        early * spacing.micros,
        spacing.frames as int,
    );
}

/// One decoded frame, borrowing the reader's buffer.
#[derive(Debug)]
pub struct Frame<'a> {
    /// Zero-based index in the sequence this reader produced.
    pub index: u64,
    /// Position in the recording, in microseconds.
    pub timestamp: i64,
    /// Frame width in pixels.
    pub width: u32,
    /// Frame height in pixels.
    pub height: u32,
    /// Luma plane, one byte per pixel, row-major with no padding.
    pub luma: &'a [u8],
}

/// The offset of a pixel in a row-major plane.
pub open spec fn offset_of(x: int, y: int, width: int) -> int {
    y * width + x
}

/// The offset of a pixel in a row-major plane.
pub fn pixel_offset(x: u32, y: u32, width: u32) -> (offset: u64)
    ensures
        offset == offset_of(x as int, y as int, width as int),
{
    assert(0 <= y * width <= 0xffff_ffff * 0xffff_ffff) by (nonlinear_arith)
        requires
            0 <= y <= 0xffff_ffff,
            0 <= width <= 0xffff_ffff,
    ;
    y as u64 * width as u64 + x as u64
}

/// Pixels of one row are laid out before those of the next.
pub proof fn offsets_fit(x: int, y: int, width: int, height: int)
    requires
        0 <= x < width,
        0 <= y < height,
    ensures
        0 <= offset_of(x, y, width) < width * height,
{
    assert(0 <= y * width && y * width + width <= width * height) by (nonlinear_arith)
        requires
            0 <= y,
            y + 1 <= height,
            0 <= width,
    ;
}

/// Two pixels share an offset only if they are the same pixel.
pub proof fn offsets_differ(x1: int, y1: int, x2: int, y2: int, width: int)
    requires
        0 <= x1 < width,
        0 <= x2 < width,
        offset_of(x1, y1, width) == offset_of(x2, y2, width),
    ensures
        x1 == x2,
        y1 == y2,
{
    assert(y1 == y2) by (nonlinear_arith)
        requires
            0 <= x1 < width,
            0 <= x2 < width,
            y1 * width + x1 == y2 * width + x2,
    ;
}

/// What the plane holds at an offset, and nothing past its end.
pub open spec fn luma_at(luma: Seq<u8>, offset: int) -> Option<u8> {
    if 0 <= offset < luma.len() {
        Some(luma[offset])
    } else {
        None
    }
}

/// The sum of part of a row, ignoring what the plane does not hold.
pub open spec fn row_total(luma: Seq<u8>, base: int, from: int, to: int) -> int
    decreases to - from,
{
    if to <= from {
        0
    } else {
        row_total(luma, base, from, to - 1) + match luma_at(luma, base + to - 1) {
            Some(value) => value as int,
            None => 0,
        }
    }
}

/// How many of those pixels the plane holds.
pub open spec fn row_count(luma: Seq<u8>, base: int, from: int, to: int) -> int
    decreases to - from,
{
    if to <= from {
        0
    } else {
        row_count(luma, base, from, to - 1) + match luma_at(luma, base + to - 1) {
            Some(_) => 1int,
            None => 0,
        }
    }
}

/// A rectangle of source pixels, by its bounds.
pub ghost struct Block {
    /// First column.
    pub x0: int,
    /// One past the last column.
    pub x1: int,
    /// First row.
    pub y0: int,
    /// One past the last row.
    pub y1: int,
}

/// The sum of the first `rows` rows of a block.
pub open spec fn block_total(luma: Seq<u8>, width: int, block: Block, to: int) -> int
    decreases to - block.y0,
{
    if to <= block.y0 {
        0
    } else {
        block_total(luma, width, block, to - 1) + row_total(
            luma,
            (to - 1) * width,
            block.x0,
            block.x1,
        )
    }
}

/// How many pixels of the block above row `to` the plane holds.
pub open spec fn block_count(luma: Seq<u8>, width: int, block: Block, to: int) -> int
    decreases to - block.y0,
{
    if to <= block.y0 {
        0
    } else {
        block_count(luma, width, block, to - 1) + row_count(
            luma,
            (to - 1) * width,
            block.x0,
            block.x1,
        )
    }
}

/// Where a destination cell begins in the source.
pub open spec fn cell_start(cell: int, source: int, target: int) -> int {
    cell * source / target
}

/// Where a destination cell ends in the source: at least one pixel on, and
/// never past the edge.
pub open spec fn cell_end(cell: int, source: int, target: int) -> int {
    let end = (cell + 1) * source / target;
    let least = cell_start(cell, source, target) + 1;
    let wide = if end > least { end } else { least };
    if wide < source { wide } else { source }
}

impl<'a> Frame<'a> {
    /// The luma at a pixel, where there is one.
    pub open spec fn spec_pixel(self, x: int, y: int) -> Option<u8> {
        if 0 <= x < self.width && 0 <= y < self.height {
            luma_at(self.luma@, offset_of(x, y, self.width as int))
        } else {
            None
        }
    }

    /// The source block one destination pixel covers.
    pub open spec fn block(self, x: int, y: int, width: int, height: int) -> Block {
        Block {
            x0: cell_start(x, self.width as int, width),
            x1: cell_end(x, self.width as int, width),
            y0: cell_start(y, self.height as int, height),
            y1: cell_end(y, self.height as int, height),
        }
    }

    /// One destination pixel: the mean of the source pixels it covers, or
    /// zero where it covers none.
    pub open spec fn reduced(self, x: int, y: int, width: int, height: int) -> int {
        let block = self.block(x, y, width, height);
        let count = block_count(self.luma@, self.width as int, block, block.y1);
        if count == 0 {
            0
        } else {
            block_total(self.luma@, self.width as int, block, block.y1) / count
        }
    }

    /// Sample the luma plane at a pixel, or `None` when out of bounds.
    #[must_use]
    pub fn pixel(&self, x: u32, y: u32) -> (value: Option<u8>)
        ensures
            value == self.spec_pixel(x as int, y as int),
    {
        if x >= self.width || y >= self.height {
            return None;
        }
        let offset: u64 = pixel_offset(x, y, self.width);
        if offset < self.luma.len() as u64 {
            Some(self.luma[offset as usize])
        } else {
            None
        }
    }

    /// Box-downscale into `out`, which must hold `width * height` bytes.
    ///
    /// Scene-change detection wants a small frame; doing the reduction here
    /// rather than in a second ffmpeg filter keeps the pass to one decode.
    pub fn downscale_into(&self, width: u32, height: u32, out: &mut Vec<u8>)
        ensures
            final(out)@.len() == old(out)@.len(),
            width == 0 || height == 0 || old(out)@.len() < width * height ==> final(out)@ == old(
                out,
            )@,
            width > 0 && height > 0 && old(out)@.len() >= width * height ==> forall|x: int, y: int|
                0 <= x < width && 0 <= y < height ==> #[trigger] final(out)@[offset_of(
                    x,
                    y,
                    width as int,
                )] == self.reduced(x, y, width as int, height as int),
            forall|i: int|
                width * height <= i < old(out)@.len() ==> #[trigger] final(out)@[i] == old(
                    out,
                )@[i],
    {
        if width == 0 || height == 0 || (out.len() as u64) < pixel_offset(0, height, width) {
            return;
        }
        let ghost size = width * height;
        for y in 0..height
            invariant
                width > 0,
                height > 0,
                size == width * height,
                out@.len() == old(out)@.len(),
                out@.len() >= size,
                forall|i: int| size <= i < out@.len() ==> #[trigger] out@[i] == old(out)@[i],
                forall|px: int, py: int|
                    0 <= px < width && 0 <= py < y ==> #[trigger] out@[offset_of(
                        px,
                        py,
                        width as int,
                    )] == self.reduced(px, py, width as int, height as int),
        {
            for x in 0..width
                invariant
                    width > 0,
                    height > 0,
                    y < height,
                    size == width * height,
                    out@.len() == old(out)@.len(),
                    out@.len() >= size,
                    forall|i: int| size <= i < out@.len() ==> #[trigger] out@[i] == old(out)@[i],
                    forall|px: int, py: int|
                        0 <= px < width && (0 <= py < y || (py == y && px < x))
                            ==> #[trigger] out@[offset_of(px, py, width as int)] == self.reduced(
                            px,
                            py,
                            width as int,
                            height as int,
                        ),
            {
                let value: u8 = self.reduce(x, y, width, height);
                proof {
                    offsets_fit(x as int, y as int, width as int, height as int);
                }
                let offset: u64 = pixel_offset(x, y, width);
                assert(offset < out.len());
                let slot: usize = offset as usize;
                let ghost before = out@;
                out.set(slot, value);
                assert forall|px: int, py: int|
                    0 <= px < width && (0 <= py < y || (py == y && px < x + 1)) implies #[trigger] out@[offset_of(
                    px,
                    py,
                    width as int,
                )] == self.reduced(px, py, width as int, height as int) by {
                    let at = offset_of(px, py, width as int);
                    offsets_fit(px, py, width as int, height as int);
                    if at == slot {
                        offsets_differ(px, py, x as int, y as int, width as int);
                    } else {
                        assert(before[at] == self.reduced(px, py, width as int, height as int));
                    }
                }
            }
        }
    }

    /// One destination pixel of a reduction.
    fn reduce(&self, x: u32, y: u32, width: u32, height: u32) -> (value: u8)
        requires
            x < width,
            y < height,
        ensures
            value == self.reduced(x as int, y as int, width as int, height as int),
    {
        let (x0, x1) = cell_bounds(x, self.width, width);
        let (y0, y1) = cell_bounds(y, self.height, height);
        let ghost block = self.block(x as int, y as int, width as int, height as int);
        let mut total: u128 = 0;
        let mut count: u64 = 0;
        let mut row: u64 = y0;
        while row < y1
            invariant
                block == self.block(x as int, y as int, width as int, height as int),
                x0 == block.x0,
                x1 == block.x1,
                y0 == block.y0,
                y1 == block.y1,
                y1 <= 0xffff_ffff,
                x1 <= 0xffff_ffff,
                y0 <= row,
                row <= y1 || row == y0,
                total == block_total(self.luma@, self.width as int, block, row as int),
                count == block_count(self.luma@, self.width as int, block, row as int),
                total <= count * 255,
                count <= (row - y0) * 0xffff_ffff,
            decreases y1 - row,
        {
            assert(0 <= row * self.width <= 0xffff_ffff * 0xffff_ffff) by (nonlinear_arith)
                requires
                    0 <= row <= 0xffff_ffff,
                    0 <= self.width <= 0xffff_ffff,
            ;
            let base: u64 = row * self.width as u64;
            let ghost total_before = total;
            let ghost count_before = count;
            let mut column: u64 = x0;
            while column < x1
                invariant
                    x0 <= column,
                    column <= x1 || column == x0,
                    x1 <= 0xffff_ffff,
                    base <= 0xffff_ffff * 0xffff_ffff,
                    total == total_before + row_total(
                        self.luma@,
                        base as int,
                        x0 as int,
                        column as int,
                    ),
                    count == count_before + row_count(
                        self.luma@,
                        base as int,
                        x0 as int,
                        column as int,
                    ),
                    total <= count * 255,
                    count_before <= 0xffff_fffe * 0xffff_ffff,
                    count <= count_before + (column - x0),
                decreases x1 - column,
            {
                let offset: u64 = base + column;
                if offset < self.luma.len() as u64 {
                    total += self.luma[offset as usize] as u128;
                    count += 1;
                }
                column += 1;
            }
            row += 1;
        }
        if count == 0 {
            return 0;
        }
        assert(0 <= total as int / count as int <= 255) by (nonlinear_arith)
            requires
                0 <= total <= count * 255,
                count > 0,
        ;
        (total / count as u128) as u8
    }
}

/// The run of source pixels one destination cell covers.
fn cell_bounds(cell: u32, source: u32, target: u32) -> (bounds: (u64, u64))
    requires
        cell < target,
    ensures
        bounds.0 == cell_start(cell as int, source as int, target as int),
        bounds.1 == cell_end(cell as int, source as int, target as int),
        bounds.0 <= source,
        bounds.1 <= source,
{
    proof {
        assert(0 <= cell * source <= (cell + 1) * source <= target * source) by (nonlinear_arith)
            requires
                0 <= cell < target,
                0 <= source,
        ;
        assert(target * source <= 0xffff_ffff * 0xffff_ffff) by (nonlinear_arith)
            requires
                0 <= target <= 0xffff_ffff,
                0 <= source <= 0xffff_ffff,
        ;
        assert(target * source / (target as int) == source) by {
            vstd::arithmetic::div_mod::lemma_div_multiples_vanish(source as int, target as int);
        }
        vstd::arithmetic::div_mod::lemma_div_is_ordered(
            cell * source,
            target * source,
            target as int,
        );
        vstd::arithmetic::div_mod::lemma_div_pos_is_pos(cell * source, target as int);
        vstd::arithmetic::div_mod::lemma_div_is_ordered(
            (cell + 1) * source,
            target * source,
            target as int,
        );
    }
    let start: u64 = cell as u64 * source as u64 / target as u64;
    let end: u64 = (cell as u64 + 1) * source as u64 / target as u64;
    let least: u64 = start + 1;
    let wide: u64 = if end > least { end } else { least };
    let end: u64 = if wide < source as u64 { wide } else { source as u64 };
    (start, end)
}

} // verus!
