//! The raster canvas: a width x height grid of colors, stored row by row.

use vstd::prelude::*;

pub mod colors;
pub mod diff;
pub mod task;

verus! {

/// Color of a pixel: plain RGB.
#[derive(Clone, Copy, Debug, PartialEq, Eq, Structural)]
pub struct PixelColor {
    pub r: u8,
    pub g: u8,
    pub b: u8,
}

/// A cell of the canvas together with its color.
#[derive(Clone, Copy, Debug, PartialEq, Eq, Structural)]
pub struct Pixel {
    pub x: u16,
    pub y: u16,
    pub color: PixelColor,
}

/// Canvas state. Cell `(x, y)` is stored at index `y * width + x`.
#[derive(Debug, PartialEq, Eq)]
pub struct Canvas {
    width: u16,
    height: u16,
    data: Vec<PixelColor>,
}

/// The pixel that stands at position `i` of a row-major walk over a canvas
/// `width` cells wide whose colors, in that order, are `cells`.
pub open spec fn pixel_at(cells: Seq<PixelColor>, width: int, i: int) -> Pixel {
    Pixel { x: (i % width) as u16, y: (i / width) as u16, color: cells[i] }
}

/// All pixels of a canvas, row by row: `y` ascending, and `x` ascending
/// within a row.
pub open spec fn row_major(cells: Seq<PixelColor>, width: int) -> Seq<Pixel> {
    Seq::new(cells.len(), |i: int| pixel_at(cells, width, i))
}

/// The colors of a `width` x `height` grid after one write: the cell that
/// `pixel` names takes its color; a write outside the grid changes nothing.
pub open spec fn write_cell(
    cells: Seq<PixelColor>,
    width: int,
    height: int,
    pixel: Pixel,
) -> Seq<PixelColor> {
    if pixel.x < width && pixel.y < height {
        cells.update(pixel.y * width + pixel.x, pixel.color)
    } else {
        cells
    }
}

/// The colors of a grid after the writes of `writes`, applied first to last.
pub open spec fn apply_writes(
    cells: Seq<PixelColor>,
    width: int,
    height: int,
    writes: Seq<Pixel>,
) -> Seq<PixelColor>
    decreases writes.len(),
{
    if writes.len() == 0 {
        cells
    } else {
        write_cell(
            apply_writes(cells, width, height, writes.drop_last()),
            width,
            height,
            writes.last(),
        )
    }
}

impl Canvas {
    /// Number of columns.
    pub closed spec fn spec_width(&self) -> int {
        self.width as int
    }

    /// Number of rows.
    pub closed spec fn spec_height(&self) -> int {
        self.height as int
    }

    /// The colors of all cells, row by row.
    pub closed spec fn cells(&self) -> Seq<PixelColor> {
        self.data@
    }

    /// The grid holds exactly one color per cell.
    pub open spec fn wf(&self) -> bool {
        &&& 0 <= self.spec_width() <= u16::MAX
        &&& 0 <= self.spec_height() <= u16::MAX
        &&& self.cells().len() == self.spec_width() * self.spec_height()
    }

    /// `(x, y)` names a cell of this canvas.
    pub open spec fn in_bounds(&self, x: int, y: int) -> bool {
        0 <= x < self.spec_width() && 0 <= y < self.spec_height()
    }

    /// The color of cell `(x, y)`.
    pub open spec fn color_at(&self, x: int, y: int) -> PixelColor {
        self.cells()[y * self.spec_width() + x]
    }

    /// Creates a canvas of the given size, every cell white.
    pub fn new(width: u16, height: u16) -> (canvas: Self)
        ensures
            canvas.wf(),
            canvas.spec_width() == width,
            canvas.spec_height() == height,
            forall|i: int| 0 <= i < canvas.cells().len() ==> canvas.cells()[i] == colors::white(),
    {
        proof {
            lemma_grid_fits(width as int, height as int);
        }
        let data = vec![colors::white(); (width as usize) * (height as usize)];
        Canvas { width, height, data }
    }

    /// The color at `(x, y)`, or `None` outside the canvas.
    pub fn get_pixel(&self, x: u16, y: u16) -> (color: Option<PixelColor>)
        requires
            self.wf(),
        ensures
            color == if self.in_bounds(x as int, y as int) {
                Some(self.color_at(x as int, y as int))
            } else {
                None
            },
    {
        if x >= self.width || y >= self.height {
            return None;
        }
        proof {
            lemma_cell_index(x as int, y as int, self.width as int, self.height as int);
            lemma_grid_fits(self.width as int, self.height as int);
        }
        let index: usize = (y as usize) * (self.width as usize) + (x as usize);
        Some(self.data[index])
    }

    /// Sets the color at `(x, y)`.
    ///
    /// Outside the canvas nothing changes and `Err(())` is returned.
    pub fn set_pixel(&mut self, x: u16, y: u16, color: PixelColor) -> (outcome: Result<(), ()>)
        requires
            old(self).wf(),
        ensures
            final(self).wf(),
            final(self).spec_width() == old(self).spec_width(),
            final(self).spec_height() == old(self).spec_height(),
            outcome.is_ok() == old(self).in_bounds(x as int, y as int),
            final(self).cells() == write_cell(
                old(self).cells(),
                old(self).spec_width(),
                old(self).spec_height(),
                Pixel { x, y, color },
            ),
    {
        if x >= self.width || y >= self.height {
            return Err(());
        }
        proof {
            lemma_cell_index(x as int, y as int, self.width as int, self.height as int);
            lemma_grid_fits(self.width as int, self.height as int);
        }
        let index: usize = (y as usize) * (self.width as usize) + (x as usize);
        self.data[index] = color;
        Ok(())
    }

    /// Number of columns.
    pub fn width(&self) -> (width: u16)
        ensures
            width == self.spec_width(),
    {
        self.width
    }

    /// Number of rows.
    pub fn height(&self) -> (height: u16)
        ensures
            height == self.spec_height(),
    {
        self.height
    }
}

impl Clone for Canvas {
    /// A snapshot: same size, same color in every cell.
    fn clone(&self) -> (copy: Self)
        ensures
            copy.spec_width() == self.spec_width(),
            copy.spec_height() == self.spec_height(),
            copy.cells() == self.cells(),
    {
        let data = self.data.clone();
        assert(data@ =~= self.data@);
        Canvas { width: self.width, height: self.height, data }
    }
}

impl Canvas {
    /// All pixels of the canvas, row by row.
    pub open spec fn spec_pixels(&self) -> Seq<Pixel> {
        row_major(self.cells(), self.spec_width())
    }

    /// A cursor over all pixels of the canvas, row by row.
    pub fn pixels<'a>(&'a self) -> (iter: CanvasPixelIter<'a>)
        requires
            self.wf(),
        ensures
            iter.wf(),
            iter.spec_canvas() == self,
            iter.spec_position() == 0,
            iter.spec_remaining() == self.spec_pixels(),
    {
        CanvasPixelIter::new(self)
    }
}

/// A cursor that walks a canvas row by row, left to right.
pub struct CanvasPixelIter<'a> {
    canvas: &'a Canvas,
    x: u16,
    y: u16,
}

impl<'a> CanvasPixelIter<'a> {
    /// The canvas that the cursor walks.
    pub closed spec fn spec_canvas(&self) -> &'a Canvas {
        self.canvas
    }

    /// How many pixels the cursor has passed.
    pub closed spec fn spec_position(&self) -> int {
        self.y * self.canvas.spec_width() + self.x
    }

    /// The cursor stands on a cell of its canvas, or just past the last one.
    pub closed spec fn wf(&self) -> bool {
        &&& self.canvas.wf()
        &&& self.y <= self.canvas.spec_height()
        &&& if self.y < self.canvas.spec_height() {
            self.x < self.canvas.spec_width() || (self.x == 0 && self.canvas.spec_width() == 0)
        } else {
            self.x == 0
        }
    }

    /// The pixels still to come, in order.
    pub open spec fn spec_remaining(&self) -> Seq<Pixel> {
        self.spec_canvas().spec_pixels().skip(self.spec_position())
    }

    /// A well-formed cursor has passed no more pixels than there are.
    pub proof fn lemma_position_in_range(&self)
        requires
            self.wf(),
        ensures
            self.spec_canvas().wf(),
            0 <= self.spec_position() <= self.spec_canvas().spec_pixels().len(),
    {
        let w = self.canvas.spec_width();
        let h = self.canvas.spec_height();
        lemma_grid_fits(w, h);
        if self.y < h {
            if self.x < w {
                lemma_cell_index(self.x as int, self.y as int, w, h);
            } else {
                assert(self.y * w == 0) by (nonlinear_arith)
                    requires
                        w == 0,
                ;
            }
        }
    }

    /// A cursor at the first pixel of `canvas`.
    fn new(canvas: &'a Canvas) -> (iter: Self)
        requires
            canvas.wf(),
        ensures
            iter.wf(),
            iter.spec_canvas() == canvas,
            iter.spec_position() == 0,
            iter.spec_remaining() == canvas.spec_pixels(),
    {
        let iter = CanvasPixelIter { canvas, x: 0, y: 0 };
        proof {
            lemma_grid_fits(canvas.spec_width(), canvas.spec_height());
            assert(0 * canvas.spec_width() == 0);
            assert(canvas.spec_pixels().skip(0) =~= canvas.spec_pixels());
        }
        iter
    }

    /// Yields the next pixel and moves on, or `None` once every pixel has
    /// been yielded.
    pub fn next(&mut self) -> (item: Option<Pixel>)
        requires
            old(self).wf(),
        ensures
            final(self).wf(),
            final(self).spec_canvas() == old(self).spec_canvas(),
            match item {
                Some(pixel) => {
                    &&& old(self).spec_remaining().len() > 0
                    &&& pixel == old(self).spec_remaining()[0]
                    &&& final(self).spec_position() == old(self).spec_position() + 1
                    &&& final(self).spec_remaining() == old(self).spec_remaining().skip(1)
                },
                None => {
                    &&& old(self).spec_remaining().len() == 0
                    &&& final(self).spec_position() == old(self).spec_position()
                },
            },
    {
        proof {
            self.lemma_position_in_range();
        }
        let ghost w = self.canvas.spec_width();
        let ghost h = self.canvas.spec_height();
        let ghost pos = self.spec_position();
        let ghost all = self.canvas.spec_pixels();
        if self.y >= self.canvas.height {
            proof {
                lemma_grid_fits(w, h);
            }
            return None;
        }
        let color = match self.canvas.get_pixel(self.x, self.y) {
            Some(color) => color,
            None => {
                proof {
                    assert(w == 0);
                    lemma_grid_fits(w, h);
                }
                return None;
            },
        };
        let pixel = Pixel { x: self.x, y: self.y, color };
        proof {
            lemma_cell_index(self.x as int, self.y as int, w, h);
            assert(all[pos] == pixel);
            assert(all.skip(pos)[0] == all[pos]);
            assert(all.skip(pos).skip(1) =~= all.skip(pos + 1));
        }
        self.x += 1;
        if self.x >= self.canvas.width {
            self.x = 0;
            self.y += 1;
            assert((self.y as int) * w + 0 == pos + 1) by (nonlinear_arith)
                requires
                    pos == (self.y as int - 1) * w + (w - 1),
            ;
        }
        Some(pixel)
    }

    /// Number of pixels still to come.
    pub fn len(&self) -> (count: usize)
        requires
            self.wf(),
        ensures
            count == self.spec_remaining().len(),
    {
        proof {
            self.lemma_position_in_range();
            lemma_grid_fits(self.canvas.spec_width(), self.canvas.spec_height());
            assert(0 <= self.y * self.canvas.spec_width()) by (nonlinear_arith)
                requires
                    0 <= self.y,
                    0 <= self.canvas.spec_width(),
            ;
        }
        (self.canvas.width as usize * self.canvas.height as usize) - (self.y as usize
            * self.canvas.width as usize + self.x as usize)
    }

    /// Yields every remaining pixel at once, in order.
    pub fn collect(self) -> (pixels: Vec<Pixel>)
        requires
            self.wf(),
        ensures
            pixels@ == self.spec_remaining(),
    {
        let mut iter = self;
        let mut pixels: Vec<Pixel> = Vec::new();
        let ghost start = self.spec_remaining();
        proof {
            self.lemma_position_in_range();
        }
        loop
            invariant
                iter.wf(),
                iter.spec_canvas() == self.spec_canvas(),
                pixels@ + iter.spec_remaining() == start,
            ensures
                pixels@ == start,
            decreases iter.spec_remaining().len(),
        {
            let ghost before = iter.spec_remaining();
            match iter.next() {
                Some(pixel) => {
                    pixels.push(pixel);
                    assert(pixels@ + iter.spec_remaining() =~= start) by {
                        assert(before =~= seq![before[0]] + before.skip(1));
                    }
                },
                None => {
                    assert(pixels@ + before =~= pixels@);
                    break ;
                },
            }
        }
        pixels
    }
}

/// After any run of writes the grid still has one color per cell, and
/// each cell carries the color of the last write that named it, or its
/// first color if none did. A row-major walk therefore yields, at
/// position `y * width + x`, the pixel `(x, y)` with that color.
pub proof fn lemma_last_write_wins(
    cells: Seq<PixelColor>,
    width: int,
    height: int,
    writes: Seq<Pixel>,
    x: int,
    y: int,
)
    requires
        0 <= x < width <= u16::MAX,
        0 <= y < height <= u16::MAX,
        cells.len() == width * height,
    ensures
        ({
            let after = apply_writes(cells, width, height, writes);
            let i = y * width + x;
            &&& after.len() == cells.len()
            &&& 0 <= i < after.len()
            &&& row_major(after, width).len() == width * height
            &&& row_major(after, width)[i] == (Pixel { x: x as u16, y: y as u16, color: after[i] })
            &&& (forall|k: int| 0 <= k < writes.len() ==> !(writes[k].x == x && writes[k].y == y))
                ==> after[i] == cells[i]
            &&& forall|k: int|
                0 <= k < writes.len() && writes[k].x == x && writes[k].y == y && (forall|j: int|
                    k < j < writes.len() ==> !(writes[j].x == x && writes[j].y == y)) ==> after[i]
                    == writes[k].color
        }),
    decreases writes.len(),
{
    let i = y * width + x;
    lemma_cell_index(x, y, width, height);
    if writes.len() > 0 {
        let earlier = writes.drop_last();
        let last = writes.last();
        lemma_last_write_wins(cells, width, height, earlier, x, y);
        let before = apply_writes(cells, width, height, earlier);
        let after = apply_writes(cells, width, height, writes);
        if last.x < width && last.y < height {
            lemma_cell_index(last.x as int, last.y as int, width, height);
        }
        if last.x == x && last.y == y {
            assert(after[i] == last.color);
        } else {
            assert(after[i] == before[i]);
            assert forall|k: int|
                0 <= k < writes.len() && writes[k].x == x && writes[k].y == y && (forall|j: int|
                    k < j < writes.len() ==> !(writes[j].x == x && writes[j].y
                        == y)) implies after[i] == writes[k].color by {
                assert(k < earlier.len());
                assert(earlier[k] == writes[k]);
                assert forall|j: int| k < j < earlier.len() implies !(earlier[j].x == x
                    && earlier[j].y == y) by {
                    assert(earlier[j] == writes[j]);
                }
            }
            if forall|k: int| 0 <= k < writes.len() ==> !(writes[k].x == x && writes[k].y == y) {
                assert forall|k: int| 0 <= k < earlier.len() implies !(earlier[k].x == x
                    && earlier[k].y == y) by {
                    assert(earlier[k] == writes[k]);
                }
            }
        }
    }
}

/// The number of cells of a grid whose sides fit in sixteen bits fits in
/// thirty-two.
pub proof fn lemma_grid_fits(width: int, height: int)
    requires
        0 <= width <= u16::MAX,
        0 <= height <= u16::MAX,
    ensures
        0 <= width * height <= 0xFFFE_0001,
        width * height == height * width,
{
    assert(0 <= width * height <= 0xFFFF * 0xFFFF && width * height == height * width)
        by (nonlinear_arith)
        requires
            0 <= width <= 0xFFFF,
            0 <= height <= 0xFFFF,
    ;
}

/// Cell `(x, y)` of a `width` x `height` grid has a row-major index inside
/// the grid, and the index gives the coordinates back.
pub proof fn lemma_cell_index(x: int, y: int, width: int, height: int)
    requires
        0 <= x < width,
        0 <= y < height,
    ensures
        0 <= y * width + x < width * height,
        (y * width + x) % width == x,
        (y * width + x) / width == y,
{
    assert(0 <= y * width && y * width + width <= height * width) by (nonlinear_arith)
        requires
            0 <= y < height,
            0 < width,
    ;
    assert(width * height == height * width) by (nonlinear_arith);
    vstd::arithmetic::div_mod::lemma_fundamental_div_mod_converse(y * width + x, width, y, x);
}

} // verus!
