//! Differences between two states of a canvas.

use crate::canvas::{
    apply_writes, lemma_cell_index, lemma_grid_fits, pixel_at, row_major, write_cell, Canvas, Pixel,
    PixelColor,
};
use vstd::prelude::*;

verus! {

/// The cells that changed between two canvas states, each with its new
/// color, in row-major order.
#[derive(Debug)]
pub struct CanvasDiff {
    pub(crate) changed_pixels: Vec<Pixel>,
}

impl View for CanvasDiff {
    type V = Seq<Pixel>;

    closed spec fn view(&self) -> Seq<Pixel> {
        self.changed_pixels@
    }
}

/// Whether the cell that `pixel` names holds another color in `reference`,
/// a grid `width` cells wide.
pub open spec fn differs_from(reference: Seq<PixelColor>, width: int, pixel: Pixel) -> bool {
    reference[pixel.y * width + pixel.x] != pixel.color
}

/// The pixels of `current`, in row-major order, whose color is not the one
/// that `reference` holds at the same cell.
pub open spec fn changed_cells(
    reference: Seq<PixelColor>,
    current: Seq<PixelColor>,
    width: int,
) -> Seq<Pixel> {
    row_major(current, width).filter(|pixel: Pixel| differs_from(reference, width, pixel))
}

/// Number of bytes that one entry of a diff takes in a frame.
pub const PIXEL_WIRE_LEN: usize = 7;

/// One entry of a diff as it travels to subscribers: `x` and `y` as
/// big-endian 16-bit numbers, then red, green and blue.
pub open spec fn pixel_bytes(pixel: Pixel) -> Seq<u8> {
    seq![
        (pixel.x / 256) as u8,
        (pixel.x % 256) as u8,
        (pixel.y / 256) as u8,
        (pixel.y % 256) as u8,
        pixel.color.r,
        pixel.color.g,
        pixel.color.b,
    ]
}

/// The payload of the frame that carries a diff: its entries, in order,
/// back to back. The frame's own length delimits the payload, so there is
/// no header and no length prefix.
pub open spec fn encode_pixels(pixels: Seq<Pixel>) -> Seq<u8>
    decreases pixels.len(),
{
    if pixels.len() == 0 {
        Seq::empty()
    } else {
        encode_pixels(pixels.drop_last()) + pixel_bytes(pixels.last())
    }
}

/// A payload takes seven bytes for each entry.
pub proof fn lemma_encoded_len(pixels: Seq<Pixel>)
    ensures
        encode_pixels(pixels).len() == PIXEL_WIRE_LEN * pixels.len(),
    decreases pixels.len(),
{
    if pixels.len() > 0 {
        lemma_encoded_len(pixels.drop_last());
    }
}

/// A payload can be read back: two diffs with the same payload have the
/// same entries in the same order.
pub proof fn lemma_payload_determines_pixels(a: Seq<Pixel>, b: Seq<Pixel>)
    requires
        encode_pixels(a) == encode_pixels(b),
    ensures
        a == b,
    decreases a.len(),
{
    lemma_encoded_len(a);
    lemma_encoded_len(b);
    if a.len() > 0 {
        let (head_a, head_b) = (encode_pixels(a.drop_last()), encode_pixels(b.drop_last()));
        let (last_a, last_b) = (pixel_bytes(a.last()), pixel_bytes(b.last()));
        lemma_encoded_len(a.drop_last());
        lemma_encoded_len(b.drop_last());
        let n = head_a.len() as int;
        assert forall|i: int| 0 <= i < 7 implies last_a[i] == last_b[i] by {
            assert((head_a + last_a)[n + i] == (head_b + last_b)[n + i]);
        }
        assert forall|i: int| 0 <= i < n implies head_a[i] == head_b[i] by {
            assert((head_a + last_a)[i] == (head_b + last_b)[i]);
        }
        assert(head_a =~= head_b);
        lemma_payload_determines_pixels(a.drop_last(), b.drop_last());
        let (p, q) = (a.last(), b.last());
        assert(last_a[0] == last_b[0] && last_a[1] == last_b[1] && last_a[2] == last_b[2]
            && last_a[3] == last_b[3] && last_a[4] == last_b[4] && last_a[5] == last_b[5]
            && last_a[6] == last_b[6]);
        assert(p.x == q.x && p.y == q.y && p.color == q.color);
        assert(a =~= a.drop_last().push(p));
        assert(b =~= b.drop_last().push(q));
    } else {
        assert(a =~= b);
    }
}

impl CanvasDiff {
    /// A diff without entries.
    pub fn new() -> (diff: Self)
        ensures
            diff@ == Seq::<Pixel>::empty(),
    {
        CanvasDiff { changed_pixels: Vec::new() }
    }

    /// The changed pixels, in row-major order.
    pub fn changed_pixels(&self) -> (pixels: &[Pixel])
        ensures
            pixels@ == self@,
    {
        self.changed_pixels.as_slice()
    }

    /// Whether nothing changed.
    pub fn is_empty(&self) -> (empty: bool)
        ensures
            empty == (self@.len() == 0),
    {
        self.changed_pixels.len() == 0
    }

    /// The payload of the binary frame that carries this diff to
    /// subscribers: seven bytes for each entry, in order.
    pub fn to_bytes(&self) -> (payload: Vec<u8>)
        ensures
            payload@ == encode_pixels(self@),
    {
        let mut payload: Vec<u8> = Vec::new();
        let count = self.changed_pixels.len();
        for i in 0..count
            invariant
                count == self.changed_pixels@.len(),
                payload@ == encode_pixels(self.changed_pixels@.take(i as int)),
        {
            let pixel = self.changed_pixels[i];
            let ghost before = payload@;
            payload.push((pixel.x / 256) as u8);
            payload.push((pixel.x % 256) as u8);
            payload.push((pixel.y / 256) as u8);
            payload.push((pixel.y % 256) as u8);
            payload.push(pixel.color.r);
            payload.push(pixel.color.g);
            payload.push(pixel.color.b);
            proof {
                let next = self.changed_pixels@.take(i + 1);
                assert(next.drop_last() =~= self.changed_pixels@.take(i as int));
                assert(next.last() == pixel);
                assert(payload@ =~= before + pixel_bytes(pixel));
            }
        }
        assert(self.changed_pixels@.take(count as int) =~= self.changed_pixels@);
        payload
    }
}

impl Canvas {
    /// What `diff` computes: the cells of `other` that differ from this
    /// canvas, with the colors that `other` gives them.
    pub open spec fn spec_diff(&self, other: &Canvas) -> Seq<Pixel> {
        changed_cells(self.cells(), other.cells(), other.spec_width())
    }

    /// Computes the diff that leads from this canvas to `other`: one entry
    /// for every cell whose color in `other` is not the one it has here,
    /// carrying the color of `other`, row by row.
    pub fn diff(&self, other: &Canvas) -> (diff: CanvasDiff)
        requires
            self.wf(),
            other.wf(),
            self.spec_width() == other.spec_width(),
            self.spec_height() == other.spec_height(),
        ensures
            diff@ == self.spec_diff(other),
    {
        let mut diff = CanvasDiff::new();
        let width = self.width();
        let height = self.height();
        let ghost w = width as int;
        let ghost h = height as int;
        let ghost all = row_major(other.cells(), w);
        let ghost pred = |pixel: Pixel| differs_from(self.cells(), w, pixel);
        proof {
            lemma_grid_fits(w, h);
            assert(all.take(0).filter(pred) =~= Seq::<Pixel>::empty()) by {
                reveal(Seq::filter);
            }
            assert(0 * w == 0);
        }
        for y in 0..height
            invariant
                self.wf(),
                other.wf(),
                w == width == self.spec_width() == other.spec_width(),
                h == height == self.spec_height() == other.spec_height(),
                all == row_major(other.cells(), w),
                all.len() == w * h,
                pred == |pixel: Pixel| differs_from(self.cells(), w, pixel),
                0 <= y * w <= w * h,
                diff@ == all.take(y * w).filter(pred),
        {
            for x in 0..width
                invariant
                    self.wf(),
                    other.wf(),
                    w == width == self.spec_width() == other.spec_width(),
                    h == height == self.spec_height() == other.spec_height(),
                    all == row_major(other.cells(), w),
                    all.len() == w * h,
                    pred == |pixel: Pixel| differs_from(self.cells(), w, pixel),
                    0 <= y < h,
                    0 <= y * w + x <= w * h,
                    diff@ == all.take(y * w + x).filter(pred),
            {
                proof {
                    lemma_cell_index(x as int, y as int, w, h);
                }
                let ghost i = y * w + x;
                let color_self = self.get_pixel(x, y);
                let color_other = other.get_pixel(x, y);
                proof {
                    assert(all.take(i + 1) =~= all.take(i).push(all[i]));
                    all.take(i).lemma_filter_push(all[i], pred);
                    assert(all[i] == pixel_at(other.cells(), w, i));
                    assert(pred(all[i]) == (self.cells()[i] != other.cells()[i]));
                }
                match (color_self, color_other) {
                    (Some(before), Some(color)) => {
                        if before != color {
                            diff.changed_pixels.push(Pixel { x, y, color });
                        }
                    },
                    _ => {},
                }
            }
            proof {
                assert((y + 1) * w == y * w + w) by (nonlinear_arith);
                assert((y + 1) * w <= h * w) by (nonlinear_arith)
                    requires
                        y + 1 <= h,
                        0 <= w,
                ;
            }
        }
        proof {
            assert(h * w == w * h) by (nonlinear_arith);
            assert(all.take(h * w) =~= all);
        }
        diff
    }
}

/// The row-major position of the cell that `pixel` names.
pub open spec fn cell_index(pixel: Pixel, width: int) -> int {
    pixel.y * width + pixel.x
}

/// The pixel at position `i` of a row-major walk names cell `i`.
proof fn lemma_pixel_at_index(cells: Seq<PixelColor>, width: int, height: int, i: int)
    requires
        0 <= width <= u16::MAX,
        0 <= height <= u16::MAX,
        cells.len() == width * height,
        0 <= i < cells.len(),
    ensures
        cell_index(pixel_at(cells, width, i), width) == i,
        0 <= pixel_at(cells, width, i).x < width,
        0 <= pixel_at(cells, width, i).y < height,
{
    assert(width > 0) by (nonlinear_arith)
        requires
            0 <= width,
            0 < width * height,
    ;
    let q = i / width;
    let r = i % width;
    vstd::arithmetic::div_mod::lemma_fundamental_div_mod(i, width);
    vstd::arithmetic::div_mod::lemma_mod_bound(i, width);
    vstd::arithmetic::div_mod::lemma_div_pos_is_pos(i, width);
    assert(q < height && q * width + r == i) by (nonlinear_arith)
        requires
            i == width * q + r,
            0 <= r < width,
            0 <= q,
            i < width * height,
    ;
}

/// The entries that a prefix of the walk contributes name cells of that
/// prefix, carry the current colors, and stand in ascending cell order.
proof fn lemma_changed_prefix(
    reference: Seq<PixelColor>,
    current: Seq<PixelColor>,
    width: int,
    height: int,
    n: int,
)
    requires
        0 <= width <= u16::MAX,
        0 <= height <= u16::MAX,
        current.len() == width * height,
        0 <= n <= current.len(),
    ensures
        ({
            let all = row_major(current, width);
            let part = all.take(n).filter(|pixel: Pixel| differs_from(reference, width, pixel));
            &&& forall|k: int|
                0 <= k < part.len() ==> 0 <= cell_index(#[trigger] part[k], width) < n && part[k]
                    == all[cell_index(part[k], width)]
            &&& forall|k1: int, k2: int|
                0 <= k1 < k2 < part.len() ==> cell_index(#[trigger] part[k1], width) < cell_index(
                    #[trigger] part[k2],
                    width,
                )
        }),
    decreases n,
{
    let all = row_major(current, width);
    let pred = |pixel: Pixel| differs_from(reference, width, pixel);
    if n == 0 {
        assert(all.take(0).filter(pred) =~= Seq::<Pixel>::empty()) by {
            reveal(Seq::filter);
        }
    } else {
        lemma_changed_prefix(reference, current, width, height, n - 1);
        assert(all.take(n) =~= all.take(n - 1).push(all[n - 1]));
        all.take(n - 1).lemma_filter_push(all[n - 1], pred);
        lemma_pixel_at_index(current, width, height, n - 1);
    }
}

/// Writing the entries that a prefix of the walk contributes brings that
/// prefix of the reference to the current colors and leaves the rest.
proof fn lemma_changed_prefix_applies(
    reference: Seq<PixelColor>,
    current: Seq<PixelColor>,
    width: int,
    height: int,
    n: int,
)
    requires
        0 <= width <= u16::MAX,
        0 <= height <= u16::MAX,
        current.len() == width * height,
        reference.len() == current.len(),
        0 <= n <= current.len(),
    ensures
        apply_writes(
            reference,
            width,
            height,
            row_major(current, width).take(n).filter(
                |pixel: Pixel| differs_from(reference, width, pixel),
            ),
        ) == current.take(n) + reference.skip(n),
    decreases n,
{
    let all = row_major(current, width);
    let pred = |pixel: Pixel| differs_from(reference, width, pixel);
    if n == 0 {
        assert(all.take(0).filter(pred) =~= Seq::<Pixel>::empty()) by {
            reveal(Seq::filter);
        }
        assert(current.take(0) + reference.skip(0) =~= reference);
    } else {
        lemma_changed_prefix_applies(reference, current, width, height, n - 1);
        assert(all.take(n) =~= all.take(n - 1).push(all[n - 1]));
        all.take(n - 1).lemma_filter_push(all[n - 1], pred);
        lemma_pixel_at_index(current, width, height, n - 1);
        let before = current.take(n - 1) + reference.skip(n - 1);
        let part = all.take(n - 1).filter(pred);
        let pixel = all[n - 1];
        if pred(pixel) {
            assert(part.push(pixel).drop_last() =~= part);
            assert(write_cell(before, width, height, pixel) =~= current.take(n) + reference.skip(
                n,
            ));
        } else {
            assert(before =~= current.take(n) + reference.skip(n));
        }
    }
}

/// Writing the changed cells, in order, onto the reference gives the
/// current colors.
pub proof fn lemma_changed_cells_apply(
    reference: Seq<PixelColor>,
    current: Seq<PixelColor>,
    width: int,
    height: int,
)
    requires
        0 <= width <= u16::MAX,
        0 <= height <= u16::MAX,
        current.len() == width * height,
        reference.len() == current.len(),
    ensures
        apply_writes(reference, width, height, changed_cells(reference, current, width))
            == current,
{
    let n = current.len() as int;
    let all = row_major(current, width);
    lemma_changed_prefix_applies(reference, current, width, height, n);
    assert(all.take(n) =~= all);
    assert(current.take(n) + reference.skip(n) =~= current);
}

/// Equal colors change nothing: the changed cells of a grid against
/// itself are none.
pub proof fn lemma_changed_cells_of_equal(cells: Seq<PixelColor>, width: int, height: int)
    requires
        0 <= width <= u16::MAX,
        0 <= height <= u16::MAX,
        cells.len() == width * height,
    ensures
        changed_cells(cells, cells, width).len() == 0,
{
    let changed = changed_cells(cells, cells, width);
    let all = row_major(cells, width);
    let pred = |pixel: Pixel| differs_from(cells, width, pixel);
    if changed.len() > 0 {
        all.lemma_filter_pred(pred, 0);
        assert(changed.contains(changed[0]));
        all.lemma_filter_contains_rev(pred, changed[0]);
        let i = choose|i: int| 0 <= i < all.len() && all[i] == changed[0];
        lemma_pixel_at_index(cells, width, height, i);
    }
}

impl Canvas {
    /// A diff holds the entry `(x, y, c)` exactly when `(x, y)` is a cell
    /// whose color in `other` is `c` and whose color here is not `c`.
    pub proof fn lemma_diff_contains(&self, other: &Canvas, pixel: Pixel)
        requires
            self.wf(),
            other.wf(),
            self.spec_width() == other.spec_width(),
            self.spec_height() == other.spec_height(),
        ensures
            self.spec_diff(other).contains(pixel) <==> {
                &&& other.in_bounds(pixel.x as int, pixel.y as int)
                &&& other.color_at(pixel.x as int, pixel.y as int) == pixel.color
                &&& self.color_at(pixel.x as int, pixel.y as int) != pixel.color
            },
    {
        let w = other.spec_width();
        let h = other.spec_height();
        let all = row_major(other.cells(), w);
        let pred = |p: Pixel| differs_from(self.cells(), w, p);
        if self.spec_diff(other).contains(pixel) {
            let k = choose|k: int|
                0 <= k < self.spec_diff(other).len() && self.spec_diff(other)[k] == pixel;
            all.lemma_filter_pred(pred, k);
            all.lemma_filter_contains_rev(pred, pixel);
            let i = choose|i: int| 0 <= i < all.len() && all[i] == pixel;
            lemma_pixel_at_index(other.cells(), w, h, i);
        }
        if other.in_bounds(pixel.x as int, pixel.y as int) && other.color_at(
            pixel.x as int,
            pixel.y as int,
        ) == pixel.color && self.color_at(pixel.x as int, pixel.y as int) != pixel.color {
            let i = pixel.y * w + pixel.x;
            lemma_cell_index(pixel.x as int, pixel.y as int, w, h);
            assert(all[i] == pixel);
            all.lemma_filter_contains(pred, i);
        }
    }

    /// The entries of a diff stand in row-major order: of two entries, the
    /// earlier one names the earlier cell. So no cell is named twice.
    pub proof fn lemma_diff_row_major(&self, other: &Canvas, i: int, j: int)
        requires
            self.wf(),
            other.wf(),
            self.spec_width() == other.spec_width(),
            self.spec_height() == other.spec_height(),
            0 <= i < j < self.spec_diff(other).len(),
        ensures
            cell_index(self.spec_diff(other)[i], other.spec_width()) < cell_index(
                self.spec_diff(other)[j],
                other.spec_width(),
            ),
    {
        let w = other.spec_width();
        let all = row_major(other.cells(), w);
        lemma_changed_prefix(self.cells(), other.cells(), w, other.spec_height(), all.len() as int);
        assert(all.take(all.len() as int) =~= all);
    }

    /// Two canvases with the same colors in every cell have an empty diff.
    pub proof fn lemma_diff_of_equal_is_empty(&self, other: &Canvas)
        requires
            self.wf(),
            other.wf(),
            self.spec_width() == other.spec_width(),
            self.spec_height() == other.spec_height(),
            self.cells() == other.cells(),
        ensures
            self.spec_diff(other).len() == 0,
    {
        let d = self.spec_diff(other);
        if d.len() > 0 {
            assert(d.contains(d[0]));
            self.lemma_diff_contains(other, d[0]);
        }
    }

    /// A diff is empty only if the two canvases agree on every cell.
    pub proof fn lemma_empty_diff_means_equal(&self, other: &Canvas)
        requires
            self.wf(),
            other.wf(),
            self.spec_width() == other.spec_width(),
            self.spec_height() == other.spec_height(),
            self.spec_diff(other).len() == 0,
        ensures
            self.cells() == other.cells(),
    {
        let w = other.spec_width();
        let h = other.spec_height();
        assert forall|i: int| 0 <= i < other.cells().len() implies self.cells()[i]
            == other.cells()[i] by {
            let pixel = pixel_at(other.cells(), w, i);
            lemma_pixel_at_index(other.cells(), w, h, i);
            self.lemma_diff_contains(other, pixel);
            if self.cells()[i] != other.cells()[i] {
                assert(self.spec_diff(other).contains(pixel));
            }
        }
        assert(self.cells() =~= other.cells());
    }

    /// A diff leads from this canvas to `other`: writing its entries, in
    /// order, onto the colors of this canvas gives the colors of `other`.
    pub proof fn lemma_diff_applies(&self, other: &Canvas)
        requires
            self.wf(),
            other.wf(),
            self.spec_width() == other.spec_width(),
            self.spec_height() == other.spec_height(),
        ensures
            apply_writes(
                self.cells(),
                other.spec_width(),
                other.spec_height(),
                self.spec_diff(other),
            ) == other.cells(),
    {
        lemma_changed_cells_apply(
            self.cells(),
            other.cells(),
            other.spec_width(),
            other.spec_height(),
        );
    }
}

} // verus!
