//! The partition of an image into chunks.
//!
//! An image of `width x height` pixels is cut into square chunks of side
//! `size`, numbered by column and row. Chunks on the right and bottom edges
//! are clipped against the image. Each chunk is rendered on its own, so the
//! partition has to cover every pixel exactly once. This module holds the
//! arithmetic of the partition and the laws that say so.

use vstd::arithmetic::div_mod::{lemma_fundamental_div_mod, lemma_fundamental_div_mod_converse};
use vstd::arithmetic::mul::lemma_mul_is_distributive_add;
use vstd::prelude::*;

verus! {

/// Number of chunks of side `size` needed to span `extent` pixels.
pub open spec fn chunks_spanning(extent: nat, size: nat) -> nat
    recommends
        size > 0,
{
    ((extent + size - 1) / (size as int)) as nat
}

/// First pixel of chunk `index` along one axis.
pub open spec fn chunk_start(index: nat, size: nat) -> nat {
    index * size
}

/// Number of pixels of chunk `index` that lie inside `extent`: the chunk's
/// side, clipped at the image border.
pub open spec fn chunk_extent(index: nat, extent: nat, size: nat) -> nat {
    if chunk_start(index, size) >= extent {
        0
    } else if extent - chunk_start(index, size) < size {
        (extent - chunk_start(index, size)) as nat
    } else {
        size
    }
}

/// Whether pixel `p` of an axis of `extent` pixels belongs to chunk `index`.
pub open spec fn chunk_holds(index: nat, extent: nat, size: nat, p: nat) -> bool {
    chunk_start(index, size) <= p < chunk_start(index, size) + chunk_extent(index, extent, size)
}

/// Pixels inside the image that the first `n` chunks of an axis hold.
pub open spec fn extent_sum(extent: nat, size: nat, n: nat) -> nat
    decreases n,
{
    if n == 0 {
        0
    } else {
        extent_sum(extent, size, (n - 1) as nat) + chunk_extent((n - 1) as nat, extent, size)
    }
}

/// Pixels inside the image that the first `n` chunks of one chunk row hold,
/// where the row is `row_height` pixels high.
pub open spec fn row_pixels(width: nat, size: nat, row_height: nat, n: nat) -> nat
    decreases n,
{
    if n == 0 {
        0
    } else {
        row_pixels(width, size, row_height, (n - 1) as nat) + chunk_extent((n - 1) as nat, width, size)
            * row_height
    }
}

/// Pixels inside the image that the first `rows` chunk rows hold.
pub open spec fn grid_pixels(width: nat, height: nat, size: nat, rows: nat) -> nat
    decreases rows,
{
    if rows == 0 {
        0
    } else {
        grid_pixels(width, height, size, (rows - 1) as nat) + row_pixels(
            width,
            size,
            chunk_extent((rows - 1) as nat, height, size),
            chunks_spanning(width, size),
        )
    }
}

/// `chunks_spanning` is the ceiling of `extent / size`: that many chunks reach
/// the end of the axis, and one fewer do not.
pub proof fn lemma_chunks_spanning_is_ceiling(extent: nat, size: nat)
    requires
        size > 0,
    ensures
        chunks_spanning(extent, size) * size >= extent,
        chunks_spanning(extent, size) > 0 ==> (chunks_spanning(extent, size) - 1) * size < extent,
        extent == 0 <==> chunks_spanning(extent, size) == 0,
{
    let n = chunks_spanning(extent, size);
    let top = extent + size - 1;
    lemma_fundamental_div_mod(top as int, size as int);
    assert(top == size * n + top % (size as int));
    assert(size * n == n * size) by (nonlinear_arith);
    assert((n - 1) * size == n * size - size) by (nonlinear_arith);
    if extent == 0 {
        assert(n * size <= size - 1);
        assert(n == 0) by (nonlinear_arith)
            requires
                n * size <= size - 1,
                size > 0,
        ;
    } else {
        assert(n == 0 ==> n * size == 0) by (nonlinear_arith);
    }
}

/// Every pixel of an axis lies in exactly one chunk of the axis: the one whose
/// index is the pixel's position divided by the chunk size.
pub proof fn lemma_pixel_in_one_chunk(extent: nat, size: nat, p: nat)
    requires
        size > 0,
        p < extent,
    ensures
        p / size < chunks_spanning(extent, size),
        chunk_holds(p / size, extent, size, p),
        forall|index: nat| chunk_holds(index, extent, size, p) ==> index == p / size,
{
    let c = p / size;
    lemma_fundamental_div_mod(p as int, size as int);
    assert(size * c == c * size) by (nonlinear_arith);
    assert(p == c * size + p % size);
    lemma_chunks_spanning_is_ceiling(extent, size);
    let n = chunks_spanning(extent, size);
    assert(c < n) by (nonlinear_arith)
        requires
            c * size <= p,
            p < extent,
            n * size >= extent,
            size > 0,
            n > 0 ==> (n - 1) * size < extent,
    ;
    assert forall|index: nat| chunk_holds(index, extent, size, p) implies index == c by {
        let r = p - index * size;
        assert(0 <= r < size);
        assert(p == size * index + r) by (nonlinear_arith)
            requires
                r == p - index * size,
        ;
        lemma_fundamental_div_mod_converse(p as int, size as int, index as int, r as int);
    }
}

/// The chunks of an axis are those that hold a pixel of it: a chunk past the
/// last holds none, and no chunk reaches past the end of the axis.
pub proof fn lemma_chunk_inside(index: nat, extent: nat, size: nat)
    requires
        size > 0,
    ensures
        chunk_start(index, size) + chunk_extent(index, extent, size) <= extent || chunk_extent(
            index,
            extent,
            size,
        ) == 0,
        index < chunks_spanning(extent, size) <==> chunk_extent(index, extent, size) > 0,
{
    lemma_chunks_spanning_is_ceiling(extent, size);
    let n = chunks_spanning(extent, size);
    if index < n {
        assert(index * size < extent) by (nonlinear_arith)
            requires
                index <= n - 1,
                (n - 1) * size < extent,
                size > 0,
        ;
    } else {
        assert(index * size >= extent) by (nonlinear_arith)
            requires
                index >= n,
                n * size >= extent,
                size > 0,
        ;
    }
}

/// The first `n` chunks of an axis hold the pixels before `n * size`, at most
/// the whole axis.
pub proof fn lemma_extent_sum(extent: nat, size: nat, n: nat)
    requires
        size > 0,
    ensures
        extent_sum(extent, size, n) == if n * size <= extent {
            n * size
        } else {
            extent
        },
    decreases n,
{
    if n > 0 {
        let m = (n - 1) as nat;
        lemma_extent_sum(extent, size, m);
        assert(n * size == m * size + size) by (nonlinear_arith)
            requires
                n == m + 1,
        ;
    } else {
        assert(n * size == 0) by (nonlinear_arith)
            requires
                n == 0,
        ;
    }
}

/// The chunks of an axis hold as many pixels as the axis has.
pub proof fn lemma_axis_covered(extent: nat, size: nat)
    requires
        size > 0,
    ensures
        extent_sum(extent, size, chunks_spanning(extent, size)) == extent,
{
    lemma_chunks_spanning_is_ceiling(extent, size);
    lemma_extent_sum(extent, size, chunks_spanning(extent, size));
}

/// The first `n` chunks of a chunk row hold `row_height` rows of the pixels
/// that they hold along the horizontal axis.
pub proof fn lemma_row_pixels(width: nat, size: nat, row_height: nat, n: nat)
    ensures
        row_pixels(width, size, row_height, n) == extent_sum(width, size, n) * row_height,
    decreases n,
{
    if n > 0 {
        let m = (n - 1) as nat;
        lemma_row_pixels(width, size, row_height, m);
        lemma_mul_is_distributive_add(
            row_height as int,
            extent_sum(width, size, m) as int,
            chunk_extent(m, width, size) as int,
        );
        assert(extent_sum(width, size, n) * row_height == row_height * extent_sum(width, size, n))
            by (nonlinear_arith);
        assert(extent_sum(width, size, m) * row_height == row_height * extent_sum(width, size, m))
            by (nonlinear_arith);
        assert(chunk_extent(m, width, size) * row_height == row_height * chunk_extent(m, width, size))
            by (nonlinear_arith);
    } else {
        assert(extent_sum(width, size, n) * row_height == 0) by (nonlinear_arith)
            requires
                extent_sum(width, size, n) == 0,
        ;
    }
}

/// The first `rows` chunk rows hold `width` columns of the pixels that they
/// hold along the vertical axis.
pub proof fn lemma_grid_pixels(width: nat, height: nat, size: nat, rows: nat)
    requires
        size > 0,
    ensures
        grid_pixels(width, height, size, rows) == width * extent_sum(height, size, rows),
    decreases rows,
{
    if rows > 0 {
        let m = (rows - 1) as nat;
        lemma_grid_pixels(width, height, size, m);
        let h = chunk_extent(m, height, size);
        lemma_row_pixels(width, size, h, chunks_spanning(width, size));
        lemma_axis_covered(width, size);
        lemma_mul_is_distributive_add(width as int, extent_sum(height, size, m) as int, h as int);
        assert(extent_sum(width, size, chunks_spanning(width, size)) * h == width * h) by (nonlinear_arith)
            requires
                extent_sum(width, size, chunks_spanning(width, size)) == width,
        ;
    } else {
        assert(width * extent_sum(height, size, rows) == 0) by (nonlinear_arith)
            requires
                extent_sum(height, size, rows) == 0,
        ;
    }
}

/// Whether pixel `(px, py)` of an image of `width x height` pixels belongs to
/// the chunk in column `cx` and row `cy`.
pub open spec fn chunk_has_pixel(
    cx: nat,
    cy: nat,
    width: nat,
    height: nat,
    size: nat,
    px: nat,
    py: nat,
) -> bool {
    chunk_holds(cx, width, size, px) && chunk_holds(cy, height, size, py)
}

/// Number of chunks of an image of `width x height` pixels.
pub open spec fn chunk_total(width: nat, height: nat, size: nat) -> nat {
    chunks_spanning(width, size) * chunks_spanning(height, size)
}

/// Every pixel of the image lies in exactly one chunk of the grid, and a chunk
/// holds no pixel outside the image.
pub proof fn lemma_chunks_partition_image(width: nat, height: nat, size: nat, px: nat, py: nat)
    requires
        size > 0,
    ensures
        px < width && py < height ==> {
            &&& px / size < chunks_spanning(width, size)
            &&& py / size < chunks_spanning(height, size)
            &&& chunk_has_pixel(px / size, py / size, width, height, size, px, py)
        },
        forall|cx: nat, cy: nat| #[trigger]
            chunk_has_pixel(cx, cy, width, height, size, px, py) ==> {
                &&& px < width
                &&& py < height
                &&& cx == px / size
                &&& cy == py / size
            },
{
    if px < width {
        lemma_pixel_in_one_chunk(width, size, px);
    }
    if py < height {
        lemma_pixel_in_one_chunk(height, size, py);
    }
}

/// The clipped areas of all chunks add up to `width * height`: together with
/// [`lemma_chunks_partition_image`], the chunks cover the image exactly.
pub proof fn lemma_chunk_areas_cover_image(width: nat, height: nat, size: nat)
    requires
        size > 0,
    ensures
        grid_pixels(width, height, size, chunks_spanning(height, size)) == width * height,
{
    lemma_grid_pixels(width, height, size, chunks_spanning(height, size));
    lemma_axis_covered(height, size);
}

/// Whether an image of `width x height` pixels in chunks of side `size` can
/// be addressed: the side is at least 1, and the image grown by one chunk
/// along each axis has a pixel count that fits the machine word.
pub open spec fn addressable(width: nat, height: nat, size: nat) -> bool {
    size >= 1 && (width + size) * (height + size) <= usize::MAX
}

/// Facts about an addressable image that bound every index computed here.
pub proof fn lemma_addressable_bounds(width: nat, height: nat, size: nat)
    requires
        addressable(width, height, size),
    ensures
        width + size <= usize::MAX,
        height + size <= usize::MAX,
        width * height <= usize::MAX,
        size * size <= usize::MAX,
        chunks_spanning(width, size) <= width,
        chunks_spanning(height, size) <= height,
        chunk_total(width, height, size) <= width * height,
{
    assert(width + size <= (width + size) * (height + size)) by (nonlinear_arith)
        requires
            height + size >= 1,
    ;
    assert(height + size <= (width + size) * (height + size)) by (nonlinear_arith)
        requires
            width + size >= 1,
    ;
    assert(width * height <= (width + size) * (height + size)) by (nonlinear_arith);
    assert(size * size <= (width + size) * (height + size)) by (nonlinear_arith);
    lemma_chunks_spanning_at_most(width, size);
    lemma_chunks_spanning_at_most(height, size);
    assert(chunks_spanning(width, size) * chunks_spanning(height, size) <= width * height)
        by (nonlinear_arith)
        requires
            chunks_spanning(width, size) <= width,
            chunks_spanning(height, size) <= height,
    ;
}

/// An axis needs no more chunks than it has pixels.
pub proof fn lemma_chunks_spanning_at_most(extent: nat, size: nat)
    requires
        size > 0,
    ensures
        chunks_spanning(extent, size) <= extent,
{
    lemma_chunks_spanning_is_ceiling(extent, size);
    let n = chunks_spanning(extent, size);
    if n > 0 {
        assert(n - 1 <= (n - 1) * size) by (nonlinear_arith)
            requires
                size >= 1,
                n >= 1,
        ;
    }
}

/// Place of the chunk in column `column` and row `row` in a list of chunks
/// that runs row by row, with `across` chunks in a row.
pub open spec fn grid_index(column: int, row: int, across: int) -> int {
    row * across + column
}

/// The place of a chunk in the row-by-row list lies before the places of all
/// later rows.
pub proof fn lemma_grid_index_bounds(column: int, row: int, across: int, rows: int)
    requires
        0 <= column < across,
        0 <= row < rows,
    ensures
        0 <= grid_index(column, row, across) < rows * across,
{
    assert(row * across + across <= rows * across) by (nonlinear_arith)
        requires
            row + 1 <= rows,
            across >= 0,
    ;
    assert(row * across >= 0) by (nonlinear_arith)
        requires
            row >= 0,
            across >= 0,
    ;
}

/// Position along one axis of pixel `i` of chunk `index`, where the pixel
/// lies inside `extent`.
pub open spec fn axis_pixel_at(extent: nat, size: nat, index: nat, i: nat) -> Option<nat> {
    if i < size && index * size + i < extent {
        Some(index * size + i)
    } else {
        None
    }
}

/// Position in an image of `width x height` pixels of pixel `(i, j)` of the
/// chunk in column `cx` and row `cy`, where the pixel lies inside the image.
pub open spec fn chunk_pixel_at(
    width: nat,
    height: nat,
    size: nat,
    cx: nat,
    cy: nat,
    i: nat,
    j: nat,
) -> Option<(usize, usize)> {
    match (axis_pixel_at(width, size, cx, i), axis_pixel_at(height, size, cy, j)) {
        (Some(px), Some(py)) => Some((px as usize, py as usize)),
        _ => None,
    }
}

/// Position along one axis of pixel `i` of chunk `index`, where the pixel
/// lies inside `extent`. A position that does not fit the machine word lies
/// outside every image.
fn position_on_axis(index: usize, i: usize, extent: usize, size: usize) -> (p: Option<usize>)
    ensures
        p matches Some(at) ==> axis_pixel_at(extent as nat, size as nat, index as nat, i as nat) == Some(
            at as nat,
        ),
        p is None ==> axis_pixel_at(extent as nat, size as nat, index as nat, i as nat) is None,
{
    if i >= size {
        return None;
    }
    match index.checked_mul(size) {
        None => None,
        Some(start) => match start.checked_add(i) {
            None => None,
            Some(at) => if at < extent {
                Some(at)
            } else {
                None
            },
        },
    }
}

/// Where pixel `(i, j)` of the chunk in column `cx` and row `cy` lies in an
/// image of `width x height` pixels, or `None` where the chunk has no such
/// pixel. Rendering a chunk and writing it into the framebuffer both go by
/// this.
pub(crate) fn pixel_of_place(
    cx: usize,
    cy: usize,
    i: usize,
    j: usize,
    width: usize,
    height: usize,
    size: usize,
) -> (pixel: Option<(usize, usize)>)
    ensures
        pixel == chunk_pixel_at(
            width as nat,
            height as nat,
            size as nat,
            cx as nat,
            cy as nat,
            i as nat,
            j as nat,
        ),
{
    let px = match position_on_axis(cx, i, width, size) {
        Some(px) => px,
        None => {
            return None;
        },
    };
    let py = match position_on_axis(cy, j, height, size) {
        Some(py) => py,
        None => {
            return None;
        },
    };
    Some((px, py))
}

/// The places of a chunk reach exactly the pixels that the chunk holds: a
/// place lies at a pixel of the image just where the chunk holds that pixel
/// and the place is the pixel's offset from the chunk's first pixel.
pub proof fn lemma_places_reach_held_pixels(
    width: nat,
    height: nat,
    size: nat,
    cx: nat,
    cy: nat,
    i: nat,
    j: nat,
    px: nat,
    py: nat,
)
    requires
        size > 0,
        width <= usize::MAX,
        height <= usize::MAX,
        px <= usize::MAX,
        py <= usize::MAX,
    ensures
        chunk_pixel_at(width, height, size, cx, cy, i, j) == Some((px as usize, py as usize)) <==> {
            &&& chunk_has_pixel(cx, cy, width, height, size, px, py)
            &&& px == cx * size + i
            &&& py == cy * size + j
        },
{
}

} // verus!
