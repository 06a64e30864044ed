//! Render settings, and the work of rendering one chunk of the image.
//!
//! A render is described by its [`TraceOptions`]. A worker renders one chunk
//! at a time: every pixel of the image that the chunk holds is sampled as
//! often as the settings ask, and the samples are developed into the pixel's
//! color. What a sample is, and how samples add up, is the caller's
//! arithmetic; which pixels are sampled, how often and in which order is
//! decided here.

use crate::chunks::{
    addressable, chunk_pixel_at, chunk_total, chunks_spanning, grid_index, lemma_addressable_bounds,
    lemma_grid_index_bounds, pixel_of_place,
};
use crate::color::Color;
use std::time::Duration;
use vstd::prelude::*;

verus! {

/// Settings of one recursive ray cast.
#[derive(Debug)]
pub struct RayCastOptions {
    /// Rays cast through each pixel.
    pub sample_count: usize,
    /// Bounces after which a path carries no light.
    pub max_depth: usize,
}

impl Default for RayCastOptions {
    fn default() -> (options: RayCastOptions)
        ensures
            options.sample_count == 50,
            options.max_depth == 8,
    {
        RayCastOptions { sample_count: 50, max_depth: 8 }
    }
}

/// Settings of one render: the image, the sampling and the chunk size.
///
/// A value always describes an [`addressable`] image.
#[derive(Debug)]
pub struct TraceOptions {
    image_width: usize,
    image_height: usize,
    sample_count: usize,
    max_depth: usize,
    chunk_size: usize,
}

impl TraceOptions {
    #[verifier::type_invariant]
    spec fn is_addressable(self) -> bool {
        addressable(self.image_width as nat, self.image_height as nat, self.chunk_size as nat)
    }

    pub closed spec fn spec_image_width(&self) -> usize {
        self.image_width
    }

    pub closed spec fn spec_image_height(&self) -> usize {
        self.image_height
    }

    pub closed spec fn spec_sample_count(&self) -> usize {
        self.sample_count
    }

    pub closed spec fn spec_max_depth(&self) -> usize {
        self.max_depth
    }

    pub closed spec fn spec_chunk_size(&self) -> usize {
        self.chunk_size
    }

    /// Whether the settings describe an addressable image. Every value that
    /// executable code holds does.
    pub open spec fn wf(&self) -> bool {
        addressable(self.image_width() as nat, self.image_height() as nat, self.chunk_size() as nat)
    }

    /// The settings, or `None` where the image is not [`addressable`].
    pub fn new(
        image_width: usize,
        image_height: usize,
        sample_count: usize,
        max_depth: usize,
        chunk_size: usize,
    ) -> (options: Option<TraceOptions>)
        ensures
            options.is_some() <==> addressable(image_width as nat, image_height as nat, chunk_size as nat),
            options matches Some(o) ==> {
                &&& o.wf()
                &&& o.image_width() == image_width
                &&& o.image_height() == image_height
                &&& o.sample_count() == sample_count
                &&& o.max_depth() == max_depth
                &&& o.chunk_size() == chunk_size
            },
    {
        if chunk_size == 0 {
            return None;
        }
        let wide = match image_width.checked_add(chunk_size) {
            Some(wide) => wide,
            None => {
                proof {
                    assert((image_width + chunk_size) * (image_height + chunk_size) >= image_width
                        + chunk_size) by (nonlinear_arith)
                        requires
                            image_height + chunk_size >= 1,
                    ;
                }
                return None;
            },
        };
        let high = match image_height.checked_add(chunk_size) {
            Some(high) => high,
            None => {
                proof {
                    assert((image_width + chunk_size) * (image_height + chunk_size) >= image_height
                        + chunk_size) by (nonlinear_arith)
                        requires
                            image_width + chunk_size >= 1,
                    ;
                }
                return None;
            },
        };
        match wide.checked_mul(high) {
            Some(_) => Some(
                TraceOptions { image_width, image_height, sample_count, max_depth, chunk_size },
            ),
            None => None,
        }
    }

    /// Width of the image in pixels.
    #[verifier::when_used_as_spec(spec_image_width)]
    pub fn image_width(&self) -> (width: usize)
        ensures
            width == self.image_width(),
    {
        self.image_width
    }

    /// Height of the image in pixels.
    #[verifier::when_used_as_spec(spec_image_height)]
    pub fn image_height(&self) -> (height: usize)
        ensures
            height == self.image_height(),
    {
        self.image_height
    }

    /// Rays cast through each pixel.
    #[verifier::when_used_as_spec(spec_sample_count)]
    pub fn sample_count(&self) -> (count: usize)
        ensures
            count == self.sample_count(),
    {
        self.sample_count
    }

    /// Bounces after which a path carries no light.
    #[verifier::when_used_as_spec(spec_max_depth)]
    pub fn max_depth(&self) -> (depth: usize)
        ensures
            depth == self.max_depth(),
    {
        self.max_depth
    }

    /// Side of a chunk in pixels, at least 1.
    #[verifier::when_used_as_spec(spec_chunk_size)]
    pub fn chunk_size(&self) -> (size: usize)
        ensures
            size == self.chunk_size(),
            size >= 1,
    {
        proof {
            use_type_invariant(self);
        }
        self.chunk_size
    }

    /// Number of chunk columns: `ceil(image_width / chunk_size)`.
    pub fn chunks_across(&self) -> (count: usize)
        ensures
            self.wf(),
            count == chunks_spanning(self.image_width() as nat, self.chunk_size() as nat),
    {
        proof {
            use_type_invariant(self);
            lemma_addressable_bounds(
                self.image_width as nat,
                self.image_height as nat,
                self.chunk_size as nat,
            );
        }
        (self.image_width + self.chunk_size - 1) / self.chunk_size
    }

    /// Number of chunk rows: `ceil(image_height / chunk_size)`.
    pub fn chunks_down(&self) -> (count: usize)
        ensures
            self.wf(),
            count == chunks_spanning(self.image_height() as nat, self.chunk_size() as nat),
    {
        proof {
            use_type_invariant(self);
            lemma_addressable_bounds(
                self.image_width as nat,
                self.image_height as nat,
                self.chunk_size as nat,
            );
        }
        (self.image_height + self.chunk_size - 1) / self.chunk_size
    }

    /// Number of chunks of the image: columns times rows.
    pub fn chunk_count(&self) -> (count: usize)
        ensures
            self.wf(),
            count == chunk_total(
                self.image_width() as nat,
                self.image_height() as nat,
                self.chunk_size() as nat,
            ),
    {
        let across = self.chunks_across();
        let down = self.chunks_down();
        proof {
            lemma_addressable_bounds(
                self.image_width as nat,
                self.image_height as nat,
                self.chunk_size as nat,
            );
        }
        across * down
    }

    /// Number of pixels of the image.
    pub fn pixel_count(&self) -> (count: usize)
        ensures
            self.wf(),
            count == self.image_width() * self.image_height(),
    {
        proof {
            use_type_invariant(self);
            lemma_addressable_bounds(
                self.image_width as nat,
                self.image_height as nat,
                self.chunk_size as nat,
            );
        }
        self.image_width * self.image_height
    }

    /// The chunks of the image as `(column, row)` pairs, row by row from the
    /// top, each row from the left.
    pub fn chunk_grid(&self) -> (grid: Vec<(usize, usize)>)
        ensures
            self.wf(),
            grid.len() == chunk_total(
                self.image_width() as nat,
                self.image_height() as nat,
                self.chunk_size() as nat,
            ),
            forall|column: int, row: int|
                0 <= column < chunks_spanning(self.image_width() as nat, self.chunk_size() as nat) && 0
                    <= row < chunks_spanning(self.image_height() as nat, self.chunk_size() as nat)
                    ==> #[trigger] grid[grid_index(
                    column,
                    row,
                    chunks_spanning(self.image_width() as nat, self.chunk_size() as nat) as int,
                )] == (column as usize, row as usize),
    {
        let across = self.chunks_across();
        let down = self.chunks_down();
        proof {
            lemma_addressable_bounds(
                self.image_width as nat,
                self.image_height as nat,
                self.chunk_size as nat,
            );
        }
        let mut grid: Vec<(usize, usize)> = Vec::new();
        let mut y: usize = 0;
        while y < down
            invariant
                y <= down,
                grid.len() == y * across,
                across * down <= usize::MAX,
                forall|column: int, row: int|
                    0 <= column < across && 0 <= row < y ==> #[trigger] grid[grid_index(
                        column,
                        row,
                        across as int,
                    )] == (column as usize, row as usize),
            decreases down - y,
        {
            let mut x: usize = 0;
            while x < across
                invariant
                    y < down,
                    x <= across,
                    grid.len() == y * across + x,
                    across * down <= usize::MAX,
                    forall|column: int, row: int|
                        0 <= column < across && 0 <= row < y ==> #[trigger] grid[grid_index(
                            column,
                            row,
                            across as int,
                        )] == (column as usize, row as usize),
                    forall|column: int|
                        0 <= column < x ==> #[trigger] grid[grid_index(column, y as int, across as int)]
                            == (column as usize, y),
                decreases across - x,
            {
                let ghost before = grid@;
                grid.push((x, y));
                proof {
                    assert forall|column: int, row: int|
                        0 <= column < across && 0 <= row < y implies #[trigger] grid[grid_index(
                        column,
                        row,
                        across as int,
                    )] == (column as usize, row as usize) by {
                        lemma_grid_index_bounds(column, row, across as int, y as int);
                        assert(grid[grid_index(column, row, across as int)] == before[grid_index(
                            column,
                            row,
                            across as int,
                        )]);
                    }
                }
                x += 1;
            }
            proof {
                assert((y + 1) * across == y * across + across) by (nonlinear_arith);
            }
            y += 1;
        }
        proof {
            assert(down * across == across * down) by (nonlinear_arith);
        }
        grid
    }

    /// Where pixel `(i, j)` of the chunk in column `cx` and row `cy` lies in
    /// the image, or `None` where the chunk has no such pixel.
    pub fn chunk_pixel(&self, cx: usize, cy: usize, i: usize, j: usize) -> (pixel: Option<(usize, usize)>)
        ensures
            self.wf(),
            pixel == chunk_pixel_at(
                self.image_width() as nat,
                self.image_height() as nat,
                self.chunk_size() as nat,
                cx as nat,
                cy as nat,
                i as nat,
                j as nat,
            ),
    {
        proof {
            use_type_invariant(self);
        }
        pixel_of_place(cx, cy, i, j, self.image_width, self.image_height, self.chunk_size)
    }
}

/// A rendered chunk: its column and row in the grid, how long it took, and
/// its colors row by row, `chunk_size * chunk_size` of them. Places of the
/// chunk that lie outside the image are black.
#[derive(Debug)]
pub struct Chunk {
    pub x: usize,
    pub y: usize,
    pub duration: Duration,
    pub pixels: Vec<Color>,
}

/// Whether `color` is what rendering owes at place `(i, j)` of the chunk in
/// column `cx` and row `cy`: a color that `shade` may return for the pixel of
/// the image at that place, or black where the place lies outside the image.
pub open spec fn place_rendered<F: Fn(usize, usize) -> Color>(
    width: nat,
    height: nat,
    size: nat,
    cx: nat,
    cy: nat,
    i: nat,
    j: nat,
    shade: F,
    color: Color,
) -> bool {
    match chunk_pixel_at(width, height, size, cx, cy, i, j) {
        Some((px, py)) => call_ensures(shade, (px, py), color),
        None => color.is_black(),
    }
}

/// Renders the chunk in column `cx` and row `cy`.
///
/// `shade` is called once for every pixel of the image that the chunk holds,
/// with the pixel's column and row in the image, and for no other. The result
/// lists the chunk's places row by row.
pub fn render_chunk<F: Fn(usize, usize) -> Color>(
    options: &TraceOptions,
    cx: usize,
    cy: usize,
    shade: &F,
) -> (pixels: Vec<Color>)
    requires
        forall|px: usize, py: usize|
            px < options.image_width() && py < options.image_height() ==> call_requires(*shade, (px, py)),
    ensures
        options.wf(),
        pixels.len() == options.chunk_size() * options.chunk_size(),
        forall|i: int, j: int|
            0 <= i < options.chunk_size() && 0 <= j < options.chunk_size() ==> place_rendered(
                options.image_width() as nat,
                options.image_height() as nat,
                options.chunk_size() as nat,
                cx as nat,
                cy as nat,
                i as nat,
                j as nat,
                *shade,
                #[trigger] pixels[grid_index(i, j, options.chunk_size() as int)],
            ),
{
    let size = options.chunk_size();
    let ghost width = options.image_width() as nat;
    let ghost height = options.image_height() as nat;
    proof {
        use_type_invariant(options);
        lemma_addressable_bounds(width, height, size as nat);
    }
    let mut pixels: Vec<Color> = Vec::new();
    let mut j: usize = 0;
    while j < size
        invariant
            options.wf(),
            size == options.chunk_size(),
            width == options.image_width(),
            height == options.image_height(),
            size * size <= usize::MAX,
            j <= size,
            pixels.len() == j * size,
            forall|px: usize, py: usize|
                px < options.image_width() && py < options.image_height() ==> call_requires(*shade, (px, py)),
            forall|i: int, row: int|
                0 <= i < size && 0 <= row < j ==> place_rendered(
                    width,
                    height,
                    size as nat,
                    cx as nat,
                    cy as nat,
                    i as nat,
                    row as nat,
                    *shade,
                    #[trigger] pixels[grid_index(i, row, size as int)],
                ),
        decreases size - j,
    {
        let mut i: usize = 0;
        while i < size
            invariant
                options.wf(),
                size == options.chunk_size(),
                width == options.image_width(),
                height == options.image_height(),
                size * size <= usize::MAX,
                j < size,
                i <= size,
                pixels.len() == j * size + i,
                forall|px: usize, py: usize|
                    px < options.image_width() && py < options.image_height() ==> call_requires(
                        *shade,
                        (px, py),
                    ),
                forall|column: int, row: int|
                    0 <= column < size && 0 <= row < j ==> place_rendered(
                        width,
                        height,
                        size as nat,
                        cx as nat,
                        cy as nat,
                        column as nat,
                        row as nat,
                        *shade,
                        #[trigger] pixels[grid_index(column, row, size as int)],
                    ),
                forall|column: int|
                    0 <= column < i ==> place_rendered(
                        width,
                        height,
                        size as nat,
                        cx as nat,
                        cy as nat,
                        column as nat,
                        j as nat,
                        *shade,
                        #[trigger] pixels[grid_index(column, j as int, size as int)],
                    ),
            decreases size - i,
        {
            let color = match options.chunk_pixel(cx, cy, i, j) {
                Some((px, py)) => shade(px, py),
                None => Color::black(),
            };
            let ghost before = pixels@;
            pixels.push(color);
            proof {
                assert forall|column: int, row: int| 0 <= column < size && 0 <= row < j implies place_rendered(
                    width,
                    height,
                    size as nat,
                    cx as nat,
                    cy as nat,
                    column as nat,
                    row as nat,
                    *shade,
                    #[trigger] pixels[grid_index(column, row, size as int)],
                ) by {
                    lemma_grid_index_bounds(column, row, size as int, j as int);
                    assert(pixels[grid_index(column, row, size as int)] == before[grid_index(
                        column,
                        row,
                        size as int,
                    )]);
                }
                assert forall|column: int| 0 <= column < i + 1 implies place_rendered(
                    width,
                    height,
                    size as nat,
                    cx as nat,
                    cy as nat,
                    column as nat,
                    j as nat,
                    *shade,
                    #[trigger] pixels[grid_index(column, j as int, size as int)],
                ) by {
                    if column < i {
                        assert(pixels[grid_index(column, j as int, size as int)] == before[grid_index(
                            column,
                            j as int,
                            size as int,
                        )]);
                    }
                }
            }
            i += 1;
        }
        proof {
            assert((j + 1) * size == j * size + size) by (nonlinear_arith);
            assert(j * size + size <= size * size) by (nonlinear_arith)
                requires
                    j < size,
            ;
        }
        j += 1;
    }
    pixels
}

/// Whether `total` is what adding `colors` one by one, in order, to `start`
/// may give.
pub open spec fn accumulated<L, A: Fn(L, Color) -> L>(
    accumulate: A,
    start: L,
    colors: Seq<Color>,
    total: L,
) -> bool
    decreases colors.len(),
{
    if colors.len() == 0 {
        total == start
    } else {
        exists|before: L|
            accumulated(accumulate, start, colors.drop_last(), before) && #[trigger] call_ensures(
                accumulate,
                (before, colors.last()),
                total,
            )
    }
}

/// Adding one more color to a total gives a total of one more color.
pub proof fn lemma_accumulate_one_more<L, A: Fn(L, Color) -> L>(
    accumulate: A,
    start: L,
    colors: Seq<Color>,
    before: L,
    total: L,
)
    requires
        colors.len() > 0,
        accumulated(accumulate, start, colors.drop_last(), before),
        call_ensures(accumulate, (before, colors.last()), total),
    ensures
        accumulated(accumulate, start, colors, total),
{
}

/// Whether `colors` are samples of the pixel in column `px` and row `py`,
/// and `total` is what accumulating them onto `start` may give.
pub open spec fn sampled<L, S: Fn(usize, usize) -> Color, A: Fn(L, Color) -> L>(
    sample: S,
    accumulate: A,
    start: L,
    px: usize,
    py: usize,
    colors: Seq<Color>,
    total: L,
) -> bool {
    &&& forall|k: int| 0 <= k < colors.len() ==> call_ensures(sample, (px, py), #[trigger] colors[k])
    &&& accumulated(accumulate, start, colors, total)
}

/// The color of the pixel in column `px` and row `py`.
///
/// The pixel is sampled `options.sample_count()` times. The samples are
/// added up in the order in which they were taken, starting from `start`,
/// and `develop` turns the total and the number of samples into the color.
pub fn sample_pixel<L, S: Fn(usize, usize) -> Color, A: Fn(L, Color) -> L, D: Fn(L, usize) -> Color>(
    options: &TraceOptions,
    px: usize,
    py: usize,
    sample: &S,
    start: L,
    accumulate: &A,
    develop: &D,
) -> (color: Color)
    requires
        call_requires(*sample, (px, py)),
        forall|total: L, color: Color| call_requires(*accumulate, (total, color)),
        forall|total: L| call_requires(*develop, (total, options.sample_count())),
    ensures
        exists|colors: Seq<Color>, total: L| #[trigger]
            sampled(*sample, *accumulate, start, px, py, colors, total) && colors.len()
                == options.sample_count() && call_ensures(*develop, (total, options.sample_count()), color),
{
    let count = options.sample_count();
    let mut total = start;
    let ghost mut colors: Seq<Color> = Seq::empty();
    let mut k: usize = 0;
    while k < count
        invariant
            k <= count,
            colors.len() == k,
            call_requires(*sample, (px, py)),
            forall|total: L, color: Color| call_requires(*accumulate, (total, color)),
            sampled(*sample, *accumulate, start, px, py, colors, total),
        decreases count - k,
    {
        let color = sample(px, py);
        let ghost before = total;
        let ghost taken = colors;
        total = accumulate(total, color);
        proof {
            colors = colors.push(color);
            assert(colors.drop_last() == taken);
            assert(colors.last() == color);
            assert(accumulated(*accumulate, start, colors.drop_last(), before));
            lemma_accumulate_one_more(*accumulate, start, colors, before, total);
            assert forall|at: int| 0 <= at < colors.len() implies call_ensures(
                *sample,
                (px, py),
                #[trigger] colors[at],
            ) by {
                if at < taken.len() {
                    assert(colors[at] == taken[at]);
                }
            }
        }
        k += 1;
    }
    let ghost final_total = total;
    let color = develop(total, count);
    proof {
        assert(sampled(*sample, *accumulate, start, px, py, colors, final_total));
    }
    color
}

} // verus!
