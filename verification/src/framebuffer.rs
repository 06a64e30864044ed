//! The framebuffer that finished chunks are written into.
//!
//! Chunks arrive in any order. Each one is copied to the pixels of the image
//! that it holds and to no other, so the image does not depend on the order.

use crate::color::Color;
use crate::chunks::{
    addressable, chunk_has_pixel, chunk_pixel_at, grid_index, lemma_addressable_bounds,
    lemma_chunks_partition_image, lemma_grid_index_bounds, pixel_of_place,
};
use crate::raytrace::{place_rendered, Chunk, TraceOptions};
use vstd::arithmetic::div_mod::lemma_fundamental_div_mod;
use vstd::prelude::*;

verus! {

/// Place in a framebuffer of `width` columns of the pixel in column `px` and
/// row `py`.
pub open spec fn pixel_index(px: int, py: int, width: int) -> int {
    py * width + px
}

/// Place among the colors of a chunk of side `size`, in column `cx` and row
/// `cy` of the grid, of the pixel in column `px` and row `py` of the image.
pub open spec fn place_in_chunk(cx: int, cy: int, size: int, px: int, py: int) -> int {
    grid_index(px - cx * size, py - cy * size, size)
}

/// An image of `width x height` pixels, row by row from the top.
pub struct Framebuffer<P> {
    width: usize,
    height: usize,
    chunk_size: usize,
    pixels: Vec<P>,
}

impl<P> View for Framebuffer<P> {
    type V = Seq<P>;

    /// The pixels, row by row from the top.
    closed spec fn view(&self) -> Seq<P> {
        self.pixels@
    }
}

impl<P: Copy> Framebuffer<P> {
    pub closed spec fn spec_width(&self) -> usize {
        self.width
    }

    pub closed spec fn spec_height(&self) -> usize {
        self.height
    }

    pub closed spec fn spec_chunk_size(&self) -> usize {
        self.chunk_size
    }

    /// Whether the framebuffer holds one pixel for every pixel of an
    /// addressable image.
    pub open spec fn wf(&self) -> bool {
        &&& addressable(self.width() as nat, self.height() as nat, self.chunk_size() as nat)
        &&& self.view().len() == self.width() * self.height()
    }

    /// A framebuffer for the image that `options` describes, every pixel
    /// `fill`.
    pub fn new(options: &TraceOptions, fill: P) -> (framebuffer: Framebuffer<P>)
        ensures
            framebuffer.wf(),
            framebuffer.width() == options.image_width(),
            framebuffer.height() == options.image_height(),
            framebuffer.chunk_size() == options.chunk_size(),
            framebuffer.view().len() == options.image_width() * options.image_height(),
            forall|k: int| 0 <= k < framebuffer.view().len() ==> framebuffer.view()[k] == fill,
    {
        let count = options.pixel_count();
        let mut pixels: Vec<P> = Vec::new();
        let mut k: usize = 0;
        while k < count
            invariant
                k <= count,
                pixels.len() == k,
                forall|at: int| 0 <= at < k ==> pixels[at] == fill,
            decreases count - k,
        {
            pixels.push(fill);
            k += 1;
        }
        Framebuffer {
            width: options.image_width(),
            height: options.image_height(),
            chunk_size: options.chunk_size(),
            pixels,
        }
    }

    /// Width of the image in pixels.
    #[verifier::when_used_as_spec(spec_width)]
    pub fn width(&self) -> (width: usize)
        ensures
            width == self.width(),
    {
        self.width
    }

    /// Height of the image in pixels.
    #[verifier::when_used_as_spec(spec_height)]
    pub fn height(&self) -> (height: usize)
        ensures
            height == self.height(),
    {
        self.height
    }

    /// Side of the chunks that the image is rendered in.
    #[verifier::when_used_as_spec(spec_chunk_size)]
    pub fn chunk_size(&self) -> (size: usize)
        ensures
            size == self.chunk_size(),
    {
        self.chunk_size
    }

    /// The pixels, row by row from the top.
    pub fn pixels(&self) -> (pixels: &Vec<P>)
        ensures
            pixels@ == self.view(),
    {
        &self.pixels
    }

    /// Writes a finished chunk into the image.
    ///
    /// Every pixel of the image that the chunk holds becomes what `convert`
    /// makes of the chunk's color for it. Every other pixel stays as it is:
    /// places of the chunk outside the image are dropped.
    pub fn write_chunk<F: Fn(&Color) -> P>(&mut self, chunk: &Chunk, convert: &F)
        requires
            old(self).wf(),
            chunk.pixels.len() == old(self).chunk_size() * old(self).chunk_size(),
            forall|color: Color| call_requires(*convert, (&color,)),
        ensures
            final(self).wf(),
            final(self).width() == old(self).width(),
            final(self).height() == old(self).height(),
            final(self).chunk_size() == old(self).chunk_size(),
            final(self).view().len() == old(self).view().len(),
            forall|px: int, py: int|
                0 <= px < old(self).width() && 0 <= py < old(self).height() ==> #[trigger] pixel_written(
                    old(self)@,
                    final(self)@,
                    *chunk,
                    *convert,
                    old(self).width() as int,
                    old(self).height() as int,
                    old(self).chunk_size() as int,
                    px,
                    py,
                ),
    {
        let size = self.chunk_size;
        let width = self.width;
        let height = self.height;
        proof {
            lemma_addressable_bounds(width as nat, height as nat, size as nat);
        }
        let mut j: usize = 0;
        while j < size
            invariant
                self.wf(),
                self.width == width,
                self.height == height,
                self.chunk_size == size,
                self.width == old(self).width,
                self.height == old(self).height,
                self.chunk_size == old(self).chunk_size,
                old(self).wf(),
                size >= 1,
                size * size <= usize::MAX,
                width * height <= usize::MAX,
                chunk.pixels.len() == size * size,
                j <= size,
                forall|color: Color| call_requires(*convert, (&color,)),
                forall|px: int, py: int|
                    0 <= px < width && 0 <= py < height ==> written_until(
                        old(self).pixels@,
                        self.pixels@,
                        *chunk,
                        *convert,
                        width as int,
                        height as int,
                        size as int,
                        0,
                        j as int,
                        px,
                        py,
                    ),
            decreases size - j,
        {
            let mut i: usize = 0;
            while i < size
                invariant
                    self.wf(),
                    self.width == width,
                    self.height == height,
                    self.chunk_size == size,
                    self.width == old(self).width,
                    self.height == old(self).height,
                    self.chunk_size == old(self).chunk_size,
                    old(self).wf(),
                    size >= 1,
                    size * size <= usize::MAX,
                    width * height <= usize::MAX,
                    chunk.pixels.len() == size * size,
                    j < size,
                    i <= size,
                    forall|color: Color| call_requires(*convert, (&color,)),
                    forall|px: int, py: int|
                        0 <= px < width && 0 <= py < height ==> written_until(
                            old(self).pixels@,
                            self.pixels@,
                            *chunk,
                            *convert,
                            width as int,
                            height as int,
                            size as int,
                            i as int,
                            j as int,
                            px,
                            py,
                        ),
                decreases size - i,
            {
                let ghost before = self.pixels@;
                let ghost next = i as int + 1;
                let target = pixel_of_place(chunk.x, chunk.y, i, j, width, height, size);
                match target {
                    None => {},
                    Some((x, y)) => {
                        proof {
                            lemma_grid_index_bounds(i as int, j as int, size as int, size as int);
                            lemma_grid_index_bounds(x as int, y as int, width as int, height as int);
                            assert(height * width == width * height) by (nonlinear_arith);
                        }
                        let color = convert(&chunk.pixels[j * size + i]);
                        self.pixels.set(y * width + x, color);
                        assert(self.pixels@ == before.update(pixel_index(x as int, y as int, width as int), color));
                        assert(call_ensures(
                            *convert,
                            (&chunk.pixels[grid_index(i as int, j as int, size as int)],),
                            color,
                        ));
                    },
                }
                proof {
                    assert forall|px: int, py: int| 0 <= px < width && 0 <= py < height implies written_until(
                        old(self).pixels@,
                        self.pixels@,
                        *chunk,
                        *convert,
                        width as int,
                        height as int,
                        size as int,
                        next,
                        j as int,
                        px,
                        py,
                    ) by {
                        assert(written_until(
                            old(self).pixels@,
                            before,
                            *chunk,
                            *convert,
                            width as int,
                            height as int,
                            size as int,
                            i as int,
                            j as int,
                            px,
                            py,
                        ));
                        lemma_pixel_index_injective(px, py, width as int, height as int);
                        let at_place = px - chunk.x * size == i && py - chunk.y * size == j;
                        if at_place {
                            assert(target == Some((px as usize, py as usize)));
                        } else if let Some((x, y)) = target {
                            assert(x != px || y != py);
                            assert(pixel_index(x as int, y as int, width as int) != pixel_index(
                                px,
                                py,
                                width as int,
                            ));
                        }
                    }
                }
                i += 1;
            }
            let ghost next_row = j as int + 1;
            proof {
                assert forall|px: int, py: int| 0 <= px < width && 0 <= py < height implies written_until(
                    old(self).pixels@,
                    self.pixels@,
                    *chunk,
                    *convert,
                    width as int,
                    height as int,
                    size as int,
                    0,
                    next_row,
                    px,
                    py,
                ) by {
                    assert(written_until(
                        old(self).pixels@,
                        self.pixels@,
                        *chunk,
                        *convert,
                        width as int,
                        height as int,
                        size as int,
                        size as int,
                        j as int,
                        px,
                        py,
                    ));
                }
            }
            j += 1;
        }
        proof {
            assert forall|px: int, py: int| 0 <= px < width && 0 <= py < height implies #[trigger] pixel_written(
                old(self)@,
                self@,
                *chunk,
                *convert,
                width as int,
                height as int,
                size as int,
                px,
                py,
            ) by {
                assert(written_until(
                    old(self).pixels@,
                    self.pixels@,
                    *chunk,
                    *convert,
                    width as int,
                    height as int,
                    size as int,
                    0,
                    size as int,
                    px,
                    py,
                ));
                lemma_place_in_chunk(
                    chunk.x as int,
                    chunk.y as int,
                    width as int,
                    height as int,
                    size as int,
                    px,
                    py,
                );
            }
        }
    }
}

/// A chunk holds a pixel of the image exactly where the pixel's offsets from
/// the chunk's first pixel are places of the chunk.
pub proof fn lemma_place_in_chunk(cx: int, cy: int, width: int, height: int, size: int, px: int, py: int)
    requires
        size > 0,
        0 <= cx,
        0 <= cy,
        0 <= px < width,
        0 <= py < height,
    ensures
        chunk_has_pixel(cx as nat, cy as nat, width as nat, height as nat, size as nat, px as nat, py as nat)
            <==> (0 <= px - cx * size < size && 0 <= py - cy * size < size),
{
    assert(cx * size >= 0) by (nonlinear_arith)
        requires
            cx >= 0,
            size > 0,
    ;
    assert(cy * size >= 0) by (nonlinear_arith)
        requires
            cy >= 0,
            size > 0,
    ;
}

/// Whether place `(i, j)` of a chunk comes before place `(column, row)` in
/// the order in which a chunk is written: row by row, each row from the left.
pub open spec fn place_before(i: int, j: int, column: int, row: int) -> bool {
    j < row || (j == row && i < column)
}

/// Whether pixel `(px, py)` of the image is as it should be once the places of
/// `chunk` before place `(column, row)` are written: converted from the
/// chunk's color where the chunk holds the pixel at one of those places,
/// unchanged otherwise.
pub open spec fn written_until<P, F: Fn(&Color) -> P>(
    old_pixels: Seq<P>,
    pixels: Seq<P>,
    chunk: Chunk,
    convert: F,
    width: int,
    height: int,
    size: int,
    column: int,
    row: int,
    px: int,
    py: int,
) -> bool {
    let i = px - chunk.x * size;
    let j = py - chunk.y * size;
    if 0 <= i < size && 0 <= j < size && place_before(i, j, column, row) {
        call_ensures(convert, (&chunk.pixels[grid_index(i, j, size)],), pixels[pixel_index(px, py, width)])
    } else {
        pixels[pixel_index(px, py, width)] == old_pixels[pixel_index(px, py, width)]
    }
}

/// Two pixels of an image have the same place in the framebuffer only where
/// they are the same pixel.
pub proof fn lemma_pixel_index_injective(px: int, py: int, width: int, height: int)
    requires
        0 <= px < width,
        0 <= py < height,
    ensures
        0 <= pixel_index(px, py, width) < width * height,
        forall|qx: int, qy: int|
            0 <= qx < width && 0 <= qy < height && #[trigger] pixel_index(qx, qy, width) == pixel_index(
                px,
                py,
                width,
            ) ==> qx == px && qy == py,
{
    lemma_grid_index_bounds(px, py, width, height);
    assert(height * width == width * height) by (nonlinear_arith);
    assert forall|qx: int, qy: int|
        0 <= qx < width && 0 <= qy < height && #[trigger] pixel_index(qx, qy, width) == pixel_index(
            px,
            py,
            width,
        ) implies qx == px && qy == py by {
        assert((qy - py) * width == qy * width - py * width) by (nonlinear_arith);
        if qy > py {
            assert((qy - py) * width >= width) by (nonlinear_arith)
                requires
                    qy - py >= 1,
                    width > 0,
            ;
        }
        if qy < py {
            assert((py - qy) * width >= width) by (nonlinear_arith)
                requires
                    py - qy >= 1,
                    width > 0,
            ;
            assert((py - qy) * width == py * width - qy * width) by (nonlinear_arith);
        }
    }
}

/// A pixel ends up as its own shade. Where the chunk that holds a pixel was
/// rendered by `shade`, what writing the chunk through `convert` leaves at
/// the pixel is the conversion of a color that `shade` gave for that very
/// pixel.
pub proof fn lemma_written_pixel_is_its_shade<P, S: Fn(usize, usize) -> Color, F: Fn(&Color) -> P>(
    width: usize,
    height: usize,
    size: usize,
    chunk: Chunk,
    shade: S,
    convert: F,
    written: P,
    px: usize,
    py: usize,
)
    requires
        size > 0,
        px < width,
        py < height,
        chunk.x == px / size,
        chunk.y == py / size,
        forall|i: int, j: int|
            0 <= i < size && 0 <= j < size ==> place_rendered(
                width as nat,
                height as nat,
                size as nat,
                chunk.x as nat,
                chunk.y as nat,
                i as nat,
                j as nat,
                shade,
                #[trigger] chunk.pixels[grid_index(i, j, size as int)],
            ),
        call_ensures(
            convert,
            (&chunk.pixels[place_in_chunk(chunk.x as int, chunk.y as int, size as int, px as int, py as int)],),
            written,
        ),
    ensures
        exists|color: Color| call_ensures(shade, (px, py), color) && #[trigger] call_ensures(convert, (&color,), written),
{
    let i = px as int - chunk.x * size;
    let j = py as int - chunk.y * size;
    lemma_fundamental_div_mod(px as int, size as int);
    lemma_fundamental_div_mod(py as int, size as int);
    assert(chunk.x * size == size * (px as int / size as int)) by (nonlinear_arith)
        requires
            chunk.x == px as int / size as int,
    ;
    assert(chunk.y * size == size * (py as int / size as int)) by (nonlinear_arith)
        requires
            chunk.y == py as int / size as int,
    ;
    assert(0 <= i < size && 0 <= j < size);
    let color = chunk.pixels[grid_index(i, j, size as int)];
    assert(chunk_pixel_at(
        width as nat,
        height as nat,
        size as nat,
        chunk.x as nat,
        chunk.y as nat,
        i as nat,
        j as nat,
    ) == Some((px, py)));
    assert(call_ensures(shade, (px, py), color));
    assert(call_ensures(convert, (&color,), written));
}

/// Whether pixel `(px, py)` of `after` is what writing `chunk` into `before`
/// leaves there: the conversion of the chunk's color for the pixel where the
/// chunk holds the pixel, else what was there before.
pub open spec fn pixel_written<P, F: Fn(&Color) -> P>(
    before: Seq<P>,
    after: Seq<P>,
    chunk: Chunk,
    convert: F,
    width: int,
    height: int,
    size: int,
    px: int,
    py: int,
) -> bool {
    if chunk_has_pixel(
        chunk.x as nat,
        chunk.y as nat,
        width as nat,
        height as nat,
        size as nat,
        px as nat,
        py as nat,
    ) {
        call_ensures(
            convert,
            (&chunk.pixels[place_in_chunk(chunk.x as int, chunk.y as int, size, px, py)],),
            after[pixel_index(px, py, width)],
        )
    } else {
        after[pixel_index(px, py, width)] == before[pixel_index(px, py, width)]
    }
}

/// The image does not depend on the order in which two different chunks
/// arrive. After both were written, whichever came first, a pixel that one
/// of them holds is the conversion of that chunk's color for it, and a pixel
/// that neither holds is as it was.
pub proof fn lemma_two_chunks_in_any_order<P, F: Fn(&Color) -> P>(
    before: Seq<P>,
    between: Seq<P>,
    after: Seq<P>,
    first: Chunk,
    second: Chunk,
    convert: F,
    width: int,
    height: int,
    size: int,
    px: int,
    py: int,
)
    requires
        size > 0,
        0 <= px < width,
        0 <= py < height,
        first.x != second.x || first.y != second.y,
        pixel_written(before, between, first, convert, width, height, size, px, py),
        pixel_written(between, after, second, convert, width, height, size, px, py),
    ensures
        chunk_has_pixel(
            first.x as nat,
            first.y as nat,
            width as nat,
            height as nat,
            size as nat,
            px as nat,
            py as nat,
        ) ==> pixel_written(before, after, first, convert, width, height, size, px, py),
        chunk_has_pixel(
            second.x as nat,
            second.y as nat,
            width as nat,
            height as nat,
            size as nat,
            px as nat,
            py as nat,
        ) ==> pixel_written(before, after, second, convert, width, height, size, px, py),
        pixel_written(before, after, first, convert, width, height, size, px, py) || pixel_written(
            before,
            after,
            second,
            convert,
            width,
            height,
            size,
            px,
            py,
        ),
{
    lemma_chunks_disjoint(
        width as nat,
        height as nat,
        size as nat,
        first.x as nat,
        first.y as nat,
        second.x as nat,
        second.y as nat,
        px as nat,
        py as nat,
    );
}

/// Two different chunks share no pixel of the image, so it does not matter in
/// which order they are written.
pub proof fn lemma_chunks_disjoint(
    width: nat,
    height: nat,
    size: nat,
    ax: nat,
    ay: nat,
    bx: nat,
    by: nat,
    px: nat,
    py: nat,
)
    requires
        size > 0,
        ax != bx || ay != by,
    ensures
        !(chunk_has_pixel(ax, ay, width, height, size, px, py) && chunk_has_pixel(
            bx,
            by,
            width,
            height,
            size,
            px,
            py,
        )),
{
    lemma_chunks_partition_image(width, height, size, px, py);
}

} // verus!
