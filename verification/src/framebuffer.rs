//! The canvas: a flat, row-major array of packed pixels that drawing passes
//! write to, clipped at its edges.

use vstd::prelude::*;
use crate::layout::{column_of, in_grid, index_of, lemma_cell_of_index, lemma_index_of_cell, row_of};

verus! {

/// Whether pixel `(px, py)` lies in the rectangle whose top-left corner is
/// `(x, y)` and which is `w` wide and `h` high.
pub open spec fn in_rect(x: int, y: int, w: int, h: int, px: int, py: int) -> bool {
    x <= px < x + w && y <= py < y + h
}

/// What a framebuffer holds: its size and its pixels, row by row.
pub struct Canvas {
    pub width: nat,
    pub height: nat,
    pub pixels: Seq<u32>,
}

impl Canvas {
    /// There is exactly one pixel for each coordinate of the canvas.
    pub open spec fn wf(self) -> bool {
        self.pixels.len() == self.width * self.height
    }

    /// Whether `(x, y)` is a coordinate of the canvas.
    pub open spec fn contains(self, x: int, y: int) -> bool {
        in_grid(x, y, self.width, self.height)
    }

    /// The pixel at `(x, y)`.
    pub open spec fn pixel(self, x: int, y: int) -> u32
        recommends
            self.contains(x, y),
    {
        self.pixels[index_of(x, y, self.width)]
    }

    /// A canvas of the given size with every pixel set to `color`.
    pub open spec fn blank(width: nat, height: nat, color: u32) -> Canvas {
        Canvas { width, height, pixels: Seq::new(width * height, |i: int| color) }
    }

    /// The canvas with every pixel set to `color`.
    pub open spec fn fill(self, color: u32) -> Canvas {
        Canvas {
            width: self.width,
            height: self.height,
            pixels: Seq::new(self.pixels.len(), |i: int| color),
        }
    }

    /// The canvas with the pixel at `(x, y)` set to `color`; the canvas
    /// itself where `(x, y)` is not one of its coordinates.
    pub open spec fn set_pixel(self, x: int, y: int, color: u32) -> Canvas {
        if self.contains(x, y) {
            Canvas {
                width: self.width,
                height: self.height,
                pixels: self.pixels.update(index_of(x, y, self.width), color),
            }
        } else {
            self
        }
    }

    /// The canvas with every pixel of the rectangle set to `color`. The part
    /// of the rectangle that lies off the canvas is dropped.
    pub open spec fn fill_rect(self, x: int, y: int, w: int, h: int, color: u32) -> Canvas {
        Canvas {
            width: self.width,
            height: self.height,
            pixels: Seq::new(
                self.pixels.len(),
                |i: int|
                    if in_rect(x, y, w, h, column_of(i, self.width), row_of(i, self.width)) {
                        color
                    } else {
                        self.pixels[i]
                    },
            ),
        }
    }
}

/// An index into stored pixels fits in a `usize`, and so does the row's
/// offset on the way to it.
proof fn lemma_fits(len: usize, x: int, y: int, width: int)
    requires
        0 <= x,
        0 <= y,
        0 <= width,
        x + y * width < len,
    ensures
        0 <= y * width <= x + y * width <= usize::MAX,
{
    assert(0 <= y * width) by (nonlinear_arith)
        requires
            0 <= y,
            0 <= width,
    ;
}

/// A heap-held canvas of packed RGBA pixels.
pub struct Framebuffer {
    width: usize,
    height: usize,
    pixels: Vec<u32>,
}

impl View for Framebuffer {
    type V = Canvas;

    closed spec fn view(&self) -> Canvas {
        Canvas { width: self.width as nat, height: self.height as nat, pixels: self.pixels@ }
    }
}

impl Framebuffer {
    /// Holds of every framebuffer there is.
    #[verifier::type_invariant]
    pub open spec fn inv(self) -> bool {
        self@.wf()
    }

    /// A canvas of `width` by `height` pixels, each set to `color`; `None`
    /// where the number of pixels does not fit in a `usize`.
    pub fn new(width: usize, height: usize, color: u32) -> (made: Option<Framebuffer>)
        ensures
            made is Some <==> width * height <= usize::MAX,
            made matches Some(fb) ==> fb@ == Canvas::blank(width as nat, height as nat, color),
    {
        match width.checked_mul(height) {
            Some(n) => {
                let pixels = vec![color; n];
                let fb = Framebuffer { width, height, pixels };
                assert(fb@.pixels =~= Canvas::blank(width as nat, height as nat, color).pixels);
                Some(fb)
            },
            None => None,
        }
    }

    /// The width in pixels.
    pub fn width(&self) -> (w: usize)
        ensures
            w == self@.width,
    {
        self.width
    }

    /// The height in pixels.
    pub fn height(&self) -> (h: usize)
        ensures
            h == self@.height,
    {
        self.height
    }

    /// The pixels, row by row.
    pub fn pixels(&self) -> (all: &Vec<u32>)
        ensures
            all@ == self@.pixels,
    {
        &self.pixels
    }

    /// The pixel at `(x, y)`, or `None` where `(x, y)` is off the canvas.
    pub fn pixel(&self, x: usize, y: usize) -> (found: Option<u32>)
        ensures
            found == if self@.contains(x as int, y as int) {
                Some(self@.pixel(x as int, y as int))
            } else {
                None
            },
    {
        proof {
            use_type_invariant(self);
        }
        if x < self.width && y < self.height {
            proof {
                lemma_index_of_cell(x as int, y as int, self.width as nat, self.height as nat);
                lemma_fits(self.pixels.len(), x as int, y as int, self.width as int);
            }
            Some(self.pixels[x + y * self.width])
        } else {
            None
        }
    }

    /// Sets every pixel to `color`.
    pub fn fill(&mut self, color: u32)
        ensures
            final(self)@ == old(self)@.fill(color),
    {
        proof {
            use_type_invariant(&*self);
        }
        let n: usize = self.pixels.len();
        for i in 0..n
            invariant
                self.pixels@.len() == self.width * self.height,
                self.width == old(self).width,
                self.height == old(self).height,
                self.pixels@.len() == n == old(self).pixels@.len(),
                forall|k: int| 0 <= k < i ==> self.pixels@[k] == color,
        {
            self.pixels[i] = color;
        }
        assert(self@.pixels =~= old(self)@.fill(color).pixels);
    }

    /// Sets the pixel at `(x, y)` to `color`. Off the canvas this does
    /// nothing: painting may overshoot the edges.
    pub fn set_pixel(&mut self, x: usize, y: usize, color: u32)
        ensures
            final(self)@ == old(self)@.set_pixel(x as int, y as int, color),
    {
        proof {
            use_type_invariant(&*self);
        }
        if x < self.width && y < self.height {
            proof {
                lemma_index_of_cell(x as int, y as int, self.width as nat, self.height as nat);
                lemma_fits(self.pixels.len(), x as int, y as int, self.width as int);
            }
            self.pixels[x + y * self.width] = color;
        }
    }
}

/// The `k`-th pixel of a canvas on which a rectangle is being drawn column
/// by column: `done` columns of it, each `h` high, are drawn, and of the
/// next column the first `part` pixels.
pub open spec fn partly_filled_pixel(
    before: Canvas,
    x: int,
    y: int,
    h: int,
    done: int,
    part: int,
    color: u32,
    k: int,
) -> u32 {
    let px = column_of(k, before.width);
    let py = row_of(k, before.width);
    if in_rect(x, y, done, h, px, py) || in_rect(x + done, y, 1, part, px, py) {
        color
    } else {
        before.pixels[k]
    }
}

/// Whether `now` is the canvas `before` with that much of the rectangle
/// drawn on it.
pub open spec fn partly_filled(
    before: Canvas,
    now: Canvas,
    x: int,
    y: int,
    h: int,
    done: int,
    part: int,
    color: u32,
) -> bool {
    &&& now.width == before.width
    &&& now.height == before.height
    &&& now.pixels.len() == before.pixels.len()
    &&& forall|k: int|
        0 <= k < before.pixels.len() ==> #[trigger] now.pixels[k] == partly_filled_pixel(
            before,
            x,
            y,
            h,
            done,
            part,
            color,
            k,
        )
}

/// Sets every pixel of the rectangle whose top-left corner is `(x, y)` and
/// which is `w` wide and `h` high, pixel by pixel. The part of the
/// rectangle that lies off the canvas is dropped.
pub fn draw_rect(buffer: &mut Framebuffer, x: usize, y: usize, w: usize, h: usize, color: u32)
    ensures
        final(buffer)@ == old(buffer)@.fill_rect(x as int, y as int, w as int, h as int, color),
{
    proof {
        use_type_invariant(&*buffer);
    }
    let width: usize = buffer.width();
    let height: usize = buffer.height();
    let ghost before = buffer@;
    if x >= width || y >= height {
        proof {
            let after = before.fill_rect(x as int, y as int, w as int, h as int, color);
            assert forall|k: int| 0 <= k < before.pixels.len() implies before.pixels[k]
                == after.pixels[k] by {
                lemma_cell_of_index(k, before.width, before.height);
            }
            assert(before.pixels =~= after.pixels);
        }
        return ;
    }
    let x_end: usize = if w < width - x {
        x + w
    } else {
        width
    };
    let y_end: usize = if h < height - y {
        y + h
    } else {
        height
    };
    let mut i: usize = x;
    while i < x_end
        invariant
            before.wf(),
            before.width == width,
            before.height == height,
            x_end <= width,
            y <= y_end <= height,
            x <= i <= x_end,
            partly_filled(before, buffer@, x as int, y as int, y_end - y, i - x, 0, color),
        decreases x_end - i,
    {
        let mut j: usize = y;
        while j < y_end
            invariant
                before.wf(),
                before.width == width,
                before.height == height,
                x <= i < x_end <= width,
                y <= j <= y_end <= height,
                partly_filled(before, buffer@, x as int, y as int, y_end - y, i - x, j - y, color),
            decreases y_end - j,
        {
            buffer.set_pixel(i, j, color);
            proof {
                lemma_index_of_cell(i as int, j as int, before.width, before.height);
                assert forall|k: int| 0 <= k < before.pixels.len() implies #[trigger] buffer@.pixels[k]
                    == partly_filled_pixel(
                    before,
                    x as int,
                    y as int,
                    y_end - y,
                    i - x,
                    j + 1 - y,
                    color,
                    k,
                ) by {
                    lemma_cell_of_index(k, before.width, before.height);
                }
            }
            j += 1;
        }
        i += 1;
    }
    proof {
        let after = before.fill_rect(x as int, y as int, w as int, h as int, color);
        assert(x_end == if x + w < width { x + w } else { width as int });
        assert(y_end == if y + h < height { y + h } else { height as int });
        assert forall|k: int| 0 <= k < before.pixels.len() implies buffer@.pixels[k]
            == after.pixels[k] by {
            lemma_cell_of_index(k, before.width, before.height);
        }
        assert(buffer@.pixels =~= after.pixels);
    }
}

/// Setting a pixel changes that pixel and no other, and leaves the canvas
/// its size.
pub proof fn lemma_set_pixel(canvas: Canvas, x: int, y: int, color: u32, px: int, py: int)
    requires
        canvas.wf(),
        canvas.contains(px, py),
    ensures
        canvas.set_pixel(x, y, color).wf(),
        canvas.set_pixel(x, y, color).width == canvas.width,
        canvas.set_pixel(x, y, color).height == canvas.height,
        canvas.set_pixel(x, y, color).pixel(px, py) == if px == x && py == y {
            color
        } else {
            canvas.pixel(px, py)
        },
{
    lemma_index_of_cell(px, py, canvas.width, canvas.height);
    if canvas.contains(x, y) {
        lemma_index_of_cell(x, y, canvas.width, canvas.height);
    }
}

/// Drawing a rectangle writes nowhere off the canvas: the canvas keeps its
/// size and has no pixel but those of its coordinates. Every pixel of the
/// canvas that lies in the rectangle gets exactly the colour asked for, and
/// every other pixel stays as it was.
pub proof fn lemma_fill_rect(
    canvas: Canvas,
    x: int,
    y: int,
    w: int,
    h: int,
    color: u32,
    px: int,
    py: int,
)
    requires
        canvas.wf(),
        canvas.contains(px, py),
    ensures
        canvas.fill_rect(x, y, w, h, color).wf(),
        canvas.fill_rect(x, y, w, h, color).width == canvas.width,
        canvas.fill_rect(x, y, w, h, color).height == canvas.height,
        canvas.fill_rect(x, y, w, h, color).pixel(px, py) == if in_rect(x, y, w, h, px, py) {
            color
        } else {
            canvas.pixel(px, py)
        },
{
    lemma_index_of_cell(px, py, canvas.width, canvas.height);
}

/// A rectangle that starts right of the canvas or below it, or that has no
/// pixels, changes nothing.
pub proof fn lemma_fill_rect_off_canvas(canvas: Canvas, x: int, y: int, w: int, h: int, color: u32)
    requires
        canvas.wf(),
        x >= canvas.width || y >= canvas.height || w <= 0 || h <= 0,
    ensures
        canvas.fill_rect(x, y, w, h, color) == canvas,
{
    let after = canvas.fill_rect(x, y, w, h, color);
    assert forall|k: int| 0 <= k < canvas.pixels.len() implies after.pixels[k]
        == canvas.pixels[k] by {
        lemma_cell_of_index(k, canvas.width, canvas.height);
    }
    assert(after.pixels =~= canvas.pixels);
}

} // verus!
