//! The pixel buffer that every drawing routine paints into.

use vstd::prelude::*;

verus! {

/// What a framebuffer holds: its size, its pixels row by row from the top, and the two
/// colours it remembers. A colour is `0xRRGGBB`.
pub struct Canvas {
    pub width: int,
    pub height: int,
    pub pixels: Seq<u32>,
    pub background: u32,
    pub current: u32,
}

impl Canvas {
    /// The size is one that a machine can address, and there is one pixel for every
    /// position.
    pub open spec fn wf(self) -> bool {
        &&& 0 <= self.width <= usize::MAX
        &&& 0 <= self.height <= usize::MAX
        &&& self.pixels.len() == self.width * self.height
    }

    /// Whether `(x, y)` is a position of the canvas.
    pub open spec fn contains(self, x: int, y: int) -> bool {
        0 <= x < self.width && 0 <= y < self.height
    }

    /// The colour at `(x, y)`.
    pub open spec fn pixel(self, x: int, y: int) -> u32 {
        self.pixels[y * self.width + x]
    }

    /// Whether `self` and `other` have the same size and the same remembered colours.
    pub open spec fn same_frame(self, other: Canvas) -> bool {
        &&& self.width == other.width
        &&& self.height == other.height
        &&& self.background == other.background
        &&& self.current == other.current
    }
}

/// Positions of a canvas and indices of its pixel sequence correspond one to one.
pub proof fn lemma_position_index(width: int, height: int, x: int, y: int)
    requires
        0 <= x < width,
        0 <= y < height,
    ensures
        0 <= y * width + x < width * height,
        (y * width + x) / width == y,
        (y * width + x) % width == x,
{
    assert(0 <= y * width + x < width * height) by (nonlinear_arith)
        requires
            0 <= x < width,
            0 <= y < height,
    ;
    assert((y * width + x) / width == y && (y * width + x) % width == x) by (nonlinear_arith)
        requires
            0 <= x < width,
            0 <= y,
    ;
}

/// Two canvases of one size that agree at every position hold the same pixels. So a
/// contract that names the colour of every position names the whole picture.
pub proof fn lemma_pixels_determine_canvas(a: Canvas, b: Canvas)
    requires
        a.wf(),
        b.wf(),
        a.width == b.width,
        a.height == b.height,
        forall|x: int, y: int| a.contains(x, y) ==> #[trigger] a.pixel(x, y) == b.pixel(x, y),
    ensures
        a.pixels == b.pixels,
{
    assert forall|i: int| 0 <= i < a.pixels.len() implies a.pixels[i] == b.pixels[i] by {
        let w = a.width;
        let h = a.height;
        assert(w > 0) by (nonlinear_arith)
            requires
                0 <= i < w * h,
                0 <= w,
        ;
        let x = i % w;
        let y = i / w;
        assert(0 <= y < h && y * w + x == i) by (nonlinear_arith)
            requires
                0 <= i < w * h,
                w > 0,
                x == i % w,
                y == i / w,
        ;
        assert(a.contains(x, y));
        assert(a.pixel(x, y) == b.pixel(x, y));
    }
    assert(a.pixels =~= b.pixels);
}

/// Whether `(x, y)` lies in the rectangle with top left corner `(x0, y0)`, width `w` and
/// height `h`.
pub open spec fn in_rect(x0: int, y0: int, w: int, h: int, x: int, y: int) -> bool {
    x0 <= x < x0 + w && y0 <= y < y0 + h
}

/// A pixel buffer with a pen colour and a background colour.
pub struct Framebuffer {
    width: usize,
    height: usize,
    buffer: Vec<u32>,
    background_color: u32,
    current_color: u32,
}

impl View for Framebuffer {
    type V = Canvas;

    closed spec fn view(&self) -> Canvas {
        Canvas {
            width: self.width as int,
            height: self.height as int,
            pixels: self.buffer@,
            background: self.background_color,
            current: self.current_color,
        }
    }
}

impl Framebuffer {
    /// Every framebuffer that exists at run time has one pixel for every position.
    #[verifier::type_invariant]
    pub open spec fn wf(&self) -> bool {
        self@.wf()
    }

    /// A black framebuffer of the given size, with a black background and a white pen.
    pub fn new(width: usize, height: usize) -> (fb: Framebuffer)
        requires
            width * height <= usize::MAX,
        ensures
            fb@.wf(),
            fb@.width == width,
            fb@.height == height,
            fb@.background == 0x000000,
            fb@.current == 0xFFFFFF,
            forall|i: int| 0 <= i < fb@.pixels.len() ==> fb@.pixels[i] == 0,
    {
        Framebuffer {
            width,
            height,
            buffer: vec![0u32; width * height],
            background_color: 0x000000,
            current_color: 0xFFFFFF,
        }
    }

    /// The number of pixel columns.
    pub fn width(&self) -> (w: usize)
        ensures
            w == self@.width,
    {
        self.width
    }

    /// The number of pixel rows.
    pub fn height(&self) -> (h: usize)
        ensures
            h == self@.height,
    {
        self.height
    }

    /// The pixels, row by row from the top.
    pub fn buffer(&self) -> (pixels: &Vec<u32>)
        ensures
            pixels@ == self@.pixels,
    {
        &self.buffer
    }

    /// Paints every pixel in the background colour.
    pub fn clear(&mut self)
        ensures
            final(self)@.wf(),
            final(self)@.same_frame(old(self)@),
            forall|i: int| 0 <= i < final(self)@.pixels.len() ==> final(self)@.pixels[i] == old(self)@.background,
    {
        proof {
            use_type_invariant(&*self);
        }
        let n = self.buffer.len();
        let mut i: usize = 0;
        while i < n
            invariant
                i <= n,
                n == self.buffer.len(),
                n == old(self)@.pixels.len(),
                self@.same_frame(old(self)@),
                self@.wf(),
                forall|k: int| 0 <= k < i ==> self.buffer@[k] == self.background_color,
            decreases n - i,
        {
            self.buffer[i] = self.background_color;
            i += 1;
        }
    }

    /// Paints the pixel at `(x, y)` in the pen colour. Positions off the canvas are ignored.
    pub fn point(&mut self, x: usize, y: usize)
        ensures
            final(self)@.wf(),
            final(self)@.same_frame(old(self)@),
            forall|px: int, py: int|
                old(self)@.contains(px, py) ==> #[trigger] final(self)@.pixel(px, py) == if px == x
                    && py == y {
                    old(self)@.current
                } else {
                    old(self)@.pixel(px, py)
                },
    {
        proof {
            use_type_invariant(&*self);
        }
        if x < self.width && y < self.height {
            proof {
                lemma_position_index(self.width as int, self.height as int, x as int, y as int);
                assert(0 <= y * self.width) by (nonlinear_arith);
                assert(self.buffer@.len() == self.buffer.len());
            }
            let index = y * self.width + x;
            self.buffer[index] = self.current_color;
            proof {
                let w = self.width as int;
                assert forall|px: int, py: int| old(self)@.contains(px, py) implies #[trigger] self@.pixel(
                    px,
                    py,
                ) == if px == x && py == y {
                    old(self)@.current
                } else {
                    old(self)@.pixel(px, py)
                } by {
                    lemma_position_index(w, self.height as int, px, py);
                }
            }
        }
    }

    /// Takes `color` as the pen colour and paints the pixel at `(x, y)` in it. Positions off
    /// the canvas are not painted.
    pub fn plot(&mut self, x: usize, y: usize, color: u32)
        ensures
            final(self)@.wf(),
            final(self)@.width == old(self)@.width,
            final(self)@.height == old(self)@.height,
            final(self)@.background == old(self)@.background,
            final(self)@.current == color,
            forall|px: int, py: int|
                old(self)@.contains(px, py) ==> #[trigger] final(self)@.pixel(px, py) == if px == x
                    && py == y {
                    color
                } else {
                    old(self)@.pixel(px, py)
                },
    {
        self.set_current_color(color);
        let ghost inked = self@;
        self.point(x, y);
        assert forall|px: int, py: int| old(self)@.contains(px, py) implies #[trigger] self@.pixel(
            px,
            py,
        ) == if px == x && py == y {
            color
        } else {
            old(self)@.pixel(px, py)
        } by {
            assert(inked.pixel(px, py) == old(self)@.pixel(px, py));
        }
    }

    /// Paints the rectangle whose top left corner is `(x0, y0)` and which is `w` wide and
    /// `h` high in the pen colour. The part that lies off the canvas is ignored.
    pub fn fill_rect(&mut self, x0: usize, y0: usize, w: usize, h: usize)
        ensures
            final(self)@.wf(),
            final(self)@.same_frame(old(self)@),
            forall|px: int, py: int|
                old(self)@.contains(px, py) ==> #[trigger] final(self)@.pixel(px, py) == if in_rect(
                    x0 as int,
                    y0 as int,
                    w as int,
                    h as int,
                    px,
                    py,
                ) {
                    old(self)@.current
                } else {
                    old(self)@.pixel(px, py)
                },
    {
        proof {
            use_type_invariant(&*self);
        }
        if x0 >= self.width || y0 >= self.height {
            return ;
        }
        let x1 = if w < self.width - x0 {
            x0 + w
        } else {
            self.width
        };
        let y1 = if h < self.height - y0 {
            y0 + h
        } else {
            self.height
        };
        let mut x = x0;
        while x < x1
            invariant
                x0 <= x <= x1 <= self@.width,
                y0 <= y1 <= self@.height,
                x1 == self@.width || x1 == x0 + w,
                y1 == self@.height || y1 == y0 + h,
                self@.wf(),
                self@.same_frame(old(self)@),
                forall|px: int, py: int|
                    old(self)@.contains(px, py) ==> #[trigger] self@.pixel(px, py) == if x0 <= px < x
                        && y0 <= py < y1 {
                        old(self)@.current
                    } else {
                        old(self)@.pixel(px, py)
                    },
            decreases x1 - x,
        {
            let mut y = y0;
            while y < y1
                invariant
                    x0 <= x < x1 <= self@.width,
                    y0 <= y <= y1 <= self@.height,
                    self@.wf(),
                    self@.same_frame(old(self)@),
                    forall|px: int, py: int|
                        old(self)@.contains(px, py) ==> #[trigger] self@.pixel(px, py) == if (x0 <= px
                            < x && y0 <= py < y1) || (px == x && y0 <= py < y) {
                            old(self)@.current
                        } else {
                            old(self)@.pixel(px, py)
                        },
                decreases y1 - y,
            {
                self.point(x, y);
                y += 1;
            }
            x += 1;
        }
    }

    /// Chooses the colour that `clear` paints.
    pub fn set_background_color(&mut self, color: u32)
        ensures
            final(self)@ == (Canvas { background: color, ..old(self)@ }),
    {
        proof {
            use_type_invariant(&*self);
        }
        self.background_color = color;
    }

    /// Chooses the colour that `point` paints.
    pub fn set_current_color(&mut self, color: u32)
        ensures
            final(self)@ == (Canvas { current: color, ..old(self)@ }),
    {
        proof {
            use_type_invariant(&*self);
        }
        self.current_color = color;
    }
}

} // verus!
