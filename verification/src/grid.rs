//! The pixel grid of a sheet, kept in an `image` buffer.

use image::RgbaImage;
use vstd::prelude::*;

verus! {

/// One pixel: red, green, blue, alpha.
pub type Color = (u8, u8, u8, u8);

/// A rectangle of pixels: its top left corner and its size.
#[derive(Debug, PartialEq, Eq, Clone, Copy, Structural)]
pub struct Rect {
    pub x: u32,
    pub y: u32,
    pub width: u32,
    pub height: u32,
}

impl Rect {
    /// Whether the column `x` and the row `y` lie in the rectangle.
    pub open spec fn contains(self, x: int, y: int) -> bool {
        self.x <= x < self.x + self.width && self.y <= y < self.y + self.height
    }

    /// Whether the rectangle lies within an area of the given size.
    pub open spec fn fits(self, width: nat, height: nat) -> bool {
        self.x + self.width <= width && self.y + self.height <= height
    }

    /// Whether two rectangles have the same width and height.
    pub open spec fn same_size(self, other: Rect) -> bool {
        self.width == other.width && self.height == other.height
    }
}

/// A rectangular array of RGBA pixels.
///
/// The pixels are kept in an `image::RgbaImage`. Nothing is proved of that
/// buffer: what is known of a grid is what the functions below state of
/// `ImageBuffer`'s methods.
#[verifier::external_body]
#[derive(Debug)]
pub struct PixelGrid {
    buf: RgbaImage,
}

/// What `ImageBuffer::width` returns for the grid's buffer.
pub uninterp spec fn buffer_width(g: PixelGrid) -> u32;

/// What `ImageBuffer::height` returns for the grid's buffer.
pub uninterp spec fn buffer_height(g: PixelGrid) -> u32;

/// The pixels that the grid's buffer holds, by column and row.
pub uninterp spec fn buffer_pixels(g: PixelGrid) -> Map<(int, int), Color>;

/// The pixel that row-major RGBA samples hold at a column and a row of an
/// image `width` pixels wide.
pub open spec fn sample_pixel(samples: Seq<u8>, width: int, x: int, y: int) -> Color {
    let i: int = 4 * (y * width + x);
    (samples[i], samples[i + 1], samples[i + 2], samples[i + 3])
}

/// `ImageBuffer::from_raw` on a vector of samples. The buffer is made when
/// four times the width fits a `usize` and the vector holds at least four
/// samples for each pixel; it then has the given width and height, and its
/// pixel at a column and a row is made of the four samples that start at
/// four times (row * width + column).
#[verifier::external_body]
fn image_from_raw(width: u32, height: u32, samples: Vec<u8>) -> (r: Option<PixelGrid>)
    ensures
        r is Some <==> (4 * width <= usize::MAX && 4 * width * height <= samples@.len()),
        r matches Some(g) ==> {
            &&& buffer_width(g) == width
            &&& buffer_height(g) == height
            &&& forall|x: int, y: int| #[trigger]
                buffer_pixels(g).contains_key((x, y)) <==> 0 <= x < width && 0 <= y < height
            &&& forall|x: int, y: int|
                0 <= x < width && 0 <= y < height ==> #[trigger] buffer_pixels(g)[(x, y)]
                    == sample_pixel(samples@, width as int, x, y)
        },
{
    match RgbaImage::from_raw(width, height, samples) {
        Some(buf) => Some(PixelGrid { buf }),
        None => None,
    }
}

/// `ImageBuffer::width`.
#[verifier::external_body]
fn image_width(g: &PixelGrid) -> (w: u32)
    ensures
        w == buffer_width(*g),
{
    g.buf.width()
}

/// `ImageBuffer::height`.
#[verifier::external_body]
fn image_height(g: &PixelGrid) -> (h: u32)
    ensures
        h == buffer_height(*g),
{
    g.buf.height()
}

/// `ImageBuffer::get_pixel`, which panics outside the image: the pixel at a
/// column and a row.
#[verifier::external_body]
fn image_get(g: &PixelGrid, x: u32, y: u32) -> (c: Color)
    requires
        x < buffer_width(*g),
        y < buffer_height(*g),
    ensures
        c == buffer_pixels(*g)[(x as int, y as int)],
{
    let p = g.buf.get_pixel(x, y);
    (p.0[0], p.0[1], p.0[2], p.0[3])
}

/// `ImageBuffer::put_pixel`, which panics outside the image: it replaces the
/// pixel at a column and a row, and leaves the size and every other pixel as
/// they were.
#[verifier::external_body]
fn image_put(g: &mut PixelGrid, x: u32, y: u32, c: Color)
    requires
        x < buffer_width(*old(g)),
        y < buffer_height(*old(g)),
    ensures
        buffer_width(*final(g)) == buffer_width(*old(g)),
        buffer_height(*final(g)) == buffer_height(*old(g)),
        buffer_pixels(*final(g)) == buffer_pixels(*old(g)).insert((x as int, y as int), c),
{
    g.buf.put_pixel(x, y, image::Rgba([c.0, c.1, c.2, c.3]));
}

/// `ImageBuffer::clone`: a buffer of the same size with the same pixels.
#[verifier::external_body]
fn image_clone(g: &PixelGrid) -> (r: PixelGrid)
    ensures
        buffer_width(r) == buffer_width(*g),
        buffer_height(r) == buffer_height(*g),
        buffer_pixels(r) == buffer_pixels(*g),
{
    PixelGrid { buf: g.buf.clone() }
}

/// The mathematical content of a pixel grid.
pub struct GridView {
    pub width: nat,
    pub height: nat,
    pub pixels: Map<(int, int), Color>,
}

/// The pixel of a grid at a place given relative to a rectangle's corner.
pub open spec fn rect_pixel(g: GridView, r: Rect, i: int, j: int) -> Color {
    g.pixel(r.x + i, r.y + j)
}

/// Whether two rectangles, each in its own grid, have the same size and hold
/// the same pixels at the same places relative to their corners.
pub open spec fn rect_pixels_equal(a: GridView, ra: Rect, b: GridView, rb: Rect) -> bool {
    &&& ra.same_size(rb)
    &&& forall|i: int, j: int|
        0 <= i < ra.width && 0 <= j < ra.height ==> #[trigger] rect_pixel(a, ra, i, j)
            == rect_pixel(b, rb, i, j)
}

impl GridView {
    /// A grid has a pixel exactly at the columns below its width and the
    /// rows below its height.
    pub open spec fn wf(self) -> bool {
        &&& self.width <= u32::MAX
        &&& self.height <= u32::MAX
        &&& forall|x: int, y: int| #[trigger]
            self.pixels.contains_key((x, y)) <==> 0 <= x < self.width && 0 <= y < self.height
    }

    pub open spec fn pixel(self, x: int, y: int) -> Color {
        self.pixels[(x, y)]
    }

    /// Whether a rectangle lies within the grid.
    pub open spec fn contains_rect(self, r: Rect) -> bool {
        r.fits(self.width, self.height)
    }

    /// The grid that row-major RGBA samples describe.
    pub open spec fn from_samples(width: nat, height: nat, samples: Seq<u8>) -> GridView {
        GridView {
            width,
            height,
            pixels: Map::new(
                |c: (int, int)| 0 <= c.0 < width && 0 <= c.1 < height,
                |c: (int, int)| sample_pixel(samples, width as int, c.0, c.1),
            ),
        }
    }

    /// The grid that a row-major list of pixels describes: the pixel at
    /// column `x` and row `y` is the one at place `y * width + x`.
    pub open spec fn from_pixels(width: nat, height: nat, pixels: Seq<Color>) -> GridView {
        GridView {
            width,
            height,
            pixels: Map::new(
                |c: (int, int)| 0 <= c.0 < width && 0 <= c.1 < height,
                |c: (int, int)| pixels[c.1 * width + c.0],
            ),
        }
    }

    /// The samples of the first `n` pixels of row `y`.
    pub open spec fn row_samples(self, y: int, n: nat) -> Seq<u8>
        decreases n,
    {
        if n == 0 {
            Seq::empty()
        } else {
            let c = self.pixel(n - 1, y);
            self.row_samples(y, (n - 1) as nat) + seq![c.0, c.1, c.2, c.3]
        }
    }

    /// The samples of the first `n` rows.
    pub open spec fn rows_samples(self, n: nat) -> Seq<u8>
        decreases n,
    {
        if n == 0 {
            Seq::empty()
        } else {
            self.rows_samples((n - 1) as nat) + self.row_samples(n - 1, self.width)
        }
    }

    /// The grid as row-major RGBA samples.
    pub open spec fn samples(self) -> Seq<u8> {
        self.rows_samples(self.height)
    }

    /// There are four samples for each pixel.
    pub proof fn lemma_samples_len(self)
        ensures
            self.samples().len() == 4 * self.width * self.height,
    {
        self.lemma_rows_samples_len(self.height);
    }

    proof fn lemma_row_samples_len(self, y: int, n: nat)
        ensures
            self.row_samples(y, n).len() == 4 * n,
        decreases n,
    {
        if n > 0 {
            self.lemma_row_samples_len(y, (n - 1) as nat);
        }
    }

    proof fn lemma_rows_samples_len(self, n: nat)
        ensures
            self.rows_samples(n).len() == 4 * self.width * n,
        decreases n,
    {
        let w = self.width;
        if n > 0 {
            let m = (n - 1) as nat;
            self.lemma_rows_samples_len(m);
            self.lemma_row_samples_len(n - 1, w);
            assert(4 * w * m + 4 * w == 4 * w * n) by (nonlinear_arith)
                requires
                    m + 1 == n,
            ;
        } else {
            assert(4 * w * n == 0) by (nonlinear_arith)
                requires
                    n == 0,
            ;
        }
    }

    /// The grid after the rectangle `at` has taken the pixels that `src`
    /// holds in the rectangle `from`, each at the same place relative to the
    /// rectangle's corner.
    pub open spec fn paste(self, at: Rect, src: GridView, from: Rect) -> GridView {
        GridView {
            width: self.width,
            height: self.height,
            pixels: Map::new(
                |c: (int, int)| self.pixels.contains_key(c),
                |c: (int, int)|
                    if at.contains(c.0, c.1) {
                        rect_pixel(src, from, c.0 - at.x, c.1 - at.y)
                    } else {
                        self.pixels[c]
                    },
            ),
        }
    }
}

impl View for PixelGrid {
    type V = GridView;

    open spec fn view(&self) -> GridView {
        GridView {
            width: buffer_width(*self) as nat,
            height: buffer_height(*self) as nat,
            pixels: buffer_pixels(*self),
        }
    }
}

impl PixelGrid {
    /// Every grid that this module hands out is well formed.
    pub open spec fn wf(&self) -> bool {
        self@.wf()
    }

    /// Builds a grid from row-major RGBA samples. The number of samples has
    /// to be exactly four for each pixel, and a row of samples has to be
    /// one that the machine can address.
    pub fn from_raw(width: u32, height: u32, samples: Vec<u8>) -> (r: Option<PixelGrid>)
        ensures
            r is Some <==> 4 * width <= usize::MAX && samples@.len() == 4 * width * height,
            r matches Some(g) ==> g.wf() && g@ == GridView::from_samples(
                width as nat,
                height as nat,
                samples@,
            ),
    {
        assert(width * height <= 0xffff_ffff * 0xffff_ffff) by (nonlinear_arith)
            requires
                width <= 0xffff_ffff,
                height <= 0xffff_ffff,
        ;
        assert(4 * width * height == 4 * (width * height)) by (nonlinear_arith);
        let needed: u128 = 4 * ((width as u128) * (height as u128));
        if samples.len() as u128 != needed || 4 * (width as u64) > usize::MAX as u64 {
            return None;
        }
        let ghost given = samples@;
        match image_from_raw(width, height, samples) {
            Some(g) => {
                proof {
                    let want = GridView::from_samples(width as nat, height as nat, given);
                    assert forall|k: (int, int)| g@.pixels.contains_key(k) implies g@.pixels[k]
                        == want.pixels[k] by {
                        assert(k == (k.0, k.1));
                    }
                    assert forall|k: (int, int)|
                        g@.pixels.contains_key(k) <==> want.pixels.contains_key(k) by {
                        assert(k == (k.0, k.1));
                    }
                    assert(g@.pixels =~= want.pixels);
                }
                Some(g)
            },
            None => None,
        }
    }

    /// Builds a grid from a decoded bitmap: its width, its height and its
    /// pixels in row-major order, exactly one for each place. The samples of
    /// the grid, four for each pixel, have to be as many as the machine can
    /// address.
    pub fn from_pixels(width: usize, height: usize, pixels: &Vec<Color>) -> (r: Option<PixelGrid>)
        ensures
            r is Some <==> width <= u32::MAX && height <= u32::MAX && pixels@.len() == width
                * height && 4 * width <= usize::MAX && 4 * width * height <= usize::MAX,
            r matches Some(g) ==> g.wf() && g@ == GridView::from_pixels(
                width as nat,
                height as nat,
                pixels@,
            ),
    {
        if width > 0xffff_ffff || height > 0xffff_ffff {
            return None;
        }
        assert(width * height <= 0xffff_ffff * 0xffff_ffff) by (nonlinear_arith)
            requires
                width <= 0xffff_ffff,
                height <= 0xffff_ffff,
        ;
        let needed: u128 = (width as u128) * (height as u128);
        assert(4 * width * height == 4 * (width * height)) by (nonlinear_arith);
        if pixels.len() as u128 != needed || 4 * (width as u64) > usize::MAX as u64 || 4 * needed
            > usize::MAX as u128 {
            return None;
        }
        let mut samples: Vec<u8> = Vec::new();
        let mut i: usize = 0;
        while i < pixels.len()
            invariant
                i <= pixels@.len(),
                samples@.len() == 4 * i,
                forall|k: int|
                    0 <= k < i ==> (#[trigger] pixels@[k]) == (
                        samples@[4 * k],
                        samples@[4 * k + 1],
                        samples@[4 * k + 2],
                        samples@[4 * k + 3],
                    ),
            decreases pixels@.len() - i,
        {
            let c = pixels[i];
            samples.push(c.0);
            samples.push(c.1);
            samples.push(c.2);
            samples.push(c.3);
            i += 1;
        }
        let ghost given = samples@;
        let w: u32 = width as u32;
        let h: u32 = height as u32;
        assert(4 * w * h == 4 * (width * height)) by (nonlinear_arith)
            requires
                w == width,
                h == height,
        ;
        match PixelGrid::from_raw(w, h, samples) {
            Some(g) => {
                proof {
                    let want = GridView::from_pixels(width as nat, height as nat, pixels@);
                    assert forall|k: (int, int)| g@.pixels.contains_key(k) implies g@.pixels[k]
                        == want.pixels[k] by {
                        let at = k.1 * width + k.0;
                        assert(0 <= at < width * height) by (nonlinear_arith)
                            requires
                                0 <= k.0 < width,
                                0 <= k.1 < height,
                                at == k.1 * width + k.0,
                        ;
                        assert(pixels@[at] == want.pixels[k]);
                    }
                    assert(g@.pixels =~= want.pixels);
                }
                Some(g)
            },
            None => None,
        }
    }

    pub fn width(&self) -> (w: u32)
        ensures
            w == self@.width,
    {
        image_width(self)
    }

    pub fn height(&self) -> (h: u32)
        ensures
            h == self@.height,
    {
        image_height(self)
    }

    /// The pixel at column `x` and row `y`, if the grid has one there.
    pub fn get(&self, x: u32, y: u32) -> (r: Option<Color>)
        ensures
            r == if x < self@.width && y < self@.height {
                Some(self@.pixel(x as int, y as int))
            } else {
                None
            },
    {
        if x < image_width(self) && y < image_height(self) {
            Some(image_get(self, x, y))
        } else {
            None
        }
    }

    /// A second grid with the same pixels.
    pub fn duplicate(&self) -> (r: PixelGrid)
        ensures
            r@ == self@,
    {
        image_clone(self)
    }

    /// The grid as row-major RGBA samples: four for each pixel, the rows from
    /// top to bottom, each row from left to right.
    pub fn to_samples(&self) -> (out: Vec<u8>)
        ensures
            out@ == self@.samples(),
    {
        let width: u32 = image_width(self);
        let height: u32 = image_height(self);
        let mut out: Vec<u8> = Vec::new();
        let mut y: u32 = 0;
        while y < height
            invariant
                y <= height,
                width == self@.width,
                height == self@.height,
                out@ == self@.rows_samples(y as nat),
            decreases height - y,
        {
            let ghost done = out@;
            let mut x: u32 = 0;
            while x < width
                invariant
                    x <= width,
                    y < height,
                    width == self@.width,
                    height == self@.height,
                    out@ == done + self@.row_samples(y as int, x as nat),
                decreases width - x,
            {
                let ghost before = self@.row_samples(y as int, x as nat);
                let c = image_get(self, x, y);
                out.push(c.0);
                out.push(c.1);
                out.push(c.2);
                out.push(c.3);
                x += 1;
                assert(out@ == done + (before + seq![c.0, c.1, c.2, c.3]));
            }
            y += 1;
        }
        out
    }

    /// Whether the rectangle `r` of this grid and the rectangle `ro` of
    /// `other` have the same size and the same pixels, alpha included.
    pub fn rect_equal(&self, r: Rect, other: &PixelGrid, ro: Rect) -> (same: bool)
        requires
            self@.contains_rect(r),
            other@.contains_rect(ro),
        ensures
            same == rect_pixels_equal(self@, r, other@, ro),
    {
        if r.width != ro.width || r.height != ro.height {
            return false;
        }
        let mut j: u32 = 0;
        while j < r.height
            invariant
                j <= r.height,
                r.same_size(ro),
                self@.contains_rect(r),
                other@.contains_rect(ro),
                forall|i: int, k: int|
                    0 <= i < r.width && 0 <= k < j ==> #[trigger] rect_pixel(self@, r, i, k)
                        == rect_pixel(other@, ro, i, k),
            decreases r.height - j,
        {
            let mut i: u32 = 0;
            while i < r.width
                invariant
                    i <= r.width,
                    j < r.height,
                    r.same_size(ro),
                    self@.contains_rect(r),
                    other@.contains_rect(ro),
                    forall|a: int, k: int|
                        0 <= a < r.width && 0 <= k < j ==> #[trigger] rect_pixel(self@, r, a, k)
                            == rect_pixel(other@, ro, a, k),
                    forall|a: int|
                        0 <= a < i ==> #[trigger] rect_pixel(self@, r, a, j as int) == rect_pixel(
                            other@,
                            ro,
                            a,
                            j as int,
                        ),
                decreases r.width - i,
            {
                let mine = image_get(self, r.x + i, r.y + j);
                let theirs = image_get(other, ro.x + i, ro.y + j);
                if !same_color(mine, theirs) {
                    assert(rect_pixel(self@, r, i as int, j as int) != rect_pixel(
                        other@,
                        ro,
                        i as int,
                        j as int,
                    ));
                    return false;
                }
                i += 1;
            }
            j += 1;
        }
        true
    }

    /// Copies into the rectangle `at` of this grid the pixels that `src`
    /// holds in the rectangle `from`, each to the same place relative to the
    /// rectangle's corner. Nothing outside `at` changes.
    pub fn paste(&mut self, at: Rect, src: &PixelGrid, from: Rect)
        requires
            old(self).wf(),
            old(self)@.contains_rect(at),
            src@.contains_rect(from),
            at.same_size(from),
        ensures
            final(self)@ == old(self)@.paste(at, src@, from),
            final(self).wf(),
    {
        let ghost start = self@;
        let mut j: u32 = 0;
        while j < at.height
            invariant
                j <= at.height,
                start.wf(),
                start.contains_rect(at),
                src@.contains_rect(from),
                at.same_size(from),
                self@.wf(),
                self@.width == start.width,
                self@.height == start.height,
                forall|x: int, y: int|
                    0 <= x < start.width && 0 <= y < start.height ==> #[trigger] self@.pixels[(
                        x,
                        y,
                    )] == if at.contains(x, y) && y - at.y < j {
                        rect_pixel(src@, from, x - at.x, y - at.y)
                    } else {
                        start.pixels[(x, y)]
                    },
            decreases at.height - j,
        {
            let mut i: u32 = 0;
            while i < at.width
                invariant
                    i <= at.width,
                    j < at.height,
                    start.wf(),
                    start.contains_rect(at),
                    src@.contains_rect(from),
                    at.same_size(from),
                    self@.wf(),
                    self@.width == start.width,
                    self@.height == start.height,
                    forall|x: int, y: int|
                        0 <= x < start.width && 0 <= y < start.height
                            ==> #[trigger] self@.pixels[(x, y)] == if at.contains(x, y) && (y
                            - at.y < j || (y - at.y == j && x - at.x < i)) {
                            rect_pixel(src@, from, x - at.x, y - at.y)
                        } else {
                            start.pixels[(x, y)]
                        },
                decreases at.width - i,
            {
                let ghost prev = self@;
                let c = image_get(src, from.x + i, from.y + j);
                image_put(self, at.x + i, at.y + j, c);
                proof {
                    let key = ((at.x + i) as int, (at.y + j) as int);
                    assert forall|x: int, y: int| #[trigger]
                        self@.pixels.contains_key((x, y)) <==> 0 <= x < self@.width && 0 <= y
                            < self@.height by {
                        assert(prev.pixels.contains_key((x, y)) <==> 0 <= x < prev.width && 0 <= y
                            < prev.height);
                    }
                    assert forall|x: int, y: int|
                        0 <= x < start.width && 0 <= y < start.height implies #[trigger] self@.pixels[(
                        x,
                        y,
                    )] == if (x, y) == key {
                        c
                    } else {
                        prev.pixels[(x, y)]
                    } by {}
                }
                i += 1;
            }
            j += 1;
        }
        proof {
            let want = start.paste(at, src@, from);
            assert forall|k: (int, int)| self@.pixels.contains_key(k) <==> want.pixels.contains_key(
                k,
            ) by {
                assert(k == (k.0, k.1));
            }
            assert forall|k: (int, int)| self@.pixels.contains_key(k) implies self@.pixels[k]
                == want.pixels[k] by {
                assert(k == (k.0, k.1));
            }
            assert(self@.pixels =~= want.pixels);
        }
    }
}

/// Whether two pixels are the same in all four channels.
fn same_color(a: Color, b: Color) -> (r: bool)
    ensures
        r == (a == b),
{
    a.0 == b.0 && a.1 == b.1 && a.2 == b.2 && a.3 == b.3
}

} // verus!
