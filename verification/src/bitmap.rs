//! Pixel buffers and the stamping rule.
//!
//! A `Bitmap` is a fixed-size RGBA pixel buffer, stored row-major; its
//! view is an `ImageView`, the mathematical image. Stencils are laid
//! onto a chart by `overlay`, whose three modes cover everything the
//! compositor and the layout engine do to pixels: opaque overwrite
//! (non-transparent source pixels replace destination pixels), tinted
//! overwrite (non-transparent source pixels are replaced by one given
//! color), and full copy.

use vstd::prelude::*;
use vstd::arithmetic::div_mod::lemma_fundamental_div_mod_converse;

verus! {

/// One RGBA pixel.
#[derive(Clone, Copy, PartialEq, Eq, Structural, Debug)]
pub struct Pixel {
    pub r: u8,
    pub g: u8,
    pub b: u8,
    pub a: u8,
}

/// A pixel is opaque unless its alpha channel is zero.
pub open spec fn opaque(p: Pixel) -> bool {
    p.a != 0
}

/// The mathematical image: a width, a height, and the row-major pixels.
#[verifier::ext_equal]
pub struct ImageView {
    pub width: nat,
    pub height: nat,
    pub pixels: Seq<Pixel>,
}

impl ImageView {
    /// The pixel sequence has exactly one entry per coordinate.
    pub open spec fn wf(self) -> bool {
        self.pixels.len() == self.width * self.height
    }

    /// The pixel at column `x` of row `y`.
    pub open spec fn pixel(self, x: int, y: int) -> Pixel {
        self.pixels[y * self.width + x]
    }
}

/// The image of the given size whose every pixel is `fill`.
pub open spec fn blank(width: nat, height: nat, fill: Pixel) -> ImageView {
    ImageView { width, height, pixels: Seq::new(width * height, |i: int| fill) }
}

/// How a source pixel is laid over a destination pixel.
#[derive(Clone, Copy, PartialEq, Eq, Structural, Debug)]
pub enum StampMode {
    /// Opaque source pixels replace the destination; transparent ones
    /// leave it unchanged.
    Opaque,
    /// Opaque source pixels are drawn as the given color; transparent
    /// ones leave the destination unchanged.
    Tint(Pixel),
    /// Every source pixel replaces the destination.
    Full,
}

/// The destination pixel after one source pixel is laid over it.
pub open spec fn mode_pixel(mode: StampMode, s: Pixel, d: Pixel) -> Pixel {
    match mode {
        StampMode::Opaque => if opaque(s) {
            s
        } else {
            d
        },
        StampMode::Tint(c) => if opaque(s) {
            c
        } else {
            d
        },
        StampMode::Full => s,
    }
}

/// `dst` with `src` laid over it, its top-left corner at `(x0, y0)`.
pub open spec fn overlay_spec(dst: ImageView, src: ImageView, x0: int, y0: int, mode: StampMode) -> ImageView {
    ImageView {
        width: dst.width,
        height: dst.height,
        pixels: Seq::new(dst.pixels.len(), |i: int| {
            let x = i % dst.width as int;
            let y = i / dst.width as int;
            if x0 <= x < x0 + src.width && y0 <= y < y0 + src.height {
                mode_pixel(mode, src.pixel(x - x0, y - y0), dst.pixels[i])
            } else {
                dst.pixels[i]
            }
        }),
    }
}

/// `dst` with only the first `k` source pixels (row-major) laid on.
spec fn overlay_upto(dst: ImageView, src: ImageView, x0: int, y0: int, mode: StampMode, k: int) -> ImageView {
    ImageView {
        width: dst.width,
        height: dst.height,
        pixels: Seq::new(dst.pixels.len(), |i: int| {
            let x = i % dst.width as int;
            let y = i / dst.width as int;
            if x0 <= x < x0 + src.width && y0 <= y < y0 + src.height
                && (y - y0) * src.width + (x - x0) < k {
                mode_pixel(mode, src.pixel(x - x0, y - y0), dst.pixels[i])
            } else {
                dst.pixels[i]
            }
        }),
    }
}

proof fn lemma_rowmajor(i: int, w: int, x: int, y: int)
    requires
        w > 0,
        0 <= x < w,
        0 <= y,
        i == y * w + x,
    ensures
        i % w == x,
        i / w == y,
{
    lemma_fundamental_div_mod_converse(i, w, y, x);
}

proof fn lemma_index_in_rect(x: int, y: int, w: int, h: int)
    requires
        0 <= x < w,
        0 <= y < h,
    ensures
        0 <= y * w + x < w * h,
{
    assert(0 <= y * w + x < w * h) by (nonlinear_arith)
        requires
            0 <= x < w,
            0 <= y < h,
    ;
}

/// A fixed-size RGBA pixel buffer, stored row-major.
pub struct Bitmap {
    width: usize,
    height: usize,
    pixels: Vec<Pixel>,
}

impl View for Bitmap {
    type V = ImageView;

    closed spec fn view(&self) -> ImageView {
        ImageView { width: self.width as nat, height: self.height as nat, pixels: self.pixels@ }
    }
}

impl Bitmap {
    /// The buffer holds exactly one pixel per coordinate.
    pub open spec fn wf(self) -> bool {
        self@.wf()
    }

    /// A bitmap of the given size, every pixel `fill`.
    pub fn new(width: usize, height: usize, fill: Pixel) -> (r: Bitmap)
        requires
            width * height <= usize::MAX,
        ensures
            r.wf(),
            r@ == blank(width as nat, height as nat, fill),
    {
        let n: usize = width * height;
        let mut pixels: Vec<Pixel> = Vec::new();
        let mut i: usize = 0;
        while i < n
            invariant
                i <= n,
                pixels@.len() == i,
                forall|j: int| 0 <= j < i ==> pixels@[j] == fill,
            decreases n - i,
        {
            pixels.push(fill);
            i = i + 1;
        }
        let r = Bitmap { width, height, pixels };
        proof {
            assert(r@.pixels =~= blank(width as nat, height as nat, fill).pixels);
            assert(r@ =~= blank(width as nat, height as nat, fill));
        }
        r
    }

    /// Whether the buffer length matches the stated size.
    pub fn check_wf(&self) -> (r: bool)
        ensures
            r == self.wf(),
    {
        let len = self.pixels.len();
        match self.width.checked_mul(self.height) {
            Some(n) => len == n,
            None => false,
        }
    }

    /// The width in pixels.
    pub fn width(&self) -> (r: usize)
        ensures
            r == self@.width,
    {
        self.width
    }

    /// The height in pixels.
    pub fn height(&self) -> (r: usize)
        ensures
            r == self@.height,
    {
        self.height
    }

    /// The pixel at column `x` of row `y`.
    pub fn get(&self, x: usize, y: usize) -> (p: Pixel)
        requires
            self.wf(),
            x < self@.width,
            y < self@.height,
        ensures
            p == self@.pixel(x as int, y as int),
    {
        let n = self.pixels.len();
        proof {
            lemma_index_in_rect(x as int, y as int, self@.width as int, self@.height as int);
            assert((y as int) * (self@.width as int) + (x as int) < n as int);
        }
        self.pixels[y * self.width + x]
    }

    fn set_px(&mut self, x: usize, y: usize, p: Pixel)
        requires
            old(self).wf(),
            x < old(self)@.width,
            y < old(self)@.height,
        ensures
            final(self).wf(),
            final(self)@.width == old(self)@.width,
            final(self)@.height == old(self)@.height,
            final(self)@.pixels == old(self)@.pixels.update(y * old(self)@.width + x, p),
    {
        let n = self.pixels.len();
        proof {
            lemma_index_in_rect(x as int, y as int, self@.width as int, self@.height as int);
            assert((y as int) * (self@.width as int) + (x as int) < n as int);
        }
        let i = y * self.width + x;
        self.pixels.set(i, p);
    }

    /// Lay `src` over this bitmap with its top-left corner at `(x0, y0)`,
    /// combining pixels as `mode` says.
    pub fn overlay(&mut self, src: &Bitmap, x0: usize, y0: usize, mode: StampMode)
        requires
            old(self).wf(),
            src.wf(),
            x0 + src@.width <= old(self)@.width,
            y0 + src@.height <= old(self)@.height,
        ensures
            final(self).wf(),
            final(self)@ == overlay_spec(old(self)@, src@, x0 as int, y0 as int, mode),
    {
        let sw = src.width();
        let sh = src.height();
        let ghost dst0 = self@;
        let ghost goal = overlay_spec(dst0, src@, x0 as int, y0 as int, mode);
        let mut sy: usize = 0;
        while sy < sh
            invariant
                sy <= sh,
                sw == src@.width,
                sh == src@.height,
                old(self).wf(),
                src.wf(),
                x0 + sw <= dst0.width,
                y0 + sh <= dst0.height,
                dst0 == old(self)@,
                self.wf(),
                self@ == overlay_upto(dst0, src@, x0 as int, y0 as int, mode, sy * sw as int),
            decreases sh - sy,
        {
            let mut sx: usize = 0;
            while sx < sw
                invariant
                    sy < sh,
                    sx <= sw,
                    sw == src@.width,
                    sh == src@.height,
                    src.wf(),
                    x0 + sw <= dst0.width,
                    y0 + sh <= dst0.height,
                    self.wf(),
                    self@ == overlay_upto(dst0, src@, x0 as int, y0 as int, mode, sy * sw + sx as int),
                decreases sw - sx,
            {
                let ghost k = sy * (sw as int) + sx;
                proof {
                    lemma_index_in_rect(sx as int, sy as int, sw as int, sh as int);
                }
                let s = src.get(sx, sy);
                let dx = x0 + sx;
                let dy = y0 + sy;
                let ghost before = self@;
                let d = self.get(dx, dy);
                let out = match mode {
                    StampMode::Opaque => if s.a != 0 {
                        s
                    } else {
                        d
                    },
                    StampMode::Tint(c) => if s.a != 0 {
                        c
                    } else {
                        d
                    },
                    StampMode::Full => s,
                };
                self.set_px(dx, dy, out);
                proof {
                    let w = dst0.width as int;
                    let di = (dy as int) * w + (dx as int);
                    lemma_index_in_rect(dx as int, dy as int, w, dst0.height as int);
                    lemma_rowmajor(di, w, dx as int, dy as int);
                    assert(src@.pixel(sx as int, sy as int) == s) by {
                        lemma_rowmajor((sy as int) * (sw as int) + (sx as int), sw as int, sx as int, sy as int);
                    }
                    let next = overlay_upto(dst0, src@, x0 as int, y0 as int, mode, k + 1);
                    assert forall|i: int| 0 <= i < dst0.pixels.len() implies self@.pixels[i]
                        == next.pixels[i] by {
                        let x = i % w;
                        let y = i / w;
                        vstd::arithmetic::div_mod::lemma_fundamental_div_mod(i, w);
                        assert(0 <= x < w);
                        if i == di {
                            assert(x == dx && y == dy);
                            assert((y - y0) * (sw as int) + (x - x0) == k);
                        } else {
                            assert(self@.pixels[i] == before.pixels[i]);
                            if x0 <= x < x0 + sw && y0 <= y < y0 + sh {
                                let j = (y - y0) * (sw as int) + (x - x0);
                                lemma_rowmajor(i, w, x, y);
                                assert(i == y * w + x);
                                assert(j != k) by {
                                    if j == k {
                                        assert((y - y0) * (sw as int) + (x - x0)
                                            == (sy as int) * (sw as int) + (sx as int));
                                        assert(y - y0 == sy && x - x0 == sx) by (nonlinear_arith)
                                            requires
                                                (y - y0) * (sw as int) + (x - x0)
                                                    == (sy as int) * (sw as int) + (sx as int),
                                                0 <= x - x0 < sw,
                                                0 <= sx < sw,
                                                0 <= y - y0,
                                                0 <= sy,
                                        ;
                                        assert(i == di);
                                    }
                                }
                            }
                        }
                    }
                    assert(self@.pixels =~= next.pixels);
                    assert(self@ =~= next);
                }
                sx = sx + 1;
            }
            proof {
                assert((sy as int) * (sw as int) + (sw as int) == ((sy as int) + 1) * (sw as int))
                    by (nonlinear_arith);
            }
            sy = sy + 1;
        }
        proof {
            let ghost k = (sh as int) * (sw as int);
            assert(self@ == overlay_upto(dst0, src@, x0 as int, y0 as int, mode, k));
            assert forall|i: int| 0 <= i < dst0.pixels.len() implies self@.pixels[i]
                == goal.pixels[i] by {
                let w = dst0.width as int;
                let x = i % w;
                let y = i / w;
                assert(self@.pixels[i] == overlay_upto(dst0, src@, x0 as int, y0 as int, mode, k).pixels[i]);
                if x0 <= x < x0 + sw && y0 <= y < y0 + sh {
                    lemma_index_in_rect(x - x0, y - y0, sw as int, sh as int);
                    assert((sw as int) * (sh as int) == k);
                    assert((y - y0) * (sw as int) + (x - x0) < k);
                }
            }
            assert(self@.pixels =~= goal.pixels);
            assert(self@ =~= goal);
        }
    }

    /// The bitmap decoded from PNG data, or `None` if the data is not a
    /// well-formed PNG image.
    pub fn from_png(bytes: &Vec<u8>) -> (r: Option<Bitmap>)
        ensures
            match r {
                Some(bm) => bm.wf() && png_image_of(bytes@) == Some(bm@),
                None => png_image_of(bytes@) is None,
            },
    {
        match decode_png_rgba(bytes) {
            None => None,
            Some((width, height, raw)) => {
                let ghost v = png_image_of(bytes@)->Some_0;
                let rl = raw.len();
                assert(4 * (width * height) == rl as int);
                let n = width * height;
                assert(n == v.width * v.height);
                let mut pixels: Vec<Pixel> = Vec::new();
                let mut i: usize = 0;
                while i < n
                    invariant
                        i <= n,
                        n == v.width * v.height,
                        v.pixels.len() == v.width * v.height,
                        raw@.len() == 4 * n,
                        rl == raw@.len(),
                        pixels@.len() == i,
                        forall|j: int| 0 <= j < v.width * v.height ==> v.pixels[j] == (Pixel {
                            r: raw@[4 * j],
                            g: raw@[4 * j + 1],
                            b: raw@[4 * j + 2],
                            a: raw@[4 * j + 3],
                        }),
                        forall|j: int| 0 <= j < i ==> pixels@[j] == v.pixels[j],
                    decreases n - i,
                {
                    let base = 4 * i;
                    let p = Pixel { r: raw[base], g: raw[base + 1], b: raw[base + 2], a: raw[base + 3] };
                    pixels.push(p);
                    i = i + 1;
                }
                let bm = Bitmap { width, height, pixels };
                proof {
                    assert(v.wf());
                    assert(bm@.pixels =~= v.pixels);
                    assert(bm@ =~= v);
                }
                Some(bm)
            },
        }
    }
}

/// Laying two stencils onto a canvas is order-independent whenever
/// their placement rectangles do not intersect: the final pixels are
/// identical whichever is stamped first.
pub proof fn lemma_stamp_order_independent(
    dst: ImageView,
    s1: ImageView,
    x1: int,
    y1: int,
    m1: StampMode,
    s2: ImageView,
    x2: int,
    y2: int,
    m2: StampMode,
)
    requires
        x1 + s1.width <= x2 || x2 + s2.width <= x1 || y1 + s1.height <= y2 || y2 + s2.height
            <= y1,
    ensures
        overlay_spec(overlay_spec(dst, s1, x1, y1, m1), s2, x2, y2, m2) == overlay_spec(
            overlay_spec(dst, s2, x2, y2, m2),
            s1,
            x1,
            y1,
            m1,
        ),
{
    let a = overlay_spec(overlay_spec(dst, s1, x1, y1, m1), s2, x2, y2, m2);
    let b = overlay_spec(overlay_spec(dst, s2, x2, y2, m2), s1, x1, y1, m1);
    assert forall|i: int| 0 <= i < dst.pixels.len() implies a.pixels[i] == b.pixels[i] by {
        let x = i % dst.width as int;
        let y = i / dst.width as int;
        if x1 <= x < x1 + s1.width && y1 <= y < y1 + s1.height && x2 <= x < x2 + s2.width && y2
            <= y < y2 + s2.height {
            assert(false);
        }
    }
    assert(a.pixels =~= b.pixels);
    assert(a =~= b);
}

/// The image that PNG data decodes to, as width, height and row-major
/// RGBA pixels; a function of the data alone.
pub uninterp spec fn png_image_of(bytes: Seq<u8>) -> Option<ImageView>;

/// Relies on `image::load_from_memory_with_format` with the PNG format,
/// together with `DynamicImage::to_rgba8` and `ImageBuffer::into_raw`,
/// for the decoded image as width, height and a row-major RGBA byte
/// buffer of length `4 * width * height`; the result is a function of
/// the input bytes alone.
#[verifier::external_body]
fn decode_png_rgba(bytes: &Vec<u8>) -> (r: Option<(usize, usize, Vec<u8>)>)
    ensures
        r is Some <==> png_image_of(bytes@) is Some,
        r is Some ==> {
            let v = png_image_of(bytes@)->Some_0;
            let (w, h, raw) = r->Some_0;
            &&& v.wf()
            &&& v.width == w
            &&& v.height == h
            &&& raw@.len() == 4 * (v.width * v.height)
            &&& forall|j: int| 0 <= j < v.width * v.height ==> v.pixels[j] == (Pixel {
                r: raw@[4 * j],
                g: raw@[4 * j + 1],
                b: raw@[4 * j + 2],
                a: raw@[4 * j + 3],
            })
        },
{
    match image::load_from_memory_with_format(bytes.as_slice(), image::ImageFormat::Png) {
        Ok(img) => {
            let rgba = img.to_rgba8();
            let w = rgba.width() as usize;
            let h = rgba.height() as usize;
            Some((w, h, rgba.into_raw()))
        },
        Err(_) => None,
    }
}

} // verus!
