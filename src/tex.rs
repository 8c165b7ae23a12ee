//! Colours, textures and the frame buffer that columns are painted into.

use vstd::prelude::*;

use crate::vec::ONE;
use crate::{HEIGHT, WIDTH};

verus! {

/// An opaque colour.
#[derive(Debug, Clone, Copy, PartialEq, Eq, Structural)]
pub struct Colour {
    pub r: u8,
    pub g: u8,
    pub b: u8,
}

/// A colour with an alpha channel (`0` transparent, `255` opaque).
#[derive(Debug, Clone, Copy, PartialEq, Eq, Structural)]
pub struct TColour {
    pub r: u8,
    pub g: u8,
    pub b: u8,
    pub a: u8,
}

/// `a * b / 255`, rounded down: `b` read as a fraction of 255.
pub open spec fn frac_mul(a: int, b: int) -> int {
    a * b / 255
}

pub fn u8_frac_mul(a: u8, b: u8) -> (r: u8)
    ensures
        r == frac_mul(a as int, b as int),
{
    assert(a * b <= 255 * 255) by (nonlinear_arith)
        requires
            a <= 255,
            b <= 255,
    ;
    ((a as u16 * b as u16) / 255) as u8
}

/// One channel of `top` laid with alpha `a` over an opaque channel `under`.
pub open spec fn blend_channel(top: u8, under: u8, a: u8) -> int {
    frac_mul(top as int, a as int) + frac_mul(under as int, 255 - a)
}

/// Two fractions of 255 that make up a whole never sum past 255.
proof fn lemma_blend_fits(top: u8, under: u8, a: u8)
    ensures
        0 <= blend_channel(top, under, a) <= 255,
{
    let x = top as int * a as int;
    let y = under as int * (255 - a as int);
    assert(0 <= x <= 255 * a) by (nonlinear_arith)
        requires
            x == top as int * a as int,
            top <= 255,
            0 <= a,
    ;
    assert(0 <= y <= 255 * (255 - a)) by (nonlinear_arith)
        requires
            y == under as int * (255 - a as int),
            under <= 255,
            a <= 255,
    ;
    assert(x / 255 + y / 255 <= (x + y) / 255) by (nonlinear_arith)
        requires
            0 <= x,
            0 <= y,
    ;
    assert((x + y) / 255 <= 255) by (nonlinear_arith)
        requires
            0 <= x + y <= 255 * 255,
    ;
    assert(0 <= x / 255 && 0 <= y / 255) by (nonlinear_arith)
        requires
            0 <= x,
            0 <= y,
    ;
}

/// What `top` looks like painted over `under`: unchanged where `under` is
/// transparent or `top` opaque, blended channel by channel over an opaque
/// `under`.
pub open spec fn over(top: TColour, under: TColour) -> TColour {
    if under.a == 0 || top.a == 255 {
        top
    } else {
        TColour {
            r: blend_channel(top.r, under.r, top.a) as u8,
            g: blend_channel(top.g, under.g, top.a) as u8,
            b: blend_channel(top.b, under.b, top.a) as u8,
            a: 255,
        }
    }
}

impl Colour {
    pub fn new(r: u8, g: u8, b: u8) -> (c: Colour)
        ensures
            c == (Colour { r, g, b }),
    {
        Colour { r, g, b }
    }

    /// The four bytes of the colour as a frame stores them, alpha last.
    pub fn array(self) -> (a: [u8; 4])
        ensures
            a@ == seq![self.r, self.g, self.b, 255u8],
    {
        [self.r, self.g, self.b, 0xff]
    }

    pub fn alpha(self, a: u8) -> (c: TColour)
        ensures
            c == (TColour { r: self.r, g: self.g, b: self.b, a }),
    {
        TColour { r: self.r, g: self.g, b: self.b, a }
    }

    /// Each channel scaled by `a / 255`.
    pub fn scale(self, a: u8) -> (c: Colour)
        ensures
            c.r == frac_mul(self.r as int, a as int),
            c.g == frac_mul(self.g as int, a as int),
            c.b == frac_mul(self.b as int, a as int),
    {
        Colour { r: u8_frac_mul(self.r, a), g: u8_frac_mul(self.g, a), b: u8_frac_mul(self.b, a) }
    }
}

impl TColour {
    pub fn new(r: u8, g: u8, b: u8, a: u8) -> (c: TColour)
        ensures
            c == (TColour { r, g, b, a }),
    {
        TColour { r, g, b, a }
    }

    pub fn array(self) -> (a: [u8; 4])
        ensures
            a@ == seq![self.r, self.g, self.b, self.a],
    {
        [self.r, self.g, self.b, self.a]
    }

    /// The colour without its alpha channel.
    pub fn rgb(self) -> (c: Colour)
        ensures
            c == (Colour { r: self.r, g: self.g, b: self.b }),
    {
        Colour { r: self.r, g: self.g, b: self.b }
    }

    /// `self` painted over `other`, which must be transparent or opaque
    /// unless `self` is opaque.
    pub fn on(self, other: TColour) -> (c: TColour)
        requires
            other.a == 0 || other.a == 255 || self.a == 255,
        ensures
            c == over(self, other),
    {
        if other.a == 0 || self.a == 255 {
            self
        } else {
            proof {
                lemma_blend_fits(self.r, other.r, self.a);
                lemma_blend_fits(self.g, other.g, self.a);
                lemma_blend_fits(self.b, other.b, self.a);
            }
            let r = u8_frac_mul(self.r, self.a) + u8_frac_mul(other.r, 255 - self.a);
            let g = u8_frac_mul(self.g, self.a) + u8_frac_mul(other.g, 255 - self.a);
            let b = u8_frac_mul(self.b, self.a) + u8_frac_mul(other.b, 255 - self.a);
            TColour::new(r, g, b, 255)
        }
    }
}

/// The pixel index of frame coordinates `(x, y)`, rows of `WIDTH` pixels.
pub open spec fn index_of(x: int, y: int) -> int {
    y * WIDTH + x
}

/// The frame coordinates of pixel index `i`.
pub open spec fn coords_of(i: int) -> (int, int) {
    (i % (WIDTH as int), i / (WIDTH as int))
}

pub fn index_to_coords(i: usize) -> (c: (u32, u32))
    requires
        (i as int) / (WIDTH as int) <= u32::MAX,
    ensures
        (c.0 as int, c.1 as int) == coords_of(i as int),
{
    let x = (i % WIDTH as usize) as u32;
    let y = (i / WIDTH as usize) as u32;
    (x, y)
}

pub fn coords_to_index(x: u32, y: u32) -> (i: usize)
    requires
        index_of(x as int, y as int) <= usize::MAX,
    ensures
        i == index_of(x as int, y as int),
{
    y as usize * WIDTH as usize + x as usize
}

/// Frame coordinates survive the trip to a pixel index and back.
pub proof fn lemma_index_round_trip(x: int, y: int)
    requires
        0 <= x < WIDTH,
        0 <= y < HEIGHT,
    ensures
        coords_of(index_of(x, y)) == (x, y),
{
    assert((y * 320 + x) % 320 == x && (y * 320 + x) / 320 == y) by (nonlinear_arith)
        requires
            0 <= x < 320,
            0 <= y,
    ;
}

/// The bytes of `buf` with the pixel at `(x, y)` set to the opaque colour
/// `c`, or `buf` itself where `(x, y)` lies outside the frame or the buffer.
pub open spec fn put_pixel(buf: Seq<u8>, x: int, y: int, c: Colour) -> Seq<u8> {
    let i = index_of(x, y) * 4;
    if 0 <= x < WIDTH && 0 <= y < HEIGHT && i + 4 <= buf.len() {
        buf.update(i, c.r).update(i + 1, c.g).update(i + 2, c.b).update(i + 3, 255u8)
    } else {
        buf
    }
}

/// The colour at `(x, y)` as `buf` holds it, read as opaque.
pub open spec fn pixel_at(buf: Seq<u8>, x: int, y: int) -> TColour {
    let i = index_of(x, y) * 4;
    TColour { r: buf[i], g: buf[i + 1], b: buf[i + 2], a: 255 }
}

/// `buf` after `p` is painted at `(x, y)`: nothing for a transparent `p`, a
/// plain write for an opaque one, else `p` blended over what is there.
pub open spec fn paint_pixel(buf: Seq<u8>, x: int, y: int, p: TColour) -> Seq<u8> {
    if p.a == 0 {
        buf
    } else if p.a == 255 {
        put_pixel(buf, x, y, Colour { r: p.r, g: p.g, b: p.b })
    } else {
        let i = index_of(x, y) * 4;
        if 0 <= x < WIDTH && 0 <= y < HEIGHT && i + 4 <= buf.len() {
            let o = over(p, pixel_at(buf, x, y));
            put_pixel(buf, x, y, Colour { r: o.r, g: o.g, b: o.b })
        } else {
            buf
        }
    }
}

/// An RGBA frame buffer of `WIDTH` by `HEIGHT` pixels; writes outside the
/// frame are ignored.
#[derive(Debug)]
pub struct Frame {
    pub buffer: Vec<u8>,
}

impl Frame {
    pub fn new(buffer: Vec<u8>) -> (f: Frame)
        ensures
            f.buffer@ == buffer@,
    {
        Frame { buffer }
    }

    pub fn into_buffer(self) -> (b: Vec<u8>)
        ensures
            b@ == self.buffer@,
    {
        self.buffer
    }

    pub fn draw_rgb(&mut self, x: u32, y: u32, p: Colour)
        ensures
            final(self).buffer@ == put_pixel(old(self).buffer@, x as int, y as int, p),
    {
        if x < WIDTH && y < HEIGHT {
            let i = coords_to_index(x, y);
            if self.buffer.len() >= 4 && i <= (self.buffer.len() - 4) / 4 {
                assert(i * 4 + 4 <= self.buffer.len());
                let a = p.array();
                self.buffer[i * 4] = a[0];
                self.buffer[i * 4 + 1] = a[1];
                self.buffer[i * 4 + 2] = a[2];
                self.buffer[i * 4 + 3] = a[3];
            }
        }
    }

    pub fn draw_rgba(&mut self, x: u32, y: u32, p: TColour)
        ensures
            final(self).buffer@ == paint_pixel(old(self).buffer@, x as int, y as int, p),
    {
        let alpha = p.a;
        if alpha != 0 {
            if alpha == 255 {
                self.draw_rgb(x, y, p.rgb());
            } else if x < WIDTH && y < HEIGHT {
                let i = coords_to_index(x, y);
                if self.buffer.len() >= 4 && i <= (self.buffer.len() - 4) / 4 {
                    let orig = Colour::new(self.buffer[i * 4], self.buffer[i * 4 + 1], self.buffer[i * 4 + 2]).alpha(255);
                    self.draw_rgb(x, y, p.on(orig).rgb());
                }
            }
        }
    }
}

} // verus!

verus! {

/// A texture: rows of `width` pixels, row-major.
#[derive(Debug, Clone, PartialEq, Eq)]
pub struct Texture {
    pub buffer: Vec<TColour>,
    pub width: u16,
}

impl Texture {
    /// A usable texture has a positive width and at least one full row.
    pub open spec fn wf(&self) -> bool {
        self.width > 0 && self.buffer.len() >= self.width
    }

    pub open spec fn height_spec(&self) -> int {
        (self.buffer.len() as int) / (self.width as int)
    }

    /// The texture of `width` pixels per row whose pixels are the 4-byte RGBA
    /// groups of `rgba`; `None` where no row fits or the width does not fit
    /// in 16 bits.
    pub fn from_rgba(width: u32, rgba: &Vec<u8>) -> (t: Option<Texture>)
        ensures
            t is Some <==> (0 < width <= u16::MAX && rgba.len() / 4 >= width),
            t matches Some(t) ==> {
                &&& t.wf()
                &&& t.width == width
                &&& t.buffer.len() == rgba.len() / 4
                &&& forall|i: int|
                    0 <= i < t.buffer.len() ==> #[trigger] t.buffer[i] == (TColour {
                        r: rgba[4 * i],
                        g: rgba[4 * i + 1],
                        b: rgba[4 * i + 2],
                        a: rgba[4 * i + 3],
                    })
            },
    {
        if width == 0 || width > u16::MAX as u32 || rgba.len() / 4 < width as usize {
            return None;
        }
        let n = rgba.len() / 4;
        let mut buffer: Vec<TColour> = Vec::with_capacity(n);
        let mut i: usize = 0;
        while i < n
            invariant
                n == rgba.len() / 4,
                i <= n,
                buffer.len() == i,
                forall|j: int|
                    0 <= j < i ==> #[trigger] buffer[j] == (TColour {
                        r: rgba[4 * j],
                        g: rgba[4 * j + 1],
                        b: rgba[4 * j + 2],
                        a: rgba[4 * j + 3],
                    }),
            decreases n - i,
        {
            buffer.push(
                TColour {
                    r: rgba[4 * i],
                    g: rgba[4 * i + 1],
                    b: rgba[4 * i + 2],
                    a: rgba[4 * i + 3],
                },
            );
            i = i + 1;
        }
        Some(Texture { buffer, width: width as u16 })
    }

    pub fn width(&self) -> (w: usize)
        ensures
            w == self.width,
    {
        self.width as usize
    }

    pub fn height(&self) -> (h: usize)
        requires
            self.wf(),
        ensures
            h == self.height_spec(),
    {
        self.buffer.len() / self.width as usize
    }
}

impl Texture {
    /// The pixel at texture coordinates `(u, v)`, each read modulo one cell
    /// (`ONE`) as a fraction of the width and the height.
    pub open spec fn pixel_f_spec(&self, u: i64, v: i64) -> TColour {
        let one = ONE as int;
        let x = (u as int % one) * (self.width as int) / one;
        let y = (v as int % one) * self.height_spec() / one;
        self.buffer[y * self.width + x]
    }

    pub fn get_pixel_f(&self, u: i64, v: i64) -> (c: TColour)
        requires
            self.wf(),
        ensures
            c == self.pixel_f_spec(u, v),
    {
        let uu = u.checked_rem_euclid(ONE).unwrap() as u128;
        let vv = v.checked_rem_euclid(ONE).unwrap() as u128;
        let w = self.width as u128;
        let h = self.height() as u128;
        assert(h >= 1) by (nonlinear_arith)
            requires
                h == (self.buffer.len() as int) / (w as int),
                self.buffer.len() >= w,
                w > 0,
        ;
        assert(h * w <= self.buffer.len()) by (nonlinear_arith)
            requires
                h == (self.buffer.len() as int) / (w as int),
                w > 0,
        ;
        assert(uu * w < ONE * w && vv * h < ONE * h) by (nonlinear_arith)
            requires
                uu < ONE,
                vv < ONE,
                w > 0,
                h > 0,
        ;
        assert(ONE * h <= 0x1_0000_0000_0000_0000_0000) by (nonlinear_arith)
            requires
                h <= 0x1_0000_0000_0000_0000,
        ;
        let x = uu * w / ONE as u128;
        let y = vv * h / ONE as u128;
        assert(x < w && y < h) by (nonlinear_arith)
            requires
                uu * w < ONE * w,
                vv * h < ONE * h,
                x == uu * w / (ONE as int),
                y == vv * h / (ONE as int),
        ;
        assert(y * w + x < h * w) by (nonlinear_arith)
            requires
                x < w,
                y < h,
        ;
        self.buffer[(y * w + x) as usize]
    }

    /// `buf` after the first `n` rows of a column of height `h` at `(x, y)`
    /// are painted with this texture's vertical slice at `u`.
    pub open spec fn line_spec(&self, buf: Seq<u8>, x: u32, y: u32, u: i64, h: u32, n: nat) -> Seq<u8>
        decreases n,
    {
        if n == 0 {
            buf
        } else {
            let k = (n - 1) as nat;
            paint_pixel(
                self.line_spec(buf, x, y, u, h, k),
                x as int,
                y + k,
                self.pixel_f_spec(u, (k * ONE / (h as int)) as i64),
            )
        }
    }

    /// Paints rows `y` to `y + h` (as far as `u32` goes) of column `x` with
    /// this texture's vertical slice at `u`, stretched over the `h` rows.
    pub fn draw_line_at(&self, frame: &mut Frame, x: u32, y: u32, u: i64, h: u32)
        requires
            self.wf(),
        ensures
            final(frame).buffer@ == self.line_spec(
                old(frame).buffer@,
                x,
                y,
                u,
                h,
                (if y + h <= u32::MAX {
                    h as int
                } else {
                    u32::MAX - y
                }) as nat,
            ),
    {
        let end = y.saturating_add(h);
        let mut sy = y;
        while sy < end
            invariant
                self.wf(),
                y <= sy <= end,
                end == (if y + h <= u32::MAX {
                    y + h
                } else {
                    u32::MAX as int
                }),
                frame.buffer@ == self.line_spec(old(frame).buffer@, x, y, u, h, (sy - y) as nat),
            decreases end - sy,
        {
            let k = (sy - y) as i64;
            assert(k * ONE < 0x1_0000_0000_0000) by (nonlinear_arith)
                requires
                    0 <= k <= u32::MAX,
            ;
            let v = (k * ONE) / h as i64;
            frame.draw_rgba(x, sy, self.get_pixel_f(u, v));
            sy = sy + 1;
        }
    }

    /// `buf` after the first `n` pixels of this texture are painted with its
    /// top left corner at `(x, y)`; pixels beyond `u32` coordinates are
    /// outside any frame and left out.
    pub open spec fn blit_spec(&self, buf: Seq<u8>, x: u32, y: u32, n: nat) -> Seq<u8>
        decreases n,
    {
        if n == 0 {
            buf
        } else {
            let i = n - 1;
            let before = self.blit_spec(buf, x, y, (n - 1) as nat);
            let px = x + i % (self.width as int);
            let py = y + i / (self.width as int);
            if px <= u32::MAX && py <= u32::MAX {
                paint_pixel(before, px, py, self.buffer[i])
            } else {
                before
            }
        }
    }

    /// Paints the texture with its top left corner at `(x, y)`.
    pub fn draw_at(&self, frame: &mut Frame, x: u32, y: u32)
        requires
            self.wf(),
        ensures
            final(frame).buffer@ == self.blit_spec(old(frame).buffer@, x, y, self.buffer.len() as nat),
    {
        let w = self.width as usize;
        let mut i: usize = 0;
        while i < self.buffer.len()
            invariant
                self.wf(),
                w == self.width,
                i <= self.buffer.len(),
                frame.buffer@ == self.blit_spec(old(frame).buffer@, x, y, i as nat),
            decreases self.buffer.len() - i,
        {
            let c = self.buffer[i];
            let bx = (i % w) as u64;
            let by = (i / w) as u64;
            let px = x as u64 + bx;
            assert(by <= i);
            if px <= u32::MAX as u64 && by <= u32::MAX as u64 && y as u64 + by <= u32::MAX as u64 {
                frame.draw_rgba(px as u32, (y as u64 + by) as u32, c);
            }
            i = i + 1;
        }
    }
}

impl Texture {
    /// Same width and same pixels.
    pub open spec fn same_spec(&self, other: &Texture) -> bool {
        self.width == other.width && self.buffer@ == other.buffer@
    }

    pub fn same_as(&self, other: &Texture) -> (b: bool)
        ensures
            b == self.same_spec(other),
    {
        if self.width != other.width || self.buffer.len() != other.buffer.len() {
            return false;
        }
        let mut i: usize = 0;
        while i < self.buffer.len()
            invariant
                self.buffer.len() == other.buffer.len(),
                i <= self.buffer.len(),
                forall|j: int| 0 <= j < i ==> self.buffer@[j] == other.buffer@[j],
            decreases self.buffer.len() - i,
        {
            if self.buffer[i] != other.buffer[i] {
                return false;
            }
            i = i + 1;
        }
        assert(self.buffer@ =~= other.buffer@);
        true
    }
}

/// The index of the first texture of `texes` the same as `t`.
pub open spec fn first_same(texes: Seq<Texture>, t: Texture, i: int) -> Option<usize>
    decreases texes.len() - i,
{
    if i < 0 || i >= texes.len() {
        None
    } else if texes[i].same_spec(&t) {
        Some(i as usize)
    } else {
        first_same(texes, t, i + 1)
    }
}

/// The index of the first texture of `texes` with the same width and
/// pixels as `t`, so that a texture loaded twice is kept once.
pub fn find_texture(texes: &Vec<Texture>, t: &Texture) -> (r: Option<usize>)
    ensures
        r == first_same(texes@, *t, 0),
{
    let mut i: usize = 0;
    while i < texes.len()
        invariant
            i <= texes.len(),
            first_same(texes@, *t, 0) == first_same(texes@, *t, i as int),
        decreases texes.len() - i,
    {
        if texes[i].same_as(t) {
            return Some(i);
        }
        i = i + 1;
    }
    None
}

} // verus!
