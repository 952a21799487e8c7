//! A grid of RGB pixels: decoding from and encoding to bitmap pixel data,
//! channel isolation and box blur.
use vstd::prelude::*;
use vstd::arithmetic::div_mod::{lemma_fundamental_div_mod, lemma_fundamental_div_mod_converse};
use rayon::prelude::{IntoParallelIterator, IntoParallelRefMutIterator, ParallelIterator};
use crate::bytes::{place, put_bytes};
use crate::error::BmpError;

verus! {

/// One of the three colour channels of a pixel.
#[derive(Clone, Copy, Debug, PartialEq, Eq, Structural)]
pub enum Channel {
    Red,
    Green,
    Blue,
}

/// A pixel's red, green and blue values.
#[derive(Clone, Copy, Debug, PartialEq, Eq, Structural)]
pub struct Pixel {
    pub r: u8,
    pub g: u8,
    pub b: u8,
}

/// The value of channel `c` of `p`.
pub open spec fn channel_of(p: Pixel, c: Channel) -> u8 {
    match c {
        Channel::Red => p.r,
        Channel::Green => p.g,
        Channel::Blue => p.b,
    }
}

impl Pixel {
    /// `self` with every channel but `c` set to zero.
    pub open spec fn only(self, c: Channel) -> Pixel {
        match c {
            Channel::Red => Pixel { r: self.r, g: 0, b: 0 },
            Channel::Green => Pixel { r: 0, g: self.g, b: 0 },
            Channel::Blue => Pixel { r: 0, g: 0, b: self.b },
        }
    }

    /// A black pixel.
    pub fn new() -> (r: Pixel)
        ensures
            r == (Pixel { r: 0, g: 0, b: 0 }),
    {
        Pixel { r: 0, g: 0, b: 0 }
    }

    /// This pixel with every channel but `c` set to zero.
    pub fn isolate(&self, c: Channel) -> (r: Pixel)
        ensures
            r == self.only(c),
    {
        match c {
            Channel::Red => Pixel { r: self.r, g: 0, b: 0 },
            Channel::Green => Pixel { r: 0, g: self.g, b: 0 },
            Channel::Blue => Pixel { r: 0, g: 0, b: self.b },
        }
    }

    /// This pixel with green and blue set to zero.
    pub fn make_red(&self) -> (r: Pixel)
        ensures
            r == self.only(Channel::Red),
    {
        self.isolate(Channel::Red)
    }

    /// This pixel with red and blue set to zero.
    pub fn make_green(&self) -> (r: Pixel)
        ensures
            r == self.only(Channel::Green),
    {
        self.isolate(Channel::Green)
    }

    /// This pixel with red and green set to zero.
    pub fn make_blue(&self) -> (r: Pixel)
        ensures
            r == self.only(Channel::Blue),
    {
        self.isolate(Channel::Blue)
    }
}

/// Every pixel of `s` with every channel but `c` set to zero.
pub open spec fn isolate_all(s: Seq<Pixel>, c: Channel) -> Seq<Pixel> {
    s.map_values(|p: Pixel| p.only(c))
}

/// The pixel whose blue, green and red bytes start at `src[at]`.
pub open spec fn pixel_from(src: Seq<u8>, at: int) -> Pixel {
    Pixel { r: src[at + 2], g: src[at + 1], b: src[at] }
}

/// Byte `j` of a pixel as stored: blue, then green, then red.
pub open spec fn stored_byte(p: Pixel, j: int) -> u8 {
    if j == 0 {
        p.b
    } else if j == 1 {
        p.g
    } else {
        p.r
    }
}

/// Bytes in one stored row: three per pixel, then the padding.
pub open spec fn stride(w: int, pad: int) -> int {
    3 * w + pad
}

/// Bytes that `h` rows of `w` pixels with `pad` bytes of padding take.
pub open spec fn pixel_data_len(w: int, h: int, pad: int) -> int {
    h * stride(w, pad)
}

/// The `w` by `h` grid, row by row from the top, stored in `src` from
/// `off` on, each row followed by `pad` bytes of padding.
pub open spec fn decode_pixels(src: Seq<u8>, w: int, h: int, off: int, pad: int) -> Seq<Pixel> {
    Seq::new((w * h) as nat, |i: int| pixel_from(src, off + (i / w) * stride(w, pad) + 3 * (i % w)))
}

/// The bytes that store the `w` by `h` grid `s`: each row's pixels as blue,
/// green, red, then `pad` zero bytes.
pub open spec fn encode_pixels(s: Seq<Pixel>, w: int, h: int, pad: int) -> Seq<u8> {
    Seq::new(
        pixel_data_len(w, h, pad) as nat,
        |k: int|
            {
                let row = k / stride(w, pad);
                let col = k % stride(w, pad);
                if col < 3 * w {
                    stored_byte(s[row * w + col / 3], col % 3)
                } else {
                    0u8
                }
            },
    )
}

/// First index of the window of size `k` around `c`, clamped at zero.
pub open spec fn span_lo(c: int, k: int) -> int {
    if c >= (k - 1) / 2 {
        c - (k - 1) / 2
    } else {
        0
    }
}

/// One past the last index of the window of size `k` around `c`, clamped
/// at `n`.
pub open spec fn span_hi(c: int, k: int, n: int) -> int {
    if c + (k - 1) / 2 >= n {
        n
    } else {
        c + (k - 1) / 2 + 1
    }
}

/// Sum of channel `c` over columns `x0 .. x1` of row `y`.
pub open spec fn row_sum(s: Seq<Pixel>, w: int, c: Channel, y: int, x0: int, x1: int) -> int
    decreases x1 - x0,
{
    if x1 <= x0 {
        0
    } else {
        row_sum(s, w, c, y, x0, x1 - 1) + channel_of(s[y * w + x1 - 1], c)
    }
}

/// Sum of channel `c` over columns `x0 .. x1` of rows `y0 .. y1`.
pub open spec fn rect_sum(s: Seq<Pixel>, w: int, c: Channel, x0: int, x1: int, y0: int, y1: int) -> int
    decreases y1 - y0,
{
    if y1 <= y0 {
        0
    } else {
        rect_sum(s, w, c, x0, x1, y0, y1 - 1) + row_sum(s, w, c, y1 - 1, x0, x1)
    }
}

/// Number of pixels that the blur window of `bx` columns by `by` rows
/// covers around `(x, y)` in a `w` by `h` grid.
pub open spec fn window_count(w: int, h: int, x: int, y: int, by: int, bx: int) -> int {
    (span_hi(x, bx, w) - span_lo(x, bx)) * (span_hi(y, by, h) - span_lo(y, by))
}

/// Mean of channel `c` over the blur window around `(x, y)`, truncated.
pub open spec fn window_mean(s: Seq<Pixel>, w: int, h: int, x: int, y: int, by: int, bx: int, c: Channel) -> int {
    rect_sum(s, w, c, span_lo(x, bx), span_hi(x, bx, w), span_lo(y, by), span_hi(y, by, h))
        / window_count(w, h, x, y, by, bx)
}

/// The blurred value of pixel `(x, y)`.
pub open spec fn blurred_at(s: Seq<Pixel>, w: int, h: int, x: int, y: int, by: int, bx: int) -> Pixel {
    Pixel {
        r: window_mean(s, w, h, x, y, by, bx, Channel::Red) as u8,
        g: window_mean(s, w, h, x, y, by, bx, Channel::Green) as u8,
        b: window_mean(s, w, h, x, y, by, bx, Channel::Blue) as u8,
    }
}

/// The `w` by `h` grid `s` after a box blur of `bx` columns by `by` rows.
pub open spec fn blurred(s: Seq<Pixel>, w: int, h: int, by: int, bx: int) -> Seq<Pixel> {
    Seq::new((w * h) as nat, |i: int| blurred_at(s, w, h, i % w, i / w, by, bx))
}

proof fn lemma_row_major(i: int, w: int, x: int, y: int)
    requires
        0 <= x < w,
        0 <= y,
        i == y * w + x,
    ensures
        i / w == y,
        i % w == x,
{
    lemma_fundamental_div_mod_converse(i, w, y, x);
}

proof fn lemma_cell_in_grid(w: int, h: int, x: int, y: int)
    requires
        0 <= x < w,
        0 <= y < h,
    ensures
        0 <= y * w + x < w * h,
{
    assert(y * w + x < w * h) by (nonlinear_arith)
        requires
            0 <= x < w,
            0 <= y < h,
    ;
    assert(0 <= y * w) by (nonlinear_arith)
        requires
            0 <= w,
            0 <= y,
    ;
}

proof fn lemma_index_in_grid(i: int, w: int, h: int)
    requires
        0 <= i < w * h,
        0 < w,
    ensures
        0 <= i / w < h,
        0 <= i % w < w,
        i == (i / w) * w + i % w,
{
    lemma_fundamental_div_mod(i, w);
    assert((i / w) * w == w * (i / w)) by (nonlinear_arith);
    if i / w >= h {
        assert(w * (i / w) >= w * h) by (nonlinear_arith)
            requires
                i / w >= h,
                w > 0,
        ;
    }
    if i / w < 0 {
        assert(w * (i / w) < 0) by (nonlinear_arith)
            requires
                i / w < 0,
                w > 0,
        ;
    }
}

/// A `width` by `height` grid of pixels, stored row by row from the top.
#[derive(Debug, PartialEq)]
pub struct PixelArray {
    data: Vec<Pixel>,
    width: usize,
    height: usize,
}

impl PixelArray {
    /// The pixels, row by row; pixel `(x, y)` is at `y * width + x`.
    pub closed spec fn pixels(&self) -> Seq<Pixel> {
        self.data@
    }

    /// Number of columns.
    pub closed spec fn cols(&self) -> nat {
        self.width as nat
    }

    /// Number of rows.
    pub closed spec fn rows(&self) -> nat {
        self.height as nat
    }

    /// The grid holds exactly `cols * rows` pixels.
    pub open spec fn wf(&self) -> bool {
        self.pixels().len() == self.cols() * self.rows()
    }

    /// Number of columns.
    pub fn width(&self) -> (r: usize)
        ensures
            r == self.cols(),
    {
        self.width
    }

    /// Number of rows.
    pub fn height(&self) -> (r: usize)
        ensures
            r == self.rows(),
    {
        self.height
    }

    /// A `width` by `height` grid of black pixels.
    pub fn new(width: usize, height: usize) -> (r: PixelArray)
        requires
            width * height <= usize::MAX,
        ensures
            r.wf(),
            r.cols() == width,
            r.rows() == height,
            r.pixels() == Seq::new((width * height) as nat, |i: int| Pixel { r: 0, g: 0, b: 0 }),
    {
        let n: usize = width * height;
        let mut data: Vec<Pixel> = Vec::new();
        while data.len() < n
            invariant
                data@.len() <= n,
                forall|i: int| 0 <= i < data@.len() ==> data@[i] == (Pixel { r: 0, g: 0, b: 0 }),
            decreases n - data@.len(),
        {
            data.push(Pixel::new());
        }
        let r = PixelArray { data, width, height };
        assert(r.pixels() =~= Seq::new((width * height) as nat, |i: int| Pixel { r: 0, g: 0, b: 0 }));
        r
    }

    /// The pixel at column `x`, row `y`.
    pub fn get(&self, x: usize, y: usize) -> (r: Pixel)
        requires
            self.wf(),
            x < self.cols(),
            y < self.rows(),
        ensures
            r == self.pixels()[y * self.cols() + x],
    {
        proof {
            lemma_cell_in_grid(self.width as int, self.height as int, x as int, y as int);
        }
        let _len = self.data.len();
        self.data[y * self.width + x]
    }

    /// Sets the pixel at column `x`, row `y` to `p`.
    pub fn set(&mut self, x: usize, y: usize, p: Pixel)
        requires
            old(self).wf(),
            x < old(self).cols(),
            y < old(self).rows(),
        ensures
            final(self).wf(),
            final(self).cols() == old(self).cols(),
            final(self).rows() == old(self).rows(),
            final(self).pixels() == old(self).pixels().update(y * old(self).cols() + x, p),
    {
        proof {
            lemma_cell_in_grid(self.width as int, self.height as int, x as int, y as int);
        }
        let _len = self.data.len();
        let i = y * self.width + x;
        self.data.set(i, p);
    }
    /// Decodes a `w` by `h` grid from `src`: the rows start at `px_offset`,
    /// top row first, each pixel stored as blue, green, red and each row
    /// followed by `padding` bytes that are skipped. `Truncated` when `src`
    /// ends before all `h` rows and their padding.
    pub fn from_bm(src: &[u8], w: usize, h: usize, px_offset: usize, padding: usize) -> (r: Result<
        PixelArray,
        BmpError,
    >)
        ensures
            px_offset + pixel_data_len(w as int, h as int, padding as int) <= src@.len() ==> (
            match r {
                Ok(a) => a.wf() && a.cols() == w && a.rows() == h && a.pixels() == decode_pixels(
                    src@,
                    w as int,
                    h as int,
                    px_offset as int,
                    padding as int,
                ),
                Err(_) => false,
            }),
            px_offset + pixel_data_len(w as int, h as int, padding as int) > src@.len() ==> r
                == Err::<PixelArray, BmpError>(BmpError::Truncated),
    {
        let ghost s = src@;
        let ghost st = stride(w as int, padding as int);
        let ghost want = decode_pixels(s, w as int, h as int, px_offset as int, padding as int);
        let slen = src.len();
        if h == 0 {
            if px_offset > slen {
                assert(h * st == 0) by (nonlinear_arith)
                    requires
                        h == 0,
                ;
                return Err(BmpError::Truncated);
            }
            let r = PixelArray { data: Vec::new(), width: w, height: 0 };
            assert(w * h == 0 && h * st == 0) by (nonlinear_arith)
                requires
                    h == 0,
            ;
            assert(r.pixels() =~= want);
            return Ok(r);
        }
        assert(h * st >= st) by (nonlinear_arith)
            requires
                h >= 1,
                st >= 0,
        ;
        let row: usize = match w.checked_mul(3) {
            Some(n) => match n.checked_add(padding) {
                Some(m) => m,
                None => {
                    assert(h * st > slen);
                    return Err(BmpError::Truncated);
                },
            },
            None => {
                assert(h * st > slen);
                return Err(BmpError::Truncated);
            },
        };
        assert(row == st);
        let total: usize = match h.checked_mul(row) {
            Some(n) => n,
            None => {
                assert(h * st > slen);
                return Err(BmpError::Truncated);
            },
        };
        if total > slen || px_offset > slen - total {
            assert(px_offset + h * st > slen);
            return Err(BmpError::Truncated);
        }
        assert(0 <= w * h <= h * st) by (nonlinear_arith)
            requires
                st == 3 * w + padding,
                0 <= w,
                0 <= h,
        ;
        let mut data: Vec<Pixel> = Vec::new();
        let mut y: usize = 0;
        while y < h
            invariant
                y <= h,
                row == st,
                st == 3 * w + padding,
                total == h * st,
                slen == s.len(),
                px_offset + total <= s.len(),
                data@.len() <= w * h,
                s == src@,
                want == decode_pixels(s, w as int, h as int, px_offset as int, padding as int),
                data@.len() == y * w,
                forall|i: int| 0 <= i < data@.len() ==> data@[i] == want[i],
                w * h <= h * st,
            decreases h - y,
        {
            assert(y * st + st <= h * st) by (nonlinear_arith)
                requires
                    y < h,
                    0 <= st,
            ;
            assert(0 <= y * st) by (nonlinear_arith)
                requires
                    0 <= y,
                    0 <= st,
            ;
            let start: usize = px_offset + y * row;
            let mut x: usize = 0;
            while x < w
                invariant
                    y < h,
                    x <= w,
                    row == st,
                    st == 3 * w + padding,
                    px_offset + total <= s.len(),
                    y * st + st <= h * st,
                    total == h * st,
                    start == px_offset + y * st,
                    slen == s.len(),
                    data@.len() <= w * h,
                    s == src@,
                    want == decode_pixels(s, w as int, h as int, px_offset as int, padding as int),
                    data@.len() == y * w + x,
                    forall|i: int| 0 <= i < data@.len() ==> data@[i] == want[i],
                    w * h <= h * st,
                decreases w - x,
            {
                let at: usize = start + 3 * x;
                let p = Pixel { r: src[at + 2], g: src[at + 1], b: src[at] };
                proof {
                    let i = y * w + x;
                    lemma_row_major(i, w as int, x as int, y as int);
                    lemma_cell_in_grid(w as int, h as int, x as int, y as int);
                    assert(i + 1 <= w * h);
                }
                data.push(p);
                x = x + 1;
            }
            assert(y * w + w == (y + 1) * w) by (nonlinear_arith)
                requires
                    y >= 0,
                    w >= 0,
            ;
            y = y + 1;
        }
        assert(h * w == w * h) by (nonlinear_arith);
        assert(data@ =~= want);
        Ok(PixelArray { data, width: w, height: h })
    }

    /// Writes the grid's pixel data into `out` from `px_offset` on: each row
    /// top first, each pixel as blue, green, red, each row followed by
    /// `padding` zero bytes. A gap before `px_offset` is zero-filled and
    /// bytes past the written range are kept.
    pub fn write_bm(&self, out: &mut Vec<u8>, px_offset: usize, padding: usize)
        requires
            self.wf(),
            px_offset + pixel_data_len(self.cols() as int, self.rows() as int, padding as int)
                <= usize::MAX,
        ensures
            final(out)@ == place(
                old(out)@,
                px_offset as int,
                encode_pixels(self.pixels(), self.cols() as int, self.rows() as int, padding as int),
            ),
    {
        let w = self.width;
        let h = self.height;
        let ghost st = stride(w as int, padding as int);
        let ghost want = encode_pixels(self.pixels(), w as int, h as int, padding as int);
        let _len = self.data.len();
        let mut enc: Vec<u8> = Vec::new();
        let mut y: usize = 0;
        while y < h
            invariant
                self.wf(),
                w == self.cols(),
                h == self.rows(),
                _len == self.pixels().len(),
                y <= h,
                st == 3 * w + padding,
                px_offset + h * st <= usize::MAX,
                want == encode_pixels(self.pixels(), w as int, h as int, padding as int),
                enc@.len() == y * st,
                forall|k: int| 0 <= k < enc@.len() ==> enc@[k] == want[k],
            decreases h - y,
        {
            assert(y * st + st <= h * st) by (nonlinear_arith)
                requires
                    y < h,
                    0 <= st,
            ;
            let mut x: usize = 0;
            while x < w
                invariant
                    self.wf(),
                    w == self.cols(),
                    h == self.rows(),
                    _len == self.pixels().len(),
                    y < h,
                    x <= w,
                    st == 3 * w + padding,
                    px_offset + h * st <= usize::MAX,
                    y * st + st <= h * st,
                    want == encode_pixels(self.pixels(), w as int, h as int, padding as int),
                    enc@.len() == y * st + 3 * x,
                    forall|k: int| 0 <= k < enc@.len() ==> enc@[k] == want[k],
                decreases w - x,
            {
                proof {
                    lemma_cell_in_grid(w as int, h as int, x as int, y as int);
                    let k0 = y * st + 3 * x;
                    lemma_fundamental_div_mod_converse(k0, st, y as int, 3 * x);
                    lemma_fundamental_div_mod_converse(k0 + 1, st, y as int, 3 * x + 1);
                    lemma_fundamental_div_mod_converse(k0 + 2, st, y as int, 3 * x + 2);
                    lemma_fundamental_div_mod_converse(3 * x, 3, x as int, 0);
                    lemma_fundamental_div_mod_converse(3 * x + 1, 3, x as int, 1);
                    lemma_fundamental_div_mod_converse(3 * x + 2, 3, x as int, 2);
                }
                let p = self.data[y * w + x];
                enc.push(p.b);
                enc.push(p.g);
                enc.push(p.r);
                x = x + 1;
            }
            let mut k: usize = 0;
            while k < padding
                invariant
                    y < h,
                    k <= padding,
                    st == 3 * w + padding,
                    px_offset + h * st <= usize::MAX,
                    y * st + st <= h * st,
                    want == encode_pixels(self.pixels(), w as int, h as int, padding as int),
                    enc@.len() == y * st + 3 * w + k,
                    forall|k: int| 0 <= k < enc@.len() ==> enc@[k] == want[k],
                decreases padding - k,
            {
                proof {
                    let k0 = y * st + 3 * w + k;
                    lemma_fundamental_div_mod_converse(k0, st, y as int, 3 * w + k);
                }
                enc.push(0u8);
                k = k + 1;
            }
            assert(y * st + st == (y + 1) * st) by (nonlinear_arith);
            y = y + 1;
        }
        assert(enc@ =~= want);
        put_bytes(out, px_offset, &enc);
    }
    /// The grid with every channel but `c` set to zero in every pixel.
    fn keep_only(self, c: Channel) -> (r: PixelArray)
        requires
            self.wf(),
        ensures
            r.wf(),
            r.cols() == self.cols(),
            r.rows() == self.rows(),
            r.pixels() == isolate_all(self.pixels(), c),
    {
        let mut data = self.data;
        par_isolate(&mut data, c);
        PixelArray { data, width: self.width, height: self.height }
    }

    /// The grid with green and blue set to zero in every pixel.
    pub fn make_red(self) -> (r: PixelArray)
        requires
            self.wf(),
        ensures
            r.wf(),
            r.cols() == self.cols(),
            r.rows() == self.rows(),
            r.pixels() == isolate_all(self.pixels(), Channel::Red),
    {
        self.keep_only(Channel::Red)
    }

    /// The grid with red and blue set to zero in every pixel.
    pub fn make_green(self) -> (r: PixelArray)
        requires
            self.wf(),
        ensures
            r.wf(),
            r.cols() == self.cols(),
            r.rows() == self.rows(),
            r.pixels() == isolate_all(self.pixels(), Channel::Green),
    {
        self.keep_only(Channel::Green)
    }

    /// The grid with red and green set to zero in every pixel.
    pub fn make_blue(self) -> (r: PixelArray)
        requires
            self.wf(),
        ensures
            r.wf(),
            r.cols() == self.cols(),
            r.rows() == self.rows(),
            r.pixels() == isolate_all(self.pixels(), Channel::Blue),
    {
        self.keep_only(Channel::Blue)
    }
    /// The blurred value of the pixel at index `i`, averaged over the window
    /// of `blur_x` columns by `blur_y` rows around it, clamped to the grid.
    pub fn blur_index(&self, i: usize, blur_y: usize, blur_x: usize) -> (r: Pixel)
        requires
            self.wf(),
            i < self.pixels().len(),
            blur_y >= 1,
            blur_x >= 1,
        ensures
            r == blurred_at(
                self.pixels(),
                self.cols() as int,
                self.rows() as int,
                i as int % self.cols() as int,
                i as int / self.cols() as int,
                blur_y as int,
                blur_x as int,
            ),
    {
        let w = self.width;
        let h = self.height;
        let ghost s = self.pixels();
        let _len = self.data.len();
        proof {
            if w == 0 {
                assert(w * h == 0) by (nonlinear_arith)
                    requires
                        w == 0,
                ;
            }
            lemma_index_in_grid(i as int, w as int, h as int);
        }
        let x = i % w;
        let y = i / w;
        let half_x = (blur_x - 1) / 2;
        let half_y = (blur_y - 1) / 2;
        let x0: usize = if x >= half_x { x - half_x } else { 0 };
        let x1: usize = if half_x >= w - x { w } else { x + half_x + 1 };
        let y0: usize = if y >= half_y { y - half_y } else { 0 };
        let y1: usize = if half_y >= h - y { h } else { y + half_y + 1 };
        let ghost cw = x1 - x0;
        assert(cw * (y1 - y0) <= w * h) by (nonlinear_arith)
            requires
                0 <= cw <= w,
                0 <= y1 - y0 <= h,
        ;
        let mut sr: u128 = 0;
        let mut sg: u128 = 0;
        let mut sb: u128 = 0;
        let mut count: usize = 0;
        let mut yy: usize = y0;
        while yy < y1
            invariant
                self.wf(),
                s == self.pixels(),
                w == self.cols(),
                h == self.rows(),
                _len == s.len(),
                x0 < x1 <= w,
                y0 <= yy <= y1 <= h,
                cw == x1 - x0,
                cw * (y1 - y0) <= w * h,
                count == cw * (yy - y0),
                sr == rect_sum(s, w as int, Channel::Red, x0 as int, x1 as int, y0 as int, yy as int),
                sg == rect_sum(s, w as int, Channel::Green, x0 as int, x1 as int, y0 as int, yy as int),
                sb == rect_sum(s, w as int, Channel::Blue, x0 as int, x1 as int, y0 as int, yy as int),
                sr <= 255 * count,
                sg <= 255 * count,
                sb <= 255 * count,
            decreases y1 - yy,
        {
            assert(cw * (yy - y0) + cw <= cw * (y1 - y0)) by (nonlinear_arith)
                requires
                    yy < y1,
                    0 <= cw,
            ;
            let mut xx: usize = x0;
            while xx < x1
                invariant
                    self.wf(),
                    s == self.pixels(),
                    w == self.cols(),
                    h == self.rows(),
                    _len == s.len(),
                    x0 <= xx <= x1 <= w,
                    y0 <= yy < y1 <= h,
                    cw == x1 - x0,
                    cw * (y1 - y0) <= w * h,
                    cw * (yy - y0) + cw <= cw * (y1 - y0),
                    count == cw * (yy - y0) + (xx - x0),
                    sr == rect_sum(s, w as int, Channel::Red, x0 as int, x1 as int, y0 as int, yy as int)
                        + row_sum(s, w as int, Channel::Red, yy as int, x0 as int, xx as int),
                    sg == rect_sum(s, w as int, Channel::Green, x0 as int, x1 as int, y0 as int, yy as int)
                        + row_sum(s, w as int, Channel::Green, yy as int, x0 as int, xx as int),
                    sb == rect_sum(s, w as int, Channel::Blue, x0 as int, x1 as int, y0 as int, yy as int)
                        + row_sum(s, w as int, Channel::Blue, yy as int, x0 as int, xx as int),
                    sr <= 255 * count,
                    sg <= 255 * count,
                    sb <= 255 * count,
                decreases x1 - xx,
            {
                proof {
                    lemma_cell_in_grid(w as int, h as int, xx as int, yy as int);
                }
                let p = self.data[yy * w + xx];
                sr = sr + p.r as u128;
                sg = sg + p.g as u128;
                sb = sb + p.b as u128;
                count = count + 1;
                xx = xx + 1;
            }
            assert(cw * (yy - y0) + cw == cw * (yy + 1 - y0)) by (nonlinear_arith);
            yy = yy + 1;
        }
        assert(count == window_count(w as int, h as int, x as int, y as int, blur_y as int, blur_x as int));
        assert(count > 0) by (nonlinear_arith)
            requires
                count == cw * (y1 - y0),
                cw > 0,
                y1 - y0 > 0,
        ;
        assert((sr as int) / (count as int) <= 255 && (sg as int) / (count as int) <= 255 && (sb as int) / (count as int) <= 255)
            by (nonlinear_arith)
            requires
                sr <= 255 * count,
                sg <= 255 * count,
                sb <= 255 * count,
                count > 0,
        ;
        let c = count as u128;
        Pixel { r: (sr / c) as u8, g: (sg / c) as u8, b: (sb / c) as u8 }
    }

    /// The grid after a box blur: each pixel becomes the truncated mean of
    /// every channel over the window of `blur_x` columns by `blur_y` rows
    /// around it, clamped to the grid. Only the unblurred input pixels are read.
    pub fn make_blur(self, blur_y: usize, blur_x: usize) -> (r: PixelArray)
        requires
            self.wf(),
            blur_y >= 1,
            blur_x >= 1,
        ensures
            r.wf(),
            r.cols() == self.cols(),
            r.rows() == self.rows(),
            r.pixels() == blurred(self.pixels(), self.cols() as int, self.rows() as int, blur_y as int, blur_x as int),
    {
        let data = par_blur(&self, blur_y, blur_x);
        PixelArray { data, width: self.width, height: self.height }
    }
}

/// Relies on rayon's `into_par_iter().map(..).collect()` over `0..n`, which
/// collects the closure's value at every index, in index order.
#[verifier::external_body]
fn par_blur(src: &PixelArray, blur_y: usize, blur_x: usize) -> (r: Vec<Pixel>)
    requires
        src.wf(),
        blur_y >= 1,
        blur_x >= 1,
    ensures
        r@ == blurred(src.pixels(), src.cols() as int, src.rows() as int, blur_y as int, blur_x as int),
{
    (0..src.data.len()).into_par_iter().map(|i| src.blur_index(i, blur_y, blur_x)).collect()
}

/// Relies on rayon's `par_iter_mut().for_each`, which runs the closure once
/// on every element of the vector.
#[verifier::external_body]
fn par_isolate(v: &mut Vec<Pixel>, c: Channel)
    ensures
        final(v)@ == isolate_all(old(v)@, c),
{
    v.par_iter_mut().for_each(|p| *p = p.isolate(c));
}

/// Isolating a channel twice gives the same grid as isolating it once.
pub proof fn lemma_isolate_idempotent(s: Seq<Pixel>, c: Channel)
    ensures
        isolate_all(isolate_all(s, c), c) == isolate_all(s, c),
{
    assert(isolate_all(isolate_all(s, c), c) =~= isolate_all(s, c));
}

/// After isolating channel `c`, every pixel keeps its value of `c` and has
/// zero in the two other channels, so at most one channel is non-zero.
pub proof fn lemma_isolate_exclusive(s: Seq<Pixel>, c: Channel, i: int)
    requires
        0 <= i < s.len(),
    ensures
        channel_of(isolate_all(s, c)[i], c) == channel_of(s[i], c),
        forall|d: Channel| d != c ==> channel_of(#[trigger] isolate_all(s, c)[i], d) == 0,
        (isolate_all(s, c)[i].r != 0) as int + (isolate_all(s, c)[i].g != 0) as int + (
        isolate_all(s, c)[i].b != 0) as int <= 1,
{
}

/// Writing a grid's pixel data into any buffer at `off` and decoding it
/// back with the same geometry, offset and padding gives the grid again.
pub proof fn lemma_pixels_round_trip(s: Seq<Pixel>, w: int, h: int, before: Seq<u8>, off: int, pad: int)
    requires
        w >= 0,
        h >= 0,
        off >= 0,
        pad >= 0,
        s.len() == w * h,
    ensures
        decode_pixels(place(before, off, encode_pixels(s, w, h, pad)), w, h, off, pad) == s,
{
    let enc = encode_pixels(s, w, h, pad);
    let b = place(before, off, enc);
    let st = stride(w, pad);
    let d = decode_pixels(b, w, h, off, pad);
    assert forall|i: int| 0 <= i < w * h implies #[trigger] d[i] == s[i] by {
        if w == 0 {
            assert(w * h == 0) by (nonlinear_arith)
                requires
                    w == 0,
            ;
        }
        lemma_index_in_grid(i, w, h);
        let y = i / w;
        let x = i % w;
        assert(y * st + 3 * x + 3 <= h * st) by (nonlinear_arith)
            requires
                0 <= y < h,
                0 <= x < w,
                st == 3 * w + pad,
                pad >= 0,
        ;
        assert(0 <= y * st) by (nonlinear_arith)
            requires
                0 <= y,
                0 <= st,
        ;
        let k = y * st + 3 * x;
        lemma_fundamental_div_mod_converse(k, st, y, 3 * x);
        lemma_fundamental_div_mod_converse(k + 1, st, y, 3 * x + 1);
        lemma_fundamental_div_mod_converse(k + 2, st, y, 3 * x + 2);
        lemma_fundamental_div_mod_converse(3 * x, 3, x, 0);
        lemma_fundamental_div_mod_converse(3 * x + 1, 3, x, 1);
        lemma_fundamental_div_mod_converse(3 * x + 2, 3, x, 2);
        assert(b[off + k] == enc[k]);
        assert(b[off + k + 1] == enc[k + 1]);
        assert(b[off + k + 2] == enc[k + 2]);
    }
    assert(d =~= s);
}

/// For odd window sizes, a pixel whose window lies wholly inside the grid
/// averages exactly `bx * by` pixels.
pub proof fn lemma_blur_interior_count(w: int, h: int, x: int, y: int, by: int, bx: int)
    requires
        bx >= 1,
        by >= 1,
        bx % 2 == 1,
        by % 2 == 1,
        (bx - 1) / 2 <= x,
        x + (bx - 1) / 2 < w,
        (by - 1) / 2 <= y,
        y + (by - 1) / 2 < h,
    ensures
        window_count(w, h, x, y, by, bx) == bx * by,
{
    assert(span_hi(x, bx, w) - span_lo(x, bx) == bx);
    assert(span_hi(y, by, h) - span_lo(y, by) == by);
}

/// With a 7 by 7 window, the top-left pixel of a grid of at least 4 by 4
/// pixels is the mean of the 16 pixels in columns 0 to 3 of rows 0 to 3.
pub proof fn lemma_blur_top_left_7x7(s: Seq<Pixel>, w: int, h: int)
    requires
        w >= 4,
        h >= 4,
    ensures
        window_count(w, h, 0, 0, 7, 7) == 16,
        blurred(s, w, h, 7, 7)[0] == (Pixel {
            r: (rect_sum(s, w, Channel::Red, 0, 4, 0, 4) / 16) as u8,
            g: (rect_sum(s, w, Channel::Green, 0, 4, 0, 4) / 16) as u8,
            b: (rect_sum(s, w, Channel::Blue, 0, 4, 0, 4) / 16) as u8,
        }),
{
    assert(w * h > 0) by (nonlinear_arith)
        requires
            w >= 4,
            h >= 4,
    ;
    lemma_fundamental_div_mod_converse(0, w, 0, 0);
    assert(span_lo(0, 7) == 0);
    assert(span_hi(0, 7, w) == 4);
    assert(span_hi(0, 7, h) == 4);
    assert(window_count(w, h, 0, 0, 7, 7) == 16);
    assert(blurred(s, w, h, 7, 7)[0] == blurred_at(s, w, h, 0, 0, 7, 7));
    assert(window_mean(s, w, h, 0, 0, 7, 7, Channel::Red) == rect_sum(s, w, Channel::Red, 0, 4, 0, 4) / 16);
    assert(window_mean(s, w, h, 0, 0, 7, 7, Channel::Green) == rect_sum(s, w, Channel::Green, 0, 4, 0, 4) / 16);
    assert(window_mean(s, w, h, 0, 0, 7, 7, Channel::Blue) == rect_sum(s, w, Channel::Blue, 0, 4, 0, 4) / 16);
}

} // verus!
