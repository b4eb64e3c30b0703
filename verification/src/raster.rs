use vstd::prelude::*;

use vstd::arithmetic::div_mod::{
    lemma_fundamental_div_mod_converse_div, lemma_fundamental_div_mod_converse_mod,
};

use crate::errors::WtxError;

verus! {

/// A raw RGBA8 raster: one byte per channel, four bytes per pixel, rows
/// stored contiguously from top to bottom.
#[derive(Debug)]
pub struct RawImage {
    width: u16,
    height: u16,
    data: Vec<u8>,
}

/// The error that `RawImage::new` reports for a rejected raster.
pub open spec fn spec_raster_error(width: u32, height: u32, len: int) -> WtxError {
    if width == 0 || height == 0 {
        WtxError::EmptyRaster
    } else if width > 0xFFFF || height > 0xFFFF {
        WtxError::OversizedRaster
    } else {
        WtxError::RasterSizeMismatch
    }
}

/// The byte position that position `i` of a vertically flipped raster reads
/// from, for rows of `row` bytes and `height` rows.
pub open spec fn flip_pos(i: int, row: int, height: int) -> int {
    (height - 1 - i / row) * row + i % row
}

/// The raster bytes with the scanline order reversed: the last row first.
pub open spec fn flipped_rows(s: Seq<u8>, width: int, height: int) -> Seq<u8> {
    Seq::new(s.len(), |i: int| s[flip_pos(i, 4 * width, height)])
}

/// Sum of the channel-`c` sample over the first `n` pixels of `s`.
pub open spec fn channel_sum_pix(s: Seq<u8>, c: int, n: int) -> int
    decreases n,
{
    if n <= 0 {
        0
    } else {
        channel_sum_pix(s, c, n - 1) + s[4 * (n - 1) + c]
    }
}

/// Sum of the channel-`c` sample over every pixel of `s`.
pub open spec fn channel_sum(s: Seq<u8>, c: int) -> int {
    channel_sum_pix(s, c, s.len() as int / 4)
}

/// Sum of the channel-`c` sample over pixels `lo..hi` of `s`.
pub open spec fn pix_range_sum(s: Seq<u8>, c: int, lo: int, hi: int) -> int
    decreases hi - lo,
{
    if hi <= lo {
        0
    } else {
        pix_range_sum(s, c, lo, hi - 1) + s[4 * (hi - 1) + c]
    }
}

proof fn lemma_channel_sum_is_range_sum(s: Seq<u8>, c: int, n: int)
    ensures
        channel_sum_pix(s, c, n) == pix_range_sum(s, c, 0, n),
    decreases n,
{
    if n > 0 {
        lemma_channel_sum_is_range_sum(s, c, n - 1);
    }
}

proof fn lemma_pix_range_split(s: Seq<u8>, c: int, lo: int, mid: int, hi: int)
    requires
        lo <= mid <= hi,
    ensures
        pix_range_sum(s, c, lo, hi) == pix_range_sum(s, c, lo, mid) + pix_range_sum(s, c, mid,
            hi),
    decreases hi - mid,
{
    if hi > mid {
        lemma_pix_range_split(s, c, lo, mid, hi - 1);
    }
}

/// One row of the flipped raster sums to the same value as the source row
/// it came from (the first `j` pixels of each).
proof fn lemma_flip_row_sum(s: Seq<u8>, w: int, h: int, c: int, r: int, j: int)
    requires
        1 <= w,
        1 <= h,
        0 <= c < 4,
        0 <= r < h,
        0 <= j <= w,
        s.len() == w * h * 4,
    ensures
        pix_range_sum(flipped_rows(s, w, h), c, r * w, r * w + j) == pix_range_sum(s, c, (h - 1
            - r) * w, (h - 1 - r) * w + j),
    decreases j,
{
    if j > 0 {
        lemma_flip_row_sum(s, w, h, c, r, j - 1);
        let f = flipped_rows(s, w, h);
        let i = r * w + (j - 1);
        let i2 = (h - 1 - r) * w + (j - 1);
        let b = 4 * i + c;
        assert(b == r * (4 * w) + (4 * (j - 1) + c) && 4 * i2 + c == (h - 1 - r) * (4 * w) + (4
            * (j - 1) + c) && 0 <= b < s.len() && 0 <= 4 * i2 + c < s.len() && 4 * (j - 1) + c
            < 4 * w) by (nonlinear_arith)
            requires
                i == r * w + (j - 1),
                i2 == (h - 1 - r) * w + (j - 1),
                b == 4 * i + c,
                0 <= c < 4,
                0 <= r < h,
                1 <= j <= w,
                1 <= w,
                s.len() == w * h * 4,
        ;
        lemma_fundamental_div_mod_converse_div(b, 4 * w, r, 4 * (j - 1) + c);
        lemma_fundamental_div_mod_converse_mod(b, 4 * w, r, 4 * (j - 1) + c);
        assert(flip_pos(b, 4 * w, h) == 4 * i2 + c);
        assert(f[b] == s[4 * i2 + c]);
    }
}

/// The first `k` rows of the flipped raster sum to the same value as the
/// last `k` rows of the source.
proof fn lemma_flip_prefix_sum(s: Seq<u8>, w: int, h: int, c: int, k: int)
    requires
        1 <= w,
        1 <= h,
        0 <= c < 4,
        0 <= k <= h,
        s.len() == w * h * 4,
    ensures
        pix_range_sum(flipped_rows(s, w, h), c, 0, k * w) == pix_range_sum(s, c, (h - k) * w, h
            * w),
    decreases k,
{
    let f = flipped_rows(s, w, h);
    if k == 0 {
        assert(k * w == 0 && (h - k) * w == h * w) by (nonlinear_arith)
            requires
                k == 0,
        ;
        assert(pix_range_sum(f, c, 0, 0) == 0);
        assert(pix_range_sum(s, c, h * w, h * w) == 0);
    } else {
        lemma_flip_prefix_sum(s, w, h, c, k - 1);
        lemma_flip_row_sum(s, w, h, c, k - 1, w);
        assert((k - 1) * w + w == k * w && (h - k) * w + w == (h - k + 1) * w && 0 <= (k - 1)
            * w && (h - k) * w <= (h - k + 1) * w <= h * w) by (nonlinear_arith)
            requires
                1 <= k <= h,
                1 <= w,
        ;
        lemma_pix_range_split(f, c, 0, (k - 1) * w, k * w);
        lemma_pix_range_split(s, c, (h - k) * w, (h - k + 1) * w, h * w);
        assert(pix_range_sum(f, c, 0, k * w) == pix_range_sum(f, c, 0, (k - 1) * w)
            + pix_range_sum(f, c, (k - 1) * w, k * w));
        assert(pix_range_sum(f, c, (k - 1) * w, k * w) == pix_range_sum(s, c, (h - k) * w, (h
            - k + 1) * w));
        assert(pix_range_sum(f, c, 0, (k - 1) * w) == pix_range_sum(s, c, (h - k + 1) * w, h
            * w));
        assert(pix_range_sum(s, c, (h - k) * w, h * w) == pix_range_sum(s, c, (h - k) * w, (h
            - k + 1) * w) + pix_range_sum(s, c, (h - k + 1) * w, h * w));
    }
}

/// Law: flipping the scanline order permutes whole rows, so every channel
/// sum — and with it every channel average — is unchanged.
pub proof fn lemma_flip_preserves_channel_sum(s: Seq<u8>, w: int, h: int, c: int)
    requires
        1 <= w,
        1 <= h,
        0 <= c < 4,
        s.len() == w * h * 4,
    ensures
        channel_sum(flipped_rows(s, w, h), c) == channel_sum(s, c),
{
    let f = flipped_rows(s, w, h);
    assert(w * h * 4 == (w * h) * 4 && h * w == w * h) by (nonlinear_arith);
    assert(s.len() as int / 4 == w * h) by {
        lemma_fundamental_div_mod_converse_div(s.len() as int, 4, w * h, 0);
    }
    lemma_channel_sum_is_range_sum(f, c, w * h);
    lemma_channel_sum_is_range_sum(s, c, w * h);
    lemma_flip_prefix_sum(s, w, h, c, h);
}

/// Law: row 0 of a vertically flipped raster equals the last row of the
/// original raster.
pub proof fn lemma_flip_first_row(s: Seq<u8>, width: int, height: int)
    requires
        1 <= width,
        1 <= height,
        s.len() == width * height * 4,
    ensures
        flipped_rows(s, width, height).subrange(0, 4 * width) == s.subrange(
            (height - 1) * (4 * width),
            height * (4 * width),
        ),
{
    let row = 4 * width;
    assert(height * row == s.len() && (height - 1) * row == height * row - row)
        by (nonlinear_arith)
        requires
            row == 4 * width,
            s.len() == width * height * 4,
    ;
    assert forall|i: int| 0 <= i < row implies flipped_rows(s, width, height)[i] == s[(height - 1)
        * row + i] by {
        lemma_fundamental_div_mod_converse_div(i, row, 0, i);
        lemma_fundamental_div_mod_converse_mod(i, row, 0, i);
        assert(flip_pos(i, row, height) == (height - 1) * row + i);
    }
    assert(flipped_rows(s, width, height).subrange(0, row) =~= s.subrange((height - 1) * row,
        height * row));
}

impl RawImage {
    /// The pixel bytes.
    pub closed spec fn bytes(&self) -> Seq<u8> {
        self.data@
    }

    /// The raster width in pixels.
    pub closed spec fn spec_width(&self) -> u16 {
        self.width
    }

    /// The raster height in pixels.
    pub closed spec fn spec_height(&self) -> u16 {
        self.height
    }

    /// Well-formedness: no empty dimension, and exactly four bytes per pixel.
    pub open spec fn wf(&self) -> bool {
        &&& 1 <= self.spec_width()
        &&& 1 <= self.spec_height()
        &&& self.bytes().len() == self.spec_width() * self.spec_height() * 4
    }

    /// Validates a raw raster and takes ownership of its pixel buffer.
    ///
    /// Accepts exactly the rasters with both dimensions in 1..=65535 whose
    /// buffer holds four bytes per pixel; everything else is rejected with
    /// the error `spec_raster_error` describes.
    pub fn new(width: u32, height: u32, data: Vec<u8>) -> (r: Result<RawImage, WtxError>)
        ensures
            (r is Ok) <==> (1 <= width <= 0xFFFF && 1 <= height <= 0xFFFF && data@.len()
                == width * height * 4),
            r matches Ok(img) ==> {
                &&& img.wf()
                &&& img.spec_width() == width
                &&& img.spec_height() == height
                &&& img.bytes() == data@
            },
            r matches Err(e) ==> e == spec_raster_error(width, height, data@.len() as int),
    {
        if width == 0 || height == 0 {
            Err(WtxError::EmptyRaster)
        } else if width > 0xFFFF || height > 0xFFFF {
            Err(WtxError::OversizedRaster)
        } else {
            proof {
                assert(width * height * 4 < 0x10_0000_0000) by (nonlinear_arith)
                    requires
                        width <= 0xFFFF,
                        height <= 0xFFFF,
                ;
            }
            let expected: u64 = (width as u64) * (height as u64) * 4;
            if (data.len() as u64) != expected {
                Err(WtxError::RasterSizeMismatch)
            } else {
                Ok(RawImage { width: width as u16, height: height as u16, data })
            }
        }
    }

    /// The raster width in pixels.
    pub fn width(&self) -> (w: u16)
        ensures
            w == self.spec_width(),
    {
        self.width
    }

    /// The raster height in pixels.
    pub fn height(&self) -> (h: u16)
        ensures
            h == self.spec_height(),
    {
        self.height
    }

    /// The pixel bytes.
    pub fn pixel_bytes(&self) -> (d: &Vec<u8>)
        ensures
            d@ == self.bytes(),
    {
        &self.data
    }

    /// Reverses the scanline order: the bottom row of `self` becomes the top
    /// row of the result. No other pixel changes.
    pub fn flip_vertical(&self) -> (r: RawImage)
        requires
            self.wf(),
        ensures
            r.wf(),
            r.spec_width() == self.spec_width(),
            r.spec_height() == self.spec_height(),
            r.bytes() == flipped_rows(self.bytes(), self.spec_width() as int,
                self.spec_height() as int),
    {
        let w: usize = self.width as usize;
        let h: usize = self.height as usize;
        let row: usize = 4 * w;
        let len: usize = self.data.len();
        proof {
            assert(h * row == len) by (nonlinear_arith)
                requires
                    row == 4 * w,
                    len == w * h * 4,
            ;
        }
        let mut out: Vec<u8> = Vec::new();
        let mut rix: usize = 0;
        while rix < h
            invariant
                self.wf(),
                w == self.spec_width(),
                h == self.spec_height(),
                row == 4 * w,
                len == self.bytes().len(),
                h * row == len,
                rix <= h,
                out@.len() == rix * row,
                forall|i: int|
                    0 <= i < out@.len() ==> out@[i] == self.bytes()[flip_pos(i, row as int,
                        h as int)],
            decreases h - rix,
        {
            let src: usize = h - 1 - rix;
            proof {
                assert(src * row + row <= h * row) by (nonlinear_arith)
                    requires
                        src < h,
                        0 < row,
                ;
                assert(rix * row + row <= h * row) by (nonlinear_arith)
                    requires
                        rix < h,
                        0 < row,
                ;
            }
            let mut j: usize = 0;
            while j < row
                invariant
                    self.wf(),
                    w == self.spec_width(),
                    h == self.spec_height(),
                    row == 4 * w,
                    len == self.bytes().len(),
                    h * row == len,
                    rix < h,
                    src == h - 1 - rix,
                    src * row + row <= h * row,
                    rix * row + row <= h * row,
                    j <= row,
                    out@.len() == rix * row + j,
                    forall|i: int|
                        0 <= i < out@.len() ==> out@[i] == self.bytes()[flip_pos(i, row as int,
                            h as int)],
                decreases row - j,
            {
                let b: u8 = self.data[src * row + j];
                proof {
                    let p = rix * row + j;
                    lemma_fundamental_div_mod_converse_div(p as int, row as int, rix as int,
                        j as int);
                    lemma_fundamental_div_mod_converse_mod(p as int, row as int, rix as int,
                        j as int);
                    assert(flip_pos(p as int, row as int, h as int) == src * row + j);
                }
                out.push(b);
                j = j + 1;
            }
            proof {
                assert((rix + 1) * row == rix * row + row) by (nonlinear_arith);
            }
            rix = rix + 1;
        }
        proof {
            assert(out@ =~= flipped_rows(self.bytes(), self.spec_width() as int,
                self.spec_height() as int));
        }
        RawImage { width: self.width, height: self.height, data: out }
    }

    /// Sums the red, green and blue samples over every pixel, in that order.
    ///
    /// The alpha channel is never measured: the container stores a fixed
    /// alpha average instead.
    pub fn channel_sums(&self) -> (sums: (u64, u64, u64))
        requires
            self.wf(),
        ensures
            sums.0 == channel_sum(self.bytes(), 0),
            sums.1 == channel_sum(self.bytes(), 1),
            sums.2 == channel_sum(self.bytes(), 2),
            sums.0 <= 255 * (self.spec_width() * self.spec_height()),
            sums.1 <= 255 * (self.spec_width() * self.spec_height()),
            sums.2 <= 255 * (self.spec_width() * self.spec_height()),
    {
        let w: usize = self.width as usize;
        let h: usize = self.height as usize;
        proof {
            assert(w * h <= 0xFFFF_FFFF && w * h * 4 == self.bytes().len()) by (nonlinear_arith)
                requires
                    self.bytes().len() == self.spec_width() * self.spec_height() * 4,
                    w == self.spec_width(),
                    h == self.spec_height(),
                    w <= 0xFFFF,
                    h <= 0xFFFF,
            ;
        }
        let len: usize = self.data.len();
        let npix: usize = w * h;
        proof {
            assert(self.bytes().len() as int / 4 == npix as int) by {
                lemma_fundamental_div_mod_converse_div(self.bytes().len() as int, 4, npix as int,
                    0);
            }
        }
        let mut red: u64 = 0;
        let mut green: u64 = 0;
        let mut blue: u64 = 0;
        let mut p: usize = 0;
        while p < npix
            invariant
                self.wf(),
                len == self.bytes().len(),
                npix * 4 == len,
                npix <= 0xFFFF_FFFF,
                p <= npix,
                red == channel_sum_pix(self.bytes(), 0, p as int),
                green == channel_sum_pix(self.bytes(), 1, p as int),
                blue == channel_sum_pix(self.bytes(), 2, p as int),
                red <= 255 * p,
                green <= 255 * p,
                blue <= 255 * p,
            decreases npix - p,
        {
            proof {
                assert(4 * p + 3 < len && 255 * p + 255 <= 255 * npix) by (nonlinear_arith)
                    requires
                        p < npix,
                        npix * 4 == len,
                ;
            }
            red = red + (self.data[4 * p] as u64);
            green = green + (self.data[4 * p + 1] as u64);
            blue = blue + (self.data[4 * p + 2] as u64);
            p = p + 1;
        }
        proof {
            assert(255 * npix == 255 * (self.spec_width() * self.spec_height()))
                by (nonlinear_arith)
                requires
                    npix == self.spec_width() as int * self.spec_height() as int,
            ;
        }
        (red, green, blue)
    }
}

} // verus!
