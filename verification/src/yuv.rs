//! Planar YUV 4:2:0 frame buffers, as they are piped to ffmpeg.

use vstd::prelude::*;

verus! {

/// Planar I420 buffer for a `width × height` frame.
#[derive(Clone, PartialEq, Eq)]
pub struct Yuv420 {
    pub width: u32,
    pub height: u32,
    /// Y plane, then U, then V, contiguous.
    pub data: Vec<u8>,
}

/// `v` clamped to a byte.
pub open spec fn clamp8(v: int) -> u8 {
    if v < 0 {
        0
    } else if v > 255 {
        255
    } else {
        v as u8
    }
}

/// BT.709 limited-range luma of one pixel: 16.16 fixed point with
/// rounding, scaled into 16..=235.
pub open spec fn luma(r: int, g: int, b: int) -> u8 {
    clamp8((11_966 * r + 40_254 * g + 4_064 * b + 32_768) / 65_536 + 16)
}

/// BT.709 limited-range blue-difference chroma, centred on 128.
pub open spec fn chroma_u(r: int, g: int, b: int) -> u8 {
    clamp8((-6_598 * r - 22_186 * g + 28_784 * b + 32_768) / 65_536 + 128)
}

/// BT.709 limited-range red-difference chroma, centred on 128.
pub open spec fn chroma_v(r: int, g: int, b: int) -> u8 {
    clamp8((28_784 * r - 26_149 * g - 2_636 * b + 32_768) / 65_536 + 128)
}

pub open spec fn min_of(a: int, b: int) -> int {
    if a <= b {
        a
    } else {
        b
    }
}

/// Channel `c` of the pixel at column `x`, row `y` of a packed RGBA image
/// `w` pixels wide.
pub open spec fn channel(rgba: Seq<u8>, w: int, x: int, y: int, c: int) -> int {
    rgba[(y * w + x) * 4 + c] as int
}

/// Channel `c` averaged over the 2×2 block of chroma sample (`cx`, `cy`);
/// at an odd right or bottom edge the last column or row stands in for the
/// missing one.
pub open spec fn block_mean(rgba: Seq<u8>, w: int, h: int, cx: int, cy: int, c: int) -> int {
    let x0 = min_of(2 * cx, w - 1);
    let x1 = min_of(2 * cx + 1, w - 1);
    let y0 = min_of(2 * cy, h - 1);
    let y1 = min_of(2 * cy + 1, h - 1);
    (channel(rgba, w, x0, y0, c) + channel(rgba, w, x1, y0, c) + channel(rgba, w, x0, y1, c)
        + channel(rgba, w, x1, y1, c)) / 4
}

/// The luma plane of a packed RGBA image, pixel by pixel.
pub open spec fn luma_plane(rgba: Seq<u8>, w: int, h: int) -> Seq<u8> {
    Seq::new((w * h) as nat, |i: int| luma(rgba[4 * i] as int, rgba[4 * i + 1] as int, rgba[4 * i + 2] as int))
}

/// One chroma plane (`blue` picks U, else V), row by row, one sample per
/// 2×2 block.
pub open spec fn chroma_plane(rgba: Seq<u8>, w: int, h: int, blue: bool) -> Seq<u8> {
    let cw = (w + 1) / 2;
    let ch = (h + 1) / 2;
    Seq::new(
        (cw * ch) as nat,
        |k: int|
            {
                let r = block_mean(rgba, w, h, k % cw, k / cw, 0);
                let g = block_mean(rgba, w, h, k % cw, k / cw, 1);
                let b = block_mean(rgba, w, h, k % cw, k / cw, 2);
                if blue {
                    chroma_u(r, g, b)
                } else {
                    chroma_v(r, g, b)
                }
            },
    )
}

fn clamp_byte(v: i64) -> (r: u8)
    ensures
        r == clamp8(v as int),
{
    if v < 0 {
        0
    } else if v > 255 {
        255
    } else {
        v as u8
    }
}

/// `(x + 32_768) / 65_536` rounded down, for `x` in the range the colour
/// matrices produce from bytes.
fn fixed_round(x: i64) -> (q: i64)
    requires
        -16_000_000 <= x <= 16_000_000,
    ensures
        q == (x + 32_768) / 65_536,
{
    let t: u64 = (x + 32_768 + 16_777_216) as u64;
    let q: u64 = t / 65_536;
    let r: u64 = t % 65_536;
    proof {
        let xi = x as int + 32_768;
        assert(t == q * 65_536 + r);
        assert(xi == (q - 256) * 65_536 + r);
        vstd::arithmetic::div_mod::lemma_fundamental_div_mod_converse(xi, 65_536, q - 256, r as int);
    }
    q as i64 - 256
}

fn luma_exec(r: u8, g: u8, b: u8) -> (y: u8)
    ensures
        y == luma(r as int, g as int, b as int),
{
    let (r, g, b) = (r as i64, g as i64, b as i64);
    clamp_byte(fixed_round(11_966 * r + 40_254 * g + 4_064 * b) + 16)
}

fn chroma_exec(r: i64, g: i64, b: i64, blue: bool) -> (c: u8)
    requires
        0 <= r <= 255,
        0 <= g <= 255,
        0 <= b <= 255,
    ensures
        blue ==> c == chroma_u(r as int, g as int, b as int),
        !blue ==> c == chroma_v(r as int, g as int, b as int),
{
    if blue {
        clamp_byte(fixed_round(28_784 * b - 6_598 * r - 22_186 * g) + 128)
    } else {
        clamp_byte(fixed_round(28_784 * r - 26_149 * g - 2_636 * b) + 128)
    }
}

proof fn lemma_pixel_in_range(w: int, h: int, x: int, y: int)
    requires
        0 <= x < w,
        0 <= y < h,
    ensures
        0 <= y * w <= w * h,
        0 <= y * w + x < w * h,
        (y * w + x) * 4 + 3 < 4 * w * h,
{
    assert(y * w <= (h - 1) * w) by (nonlinear_arith)
        requires
            0 <= y <= h - 1,
            w >= 0,
    ;
    assert((h - 1) * w == w * h - w) by (nonlinear_arith);
    assert(0 <= y * w) by (nonlinear_arith)
        requires
            y >= 0,
            w >= 0,
    ;
    assert((y * w + x) * 4 + 3 < 4 * w * h) by (nonlinear_arith)
        requires
            y * w + x < w * h,
    ;
}

/// Channel `c` of pixel (`x`, `y`).
fn channel_exec(rgba: &[u8], w: usize, h: usize, x: usize, y: usize, c: usize) -> (v: i64)
    requires
        rgba@.len() == 4 * w * h,
        x < w,
        y < h,
        c < 3,
    ensures
        v == channel(rgba@, w as int, x as int, y as int, c as int),
        0 <= v <= 255,
{
    let len = rgba.len();
    proof {
        lemma_pixel_in_range(w as int, h as int, x as int, y as int);
    }
    rgba[(y * w + x) * 4 + c] as i64
}

/// Channel `c` averaged over the block of chroma sample (`cx`, `cy`).
fn block_mean_exec(rgba: &[u8], w: usize, h: usize, cx: usize, cy: usize, c: usize) -> (v: i64)
    requires
        rgba@.len() == 4 * w * h,
        2 * cx < w + 1,
        2 * cy < h + 1,
        w > 0,
        h > 0,
        c < 3,
    ensures
        v == block_mean(rgba@, w as int, h as int, cx as int, cy as int, c as int),
        0 <= v <= 255,
{
    let x0 = if 2 * cx < w - 1 { 2 * cx } else { w - 1 };
    let x1 = if 2 * cx + 1 < w - 1 { 2 * cx + 1 } else { w - 1 };
    let y0 = if 2 * cy < h - 1 { 2 * cy } else { h - 1 };
    let y1 = if 2 * cy + 1 < h - 1 { 2 * cy + 1 } else { h - 1 };
    let s = channel_exec(rgba, w, h, x0, y0, c) + channel_exec(rgba, w, h, x1, y0, c)
        + channel_exec(rgba, w, h, x0, y1, c) + channel_exec(rgba, w, h, x1, y1, c);
    s / 4
}

/// Appends one chroma plane of the image.
fn push_chroma_plane(data: &mut Vec<u8>, rgba: &[u8], w: usize, h: usize, blue: bool)
    requires
        rgba@.len() == 4 * w * h,
        w < usize::MAX,
        h < usize::MAX,
        old(data)@.len() + ((w + 1) / 2) * ((h + 1) / 2) <= usize::MAX,
    ensures
        final(data)@ == old(data)@ + chroma_plane(rgba@, w as int, h as int, blue),
{
    let cw = (w + 1) / 2;
    let ch = (h + 1) / 2;
    let ghost start = old(data)@;
    let ghost plane = chroma_plane(rgba@, w as int, h as int, blue);
    proof {
        assert(cw * ch >= 0) by (nonlinear_arith)
            requires
                cw >= 0,
                ch >= 0,
        ;
        assert(cw * ch <= usize::MAX);
    }
    let n: usize = cw * ch;
    let mut k: usize = 0;
    proof {
        assert(plane.take(0) =~= Seq::<u8>::empty());
        assert(data@ =~= start + plane.take(0));
    }
    while k < n
        invariant
            k <= n,
            n == cw * ch,
            cw == (w + 1) / 2,
            ch == (h + 1) / 2,
            rgba@.len() == 4 * w * h,
            plane == chroma_plane(rgba@, w as int, h as int, blue),
            plane.len() == n,
            data@ == start + plane.take(k as int),
        decreases n - k,
    {
        proof {
            assert(cw > 0) by (nonlinear_arith)
                requires
                    k < cw * ch,
                    cw >= 0,
                    ch >= 0,
            ;
        }
        let cx = k % cw;
        let cy = k / cw;
        proof {
            assert(cy < ch) by (nonlinear_arith)
                requires
                    k < cw * ch,
                    cw > 0,
                    cy == k / cw,
            ;
        }
        let r = block_mean_exec(rgba, w, h, cx, cy, 0);
        let g = block_mean_exec(rgba, w, h, cx, cy, 1);
        let b = block_mean_exec(rgba, w, h, cx, cy, 2);
        let c = chroma_exec(r, g, b, blue);
        data.push(c);
        proof {
            assert(plane[k as int] == c);
            assert(plane.take(k + 1) =~= plane.take(k as int).push(c));
        }
        k = k + 1;
    }
    proof {
        assert(plane.take(n as int) =~= plane);
    }
}

/// Size in bytes of an I420 frame: a full-size luma plane and two chroma
/// planes of half the width and height, rounded up.
pub open spec fn i420_len(width: int, height: int) -> int {
    width * height + 2 * (((width + 1) / 2) * ((height + 1) / 2))
}

impl Yuv420 {
    /// Size in bytes of an I420 frame.
    pub fn byte_len(width: u32, height: u32) -> (n: usize)
        requires
            i420_len(width as int, height as int) <= usize::MAX,
        ensures
            n == i420_len(width as int, height as int),
    {
        let w = width as u64;
        let h = height as u64;
        let cw = (w + 1) / 2;
        let ch = (h + 1) / 2;
        proof {
            assert(w * h <= 0xffff_ffff * 0xffff_ffff) by (nonlinear_arith)
                requires
                    w <= 0xffff_ffff,
                    h <= 0xffff_ffff,
            ;
            assert(cw * ch <= w * h + w + h + 1) by (nonlinear_arith)
                requires
                    cw == (w + 1) / 2,
                    ch == (h + 1) / 2,
            ;
        }
        let y = (w as u128) * (h as u128);
        let c = (cw as u128) * (ch as u128);
        (y + 2 * c) as usize
    }

    /// Converts a packed RGBA frame (alpha ignored) to BT.709 limited-range
    /// I420: a luma sample per pixel, then the U and V planes with one
    /// sample per 2×2 block, averaged. Odd sizes clamp the chroma sampling
    /// at the edge.
    pub fn from_rgba(width: u32, height: u32, rgba: &[u8]) -> (f: Yuv420)
        requires
            rgba@.len() == 4 * width * height,
        ensures
            f.width == width,
            f.height == height,
            f.data@ == luma_plane(rgba@, width as int, height as int)
                + chroma_plane(rgba@, width as int, height as int, true)
                + chroma_plane(rgba@, width as int, height as int, false),
            f.data@.len() == i420_len(width as int, height as int),
    {
        let w = width as usize;
        let h = height as usize;
        let len = rgba.len();
        proof {
            assert(4 * w * h == 4 * (w * h)) by (nonlinear_arith);
            assert(w * h >= 0) by (nonlinear_arith)
                requires
                    w >= 0,
                    h >= 0,
            ;
        }
        let n: usize = w * h;
        let ghost lp = luma_plane(rgba@, w as int, h as int);
        let mut data: Vec<u8> = Vec::new();
        let mut i: usize = 0;
        while i < n
            invariant
                i <= n,
                n == w * h,
                rgba@.len() == 4 * n,
                4 * n <= usize::MAX,
                lp == luma_plane(rgba@, w as int, h as int),
                lp.len() == n,
                data@ == lp.take(i as int),
            decreases n - i,
        {
            let y = luma_exec(rgba[4 * i], rgba[4 * i + 1], rgba[4 * i + 2]);
            data.push(y);
            proof {
                assert(lp.take(i + 1) =~= lp.take(i as int).push(y));
            }
            i = i + 1;
        }
        proof {
            assert(lp.take(n as int) =~= lp);
        }
        let ghost up = chroma_plane(rgba@, w as int, h as int, true);
        let ghost vp = chroma_plane(rgba@, w as int, h as int, false);
        if w == 0 || h == 0 {
            proof {
                assert(((w + 1) / 2) * ((h + 1) / 2) == 0) by (nonlinear_arith)
                    requires
                        w == 0 || h == 0,
                ;
                assert(up =~= Seq::<u8>::empty());
                assert(vp =~= Seq::<u8>::empty());
                assert(data@ =~= lp + up + vp);
            }
            return Yuv420 { width, height, data };
        }
        proof {
            let cw = (w + 1) / 2;
            let ch = (h + 1) / 2;
            assert(cw * ch <= w * h) by (nonlinear_arith)
                requires
                    cw == (w + 1) / 2,
                    ch == (h + 1) / 2,
                    w >= 1,
                    h >= 1,
            ;
            assert(w <= w * h && h <= w * h) by (nonlinear_arith)
                requires
                    w >= 1,
                    h >= 1,
            ;
        }
        push_chroma_plane(&mut data, rgba, w, h, true);
        push_chroma_plane(&mut data, rgba, w, h, false);
        Yuv420 { width, height, data }
    }
}

} // verus!
