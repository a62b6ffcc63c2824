//! Resampling of RGBA buffers to new dimensions, in exact integer arithmetic:
//! every fractional position is kept as a numerator over a known denominator.
use vstd::prelude::*;

use crate::dithering::{clamp_sample, round_div};
use crate::layout::{lemma_index_in_range, lemma_pixel_index};

verus! {

/// The interpolation used to resample an image.
#[derive(Debug, Clone, Copy, PartialEq, Eq, Structural)]
pub enum ResizeAlgo {
    Bicubic,
    Bilinear,
    NearestNeighbour,
}

/// An RGBA source of `sw` by `sh` pixels, and a target of `dw` by `dh`
/// pixels whose buffer can be indexed.
pub open spec fn valid_resize(src_len: int, sw: u32, sh: u32, dw: u32, dh: u32) -> bool {
    &&& sw > 0
    &&& sh > 0
    &&& dw > 0
    &&& dh > 0
    &&& src_len == sw * sh * 4
    &&& dw * dh * 4 <= usize::MAX
}

/// Sample `c` of source pixel `(x, y)`.
pub open spec fn src_sample(src: Seq<u8>, sw: int, x: int, y: int, c: int) -> int {
    src[(y * sw + x) * 4 + c] as int
}

/// The source coordinate nearest to target coordinate `x`:
/// `round(x / dst * src)`, halves up, held to the last source index.
pub open spec fn nearest_coord(x: int, dst: int, src: int) -> int {
    let v = (2 * x * src + dst) / (2 * dst);
    if v > src - 1 {
        src - 1
    } else {
        v
    }
}

pub open spec fn nearest_sample(src: Seq<u8>, sw: int, sh: int, dw: int, dh: int, x: int, y: int, c: int) -> int {
    src_sample(src, sw, nearest_coord(x, dw, sw), nearest_coord(y, dh, sh), c)
}

/// The last source index that target coordinate `x` reaches under bilinear
/// interpolation: the ceiling of `x * src / dst`, held to the last index.
pub open spec fn upper_coord(x: int, dst: int, src: int) -> int {
    let x0 = x * src / dst;
    let x1 = if x * src % dst == 0 {
        x0
    } else {
        x0 + 1
    };
    if x1 > src - 1 {
        src - 1
    } else {
        x1
    }
}

/// Bilinear interpolation: the four source pixels around `(x * sw / dw, y * sh / dh)`
/// weighted by the fractional parts `fx / dw` and `fy / dh`, rounded, halves up.
pub open spec fn bilinear_sample(src: Seq<u8>, sw: int, sh: int, dw: int, dh: int, x: int, y: int, c: int) -> int {
    let x0 = x * sw / dw;
    let fx = x * sw % dw;
    let x1 = upper_coord(x, dw, sw);
    let y0 = y * sh / dh;
    let fy = y * sh % dh;
    let y1 = upper_coord(y, dh, sh);
    let num = src_sample(src, sw, x0, y0, c) * ((dw - fx) * (dh - fy)) + src_sample(src, sw, x1, y0, c) * (fx * (dh
        - fy)) + src_sample(src, sw, x0, y1, c) * ((dw - fx) * fy) + src_sample(src, sw, x1, y1, c) * (fx * fy);
    (2 * num + dw * dh) / (2 * dw * dh)
}

/// `v` held to the indices `0 .. n - 1`: beyond an edge the edge pixel is
/// read again.
pub open spec fn clamp_coord(v: int, n: int) -> int {
    if v < 0 {
        0
    } else if v >= n {
        n - 1
    } else {
        v
    }
}

/// The Catmull-Rom cubic through `v0 .. v3`, `a t^3 + b t^2 + c t + d` with
/// `a = -v0/2 + 3 v1/2 - 3 v2/2 + v3/2`, `b = v0 - 5 v1/2 + 2 v2 - v3/2`,
/// `c = -v0/2 + v2/2` and `d = v1`, taken at `t / tt` and multiplied by
/// `2 tt^3` so that it stays an integer.
pub open spec fn hermite_scaled(v0: int, v1: int, v2: int, v3: int, t: int, tt: int) -> int {
    (-v0 + 3 * v1 - 3 * v2 + v3) * (t * t * t) + (2 * v0 - 5 * v1 + 4 * v2 - v3) * (t * t * tt) + (v2 - v0) * (t
        * tt * tt) + (2 * v1) * (tt * tt * tt)
}

/// Sample `c` of the source pixel at offset `(i, j)` of the four-by-four
/// neighbourhood whose second pixel is `(xpos, ypos)`, edges clamped.
pub open spec fn cubic_tap(src: Seq<u8>, sw: int, sh: int, xpos: int, ypos: int, i: int, j: int, c: int) -> int {
    src_sample(src, sw, clamp_coord(xpos - 1 + i, sw), clamp_coord(ypos - 1 + j, sh), c)
}

/// Row `j` of the neighbourhood interpolated at `t / tt`, times `2 tt^3`.
pub open spec fn cubic_row(src: Seq<u8>, sw: int, sh: int, xpos: int, ypos: int, t: int, tt: int, j: int, c: int) -> int {
    hermite_scaled(
        cubic_tap(src, sw, sh, xpos, ypos, 0, j, c),
        cubic_tap(src, sw, sh, xpos, ypos, 1, j, c),
        cubic_tap(src, sw, sh, xpos, ypos, 2, j, c),
        cubic_tap(src, sw, sh, xpos, ypos, 3, j, c),
        t,
        tt,
    )
}

/// Bicubic interpolation. The source position of target column `x` is
/// `x / dw * sw - 1/2 = (2 x sw - dw) / (2 dw)`: its floor `xpos` and the
/// numerator `t` of its fractional part over `tt = 2 dw`; likewise for rows.
/// The rows are interpolated first, then the column of their four results;
/// the value, over `4 tt^3 uu^3`, is rounded (halves away from zero) and held
/// to `[0, 255]`, which gives the same as holding it first and rounding then.
pub open spec fn bicubic_sample(src: Seq<u8>, sw: int, sh: int, dw: int, dh: int, x: int, y: int, c: int) -> int {
    let tt = 2 * dw;
    let nx = 2 * x * sw - dw;
    let xpos = nx / tt;
    let t = nx % tt;
    let uu = 2 * dh;
    let ny = 2 * y * sh - dh;
    let ypos = ny / uu;
    let u = ny % uu;
    let q = hermite_scaled(
        cubic_row(src, sw, sh, xpos, ypos, t, tt, 0, c),
        cubic_row(src, sw, sh, xpos, ypos, t, tt, 1, c),
        cubic_row(src, sw, sh, xpos, ypos, t, tt, 2, c),
        cubic_row(src, sw, sh, xpos, ypos, t, tt, 3, c),
        u,
        uu,
    );
    clamp_sample(round_div(q, 4 * (tt * tt * tt) * (uu * uu * uu))) as int
}

/// Sample `c` of target pixel `(x, y)` under each interpolation.
pub open spec fn resize_sample(
    algo: ResizeAlgo,
    src: Seq<u8>,
    sw: int,
    sh: int,
    dw: int,
    dh: int,
    x: int,
    y: int,
    c: int,
) -> int {
    match algo {
        ResizeAlgo::NearestNeighbour => nearest_sample(src, sw, sh, dw, dh, x, y, c),
        ResizeAlgo::Bilinear => bilinear_sample(src, sw, sh, dw, dh, x, y, c),
        ResizeAlgo::Bicubic => bicubic_sample(src, sw, sh, dw, dh, x, y, c),
    }
}

/// The resampled RGBA image of `dw` by `dh` pixels, row by row.
pub open spec fn resized_image(algo: ResizeAlgo, src: Seq<u8>, sw: u32, sh: u32, dw: u32, dh: u32) -> Seq<u8> {
    Seq::new(
        (dw * dh * 4) as nat,
        |i: int| resize_sample(algo, src, sw as int, sh as int, dw as int, dh as int, (i / 4) % dw as int, (i / 4) / dw as int, i % 4) as u8,
    )
}

pub proof fn lemma_nearest_coord_in_range(x: int, dst: int, src: int)
    requires
        0 <= x < dst,
        src > 0,
    ensures
        0 <= nearest_coord(x, dst, src) < src,
{
    assert(0 <= (2 * x * src + dst) / (2 * dst)) by (nonlinear_arith)
        requires
            0 <= x,
            src > 0,
            dst > 0,
    ;
}

fn nearest_coord_exec(x: u32, dst: u32, src: u32) -> (r: u32)
    requires
        x < dst,
        src > 0,
    ensures
        r == nearest_coord(x as int, dst as int, src as int),
        r < src,
{
    proof {
        lemma_nearest_coord_in_range(x as int, dst as int, src as int);
        assert(2 * x * src + dst <= 0x4_0000_0000_0000_0000) by (nonlinear_arith)
            requires
                x < dst,
                dst <= u32::MAX,
                src <= u32::MAX,
        ;
    }
    let v: u128 = (2 * x as u128 * src as u128 + dst as u128) / (2 * dst as u128);
    if v > (src - 1) as u128 {
        src - 1
    } else {
        v as u32
    }
}

/// Index of sample `c` of source pixel `(x, y)`.
fn src_index(sw: u32, sh: u32, x: u32, y: u32, c: usize) -> (r: usize)
    requires
        x < sw,
        y < sh,
        c < 4,
        sw * sh * 4 <= usize::MAX,
    ensures
        r == (y * sw + x) * 4 + c,
        r < sw * sh * 4,
{
    proof {
        lemma_index_in_range(y as int, x as int, sw as int, sh as int);
        assert(sh * sw == sw * sh) by (nonlinear_arith);
        lemma_index_in_range(y * sw + x, c as int, 4, sw * sh);
    }
    (y as usize * sw as usize + x as usize) * 4 + c
}

fn nearest_sample_exec(src: &[u8], sw: u32, sh: u32, dw: u32, dh: u32, x: u32, y: u32, c: usize) -> (r: u8)
    requires
        src@.len() == sw * sh * 4,
        sw * sh * 4 <= usize::MAX,
        sw > 0,
        sh > 0,
        x < dw,
        y < dh,
        c < 4,
    ensures
        r == nearest_sample(src@, sw as int, sh as int, dw as int, dh as int, x as int, y as int, c as int),
{
    let sx = nearest_coord_exec(x, dw, sw);
    let sy = nearest_coord_exec(y, dh, sh);
    src[src_index(sw, sh, sx, sy, c)]
}

/// A weighted mean of four samples, rounded, is again a sample.
pub proof fn lemma_bilinear_bound(a: int, b: int, c: int, d: int, dw: int, dh: int, fx: int, fy: int)
    requires
        0 <= a <= 255,
        0 <= b <= 255,
        0 <= c <= 255,
        0 <= d <= 255,
        0 <= fx < dw,
        0 <= fy < dh,
    ensures
        0 <= a * ((dw - fx) * (dh - fy)) + b * (fx * (dh - fy)) + c * ((dw - fx) * fy) + d * (fx * fy) <= 255 * (dw
            * dh),
        0 <= (2 * (a * ((dw - fx) * (dh - fy)) + b * (fx * (dh - fy)) + c * ((dw - fx) * fy) + d * (fx * fy)) + dw
            * dh) / (2 * dw * dh) <= 255,
{
    let w00 = (dw - fx) * (dh - fy);
    let w10 = fx * (dh - fy);
    let w01 = (dw - fx) * fy;
    let w11 = fx * fy;
    assert(w00 >= 0 && w10 >= 0 && w01 >= 0 && w11 >= 0) by (nonlinear_arith)
        requires
            0 <= fx < dw,
            0 <= fy < dh,
            w00 == (dw - fx) * (dh - fy),
            w10 == fx * (dh - fy),
            w01 == (dw - fx) * fy,
            w11 == fx * fy,
    ;
    assert(w00 + w10 + w01 + w11 == dw * dh) by (nonlinear_arith)
        requires
            w00 == (dw - fx) * (dh - fy),
            w10 == fx * (dh - fy),
            w01 == (dw - fx) * fy,
            w11 == fx * fy,
    ;
    assert(0 <= a * w00 <= 255 * w00) by (nonlinear_arith)
        requires
            0 <= a <= 255,
            w00 >= 0,
    ;
    assert(0 <= b * w10 <= 255 * w10) by (nonlinear_arith)
        requires
            0 <= b <= 255,
            w10 >= 0,
    ;
    assert(0 <= c * w01 <= 255 * w01) by (nonlinear_arith)
        requires
            0 <= c <= 255,
            w01 >= 0,
    ;
    assert(0 <= d * w11 <= 255 * w11) by (nonlinear_arith)
        requires
            0 <= d <= 255,
            w11 >= 0,
    ;
    let num = a * w00 + b * w10 + c * w01 + d * w11;
    let den = dw * dh;
    assert(den > 0) by (nonlinear_arith)
        requires
            dw > 0,
            dh > 0,
            den == dw * dh,
    ;
    assert(2 * dw * dh == 2 * den) by (nonlinear_arith)
        requires
            den == dw * dh,
    ;
    assert(0 <= (2 * num + den) / (2 * den) <= 255) by (nonlinear_arith)
        requires
            0 <= num <= 255 * den,
            den > 0,
    ;
}

/// Source coordinates for bilinear interpolation: the floor of `x * src / dst`,
/// its fractional part over `dst`, and the clamped ceiling.
fn bilinear_coords(x: u32, dst: u32, src: u32) -> (r: (u32, u64, u32))
    requires
        x < dst,
        src > 0,
    ensures
        r.0 == (x as int * src as int) / (dst as int),
        r.1 == (x as int * src as int) % (dst as int),
        r.2 == upper_coord(x as int, dst as int, src as int),
        r.0 < src,
        r.2 < src,
{
    assert(x as int * src as int <= u64::MAX) by (nonlinear_arith)
        requires
            x <= u32::MAX,
            src <= u32::MAX,
    ;
    let xn: u64 = x as u64 * src as u64;
    let x0: u64 = xn / dst as u64;
    let fx: u64 = xn % dst as u64;
    proof {
        vstd::arithmetic::div_mod::lemma_fundamental_div_mod(xn as int, dst as int);
    }
    assert(x0 < src) by (nonlinear_arith)
        requires
            xn == dst * x0 + fx,
            fx >= 0,
            xn == x * src,
            x < dst,
            dst > 0,
            src > 0,
    ;
    let x1: u64 = if fx == 0 {
        x0
    } else {
        x0 + 1
    };
    let x1c: u32 = if x1 > (src - 1) as u64 {
        src - 1
    } else {
        x1 as u32
    };
    (x0 as u32, fx, x1c)
}

fn bilinear_sample_exec(src: &[u8], sw: u32, sh: u32, dw: u32, dh: u32, x: u32, y: u32, c: usize) -> (r: u8)
    requires
        src@.len() == sw * sh * 4,
        sw * sh * 4 <= usize::MAX,
        sw > 0,
        sh > 0,
        x < dw,
        y < dh,
        c < 4,
    ensures
        r == bilinear_sample(src@, sw as int, sh as int, dw as int, dh as int, x as int, y as int, c as int),
{
    let (x0, fx, x1) = bilinear_coords(x, dw, sw);
    let (y0, fy, y1) = bilinear_coords(y, dh, sh);
    let s00: u128 = src[src_index(sw, sh, x0, y0, c)] as u128;
    let s10: u128 = src[src_index(sw, sh, x1, y0, c)] as u128;
    let s01: u128 = src[src_index(sw, sh, x0, y1, c)] as u128;
    let s11: u128 = src[src_index(sw, sh, x1, y1, c)] as u128;
    let dwl: u128 = dw as u128;
    let dhl: u128 = dh as u128;
    let fxl: u128 = fx as u128;
    let fyl: u128 = fy as u128;
    assert(dwl * dhl <= 0x1_0000_0000_0000_0000) by (nonlinear_arith)
        requires
            dwl <= u32::MAX,
            dhl <= u32::MAX,
    ;
    assert((dwl - fxl) * (dhl - fyl) <= dwl * dhl && fxl * (dhl - fyl) <= dwl * dhl && (dwl - fxl) * fyl <= dwl * dhl
        && fxl * fyl <= dwl * dhl) by (nonlinear_arith)
        requires
            fxl < dwl,
            fyl < dhl,
    ;
    proof {
        lemma_bilinear_bound(s00 as int, s10 as int, s01 as int, s11 as int, dw as int, dh as int, fx as int, fy as int);
    }
    let num: u128 = s00 * ((dwl - fxl) * (dhl - fyl)) + s10 * (fxl * (dhl - fyl)) + s01 * ((dwl - fxl) * fyl) + s11 * (
    fxl * fyl);
    assert(2 * dwl * dhl > 0 && 2 * dwl * dhl == 2 * (dwl * dhl)) by (nonlinear_arith)
        requires
            dwl > 0,
            dhl > 0,
    ;
    let v: u128 = (2 * num + dwl * dhl) / (2 * dwl * dhl);
    v as u8
}

/// `|a * k| <= bound * kk` where `|a| <= bound` and `0 <= k <= kk`.
proof fn lemma_abs_mul_le(a: int, k: int, bound: int, kk: int)
    requires
        -bound <= a <= bound,
        0 <= k <= kk,
    ensures
        -(bound * kk) <= a * k <= bound * kk,
{
    assert(-(bound * kk) <= a * k <= bound * kk) by (nonlinear_arith)
        requires
            -bound <= a <= bound,
            0 <= k <= kk,
    ;
}

/// The scaled cubic of four values of magnitude at most `m` has magnitude at
/// most `24 m tt^3`, and so has each of its terms.
pub proof fn lemma_hermite_bound(v0: int, v1: int, v2: int, v3: int, t: int, tt: int, m: int)
    requires
        -m <= v0 <= m,
        -m <= v1 <= m,
        -m <= v2 <= m,
        -m <= v3 <= m,
        0 <= t < tt,
    ensures
        -(8 * m * (tt * tt * tt)) <= (-v0 + 3 * v1 - 3 * v2 + v3) * (t * t * t) <= 8 * m * (tt * tt * tt),
        -(12 * m * (tt * tt * tt)) <= (2 * v0 - 5 * v1 + 4 * v2 - v3) * (t * t * tt) <= 12 * m * (tt * tt * tt),
        -(2 * m * (tt * tt * tt)) <= (v2 - v0) * (t * tt * tt) <= 2 * m * (tt * tt * tt),
        -(2 * m * (tt * tt * tt)) <= (2 * v1) * (tt * tt * tt) <= 2 * m * (tt * tt * tt),
        -(24 * m * (tt * tt * tt)) <= hermite_scaled(v0, v1, v2, v3, t, tt) <= 24 * m * (tt * tt * tt),
{
    let t3 = tt * tt * tt;
    assert(0 <= t * t * t <= t3 && 0 <= t * t * tt <= t3 && 0 <= t * tt * tt <= t3) by (nonlinear_arith)
        requires
            0 <= t < tt,
            t3 == tt * tt * tt,
    ;
    lemma_abs_mul_le(-v0 + 3 * v1 - 3 * v2 + v3, t * t * t, 8 * m, t3);
    lemma_abs_mul_le(2 * v0 - 5 * v1 + 4 * v2 - v3, t * t * tt, 12 * m, t3);
    lemma_abs_mul_le(v2 - v0, t * tt * tt, 2 * m, t3);
    lemma_abs_mul_le(2 * v1, t3, 2 * m, t3);
    assert(8 * m * t3 == 8 * (m * t3) && 12 * m * t3 == 12 * (m * t3) && 2 * m * t3 == 2 * (m * t3) && 24 * m * t3
        == 24 * (m * t3)) by (nonlinear_arith);
}

/// Evaluates `hermite_scaled` for values of magnitude at most `m`.
fn cubic_hermite(v0: i128, v1: i128, v2: i128, v3: i128, t: i128, tt: i128, Ghost(m): Ghost<int>) -> (r: i128)
    requires
        -m <= v0 <= m,
        -m <= v1 <= m,
        -m <= v2 <= m,
        -m <= v3 <= m,
        0 <= t < tt,
        1 <= m,
        24 * m * (tt * tt * tt) <= 0x4000_0000_0000_0000_0000_0000_0000_0000,
    ensures
        r == hermite_scaled(v0 as int, v1 as int, v2 as int, v3 as int, t as int, tt as int),
{
    proof {
        lemma_hermite_bound(v0 as int, v1 as int, v2 as int, v3 as int, t as int, tt as int, m);
        assert(0 <= t * t <= tt * tt <= tt * tt * tt && t * t * t <= tt * tt * tt && t * t * tt <= tt * tt * tt
            && t * tt <= tt * tt && t * tt * tt <= tt * tt * tt && tt * tt * tt <= 24 * m * (tt * tt * tt) && 24 * m
            <= 24 * m * (tt * tt * tt))
            by (nonlinear_arith)
            requires
                0 <= t < tt,
                1 <= m,
        ;
    }
    let a: i128 = -v0 + 3 * v1 - 3 * v2 + v3;
    let b: i128 = 2 * v0 - 5 * v1 + 4 * v2 - v3;
    let c: i128 = v2 - v0;
    let d: i128 = 2 * v1;
    let t3: i128 = t * t * t;
    let t2u: i128 = t * t * tt;
    let tu2: i128 = t * tt * tt;
    let u3: i128 = tt * tt * tt;
    assert(24 * m * (tt * tt * tt) == 24 * (m * (tt * tt * tt)) && 8 * m * (tt * tt * tt) == 8 * (m * (tt * tt * tt))
        && 12 * m * (tt * tt * tt) == 12 * (m * (tt * tt * tt)) && 2 * m * (tt * tt * tt) == 2 * (m * (tt * tt * tt)))
        by (nonlinear_arith);
    a * t3 + b * t2u + c * tu2 + d * u3
}

/// Floor and fractional numerator of `n / d`, for `n > -d`.
fn floor_div_mod(n: i128, d: i128) -> (r: (i128, i128))
    requires
        d > 0,
        n > -d,
    ensures
        r.0 == n as int / d as int,
        r.1 == n as int % d as int,
        r.0 >= -1,
        0 <= r.1 < d,
{
    if n >= 0 {
        (n / d, n % d)
    } else {
        proof {
            vstd::arithmetic::div_mod::lemma_fundamental_div_mod_converse(n as int, d as int, -1, n + d);
        }
        (-1, n + d)
    }
}

fn clamp_coord_exec(v: i128, n: u32) -> (r: u32)
    requires
        n > 0,
    ensures
        r == clamp_coord(v as int, n as int),
        r < n,
{
    if v < 0 {
        0
    } else if v >= n as i128 {
        n - 1
    } else {
        v as u32
    }
}

fn cubic_tap_exec(
    src: &[u8],
    sw: u32,
    sh: u32,
    xpos: i128,
    ypos: i128,
    i: i128,
    j: i128,
    c: usize,
) -> (r: i128)
    requires
        src@.len() == sw * sh * 4,
        sw * sh * 4 <= usize::MAX,
        sw > 0,
        sh > 0,
        -1 <= xpos <= u32::MAX,
        -1 <= ypos <= u32::MAX,
        0 <= i < 4,
        0 <= j < 4,
        c < 4,
    ensures
        r == cubic_tap(src@, sw as int, sh as int, xpos as int, ypos as int, i as int, j as int, c as int),
        0 <= r <= 255,
{
    let px = clamp_coord_exec(xpos - 1 + i, sw);
    let py = clamp_coord_exec(ypos - 1 + j, sh);
    src[src_index(sw, sh, px, py, c)] as i128
}

fn cubic_row_exec(
    src: &[u8],
    sw: u32,
    sh: u32,
    xpos: i128,
    ypos: i128,
    t: i128,
    tt: i128,
    j: i128,
    c: usize,
) -> (r: i128)
    requires
        src@.len() == sw * sh * 4,
        sw * sh * 4 <= usize::MAX,
        sw > 0,
        sh > 0,
        -1 <= xpos <= u32::MAX,
        -1 <= ypos <= u32::MAX,
        0 <= j < 4,
        c < 4,
        0 <= t < tt,
        tt <= 0x2_0000_0000,
    ensures
        r == cubic_row(src@, sw as int, sh as int, xpos as int, ypos as int, t as int, tt as int, j as int, c as int),
        -(6120 * (tt * tt * tt)) <= r <= 6120 * (tt * tt * tt),
{
    let v0 = cubic_tap_exec(src, sw, sh, xpos, ypos, 0, j, c);
    let v1 = cubic_tap_exec(src, sw, sh, xpos, ypos, 1, j, c);
    let v2 = cubic_tap_exec(src, sw, sh, xpos, ypos, 2, j, c);
    let v3 = cubic_tap_exec(src, sw, sh, xpos, ypos, 3, j, c);
    proof {
        lemma_hermite_bound(v0 as int, v1 as int, v2 as int, v3 as int, t as int, tt as int, 255);
        assert(24 * 255 * (tt * tt * tt) <= 0x4000_0000_0000_0000_0000_0000_0000_0000) by (nonlinear_arith)
            requires
                0 < tt <= 0x2_0000_0000,
        ;
    }
    cubic_hermite(v0, v1, v2, v3, t, tt, Ghost(255))
}

fn round_div_i128(n: i128, d: i128) -> (r: i128)
    requires
        0 < d < 0x4000_0000_0000_0000_0000_0000_0000_0000,
        -n + -n + d <= i128::MAX,
        n + n + d <= i128::MAX,
    ensures
        r == round_div(n as int, d as int),
{
    if n >= 0 {
        (2 * n + d) / (2 * d)
    } else {
        let m: i128 = 0 - n;
        let q: i128 = (2 * m + d) / (2 * d);
        0 - q
    }
}

fn clamp_i128(v: i128) -> (r: u8)
    ensures
        r == clamp_sample(v as int),
{
    if v < 0 {
        0
    } else if v > 255 {
        255
    } else {
        v as u8
    }
}

/// Source position of target coordinate `x` for bicubic interpolation.
fn bicubic_coords(x: u32, dst: u32, src: u32) -> (r: (i128, i128))
    requires
        x < dst,
        src > 0,
    ensures
        r.0 == (2 * x * src - dst) / (2 * dst as int),
        r.1 == (2 * x * src - dst) % (2 * dst as int),
        -1 <= r.0 < src,
        0 <= r.1 < 2 * dst,
{
    let tt: i128 = 2 * dst as i128;
    assert(2 * x * src <= 0x2_0000_0000_0000_0000) by (nonlinear_arith)
        requires
            x <= u32::MAX,
            src <= u32::MAX,
    ;
    let nx: i128 = 2 * x as i128 * src as i128 - dst as i128;
    let (pos, t) = floor_div_mod(nx, tt);
    assert(nx < tt * src) by (nonlinear_arith)
        requires
            nx == 2 * x * src - dst,
            tt == 2 * dst,
            x < dst,
            src > 0,
    ;
    proof {
        vstd::arithmetic::div_mod::lemma_fundamental_div_mod(nx as int, tt as int);
    }
    assert(pos < src) by (nonlinear_arith)
        requires
            nx == tt * pos + t,
            t >= 0,
            nx < tt * src,
            tt > 0,
    ;
    (pos, t)
}

fn bicubic_sample_exec(src: &[u8], sw: u32, sh: u32, dw: u32, dh: u32, x: u32, y: u32, c: usize) -> (r: u8)
    requires
        src@.len() == sw * sh * 4,
        sw * sh * 4 <= usize::MAX,
        sw > 0,
        sh > 0,
        x < dw,
        y < dh,
        c < 4,
        dw * dh <= 0x4_0000_0000,
    ensures
        r == bicubic_sample(src@, sw as int, sh as int, dw as int, dh as int, x as int, y as int, c as int),
{
    let tt: i128 = 2 * dw as i128;
    let uu: i128 = 2 * dh as i128;
    let (xpos, t) = bicubic_coords(x, dw, sw);
    let (ypos, u) = bicubic_coords(y, dh, sh);
    let r0 = cubic_row_exec(src, sw, sh, xpos, ypos, t, tt, 0, c);
    let r1 = cubic_row_exec(src, sw, sh, xpos, ypos, t, tt, 1, c);
    let r2 = cubic_row_exec(src, sw, sh, xpos, ypos, t, tt, 2, c);
    let r3 = cubic_row_exec(src, sw, sh, xpos, ypos, t, tt, 3, c);
    let ghost m: int = 6120 * (tt * tt * tt);
    let ghost k3: int = (tt * tt * tt) * (uu * uu * uu);
    proof {
        assert(0 < tt * uu <= 0x10_0000_0000) by (nonlinear_arith)
            requires
                tt == 2 * dw,
                uu == 2 * dh,
                dw * dh <= 0x4_0000_0000,
                dw > 0,
                dh > 0,
        ;
        let k = tt * uu;
        assert(k3 == k * k * k) by (nonlinear_arith)
            requires
                k == tt * uu,
                k3 == (tt * tt * tt) * (uu * uu * uu),
        ;
        assert(0 < k * k * k <= 0x1000_0000_0000_0000_0000_0000_0000) by (nonlinear_arith)
            requires
                0 < k <= 0x10_0000_0000,
        ;
        assert(24 * m * (uu * uu * uu) == 146880 * k3 && 1 <= m && tt * tt * tt >= 1) by (nonlinear_arith)
            requires
                m == 6120 * (tt * tt * tt),
                k3 == (tt * tt * tt) * (uu * uu * uu),
                tt >= 1,
        ;
        lemma_hermite_bound(r0 as int, r1 as int, r2 as int, r3 as int, u as int, uu as int, m);
        assert(24 * m * (uu * uu * uu) == 24 * (m * (uu * uu * uu))) by (nonlinear_arith);
        assert(4 * (tt * tt * tt) * (uu * uu * uu) == 4 * k3) by (nonlinear_arith)
            requires
                k3 == (tt * tt * tt) * (uu * uu * uu),
        ;
    }
    assert(0 < tt * tt <= 0x4_0000_0000_0000_0000 && 0 < tt * tt * tt <= 0x8_0000_0000_0000_0000_0000_0000 && 0 < uu
        * uu <= 0x4_0000_0000_0000_0000 && 0 < uu * uu * uu <= 0x8_0000_0000_0000_0000_0000_0000) by (nonlinear_arith)
        requires
            0 < tt <= 0x2_0000_0000,
            0 < uu <= 0x2_0000_0000,
    ;
    assert(4 * (tt * tt * tt) * (uu * uu * uu) == 4 * k3) by (nonlinear_arith)
        requires
            k3 == (tt * tt * tt) * (uu * uu * uu),
    ;
    let q = cubic_hermite(r0, r1, r2, r3, u, uu, Ghost(m));
    let den: i128 = 4 * (tt * tt * tt) * (uu * uu * uu);
    clamp_i128(round_div_i128(q, den))
}

/// Resamples with the chosen interpolation, one output sample at a time.
fn resample(img_vec: &[u8], sw: u32, sh: u32, dw: u32, dh: u32, algo: ResizeAlgo) -> (r: Vec<u8>)
    requires
        valid_resize(img_vec@.len() as int, sw, sh, dw, dh),
        algo == ResizeAlgo::Bicubic ==> dw * dh <= 0x4_0000_0000,
    ensures
        r@ == resized_image(algo, img_vec@, sw, sh, dw, dh),
{
    let src_len: usize = img_vec.len();
    assert(dw * dh <= dw * dh * 4) by (nonlinear_arith);
    let n: usize = dw as usize * dh as usize * 4;
    let dwu: usize = dw as usize;
    let ghost target = resized_image(algo, img_vec@, sw, sh, dw, dh);
    let mut out: Vec<u8> = Vec::with_capacity(n);
    let mut i: usize = 0;
    while i < n
        invariant
            valid_resize(img_vec@.len() as int, sw, sh, dw, dh),
            algo == ResizeAlgo::Bicubic ==> dw * dh <= 0x4_0000_0000,
            src_len == img_vec@.len(),
            n == dw * dh * 4,
            dwu == dw,
            target == resized_image(algo, img_vec@, sw, sh, dw, dh),
            i <= n,
            out@ == target.subrange(0, i as int),
        decreases n - i,
    {
        let p: usize = i / 4;
        let c: usize = i % 4;
        let x: usize = p % dwu;
        let y: usize = p / dwu;
        assert(y < dh) by (nonlinear_arith)
            requires
                p == i as int / 4,
                y == p as int / dw as int,
                i < dw * dh * 4,
                dw > 0,
        ;
        let v: u8 = match algo {
            ResizeAlgo::NearestNeighbour => nearest_sample_exec(img_vec, sw, sh, dw, dh, x as u32, y as u32, c),
            ResizeAlgo::Bilinear => bilinear_sample_exec(img_vec, sw, sh, dw, dh, x as u32, y as u32, c),
            ResizeAlgo::Bicubic => bicubic_sample_exec(img_vec, sw, sh, dw, dh, x as u32, y as u32, c),
        };
        out.push(v);
        i += 1;
        assert(out@ =~= target.subrange(0, i as int));
    }
    assert(out@ =~= target);
    out
}

/// Resamples an RGBA image of `img_width` by `img_height` pixels to
/// `new_width` by `new_height` with the chosen interpolation.
pub fn create_resized_image(
    img_vec: &[u8],
    img_width: u32,
    img_height: u32,
    new_width: u32,
    new_height: u32,
    algo: ResizeAlgo,
) -> (r: Vec<u8>)
    requires
        valid_resize(img_vec@.len() as int, img_width, img_height, new_width, new_height),
        algo == ResizeAlgo::Bicubic ==> new_width * new_height <= 0x4_0000_0000,
    ensures
        r@ == resized_image(algo, img_vec@, img_width, img_height, new_width, new_height),
{
    resample(img_vec, img_width, img_height, new_width, new_height, algo)
}

/// Nearest-neighbour resampling: each target pixel copies the source pixel
/// nearest to its scaled position.
pub fn scaling_nearest_neighbour(
    img_vec: &[u8],
    img_width: u32,
    img_height: u32,
    new_width: u32,
    new_height: u32,
) -> (r: Vec<u8>)
    requires
        valid_resize(img_vec@.len() as int, img_width, img_height, new_width, new_height),
    ensures
        r@ == resized_image(ResizeAlgo::NearestNeighbour, img_vec@, img_width, img_height, new_width, new_height),
{
    resample(img_vec, img_width, img_height, new_width, new_height, ResizeAlgo::NearestNeighbour)
}

/// Bilinear resampling: each target sample is the weighted mean of the four
/// source pixels around its scaled position.
pub fn scaling_bilinear(img_vec: &[u8], img_width: u32, img_height: u32, new_width: u32, new_height: u32) -> (r: Vec<
    u8,
>)
    requires
        valid_resize(img_vec@.len() as int, img_width, img_height, new_width, new_height),
    ensures
        r@ == resized_image(ResizeAlgo::Bilinear, img_vec@, img_width, img_height, new_width, new_height),
{
    resample(img_vec, img_width, img_height, new_width, new_height, ResizeAlgo::Bilinear)
}

/// Bicubic resampling: Catmull-Rom interpolation over the four-by-four source
/// pixels around each scaled position. The bound on the target's area keeps
/// the exact arithmetic within 128 bits.
pub fn scaling_bicubic(img_vec: &[u8], img_width: u32, img_height: u32, new_width: u32, new_height: u32) -> (r: Vec<
    u8,
>)
    requires
        valid_resize(img_vec@.len() as int, img_width, img_height, new_width, new_height),
        new_width * new_height <= 0x4_0000_0000,
    ensures
        r@ == resized_image(ResizeAlgo::Bicubic, img_vec@, img_width, img_height, new_width, new_height),
{
    resample(img_vec, img_width, img_height, new_width, new_height, ResizeAlgo::Bicubic)
}

pub proof fn lemma_nearest_coord_same_size(x: int, n: int)
    requires
        0 <= x < n,
    ensures
        nearest_coord(x, n, n) == x,
{
    assert(2 * x * n + n == x * (2 * n) + n) by (nonlinear_arith);
    vstd::arithmetic::div_mod::lemma_fundamental_div_mod_converse(2 * x * n + n, 2 * n, x, n);
}

/// Nearest-neighbour resampling to the source's own size gives back the
/// source, pixel for pixel.
pub proof fn lemma_nearest_same_size_is_identity(src: Seq<u8>, width: u32, height: u32)
    requires
        valid_resize(src.len() as int, width, height, width, height),
    ensures
        resized_image(ResizeAlgo::NearestNeighbour, src, width, height, width, height) == src,
{
    let w = width as int;
    let h = height as int;
    let out = resized_image(ResizeAlgo::NearestNeighbour, src, width, height, width, height);
    assert forall|i: int| 0 <= i < src.len() implies #[trigger] out[i] == src[i] by {
        let p = i / 4;
        let c = i % 4;
        vstd::arithmetic::div_mod::lemma_fundamental_div_mod(i, 4);
        vstd::arithmetic::div_mod::lemma_fundamental_div_mod(p, w);
        let x = p % w;
        let y = p / w;
        assert(0 <= y < h) by (nonlinear_arith)
            requires
                p == i / 4,
                y == p / w,
                0 <= i < w * h * 4,
                w > 0,
        ;
        lemma_nearest_coord_same_size(x, w);
        lemma_nearest_coord_same_size(y, h);
        assert((y * w + x) * 4 + c == i) by (nonlinear_arith)
            requires
                i == 4 * p + c,
                p == w * y + x,
        ;
    }
    assert(out =~= src);
}

} // verus!
