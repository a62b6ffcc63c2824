//! Error-diffusion dithering of a greyscale buffer to black and white.
use vstd::prelude::*;

use crate::layout::{channels_of, first_channel, lemma_index_in_range, lemma_layout, lemma_pixel_index, valid_buffer};

verus! {

/// The diffusion matrix used to spread each pixel's quantisation error, or
/// none at all.
#[derive(Debug, Clone, Copy, PartialEq, Eq, Structural)]
pub enum Dithering {
    Atkinson,
    Burkes,
    FloydSteinberg,
    Jjn,
    NoDither,
    Sierra,
    SierraLite,
    Stucki,
    TwoRowSierra,
}

/// The taps of each matrix: `(dx, dy, weight)`, relative to the current pixel.
pub open spec fn diffusion_taps(d: Dithering) -> Seq<(i32, i32, i32)> {
    match d {
        Dithering::Atkinson => seq![
            (1i32, 0i32, 1i32), (2i32, 0i32, 1i32), (-1i32, 1i32, 1i32), (0i32, 1i32, 1i32), (1i32, 1i32, 1i32), (0i32, 2i32, 1i32),
        ],
        Dithering::Burkes => seq![
            (1i32, 0i32, 8i32), (2i32, 0i32, 4i32), (-2i32, 1i32, 2i32), (-1i32, 1i32, 4i32), (0i32, 1i32, 8i32), (1i32, 1i32, 4i32), (2i32, 1i32, 2i32),
        ],
        Dithering::FloydSteinberg => seq![(1i32, 0i32, 7i32), (-1i32, 1i32, 3i32), (0i32, 1i32, 5i32), (1i32, 1i32, 1i32)],
        Dithering::Jjn => seq![
            (1i32, 0i32, 7i32), (2i32, 0i32, 5i32), (-2i32, 1i32, 3i32), (-1i32, 1i32, 5i32), (0i32, 1i32, 7i32), (1i32, 1i32, 5i32),
            (2i32, 1i32, 3i32), (-2i32, 2i32, 1i32), (-1i32, 2i32, 3i32), (0i32, 2i32, 5i32), (1i32, 2i32, 3i32), (2i32, 2i32, 1i32),
        ],
        Dithering::NoDither => seq![],
        Dithering::Sierra => seq![
            (1i32, 0i32, 5i32), (2i32, 0i32, 3i32), (-2i32, 1i32, 2i32), (-1i32, 1i32, 4i32), (0i32, 1i32, 5i32), (1i32, 1i32, 4i32),
            (2i32, 1i32, 2i32), (-1i32, 2i32, 2i32), (0i32, 2i32, 3i32), (1i32, 2i32, 2i32),
        ],
        Dithering::SierraLite => seq![(1i32, 0i32, 2i32), (-1i32, 1i32, 1i32), (0i32, 1i32, 1i32)],
        Dithering::Stucki => seq![
            (1i32, 0i32, 8i32), (2i32, 0i32, 4i32), (-2i32, 1i32, 2i32), (-1i32, 1i32, 4i32), (0i32, 1i32, 8i32), (1i32, 1i32, 4i32),
            (2i32, 1i32, 2i32), (-2i32, 2i32, 1i32), (-1i32, 2i32, 2i32), (0i32, 2i32, 4i32), (1i32, 2i32, 2i32), (2i32, 2i32, 1i32),
        ],
        Dithering::TwoRowSierra => seq![
            (1i32, 0i32, 4i32), (2i32, 0i32, 3i32), (-2i32, 1i32, 1i32), (-1i32, 1i32, 2i32), (0i32, 1i32, 3i32), (1i32, 1i32, 2i32), (2i32, 1i32, 1i32),
        ],
    }
}

/// The divisor that normalises each matrix's weights.
pub open spec fn diffusion_divisor(d: Dithering) -> int {
    match d {
        Dithering::Atkinson => 8,
        Dithering::Burkes => 32,
        Dithering::FloydSteinberg => 16,
        Dithering::Jjn => 48,
        Dithering::NoDither => 1,
        Dithering::Sierra => 32,
        Dithering::SierraLite => 4,
        Dithering::Stucki => 42,
        Dithering::TwoRowSierra => 16,
    }
}

/// Every tap points forward in raster order, one or two pixels away, with a
/// weight from 1 to 8.
pub open spec fn well_formed_taps(d: Dithering) -> bool {
    forall|j: int|
        0 <= j < diffusion_taps(d).len() ==> {
            let t = #[trigger] diffusion_taps(d)[j];
            &&& -2 <= t.0 <= 2
            &&& 0 <= t.1 <= 2
            &&& (t.1 > 0 || t.0 > 0)
            &&& 1 <= t.2 <= 8
        }
}

pub proof fn lemma_taps_well_formed(d: Dithering)
    ensures
        well_formed_taps(d),
        1 <= diffusion_divisor(d) <= 48,
{
}

fn taps_of(d: Dithering) -> (r: Vec<(i32, i32, i32)>)
    ensures
        r@ == diffusion_taps(d),
{
    let v: Vec<(i32, i32, i32)> = match d {
        Dithering::Atkinson => vec![(1, 0, 1), (2, 0, 1), (-1, 1, 1), (0, 1, 1), (1, 1, 1), (0, 2, 1)],
        Dithering::Burkes => vec![(1, 0, 8), (2, 0, 4), (-2, 1, 2), (-1, 1, 4), (0, 1, 8), (1, 1, 4), (2, 1, 2)],
        Dithering::FloydSteinberg => vec![(1, 0, 7), (-1, 1, 3), (0, 1, 5), (1, 1, 1)],
        Dithering::Jjn => vec![
            (1, 0, 7), (2, 0, 5), (-2, 1, 3), (-1, 1, 5), (0, 1, 7), (1, 1, 5),
            (2, 1, 3), (-2, 2, 1), (-1, 2, 3), (0, 2, 5), (1, 2, 3), (2, 2, 1),
        ],
        Dithering::NoDither => Vec::new(),
        Dithering::Sierra => vec![
            (1, 0, 5), (2, 0, 3), (-2, 1, 2), (-1, 1, 4), (0, 1, 5), (1, 1, 4),
            (2, 1, 2), (-1, 2, 2), (0, 2, 3), (1, 2, 2),
        ],
        Dithering::SierraLite => vec![(1, 0, 2), (-1, 1, 1), (0, 1, 1)],
        Dithering::Stucki => vec![
            (1, 0, 8), (2, 0, 4), (-2, 1, 2), (-1, 1, 4), (0, 1, 8), (1, 1, 4),
            (2, 1, 2), (-2, 2, 1), (-1, 2, 2), (0, 2, 4), (1, 2, 2), (2, 2, 1),
        ],
        Dithering::TwoRowSierra => vec![(1, 0, 4), (2, 0, 3), (-2, 1, 1), (-1, 1, 2), (0, 1, 3), (1, 1, 2), (2, 1, 1)],
    };
    assert(v@ =~= diffusion_taps(d));
    v
}

fn divisor_of(d: Dithering) -> (r: i32)
    ensures
        r == diffusion_divisor(d),
{
    match d {
        Dithering::Atkinson => 8,
        Dithering::Burkes => 32,
        Dithering::FloydSteinberg => 16,
        Dithering::Jjn => 48,
        Dithering::NoDither => 1,
        Dithering::Sierra => 32,
        Dithering::SierraLite => 4,
        Dithering::Stucki => 42,
        Dithering::TwoRowSierra => 16,
    }
}

/// `n / d` rounded to the nearest integer, halves away from zero.
pub open spec fn round_div(n: int, d: int) -> int {
    if n >= 0 {
        (2 * n + d) / (2 * d)
    } else {
        -((-2 * n + d) / (2 * d))
    }
}

/// `v` held to the range of a sample.
pub open spec fn clamp_sample(v: int) -> u8 {
    if v < 0 {
        0
    } else if v > 255 {
        255
    } else {
        v as u8
    }
}

/// Black under the threshold, white from it on.
pub open spec fn quantize(v: u8, threshold: u8) -> u8 {
    if v < threshold {
        0
    } else {
        255
    }
}

/// Adds the share of `err` that tap `t` carries to the neighbour it points at
/// from pixel `p`, if that neighbour lies inside the image.
pub open spec fn diffuse_tap(s: Seq<u8>, w: int, h: int, p: int, err: int, t: (i32, i32, i32), div: int) -> Seq<u8> {
    let x = p % w + t.0;
    let y = p / w + t.1;
    if 0 <= x < w && 0 <= y < h {
        let i = y * w + x;
        s.update(i, clamp_sample(s[i] + round_div(err * t.2, div)))
    } else {
        s
    }
}

/// The first `j` taps of the matrix applied in order.
pub open spec fn diffuse_taps(s: Seq<u8>, w: int, h: int, p: int, err: int, d: Dithering, j: int) -> Seq<u8>
    decreases j,
{
    if j <= 0 {
        s
    } else {
        diffuse_tap(
            diffuse_taps(s, w, h, p, err, d, j - 1),
            w,
            h,
            p,
            err,
            diffusion_taps(d)[j - 1],
            diffusion_divisor(d),
        )
    }
}

/// Quantises pixel `p` and spreads its error over its neighbours.
pub open spec fn dither_step(s: Seq<u8>, w: int, h: int, threshold: u8, d: Dithering, p: int) -> Seq<u8> {
    let q = quantize(s[p], threshold);
    diffuse_taps(s.update(p, q), w, h, p, s[p] - q, d, diffusion_taps(d).len() as int)
}

/// The working samples after the first `k` pixels, in raster order, have been
/// processed.
pub open spec fn dither_state(s0: Seq<u8>, w: int, h: int, threshold: u8, d: Dithering, k: nat) -> Seq<u8>
    decreases k,
{
    if k == 0 {
        s0
    } else {
        dither_step(dither_state(s0, w, h, threshold, d, (k - 1) as nat), w, h, threshold, d, k - 1)
    }
}

/// The black-and-white value of each pixel once the whole image is dithered.
pub open spec fn dithered_samples(img: Seq<u8>, width: u32, height: u32, threshold: u8, d: Dithering) -> Seq<u8> {
    let c = channels_of(img.len() as int, width, height);
    let n = width * height;
    dither_state(first_channel(img, c, n), width as int, height as int, threshold, d, n as nat)
}

/// The dithered image: empty without a matrix; else each pixel's dithered
/// value in every channel but the fourth (alpha), which is kept.
pub open spec fn dither_image(img: Seq<u8>, width: u32, height: u32, threshold: u8, d: Dithering) -> Seq<u8> {
    if d == Dithering::NoDither {
        Seq::empty()
    } else {
        let c = channels_of(img.len() as int, width, height);
        let fin = dithered_samples(img, width, height, threshold, d);
        Seq::new(img.len(), |i: int| if i % c == 3 { img[i] } else { fin[i / c] })
    }
}

pub proof fn lemma_diffuse_taps_len(s: Seq<u8>, w: int, h: int, p: int, err: int, d: Dithering, j: int)
    requires
        w > 0,
        h > 0,
        s.len() == w * h,
        0 <= p < w * h,
        0 <= j <= diffusion_taps(d).len(),
    ensures
        diffuse_taps(s, w, h, p, err, d, j).len() == s.len(),
    decreases j,
{
    if j > 0 {
        lemma_diffuse_taps_len(s, w, h, p, err, d, j - 1);
        let t = diffusion_taps(d)[j - 1];
        let x = p % w + t.0;
        let y = p / w + t.1;
        if 0 <= x < w && 0 <= y < h {
            lemma_index_in_range(y, x, w, h);
            assert(h * w == w * h) by (nonlinear_arith);
        }
    }
}

pub proof fn lemma_dither_state_len(s0: Seq<u8>, w: int, h: int, threshold: u8, d: Dithering, k: nat)
    requires
        w > 0,
        h > 0,
        s0.len() == w * h,
        k <= w * h,
    ensures
        dither_state(s0, w, h, threshold, d, k).len() == s0.len(),
    decreases k,
{
    if k > 0 {
        lemma_dither_state_len(s0, w, h, threshold, d, (k - 1) as nat);
        let s = dither_state(s0, w, h, threshold, d, (k - 1) as nat);
        let q = quantize(s[k - 1], threshold);
        lemma_diffuse_taps_len(s.update(k - 1, q), w, h, k - 1, s[k - 1] - q, d, diffusion_taps(d).len() as int);
    }
}

fn round_div_i32(n: i32, d: i32) -> (r: i32)
    requires
        1 <= d <= 48,
        -4096 <= n <= 4096,
    ensures
        r == round_div(n as int, d as int),
{
    if n >= 0 {
        (2 * n + d) / (2 * d)
    } else {
        let m: i32 = 0 - n;
        let q: i32 = (2 * m + d) / (2 * d);
        0 - q
    }
}

/// Whether `(x, y)` lies inside an image of `width` by `height` pixels.
fn is_in_bound(x: i64, y: i64, width: i64, height: i64) -> (r: bool)
    ensures
        r == (0 <= x < width && 0 <= y < height),
{
    x >= 0 && x < width && y >= 0 && y < height
}

/// A neighbour's sample once it has received `weight / divisor` of the error
/// `err`, rounded and held to the range of a sample.
fn clamp_dither_value(input: u8, err: i32, weight: i32, divisor: i32) -> (r: u8)
    requires
        1 <= divisor <= 48,
        -255 <= err <= 255,
        1 <= weight <= 8,
    ensures
        r == clamp_sample(input + round_div(err * weight, divisor as int)),
{
    assert(-2040 <= err * weight <= 2040) by (nonlinear_arith)
        requires
            -255 <= err <= 255,
            1 <= weight <= 8,
    ;
    let v: i32 = input as i32 + round_div_i32(err * weight, divisor);
    if v < 0 {
        0
    } else if v > 255 {
        255
    } else {
        v as u8
    }
}

/// Dithers the image to black and white by error diffusion over its first
/// channel, in raster order. Without a matrix the result is empty.
pub fn create_dither_image(
    img_vec: &[u8],
    width: u32,
    height: u32,
    threshold: u8,
    dither_type: Dithering,
) -> (r: Vec<u8>)
    requires
        valid_buffer(img_vec@.len() as int, width, height),
    ensures
        r@ == dither_image(img_vec@, width, height, threshold, dither_type),
{
    if dither_type == Dithering::NoDither {
        return Vec::new();
    }
    let total: usize = img_vec.len();
    let ghost len = total as int;
    proof {
        lemma_layout(len, width, height);
        lemma_taps_well_formed(dither_type);
    }
    let wh: usize = width as usize * height as usize;
    let channels: usize = total / wh;
    let ghost c = channels as int;
    let ghost w = width as int;
    let ghost h = height as int;
    let ghost s0 = first_channel(img_vec@, c, wh as int);

    let mut work: Vec<u8> = Vec::with_capacity(wh);
    let mut p: usize = 0;
    while p < wh
        invariant
            wh == width * height,
            len == total,
            len == img_vec@.len(),
            len == wh * c,
            c == channels,
            c >= 1,
            s0 == first_channel(img_vec@, c, wh as int),
            p <= wh,
            work@ == s0.subrange(0, p as int),
        decreases wh - p,
    {
        proof {
            lemma_index_in_range(p as int, 0, c, wh as int);
        }
        work.push(img_vec[p * channels]);
        p += 1;
        assert(work@ =~= s0.subrange(0, p as int));
    }
    assert(work@ =~= s0);

    let taps = taps_of(dither_type);
    let divisor = divisor_of(dither_type);
    let wu: usize = width as usize;
    let mut p: usize = 0;
    while p < wh
        invariant
            wh == width * height,
            w == width,
            h == height,
            wu == width,
            w > 0,
            taps@ == diffusion_taps(dither_type),
            divisor == diffusion_divisor(dither_type),
            well_formed_taps(dither_type),
            1 <= divisor <= 48,
            p <= wh,
            s0.len() == wh,
            h > 0,
            work@ == dither_state(s0, w, h, threshold, dither_type, p as nat),
        decreases wh - p,
    {
        let ghost before = work@;
        let xu: usize = p % wu;
        let yu: usize = p / wu;
        assert(yu < h) by (nonlinear_arith)
            requires
                yu == p as int / w,
                p < w * h,
                w > 0,
        ;
        let x: i64 = xu as i64;
        let y: i64 = yu as i64;
        proof {
            lemma_dither_state_len(s0, w, h, threshold, dither_type, p as nat);
        }
        let sample: u8 = work[p];
        let q: u8 = if sample < threshold { 0 } else { 255 };
        let err: i32 = sample as i32 - q as i32;
        work.set(p, q);
        let ghost base = work@;
        let mut j: usize = 0;
        while j < taps.len()
            invariant
                wh == width * height,
                w == width,
                h == height,
                w > 0,
                taps@ == diffusion_taps(dither_type),
                divisor == diffusion_divisor(dither_type),
                well_formed_taps(dither_type),
                1 <= divisor <= 48,
                -255 <= err <= 255,
                wu == width,
                p < wh,
                x == p as int % w,
                y == p as int / w,
                0 <= x < w,
                0 <= y < h,
                j <= taps@.len(),
                work@.len() == wh,
                work@ == diffuse_taps(base, w, h, p as int, err as int, dither_type, j as int),
            decreases taps@.len() - j,
        {
            let (dx, dy, weight) = taps[j];
            assert(diffusion_taps(dither_type)[j as int] == (dx, dy, weight));
            let nx: i64 = x + dx as i64;
            let ny: i64 = y + dy as i64;
            if is_in_bound(nx, ny, width as i64, height as i64) {
                proof {
                    lemma_index_in_range(ny as int, nx as int, w, h);
                    assert(h * w == w * h) by (nonlinear_arith);
                }
                let i: usize = ny as usize * wu + nx as usize;
                let v: u8 = clamp_dither_value(work[i], err, weight, divisor);
                work.set(i, v);
            }
            j += 1;
        }
        p += 1;
    }

    proof {
        lemma_dither_state_len(s0, w, h, threshold, dither_type, wh as nat);
    }
    let mut d_vec: Vec<u8> = Vec::with_capacity(total);
    let ghost fin = work@;
    let ghost spec_out = dither_image(img_vec@, width, height, threshold, dither_type);
    assert(fin == dithered_samples(img_vec@, width, height, threshold, dither_type));
    let mut i: usize = 0;
    while i < total
        invariant
            len == total,
            len == img_vec@.len(),
            len == wh * c,
            c == channels,
            c >= 1,
            work@ == fin,
            fin.len() == wh,
            spec_out == dither_image(img_vec@, width, height, threshold, dither_type),
            dither_type != Dithering::NoDither,
            fin == dithered_samples(img_vec@, width, height, threshold, dither_type),
            c == channels_of(img_vec@.len() as int, width, height),
            i <= total,
            d_vec@ == spec_out.subrange(0, i as int),
        decreases total - i,
    {
        let pix: usize = i / channels;
        assert(pix < wh) by (nonlinear_arith)
            requires
                pix == i as int / c,
                i < wh * c,
                c >= 1,
        ;
        if i % channels == 3 {
            d_vec.push(img_vec[i]);
        } else {
            d_vec.push(work[pix]);
        }
        i += 1;
        assert(d_vec@ =~= spec_out.subrange(0, i as int));
    }
    assert(d_vec@ =~= spec_out);
    d_vec
}

/// No tap reaches back to the current pixel or to one before it.
pub proof fn lemma_diffuse_taps_forward(s: Seq<u8>, w: int, h: int, p: int, err: int, d: Dithering, j: int)
    requires
        w > 0,
        h > 0,
        s.len() == w * h,
        0 <= p < w * h,
        0 <= j <= diffusion_taps(d).len(),
        well_formed_taps(d),
    ensures
        diffuse_taps(s, w, h, p, err, d, j).len() == s.len(),
        forall|i: int| 0 <= i <= p ==> #[trigger] diffuse_taps(s, w, h, p, err, d, j)[i] == s[i],
    decreases j,
{
    lemma_diffuse_taps_len(s, w, h, p, err, d, j);
    if j > 0 {
        lemma_diffuse_taps_forward(s, w, h, p, err, d, j - 1);
        let t = diffusion_taps(d)[j - 1];
        let x = p % w + t.0;
        let y = p / w + t.1;
        if 0 <= x < w && 0 <= y < h {
            vstd::arithmetic::div_mod::lemma_fundamental_div_mod(p, w);
            let t0 = t.0 as int;
            let t1 = t.1 as int;
            assert(y * w + x > p) by (nonlinear_arith)
                requires
                    p == w * (p / w) + p % w,
                    0 <= p % w,
                    x == p % w + t0,
                    y == p / w + t1,
                    x >= 0,
                    x < w,
                    t1 >= 0,
                    t1 > 0 || t0 > 0,
            ;
            lemma_index_in_range(y, x, w, h);
            assert(h * w == w * h) by (nonlinear_arith);
        }
    }
}

/// Every pixel already processed holds black or white.
pub proof fn lemma_dither_state_bilevel(s0: Seq<u8>, w: int, h: int, threshold: u8, d: Dithering, k: nat)
    requires
        w > 0,
        h > 0,
        s0.len() == w * h,
        k <= w * h,
        well_formed_taps(d),
    ensures
        dither_state(s0, w, h, threshold, d, k).len() == s0.len(),
        forall|i: int|
            0 <= i < k ==> #[trigger] dither_state(s0, w, h, threshold, d, k)[i] == 0 || dither_state(
                s0,
                w,
                h,
                threshold,
                d,
                k,
            )[i] == 255,
    decreases k,
{
    lemma_dither_state_len(s0, w, h, threshold, d, k);
    if k > 0 {
        lemma_dither_state_bilevel(s0, w, h, threshold, d, (k - 1) as nat);
        let s = dither_state(s0, w, h, threshold, d, (k - 1) as nat);
        let q = quantize(s[k - 1], threshold);
        lemma_diffuse_taps_forward(s.update(k - 1, q), w, h, k - 1, s[k - 1] - q, d, diffusion_taps(d).len() as int);
    }
}

/// Once dithered, every sample but alpha is black (0) or white (255).
pub proof fn lemma_dither_is_bilevel(img: Seq<u8>, width: u32, height: u32, threshold: u8, d: Dithering)
    requires
        valid_buffer(img.len() as int, width, height),
        d != Dithering::NoDither,
    ensures
        dither_image(img, width, height, threshold, d).len() == img.len(),
        forall|i: int|
            0 <= i < img.len() && i % channels_of(img.len() as int, width, height) != 3 ==> (
            #[trigger] dither_image(img, width, height, threshold, d)[i] == 0 || dither_image(
                img,
                width,
                height,
                threshold,
                d,
            )[i] == 255),
{
    let len = img.len() as int;
    let c = channels_of(len, width, height);
    let n = width * height;
    lemma_layout(len, width, height);
    lemma_taps_well_formed(d);
    lemma_dither_state_bilevel(first_channel(img, c, n), width as int, height as int, threshold, d, n as nat);
    assert forall|i: int|
        0 <= i < img.len() && i % c != 3 implies (#[trigger] dither_image(img, width, height, threshold, d)[i] == 0
        || dither_image(img, width, height, threshold, d)[i] == 255) by {
        assert(0 <= i / c < n) by (nonlinear_arith)
            requires
                0 <= i < len,
                len == n * c,
                c >= 1,
        ;
    }
}

/// The sum of the weights of the first `j` taps.
pub open spec fn tap_weight_sum(taps: Seq<(i32, i32, i32)>, j: int) -> int
    decreases j,
{
    if j <= 0 {
        0
    } else {
        tap_weight_sum(taps, j - 1) + taps[j - 1].2
    }
}

/// Every matrix but Atkinson's hands on the whole quantisation error: its
/// weights sum to its divisor. Atkinson's hands on three quarters of it.
pub proof fn lemma_weights_sum_to_divisor(d: Dithering)
    requires
        d != Dithering::NoDither,
    ensures
        d != Dithering::Atkinson ==> tap_weight_sum(diffusion_taps(d), diffusion_taps(d).len() as int)
            == diffusion_divisor(d),
        d == Dithering::Atkinson ==> 4 * tap_weight_sum(diffusion_taps(d), diffusion_taps(d).len() as int) == 3
            * diffusion_divisor(d),
{
    reveal_with_fuel(tap_weight_sum, 13);
}

} // verus!
