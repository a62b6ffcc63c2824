//! Reduction of colour pixels to a single brightness value.
use vstd::prelude::*;

use crate::layout::{channels_of, lemma_layout, lemma_pixel_index, lemma_index_in_range, valid_buffer};

verus! {

/// The rule that turns the red, green and blue samples of a pixel into one
/// grey value.
#[derive(Debug, Clone, Copy, PartialEq, Eq, Structural)]
pub enum GreyScale {
    Average,
    Desaturate,
    Luminance,
    Maximum,
}

pub open spec fn max3_spec(r: u8, g: u8, b: u8) -> int {
    if r >= g && r >= b {
        r as int
    } else if g >= b {
        g as int
    } else {
        b as int
    }
}

pub open spec fn min3_spec(r: u8, g: u8, b: u8) -> int {
    if r <= g && r <= b {
        r as int
    } else if g <= b {
        g as int
    } else {
        b as int
    }
}

/// The grey value of one colour under each rule. Luminance is
/// `round(0.2989 r + 0.587 g + 0.114 b)`, computed exactly in ten-thousandths.
pub open spec fn grey_value(alg: GreyScale, r: u8, g: u8, b: u8) -> int {
    match alg {
        GreyScale::Average => (r + g + b) / 3,
        GreyScale::Desaturate => (max3_spec(r, g, b) + min3_spec(r, g, b)) / 2,
        GreyScale::Luminance => (2989 * r + 5870 * g + 1140 * b + 5000) / 10000,
        GreyScale::Maximum => max3_spec(r, g, b),
    }
}

/// The grey value of pixel `p`: black where a four-channel pixel's alpha is
/// under the threshold, else the rule applied to its first three samples.
pub open spec fn pixel_grey(img: Seq<u8>, c: int, p: int, alg: GreyScale, alpha_threshold: u8) -> int {
    if c == 4 && img[p * 4 + 3] < alpha_threshold {
        0
    } else {
        grey_value(alg, img[p * c], img[p * c + 1], img[p * c + 2])
    }
}

/// The sample written for pixel `p` of a greyscale image.
pub open spec fn grey_sample(
    img: Seq<u8>,
    width: u32,
    height: u32,
    alg: GreyScale,
    invert: bool,
    alpha_threshold: u8,
    p: int,
) -> int {
    let g = pixel_grey(img, channels_of(img.len() as int, width, height), p, alg, alpha_threshold);
    if invert {
        255 - g
    } else {
        g
    }
}

pub proof fn lemma_grey_value_in_range(alg: GreyScale, r: u8, g: u8, b: u8)
    ensures
        0 <= grey_value(alg, r, g, b) <= 255,
{
}

pub fn greyscale_average(red: u8, green: u8, blue: u8) -> (r: u8)
    ensures
        r == grey_value(GreyScale::Average, red, green, blue),
{
    ((red as u16 + green as u16 + blue as u16) / 3) as u8
}

fn max3(a: u8, b: u8, c: u8) -> (r: u8)
    ensures
        r == max3_spec(a, b, c),
{
    if a >= b && a >= c {
        a
    } else if b >= c {
        b
    } else {
        c
    }
}

fn min3(a: u8, b: u8, c: u8) -> (r: u8)
    ensures
        r == min3_spec(a, b, c),
{
    if a <= b && a <= c {
        a
    } else if b <= c {
        b
    } else {
        c
    }
}

pub fn greyscale_desaturate(red: u8, green: u8, blue: u8) -> (r: u8)
    ensures
        r == grey_value(GreyScale::Desaturate, red, green, blue),
{
    let grey_max = max3(red, green, blue);
    let grey_min = min3(red, green, blue);
    ((grey_max as u16 + grey_min as u16) / 2) as u8
}

pub fn greyscale_luminance(red: u8, green: u8, blue: u8) -> (r: u8)
    ensures
        r == grey_value(GreyScale::Luminance, red, green, blue),
{
    let weighted: u32 = 2989 * red as u32 + 5870 * green as u32 + 1140 * blue as u32 + 5000;
    (weighted / 10000) as u8
}

pub fn greyscale_maximum(red: u8, green: u8, blue: u8) -> (r: u8)
    ensures
        r == grey_value(GreyScale::Maximum, red, green, blue),
{
    max3(red, green, blue)
}

pub fn greyscale_of(alg: GreyScale, red: u8, green: u8, blue: u8) -> (r: u8)
    ensures
        r == grey_value(alg, red, green, blue),
{
    match alg {
        GreyScale::Average => greyscale_average(red, green, blue),
        GreyScale::Desaturate => greyscale_desaturate(red, green, blue),
        GreyScale::Luminance => greyscale_luminance(red, green, blue),
        GreyScale::Maximum => greyscale_maximum(red, green, blue),
    }
}

/// The greyscale image: every sample of pixel `p` is `grey_sample(.., p)`.
pub open spec fn greyscale_image(
    img: Seq<u8>,
    width: u32,
    height: u32,
    alg: GreyScale,
    invert: bool,
    alpha_threshold: u8,
) -> Seq<u8> {
    let c = channels_of(img.len() as int, width, height);
    Seq::new(
        img.len(),
        |i: int| grey_sample(img, width, height, alg, invert, alpha_threshold, i / c) as u8,
    )
}

/// Reduces each pixel of `img_vec` to its grey value (inverted if asked) and
/// writes it into every channel of that pixel.
pub fn create_greyscale_image(
    img_vec: &[u8],
    width: u32,
    height: u32,
    greyscale: GreyScale,
    invert: bool,
    alpha_threshold: u8,
) -> (r: Vec<u8>)
    requires
        valid_buffer(img_vec@.len() as int, width, height),
        channels_of(img_vec@.len() as int, width, height) >= 3,
    ensures
        r@ == greyscale_image(img_vec@, width, height, greyscale, invert, alpha_threshold),
{
    let total: usize = img_vec.len();
    let ghost len = total as int;
    proof {
        lemma_layout(len, width, height);
    }
    let wh: usize = width as usize * height as usize;
    let channels: usize = img_vec.len() / wh;
    let ghost spec_img = greyscale_image(img_vec@, width, height, greyscale, invert, alpha_threshold);
    let mut grey_vec: Vec<u8> = Vec::with_capacity(img_vec.len());
    let mut p: usize = 0;
    while p < wh
        invariant
            wh == width * height,
            channels == channels_of(len, width, height),
            len == img_vec@.len(),
            len == wh * channels,
            len <= usize::MAX,
            channels >= 3,
            spec_img.len() == len,
            spec_img == greyscale_image(img_vec@, width, height, greyscale, invert, alpha_threshold),
            p <= wh,
            grey_vec@.len() == p * channels,
            grey_vec@ == spec_img.subrange(0, p * channels as int),
        decreases wh - p,
    {
        proof {
            lemma_index_in_range(p as int, channels - 1, channels as int, wh as int);
        }
        let offset: usize = p * channels;
        let grey: u8 = if channels == 4 && img_vec[offset + 3] < alpha_threshold {
            0
        } else {
            greyscale_of(greyscale, img_vec[offset], img_vec[offset + 1], img_vec[offset + 2])
        };
        proof {
            lemma_grey_value_in_range(greyscale, img_vec@[offset as int], img_vec@[offset + 1], img_vec@[offset + 2]);
        }
        assert(offset + channels <= len);
        let out: u8 = if invert { 255 - grey } else { grey };
        let mut n: usize = 0;
        while n < channels
            invariant
                wh == width * height,
                channels == channels_of(len, width, height),
                len == img_vec@.len(),
                len == wh * channels,
                channels >= 3,
                spec_img == greyscale_image(img_vec@, width, height, greyscale, invert, alpha_threshold),
                p < wh,
                offset == p * channels,
                out == grey_sample(img_vec@, width, height, greyscale, invert, alpha_threshold, p as int),
                n <= channels,
                grey_vec@ == spec_img.subrange(0, p * channels + n),
            decreases channels - n,
        {
            proof {
                lemma_pixel_index(p as int, n as int, channels as int);
                lemma_index_in_range(p as int, n as int, channels as int, wh as int);
            }
            grey_vec.push(out);
            n += 1;
            assert(grey_vec@ =~= spec_img.subrange(0, p * channels + n));
        }
        p += 1;
        assert(p * channels == (p - 1) * channels + channels) by (nonlinear_arith);
    }
    assert(grey_vec@ =~= spec_img);
    grey_vec
}

/// Every greyscale sample lies in `[0, 255]`, whatever the rule, so nothing
/// is cut when it is stored as a byte; pure white has luminance 255 and pure
/// black luminance 0.
pub proof fn lemma_greyscale_in_range(
    img: Seq<u8>,
    width: u32,
    height: u32,
    alg: GreyScale,
    invert: bool,
    alpha_threshold: u8,
)
    requires
        valid_buffer(img.len() as int, width, height),
        channels_of(img.len() as int, width, height) >= 3,
    ensures
        forall|p: int|
            0 <= p < width * height ==> 0 <= #[trigger] grey_sample(
                img,
                width,
                height,
                alg,
                invert,
                alpha_threshold,
                p,
            ) <= 255,
        grey_value(GreyScale::Luminance, 255, 255, 255) == 255,
        grey_value(GreyScale::Luminance, 0, 0, 0) == 0,
{
    let c = channels_of(img.len() as int, width, height);
    lemma_layout(img.len() as int, width, height);
    assert forall|p: int| 0 <= p < width * height implies 0 <= #[trigger] grey_sample(
        img,
        width,
        height,
        alg,
        invert,
        alpha_threshold,
        p,
    ) <= 255 by {
        lemma_index_in_range(p, c - 1, c, width * height);
        lemma_grey_value_in_range(alg, img[p * c], img[p * c + 1], img[p * c + 2]);
    }
}

/// Inverting gives `255 - g` for each sample `g` of the image that is not
/// inverted, pixel for pixel, with all other parameters the same.
pub proof fn lemma_invert_complements(
    img: Seq<u8>,
    width: u32,
    height: u32,
    alg: GreyScale,
    alpha_threshold: u8,
)
    requires
        valid_buffer(img.len() as int, width, height),
        channels_of(img.len() as int, width, height) >= 3,
    ensures
        greyscale_image(img, width, height, alg, true, alpha_threshold).len() == img.len(),
        greyscale_image(img, width, height, alg, false, alpha_threshold).len() == img.len(),
        forall|i: int|
            0 <= i < img.len() ==> #[trigger] greyscale_image(img, width, height, alg, true, alpha_threshold)[i]
                == 255 - greyscale_image(img, width, height, alg, false, alpha_threshold)[i],
{
    let c = channels_of(img.len() as int, width, height);
    lemma_layout(img.len() as int, width, height);
    lemma_greyscale_in_range(img, width, height, alg, false, alpha_threshold);
    assert forall|i: int| 0 <= i < img.len() implies #[trigger] greyscale_image(
        img,
        width,
        height,
        alg,
        true,
        alpha_threshold,
    )[i] == 255 - greyscale_image(img, width, height, alg, false, alpha_threshold)[i] by {
        vstd::arithmetic::div_mod::lemma_fundamental_div_mod(i, c);
        assert(0 <= i / c < width * height) by (nonlinear_arith)
            requires
                0 <= i < img.len(),
                img.len() == (width * height) * c,
                c >= 1,
        ;
        let g = grey_sample(img, width, height, alg, false, alpha_threshold, i / c);
        assert(0 <= g <= 255);
    }
}

/// A four-channel pixel whose alpha is under the threshold comes out black in
/// every channel, whatever its colour and whatever the rule.
pub proof fn lemma_transparent_is_black(
    img: Seq<u8>,
    width: u32,
    height: u32,
    alg: GreyScale,
    alpha_threshold: u8,
    p: int,
)
    requires
        valid_buffer(img.len() as int, width, height),
        channels_of(img.len() as int, width, height) == 4,
        0 <= p < width * height,
        img[p * 4 + 3] < alpha_threshold,
    ensures
        forall|n: int|
            0 <= n < 4 ==> #[trigger] greyscale_image(img, width, height, alg, false, alpha_threshold)[p * 4 + n]
                == 0,
{
    lemma_layout(img.len() as int, width, height);
    assert forall|n: int| 0 <= n < 4 implies #[trigger] greyscale_image(
        img,
        width,
        height,
        alg,
        false,
        alpha_threshold,
    )[p * 4 + n] == 0 by {
        lemma_pixel_index(p, n, 4);
        lemma_index_in_range(p, n, 4, width * height);
    }
}

} // verus!
