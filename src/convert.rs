//! The whole conversion, from an RGBA image to its text.
use vstd::prelude::*;

use crate::ascii_image::{
    ascii_text, ascii_type_braille, braille_text, create_ascii_image, create_single_channel_vec, AsciiType,
    ASCII_X_DOTS, ASCII_Y_DOTS,
};
use crate::config::{calc_image_size, image_size, Configuration};
use crate::dithering::{create_dither_image, dither_image, Dithering};
use crate::greyscaling::{create_greyscale_image, greyscale_image};
use crate::layout::{channels_of, first_channel, valid_buffer};
use crate::resizing::{create_resized_image, resized_image, valid_resize, ResizeAlgo};

verus! {

/// The size, in pixels, that the image is resampled to: one pixel per
/// character, or per Braille dot.
pub open spec fn working_size(img_width: u32, img_height: u32, cfg: Configuration) -> (int, int) {
    let size = image_size(img_width, img_height, cfg.ascii_width, cfg.ascii_height);
    if cfg.ascii_type == AsciiType::Braille {
        (size.0 * 2, size.1 * 4)
    } else {
        size
    }
}

/// Whether a working image of `dw` by `dh` pixels can be held and resampled.
pub open spec fn size_fits(dw: int, dh: int, algo: ResizeAlgo) -> bool {
    &&& 0 < dw <= u32::MAX
    &&& 0 < dh <= u32::MAX
    &&& dw * dh * 4 <= usize::MAX
    &&& algo == ResizeAlgo::Bicubic ==> dw * dh <= 0x4_0000_0000
}

/// Whether the samples are cut to black and white before they are drawn: for
/// dots and Braille, where a matrix is chosen.
pub open spec fn dithers(cfg: Configuration) -> bool {
    (cfg.ascii_type == AsciiType::Dot || cfg.ascii_type == AsciiType::Braille) && cfg.dither != Dithering::NoDither
}

/// The text of an image: resampled to the working size, reduced to grey,
/// dithered where `dithers` says so, and drawn one character per sample (or
/// per Braille cell).
pub open spec fn text_image(img: Seq<u8>, img_width: u32, img_height: u32, cfg: Configuration) -> Seq<char> {
    let size = working_size(img_width, img_height, cfg);
    let dw = size.0 as u32;
    let dh = size.1 as u32;
    let scaled = resized_image(cfg.resize_opt, img, img_width, img_height, dw, dh);
    let grey = greyscale_image(scaled, dw, dh, cfg.grey_scale, cfg.invert, cfg.alpha_threshold);
    let samples = if dithers(cfg) {
        first_channel(dither_image(grey, dw, dh, cfg.threshold, cfg.dither), 4, dw * dh)
    } else {
        first_channel(grey, 4, dw * dh)
    };
    if cfg.ascii_type == AsciiType::Braille {
        braille_text(samples, dw as int, dh as int / 4)
    } else {
        ascii_text(samples, cfg.ascii_type, dw as int)
    }
}

proof fn lemma_four_channels(dw: u32, dh: u32)
    requires
        dw > 0,
        dh > 0,
    ensures
        valid_buffer(dw * dh * 4, dw, dh),
        channels_of(dw * dh * 4, dw, dh) == 4,
{
    let n = dw * dh;
    assert(n > 0) by (nonlinear_arith)
        requires
            dw > 0,
            dh > 0,
            n == dw * dh,
    ;
    vstd::arithmetic::div_mod::lemma_fundamental_div_mod_converse(n * 4, n, 4, 0);
}

/// Converts an RGBA image of `img_width` by `img_height` pixels to text with
/// the settings of `cfg`. `None` where the working size is too large to hold
/// or, for bicubic interpolation, to compute exactly.
pub fn create_text_image(img_vec: &[u8], img_width: u32, img_height: u32, cfg: &Configuration) -> (r: Option<String>)
    requires
        img_width > 0,
        img_height > 0,
        img_vec@.len() == img_width * img_height * 4,
    ensures
        r is Some <==> size_fits(
            working_size(img_width, img_height, *cfg).0,
            working_size(img_width, img_height, *cfg).1,
            cfg.resize_opt,
        ),
        r matches Some(s) ==> s@ == text_image(img_vec@, img_width, img_height, *cfg),
{
    let (cols, rows) = calc_image_size(img_width, img_height, cfg.ascii_width, cfg.ascii_height);
    let braille = cfg.ascii_type == AsciiType::Braille;
    let x_dots: u64 = ASCII_X_DOTS as u64;
    let y_dots: u64 = ASCII_Y_DOTS as u64;
    assert(x_dots == 2 && y_dots == 4);
    let (dw, dh): (u64, u64) = if braille {
        (cols as u64 * x_dots, rows as u64 * y_dots)
    } else {
        (cols as u64, rows as u64)
    };
    if dw == 0 || dh == 0 || dw > u32::MAX as u64 || dh > u32::MAX as u64 {
        return None;
    }
    assert(dw * dh <= 0xFFFF_FFFF_FFFF_FFFF) by (nonlinear_arith)
        requires
            dw <= u32::MAX,
            dh <= u32::MAX,
    ;
    let area: u128 = dw as u128 * dh as u128;
    if area * 4 > usize::MAX as u128 {
        return None;
    }
    if cfg.resize_opt == ResizeAlgo::Bicubic && area > 0x4_0000_0000 {
        return None;
    }
    let width: u32 = dw as u32;
    let height: u32 = dh as u32;
    proof {
        lemma_four_channels(width, height);
    }
    let scaled_vec = create_resized_image(img_vec, img_width, img_height, width, height, cfg.resize_opt);
    let grey_vec = create_greyscale_image(
        &scaled_vec,
        width,
        height,
        cfg.grey_scale,
        cfg.invert,
        cfg.alpha_threshold,
    );
    let dot_like = cfg.ascii_type == AsciiType::Dot || braille;
    let asc_vec = if dot_like && cfg.dither != Dithering::NoDither {
        let dither_vec = create_dither_image(&grey_vec, width, height, cfg.threshold, cfg.dither);
        create_single_channel_vec(&dither_vec, width, height)
    } else {
        create_single_channel_vec(&grey_vec, width, height)
    };
    let text = if braille {
        ascii_type_braille(&asc_vec, width, height)
    } else {
        create_ascii_image(&asc_vec, cfg.ascii_type, width)
    };
    Some(text)
}

} // verus!
