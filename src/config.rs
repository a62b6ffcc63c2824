//! Conversion settings, their descriptions, and the size of the text image.
use vstd::prelude::*;

use crate::ascii_image::{ASCII_X_DOTS, ASCII_Y_DOTS, AsciiType};
use crate::dithering::Dithering;
use crate::greyscaling::GreyScale;
use crate::resizing::ResizeAlgo;

verus! {

/// The settings of one conversion.
#[derive(Debug)]
pub struct Configuration {
    pub filename: String,
    pub output: String,
    pub threshold: u8,
    pub alpha_threshold: u8,
    pub invert: bool,
    pub dither: Dithering,
    pub grey_scale: GreyScale,
    pub ascii_type: AsciiType,
    pub ascii_width: u16,
    pub ascii_height: u16,
    pub resize_opt: ResizeAlgo,
    pub show_ascii: bool,
}

impl Default for Configuration {
    fn default() -> (r: Self)
        ensures
            r.filename@ == Seq::<char>::empty(),
            r.output@ == Seq::<char>::empty(),
            r.threshold == 180,
            r.alpha_threshold == 30,
            !r.invert,
            r.dither == Dithering::TwoRowSierra,
            r.grey_scale == GreyScale::Luminance,
            r.ascii_type == AsciiType::Simple,
            r.ascii_width == 80,
            r.ascii_height == 0,
            r.resize_opt == ResizeAlgo::Bilinear,
            !r.show_ascii,
    {
        Configuration {
            filename: String::new(),
            output: String::new(),
            threshold: 180,
            alpha_threshold: 30,
            invert: false,
            dither: Dithering::TwoRowSierra,
            grey_scale: GreyScale::Luminance,
            ascii_type: AsciiType::Simple,
            ascii_width: 80,
            ascii_height: 0,
            resize_opt: ResizeAlgo::Bilinear,
            show_ascii: false,
        }
    }
}

pub open spec fn asc_type_desc(t: AsciiType) -> Seq<char> {
    match t {
        AsciiType::Block => "Blocks"@,
        AsciiType::Braille => "Braille"@,
        AsciiType::Dot => "Dot"@,
        AsciiType::Extended => "Extended"@,
        AsciiType::Simple => "Simple"@,
    }
}

pub open spec fn dither_desc(t: Dithering) -> Seq<char> {
    match t {
        Dithering::Atkinson => "Atkinson"@,
        Dithering::Burkes => "Burkes"@,
        Dithering::FloydSteinberg => "Floyd and Steinberg"@,
        Dithering::Jjn => "Jarvis, Judike and Ninke"@,
        Dithering::Sierra => "Sierra"@,
        Dithering::SierraLite => "Sierra Lite"@,
        Dithering::Stucki => "Stucki"@,
        Dithering::TwoRowSierra => "Two-Row Sierra"@,
        Dithering::NoDither => "No dithering"@,
    }
}

pub open spec fn greyscale_desc(t: GreyScale) -> Seq<char> {
    match t {
        GreyScale::Average => "Average"@,
        GreyScale::Desaturate => "Desaturate"@,
        GreyScale::Luminance => "Luminance"@,
        GreyScale::Maximum => "Maximum"@,
    }
}

pub open spec fn resize_desc(t: ResizeAlgo) -> Seq<char> {
    match t {
        ResizeAlgo::Bicubic => "Bi-Cubic"@,
        ResizeAlgo::Bilinear => "Bilinear"@,
        ResizeAlgo::NearestNeighbour => "Nearest Neighbour"@,
    }
}

impl Configuration {
    /// The name of a character set.
    pub fn get_asc_type_desc(t: &AsciiType) -> (r: &'static str)
        ensures
            r@ == asc_type_desc(*t),
    {
        match t {
            AsciiType::Block => "Blocks",
            AsciiType::Braille => "Braille",
            AsciiType::Dot => "Dot",
            AsciiType::Extended => "Extended",
            AsciiType::Simple => "Simple",
        }
    }

    /// The name of a dithering matrix.
    pub fn get_dither_desc(t: &Dithering) -> (r: &'static str)
        ensures
            r@ == dither_desc(*t),
    {
        match t {
            Dithering::Atkinson => "Atkinson",
            Dithering::Burkes => "Burkes",
            Dithering::FloydSteinberg => "Floyd and Steinberg",
            Dithering::Jjn => "Jarvis, Judike and Ninke",
            Dithering::Sierra => "Sierra",
            Dithering::SierraLite => "Sierra Lite",
            Dithering::Stucki => "Stucki",
            Dithering::TwoRowSierra => "Two-Row Sierra",
            Dithering::NoDither => "No dithering",
        }
    }

    /// The name of a greyscale rule.
    pub fn get_greyscale_desc(t: &GreyScale) -> (r: &'static str)
        ensures
            r@ == greyscale_desc(*t),
    {
        match t {
            GreyScale::Average => "Average",
            GreyScale::Desaturate => "Desaturate",
            GreyScale::Luminance => "Luminance",
            GreyScale::Maximum => "Maximum",
        }
    }

    /// The name of an interpolation.
    pub fn get_resize_desc(t: &ResizeAlgo) -> (r: &'static str)
        ensures
            r@ == resize_desc(*t),
    {
        match t {
            ResizeAlgo::Bicubic => "Bi-Cubic",
            ResizeAlgo::Bilinear => "Bilinear",
            ResizeAlgo::NearestNeighbour => "Nearest Neighbour",
        }
    }
}

/// `a / b` rounded up.
pub open spec fn ceil_div(a: int, b: int) -> int {
    (a + b - 1) / b
}

/// Columns and rows of the text image. A side given as 0 follows from the
/// other through the aspect ratio `ar = min / max` of the image's sides,
/// counted in cells of two dots across and four down:
/// `rows = ceil(cols * 2 * ar / 4)`, `cols = ceil(rows * 4 * ar / 2)`. With
/// both 0 the text is 80 columns wide.
pub open spec fn image_size(img_width: u32, img_height: u32, ascii_width: u16, ascii_height: u16) -> (int, int) {
    let mn = if img_width > img_height {
        img_height as int
    } else {
        img_width as int
    };
    let mx = if img_width > img_height {
        img_width as int
    } else {
        img_height as int
    };
    if ascii_width == 0 && ascii_height == 0 {
        (80, ceil_div(80 * 2 * mn, 4 * mx))
    } else if ascii_width == 0 {
        (ceil_div(ascii_height * 4 * mn, 2 * mx), ascii_height as int)
    } else if ascii_height == 0 {
        (ascii_width as int, ceil_div(ascii_width * 2 * mn, 4 * mx))
    } else {
        (ascii_width as int, ascii_height as int)
    }
}

/// `ceil(n * num_dots * mn / (den_dots * mx))` for a side of at most 65535
/// cells, where `mn <= mx`.
fn scaled_side(n: u64, num_dots: u64, den_dots: u64, mn: u64, mx: u64) -> (r: u32)
    requires
        n <= 0xFFFF,
        num_dots <= 4,
        1 <= den_dots <= 4,
        1 <= mn <= mx <= u32::MAX,
    ensures
        r == ceil_div(n * num_dots * mn, den_dots * mx),
{
    assert(n * num_dots <= 0x4_0000 && n * num_dots * mn <= 0x4_0000_0000_0000 && den_dots * mx >= mx)
        by (nonlinear_arith)
        requires
            n <= 0xFFFF,
            num_dots <= 4,
            1 <= den_dots,
            1 <= mn <= mx <= u32::MAX,
    ;
    assert(den_dots * mx <= 4 * mx) by (nonlinear_arith)
        requires
            den_dots <= 4,
            mx >= 1,
    ;
    let num: u64 = n * num_dots * mn;
    let den: u64 = den_dots * mx;
    let v: u64 = (num + den - 1) / den;
    assert(v <= 4 * 0xFFFF + 1) by (nonlinear_arith)
        requires
            v == (num + den - 1) as int / den as int,
            num == n * num_dots * mn,
            den == den_dots * mx,
            n <= 0xFFFF,
            num_dots <= 4,
            1 <= den_dots,
            1 <= mn <= mx,
    ;
    v as u32
}

/// Columns and rows of the text image for an image of `img_width` by
/// `img_height` pixels; see `image_size`.
pub fn calc_image_size(img_width: u32, img_height: u32, ascii_width: u16, ascii_height: u16) -> (r: (u32, u32))
    requires
        img_width > 0,
        img_height > 0,
    ensures
        (r.0 as int, r.1 as int) == image_size(img_width, img_height, ascii_width, ascii_height),
{
    let (mn, mx): (u64, u64) = if img_width > img_height {
        (img_height as u64, img_width as u64)
    } else {
        (img_width as u64, img_height as u64)
    };
    let x_dots: u64 = ASCII_X_DOTS as u64;
    let y_dots: u64 = ASCII_Y_DOTS as u64;
    if ascii_width == 0 && ascii_height == 0 {
        (80, scaled_side(80, x_dots, y_dots, mn, mx))
    } else if ascii_width == 0 {
        (scaled_side(ascii_height as u64, y_dots, x_dots, mn, mx), ascii_height as u32)
    } else if ascii_height == 0 {
        (ascii_width as u32, scaled_side(ascii_width as u64, x_dots, y_dots, mn, mx))
    } else {
        (ascii_width as u32, ascii_height as u32)
    }
}

} // verus!
