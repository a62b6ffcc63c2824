use img_to_ascii::ascii_image::AsciiType;
use img_to_ascii::config::Configuration;
use img_to_ascii::convert::create_text_image;
use img_to_ascii::dithering::Dithering;
use img_to_ascii::greyscaling::GreyScale;
use img_to_ascii::resizing::ResizeAlgo;

fn checker() -> Vec<u8> {
    vec![
        255, 255, 255, 255, 0, 0, 0, 255, //
        0, 0, 0, 255, 255, 255, 255, 255,
    ]
}

fn settings(ascii_type: AsciiType, width: u16, height: u16) -> Configuration {
    let mut cfg = Configuration::default();
    cfg.ascii_type = ascii_type;
    cfg.ascii_width = width;
    cfg.ascii_height = height;
    cfg.resize_opt = ResizeAlgo::NearestNeighbour;
    cfg.grey_scale = GreyScale::Luminance;
    cfg.invert = false;
    cfg.dither = Dithering::NoDither;
    cfg
}

#[test]
fn checkerboard_to_simple_text() {
    let cfg = settings(AsciiType::Simple, 2, 2);
    assert_eq!(create_text_image(&checker(), 2, 2, &cfg), Some(" @\n@ \n".to_string()));
}

#[test]
fn checkerboard_inverted() {
    let mut cfg = settings(AsciiType::Simple, 2, 2);
    cfg.invert = true;
    assert_eq!(create_text_image(&checker(), 2, 2, &cfg), Some("@ \n @\n".to_string()));
}

#[test]
fn black_image_to_braille() {
    let img = vec![0, 0, 0, 255, 0, 0, 0, 255];
    let mut cfg = settings(AsciiType::Braille, 1, 1);
    cfg.dither = Dithering::FloydSteinberg;
    assert_eq!(create_text_image(&img, 2, 1, &cfg), Some("\u{28FF}\n".to_string()));
}

#[test]
fn white_image_to_dots() {
    let img = vec![255u8; 4 * 4];
    let mut cfg = settings(AsciiType::Dot, 2, 2);
    cfg.dither = Dithering::Atkinson;
    assert_eq!(create_text_image(&img, 2, 2, &cfg), Some("  \n  \n".to_string()));
}

#[test]
fn oversized_bicubic_is_refused() {
    let img = vec![0u8; 4];
    let mut cfg = settings(AsciiType::Braille, 65535, 65535);
    cfg.resize_opt = ResizeAlgo::Bicubic;
    assert_eq!(create_text_image(&img, 1, 1, &cfg), None);
}
