use img_to_ascii::ascii_image::AsciiType;
use img_to_ascii::config::{calc_image_size, Configuration};
use img_to_ascii::dithering::Dithering;
use img_to_ascii::greyscaling::GreyScale;
use img_to_ascii::resizing::ResizeAlgo;

#[test]
fn default_settings() {
    let cfg = Configuration::default();
    assert_eq!(cfg.threshold, 180);
    assert_eq!(cfg.alpha_threshold, 30);
    assert!(!cfg.invert);
    assert_eq!(cfg.dither, Dithering::TwoRowSierra);
    assert_eq!(cfg.grey_scale, GreyScale::Luminance);
    assert_eq!(cfg.ascii_type, AsciiType::Simple);
    assert_eq!(cfg.ascii_width, 80);
    assert_eq!(cfg.ascii_height, 0);
    assert_eq!(cfg.resize_opt, ResizeAlgo::Bilinear);
    assert!(cfg.filename.is_empty());
    assert!(cfg.output.is_empty());
}

#[test]
fn size_defaults_to_eighty_columns() {
    assert_eq!(calc_image_size(200, 100, 0, 0), (80, 20));
    assert_eq!(calc_image_size(100, 300, 0, 0), (80, 14));
}

#[test]
fn size_from_height() {
    assert_eq!(calc_image_size(200, 100, 0, 10), (10, 10));
    assert_eq!(calc_image_size(300, 100, 0, 7), (5, 7));
}

#[test]
fn size_from_width() {
    assert_eq!(calc_image_size(200, 100, 30, 0), (30, 8));
    assert_eq!(calc_image_size(100, 100, 1, 0), (1, 1));
}

#[test]
fn size_both_given() {
    assert_eq!(calc_image_size(200, 100, 30, 7), (30, 7));
}

#[test]
fn descriptions() {
    assert_eq!(Configuration::get_asc_type_desc(&AsciiType::Block), "Blocks");
    assert_eq!(Configuration::get_asc_type_desc(&AsciiType::Braille), "Braille");
    assert_eq!(Configuration::get_dither_desc(&Dithering::Jjn), "Jarvis, Judike and Ninke");
    assert_eq!(Configuration::get_dither_desc(&Dithering::NoDither), "No dithering");
    assert_eq!(Configuration::get_greyscale_desc(&GreyScale::Desaturate), "Desaturate");
    assert_eq!(Configuration::get_resize_desc(&ResizeAlgo::NearestNeighbour), "Nearest Neighbour");
    assert_eq!(Configuration::get_resize_desc(&ResizeAlgo::Bicubic), "Bi-Cubic");
}
