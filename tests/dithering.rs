use img_to_ascii::dithering::{create_dither_image, Dithering};

const MATRICES: [Dithering; 8] = [
    Dithering::Atkinson,
    Dithering::Burkes,
    Dithering::FloydSteinberg,
    Dithering::Jjn,
    Dithering::Sierra,
    Dithering::SierraLite,
    Dithering::Stucki,
    Dithering::TwoRowSierra,
];

#[test]
fn no_dither_gives_empty() {
    let img = vec![10, 200, 30, 40];
    assert!(create_dither_image(&img, 2, 2, 128, Dithering::NoDither).is_empty());
}

#[test]
fn floyd_steinberg_small() {
    let img = vec![100, 150, 200, 50, 250, 0];
    let out = create_dither_image(&img, 3, 2, 128, Dithering::FloydSteinberg);
    assert_eq!(out, vec![0, 255, 255, 0, 255, 0]);
}

#[test]
fn atkinson_keeps_alpha() {
    let img = vec![100, 100, 100, 7, 200, 200, 200, 9];
    let out = create_dither_image(&img, 2, 1, 128, Dithering::Atkinson);
    assert_eq!(out, vec![0, 0, 0, 7, 255, 255, 255, 9]);
}

#[test]
fn atkinson_pattern() {
    let img = vec![120u8; 16];
    let out = create_dither_image(&img, 4, 4, 128, Dithering::Atkinson);
    assert_eq!(out, vec![0, 255, 0, 0, 0, 255, 255, 0, 255, 0, 0, 255, 255, 0, 0, 255]);
}

#[test]
fn dithered_samples_are_bilevel() {
    let img: Vec<u8> = (0..60u32).map(|i| ((i * 37) % 256) as u8).collect();
    for d in MATRICES {
        let out = create_dither_image(&img, 10, 6, 128, d);
        assert_eq!(out.len(), img.len());
        assert!(out.iter().all(|&v| v == 0 || v == 255));
    }
}

#[test]
fn uniform_grey_keeps_its_intensity() {
    let (w, h) = (64u32, 64u32);
    let img = vec![128u8; (w * h) as usize];
    let total_in: i64 = img.iter().map(|&v| v as i64).sum();
    for d in MATRICES {
        let out = create_dither_image(&img, w, h, 128, d);
        let total_out: i64 = out.iter().map(|&v| v as i64).sum();
        let drift = (total_out - total_in).abs();
        assert!(drift <= (w * h) as i64, "{:?} drifted by {}", d, drift);
    }
}

#[test]
fn thresholds_decide_extremes() {
    let img = vec![0, 255];
    assert_eq!(create_dither_image(&img, 2, 1, 128, Dithering::SierraLite), vec![0, 255]);
    let img = vec![127, 128];
    assert_eq!(create_dither_image(&img, 1, 2, 128, Dithering::Burkes), vec![0, 255]);
}
