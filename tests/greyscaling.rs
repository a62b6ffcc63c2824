use img_to_ascii::greyscaling::{
    create_greyscale_image, greyscale_average, greyscale_desaturate, greyscale_luminance, greyscale_maximum,
    greyscale_of, GreyScale,
};

const ALL: [GreyScale; 4] = [GreyScale::Average, GreyScale::Desaturate, GreyScale::Luminance, GreyScale::Maximum];

#[test]
fn luminance_of_white_and_black() {
    assert_eq!(greyscale_luminance(255, 255, 255), 255);
    assert_eq!(greyscale_luminance(0, 0, 0), 0);
}

#[test]
fn luminance_weights() {
    assert_eq!(greyscale_luminance(100, 150, 200), 141);
    assert_eq!(greyscale_luminance(10, 20, 30), 18);
}

#[test]
fn average_truncates() {
    assert_eq!(greyscale_average(10, 20, 30), 20);
    assert_eq!(greyscale_average(255, 255, 254), 254);
    assert_eq!(greyscale_average(255, 255, 255), 255);
}

#[test]
fn desaturate_is_mid_of_extremes() {
    assert_eq!(greyscale_desaturate(10, 20, 200), 105);
    assert_eq!(greyscale_desaturate(255, 0, 128), 127);
    assert_eq!(greyscale_desaturate(255, 255, 255), 255);
}

#[test]
fn maximum_of_channels() {
    assert_eq!(greyscale_maximum(10, 220, 30), 220);
    assert_eq!(greyscale_maximum(0, 0, 0), 0);
}

#[test]
fn every_rule_stays_in_range() {
    for alg in ALL {
        for &(r, g, b) in &[(255u8, 255u8, 255u8), (0, 0, 0), (255, 0, 255), (1, 254, 128)] {
            let v = greyscale_of(alg, r, g, b) as u32;
            assert!(v <= 255);
        }
        assert_eq!(greyscale_of(alg, 255, 255, 255), 255);
        assert_eq!(greyscale_of(alg, 0, 0, 0), 0);
    }
}

#[test]
fn greyscale_image_fills_every_channel() {
    let img = vec![100, 150, 200, 255, 0, 0, 0, 255];
    let out = create_greyscale_image(&img, 2, 1, GreyScale::Luminance, false, 30);
    assert_eq!(out, vec![141, 141, 141, 141, 0, 0, 0, 0]);
}

#[test]
fn greyscale_image_three_channels() {
    let img = vec![10, 20, 30, 90, 60, 30];
    let out = create_greyscale_image(&img, 1, 2, GreyScale::Maximum, false, 30);
    assert_eq!(out, vec![30, 30, 30, 90, 90, 90]);
}

#[test]
fn invert_gives_complement() {
    let img = vec![100, 150, 200, 255, 0, 0, 0, 255, 12, 200, 7, 20, 255, 255, 255, 255];
    for alg in ALL {
        let plain = create_greyscale_image(&img, 2, 2, alg, false, 30);
        let inverted = create_greyscale_image(&img, 2, 2, alg, true, 30);
        assert_eq!(plain.len(), inverted.len());
        for i in 0..plain.len() {
            assert_eq!(inverted[i], 255 - plain[i]);
        }
    }
}

#[test]
fn transparent_pixel_is_black() {
    let img = vec![255, 255, 255, 10, 255, 255, 255, 30];
    for alg in ALL {
        let out = create_greyscale_image(&img, 2, 1, alg, false, 30);
        assert_eq!(&out[0..4], &[0, 0, 0, 0]);
        assert_eq!(&out[4..8], &[255, 255, 255, 255]);
    }
}

#[test]
fn transparent_pixel_inverted_is_white() {
    let img = vec![12, 34, 56, 0];
    let out = create_greyscale_image(&img, 1, 1, GreyScale::Average, true, 1);
    assert_eq!(out, vec![255, 255, 255, 255]);
}
