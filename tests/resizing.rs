use img_to_ascii::resizing::{
    create_resized_image, scaling_bicubic, scaling_bilinear, scaling_nearest_neighbour, ResizeAlgo,
};

fn sample_image() -> Vec<u8> {
    vec![
        10, 20, 30, 255, 200, 100, 50, 255, 0, 0, 0, 255, //
        255, 255, 255, 255, 90, 80, 70, 60, 5, 6, 7, 8,
    ]
}

#[test]
fn nearest_same_size_is_identity() {
    let img = sample_image();
    assert_eq!(scaling_nearest_neighbour(&img, 3, 2, 3, 2), img);
    let single = vec![1, 2, 3, 4];
    assert_eq!(scaling_nearest_neighbour(&single, 1, 1, 1, 1), single);
}

#[test]
fn nearest_downscale() {
    let img = sample_image();
    let out = scaling_nearest_neighbour(&img, 3, 2, 2, 2);
    assert_eq!(out, vec![10, 20, 30, 255, 0, 0, 0, 255, 255, 255, 255, 255, 5, 6, 7, 8]);
}

#[test]
fn nearest_upscale_repeats_pixels() {
    let img = vec![0, 0, 0, 255, 255, 255, 255, 255];
    let out = scaling_nearest_neighbour(&img, 2, 1, 4, 1);
    assert_eq!(
        out,
        vec![0, 0, 0, 255, 255, 255, 255, 255, 255, 255, 255, 255, 255, 255, 255, 255]
    );
}

#[test]
fn bilinear_downscale() {
    let img = sample_image();
    let out = scaling_bilinear(&img, 3, 2, 2, 2);
    assert_eq!(out, vec![10, 20, 30, 255, 100, 50, 25, 255, 255, 255, 255, 255, 48, 43, 39, 34]);
}

#[test]
fn bilinear_upscale() {
    let img = sample_image();
    let out = scaling_bilinear(&img, 3, 2, 5, 3);
    assert_eq!(out.len(), 5 * 3 * 4);
    assert_eq!(
        out,
        vec![
            10, 20, 30, 255, 124, 68, 42, 255, 160, 80, 40, 255, 40, 20, 10, 255, 0, 0, 0, 255, 173, 177, 180,
            255, 145, 123, 110, 177, 102, 70, 52, 118, 28, 21, 16, 97, 3, 4, 5, 90, 255, 255, 255, 255, 156, 150,
            144, 138, 73, 65, 57, 50, 22, 21, 20, 18, 5, 6, 7, 8
        ]
    );
}

#[test]
fn bicubic_upscale() {
    let img = sample_image();
    let out = scaling_bicubic(&img, 3, 2, 5, 3);
    assert_eq!(
        out,
        vec![
            0, 0, 14, 254, 9, 12, 18, 255, 167, 84, 44, 255, 169, 82, 38, 255, 14, 7, 3, 255, 30, 45, 57, 255, 50,
            52, 57, 254, 162, 92, 57, 238, 150, 76, 39, 228, 13, 7, 4, 226, 233, 236, 238, 255, 218, 218, 218, 244,
            142, 125, 113, 131, 69, 52, 40, 59, 10, 10, 9, 40
        ]
    );
}

#[test]
fn bicubic_same_size() {
    let img = sample_image();
    let out = scaling_bicubic(&img, 3, 2, 3, 2);
    assert_eq!(
        out,
        vec![0, 0, 14, 254, 114, 60, 35, 255, 117, 56, 26, 255, 132, 140, 148, 255, 148, 119, 105, 208, 75, 44, 27, 138]
    );
}

#[test]
fn bicubic_keeps_flat_image() {
    let img = vec![100u8; 2 * 2 * 4];
    let out = scaling_bicubic(&img, 2, 2, 3, 5);
    assert_eq!(out, vec![100u8; 3 * 5 * 4]);
}

#[test]
fn resized_image_dispatches() {
    let img = sample_image();
    assert_eq!(
        create_resized_image(&img, 3, 2, 2, 2, ResizeAlgo::NearestNeighbour),
        scaling_nearest_neighbour(&img, 3, 2, 2, 2)
    );
    assert_eq!(
        create_resized_image(&img, 3, 2, 5, 3, ResizeAlgo::Bilinear),
        scaling_bilinear(&img, 3, 2, 5, 3)
    );
    assert_eq!(
        create_resized_image(&img, 3, 2, 5, 3, ResizeAlgo::Bicubic),
        scaling_bicubic(&img, 3, 2, 5, 3)
    );
}
