use img_to_ascii::ascii_image::{ascii_type_braille, create_ascii_image, create_single_channel_vec, AsciiType};

#[test]
fn simple_palette_buckets() {
    assert_eq!(create_ascii_image(&[0], AsciiType::Simple, 1), "@\n");
    assert_eq!(create_ascii_image(&[255], AsciiType::Simple, 1), " \n");
    assert_eq!(create_ascii_image(&[128], AsciiType::Simple, 1), "=\n");
}

#[test]
fn lines_break_after_width_samples() {
    let samples = [0, 255, 128, 60];
    assert_eq!(create_ascii_image(&samples, AsciiType::Simple, 2), "@ \n=#\n");
    assert_eq!(create_ascii_image(&samples, AsciiType::Simple, 3), "@ =\n#");
    assert_eq!(create_ascii_image(&[], AsciiType::Simple, 3), "");
}

#[test]
fn block_palette_buckets() {
    assert_eq!(create_ascii_image(&[0, 128, 255], AsciiType::Block, 3), "\u{2588}\u{2592} \n");
}

#[test]
fn extended_palette_buckets() {
    assert_eq!(create_ascii_image(&[0, 128, 255], AsciiType::Extended, 3), "$x \n");
}

#[test]
fn dot_cut_exact() {
    assert_eq!(create_ascii_image(&[127, 128, 0, 255], AsciiType::Dot, 2), ". \n. \n");
}

#[test]
fn braille_full_and_empty_cells() {
    let ink = vec![0u8; 8];
    assert_eq!(ascii_type_braille(&ink, 2, 4), "\u{28FF}\n");
    let blank = vec![255u8; 8];
    assert_eq!(ascii_type_braille(&blank, 2, 4), "\u{2800}\n");
}

#[test]
fn braille_dot_order() {
    // only the right dot of the second row is ink: dot 5
    let mut cell = vec![255u8; 8];
    cell[3] = 0;
    assert_eq!(ascii_type_braille(&cell, 2, 4), "\u{2810}\n");
    // only the left dot of the third row is ink: dot 3
    let mut cell = vec![255u8; 8];
    cell[4] = 0;
    assert_eq!(ascii_type_braille(&cell, 2, 4), "\u{2804}\n");
}

#[test]
fn braille_top_right_dot() {
    let cell = vec![255, 0, 255, 255, 255, 255, 255, 255];
    assert_eq!(ascii_type_braille(&cell, 2, 4), "\u{2808}\n");
}

#[test]
fn braille_left_column() {
    let cell = vec![0, 255, 0, 255, 0, 255, 0, 255];
    assert_eq!(ascii_type_braille(&cell, 2, 4), "\u{2847}\n");
}

#[test]
fn braille_bottom_dots() {
    let mut cell = vec![255u8; 8];
    cell[6] = 0;
    assert_eq!(ascii_type_braille(&cell, 2, 4), "\u{2840}\n");
    cell[7] = 0;
    assert_eq!(ascii_type_braille(&cell, 2, 4), "\u{28C0}\n");
}

#[test]
fn braille_two_cells_per_row() {
    let mut img = vec![255u8; 4 * 8];
    for y in 0..8 {
        img[y * 4] = 0;
        img[y * 4 + 1] = 0;
    }
    assert_eq!(ascii_type_braille(&img, 4, 8), "\u{28FF}\u{2800}\n\u{28FF}\u{2800}\n");
}

#[test]
fn single_channel_takes_first_sample() {
    let img = vec![1, 2, 3, 4, 5, 6, 7, 8];
    assert_eq!(create_single_channel_vec(&img, 2, 1), vec![1, 5]);
    assert_eq!(create_single_channel_vec(&img, 2, 2), vec![1, 3, 5, 7]);
}
