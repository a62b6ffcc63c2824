//! Mapping of grey samples to characters: palettes, dots and Braille cells.
use vstd::prelude::*;

use crate::layout::{channels_of, first_channel, lemma_index_in_range, lemma_layout, lemma_next_column, valid_buffer};
use crate::text::{char_from_code, is_scalar_value, push_char};

verus! {

/// Dots of a Braille cell across.
pub const ASCII_X_DOTS: usize = 2;

/// Dots of a Braille cell down.
pub const ASCII_Y_DOTS: usize = 4;

/// The set of characters an image is drawn with.
#[derive(Debug, Clone, Copy, PartialEq, Eq, Structural)]
pub enum AsciiType {
    Block,
    Braille,
    Dot,
    Extended,
    Simple,
}

/// Five shades of block, darkest first.
pub open spec fn block_palette() -> Seq<char> {
    seq!['\u{2588}', '\u{2593}', '\u{2592}', '\u{2591}', ' ']
}

/// Seventy characters, densest first.
pub open spec fn extended_palette() -> Seq<char> {
    seq![
        '$', '@', 'B', '%', '8', '&', 'W', 'M', '#', '*', 'o', 'a', 'h', 'k', 'b', 'd', 'p', 'q', 'w',
        'm', 'Z', 'O', '0', 'Q', 'L', 'C', 'J', 'U', 'Y', 'X', 'z', 'c', 'v', 'u', 'n', 'x', 'r', 'j',
        'f', 't', '/', '\\', '|', '(', ')', '1', '{', '}', '[', ']', '?', '-', '_', '+', '~', '<', '>',
        'i', '!', 'l', 'I', ';', ':', ',', '"', '^', '`', '\'', '.', ' ',
    ]
}

/// Ten characters, densest first.
pub open spec fn simple_palette() -> Seq<char> {
    seq!['@', '%', '#', '*', '+', '=', '-', ':', '.', ' ']
}

/// The palette entry for sample `v` among `n`: `round(v * (n - 1) / 255)`.
/// No sample falls halfway between two entries, as 255 is odd.
pub open spec fn bucket(v: u8, n: int) -> int {
    (2 * v * (n - 1) + 255) / 510
}

/// The character that stands for sample `v`. Braille, which is drawn by
/// cells, takes the simple palette here.
pub open spec fn glyph(t: AsciiType, v: u8) -> char {
    match t {
        AsciiType::Block => block_palette()[bucket(v, 5)],
        AsciiType::Dot => if v < 128 {
            '.'
        } else {
            ' '
        },
        AsciiType::Extended => extended_palette()[bucket(v, 70)],
        _ => simple_palette()[bucket(v, 10)],
    }
}

pub proof fn lemma_bucket_in_range(v: u8, n: int)
    requires
        n >= 1,
    ensures
        0 <= bucket(v, n) < n,
{
    assert(0 <= bucket(v, n) < n) by (nonlinear_arith)
        requires
            n >= 1,
            0 <= v <= 255,
    ;
}

fn bucket_of(v: u8, n: u32) -> (r: usize)
    requires
        1 <= n <= 70,
    ensures
        r == bucket(v, n as int),
        r < n,
{
    proof {
        lemma_bucket_in_range(v, n as int);
    }
    ((2 * v as u32 * (n - 1) + 255) / 510) as usize
}

fn ascii_type_block(grey_value: u8) -> (r: char)
    ensures
        r == glyph(AsciiType::Block, grey_value),
{
    let palette: Vec<char> = vec!['\u{2588}', '\u{2593}', '\u{2592}', '\u{2591}', ' '];
    assert(palette@ =~= block_palette());
    palette[bucket_of(grey_value, 5)]
}

fn ascii_type_dot(grey_value: u8) -> (r: char)
    ensures
        r == glyph(AsciiType::Dot, grey_value),
{
    if grey_value < 128 {
        '.'
    } else {
        ' '
    }
}

fn ascii_type_extended(grey_value: u8) -> (r: char)
    ensures
        r == glyph(AsciiType::Extended, grey_value),
{
    let palette: Vec<char> = vec![
        '$', '@', 'B', '%', '8', '&', 'W', 'M', '#', '*', 'o', 'a', 'h', 'k', 'b', 'd', 'p', 'q', 'w',
        'm', 'Z', 'O', '0', 'Q', 'L', 'C', 'J', 'U', 'Y', 'X', 'z', 'c', 'v', 'u', 'n', 'x', 'r', 'j',
        'f', 't', '/', '\\', '|', '(', ')', '1', '{', '}', '[', ']', '?', '-', '_', '+', '~', '<', '>',
        'i', '!', 'l', 'I', ';', ':', ',', '"', '^', '`', '\'', '.', ' ',
    ];
    assert(palette@ =~= extended_palette());
    palette[bucket_of(grey_value, 70)]
}

fn ascii_type_simple(grey_value: u8) -> (r: char)
    ensures
        r == glyph(AsciiType::Simple, grey_value),
{
    let palette: Vec<char> = vec!['@', '%', '#', '*', '+', '=', '-', ':', '.', ' '];
    assert(palette@ =~= simple_palette());
    palette[bucket_of(grey_value, 10)]
}

/// The text of a single-channel image `width` samples wide: one character
/// per sample, and a line break after every `width` of them.
pub open spec fn ascii_text(s: Seq<u8>, t: AsciiType, width: int) -> Seq<char>
    decreases s.len(),
{
    if s.len() == 0 {
        Seq::empty()
    } else {
        let line = ascii_text(s.drop_last(), t, width).push(glyph(t, s.last()));
        if s.len() as int % width == 0 {
            line.push('\n')
        } else {
            line
        }
    }
}

/// Draws each sample of `img_vec` as its character, breaking the line after
/// every `width` samples.
pub fn create_ascii_image(img_vec: &[u8], ascii_type: AsciiType, width: u32) -> (r: String)
    requires
        width > 0,
    ensures
        r@ == ascii_text(img_vec@, ascii_type, width as int),
{
    let mut asc_image = String::new();
    let mut pos: u32 = 0;
    let mut i: usize = 0;
    while i < img_vec.len()
        invariant
            width > 0,
            i <= img_vec@.len(),
            pos == i as int % width as int,
            asc_image@ == ascii_text(img_vec@.subrange(0, i as int), ascii_type, width as int),
        decreases img_vec@.len() - i,
    {
        let grey_val: u8 = img_vec[i];
        let ch = match ascii_type {
            AsciiType::Block => ascii_type_block(grey_val),
            AsciiType::Dot => ascii_type_dot(grey_val),
            AsciiType::Extended => ascii_type_extended(grey_val),
            _ => ascii_type_simple(grey_val),
        };
        proof {
            lemma_next_column(i as int, width as int);
            assert(img_vec@.subrange(0, i + 1).drop_last() =~= img_vec@.subrange(0, i as int));
        }
        push_char(&mut asc_image, ch);
        pos += 1;
        if pos == width {
            pos = 0;
            push_char(&mut asc_image, '\n');
        }
        i += 1;
    }
    assert(img_vec@.subrange(0, i as int) =~= img_vec@);
    asc_image
}

/// The first sample of every pixel, one per pixel.
pub fn create_single_channel_vec(img_vec: &[u8], width: u32, height: u32) -> (r: Vec<u8>)
    requires
        valid_buffer(img_vec@.len() as int, width, height),
    ensures
        r@ == first_channel(
            img_vec@,
            channels_of(img_vec@.len() as int, width, height),
            width * height,
        ),
{
    let total: usize = img_vec.len();
    proof {
        lemma_layout(total as int, width, height);
    }
    let wh: usize = width as usize * height as usize;
    let channels: usize = total / wh;
    let ghost target = first_channel(img_vec@, channels as int, wh as int);
    let mut s_vec: Vec<u8> = Vec::with_capacity(wh);
    let mut p: usize = 0;
    while p < wh
        invariant
            wh == width * height,
            total == img_vec@.len(),
            total == wh * channels,
            channels >= 1,
            channels == channels_of(img_vec@.len() as int, width, height),
            target == first_channel(img_vec@, channels as int, wh as int),
            p <= wh,
            s_vec@ == target.subrange(0, p as int),
        decreases wh - p,
    {
        proof {
            lemma_index_in_range(p as int, 0, channels as int, wh as int);
        }
        s_vec.push(img_vec[p * channels]);
        p += 1;
        assert(s_vec@ =~= target.subrange(0, p as int));
    }
    assert(s_vec@ =~= target);
    s_vec
}

/// The bit that each dot of a Braille cell sets, dots taken down the left
/// column, then down the right one (the Unicode Braille numbering 1, 2, 3, 7,
/// 4, 5, 6, 8): dot `n` sets bit `[0, 1, 2, 6, 3, 4, 5, 7][n]`.
pub open spec fn braille_dot_value() -> Seq<int> {
    seq![1, 2, 4, 64, 8, 16, 32, 128]
}

/// Whether dot `n` of cell `(cx, cy)` is ink, that is black (0). Dot `n`
/// sits in column `n / 4` and row `n % 4` of the cell.
pub open spec fn dot_is_ink(img: Seq<u8>, width: int, cx: int, cy: int, n: int) -> bool {
    img[(cy * 4 + n % 4) * width + cx * 2 + n / 4] == 0
}

/// The bits that the first `k` dots of cell `(cx, cy)` set.
pub open spec fn cell_bits(img: Seq<u8>, width: int, cx: int, cy: int, k: int) -> int
    decreases k,
{
    if k <= 0 {
        0
    } else {
        cell_bits(img, width, cx, cy, k - 1) + if dot_is_ink(img, width, cx, cy, k - 1) {
            braille_dot_value()[k - 1]
        } else {
            0
        }
    }
}

/// The Braille character with the given dot bits.
pub open spec fn braille_char(bits: int) -> char {
    ((0x2800 + bits) as u32) as char
}

/// The first `k` cells of cell row `cy`.
pub open spec fn braille_row(img: Seq<u8>, width: int, cy: int, k: int) -> Seq<char>
    decreases k,
{
    if k <= 0 {
        Seq::empty()
    } else {
        braille_row(img, width, cy, k - 1).push(braille_char(cell_bits(img, width, k - 1, cy, 8)))
    }
}

/// The first `rows` rows of cells, each ended by a line break.
pub open spec fn braille_text(img: Seq<u8>, width: int, rows: int) -> Seq<char>
    decreases rows,
{
    if rows <= 0 {
        Seq::empty()
    } else {
        braille_text(img, width, rows - 1) + braille_row(img, width, rows - 1, width / 2).push('\n')
    }
}

/// Draws a black-and-white image as Braille, one character for each cell of
/// two by four dots.
pub fn ascii_type_braille(img_vec: &[u8], width: u32, height: u32) -> (r: String)
    requires
        width % 2 == 0,
        height % 4 == 0,
        img_vec@.len() == width * height,
    ensures
        r@ == braille_text(img_vec@, width as int, height as int / 4),
{
    let values: Vec<u32> = vec![1, 2, 4, 64, 8, 16, 32, 128];
    assert(values@.map_values(|v: u32| v as int) =~= braille_dot_value());
    let total: usize = img_vec.len();
    let wu: usize = width as usize;
    let cols: usize = wu / ASCII_X_DOTS;
    let rows: usize = height as usize / ASCII_Y_DOTS;
    let ghost w = width as int;
    let ghost h = height as int;
    let mut braille_text_out = String::new();
    let mut cy: usize = 0;
    while cy < rows
        invariant
            w == width,
            h == height,
            wu == width,
            total == img_vec@.len(),
            total == w * h,
            cols == w / 2,
            rows == h / 4,
            w % 2 == 0,
            h % 4 == 0,
            values@.len() == 8,
            values@.map_values(|v: u32| v as int) == braille_dot_value(),
            cy <= rows,
            braille_text_out@ == braille_text(img_vec@, w, cy as int),
        decreases rows - cy,
    {
        let ghost row_start = braille_text_out@;
        let mut cx: usize = 0;
        while cx < cols
            invariant
                w == width,
                h == height,
                wu == width,
                total == img_vec@.len(),
                total == w * h,
                cols == w / 2,
                rows == h / 4,
                w % 2 == 0,
                h % 4 == 0,
                values@.len() == 8,
                values@.map_values(|v: u32| v as int) == braille_dot_value(),
                cy < rows,
                cx <= cols,
                row_start == braille_text(img_vec@, w, cy as int),
                braille_text_out@ == row_start + braille_row(img_vec@, w, cy as int, cx as int),
            decreases cols - cx,
        {
            let mut bits: u32 = 0;
            let mut n: usize = 0;
            while n < 8
                invariant
                    w == width,
                    h == height,
                    wu == width,
                    total == img_vec@.len(),
                    total == w * h,
                    cols == w / 2,
                    rows == h / 4,
                    values@.len() == 8,
                    values@.map_values(|v: u32| v as int) == braille_dot_value(),
                    cy < rows,
                    cx < cols,
                    n <= 8,
                    bits <= 128 * n,
                    bits == cell_bits(img_vec@, w, cx as int, cy as int, n as int),
                decreases 8 - n,
            {
                let dot_row: usize = cy * ASCII_Y_DOTS + n % ASCII_Y_DOTS;
                let dot_col: usize = cx * ASCII_X_DOTS + n / ASCII_Y_DOTS;
                proof {
                    lemma_index_in_range(dot_row as int, dot_col as int, w, h);
                    assert(h * w == w * h) by (nonlinear_arith);
                }
                let idx: usize = dot_row * wu + dot_col;
                assert(values@.map_values(|v: u32| v as int)[n as int] == values@[n as int] as int);
                if img_vec[idx] == 0 {
                    bits = bits + values[n];
                }
                n += 1;
            }
            let code: u32 = 0x2800 + bits;
            let ch: char = match char_from_code(code) {
                Some(c) => c,
                None => {
                    proof {
                        assert(is_scalar_value(code));
                    }
                    '\u{2800}'
                },
            };
            proof {
                vstd::utf8::char_u32_cast(ch, code);
            }
            push_char(&mut braille_text_out, ch);
            cx += 1;
            assert(braille_text_out@ =~= row_start + braille_row(img_vec@, w, cy as int, cx as int));
        }
        push_char(&mut braille_text_out, '\n');
        cy += 1;
        assert(braille_text_out@ =~= braille_text(img_vec@, w, cy as int));
    }
    braille_text_out
}

/// A cell whose eight dots are all ink sets every bit, `0x28FF`; a cell
/// without ink sets none, `0x2800`.
pub proof fn lemma_braille_cell_extremes(img: Seq<u8>, width: int, cx: int, cy: int)
    ensures
        (forall|n: int| 0 <= n < 8 ==> #[trigger] dot_is_ink(img, width, cx, cy, n)) ==> cell_bits(
            img,
            width,
            cx,
            cy,
            8,
        ) == 255 && 0x2800 + cell_bits(img, width, cx, cy, 8) == 0x28FF,
        (forall|n: int| 0 <= n < 8 ==> !#[trigger] dot_is_ink(img, width, cx, cy, n)) ==> cell_bits(
            img,
            width,
            cx,
            cy,
            8,
        ) == 0 && 0x2800 + cell_bits(img, width, cx, cy, 8) == 0x2800,
{
    reveal_with_fuel(cell_bits, 9);
    assert(braille_dot_value() =~= seq![1, 2, 4, 64, 8, 16, 32, 128]);
    if forall|n: int| 0 <= n < 8 ==> #[trigger] dot_is_ink(img, width, cx, cy, n) {
        assert(dot_is_ink(img, width, cx, cy, 0) && dot_is_ink(img, width, cx, cy, 1) && dot_is_ink(img, width, cx, cy, 2)
            && dot_is_ink(img, width, cx, cy, 3) && dot_is_ink(img, width, cx, cy, 4) && dot_is_ink(img, width, cx, cy, 5)
            && dot_is_ink(img, width, cx, cy, 6) && dot_is_ink(img, width, cx, cy, 7));
    }
    if forall|n: int| 0 <= n < 8 ==> !#[trigger] dot_is_ink(img, width, cx, cy, n) {
        assert(!dot_is_ink(img, width, cx, cy, 0) && !dot_is_ink(img, width, cx, cy, 1) && !dot_is_ink(img, width, cx, cy, 2)
            && !dot_is_ink(img, width, cx, cy, 3) && !dot_is_ink(img, width, cx, cy, 4) && !dot_is_ink(img, width, cx, cy, 5)
            && !dot_is_ink(img, width, cx, cy, 6) && !dot_is_ink(img, width, cx, cy, 7));
    }
}

} // verus!
