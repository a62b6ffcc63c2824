//! Row-major pixel buffers: the shape they must have and the arithmetic of
//! their indices.
use vstd::prelude::*;

verus! {

/// A buffer of `width * height` pixels with the same number of samples per
/// pixel, at least one.
pub open spec fn valid_buffer(len: int, width: u32, height: u32) -> bool {
    &&& width > 0
    &&& height > 0
    &&& len % (width * height) == 0
    &&& len >= width * height
}

/// Samples per pixel of a buffer of `len` bytes.
pub open spec fn channels_of(len: int, width: u32, height: u32) -> int {
    len / (width * height)
}

pub proof fn lemma_layout(len: int, width: u32, height: u32)
    requires
        valid_buffer(len, width, height),
    ensures
        width * height > 0,
        width * height <= len,
        channels_of(len, width, height) >= 1,
        len == (width * height) * channels_of(len, width, height),
{
    let wh = width * height;
    assert(wh > 0) by (nonlinear_arith)
        requires
            width > 0,
            height > 0,
            wh == width * height,
    ;
    vstd::arithmetic::div_mod::lemma_fundamental_div_mod(len, wh);
    let c = len / wh;
    assert(c >= 1) by (nonlinear_arith)
        requires
            len == wh * c,
            len >= wh,
            wh > 0,
    ;
}

/// Sample `n` of pixel `p` sits at `p * c + n`, and nowhere else.
pub proof fn lemma_pixel_index(p: int, n: int, c: int)
    requires
        p >= 0,
        0 <= n < c,
    ensures
        (p * c + n) / c == p,
        (p * c + n) % c == n,
{
    vstd::arithmetic::div_mod::lemma_fundamental_div_mod_converse(p * c + n, c, p, n);
}

pub proof fn lemma_index_in_range(p: int, n: int, c: int, m: int)
    requires
        0 <= p < m,
        0 <= n < c,
    ensures
        0 <= p * c + n < m * c,
{
    assert(0 <= p * c + n < m * c) by (nonlinear_arith)
        requires
            0 <= p < m,
            0 <= n < c,
    ;
}

/// The first sample of each of the first `n` pixels of a buffer with `c`
/// samples per pixel.
pub open spec fn first_channel(img: Seq<u8>, c: int, n: int) -> Seq<u8> {
    Seq::new(n as nat, |p: int| img[p * c])
}

/// Counting on by one from `i`, the position within a row of `w` wraps to 0
/// at the row's end.
pub proof fn lemma_next_column(i: int, w: int)
    requires
        i >= 0,
        w > 0,
    ensures
        (i + 1) % w == if i % w + 1 == w {
            0
        } else {
            i % w + 1
        },
{
    vstd::arithmetic::div_mod::lemma_fundamental_div_mod(i, w);
    let q = i / w;
    let r = i % w;
    assert(i + 1 == (q + 1) * w + (r + 1 - w) && i + 1 == q * w + (r + 1)) by (nonlinear_arith)
        requires
            i == w * q + r,
    ;
    if i % w + 1 == w {
        vstd::arithmetic::div_mod::lemma_fundamental_div_mod_converse(i + 1, w, q + 1, 0);
    } else {
        vstd::arithmetic::div_mod::lemma_fundamental_div_mod_converse(i + 1, w, q, i % w + 1);
    }
}

} // verus!
