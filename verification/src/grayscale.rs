//! Packing of one-byte grayscale pixels into 32-bit words, four pixels per
//! word, least significant byte first (the layout GPU buffers expect), and
//! the way back.

use vstd::prelude::*;

verus! {

/// The pixel at `i`, or 0 past the end (padding of the last word).
pub open spec fn pixel_or_zero(pixels: Seq<u8>, i: int) -> int {
    if 0 <= i < pixels.len() {
        pixels[i] as int
    } else {
        0
    }
}

/// The word that holds pixels `4w .. 4w+3`, the first in the lowest byte.
pub open spec fn packed_word(pixels: Seq<u8>, w: int) -> int {
    pixel_or_zero(pixels, 4 * w) + pixel_or_zero(pixels, 4 * w + 1) * 0x100 + pixel_or_zero(
        pixels,
        4 * w + 2,
    ) * 0x10000 + pixel_or_zero(pixels, 4 * w + 3) * 0x1000000
}

/// Byte `k` (0 = least significant) of `x`.
pub open spec fn byte_of(x: u32, k: int) -> u8 {
    if k == 0 {
        (x % 0x100) as u8
    } else if k == 1 {
        ((x / 0x100) % 0x100) as u8
    } else if k == 2 {
        ((x / 0x10000) % 0x100) as u8
    } else {
        ((x / 0x1000000) % 0x100) as u8
    }
}

/// The pixel at `i` unpacked from `words`, or 0 where the words run out.
pub open spec fn unpacked_pixel(words: Seq<u32>, i: int) -> u8 {
    if i / 4 < words.len() {
        byte_of(words[i / 4], i % 4)
    } else {
        0
    }
}

proof fn lemma_compose(a: u8, b: u8, c: u8, d: u8)
    ensures
        ((a as u32) | ((b as u32) << 8u32) | ((c as u32) << 16u32) | ((d as u32) << 24u32)) as int
            == a as int + b as int * 0x100 + c as int * 0x10000 + d as int * 0x1000000,
{
    assert(((a as u32) | ((b as u32) << 8u32) | ((c as u32) << 16u32) | ((d as u32) << 24u32))
        == a as u32 + b as u32 * 0x100 + c as u32 * 0x10000 + d as u32 * 0x1000000)
        by (bit_vector);
}

/// Byte `k` of `x`, computed with shifts and a mask.
fn extract_byte(x: u32, k: usize) -> (b: u8)
    requires
        k < 4,
    ensures
        b == byte_of(x, k as int),
{
    if k == 0 {
        assert((x & 0xff) == x % 0x100) by (bit_vector);
        (x & 0xff) as u8
    } else if k == 1 {
        assert(((x >> 8u32) & 0xff) == (x / 0x100) % 0x100) by (bit_vector);
        ((x >> 8u32) & 0xff) as u8
    } else if k == 2 {
        assert(((x >> 16u32) & 0xff) == (x / 0x10000) % 0x100) by (bit_vector);
        ((x >> 16u32) & 0xff) as u8
    } else {
        assert(((x >> 24u32) & 0xff) == (x / 0x1000000) % 0x100) by (bit_vector);
        ((x >> 24u32) & 0xff) as u8
    }
}

/// Packs grayscale pixels four to a word, first pixel in the lowest byte;
/// the last word is padded with zeros.
pub fn pack_grayscale(pixels: &[u8]) -> (packed: Vec<u32>)
    requires
        pixels@.len() + 3 <= usize::MAX,
    ensures
        packed@.len() == (pixels@.len() + 3) / 4,
        forall|w: int| 0 <= w < packed@.len() ==> packed@[w] as int == packed_word(pixels@, w),
{
    let n = pixels.len();
    let words = (n + 3) / 4;
    let mut packed: Vec<u32> = Vec::new();
    let mut w: usize = 0;
    while w < words
        invariant
            n == pixels@.len(),
            words == (n + 3) / 4,
            w <= words,
            packed@.len() == w,
            forall|j: int| 0 <= j < w ==> packed@[j] as int == packed_word(pixels@, j),
        decreases words - w,
    {
        let base = 4 * w;
        let a: u8 = if base < n { pixels[base] } else { 0 };
        let b: u8 = if base + 1 < n { pixels[base + 1] } else { 0 };
        let c: u8 = if base + 2 < n { pixels[base + 2] } else { 0 };
        let d: u8 = if base + 3 < n { pixels[base + 3] } else { 0 };
        proof {
            lemma_compose(a, b, c, d);
        }
        let word = (a as u32) | ((b as u32) << 8u32) | ((c as u32) << 16u32) | ((d as u32)
            << 24u32);
        packed.push(word);
        w = w + 1;
    }
    packed
}

/// Unpacks `width * height` grayscale pixels from `words`; pixels past the
/// end of `words` are 0.
pub fn unpack_grayscale(words: &[u32], width: u32, height: u32) -> (pixels: Vec<u8>)
    requires
        width * height <= u32::MAX,
    ensures
        pixels@.len() == width * height,
        forall|i: int| 0 <= i < pixels@.len() ==> pixels@[i] == unpacked_pixel(words@, i),
{
    let total = (width * height) as usize;
    let mut result: Vec<u8> = Vec::new();
    let mut i: usize = 0;
    while i < total
        invariant
            total == width * height,
            i <= total,
            result@.len() == i,
            forall|j: int| 0 <= j < i ==> result@[j] == unpacked_pixel(words@, j),
        decreases total - i,
    {
        let word_idx = i / 4;
        let byte_idx = i % 4;
        if word_idx < words.len() {
            let b = extract_byte(words[word_idx], byte_idx);
            result.push(b);
        } else {
            result.push(0);
        }
        i = i + 1;
    }
    result
}

/// Law: unpacking what was packed gives back the pixels.
pub proof fn law_unpack_after_pack(pixels: Seq<u8>, packed: Seq<u32>)
    requires
        packed.len() == (pixels.len() + 3) / 4,
        forall|w: int| 0 <= w < packed.len() ==> packed[w] as int == packed_word(pixels, w),
    ensures
        forall|i: int| 0 <= i < pixels.len() ==> unpacked_pixel(packed, i) == pixels[i],
        Seq::new(pixels.len(), |i: int| unpacked_pixel(packed, i)) == pixels,
{
    assert forall|i: int| 0 <= i < pixels.len() implies unpacked_pixel(packed, i) == pixels[i] by {
        let w = i / 4;
        let k = i % 4;
        assert(w < packed.len());
        let a = pixel_or_zero(pixels, 4 * w) as u8;
        let b = pixel_or_zero(pixels, 4 * w + 1) as u8;
        let c = pixel_or_zero(pixels, 4 * w + 2) as u8;
        let d = pixel_or_zero(pixels, 4 * w + 3) as u8;
        let x = packed[w];
        assert(x == a as u32 + b as u32 * 0x100 + c as u32 * 0x10000 + d as u32 * 0x1000000);
        lemma_bytes_of(x, a, b, c, d);
        assert(i == 4 * w + k);
    }
    assert(Seq::new(pixels.len(), |i: int| unpacked_pixel(packed, i)) =~= pixels);
}

proof fn lemma_bytes_of(x: u32, a: u8, b: u8, c: u8, d: u8)
    requires
        x == a as u32 + b as u32 * 0x100 + c as u32 * 0x10000 + d as u32 * 0x1000000,
    ensures
        x % 0x100 == a,
        (x / 0x100) % 0x100 == b,
        (x / 0x10000) % 0x100 == c,
        (x / 0x1000000) % 0x100 == d,
{
    assert(x == a as u32 + b as u32 * 0x100 + c as u32 * 0x10000 + d as u32 * 0x1000000 ==> x
        % 0x100 == a && (x / 0x100) % 0x100 == b && (x / 0x10000) % 0x100 == c && (x / 0x1000000)
        % 0x100 == d) by (bit_vector);
}

/// The pixel of a `width`-wide grayscale image at column `x`, row `y`.
pub open spec fn gray_at(px: Seq<u8>, width: int, x: int, y: int) -> int {
    px[y * width + x] as int
}

/// Pixel `(x, y)` of the image halved in each direction: the floor of the
/// mean of the 2x2 block at `(2x, 2y)`.
pub open spec fn halved_pixel(px: Seq<u8>, width: int, x: int, y: int) -> int {
    (gray_at(px, width, 2 * x, 2 * y) + gray_at(px, width, 2 * x + 1, 2 * y) + gray_at(
        px,
        width,
        2 * x,
        2 * y + 1,
    ) + gray_at(px, width, 2 * x + 1, 2 * y + 1)) / 4
}

/// Halves a `width` x `height` grayscale image in each direction (an odd
/// last row or column is dropped), each pixel the floor of the mean of a
/// 2x2 block.
pub fn downsample_gray(gray: &[u8], width: u32, height: u32) -> (r: Vec<u8>)
    requires
        gray@.len() == width * height,
        width * height <= usize::MAX,
    ensures
        r@.len() == (width / 2) * (height / 2),
        forall|y: int, x: int|
            0 <= y < height / 2 && 0 <= x < width / 2 ==> #[trigger] r@[y * (width / 2) + x]
                == halved_pixel(gray@, width as int, x, y),
{
    let w = width as usize;
    let nw = (width / 2) as usize;
    let nh = (height / 2) as usize;
    let mut out: Vec<u8> = Vec::new();
    let mut y: usize = 0;
    while y < nh
        invariant
            w == width,
            nw == width / 2,
            nh == height / 2,
            gray@.len() == width * height,
            width * height <= usize::MAX,
            y <= nh,
            out@.len() == y * nw,
            forall|yy: int, x: int|
                0 <= yy < y && 0 <= x < nw ==> #[trigger] out@[yy * nw + x] == halved_pixel(
                    gray@,
                    width as int,
                    x,
                    yy,
                ),
        decreases nh - y,
    {
        assert((2 * y + 2) * w <= width * height) by (nonlinear_arith)
            requires
                y < nh,
                nh == height / 2,
                w == width,
        ;
        let mut x: usize = 0;
        while x < nw
            invariant
                w == width,
                nw == width / 2,
                nh == height / 2,
                gray@.len() == width * height,
                width * height <= usize::MAX,
                y < nh,
                (2 * y + 2) * w <= width * height,
                x <= nw,
                out@.len() == y * nw + x,
                forall|yy: int, xx: int|
                    0 <= yy < y && 0 <= xx < nw ==> #[trigger] out@[yy * nw + xx] == halved_pixel(
                        gray@,
                        width as int,
                        xx,
                        yy,
                    ),
                forall|xx: int|
                    0 <= xx < x ==> #[trigger] out@[y * nw + xx] == halved_pixel(
                        gray@,
                        width as int,
                        xx,
                        y as int,
                    ),
            decreases nw - x,
        {
            assert(2 * x + 1 < w);
            assert((2 * y + 1) * w + 2 * x + 1 < (2 * y + 2) * w) by (nonlinear_arith)
                requires
                    2 * x + 1 < w,
            ;
            assert((2 * y) * w + w == (2 * y + 1) * w) by (nonlinear_arith);
            let top = 2 * y * w + 2 * x;
            let bottom = (2 * y + 1) * w + 2 * x;
            let sum = gray[top] as u16 + gray[top + 1] as u16 + gray[bottom] as u16 + gray[bottom
                + 1] as u16;
            let ghost before = out@;
            out.push((sum / 4) as u8);
            proof {
                assert(top == (2 * y) * width + 2 * x) by (nonlinear_arith)
                    requires
                        top == 2 * y * w + 2 * x,
                        w == width,
                ;
                assert(y * nw + x == before.len());
                assert forall|yy: int, xx: int|
                    0 <= yy < y && 0 <= xx < nw implies #[trigger] out@[yy * nw + xx]
                    == halved_pixel(gray@, width as int, xx, yy) by {
                    assert(yy * nw + xx < y * nw) by (nonlinear_arith)
                        requires
                            yy < y,
                            xx < nw,
                    ;
                    assert(out@[yy * nw + xx] == before[yy * nw + xx]);
                }
                assert forall|xx: int| 0 <= xx < x + 1 implies #[trigger] out@[y * nw + xx]
                    == halved_pixel(gray@, width as int, xx, y as int) by {
                    if xx < x {
                        assert(out@[y * nw + xx] == before[y * nw + xx]);
                    }
                }
            }
            x = x + 1;
        }
        assert((y + 1) * nw == y * nw + nw) by (nonlinear_arith);
        y = y + 1;
    }
    assert(nh * nw == (width / 2) * (height / 2)) by (nonlinear_arith)
        requires
            nw == width / 2,
            nh == height / 2,
    ;
    assert forall|yy: int, xx: int|
        0 <= yy < height / 2 && 0 <= xx < width / 2 implies #[trigger] out@[yy * (width / 2) + xx]
        == halved_pixel(gray@, width as int, xx, yy) by {
        assert(out@[yy * nw + xx] == halved_pixel(gray@, width as int, xx, yy));
    }
    out
}

} // verus!
