//! Cropping away the empty border a rotation leaves: the bounding box of
//! the image's content, with a small margin, unless that would cut away too
//! much of the original picture.

use vstd::prelude::*;

verus! {

/// Whether pixel `k` of an RGBA image is content: nearly opaque and not
/// pure black.
pub open spec fn is_content(px: Seq<u8>, k: int) -> bool {
    px[4 * k + 3] > 200 && (px[4 * k] > 5 || px[4 * k + 1] > 5 || px[4 * k + 2] > 5)
}

pub open spec fn min_int(a: int, b: int) -> int {
    if a < b {
        a
    } else {
        b
    }
}

pub open spec fn max_int(a: int, b: int) -> int {
    if a > b {
        a
    } else {
        b
    }
}

/// The bounding box `(min_x, max_x, min_y, max_y)` of the content among the
/// first `n` pixels (row by row) of a `width` x `height` image, starting
/// from `(width, 0, height, 0)`.
pub open spec fn content_box(px: Seq<u8>, width: int, height: int, n: int) -> (int, int, int, int)
    decreases n,
{
    if n <= 0 {
        (width, 0, height, 0)
    } else {
        let (a, b, c, d) = content_box(px, width, height, n - 1);
        let k = n - 1;
        if is_content(px, k) {
            (
                min_int(a, k % width),
                max_int(b, k % width),
                min_int(c, k / width),
                max_int(d, k / width),
            )
        } else {
            (a, b, c, d)
        }
    }
}

/// A region of an image.
#[derive(Debug, Clone, Copy, PartialEq, Eq, Structural)]
pub struct CropRect {
    pub x: u32,
    pub y: u32,
    pub width: u32,
    pub height: u32,
}

/// The crop of a `width` x `height` rotated image whose unrotated original
/// was `original_width` x `original_height`: the content's bounding box
/// widened by 2 pixels each way (within the image), or `None` (keep the
/// image as it is) when there is no content box of at least two rows and
/// two columns, or when the crop would keep less than 70% of the original's
/// area.
pub open spec fn crop_spec(
    px: Seq<u8>,
    width: int,
    height: int,
    original_width: int,
    original_height: int,
) -> Option<(int, int, int, int)> {
    let (a, b, c, d) = content_box(px, width, height, width * height);
    if a >= b || c >= d {
        None
    } else {
        let x0 = if a >= 2 {
            a - 2
        } else {
            0
        };
        let y0 = if c >= 2 {
            c - 2
        } else {
            0
        };
        let x1 = min_int(b + 2, width - 1);
        let y1 = min_int(d + 2, height - 1);
        let w = x1 - x0 + 1;
        let h = y1 - y0 + 1;
        if w * h < original_width * original_height * 70 / 100 {
            None
        } else {
            Some((x0, y0, w, h))
        }
    }
}

/// Whether one of the first `n` pixels is content.
pub open spec fn has_content(px: Seq<u8>, n: int) -> bool {
    exists|k: int| 0 <= k < n && #[trigger] is_content(px, k)
}

/// Column and row of pixel `k` lie in the image.
proof fn lemma_pixel_position(k: int, width: int, height: int)
    requires
        width > 0,
        0 <= k < width * height,
    ensures
        0 <= k % width < width,
        0 <= k / width < height,
{
    vstd::arithmetic::div_mod::lemma_mod_bound(k, width);
    vstd::arithmetic::div_mod::lemma_fundamental_div_mod(k, width);
    vstd::arithmetic::div_mod::lemma_div_pos_is_pos(k, width);
    assert(k / width < height) by (nonlinear_arith)
        requires
            width > 0,
            0 <= k < width * height,
            k == width * (k / width) + (k % width),
            0 <= k % width,
    ;
}

/// The content box of the first `n` pixels holds every content pixel among
/// them, and each of its four sides is reached by one of them; without
/// content it is `(width, 0, height, 0)`.
proof fn lemma_content_box(px: Seq<u8>, width: int, height: int, n: int)
    requires
        width > 0,
        0 <= n <= width * height,
    ensures
        ({
            let (a, b, c, d) = content_box(px, width, height, n);
            &&& forall|k: int|
                0 <= k < n && #[trigger] is_content(px, k) ==> a <= k % width <= b && c <= k
                    / width <= d
            &&& !has_content(px, n) ==> (a, b, c, d) == (width, 0int, height, 0int)
            &&& has_content(px, n) ==> {
                &&& exists|k: int| 0 <= k < n && #[trigger] is_content(px, k) && k % width == a
                &&& exists|k: int| 0 <= k < n && #[trigger] is_content(px, k) && k % width == b
                &&& exists|k: int| 0 <= k < n && #[trigger] is_content(px, k) && k / width == c
                &&& exists|k: int| 0 <= k < n && #[trigger] is_content(px, k) && k / width == d
            }
        }),
    decreases n,
{
    if n > 0 {
        lemma_content_box(px, width, height, n - 1);
        let k = n - 1;
        lemma_pixel_position(k, width, height);
        let (a0, b0, c0, d0) = content_box(px, width, height, n - 1);
        let (a, b, c, d) = content_box(px, width, height, n);
        if is_content(px, k) {
            assert(has_content(px, n));
            if !has_content(px, n - 1) {
                assert(a == k % width && b == k % width && c == k / width && d == k / width);
                assert forall|j: int| 0 <= j < n && #[trigger] is_content(px, j) implies a <= j
                    % width <= b && c <= j / width <= d by {
                    if j < n - 1 {
                        assert(has_content(px, n - 1));
                    }
                }
            } else {
                let ka = choose|j: int| 0 <= j < n - 1 && #[trigger] is_content(px, j) && j % width == a0;
                let kb = choose|j: int| 0 <= j < n - 1 && #[trigger] is_content(px, j) && j % width == b0;
                let kc = choose|j: int| 0 <= j < n - 1 && #[trigger] is_content(px, j) && j / width == c0;
                let kd = choose|j: int| 0 <= j < n - 1 && #[trigger] is_content(px, j) && j / width == d0;
                if a == a0 { assert(is_content(px, ka)); } else { assert(a == k % width); }
                if b == b0 { assert(is_content(px, kb)); } else { assert(b == k % width); }
                if c == c0 { assert(is_content(px, kc)); } else { assert(c == k / width); }
                if d == d0 { assert(is_content(px, kd)); } else { assert(d == k / width); }
            }
        } else {
            assert(has_content(px, n) == has_content(px, n - 1)) by {
                if has_content(px, n) {
                    let j = choose|j: int| 0 <= j < n && #[trigger] is_content(px, j);
                    assert(j < n - 1);
                }
            }
        }
    }
}

/// Law: a crop lies inside the image, keeps every content pixel, and comes
/// no more than the 2-pixel margin past the content on any side: on each
/// side some content pixel lies within 2 pixels of the crop's edge. It
/// keeps at least 70% of the original's area.
pub proof fn law_crop_keeps_the_content(
    px: Seq<u8>,
    width: int,
    height: int,
    original_width: int,
    original_height: int,
    x: int,
    y: int,
    w: int,
    h: int,
)
    requires
        width > 0,
        height > 0,
        crop_spec(px, width, height, original_width, original_height) == Some((x, y, w, h)),
    ensures
        0 <= x,
        0 <= y,
        w > 0,
        h > 0,
        x + w <= width,
        y + h <= height,
        forall|k: int|
            0 <= k < width * height && #[trigger] is_content(px, k) ==> x <= k % width < x + w
                && y <= k / width < y + h,
        exists|k: int|
            0 <= k < width * height && #[trigger] is_content(px, k) && k % width <= x + 2,
        exists|k: int|
            0 <= k < width * height && #[trigger] is_content(px, k) && k % width >= x + w - 3,
        exists|k: int|
            0 <= k < width * height && #[trigger] is_content(px, k) && k / width <= y + 2,
        exists|k: int|
            0 <= k < width * height && #[trigger] is_content(px, k) && k / width >= y + h - 3,
        w * h >= original_width * original_height * 70 / 100,
{
    let n = width * height;
    assert(width * height > 0) by (nonlinear_arith)
        requires
            width > 0,
            height > 0,
    ;
    lemma_content_box(px, width, height, n);
    let (a, b, c, d) = content_box(px, width, height, n);
    assert(has_content(px, n));
    let ka = choose|j: int| 0 <= j < n && #[trigger] is_content(px, j) && j % width == a;
    let kb = choose|j: int| 0 <= j < n && #[trigger] is_content(px, j) && j % width == b;
    let kc = choose|j: int| 0 <= j < n && #[trigger] is_content(px, j) && j / width == c;
    let kd = choose|j: int| 0 <= j < n && #[trigger] is_content(px, j) && j / width == d;
    lemma_pixel_position(ka, width, height);
    lemma_pixel_position(kb, width, height);
    lemma_pixel_position(kc, width, height);
    lemma_pixel_position(kd, width, height);
    assert forall|k: int|
        0 <= k < width * height && #[trigger] is_content(px, k) implies x <= k % width < x + w
            && y <= k / width < y + h by {
        lemma_pixel_position(k, width, height);
    }
}

/// Law: the crop is made whenever the content spans two columns and two
/// rows and the rectangle between those content pixels alone keeps 70% of
/// the original's area.
pub proof fn law_crop_is_made_for_wide_content(
    px: Seq<u8>,
    width: int,
    height: int,
    original_width: int,
    original_height: int,
    k1: int,
    k2: int,
    k3: int,
    k4: int,
)
    requires
        width > 0,
        height > 0,
        0 <= k1 < width * height && is_content(px, k1),
        0 <= k2 < width * height && is_content(px, k2),
        0 <= k3 < width * height && is_content(px, k3),
        0 <= k4 < width * height && is_content(px, k4),
        k1 % width < k2 % width,
        k3 / width < k4 / width,
        (k2 % width - k1 % width + 1) * (k4 / width - k3 / width + 1) >= original_width
            * original_height * 70 / 100,
    ensures
        crop_spec(px, width, height, original_width, original_height) is Some,
{
    let n = width * height;
    lemma_content_box(px, width, height, n);
    lemma_pixel_position(k1, width, height);
    lemma_pixel_position(k2, width, height);
    lemma_pixel_position(k3, width, height);
    lemma_pixel_position(k4, width, height);
    let (a, b, c, d) = content_box(px, width, height, n);
    assert(is_content(px, k1) && is_content(px, k2) && is_content(px, k3) && is_content(px, k4));
    let x0 = if a >= 2 { a - 2 } else { 0 };
    let y0 = if c >= 2 { c - 2 } else { 0 };
    let x1 = min_int(b + 2, width - 1);
    let y1 = min_int(d + 2, height - 1);
    let w = x1 - x0 + 1;
    let h = y1 - y0 + 1;
    let p = k2 % width - k1 % width + 1;
    let q = k4 / width - k3 / width + 1;
    assert(w >= p && p > 0 && h >= q && q > 0);
    assert(w * h >= p * q) by (nonlinear_arith)
        requires
            w >= p > 0,
            h >= q > 0,
    ;
}

/// Finds the crop that removes the empty border; see [`crop_spec`].
pub fn crop_to_content(
    rgba: &[u8],
    width: u32,
    height: u32,
    original_width: u32,
    original_height: u32,
) -> (r: Option<CropRect>)
    requires
        rgba@.len() == 4 * width * height,
        width * height <= u32::MAX,
        original_width * original_height * 70 <= u32::MAX,
    ensures
        match crop_spec(
            rgba@,
            width as int,
            height as int,
            original_width as int,
            original_height as int,
        ) {
            Some((x, y, w, h)) => r == Some(
                CropRect { x: x as u32, y: y as u32, width: w as u32, height: h as u32 },
            ),
            None => r is None,
        },
{
    let ghost px = rgba@;
    let ghost wi = width as int;
    let ghost hi = height as int;
    let mut min_x: u32 = width;
    let mut max_x: u32 = 0;
    let mut min_y: u32 = height;
    let mut max_y: u32 = 0;
    let mut y: u32 = 0;
    let n = rgba.len();
    while y < height
        invariant
            n == rgba@.len(),
            px == rgba@,
            wi == width,
            hi == height,
            rgba@.len() == 4 * width * height,
            width * height <= u32::MAX,
            y <= height,
            (min_x as int, max_x as int, min_y as int, max_y as int) == content_box(
                px,
                wi,
                hi,
                y * wi,
            ),
            max_x < width || (max_x == 0),
            max_y < height || (max_y == 0),
            min_x <= width,
            min_y <= height,
        decreases height - y,
    {
        let mut x: u32 = 0;
        while x < width
            invariant
                n == rgba@.len(),
                px == rgba@,
                wi == width,
                hi == height,
                rgba@.len() == 4 * width * height,
                width * height <= u32::MAX,
                y < height,
                x <= width,
                (min_x as int, max_x as int, min_y as int, max_y as int) == content_box(
                    px,
                    wi,
                    hi,
                    y * wi + x,
                ),
                max_x < width || (max_x == 0),
                max_y < height || (max_y == 0),
                min_x <= width,
                min_y <= height,
            decreases width - x,
        {
            let ghost k = y * wi + x;
            proof {
                vstd::arithmetic::div_mod::lemma_fundamental_div_mod_converse(
                    k,
                    wi,
                    y as int,
                    x as int,
                );
                assert(k + 1 <= y * wi + wi);
                assert(y * wi + wi == (y + 1) * wi) by (nonlinear_arith);
                assert((y + 1) * wi <= hi * wi) by (nonlinear_arith)
                    requires
                        y < hi,
                        0 <= wi,
                ;
                assert(hi * wi == wi * hi) by (nonlinear_arith);
                assert(4 * width * height == 4 * (wi * hi)) by (nonlinear_arith)
                    requires
                        wi == width,
                        hi == height,
                ;
                assert(4 * k + 3 < n);
            }
            let i = 4 * (y as usize * width as usize + x as usize);
            let content = rgba[i + 3] > 200 && (rgba[i] > 5 || rgba[i + 1] > 5 || rgba[i + 2]
                > 5);
            if content {
                if x < min_x {
                    min_x = x;
                }
                if x > max_x {
                    max_x = x;
                }
                if y < min_y {
                    min_y = y;
                }
                if y > max_y {
                    max_y = y;
                }
            }
            x = x + 1;
        }
        proof {
            assert(y * wi + wi == (y + 1) * wi) by (nonlinear_arith);
        }
        y = y + 1;
    }
    proof {
        assert(wi * hi == hi * wi) by (nonlinear_arith);
        assert(y * wi == wi * hi);
    }
    if min_x >= max_x || min_y >= max_y {
        return None;
    }
    assert(width <= u32::MAX / 2) by (nonlinear_arith)
        requires
            width * height <= u32::MAX,
            height >= 2,
    ;
    let x0 = if min_x >= 2 {
        min_x - 2
    } else {
        0
    };
    let y0 = if min_y >= 2 {
        min_y - 2
    } else {
        0
    };
    let x1 = if max_x + 2 < width - 1 {
        max_x + 2
    } else {
        width - 1
    };
    let y1 = if max_y + 2 < height - 1 {
        max_y + 2
    } else {
        height - 1
    };
    let w = x1 - x0 + 1;
    let h = y1 - y0 + 1;
    assert(w * h <= width * height) by (nonlinear_arith)
        requires
            w <= width,
            h <= height,
    ;
    let original_area = original_width * original_height;
    if w * h < original_area * 70 / 100 {
        return None;
    }
    Some(CropRect { x: x0, y: y0, width: w, height: h })
}

} // verus!
