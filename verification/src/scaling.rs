//! Choosing how far to scale a JPEG down while decoding it, and how many
//! workers the background batch work gets.
//!
//! The JPEG decoder can scale by 1/8, 1/4, 1/2 or 1 in the DCT domain; a
//! dimension `d` scaled by `1/n` becomes `ceil(d / n)`.

use vstd::prelude::*;

verus! {

/// A dimension scaled by `1/denom`, rounded up.
pub open spec fn scaled_dim(dim: int, denom: int) -> int {
    (dim + denom - 1) / denom
}

/// The denominator of the smallest decoding scale (among 1/8, 1/4, 1/2
/// and 1) whose longest side is still at least `max_size`; 1 (no scaling)
/// when the image is no larger than that already.
pub open spec fn jpeg_scale_spec(width: int, height: int, max_size: int) -> int {
    let m = if width > height {
        width
    } else {
        height
    };
    if m <= max_size {
        1
    } else if scaled_dim(m, 8) >= max_size {
        8
    } else if scaled_dim(m, 4) >= max_size {
        4
    } else if scaled_dim(m, 2) >= max_size {
        2
    } else {
        1
    }
}

/// A dimension scaled by `1/denom`, rounded up, as the decoder scales it.
pub fn scale_dimension(dim: usize, denom: usize) -> (r: usize)
    requires
        denom > 0,
        dim + denom <= usize::MAX,
    ensures
        r == scaled_dim(dim as int, denom as int),
{
    (dim + denom - 1) / denom
}

/// Picks the decoding scale for a `width` x `height` JPEG shown at most
/// `max_size` pixels on its longest side; see [`jpeg_scale_spec`].
pub fn jpeg_scale_denominator(width: usize, height: usize, max_size: u32) -> (r: usize)
    requires
        width + 8 <= usize::MAX,
        height + 8 <= usize::MAX,
    ensures
        r == jpeg_scale_spec(width as int, height as int, max_size as int),
        r == 1 || r == 2 || r == 4 || r == 8,
{
    let m = if width > height {
        width
    } else {
        height
    };
    let limit = max_size as usize;
    if m <= limit {
        1
    } else if scale_dimension(m, 8) >= limit {
        8
    } else if scale_dimension(m, 4) >= limit {
        4
    } else if scale_dimension(m, 2) >= limit {
        2
    } else {
        1
    }
}

/// The size a JPEG decodes to at scale `1/denom`.
pub fn scaled_size(width: usize, height: usize, denom: usize) -> (r: (usize, usize))
    requires
        denom > 0,
        width + denom <= usize::MAX,
        height + denom <= usize::MAX,
    ensures
        r.0 == scaled_dim(width as int, denom as int),
        r.1 == scaled_dim(height as int, denom as int),
{
    (scale_dimension(width, denom), scale_dimension(height, denom))
}

/// Law: the chosen scale never takes the longest side below `max_size`
/// unless no scaling happens at all, and no stronger scale would also keep
/// it there.
pub proof fn law_scale_keeps_size(width: int, height: int, max_size: int)
    requires
        width >= 0,
        height >= 0,
    ensures
        ({
            let d = jpeg_scale_spec(width, height, max_size);
            let m = if width > height {
                width
            } else {
                height
            };
            &&& d == 1 || scaled_dim(m, d) >= max_size
            &&& m > max_size ==> forall|e: int|
                (e == 2 || e == 4 || e == 8) && e > d ==> scaled_dim(m, e) < max_size
        }),
{
}

/// The workers for background batch work: half the available cores, but
/// at least two.
pub fn background_workers(available: usize) -> (r: usize)
    ensures
        r == if available / 2 > 2 {
            available / 2
        } else {
            2
        },
{
    let half = available / 2;
    if half > 2 {
        half
    } else {
        2
    }
}

} // verus!
