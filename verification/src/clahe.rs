//! The integer steps of contrast-limited adaptive histogram equalisation
//! (CLAHE) on a grayscale image: the 8x8 grid of tiles, each tile's
//! histogram, clipping it at a limit and spreading what was clipped evenly,
//! and its cumulative histogram. Turning those into the per-tile mappings
//! and blending the tiles is floating-point work done by the caller.

use vstd::prelude::*;

verus! {

/// Tiles per row and per column.
pub const CLAHE_GRID: usize = 8;

/// The number of gray levels.
pub const GRAY_LEVELS: usize = 256;

/// `ceil(n / d)`.
pub open spec fn ceil_div(n: int, d: int) -> int {
    (n + d - 1) / d
}

/// The width and height of a tile of a `width` x `height` image:
/// `ceil(width / 8)` and `ceil(height / 8)`.
pub fn clahe_tile_size(width: usize, height: usize) -> (r: (usize, usize))
    ensures
        r.0 == ceil_div(width as int, 8),
        r.1 == ceil_div(height as int, 8),
{
    let tw = width / 8 + if width % 8 != 0 {
        1usize
    } else {
        0usize
    };
    let th = height / 8 + if height % 8 != 0 {
        1usize
    } else {
        0usize
    };
    (tw, th)
}

/// The pixels of tile `(tx, ty)`: columns `x0..x1` and rows `y0..y1`, where
/// `x0 = tx * tile_width` and `x1 = min((tx + 1) * tile_width, width)`, and
/// likewise for rows. A tile past the image's edge is empty.
pub fn tile_bounds(
    tx: usize,
    ty: usize,
    tile_width: usize,
    tile_height: usize,
    width: usize,
    height: usize,
) -> (r: (usize, usize, usize, usize))
    requires
        tx < CLAHE_GRID,
        ty < CLAHE_GRID,
        tile_width == ceil_div(width as int, 8),
        tile_height == ceil_div(height as int, 8),
        width + 8 <= usize::MAX,
        height + 8 <= usize::MAX,
    ensures
        r.0 == tx * tile_width,
        r.1 == ty * tile_height,
        r.2 == if (tx + 1) * tile_width < width {
            (tx + 1) * tile_width
        } else {
            width as int
        },
        r.3 == if (ty + 1) * tile_height < height {
            (ty + 1) * tile_height
        } else {
            height as int
        },
{
    assert(tile_width * 8 <= width + 7) by (nonlinear_arith)
        requires
            tile_width == (width + 7) / 8,
    ;
    assert(tile_height * 8 <= height + 7) by (nonlinear_arith)
        requires
            tile_height == (height + 7) / 8,
    ;
    assert(tx * tile_width <= (tx + 1) * tile_width <= 8 * tile_width) by (nonlinear_arith)
        requires
            tx < 8,
    ;
    assert(ty * tile_height <= (ty + 1) * tile_height <= 8 * tile_height) by (nonlinear_arith)
        requires
            ty < 8,
    ;
    let x0 = tx * tile_width;
    let y0 = ty * tile_height;
    let xe = (tx + 1) * tile_width;
    let ye = (ty + 1) * tile_height;
    let x1 = if xe < width {
        xe
    } else {
        width
    };
    let y1 = if ye < height {
        ye
    } else {
        height
    };
    (x0, y0, x1, y1)
}

/// How many of the pixels `x0..x` of row `y` have gray level `v`.
pub open spec fn row_count(px: Seq<u8>, width: int, y: int, x0: int, x: int, v: int) -> nat
    decreases x - x0,
{
    if x <= x0 {
        0
    } else {
        row_count(px, width, y, x0, x - 1, v) + if px[y * width + x - 1] == v {
            1nat
        } else {
            0nat
        }
    }
}

/// How many pixels of columns `x0..x1` and rows `y0..y` have level `v`.
pub open spec fn region_count(
    px: Seq<u8>,
    width: int,
    x0: int,
    x1: int,
    y0: int,
    y: int,
    v: int,
) -> nat
    decreases y - y0,
{
    if y <= y0 {
        0
    } else {
        region_count(px, width, x0, x1, y0, y - 1, v) + row_count(px, width, y - 1, x0, x1, v)
    }
}

/// The sum of the first `n` entries of `h`.
pub open spec fn total(h: Seq<u32>, n: int) -> nat
    decreases n,
{
    if n <= 0 {
        0
    } else {
        total(h, n - 1) + h[n - 1] as nat
    }
}

proof fn lemma_total_grows(h: Seq<u32>, i: int, n: int)
    requires
        0 <= i <= n <= h.len(),
    ensures
        total(h, i) <= total(h, n),
    decreases n - i,
{
    if i < n {
        lemma_total_grows(h, i, n - 1);
    }
}

proof fn lemma_entry_le_total(h: Seq<u32>, i: int, n: int)
    requires
        0 <= i < n <= h.len(),
    ensures
        h[i] <= total(h, n),
    decreases n,
{
    if i < n - 1 {
        lemma_entry_le_total(h, i, n - 1);
    } else {
        lemma_total_grows(h, 0, n - 1);
    }
}

/// `total` after one entry is increased by one.
proof fn lemma_total_bump(h: Seq<u32>, v: int, n: int)
    requires
        0 <= v < h.len(),
        0 <= n <= h.len(),
        h[v] < u32::MAX,
    ensures
        total(h.update(v, (h[v] + 1) as u32), n) == total(h, n) + if v < n {
            1int
        } else {
            0int
        },
    decreases n,
{
    if n > 0 {
        lemma_total_bump(h, v, n - 1);
    }
}

/// The histogram of the pixels of columns `x0..x1`, rows `y0..y1` of an
/// image `width` pixels wide, and the number of those pixels.
pub fn region_histogram(
    pixels: &[u8],
    width: usize,
    x0: usize,
    x1: usize,
    y0: usize,
    y1: usize,
) -> (r: (Vec<u32>, u32))
    requires
        x0 <= x1 <= width,
        y0 <= y1,
        y1 * width <= pixels@.len(),
        (x1 - x0) * (y1 - y0) <= u32::MAX,
    ensures
        r.0@.len() == GRAY_LEVELS,
        forall|v: int|
            0 <= v < 256 ==> #[trigger] r.0@[v] == region_count(
                pixels@,
                width as int,
                x0 as int,
                x1 as int,
                y0 as int,
                y1 as int,
                v,
            ),
        r.1 == (x1 - x0) * (y1 - y0),
{
    let mut hist: Vec<u32> = Vec::new();
    let mut k: usize = 0;
    while k < GRAY_LEVELS
        invariant
            k <= GRAY_LEVELS,
            hist@.len() == k,
            forall|v: int| 0 <= v < k ==> hist@[v] == 0,
        decreases GRAY_LEVELS - k,
    {
        hist.push(0);
        k = k + 1;
    }
    proof {
        assert(total(hist@, 256) == 0) by {
            assert forall|n: int| 0 <= n <= 256 implies total(hist@, n) == 0 by {
                lemma_total_zero(hist@, n);
            }
        }
    }
    let mut count: u32 = 0;
    let mut y: usize = y0;
    let n = pixels.len();
    while y < y1
        invariant
            n == pixels@.len(),
            x0 <= x1 <= width,
            y0 <= y <= y1,
            y1 * width <= pixels@.len(),
            (x1 - x0) * (y1 - y0) <= u32::MAX,
            hist@.len() == 256,
            count == (x1 - x0) * (y - y0),
            total(hist@, 256) == count,
            forall|v: int|
                0 <= v < 256 ==> #[trigger] hist@[v] == region_count(
                    pixels@,
                    width as int,
                    x0 as int,
                    x1 as int,
                    y0 as int,
                    y as int,
                    v,
                ),
        decreases y1 - y,
    {
        assert((x1 - x0) * (y - y0) + (x1 - x0) == (x1 - x0) * (y + 1 - y0)) by (nonlinear_arith);
        assert((x1 - x0) * (y + 1 - y0) <= (x1 - x0) * (y1 - y0)) by (nonlinear_arith)
            requires
                y + 1 <= y1,
                x0 <= x1,
        ;
        assert((y + 1) * width <= y1 * width) by (nonlinear_arith)
            requires
                y + 1 <= y1,
                0 <= width,
        ;
        assert(y * width + width == (y + 1) * width) by (nonlinear_arith);
        assert(y * width + width <= pixels@.len());
        let row = y * width;
        let mut x: usize = x0;
        while x < x1
            invariant
                n == pixels@.len(),
                x0 <= x <= x1 <= width,
                y0 <= y < y1,
                row == y * width,
                row + width <= pixels@.len(),
                hist@.len() == 256,
                count == (x1 - x0) * (y - y0) + (x - x0),
                count + (x1 - x) <= u32::MAX,
                total(hist@, 256) == count,
                forall|v: int|
                    0 <= v < 256 ==> #[trigger] hist@[v] == region_count(
                        pixels@,
                        width as int,
                        x0 as int,
                        x1 as int,
                        y0 as int,
                        y as int,
                        v,
                    ) + row_count(pixels@, width as int, y as int, x0 as int, x as int, v),
            decreases x1 - x,
        {
            let v = pixels[row + x] as usize;
            let ghost before = hist@;
            proof {
                lemma_entry_le_total(before, v as int, 256);
            }
            let cur = hist[v];
            hist.set(v, cur + 1);
            proof {
                lemma_total_bump(before, v as int, 256);
                assert(hist@ == before.update(v as int, (before[v as int] + 1) as u32));
                assert forall|u: int| 0 <= u < 256 implies #[trigger] hist@[u] == region_count(
                    pixels@,
                    width as int,
                    x0 as int,
                    x1 as int,
                    y0 as int,
                    y as int,
                    u,
                ) + row_count(pixels@, width as int, y as int, x0 as int, x + 1, u) by {
                    assert(pixels@[y * width + (x + 1) - 1] == pixels@[row + x]);
                }
            }
            count = count + 1;
            x = x + 1;
        }
        y = y + 1;
    }
    (hist, count)
}

proof fn lemma_total_zero(h: Seq<u32>, n: int)
    requires
        0 <= n <= h.len(),
        forall|v: int| 0 <= v < h.len() ==> h[v] == 0,
    ensures
        total(h, n) == 0,
    decreases n,
{
    if n > 0 {
        lemma_total_zero(h, n - 1);
    }
}

/// What clipping at `limit` cuts from the first `n` entries.
pub open spec fn excess(h: Seq<u32>, limit: int, n: int) -> nat
    decreases n,
{
    if n <= 0 {
        0
    } else {
        excess(h, limit, n - 1) + if h[n - 1] > limit {
            (h[n - 1] - limit) as nat
        } else {
            0nat
        }
    }
}

/// An entry clipped at `limit`.
pub open spec fn clipped(x: int, limit: int) -> int {
    if x > limit {
        limit
    } else {
        x
    }
}

/// Clipping one entry and adding all that was cut stays within the total.
proof fn lemma_clip_bound(h: Seq<u32>, limit: int, i: int, n: int)
    requires
        0 <= n <= h.len(),
        0 <= limit,
    ensures
        (if 0 <= i < n {
            clipped(h[i] as int, limit)
        } else {
            0
        }) + excess(h, limit, n) <= total(h, n),
    decreases n,
{
    if n > 0 {
        lemma_clip_bound(h, limit, i, n - 1);
    }
}

/// The histogram clipped at `limit`, with what was cut spread evenly over
/// all 256 levels (the remainder of that division is dropped).
pub open spec fn clip_and_spread(h: Seq<u32>, limit: int, v: int) -> int {
    clipped(h[v] as int, limit) + excess(h, limit, 256) / 256
}

/// Clips a 256-level histogram at `limit` and spreads what was cut:
/// every level becomes `min(h, limit) + excess / 256`.
pub fn clip_histogram(hist: &mut Vec<u32>, limit: u32)
    requires
        old(hist)@.len() == GRAY_LEVELS,
        total(old(hist)@, 256) <= u32::MAX,
    ensures
        final(hist)@.len() == GRAY_LEVELS,
        forall|v: int|
            0 <= v < 256 ==> #[trigger] final(hist)@[v] == clip_and_spread(
                old(hist)@,
                limit as int,
                v,
            ),
{
    let ghost h0 = hist@;
    let mut cut: u32 = 0;
    let mut k: usize = 0;
    while k < GRAY_LEVELS
        invariant
            k <= 256,
            hist@.len() == 256,
            h0.len() == 256,
            total(h0, 256) <= u32::MAX,
            cut == excess(h0, limit as int, k as int),
            forall|v: int| 0 <= v < k ==> #[trigger] hist@[v] == clipped(h0[v] as int, limit as int),
            forall|v: int| k <= v < 256 ==> #[trigger] hist@[v] == h0[v],
        decreases 256 - k,
    {
        proof {
            lemma_clip_bound(h0, limit as int, -1, k + 1);
            lemma_total_grows(h0, k + 1, 256);
        }
        let x = hist[k];
        if x > limit {
            cut = cut + (x - limit);
            hist.set(k, limit);
        }
        k = k + 1;
    }
    let share = cut / 256;
    let mut k: usize = 0;
    while k < GRAY_LEVELS
        invariant
            k <= 256,
            hist@.len() == 256,
            h0.len() == 256,
            total(h0, 256) <= u32::MAX,
            share == excess(h0, limit as int, 256) / 256,
            forall|v: int|
                0 <= v < k ==> #[trigger] hist@[v] == clip_and_spread(h0, limit as int, v),
            forall|v: int| k <= v < 256 ==> #[trigger] hist@[v] == clipped(h0[v] as int, limit as int),
        decreases 256 - k,
    {
        proof {
            lemma_clip_bound(h0, limit as int, k as int, 256);
        }
        let x = hist[k];
        hist.set(k, x + share);
        k = k + 1;
    }
}

/// The sum of the first `n` levels after clipping and spreading.
pub open spec fn spread_total(h: Seq<u32>, limit: int, n: int) -> int
    decreases n,
{
    if n <= 0 {
        0
    } else {
        spread_total(h, limit, n - 1) + clip_and_spread(h, limit, n - 1)
    }
}

proof fn lemma_spread_total_sum(h: Seq<u32>, limit: int, n: int)
    requires
        h.len() == 256,
        0 <= n <= 256,
    ensures
        spread_total(h, limit, n) == clipped_total(h, limit, n) + n * (excess(h, limit, 256) / 256),
    decreases n,
{
    let q = excess(h, limit, 256) / 256;
    if n > 0 {
        lemma_spread_total_sum(h, limit, n - 1);
        assert((n - 1) * q + q == n * q) by (nonlinear_arith);
    } else {
        assert(n * q == 0) by (nonlinear_arith)
            requires
                n == 0,
        ;
    }
}

/// Law: clipping a histogram and spreading what was cut keeps its total,
/// but for the remainder of dividing the cut by 256, which is dropped.
pub proof fn law_clip_and_spread_total(h: Seq<u32>, limit: u32)
    requires
        h.len() == 256,
    ensures
        spread_total(h, limit as int, 256) == total(h, 256) - excess(h, limit as int, 256) % 256,
{
    lemma_spread_total(h, limit as int, 256);
    lemma_spread_total_sum(h, limit as int, 256);
    let e = excess(h, limit as int, 256);
    assert(256 * (e / 256) + e % 256 == e) by (nonlinear_arith);
}

/// Clipped entries and what was cut add up to the histogram's total.
proof fn lemma_spread_total(h: Seq<u32>, limit: int, n: int)
    requires
        h.len() == 256,
        0 <= n <= 256,
        0 <= limit,
    ensures
        clipped_total(h, limit, n) + excess(h, limit, n) == total(h, n),
    decreases n,
{
    if n > 0 {
        lemma_spread_total(h, limit, n - 1);
    }
}

/// The sum of the first `n` clipped entries.
pub open spec fn clipped_total(h: Seq<u32>, limit: int, n: int) -> int
    decreases n,
{
    if n <= 0 {
        0
    } else {
        clipped_total(h, limit, n - 1) + clipped(h[n - 1] as int, limit)
    }
}

/// The cumulative histogram: entry `i` is the sum of levels `0..=i`.
pub fn cumulative_histogram(hist: &[u32]) -> (r: Vec<u32>)
    requires
        hist@.len() == GRAY_LEVELS,
        total(hist@, 256) <= u32::MAX,
    ensures
        r@.len() == GRAY_LEVELS,
        forall|i: int| 0 <= i < 256 ==> #[trigger] r@[i] == total(hist@, i + 1),
{
    let mut cdf: Vec<u32> = Vec::new();
    let mut acc: u32 = 0;
    let mut i: usize = 0;
    while i < GRAY_LEVELS
        invariant
            i <= 256,
            hist@.len() == 256,
            total(hist@, 256) <= u32::MAX,
            acc == total(hist@, i as int),
            cdf@.len() == i,
            forall|j: int| 0 <= j < i ==> #[trigger] cdf@[j] == total(hist@, j + 1),
        decreases 256 - i,
    {
        proof {
            lemma_total_grows(hist@, i + 1, 256);
        }
        acc = acc + hist[i];
        cdf.push(acc);
        i = i + 1;
    }
    cdf
}

/// The first entry that is not zero, or zero when all are.
pub open spec fn first_nonzero_from(c: Seq<u32>, i: int) -> u32
    decreases c.len() - i,
{
    if i < 0 || i >= c.len() {
        0
    } else if c[i] > 0 {
        c[i]
    } else {
        first_nonzero_from(c, i + 1)
    }
}

/// The smallest non-zero value of a cumulative histogram (its first
/// non-zero entry), or zero when the tile is empty.
pub fn cdf_min(cdf: &[u32]) -> (r: u32)
    ensures
        r == first_nonzero_from(cdf@, 0),
{
    let mut i: usize = 0;
    while i < cdf.len()
        invariant
            i <= cdf@.len(),
            first_nonzero_from(cdf@, 0) == first_nonzero_from(cdf@, i as int),
        decreases cdf@.len() - i,
    {
        if cdf[i] > 0 {
            return cdf[i];
        }
        i = i + 1;
    }
    0
}

} // verus!
