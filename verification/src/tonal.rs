//! The integer statistics behind automatic tone adjustment: of the sampled
//! luminances of an image, the 5th and 95th percentiles and the sum (for
//! the mean). Turning them into adjustments is floating-point work done by
//! the caller.

use vstd::prelude::*;

verus! {

/// How many of `s` are at most `v`.
pub open spec fn count_at_most(s: Seq<u8>, v: int) -> nat
    decreases s.len(),
{
    if s.len() == 0 {
        0
    } else {
        count_at_most(s.drop_last(), v) + if s.last() <= v {
            1nat
        } else {
            0nat
        }
    }
}

/// How many of `s` equal `v`.
pub open spec fn count_eq(s: Seq<u8>, v: int) -> nat
    decreases s.len(),
{
    if s.len() == 0 {
        0
    } else {
        count_eq(s.drop_last(), v) + if s.last() == v {
            1nat
        } else {
            0nat
        }
    }
}

/// The `k`-th smallest of `s` (counting from 0), which is what sorting `s`
/// and taking index `k` gives: the least level `v` (from `from` on) with more
/// than `k` values at most `v`.
pub open spec fn kth_smallest_from(s: Seq<u8>, k: int, from: int) -> int
    decreases 256 - from,
{
    if from >= 255 {
        255
    } else if count_at_most(s, from) > k {
        from
    } else {
        kth_smallest_from(s, k, from + 1)
    }
}

pub open spec fn kth_smallest(s: Seq<u8>, k: int) -> int {
    kth_smallest_from(s, k, 0)
}

/// The sum of `s`.
pub open spec fn sum_of(s: Seq<u8>) -> nat
    decreases s.len(),
{
    if s.len() == 0 {
        0
    } else {
        sum_of(s.drop_last()) + s.last() as nat
    }
}

proof fn lemma_count_steps(s: Seq<u8>, v: int)
    ensures
        count_at_most(s, v) == count_at_most(s, v - 1) + count_eq(s, v),
    decreases s.len(),
{
    if s.len() > 0 {
        lemma_count_steps(s.drop_last(), v);
    }
}

proof fn lemma_count_below_zero(s: Seq<u8>)
    ensures
        count_at_most(s, -1) == 0,
    decreases s.len(),
{
    if s.len() > 0 {
        lemma_count_below_zero(s.drop_last());
    }
}

proof fn lemma_count_all(s: Seq<u8>)
    ensures
        count_at_most(s, 255) == s.len(),
    decreases s.len(),
{
    if s.len() > 0 {
        lemma_count_all(s.drop_last());
    }
}

proof fn lemma_sum_bound(s: Seq<u8>)
    ensures
        sum_of(s) <= 255 * s.len(),
    decreases s.len(),
{
    if s.len() > 0 {
        lemma_sum_bound(s.drop_last());
    }
}

proof fn lemma_count_eq_bound(s: Seq<u8>, v: int)
    ensures
        count_eq(s, v) <= s.len(),
    decreases s.len(),
{
    if s.len() > 0 {
        lemma_count_eq_bound(s.drop_last(), v);
    }
}

/// The luminance statistics of an image.
#[derive(Debug)]
pub struct LumaStats {
    /// The 5th percentile: the value at index `len * 5 / 100` once sorted.
    pub p5: u8,
    /// The 95th percentile: the value at index `min(len * 95 / 100, len - 1)`.
    pub p95: u8,
    /// The sum of all values.
    pub sum: u64,
    /// How many values there are.
    pub count: usize,
}

/// The percentile index `len * pct / 100`, kept below `len`.
pub open spec fn percentile_index(len: int, pct: int) -> int {
    if len * pct / 100 < len - 1 {
        len * pct / 100
    } else {
        len - 1
    }
}

/// The percentiles and the sum of the sampled luminances; `None` when there
/// are none.
pub fn luminance_stats(lums: &[u8]) -> (r: Option<LumaStats>)
    requires
        lums@.len() * 255 <= u64::MAX,
        lums@.len() * 95 <= usize::MAX,
    ensures
        lums@.len() == 0 <==> r is None,
        r matches Some(st) ==> {
            &&& st.count == lums@.len()
            &&& st.p5 == kth_smallest(lums@, (lums@.len() * 5 / 100) as int)
            &&& st.p95 == kth_smallest(lums@, percentile_index(lums@.len() as int, 95))
            &&& st.sum == sum_of(lums@)
        },
{
    let len = lums.len();
    if len == 0 {
        return None;
    }
    let mut hist: Vec<usize> = Vec::new();
    let mut k: usize = 0;
    while k < 256
        invariant
            k <= 256,
            hist@.len() == k,
            forall|v: int| 0 <= v < k ==> hist@[v] == 0,
        decreases 256 - k,
    {
        hist.push(0);
        k = k + 1;
    }
    let mut sum: u64 = 0;
    let mut i: usize = 0;
    proof {
        assert(lums@.take(0) =~= Seq::<u8>::empty());
    }
    while i < len
        invariant
            len == lums@.len(),
            len * 255 <= u64::MAX,
            i <= len,
            hist@.len() == 256,
            forall|v: int| 0 <= v < 256 ==> #[trigger] hist@[v] == count_eq(lums@.take(i as int), v),
            sum == sum_of(lums@.take(i as int)),
        decreases len - i,
    {
        let x = lums[i];
        let ghost before = hist@;
        proof {
            assert(lums@.take(i + 1).drop_last() =~= lums@.take(i as int));
            lemma_count_eq_bound(lums@.take(i as int), x as int);
            lemma_sum_bound(lums@.take(i as int));
            assert(255 * i + 255 <= 255 * len) by (nonlinear_arith)
                requires
                    i < len,
            ;
        }
        let c = hist[x as usize];
        hist.set(x as usize, c + 1);
        sum = sum + x as u64;
        i = i + 1;
    }
    proof {
        assert(lums@.take(len as int) =~= lums@);
    }
    let p5_index = len * 5 / 100;
    let p95_raw = len * 95 / 100;
    let p95_index = if p95_raw < len - 1 {
        p95_raw
    } else {
        len - 1
    };
    assert(p5_index < len) by (nonlinear_arith)
        requires
            p5_index == len * 5 / 100,
            len >= 1,
    ;
    let p5 = kth_from_histogram(&hist, Ghost(lums@), p5_index);
    let p95 = kth_from_histogram(&hist, Ghost(lums@), p95_index);
    Some(LumaStats { p5, p95, sum, count: len })
}

/// The `k`-th smallest of the values whose histogram is `hist`.
fn kth_from_histogram(hist: &Vec<usize>, Ghost(s): Ghost<Seq<u8>>, k: usize) -> (r: u8)
    requires
        hist@.len() == 256,
        forall|v: int| 0 <= v < 256 ==> #[trigger] hist@[v] == count_eq(s, v),
        k < s.len(),
        s.len() <= usize::MAX,
    ensures
        r == kth_smallest(s, k as int),
{
    proof {
        lemma_count_below_zero(s);
        lemma_count_all(s);
    }
    let mut acc: usize = 0;
    let mut v: usize = 0;
    while v < 255
        invariant
            v <= 255,
            hist@.len() == 256,
            forall|u: int| 0 <= u < 256 ==> #[trigger] hist@[u] == count_eq(s, u),
            k < s.len(),
            s.len() <= usize::MAX,
            count_at_most(s, 255) == s.len(),
            acc == count_at_most(s, v - 1),
            acc <= k,
            kth_smallest(s, k as int) == kth_smallest_from(s, k as int, v as int),
        decreases 255 - v,
    {
        proof {
            lemma_count_steps(s, v as int);
            lemma_count_monotone(s, v as int, 255);
        }
        let next = acc + hist[v];
        if next > k {
            return v as u8;
        }
        acc = next;
        v = v + 1;
    }
    255
}

proof fn lemma_count_monotone(s: Seq<u8>, a: int, b: int)
    requires
        a <= b,
    ensures
        count_at_most(s, a) <= count_at_most(s, b),
    decreases s.len(),
{
    if s.len() > 0 {
        lemma_count_monotone(s.drop_last(), a, b);
    }
}

} // verus!
