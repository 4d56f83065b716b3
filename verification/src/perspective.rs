//! Perspective correction: the data the workflow passes around, the
//! integer parts of peak detection on the circular gradient-angle
//! histogram, and the bookkeeping of accepting corrections.

use vstd::prelude::*;
use crate::numbers::{decimal, format_count};

verus! {

/// Type of vanishing point.
#[derive(Clone, Copy, Debug, PartialEq, Eq, Structural)]
pub enum VanishingPointType {
    /// Vertical lines (walls, door frames).
    Vertical,
    /// Horizontal left vanishing point.
    HorizontalLeft,
    /// Horizontal right vanishing point.
    HorizontalRight,
}

/// Type of line based on angle.
#[derive(Clone, Copy, Debug, PartialEq, Eq, Structural)]
pub enum LineType {
    Vertical,
    Horizontal,
}

/// Request to accept one correction: the corrected temp image replaces the
/// original.
#[derive(Debug)]
pub struct AcceptedCorrection {
    /// Path to the original image to overwrite.
    pub original_path: String,
    /// Path to the corrected temp image.
    pub corrected_temp_path: String,
}

/// Standard command result for perspective operations.
#[derive(Debug)]
pub struct PerspectiveCommandResult {
    pub success: bool,
    pub error: Option<String>,
    pub message: Option<String>,
}

impl PerspectiveCommandResult {
    pub fn success(message: &str) -> (r: Self)
        ensures
            r.success,
            r.error is None,
            r.message matches Some(m) && m@ == message@,
    {
        PerspectiveCommandResult { success: true, error: None, message: Some(String::from_str(message)) }
    }

    pub fn error(error: &str) -> (r: Self)
        ensures
            !r.success,
            r.error matches Some(e) && e@ == error@,
            r.message is None,
    {
        PerspectiveCommandResult { success: false, error: Some(String::from_str(error)), message: None }
    }
}

/// `parts` joined with `sep` between each two.
pub open spec fn joined_with(parts: Seq<Seq<char>>, sep: Seq<char>) -> Seq<char>
    decreases parts.len(),
{
    if parts.len() == 0 {
        Seq::<char>::empty()
    } else if parts.len() == 1 {
        parts[0]
    } else {
        joined_with(parts.drop_last(), sep) + sep + parts.last()
    }
}

/// Joins `parts` with `sep` between each two (`[String]::join`).
pub fn join_strings(parts: &[String], sep: &str) -> (r: String)
    ensures
        r@ == joined_with(parts@.map_values(|s: String| s@), sep@),
{
    let ghost views = parts@.map_values(|s: String| s@);
    let mut r = String::new();
    let mut i: usize = 0;
    while i < parts.len()
        invariant
            i <= parts@.len(),
            views == parts@.map_values(|s: String| s@),
            r@ == joined_with(views.take(i as int), sep@),
        decreases parts@.len() - i,
    {
        proof {
            assert(views.take(i + 1).drop_last() =~= views.take(i as int));
            assert(views.take(i + 1).last() == parts@[i as int]@);
        }
        if i == 0 {
            r.append(parts[i].as_str());
            proof {
                assert(views.take(1) =~= seq![parts@[0]@]);
                assert(views.take(0) =~= Seq::<Seq<char>>::empty());
                assert(r@ =~= parts@[0]@);
            }
        } else {
            r.append(sep);
            r.append(parts[i].as_str());
        }
        i = i + 1;
    }
    assert(views.take(parts@.len() as int) =~= views);
    r
}

/// The result of accepting corrections, after `success_count` of them were
/// applied and the others failed with `errors`.
pub open spec fn accept_summary_spec(success_count: nat, errors: Seq<Seq<char>>) -> (
    bool,
    Option<Seq<char>>,
    Seq<char>,
) {
    if errors.len() == 0 {
        (true, None, "Successfully applied "@ + decimal(success_count) + " corrections"@)
    } else {
        (
            success_count > 0,
            Some(joined_with(errors, "; "@)),
            "Applied "@ + decimal(success_count) + " corrections with "@ + decimal(errors.len())
                + " errors"@,
        )
    }
}

/// What accepting corrections reports: success with a count when nothing
/// failed; otherwise the errors joined with `; `, success when at least one
/// correction was applied, and a message with both counts.
pub fn accept_corrections_summary(success_count: usize, errors: &Vec<String>) -> (r:
    PerspectiveCommandResult)
    ensures
        ({
            let (ok, err, msg) = accept_summary_spec(
                success_count as nat,
                errors@.map_values(|s: String| s@),
            );
            &&& r.success == ok
            &&& match r.error {
                Some(e) => err == Some(e@),
                None => err is None,
            }
            &&& r.message matches Some(m) && m@ == msg
        }),
{
    let count = format_count(success_count);
    if errors.len() == 0 {
        let mut m = String::from_str("Successfully applied ");
        m.append(count.as_str());
        m.append(" corrections");
        PerspectiveCommandResult { success: true, error: None, message: Some(m) }
    } else {
        let joined = join_strings(errors.as_slice(), "; ");
        let mut m = String::from_str("Applied ");
        m.append(count.as_str());
        m.append(" corrections with ");
        let n = format_count(errors.len());
        m.append(n.as_str());
        m.append(" errors");
        PerspectiveCommandResult { success: success_count > 0, error: Some(joined), message: Some(m) }
    }
}

/// Distance between two bins of a circular histogram with `total` bins.
pub open spec fn circular_distance(a: int, b: int, total: int) -> int {
    let diff = if a > b { a - b } else { b - a };
    if diff < total - diff {
        diff
    } else {
        total - diff
    }
}

/// Law: the distance round the circle is the same both ways and at most
/// half the circle.
pub proof fn law_circular_distance(a: int, b: int, total: int)
    requires
        0 <= a < total,
        0 <= b < total,
    ensures
        circular_distance(a, b, total) == circular_distance(b, a, total),
        0 <= circular_distance(a, b, total),
        2 * circular_distance(a, b, total) <= total,
        circular_distance(a, a, total) == 0,
{
}

/// Distance between two bins of a circular histogram with `total` bins:
/// the shorter way round.
pub fn circular_bin_distance(a: usize, b: usize, total: usize) -> (d: usize)
    requires
        (if a > b { a - b } else { b - a }) <= total,
    ensures
        d == circular_distance(a as int, b as int, total as int),
{
    let diff = if a > b { a - b } else { b - a };
    let other = total - diff;
    if diff < other {
        diff
    } else {
        other
    }
}


/// Whether raw peak `a` is close to raw peak `b`: their bins are at most
/// `radius` apart round the circle.
pub open spec fn close_peaks(bins: Seq<usize>, total: int, radius: int, a: int, b: int) -> bool {
    circular_distance(bins[a] as int, bins[b] as int, total) <= radius
}

/// Whether raw peak `j` starts a group of its own: no earlier group
/// leader is close to it.
pub open spec fn is_leader(bins: Seq<usize>, total: int, radius: int, j: int) -> bool
    decreases j, 1int, 0int,
{
    first_close_leader(bins, total, radius, j, 0, j) == -1
}

/// The first group leader among raw peaks `from..to` that is close to
/// peak `j`, or -1.
pub open spec fn first_close_leader(
    bins: Seq<usize>,
    total: int,
    radius: int,
    j: int,
    from: int,
    to: int,
) -> int
    decreases to, 0int, to - from,
{
    if from >= to || from < 0 {
        -1
    } else if is_leader(bins, total, radius, from) && close_peaks(bins, total, radius, from, j) {
        from
    } else {
        first_close_leader(bins, total, radius, j, from + 1, to)
    }
}

/// The leader of the group that raw peak `j` joins: the first earlier
/// leader close to it, or `j` itself.
pub open spec fn group_leader(bins: Seq<usize>, total: int, radius: int, j: int) -> int {
    let f = first_close_leader(bins, total, radius, j, 0, j);
    if f < 0 {
        j
    } else {
        f
    }
}

/// The raw peaks `from..to` whose group leader is `leader`, in order.
pub open spec fn members(bins: Seq<usize>, total: int, radius: int, leader: int, n: int) -> Seq<
    usize,
>
    decreases n,
{
    if n <= 0 {
        Seq::<usize>::empty()
    } else {
        let prev = members(bins, total, radius, leader, n - 1);
        if group_leader(bins, total, radius, n - 1) == leader {
            prev.push((n - 1) as usize)
        } else {
            prev
        }
    }
}

/// The group leaders among the first `n` raw peaks, in order.
pub open spec fn leaders(bins: Seq<usize>, total: int, radius: int, n: int) -> Seq<usize>
    decreases n,
{
    if n <= 0 {
        Seq::<usize>::empty()
    } else {
        let prev = leaders(bins, total, radius, n - 1);
        if is_leader(bins, total, radius, n - 1) {
            prev.push((n - 1) as usize)
        } else {
            prev
        }
    }
}

/// Extending the scanned range by one leader candidate.
proof fn lemma_first_close_extend(
    bins: Seq<usize>,
    total: int,
    radius: int,
    j: int,
    from: int,
    to: int,
)
    requires
        0 <= from <= to,
    ensures
        first_close_leader(bins, total, radius, j, from, to + 1) == if first_close_leader(
            bins,
            total,
            radius,
            j,
            from,
            to,
        ) != -1 {
            first_close_leader(bins, total, radius, j, from, to)
        } else if is_leader(bins, total, radius, to) && close_peaks(bins, total, radius, to, j) {
            to
        } else {
            -1
        },
    decreases to - from,
{
    if from < to {
        lemma_first_close_extend(bins, total, radius, j, from + 1, to);
    } else {
        assert(first_close_leader(bins, total, radius, j, from + 1, to + 1) == -1);
    }
}

/// The result of a close-leader scan is a close leader in range, or none.
proof fn lemma_first_close_found(
    bins: Seq<usize>,
    total: int,
    radius: int,
    j: int,
    from: int,
    to: int,
)
    requires
        0 <= from,
    ensures
        ({
            let f = first_close_leader(bins, total, radius, j, from, to);
            f == -1 || (from <= f < to && is_leader(bins, total, radius, f) && close_peaks(
                bins,
                total,
                radius,
                f,
                j,
            ))
        }),
    decreases to - from,
{
    if from < to {
        lemma_first_close_found(bins, total, radius, j, from + 1, to);
    }
}

/// A close-leader scan over `from..to` splits at `m`.
proof fn lemma_first_close_prefix(
    bins: Seq<usize>,
    total: int,
    radius: int,
    j: int,
    from: int,
    m: int,
    to: int,
)
    requires
        0 <= from <= m <= to,
    ensures
        first_close_leader(bins, total, radius, j, from, to) == if first_close_leader(
            bins,
            total,
            radius,
            j,
            from,
            m,
        ) != -1 {
            first_close_leader(bins, total, radius, j, from, m)
        } else {
            first_close_leader(bins, total, radius, j, m, to)
        },
    decreases m - from,
{
    if from < m {
        lemma_first_close_prefix(bins, total, radius, j, from + 1, m, to);
    }
}

/// No peak before a leader belongs to its group.
proof fn lemma_members_before(bins: Seq<usize>, total: int, radius: int, leader: int, n: int)
    requires
        0 <= n <= leader,
    ensures
        members(bins, total, radius, leader, n) == Seq::<usize>::empty(),
    decreases n,
{
    if n > 0 {
        lemma_members_before(bins, total, radius, leader, n - 1);
        lemma_first_close_found(bins, total, radius, n - 1, 0, n - 1);
    }
}

/// Law: every raw peak belongs to one group, led by a peak that starts a
/// group, that is either the peak itself or an earlier peak close to it.
pub proof fn law_group_leader_close(bins: Seq<usize>, total: int, radius: int, j: int)
    requires
        0 <= j,
    ensures
        ({
            let l = group_leader(bins, total, radius, j);
            &&& 0 <= l <= j
            &&& l == j || (is_leader(bins, total, radius, l) && close_peaks(bins, total, radius, l, j))
            &&& l == j <==> is_leader(bins, total, radius, j)
        }),
{
    lemma_first_close_found(bins, total, radius, j, 0, j);
}

/// Groups raw histogram peaks (given by their bins, in order) that lie
/// within `radius` bins of each other round a circle of `total` bins: each
/// peak not yet taken starts a group and takes every later peak not yet
/// taken that is close to it. Gives the groups as indices of the peaks, in
/// the order of their first peaks.
pub fn group_nearby_peaks(bins: &[usize], total: usize, radius: usize) -> (r: Vec<Vec<usize>>)
    requires
        forall|i: int| 0 <= i < bins@.len() ==> #[trigger] bins@[i] <= total,
    ensures
        ({
            let n = bins@.len() as int;
            let ls = leaders(bins@, total as int, radius as int, n);
            &&& r@.len() == ls.len()
            &&& forall|g: int|
                0 <= g < ls.len() ==> (#[trigger] r@[g])@ == members(
                    bins@,
                    total as int,
                    radius as int,
                    ls[g] as int,
                    n,
                )
        }),
{
    let n = bins.len();
    let ghost b = bins@;
    let ghost t = total as int;
    let ghost rad = radius as int;
    let mut used: Vec<bool> = Vec::new();
    let mut k: usize = 0;
    while k < n
        invariant
            k <= n,
            used@.len() == k,
            forall|x: int| 0 <= x < k ==> !used@[x],
        decreases n - k,
    {
        used.push(false);
        k = k + 1;
    }
    let mut groups: Vec<Vec<usize>> = Vec::new();
    let mut i: usize = 0;
    while i < n
        invariant
            n == b.len(),
            b == bins@,
            t == total,
            rad == radius,
            forall|x: int| 0 <= x < b.len() ==> #[trigger] b[x] <= total,
            i <= n,
            used@.len() == n,
            forall|x: int|
                i <= x < n ==> (#[trigger] used@[x] <==> first_close_leader(b, t, rad, x, 0, i as int)
                    != -1),
            groups@.len() == leaders(b, t, rad, i as int).len(),
            forall|g: int|
                0 <= g < groups@.len() ==> (#[trigger] groups@[g])@ == members(
                    b,
                    t,
                    rad,
                    leaders(b, t, rad, i as int)[g] as int,
                    n as int,
                ),
        decreases n - i,
    {
        proof {
            assert forall|x: int| i < x < n implies #[trigger] first_close_leader(
                b,
                t,
                rad,
                x,
                0,
                i + 1,
            ) == (if first_close_leader(b, t, rad, x, 0, i as int) != -1 {
                first_close_leader(b, t, rad, x, 0, i as int)
            } else if is_leader(b, t, rad, i as int) && close_peaks(b, t, rad, i as int, x) {
                i as int
            } else {
                -1
            }) by {
                lemma_first_close_extend(b, t, rad, x, 0, i as int);
            }
        }
        let ghost groups_before = groups@;
        if !used[i] {
            assert(is_leader(b, t, rad, i as int));
            let mut group: Vec<usize> = Vec::new();
            proof {
                lemma_members_before(b, t, rad, i as int, i as int);
            }
            group.push(i);
            used.set(i, true);
            assert(group@ =~= members(b, t, rad, i as int, i + 1));
            let mut j: usize = i + 1;
            while j < n
                invariant
                    n == b.len(),
                    b == bins@,
                    t == total,
                    rad == radius,
                    forall|x: int| 0 <= x < b.len() ==> #[trigger] b[x] <= total,
                    i < j <= n,
                    used@.len() == n,
                    is_leader(b, t, rad, i as int),
                    forall|x: int|
                        i < x < n ==> #[trigger] first_close_leader(b, t, rad, x, 0, i + 1) == (
                        if first_close_leader(b, t, rad, x, 0, i as int) != -1 {
                            first_close_leader(b, t, rad, x, 0, i as int)
                        } else if close_peaks(b, t, rad, i as int, x) {
                            i as int
                        } else {
                            -1
                        }),
                    forall|x: int|
                        j <= x < n ==> (#[trigger] used@[x] <==> first_close_leader(
                            b,
                            t,
                            rad,
                            x,
                            0,
                            i as int,
                        ) != -1),
                    forall|x: int|
                        i < x < j ==> (#[trigger] used@[x] <==> first_close_leader(
                            b,
                            t,
                            rad,
                            x,
                            0,
                            i + 1,
                        ) != -1),
                    group@ == members(b, t, rad, i as int, j as int),
                decreases n - j,
            {
                proof {
                    lemma_first_close_prefix(b, t, rad, j as int, 0, i + 1, j as int);
                    lemma_first_close_found(b, t, rad, j as int, i + 1, j as int);
                    lemma_first_close_found(b, t, rad, j as int, 0, i as int);
                    assert(first_close_leader(b, t, rad, j as int, 0, i + 1) == (
                    if first_close_leader(b, t, rad, j as int, 0, i as int) != -1 {
                        first_close_leader(b, t, rad, j as int, 0, i as int)
                    } else if close_peaks(b, t, rad, i as int, j as int) {
                        i as int
                    } else {
                        -1
                    }));
                }
                if !used[j] {
                    let d = circular_bin_distance(bins[i], bins[j], total);
                    if d <= radius {
                        group.push(j);
                        used.set(j, true);
                    }
                }
                j = j + 1;
            }
            groups.push(group);
            proof {
                assert(leaders(b, t, rad, i + 1) == leaders(b, t, rad, i as int).push(i));
                assert forall|g: int| 0 <= g < groups@.len() implies (#[trigger] groups@[g])@
                    == members(b, t, rad, leaders(b, t, rad, i + 1)[g] as int, n as int) by {
                    if g < groups_before.len() {
                        assert(groups@[g] == groups_before[g]);
                    }
                }
            }
        } else {
            proof {
                assert(!is_leader(b, t, rad, i as int));
                assert(leaders(b, t, rad, i + 1) == leaders(b, t, rad, i as int));
            }
        }
        i = i + 1;
    }
    groups
}

} // verus!
