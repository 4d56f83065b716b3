//! Lexical path-safety helpers.
//!
//! Every filesystem operation that combines a trusted root (such as the
//! configured NEW folder) with untrusted user-supplied segments (property
//! names, city names, image file names) goes through [`safe_join`], so that a
//! `..` component, an absolute path or a drive prefix can never escape the
//! root.
//!
//! Safety is decided lexically: nothing is looked up on disk, so it serves
//! reads and writes alike. The rules follow the path conventions of the
//! platform ([`PathStyle`]): on Unix `/` separates components; on Windows
//! `/` and `\` both do, and `C:` at the start is a drive prefix.
//!
//! Model: a path is split at every separator into segments ([`split_in`]).
//! Empty segments and `.` are skipped and `..` is refused, and so is a path
//! that starts with a separator or, on Windows, a drive prefix. Every other
//! segment is pushed onto the root as `PathBuf::push` does
//! ([`push_segment`]).
//!
//! Stored folder paths (`city/name`) are always `/`-separated;
//! [`split_path`] splits those.

use vstd::prelude::*;

verus! {

/// The error returned when an untrusted path could leave its root.
#[derive(Debug)]
pub enum PathError {
    /// The whole untrusted path that was refused.
    UnsafeSegment(String),
}

/// How std's `Debug` renders the path `p`: quoted, with quotes,
/// backslashes and unprintable characters escaped. The escaping rules are
/// not written out here.
pub uninterp spec fn path_debug_text(p: Seq<char>) -> Seq<char>;

/// Formats `Path::new(p)` with `{:?}` (`<Path as Debug>::fmt`). Claims that
/// the text is [`path_debug_text`] of `p`.
#[verifier::external_body]
fn debug_path(p: &str) -> (r: String)
    ensures
        r@ == path_debug_text(p@),
{
    format!("{:?}", std::path::Path::new(p))
}

impl PathError {
    /// A human-readable description of the error:
    /// `unsafe path segment: {path:?}`.
    pub fn message(&self) -> (s: String)
        ensures
            s@ == "unsafe path segment: "@ + path_debug_text(self->UnsafeSegment_0@),
    {
        match self {
            PathError::UnsafeSegment(p) => {
                let mut s = String::from_str("unsafe path segment: ");
                let quoted = debug_path(p.as_str());
                s.append(quoted.as_str());
                s
            },
        }
    }
}

/// Splits `s` at every `/`. The result always has one more element than `s`
/// has slashes; empty segments are kept.
pub open spec fn split_path(s: Seq<char>) -> Seq<Seq<char>>
    decreases s.len(),
{
    if s.len() == 0 {
        seq![Seq::<char>::empty()]
    } else {
        let prev = split_path(s.drop_last());
        if s.last() == '/' {
            prev.push(Seq::<char>::empty())
        } else {
            prev.update(prev.len() - 1, prev.last().push(s.last()))
        }
    }
}

/// A segment that contributes nothing to the joined path: empty or `.`.
pub open spec fn is_skipped_segment(seg: Seq<char>) -> bool {
    seg.len() == 0 || seg == seq!['.']
}

/// The parent-directory segment `..`.
pub open spec fn is_parent_segment(seg: Seq<char>) -> bool {
    seg == seq!['.', '.']
}
/// The path conventions of a platform, as `std::path` applies them.
#[derive(Clone, Copy, Debug, PartialEq, Eq, Structural)]
pub enum PathStyle {
    /// `/` separates components; nothing else is special.
    Unix,
    /// `/` and `\` separate components, and a letter followed by `:` at the
    /// start of a path is a drive prefix.
    Windows,
}

/// Whether `c` separates path components in `style`.
pub open spec fn is_separator(style: PathStyle, c: char) -> bool {
    c == '/' || (style == PathStyle::Windows && c == '\\')
}

/// The separator that joining inserts in `style`.
pub open spec fn main_separator(style: PathStyle) -> char {
    if style == PathStyle::Windows {
        '\\'
    } else {
        '/'
    }
}

/// An ASCII letter, `A-Z` or `a-z`.
pub open spec fn is_ascii_letter(c: char) -> bool {
    (0x41 <= c as u32 <= 0x5a) || (0x61 <= c as u32 <= 0x7a)
}

/// Whether `s` starts with a drive prefix such as `C:`.
pub open spec fn has_drive_prefix(s: Seq<char>) -> bool {
    s.len() >= 2 && is_ascii_letter(s[0]) && s[1] == ':'
}

/// A path that is nothing but a drive prefix, such as `C:`.
pub open spec fn is_bare_drive(s: Seq<char>) -> bool {
    s.len() == 2 && has_drive_prefix(s)
}

/// Whether `s` starts with a root or a prefix: a separator, or, on
/// Windows, a drive prefix.
pub open spec fn is_anchored(style: PathStyle, s: Seq<char>) -> bool {
    (s.len() > 0 && is_separator(style, s[0])) || (style == PathStyle::Windows
        && has_drive_prefix(s))
}

/// Splits `s` at every separator of `style`. The result always has one more
/// element than `s` has separators; empty segments are kept.
pub open spec fn split_in(style: PathStyle, s: Seq<char>) -> Seq<Seq<char>>
    decreases s.len(),
{
    if s.len() == 0 {
        seq![Seq::<char>::empty()]
    } else {
        let prev = split_in(style, s.drop_last());
        if is_separator(style, s.last()) {
            prev.push(Seq::<char>::empty())
        } else {
            prev.update(prev.len() - 1, prev.last().push(s.last()))
        }
    }
}

/// A segment that could leave the root it is joined onto: `..`, or, on
/// Windows, one that starts with a drive prefix (`PathBuf::push` would let
/// it replace the whole path).
pub open spec fn is_unsafe_segment(style: PathStyle, seg: Seq<char>) -> bool {
    is_parent_segment(seg) || (style == PathStyle::Windows && has_drive_prefix(seg))
}

/// Whether `s`, joined onto a root, could leave that root: it starts with a
/// root or a prefix, or one of its segments is unsafe.
pub open spec fn escapes_root(style: PathStyle, s: Seq<char>) -> bool {
    ||| is_anchored(style, s)
    ||| exists|i: int|
        0 <= i < split_in(style, s).len() && is_unsafe_segment(
            style,
            #[trigger] split_in(style, s)[i],
        )
}

/// `PathBuf::push` of one safe segment (which holds no separator and, on
/// Windows, starts with no drive prefix). Skipped segments leave `p`
/// unchanged. Otherwise the segment is appended, with the main separator
/// between unless `p` is empty, ends in a separator, or (on Windows) is a
/// bare drive.
pub open spec fn push_segment(style: PathStyle, p: Seq<char>, seg: Seq<char>) -> Seq<char> {
    if is_skipped_segment(seg) {
        p
    } else if p.len() == 0 || is_separator(style, p.last()) || (style == PathStyle::Windows
        && is_bare_drive(p)) {
        p + seg
    } else {
        p.push(main_separator(style)) + seg
    }
}

/// Pushes all segments in order.
pub open spec fn push_segments(style: PathStyle, p: Seq<char>, segs: Seq<Seq<char>>) -> Seq<char>
    decreases segs.len(),
{
    if segs.len() == 0 {
        p
    } else {
        push_segment(style, push_segments(style, p, segs.drop_last()), segs.last())
    }
}

/// What joining `s` onto `root` gives in `style`: `None` where `s` could
/// escape.
pub open spec fn joined_path(style: PathStyle, root: Seq<char>, s: Seq<char>) -> Option<Seq<char>> {
    if escapes_root(style, s) {
        None
    } else {
        Some(push_segments(style, root, split_in(style, s)))
    }
}

/// What joining all `segs` in order onto `root` gives: `None` as soon as one
/// of them could escape.
pub open spec fn joined_all(style: PathStyle, root: Seq<char>, segs: Seq<Seq<char>>) -> Option<
    Seq<char>,
>
    decreases segs.len(),
{
    if segs.len() == 0 {
        Some(root)
    } else {
        match joined_all(style, root, segs.drop_last()) {
            Some(p) => joined_path(style, p, segs.last()),
            None => None,
        }
    }
}

/// The index of the first of `segs` that makes joining fail (the length of
/// `segs` when none does).
pub open spec fn first_failing(style: PathStyle, root: Seq<char>, segs: Seq<Seq<char>>) -> int
    decreases segs.len(),
{
    if segs.len() == 0 {
        0
    } else if joined_all(style, root, segs.drop_last()) is None {
        first_failing(style, root, segs.drop_last())
    } else {
        segs.len() - 1
    }
}

/// Whether `r` is what joining `s` onto `root` in `style` answers: the joined
/// path, or the error carrying the whole untrusted path.
pub open spec fn join_outcome(
    style: PathStyle,
    root: Seq<char>,
    s: Seq<char>,
    r: Result<String, PathError>,
) -> bool {
    match r {
        Ok(p) => joined_path(style, root, s) == Some(p@),
        Err(e) => joined_path(style, root, s) is None && e->UnsafeSegment_0@ == s,
    }
}

/// Whether `r` is what joining all `segs` in order onto `root` in `style`
/// answers: the joined path, or the error carrying the first segment that
/// could escape.
pub open spec fn join_all_outcome(
    style: PathStyle,
    root: Seq<char>,
    segs: Seq<Seq<char>>,
    r: Result<String, PathError>,
) -> bool {
    match r {
        Ok(p) => joined_all(style, root, segs) == Some(p@),
        Err(e) => joined_all(style, root, segs) is None && e->UnsafeSegment_0@ == segs[first_failing(
            style,
            root,
            segs,
        )],
    }
}

pub proof fn lemma_split_in_nonempty(style: PathStyle, s: Seq<char>)
    ensures
        split_in(style, s).len() >= 1,
    decreases s.len(),
{
    if s.len() > 0 {
        lemma_split_in_nonempty(style, s.drop_last());
    }
}

/// Extending the text only changes the last segment or adds new ones: the
/// finished segments of a prefix are the first segments of the whole.
proof fn lemma_split_in_prefix(style: PathStyle, s: Seq<char>, j: int, m: int)
    requires
        0 <= j <= m <= s.len(),
    ensures
        split_in(style, s.take(j)).len() <= split_in(style, s.take(m)).len(),
        forall|k: int|
            0 <= k < split_in(style, s.take(j)).len() - 1 ==> split_in(style, s.take(j))[k]
                == split_in(style, s.take(m))[k],
    decreases m - j,
{
    lemma_split_in_nonempty(style, s.take(j));
    if j < m {
        lemma_split_in_prefix(style, s, j, m - 1);
        lemma_split_in_nonempty(style, s.take(m - 1));
        assert(s.take(m).drop_last() =~= s.take(m - 1));
    }
}

/// Splitting `a`, a separator and `b` gives the segments of `a` followed by
/// those of `b`.
pub proof fn lemma_split_in_concat(style: PathStyle, a: Seq<char>, c: char, b: Seq<char>)
    requires
        is_separator(style, c),
    ensures
        split_in(style, a.push(c) + b) == split_in(style, a) + split_in(style, b),
    decreases b.len(),
{
    lemma_split_in_nonempty(style, a);
    if b.len() == 0 {
        assert(a.push(c) + b =~= a.push(c));
        assert((a.push(c)).drop_last() =~= a);
        assert(split_in(style, a) + split_in(style, b) =~= split_in(style, a).push(
            Seq::<char>::empty(),
        ));
    } else {
        lemma_split_in_concat(style, a, c, b.drop_last());
        lemma_split_in_nonempty(style, b.drop_last());
        assert((a.push(c) + b).drop_last() =~= a.push(c) + b.drop_last());
        assert((a.push(c) + b).last() == b.last());
        let pa = split_in(style, a);
        let pb = split_in(style, b.drop_last());
        if is_separator(style, b.last()) {
            assert((pa + pb).push(Seq::<char>::empty()) =~= pa + pb.push(Seq::<char>::empty()));
        } else {
            assert((pa + pb).update((pa + pb).len() - 1, (pa + pb).last().push(b.last())) =~= pa
                + pb.update(pb.len() - 1, pb.last().push(b.last())));
        }
    }
}

/// No segment holds a separator.
pub proof fn lemma_split_in_no_separator(style: PathStyle, s: Seq<char>)
    ensures
        forall|i: int, j: int|
            0 <= i < split_in(style, s).len() && 0 <= j < split_in(style, s)[i].len()
                ==> !is_separator(style, #[trigger] split_in(style, s)[i][j]),
    decreases s.len(),
{
    if s.len() > 0 {
        lemma_split_in_no_separator(style, s.drop_last());
        lemma_split_in_nonempty(style, s.drop_last());
        let prev = split_in(style, s.drop_last());
        let cur = split_in(style, s);
        if !is_separator(style, s.last()) {
            assert forall|i: int, j: int|
                0 <= i < cur.len() && 0 <= j < cur[i].len() implies !is_separator(
                style,
                #[trigger] cur[i][j],
            ) by {
                if i == prev.len() - 1 {
                    if j < prev.last().len() {
                        assert(cur[i][j] == prev.last()[j]);
                    }
                } else {
                    assert(cur[i] == prev[i]);
                }
            }
        } else {
            assert forall|i: int, j: int|
                0 <= i < cur.len() && 0 <= j < cur[i].len() implies !is_separator(
                style,
                #[trigger] cur[i][j],
            ) by {
                if i < prev.len() {
                    assert(cur[i] == prev[i]);
                }
            }
        }
    }
}

/// A segment with no separator splits into just itself.
pub proof fn lemma_split_in_single(style: PathStyle, seg: Seq<char>)
    requires
        forall|i: int| 0 <= i < seg.len() ==> !is_separator(style, #[trigger] seg[i]),
    ensures
        split_in(style, seg) == seq![seg],
    decreases seg.len(),
{
    if seg.len() == 0 {
        assert(seg =~= Seq::<char>::empty());
    } else {
        lemma_split_in_single(style, seg.drop_last());
        assert(seg.drop_last().push(seg.last()) =~= seg);
        assert(seq![seg.drop_last()].update(0, seg) =~= seq![seg]);
    }
}

pub proof fn lemma_push_segments_concat(
    style: PathStyle,
    p: Seq<char>,
    x: Seq<Seq<char>>,
    y: Seq<Seq<char>>,
)
    ensures
        push_segments(style, p, x + y) == push_segments(style, push_segments(style, p, x), y),
    decreases y.len(),
{
    if y.len() == 0 {
        assert(x + y =~= x);
    } else {
        lemma_push_segments_concat(style, p, x, y.drop_last());
        assert((x + y).drop_last() =~= x + y.drop_last());
        assert((x + y).last() == y.last());
    }
}

/// A text with no separator that is not `..` splits into segments none of
/// which is `..`.
proof fn lemma_plain_text_no_parent(style: PathStyle, t: Seq<char>)
    requires
        !is_parent_segment(t),
        forall|i: int| 0 <= i < t.len() ==> !is_separator(style, #[trigger] t[i]),
    ensures
        forall|i: int|
            0 <= i < split_in(style, t).len() ==> !is_parent_segment(
                #[trigger] split_in(style, t)[i],
            ),
{
    lemma_split_in_single(style, t);
}

/// Segments of `t`, a separator and `seg` hold no `..` when those of `t` do
/// not and `seg` is a plain segment other than `..`.
proof fn lemma_append_after_separator(style: PathStyle, t: Seq<char>, c: char, seg: Seq<char>)
    requires
        is_separator(style, c),
        !is_parent_segment(seg),
        forall|i: int| 0 <= i < seg.len() ==> !is_separator(style, #[trigger] seg[i]),
        forall|i: int|
            0 <= i < split_in(style, t).len() ==> !is_parent_segment(
                #[trigger] split_in(style, t)[i],
            ),
    ensures
        forall|i: int|
            0 <= i < split_in(style, t.push(c) + seg).len() ==> !is_parent_segment(
                #[trigger] split_in(style, t.push(c) + seg)[i],
            ),
{
    lemma_split_in_concat(style, t, c, seg);
    lemma_split_in_single(style, seg);
    let st = split_in(style, t);
    let ss = split_in(style, seg);
    assert forall|i: int| 0 <= i < (st + ss).len() implies !is_parent_segment(
        #[trigger] (st + ss)[i],
    ) by {
        if i < st.len() {
            assert((st + ss)[i] == st[i]);
        } else {
            assert((st + ss)[i] == ss[i - st.len()]);
        }
    }
}

/// The text appended to a root is made only of separators and the segments
/// pushed: splitting it gives no `..` when no pushed segment was `..` and
/// none held a separator.
proof fn lemma_push_segments_suffix(style: PathStyle, p: Seq<char>, segs: Seq<Seq<char>>)
    requires
        forall|i: int| 0 <= i < segs.len() ==> !is_parent_segment(#[trigger] segs[i]),
        forall|i: int, j: int|
            0 <= i < segs.len() && 0 <= j < segs[i].len() ==> !is_separator(
                style,
                #[trigger] segs[i][j],
            ),
    ensures
        push_segments(style, p, segs).len() >= p.len(),
        push_segments(style, p, segs).take(p.len() as int) == p,
        forall|i: int|
            0 <= i < split_in(style, push_segments(style, p, segs).skip(p.len() as int)).len()
                ==> !is_parent_segment(
                #[trigger] split_in(style, push_segments(style, p, segs).skip(p.len() as int))[i],
            ),
    decreases segs.len(),
{
    if segs.len() == 0 {
        assert(p.skip(p.len() as int) =~= Seq::<char>::empty());
        assert(p.take(p.len() as int) =~= p);
        assert(split_in(style, Seq::<char>::empty()) =~= seq![Seq::<char>::empty()]);
    } else {
        let q = push_segments(style, p, segs.drop_last());
        lemma_push_segments_suffix(style, p, segs.drop_last());
        let seg = segs.last();
        assert(!is_parent_segment(seg));
        assert forall|j: int| 0 <= j < seg.len() implies !is_separator(style, #[trigger] seg[j]) by {
            assert(seg[j] == segs[segs.len() - 1][j]);
        }
        let r = push_segment(style, q, seg);
        let tail_q = q.skip(p.len() as int);
        if is_skipped_segment(seg) {
        } else if q.len() == 0 || is_separator(style, q.last()) || (style == PathStyle::Windows
            && is_bare_drive(q)) {
            assert(r.take(p.len() as int) =~= q.take(p.len() as int));
            assert(r.skip(p.len() as int) =~= tail_q + seg);
            if tail_q.len() == 0 {
                assert(tail_q + seg =~= seg);
                lemma_plain_text_no_parent(style, seg);
            } else if is_separator(style, q.last()) {
                let t = tail_q.drop_last();
                let c = tail_q.last();
                assert(c == q.last());
                assert(tail_q + seg =~= t.push(c) + seg);
                lemma_split_in_concat(style, t, c, Seq::<char>::empty());
                assert(t.push(c) + Seq::<char>::empty() =~= tail_q);
                lemma_split_in_nonempty(style, t);
                assert forall|i: int|
                    0 <= i < split_in(style, t).len() implies !is_parent_segment(
                    #[trigger] split_in(style, t)[i],
                ) by {
                    assert(split_in(style, tail_q)[i] == split_in(style, t)[i]);
                }
                lemma_append_after_separator(style, t, c, seg);
            } else {
                // `q` is a bare drive `X:` and the tail is a non-empty end of it.
                assert(style == PathStyle::Windows && is_bare_drive(q));
                let u = tail_q + seg;
                assert(tail_q.last() == ':');
                assert forall|i: int| 0 <= i < u.len() implies !is_separator(style, #[trigger] u[i]) by {
                    if i < tail_q.len() {
                        assert(u[i] == q[p.len() + i]);
                    } else {
                        assert(u[i] == seg[i - tail_q.len()]);
                    }
                }
                assert(u[tail_q.len() - 1] == ':');
                assert(!is_parent_segment(u)) by {
                    if is_parent_segment(u) {
                        assert(u[tail_q.len() - 1] == seq!['.', '.'][tail_q.len() - 1]);
                    }
                }
                lemma_plain_text_no_parent(style, u);
            }
        } else {
            let c = main_separator(style);
            assert(is_separator(style, c));
            assert(r.take(p.len() as int) =~= q.take(p.len() as int));
            assert(r.skip(p.len() as int) =~= tail_q.push(c) + seg);
            lemma_append_after_separator(style, tail_q, c, seg);
        }
    }
}

pub proof fn lemma_split_path_nonempty(s: Seq<char>)
    ensures
        split_path(s).len() >= 1,
    decreases s.len(),
{
    if s.len() > 0 {
        lemma_split_path_nonempty(s.drop_last());
    }
}

/// Splitting `a`, a slash and `b` gives the segments of `a` followed by those
/// of `b`.
pub proof fn lemma_split_path_concat(a: Seq<char>, b: Seq<char>)
    ensures
        split_path(a.push('/') + b) == split_path(a) + split_path(b),
    decreases b.len(),
{
    lemma_split_path_nonempty(a);
    if b.len() == 0 {
        assert(a.push('/') + b =~= a.push('/'));
        assert((a.push('/')).drop_last() =~= a);
        assert(split_path(a) + split_path(b) =~= split_path(a).push(Seq::<char>::empty()));
    } else {
        lemma_split_path_concat(a, b.drop_last());
        lemma_split_path_nonempty(b.drop_last());
        assert((a.push('/') + b).drop_last() =~= a.push('/') + b.drop_last());
        assert((a.push('/') + b).last() == b.last());
        let pa = split_path(a);
        let pb = split_path(b.drop_last());
        if b.last() == '/' {
            assert((pa + pb).push(Seq::<char>::empty()) =~= pa + pb.push(Seq::<char>::empty()));
        } else {
            assert((pa + pb).update((pa + pb).len() - 1, (pa + pb).last().push(b.last())) =~= pa
                + pb.update(pb.len() - 1, pb.last().push(b.last())));
        }
    }
}

/// No segment holds a slash.
pub proof fn lemma_split_path_no_slash(s: Seq<char>)
    ensures
        forall|i: int, j: int|
            0 <= i < split_path(s).len() && 0 <= j < split_path(s)[i].len() ==> split_path(
                s,
            )[i][j] != '/',
    decreases s.len(),
{
    if s.len() > 0 {
        lemma_split_path_no_slash(s.drop_last());
        lemma_split_path_nonempty(s.drop_last());
        let prev = split_path(s.drop_last());
        if s.last() != '/' {
            let cur = split_path(s);
            assert forall|i: int, j: int| 0 <= i < cur.len() && 0 <= j < cur[i].len() implies cur[i][j] != '/' by {
                if i == prev.len() - 1 {
                    if j < prev.last().len() {
                        assert(cur[i][j] == prev.last()[j]);
                    }
                } else {
                    assert(cur[i] == prev[i]);
                }
            }
        } else {
            let cur = split_path(s);
            assert forall|i: int, j: int| 0 <= i < cur.len() && 0 <= j < cur[i].len() implies cur[i][j] != '/' by {
                if i < prev.len() {
                    assert(cur[i] == prev[i]);
                }
            }
        }
    }
}

pub proof fn lemma_split_single(seg: Seq<char>)
    requires
        forall|i: int| 0 <= i < seg.len() ==> seg[i] != '/',
    ensures
        split_path(seg) == seq![seg],
    decreases seg.len(),
{
    if seg.len() == 0 {
        assert(seg =~= Seq::<char>::empty());
    } else {
        lemma_split_single(seg.drop_last());
        assert(seg.drop_last().push(seg.last()) =~= seg);
        assert(seq![seg.drop_last()].update(0, seg) =~= seq![seg]);
    }
}

/// Law: joining the segments of a path with `/` gives the path back.
pub proof fn lemma_split_join(s: Seq<char>)
    ensures
        crate::perspective::joined_with(split_path(s), seq!['/']) == s,
    decreases s.len(),
{
    if s.len() == 0 {
        assert(split_path(s) =~= seq![Seq::<char>::empty()]);
        assert(s =~= Seq::<char>::empty());
    } else {
        lemma_split_join(s.drop_last());
        lemma_split_path_nonempty(s.drop_last());
        let prev = split_path(s.drop_last());
        let c = s.last();
        if c == '/' {
            let now = prev.push(Seq::<char>::empty());
            assert(now.drop_last() =~= prev);
            assert(s =~= s.drop_last() + seq!['/'] + Seq::<char>::empty());
        } else {
            let now = prev.update(prev.len() - 1, prev.last().push(c));
            if prev.len() == 1 {
                assert(s =~= prev[0].push(c));
            } else {
                assert(now.drop_last() =~= prev.drop_last());
                let head = crate::perspective::joined_with(prev.drop_last(), seq!['/']);
                assert(s.drop_last() == head + seq!['/'] + prev.last());
                assert(s =~= s.drop_last().push(c));
                assert(s =~= crate::perspective::joined_with(prev.drop_last(), seq!['/']) + seq!['/'] + prev.last().push(c));
            }
        }
    }
}
pub(crate) fn is_windows(style: PathStyle) -> (b: bool)
    ensures
        b == (style == PathStyle::Windows),
{
    match style {
        PathStyle::Windows => true,
        PathStyle::Unix => false,
    }
}

pub(crate) fn is_separator_char(style: PathStyle, c: char) -> (b: bool)
    ensures
        b == is_separator(style, c),
{
    c == '/' || (is_windows(style) && c == '\\')
}

/// Whether the characters `start..end` of `s` start with a drive prefix.
pub(crate) fn drive_prefix_at(s: &str, start: usize, end: usize) -> (b: bool)
    requires
        start <= end <= s@.len(),
    ensures
        b == has_drive_prefix(s@.subrange(start as int, end as int)),
{
    if end - start >= 2 {
        let c0 = s.get_char(start);
        let c1 = s.get_char(start + 1);
        let v = c0 as u32;
        let letter = (0x41 <= v && v <= 0x5a) || (0x61 <= v && v <= 0x7a);
        proof {
            assert(s@.subrange(start as int, end as int)[0] == c0);
            assert(s@.subrange(start as int, end as int)[1] == c1);
        }
        letter && c1 == ':'
    } else {
        false
    }
}

/// Whether the characters `start..end` of `s` form the segment `..`.
fn is_parent_at(s: &str, start: usize, end: usize) -> (b: bool)
    requires
        start <= end <= s@.len(),
    ensures
        b == is_parent_segment(s@.subrange(start as int, end as int)),
{
    if end - start == 2 {
        let b = s.get_char(start) == '.' && s.get_char(start + 1) == '.';
        proof {
            if b {
                assert(s@.subrange(start as int, end as int) =~= seq!['.', '.']);
            } else {
                assert(s@.subrange(start as int, end as int)[0] == s@[start as int]);
                assert(s@.subrange(start as int, end as int)[1] == s@[start + 1]);
            }
        }
        b
    } else {
        assert(seq!['.', '.'].len() == 2);
        false
    }
}

/// Whether the characters `start..end` of `s` form an unsafe segment.
fn is_unsafe_at(style: PathStyle, s: &str, start: usize, end: usize) -> (b: bool)
    requires
        start <= end <= s@.len(),
    ensures
        b == is_unsafe_segment(style, s@.subrange(start as int, end as int)),
{
    is_parent_at(s, start, end) || (is_windows(style) && drive_prefix_at(s, start, end))
}

/// Pushes the characters `start..end` of `s` onto `result` as one segment.
fn push_segment_from(style: PathStyle, result: &mut String, s: &str, start: usize, end: usize)
    requires
        start <= end <= s@.len(),
    ensures
        final(result)@ == push_segment(style, old(result)@, s@.subrange(start as int, end as int)),
{
    let ghost seg = s@.subrange(start as int, end as int);
    if end == start {
        assert(seg.len() == 0);
        return;
    }
    if end - start == 1 && s.get_char(start) == '.' {
        assert(seg =~= seq!['.']);
        return;
    }
    assert(!is_skipped_segment(seg)) by {
        assert(seq!['.'].len() == 1 && seq!['.'][0] == '.');
        if seg == seq!['.'] {
            assert(seg[0] == s@[start as int]);
        }
    }
    let windows = is_windows(style);
    let rl = result.as_str().unicode_len();
    let bare_drive = windows && rl == 2 && drive_prefix_at(result.as_str(), 0, 2);
    proof {
        if rl == 2 {
            assert(result@.subrange(0, 2) =~= result@);
        }
    }
    if rl > 0 && !is_separator_char(style, result.as_str().get_char(rl - 1)) && !bare_drive {
        if windows {
            proof {
                reveal_strlit("\\");
            }
            result.append("\\");
            assert("\\"@ =~= seq!['\\']);
        } else {
            proof {
                reveal_strlit("/");
            }
            result.append("/");
            assert("/"@ =~= seq!['/']);
        }
    }
    result.append(s.substring_char(start, end));
}

/// Joins one untrusted path onto a trusted `root` under the conventions of
/// `style`, refusing any path that could leave the root.
///
/// The path is split at the separators of `style`; `.` and empty segments
/// are skipped and every other segment is pushed as `PathBuf::push` does.
/// A path that starts with a separator or (on Windows) a drive prefix, or
/// that has a `..` segment anywhere, or (on Windows) a segment anywhere that
/// starts with a drive prefix (`a\D:x`, which `PathBuf::push` would let
/// replace the whole path), gives [`PathError::UnsafeSegment`] carrying the
/// whole untrusted path. A root in the verbatim
/// `\\?\` form is extended as text, where `PathBuf::push` would also
/// rebuild it from its components.
pub fn safe_join_in(style: PathStyle, root: &str, untrusted: &str) -> (r: Result<String, PathError>)
    ensures
        join_outcome(style, root@, untrusted@, r),
{
    let n = untrusted.unicode_len();
    let ghost s = untrusted@;
    let windows = is_windows(style);
    proof {
        assert(s.subrange(0, n as int) =~= s);
    }
    if (n > 0 && is_separator_char(style, untrusted.get_char(0))) || (windows && drive_prefix_at(
        untrusted,
        0,
        n,
    )) {
        return Err(PathError::UnsafeSegment(String::from_str(untrusted)));
    }
    let mut result = String::from_str(root);
    let mut start: usize = 0;
    let mut i: usize = 0;
    proof {
        assert(s.take(0) =~= Seq::<char>::empty());
        assert(s.subrange(0, 0) =~= Seq::<char>::empty());
        assert(split_in(style, Seq::<char>::empty()).drop_last() =~= Seq::<Seq<char>>::empty());
    }
    while i < n
        invariant
            n == s.len(),
            s == untrusted@,
            start <= i <= n,
            !is_anchored(style, s),
            split_in(style, s.take(i as int)).len() >= 1,
            split_in(style, s.take(i as int)).last() == s.subrange(start as int, i as int),
            result@ == push_segments(style, root@, split_in(style, s.take(i as int)).drop_last()),
            forall|k: int|
                0 <= k < split_in(style, s.take(i as int)).len() - 1 ==> !is_unsafe_segment(style, 
                    #[trigger] split_in(style, s.take(i as int))[k],
                ),
        decreases n - i,
    {
        let ghost prev = split_in(style, s.take(i as int));
        proof {
            assert(s.take(i + 1).drop_last() =~= s.take(i as int));
            assert(s.take(i + 1).last() == s[i as int]);
        }
        let c = untrusted.get_char(i);
        if is_separator_char(style, c) {
            if is_unsafe_at(style, untrusted, start, i) {
                proof {
                    let next = split_in(style, s.take(i + 1));
                    assert(next == prev.push(Seq::<char>::empty()));
                    lemma_split_in_prefix(style, s, i + 1, n as int);
                    assert(s.take(n as int) =~= s);
                    let k = prev.len() - 1;
                    assert(next[k] == prev.last());
                    assert(split_in(style, s)[k] == prev.last());
                    assert(is_unsafe_segment(style, split_in(style, s)[k]));
                }
                return Err(PathError::UnsafeSegment(String::from_str(untrusted)));
            }
            push_segment_from(style, &mut result, untrusted, start, i);
            proof {
                let next = split_in(style, s.take(i + 1));
                assert(next == prev.push(Seq::<char>::empty()));
                assert(next.drop_last() =~= prev);
                assert(s.subrange(i + 1, i + 1) =~= Seq::<char>::empty());
                assert forall|k: int| 0 <= k < next.len() - 1 implies !is_unsafe_segment(style, 
                    #[trigger] next[k],
                ) by {
                    assert(next[k] == prev[k]);
                }
            }
            start = i + 1;
        } else {
            proof {
                let next = split_in(style, s.take(i + 1));
                assert(next == prev.update(prev.len() - 1, prev.last().push(c)));
                assert(next.drop_last() =~= prev.drop_last());
                assert(s.subrange(start as int, i + 1) =~= s.subrange(start as int, i as int).push(
                    c,
                ));
                assert forall|k: int| 0 <= k < next.len() - 1 implies !is_unsafe_segment(style, 
                    #[trigger] next[k],
                ) by {
                    assert(next[k] == prev[k]);
                }
            }
        }
        i = i + 1;
    }
    proof {
        assert(s.take(n as int) =~= s);
    }
    if is_unsafe_at(style, untrusted, start, n) {
        proof {
            let k = split_in(style, s).len() - 1;
            assert(is_unsafe_segment(style, split_in(style, s)[k]));
        }
        return Err(PathError::UnsafeSegment(String::from_str(untrusted)));
    }
    push_segment_from(style, &mut result, untrusted, start, n);
    proof {
        let sp = split_in(style, s);
        assert forall|k: int| 0 <= k < sp.len() implies !is_unsafe_segment(style, #[trigger] sp[k]) by {
            if k < sp.len() - 1 {
            }
        }
    }
    Ok(result)
}

/// Joins several untrusted paths in order onto `root` under the conventions
/// of `style`, each checked as by [`safe_join_in`]. The first one that could
/// escape decides the error.
pub fn safe_join_all_in(style: PathStyle, root: &str, segments: &[&str]) -> (r: Result<
    String,
    PathError,
>)
    ensures
        join_all_outcome(style, root@, segments@.map_values(|x: &str| x@), r),
{
    let ghost segs = segments@.map_values(|x: &str| x@);
    let mut result = String::from_str(root);
    let mut i: usize = 0;
    proof {
        assert(segs.take(0) =~= Seq::<Seq<char>>::empty());
    }
    while i < segments.len()
        invariant
            0 <= i <= segments@.len(),
            segs == segments@.map_values(|x: &str| x@),
            joined_all(style, root@, segs.take(i as int)) == Some(result@),
        decreases segments@.len() - i,
    {
        proof {
            assert(segs.take(i + 1).drop_last() =~= segs.take(i as int));
            assert(segs.take(i + 1).last() == segments@[i as int]@);
        }
        match safe_join_in(style, result.as_str(), segments[i]) {
            Ok(p) => {
                result = p;
            },
            Err(e) => {
                proof {
                    lemma_first_failing(style, root@, segs, i as int);
                }
                return Err(e);
            },
        }
        i = i + 1;
    }
    proof {
        assert(segs.take(segments@.len() as int) =~= segs);
    }
    Ok(result)
}

proof fn lemma_first_failing(style: PathStyle, root: Seq<char>, segs: Seq<Seq<char>>, i: int)
    requires
        0 <= i < segs.len(),
        joined_all(style, root, segs.take(i)) is Some,
        joined_all(style, root, segs.take(i + 1)) is None,
    ensures
        joined_all(style, root, segs) is None,
        first_failing(style, root, segs) == i,
    decreases segs.len(),
{
    assert(segs.take(i + 1).drop_last() =~= segs.take(i));
    if segs.len() == i + 1 {
        assert(segs.take(i + 1) =~= segs);
        assert(segs.drop_last() =~= segs.take(i));
    } else {
        assert(segs.drop_last().take(i) =~= segs.take(i));
        assert(segs.drop_last().take(i + 1) =~= segs.take(i + 1));
        lemma_first_failing(style, root, segs.drop_last(), i);
    }
}

/// Calls `std::path::is_separator('\\')`: whether the platform the program
/// was built for takes a backslash as a path separator. That depends on the
/// platform, so nothing is claimed of the result.
#[verifier::external_body]
fn backslash_separates() -> (b: bool) {
    std::path::is_separator('\\')
}

/// The path conventions of the platform the program runs on: Windows
/// conventions where a backslash separates path components, Unix ones
/// otherwise.
pub fn target_path_style() -> (s: PathStyle) {
    if backslash_separates() {
        PathStyle::Windows
    } else {
        PathStyle::Unix
    }
}

/// Joins one untrusted path onto a trusted `root` under the conventions of
/// the platform the program runs on, as [`safe_join_in`] does: whichever the
/// platform, the answer is that of Unix or of Windows conventions.
pub fn safe_join(root: &str, untrusted: &str) -> (r: Result<String, PathError>)
    ensures
        join_outcome(PathStyle::Unix, root@, untrusted@, r) || join_outcome(
            PathStyle::Windows,
            root@,
            untrusted@,
            r,
        ),
{
    safe_join_in(target_path_style(), root, untrusted)
}

/// Joins several untrusted paths in order onto `root` under the conventions
/// of the platform the program runs on, as [`safe_join_all_in`] does.
pub fn safe_join_all(root: &str, segments: &[&str]) -> (r: Result<String, PathError>)
    ensures
        join_all_outcome(PathStyle::Unix, root@, segments@.map_values(|x: &str| x@), r)
            || join_all_outcome(PathStyle::Windows, root@, segments@.map_values(|x: &str| x@), r),
{
    safe_join_all_in(target_path_style(), root, segments)
}

/// Law: a successful join never leaves its root. The result starts with
/// the root, and the text after the root holds no `..` segment.
pub proof fn law_join_stays_under_root(style: PathStyle, root: Seq<char>, s: Seq<char>, p: Seq<char>)
    requires
        joined_path(style, root, s) == Some(p),
    ensures
        p.len() >= root.len(),
        p.take(root.len() as int) == root,
        forall|i: int|
            0 <= i < split_in(style, p.skip(root.len() as int)).len() ==> !is_parent_segment(
                #[trigger] split_in(style, p.skip(root.len() as int))[i],
            ),
{
    let segs = split_in(style, s);
    assert forall|i: int| 0 <= i < segs.len() implies !is_parent_segment(#[trigger] segs[i]) by {
        if is_parent_segment(segs[i]) {
            assert(is_unsafe_segment(style, segs[i]));
            assert(escapes_root(style, s));
        }
    }
    lemma_split_in_no_separator(style, s);
    lemma_push_segments_suffix(style, root, segs);
}

/// Law: joining `a/b` is joining `a` and then `b`, for a non-empty `a` and a
/// `b` that starts with neither a root nor a prefix.
pub proof fn law_join_chains(style: PathStyle, root: Seq<char>, a: Seq<char>, b: Seq<char>)
    requires
        a.len() > 0,
        !is_anchored(style, b),
    ensures
        joined_path(style, root, a.push('/') + b) == match joined_path(style, root, a) {
            Some(p) => joined_path(style, p, b),
            None => None,
        },
{
    let ab = a.push('/') + b;
    lemma_split_in_concat(style, a, '/', b);
    let sa = split_in(style, a);
    let sb = split_in(style, b);
    assert(ab[0] == a[0]);
    assert(has_drive_prefix(ab) == has_drive_prefix(a)) by {
        if a.len() >= 2 {
            assert(ab[1] == a[1]);
        } else {
            assert(ab[1] == '/');
        }
    }
    assert(escapes_root(style, ab) == (escapes_root(style, a) || escapes_root(style, b))) by {
        if exists|i: int| 0 <= i < (sa + sb).len() && is_unsafe_segment(style, #[trigger] (sa + sb)[i]) {
            let i = choose|i: int| 0 <= i < (sa + sb).len() && is_unsafe_segment(style, #[trigger] (sa + sb)[i]);
            if i < sa.len() {
                assert(sa[i] == (sa + sb)[i]);
            } else {
                assert(sb[i - sa.len()] == (sa + sb)[i]);
            }
        }
        if exists|i: int| 0 <= i < sa.len() && is_unsafe_segment(style, #[trigger] sa[i]) {
            let i = choose|i: int| 0 <= i < sa.len() && is_unsafe_segment(style, #[trigger] sa[i]);
            assert((sa + sb)[i] == sa[i]);
        }
        if exists|i: int| 0 <= i < sb.len() && is_unsafe_segment(style, #[trigger] sb[i]) {
            let i = choose|i: int| 0 <= i < sb.len() && is_unsafe_segment(style, #[trigger] sb[i]);
            assert((sa + sb)[sa.len() + i] == sb[i]);
        }
    }
    lemma_push_segments_concat(style, root, sa, sb);
}

/// Law: a leading `./` changes nothing.
pub proof fn law_join_skips_current_dir(style: PathStyle, root: Seq<char>, b: Seq<char>)
    requires
        !is_anchored(style, b),
    ensures
        joined_path(style, root, seq!['.', '/'] + b) == joined_path(style, root, b),
{
    let a = seq!['.'];
    assert(a.push('/') =~= seq!['.', '/']);
    law_join_chains(style, root, a, b);
    lemma_split_in_single(style, a);
    assert(!is_parent_segment(a)) by {
        assert(seq!['.', '.'].len() == 2);
    }
    assert(!escapes_root(style, a)) by {
        if exists|i: int|
            0 <= i < split_in(style, a).len() && is_unsafe_segment(style, #[trigger] split_in(style, a)[i]) {
            assert(split_in(style, a)[0] == a);
        }
    }
    assert(push_segments(style, root, seq![a]) == push_segment(
        style,
        push_segments(style, root, seq![a].drop_last()),
        a,
    ));
    assert(seq![a].drop_last() =~= Seq::<Seq<char>>::empty());
}


} // verus!
