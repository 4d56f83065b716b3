//! Path equality the way `Path` compares: component by component.
//!
//! `Path::components` ignores repeated separators and a trailing `/`, drops
//! `.` except as the first component of a relative path, and reports a
//! leading `/` as the root. Two paths are equal when their components are.
//! Components are written here as text: `/` for the root and `.` for the
//! leading current-directory component; no other component can be either.
//!
//! The comparison follows Unix conventions. On Windows `Path` equality also
//! splits at `\\` and reads a leading drive or UNC prefix as one component
//! (a drive letter in either case); two spellings of one Windows path that
//! differ only in those points are told apart here.

use vstd::prelude::*;
use crate::paths::{is_skipped_segment, split_path};
use crate::text::{str_equals, substring};

verus! {

/// The parts of `parts` that are neither empty nor `.`, in order.
pub open spec fn kept_parts(parts: Seq<Seq<char>>) -> Seq<Seq<char>>
    decreases parts.len(),
{
    if parts.len() == 0 {
        Seq::<Seq<char>>::empty()
    } else {
        let k = kept_parts(parts.drop_last());
        if is_skipped_segment(parts.last()) {
            k
        } else {
            k.push(parts.last())
        }
    }
}

/// The components of the `/`-separated path `s`.
pub open spec fn path_components(s: Seq<char>) -> Seq<Seq<char>> {
    let parts = split_path(s);
    if s.len() > 0 && s[0] == '/' {
        seq![seq!['/']] + kept_parts(parts.drop_first())
    } else if parts[0] == seq!['.'] {
        seq![seq!['.']] + kept_parts(parts.drop_first())
    } else {
        kept_parts(parts)
    }
}

/// Whether two paths are the same path as `Path` equality sees it.
pub open spec fn same_path(a: Seq<char>, b: Seq<char>) -> bool {
    path_components(a) == path_components(b)
}

/// The views of a vector of strings.
pub open spec fn views(v: Seq<String>) -> Seq<Seq<char>> {
    v.map_values(|x: String| x@)
}

/// Splits `s` at every `/`, keeping empty parts.
pub fn split_on_slash(s: &str) -> (r: Vec<String>)
    ensures
        views(r@) == split_path(s@),
{
    let n = s.unicode_len();
    let ghost t = s@;
    let mut out: Vec<String> = Vec::new();
    let mut start: usize = 0;
    let mut i: usize = 0;
    proof {
        assert(t.take(0) =~= Seq::<char>::empty());
        assert(t.subrange(0, 0) =~= Seq::<char>::empty());
        assert(split_path(Seq::<char>::empty()).drop_last() =~= Seq::<Seq<char>>::empty());
        assert(views(out@) =~= Seq::<Seq<char>>::empty());
    }
    while i < n
        invariant
            n == t.len(),
            t == s@,
            start <= i <= n,
            split_path(t.take(i as int)).len() >= 1,
            split_path(t.take(i as int)).last() == t.subrange(start as int, i as int),
            views(out@) == split_path(t.take(i as int)).drop_last(),
        decreases n - i,
    {
        let ghost prev = split_path(t.take(i as int));
        proof {
            assert(t.take(i + 1).drop_last() =~= t.take(i as int));
            assert(t.take(i + 1).last() == t[i as int]);
        }
        let c = s.get_char(i);
        if c == '/' {
            let part = substring(s, start, i);
            let ghost old_out = out@;
            out.push(part);
            proof {
                let next = split_path(t.take(i + 1));
                assert(next.drop_last() =~= prev);
                assert(prev.drop_last().push(prev.last()) =~= prev);
                assert(out@ == old_out.push(part));
                assert(views(out@) =~= views(old_out).push(part@));
                assert(views(out@) =~= next.drop_last());
                assert(t.subrange(i + 1, i + 1) =~= Seq::<char>::empty());
            }
            start = i + 1;
        } else {
            proof {
                let next = split_path(t.take(i + 1));
                assert(next.drop_last() =~= prev.drop_last());
                assert(t.subrange(start as int, i + 1) =~= t.subrange(start as int, i as int).push(
                    c,
                ));
            }
        }
        i = i + 1;
    }
    proof {
        assert(t.take(n as int) =~= t);
    }
    let last = substring(s, start, n);
    let ghost old_out = out@;
    out.push(last);
    proof {
        let parts = split_path(t);
        assert(parts.drop_last().push(parts.last()) =~= parts);
        assert(views(out@) =~= views(old_out).push(last@));
        assert(views(out@) =~= parts);
    }
    out
}

/// The components of `s`, as `Path::components` yields them.
pub fn components(s: &str) -> (r: Vec<String>)
    ensures
        views(r@) == path_components(s@),
{
    let parts = split_on_slash(s);
    let ghost ps = split_path(s@);
    let mut out: Vec<String> = Vec::new();
    let mut first: usize = 0;
    proof {
        crate::paths::lemma_split_path_nonempty(s@);
    }
    let rooted = s.unicode_len() > 0 && s.get_char(0) == '/';
    let dot = str_equals(parts[0].as_str(), ".");
    proof {
        reveal_strlit(".");
        assert("."@ =~= seq!['.']);
        assert(views(parts@)[0] == parts@[0]@);
    }
    if rooted {
        proof {
            reveal_strlit("/");
            assert("/"@ =~= seq!['/']);
        }
        out.push(String::from_str("/"));
        first = 1;
    } else if dot {
        proof {
            reveal_strlit(".");
            assert("."@ =~= seq!['.']);
        }
        out.push(String::from_str("."));
        first = 1;
    }
    let ghost head = views(out@);
    let ghost rest = ps.subrange(first as int, ps.len() as int);
    proof {
        assert(ps[0] == views(parts@)[0]);
        if first == 1 {
            assert(views(out@)[0] == out@[0]@);
        }
        if rooted {
            assert(rest =~= ps.drop_first());
            assert(head =~= seq![seq!['/']]);
        } else if first == 1 {
            assert(rest =~= ps.drop_first());
            assert(head =~= seq![seq!['.']]);
        } else {
            assert(rest =~= ps);
            assert(head =~= Seq::<Seq<char>>::empty());
        }
        assert(rest.take(0) =~= Seq::<Seq<char>>::empty());
        assert(head + kept_parts(rest.take(0)) =~= head);
    }
    let mut k: usize = first;
    while k < parts.len()
        invariant
            views(parts@) == ps,
            ps.len() >= 1,
            first <= k <= ps.len(),
            first <= 1,
            rest == ps.subrange(first as int, ps.len() as int),
            views(out@) == head + kept_parts(rest.take(k - first)),
        decreases parts.len() - k,
    {
        let ghost before = views(out@);
        proof {
            assert(rest.take(k + 1 - first).drop_last() =~= rest.take(k - first));
            assert(rest.take(k + 1 - first).last() == ps[k as int]);
            assert(views(parts@)[k as int] == parts@[k as int]@);
        }
        let p = parts[k].as_str();
        let skipped = p.unicode_len() == 0 || str_equals(p, ".");
        proof {
            reveal_strlit(".");
            assert("."@ =~= seq!['.']);
        }
        if !skipped {
            let ghost old_out = out@;
            out.push(parts[k].clone());
            proof {
                assert(views(out@) =~= views(old_out).push(out@[out@.len() - 1]@));
                assert(views(out@) =~= before.push(ps[k as int]));
            }
        }
        k = k + 1;
    }
    proof {
        assert(rest.take(ps.len() - first) =~= rest);
        if rooted {
            assert(s@.len() > 0 && s@[0] == '/');
        } else {
            if first == 1 {
                assert(ps[0] == seq!['.']);
            } else {
                assert(ps[0] != seq!['.']);
            }
        }
    }
    out
}

/// Whether `a` and `b` are the same path as `Path` equality sees it: the
/// same components in the same order.
pub fn paths_equal(a: &str, b: &str) -> (r: bool)
    ensures
        r == same_path(a@, b@),
{
    let ca = components(a);
    let cb = components(b);
    if ca.len() != cb.len() {
        proof {
            assert(views(ca@).len() != views(cb@).len());
        }
        return false;
    }
    let mut i: usize = 0;
    while i < ca.len()
        invariant
            ca@.len() == cb@.len(),
            i <= ca@.len(),
            views(ca@) == path_components(a@),
            views(cb@) == path_components(b@),
            forall|j: int| 0 <= j < i ==> ca@[j]@ == cb@[j]@,
        decreases ca@.len() - i,
    {
        if !str_equals(ca[i].as_str(), cb[i].as_str()) {
            proof {
                assert(views(ca@)[i as int] != views(cb@)[i as int]);
            }
            return false;
        }
        i = i + 1;
    }
    proof {
        assert(views(ca@) =~= views(cb@));
    }
    true
}

} // verus!
