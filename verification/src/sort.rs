//! Sorting file names as `Vec<String>::sort` does: lexicographic by
//! character (which for UTF-8 text is the byte order `String` compares by),
//! equal names keeping their order.

use vstd::prelude::*;

verus! {

broadcast use vstd::seq_lib::group_to_multiset_ensures;

/// Lexicographic `a <= b` by character.
pub open spec fn lex_le(a: Seq<char>, b: Seq<char>) -> bool
    decreases a.len(),
{
    if a.len() == 0 {
        true
    } else if b.len() == 0 {
        false
    } else if a[0] != b[0] {
        a[0] < b[0]
    } else {
        lex_le(a.drop_first(), b.drop_first())
    }
}

/// Every name is `lex_le` every later one.
pub open spec fn is_sorted_names(s: Seq<Seq<char>>) -> bool {
    forall|i: int, j: int| 0 <= i < j < s.len() ==> lex_le(#[trigger] s[i], #[trigger] s[j])
}

/// The texts of a list of strings.
pub open spec fn texts(v: Seq<String>) -> Seq<Seq<char>> {
    v.map_values(|s: String| s@)
}

pub proof fn lemma_lex_le_total(a: Seq<char>, b: Seq<char>)
    ensures
        lex_le(a, b) || lex_le(b, a),
    decreases a.len(),
{
    if a.len() > 0 && b.len() > 0 && a[0] == b[0] {
        lemma_lex_le_total(a.drop_first(), b.drop_first());
    }
}

pub proof fn lemma_lex_le_transitive(a: Seq<char>, b: Seq<char>, c: Seq<char>)
    requires
        lex_le(a, b),
        lex_le(b, c),
    ensures
        lex_le(a, c),
    decreases a.len(),
{
    if a.len() > 0 && b.len() > 0 && c.len() > 0 && a[0] == b[0] && b[0] == c[0] {
        lemma_lex_le_transitive(a.drop_first(), b.drop_first(), c.drop_first());
    }
}

proof fn lemma_lex_le_skip(a: Seq<char>, b: Seq<char>, i: int)
    requires
        0 <= i <= a.len(),
        i <= b.len(),
        a.take(i) == b.take(i),
    ensures
        lex_le(a, b) == lex_le(a.skip(i), b.skip(i)),
    decreases i,
{
    if i > 0 {
        assert(a[0] == a.take(i)[0]);
        assert(b[0] == b.take(i)[0]);
        assert(a.drop_first().take(i - 1) =~= a.take(i).drop_first());
        assert(b.drop_first().take(i - 1) =~= b.take(i).drop_first());
        lemma_lex_le_skip(a.drop_first(), b.drop_first(), i - 1);
        assert(a.drop_first().skip(i - 1) =~= a.skip(i));
        assert(b.drop_first().skip(i - 1) =~= b.skip(i));
    } else {
        assert(a.skip(0) =~= a);
        assert(b.skip(0) =~= b);
    }
}

/// Whether `a` sorts before or equal to `b`.
pub fn names_le(a: &str, b: &str) -> (r: bool)
    ensures
        r == lex_le(a@, b@),
{
    let an = a.unicode_len();
    let bn = b.unicode_len();
    let mut i: usize = 0;
    while i < an && i < bn && a.get_char(i) == b.get_char(i)
        invariant
            an == a@.len(),
            bn == b@.len(),
            i <= an,
            i <= bn,
            a@.take(i as int) == b@.take(i as int),
        decreases an - i,
    {
        proof {
            assert(a@.take(i + 1) =~= a@.take(i as int).push(a@[i as int]));
            assert(b@.take(i + 1) =~= b@.take(i as int).push(b@[i as int]));
        }
        i = i + 1;
    }
    proof {
        lemma_lex_le_skip(a@, b@, i as int);
    }
    if i == an {
        true
    } else if i == bn {
        false
    } else {
        let ca = a.get_char(i);
        let cb = b.get_char(i);
        assert(a@.skip(i as int)[0] == ca);
        assert(b@.skip(i as int)[0] == cb);
        ca < cb
    }
}

/// Sorts names lexicographically by character; equal names keep their
/// order.
pub fn sort_names(names: &[String]) -> (r: Vec<String>)
    ensures
        is_sorted_names(texts(r@)),
        texts(r@).to_multiset() == texts(names@).to_multiset(),
{
    let mut out: Vec<String> = Vec::new();
    let mut i: usize = 0;
    proof {
        assert(names@.take(0) =~= Seq::<String>::empty());
        assert(texts(out@) =~= texts(names@.take(0)));
    }
    while i < names.len()
        invariant
            i <= names@.len(),
            is_sorted_names(texts(out@)),
            texts(out@).to_multiset() == texts(names@.take(i as int)).to_multiset(),
        decreases names@.len() - i,
    {
        let x = names[i].clone();
        // position after every name not greater than x
        let mut p: usize = out.len();
        while p > 0 && !names_le(out[p - 1].as_str(), x.as_str())
            invariant
                p <= out@.len(),
                x@ == names@[i as int]@,
                forall|k: int| p <= k < out@.len() ==> !lex_le(#[trigger] out@[k]@, x@),
            decreases p,
        {
            p = p - 1;
        }
        // names before p are not greater than x
        proof {
            let t = texts(out@);
            assert forall|k: int| p <= k < t.len() implies lex_le(x@, #[trigger] t[k]) by {
                lemma_lex_le_total(x@, t[k]);
            }
            assert forall|k: int| 0 <= k < p implies lex_le(#[trigger] t[k], x@) by {
                if k < p - 1 {
                    assert(lex_le(t[k], t[p - 1]));
                    lemma_lex_le_transitive(t[k], t[p - 1], x@);
                }
            }
        }
        let ghost before = out@;
        out.insert(p, x);
        proof {
            let t0 = texts(before);
            let t = texts(out@);
            assert(t =~= t0.insert(p as int, names@[i as int]@));
            assert forall|a: int, b: int| 0 <= a < b < t.len() implies lex_le(#[trigger] t[a], #[trigger] t[b]) by {
                if a < p && b < p {
                    assert(t[a] == t0[a]);
                    assert(t[b] == t0[b]);
                } else if a < p && b == p {
                    assert(t[a] == t0[a]);
                } else if a < p && b > p {
                    assert(t[a] == t0[a]);
                    assert(t[b] == t0[b - 1]);
                    lemma_lex_le_transitive(t[a], x@, t0[b - 1]);
                } else if a == p {
                    assert(t[b] == t0[b - 1]);
                } else {
                    assert(t[a] == t0[a - 1]);
                    assert(t[b] == t0[b - 1]);
                }
            }
            assert(texts(names@.take(i + 1)) =~= texts(names@.take(i as int)).push(names@[i as int]@));
            assert(t0.insert(p as int, names@[i as int]@).to_multiset() == t0.to_multiset().insert(names@[i as int]@));
        }
        i = i + 1;
    }
    assert(names@.take(names@.len() as int) =~= names@);
    out
}


pub proof fn lemma_lex_le_antisymmetric(a: Seq<char>, b: Seq<char>)
    requires
        lex_le(a, b),
        lex_le(b, a),
    ensures
        a == b,
    decreases a.len(),
{
    if a.len() == 0 {
        assert(b.len() == 0);
        assert(a =~= b);
    } else {
        lemma_lex_le_antisymmetric(a.drop_first(), b.drop_first());
        assert(a =~= seq![a[0]] + a.drop_first());
        assert(b =~= seq![b[0]] + b.drop_first());
    }
}

/// Position `a` (holding key `ka`) comes before position `b` (key `kb`):
/// by key, and by position among equal keys.
pub open spec fn key_order(ka: Seq<char>, a: int, kb: Seq<char>, b: int) -> bool {
    !lex_le(kb, ka) || (ka == kb && a < b)
}

/// `order` lists every position of `keys` once, by key and, among equal
/// keys, by position (a stable sort).
pub open spec fn is_stable_order(keys: Seq<Seq<char>>, order: Seq<usize>) -> bool {
    &&& order.len() == keys.len()
    &&& forall|i: int| 0 <= i < order.len() ==> order[i] < keys.len()
    &&& forall|i: int, j: int| 0 <= i < j < order.len() ==> order[i] != order[j]
    &&& forall|i: int, j: int|
        0 <= i < j < order.len() ==> key_order(
            keys[order[i] as int],
            order[i] as int,
            keys[order[j] as int],
            order[j] as int,
        )
}

/// The positions of `keys` in stable sorted order of the keys
/// (`sort_by` on the keys).
pub fn stable_order_by_keys(keys: &[String]) -> (r: Vec<usize>)
    ensures
        is_stable_order(texts(keys@), r@),
{
    let ghost ks = texts(keys@);
    let mut out: Vec<usize> = Vec::new();
    let mut i: usize = 0;
    while i < keys.len()
        invariant
            ks == texts(keys@),
            i <= keys@.len(),
            out@.len() == i,
            forall|a: int| 0 <= a < out@.len() ==> out@[a] < i,
            forall|a: int, b: int| 0 <= a < b < out@.len() ==> out@[a] != out@[b],
            forall|a: int, b: int|
                0 <= a < b < out@.len() ==> key_order(
                    ks[out@[a] as int],
                    out@[a] as int,
                    ks[out@[b] as int],
                    out@[b] as int,
                ),
        decreases keys@.len() - i,
    {
        let mut p: usize = out.len();
        while p > 0 && !names_le(keys[out[p - 1]].as_str(), keys[i].as_str())
            invariant
                ks == texts(keys@),
                i < keys@.len(),
                p <= out@.len(),
                forall|a: int| 0 <= a < out@.len() ==> out@[a] < i,
                forall|k: int| p <= k < out@.len() ==> !lex_le(ks[#[trigger] out@[k] as int], ks[i as int]),
            decreases p,
        {
            p = p - 1;
        }
        let ghost before = out@;
        proof {
            let x = ks[i as int];
            assert forall|k: int| 0 <= k < p implies lex_le(ks[#[trigger] before[k] as int], x) by {
                if k < p - 1 {
                    let kk = ks[before[k] as int];
                    let kp = ks[before[p - 1] as int];
                    if !lex_le(kk, kp) {
                        assert(key_order(kk, before[k] as int, kp, before[p - 1] as int));
                        lemma_lex_le_total(kk, kp);
                        assert(false);
                    }
                    lemma_lex_le_transitive(kk, kp, x);
                }
            }
        }
        out.insert(p, i);
        proof {
            let x = ks[i as int];
            let o = out@;
            assert(o =~= before.insert(p as int, i));
            assert forall|a: int, b: int| 0 <= a < b < o.len() implies key_order(
                ks[o[a] as int],
                o[a] as int,
                ks[o[b] as int],
                o[b] as int,
            ) by {
                if b < p {
                    assert(o[a] == before[a] && o[b] == before[b]);
                } else if b == p {
                    assert(o[a] == before[a]);
                    let ka = ks[before[a] as int];
                    if lex_le(x, ka) {
                        lemma_lex_le_antisymmetric(ka, x);
                    }
                } else if a < p {
                    assert(o[a] == before[a] && o[b] == before[b - 1]);
                    let ka = ks[before[a] as int];
                    let kb = ks[before[b - 1] as int];
                    lemma_lex_le_total(x, kb);
                    if lex_le(kb, ka) {
                        lemma_lex_le_transitive(kb, ka, x);
                    }
                } else if a == p {
                    assert(o[b] == before[b - 1]);
                    let kb = ks[before[b - 1] as int];
                    lemma_lex_le_total(x, kb);
                    if lex_le(kb, x) {
                    }
                } else {
                    assert(o[a] == before[a - 1] && o[b] == before[b - 1]);
                }
            }
            assert forall|a: int, b: int| 0 <= a < b < o.len() implies o[a] != o[b] by {
                if a < p && b < p {
                    assert(o[a] == before[a] && o[b] == before[b]);
                } else if a < p && b == p {
                    assert(o[a] == before[a]);
                } else if a < p {
                    assert(o[a] == before[a] && o[b] == before[b - 1]);
                } else if a == p {
                    assert(o[b] == before[b - 1]);
                } else {
                    assert(o[a] == before[a - 1] && o[b] == before[b - 1]);
                }
            }
            assert forall|a: int| 0 <= a < o.len() implies o[a] < i + 1 by {
                if a < p {
                    assert(o[a] == before[a]);
                } else if a > p {
                    assert(o[a] == before[a - 1]);
                }
            }
        }
        i = i + 1;
    }
    out
}

} // verus!
