//! Property folder names and the listing code they may carry.
//!
//! A property folder is named after the property, and once a website
//! listing code is assigned the code follows in parentheses:
//! `Villa Alpha (45164)`. A `/` in a code (as in `204905/44538`) cannot stand
//! in a folder name and is written as `-`.

use vstd::prelude::*;
use crate::paths::split_path;
use crate::text::{
    char_is_alphanumeric, char_utf8_len, is_alphanumeric, replace_char, replace_char_with,
    starts_with, str_equals, substring, utf8_len, utf8_len_char,
};

verus! {

/// The folder name of a property with a code: `{name} ({code})`, with every
/// `/` of the code written as `-`.
pub open spec fn folder_name_with_code(name: Seq<char>, code: Seq<char>) -> Seq<char> {
    name + seq![' ', '('] + replace_char(code, '/', '-') + seq![')']
}

/// Builds `{name} ({code})`, writing every `/` of the code as `-`.
pub fn property_folder_name(name: &str, code: &str) -> (r: String)
    ensures
        r@ == folder_name_with_code(name@, code@),
{
    proof {
        reveal_strlit(" (");
        reveal_strlit(")");
        reveal_strlit("-");
    }
    let mut r = String::from_str(name);
    r.append(" (");
    let safe = replace_char_with(code, '/', "-");
    r.append(safe.as_str());
    r.append(")");
    assert(" ("@ =~= seq![' ', '(']);
    assert(")"@ =~= seq![')']);
    r
}

/// The start of the last ` (` pair among the pairs ending at or before
/// `k`, or -1.
pub open spec fn last_open_paren(s: Seq<char>, k: int) -> int
    decreases k,
{
    if k < 1 || k >= s.len() {
        -1
    } else if s[k - 1] == ' ' && s[k] == '(' {
        k - 1
    } else {
        last_open_paren(s, k - 1)
    }
}

/// What a folder-name suffix must look like to be read as a code: not
/// empty, at most 20 bytes in UTF-8, every character alphanumeric.
pub open spec fn is_code_like(code: Seq<char>) -> bool {
    &&& code.len() > 0
    &&& utf8_len(code) <= 20
    &&& forall|i: int| 0 <= i < code.len() ==> char_is_alphanumeric(#[trigger] code[i])
}

/// Splits a folder name into the property name and its code: when the name
/// ends in `)` and the text after its last ` (` looks like a code, that text
/// is the code and what precedes the ` (` is the name; otherwise the whole
/// folder name is the name and there is no code.
pub open spec fn parsed_folder_name(s: Seq<char>) -> (Seq<char>, Option<Seq<char>>) {
    if s.len() > 0 && s.last() == ')' {
        let p = last_open_paren(s, s.len() - 1);
        if p >= 0 && is_code_like(s.subrange(p + 2, s.len() - 1)) {
            (s.take(p), Some(s.subrange(p + 2, s.len() - 1)))
        } else {
            (s, None)
        }
    } else {
        (s, None)
    }
}

proof fn lemma_last_open_paren_bounds(s: Seq<char>, k: int)
    ensures
        last_open_paren(s, k) == -1 || (0 <= last_open_paren(s, k) && last_open_paren(s, k) + 1
            <= k && last_open_paren(s, k) + 1 < s.len() && s[last_open_paren(s, k)] == ' '
            && s[last_open_paren(s, k) + 1] == '('),
    decreases k,
{
    if k >= 1 && k < s.len() && !(s[k - 1] == ' ' && s[k] == '(') {
        lemma_last_open_paren_bounds(s, k - 1);
    }
}

/// Whether the characters `start..end` of `s` look like a code.
fn is_code_like_at(s: &str, start: usize, end: usize) -> (b: bool)
    requires
        start <= end <= s@.len(),
    ensures
        b == is_code_like(s@.subrange(start as int, end as int)),
{
    let ghost code = s@.subrange(start as int, end as int);
    if start == end {
        return false;
    }
    let mut bytes: usize = 0;
    let mut j: usize = start;
    while j < end
        invariant
            start <= j <= end <= s@.len(),
            code == s@.subrange(start as int, end as int),
            bytes == utf8_len(s@.subrange(start as int, j as int)),
            bytes <= 20,
            forall|i: int| start <= i < j ==> char_is_alphanumeric(#[trigger] s@[i]),
        decreases end - j,
    {
        let c = s.get_char(j);
        proof {
            assert(s@.subrange(start as int, j + 1).drop_last() =~= s@.subrange(start as int, j as int));
        }
        if !is_alphanumeric(c) {
            assert(code[j - start] == c);
            return false;
        }
        bytes = bytes + char_utf8_len(c);
        if bytes > 20 {
            proof {
                lemma_utf8_len_prefix(code, j - start + 1);
                assert(code.take(j - start + 1) =~= s@.subrange(start as int, j + 1));
            }
            return false;
        }
        j = j + 1;
    }
    assert(s@.subrange(start as int, j as int) =~= code);
    assert forall|i: int| 0 <= i < code.len() implies char_is_alphanumeric(#[trigger] code[i]) by {
        assert(code[i] == s@[start + i]);
    }
    true
}

proof fn lemma_utf8_len_prefix(s: Seq<char>, k: int)
    requires
        0 <= k <= s.len(),
    ensures
        utf8_len(s.take(k)) <= utf8_len(s),
    decreases s.len() - k,
{
    if k < s.len() {
        lemma_utf8_len_prefix(s, k + 1);
        assert(s.take(k + 1).drop_last() =~= s.take(k));
    } else {
        assert(s.take(k) =~= s);
    }
}

/// Law: a folder name that ends in ` (c)`, where `c` is not empty, takes at
/// most 20 bytes and is made only of alphanumeric characters (letters as
/// well as digits), is read as the name before the ` (` and the code `c`.
pub proof fn law_code_suffix_is_read(name: Seq<char>, code: Seq<char>)
    requires
        code.len() > 0,
        utf8_len(code) <= 20,
        forall|i: int| 0 <= i < code.len() ==> char_is_alphanumeric(#[trigger] code[i]),
    ensures
        parsed_folder_name(name + seq![' ', '('] + code + seq![')']) == (name, Some(code)),
{
    let s = name + seq![' ', '('] + code + seq![')'];
    let p = name.len() as int;
    assert(s.last() == ')');
    assert forall|i: int| 0 <= i < code.len() implies #[trigger] code[i] != '(' by {
        assert(char_is_alphanumeric(code[i]));
    }
    assert forall|k: int| p + 1 <= k <= s.len() - 1 implies last_open_paren(s, k) == p by {
        lemma_paren_scan(name, code, k);
    }
    assert(s.subrange(p + 2, s.len() - 1) =~= code);
    assert(s.take(p) =~= name);
}

/// Law: a folder name that ends in ` (c)`, where `c` holds no `(` but is
/// empty, takes more than 20 bytes or holds a character that is not
/// alphanumeric, is kept whole as the name, with no code.
pub proof fn law_non_code_suffix_is_kept(name: Seq<char>, code: Seq<char>)
    requires
        forall|i: int| 0 <= i < code.len() ==> #[trigger] code[i] != '(',
        code.len() == 0 || utf8_len(code) > 20 || exists|i: int|
            0 <= i < code.len() && !char_is_alphanumeric(#[trigger] code[i]),
    ensures
        parsed_folder_name(name + seq![' ', '('] + code + seq![')']) == (
            name + seq![' ', '('] + code + seq![')'],
            None::<Seq<char>>,
        ),
{
    let s = name + seq![' ', '('] + code + seq![')'];
    let p = name.len() as int;
    assert(s.last() == ')');
    lemma_paren_scan(name, code, s.len() - 1);
    assert(s.subrange(p + 2, s.len() - 1) =~= code);
    if exists|i: int| 0 <= i < code.len() && !char_is_alphanumeric(#[trigger] code[i]) {
        let i = choose|i: int| 0 <= i < code.len() && !char_is_alphanumeric(#[trigger] code[i]);
        assert(!char_is_alphanumeric(code[i]));
    }
}

/// Scanning back from the closing `)`, no ` (` is found inside a code
/// without `(`, so the last one is the one before the code.
proof fn lemma_paren_scan(name: Seq<char>, code: Seq<char>, k: int)
    requires
        forall|i: int| 0 <= i < code.len() ==> #[trigger] code[i] != '(',
        name.len() + 1 <= k <= name.len() + 2 + code.len(),
    ensures
        last_open_paren(name + seq![' ', '('] + code + seq![')'], k) == name.len(),
    decreases k,
{
    let s = name + seq![' ', '('] + code + seq![')'];
    if k == name.len() + 2 + code.len() {
        assert(s[k] == ')');
        lemma_paren_scan(name, code, k - 1);
    } else if k > name.len() + 1 {
        let j = k - name.len() - 2;
        assert(s[k] == code[j]);
        assert(s[k] != '(');
        lemma_paren_scan(name, code, k - 1);
    } else {
        assert(s[k - 1] == ' ' && s[k] == '(');
    }
}

/// Splits a folder name into the property name and its code, as described
/// at [`parsed_folder_name`]: `Villa Alpha (45164)` gives `Villa Alpha` and
/// `45164`.
pub fn parse_folder_name(folder_name: &str) -> (r: (String, Option<String>))
    ensures
        r.0@ == parsed_folder_name(folder_name@).0,
        match r.1 {
            Some(c) => parsed_folder_name(folder_name@).1 == Some(c@),
            None => parsed_folder_name(folder_name@).1 is None,
        },
{
    let n = folder_name.unicode_len();
    let ghost s = folder_name@;
    if n == 0 || folder_name.get_char(n - 1) != ')' {
        return (String::from_str(folder_name), None);
    }
    let mut has: bool = false;
    let mut found: usize = 0;
    let mut k: usize = 1;
    while k < n
        invariant
            n == s.len(),
            s == folder_name@,
            1 <= k <= n,
            (if has { found as int } else { -1 }) == last_open_paren(s, k - 1),
        decreases n - k,
    {
        if folder_name.get_char(k - 1) == ' ' && folder_name.get_char(k) == '(' {
            has = true;
            found = k - 1;
        }
        k = k + 1;
    }
    proof {
        lemma_last_open_paren_bounds(s, n - 1);
    }
    if has {
        if is_code_like_at(folder_name, found + 2, n - 1) {
            let name = substring(folder_name, 0, found);
            let code = substring(folder_name, found + 2, n - 1);
            assert(s.subrange(0, found as int) =~= s.take(found as int));
            return (name, Some(code));
        }
    }
    (String::from_str(folder_name), None)
}

/// Law: a folder name built from a name and a code that looks like a code
/// (so it holds no `/`) reads back as that name and code.
pub proof fn law_parse_folder_name_round_trip(name: Seq<char>, code: Seq<char>)
    requires
        is_code_like(code),
    ensures
        parsed_folder_name(folder_name_with_code(name, code)) == (name, Some(code)),
{
    let safe = replace_char(code, '/', '-');
    assert(safe =~= code) by {
        assert forall|i: int| 0 <= i < code.len() implies safe[i] == code[i] by {
            assert(char_is_alphanumeric(code[i]));
        }
    }
    let s = folder_name_with_code(name, code);
    let p = name.len() as int;
    assert(s.len() == p + 2 + code.len() + 1);
    assert(s[p] == ' ');
    assert(s[p + 1] == '(');
    assert(s.last() == ')');
    // no `(` after position p + 1
    assert forall|k: int| p + 1 < k < s.len() - 1 implies s[k] == code[k - p - 2] by {}
    lemma_no_later_pair(s, p, code);
    assert(s.subrange(p + 2, s.len() - 1) =~= code);
    assert(s.take(p) =~= name);
}

proof fn lemma_no_later_pair(s: Seq<char>, p: int, code: Seq<char>)
    requires
        0 <= p,
        s.len() == p + 3 + code.len(),
        s[p] == ' ',
        s[p + 1] == '(',
        s[s.len() - 1] == ')',
        forall|k: int| p + 1 < k < s.len() - 1 ==> s[k] == code[k - p - 2],
        forall|i: int| 0 <= i < code.len() ==> char_is_alphanumeric(#[trigger] code[i]),
    ensures
        last_open_paren(s, s.len() - 1) == p,
{
    lemma_no_later_pair_from(s, p, code, s.len() - 1);
}

proof fn lemma_no_later_pair_from(s: Seq<char>, p: int, code: Seq<char>, k: int)
    requires
        0 <= p,
        p + 1 <= k <= s.len() - 1,
        s.len() == p + 3 + code.len(),
        s[p] == ' ',
        s[p + 1] == '(',
        s[s.len() - 1] == ')',
        forall|j: int| p + 1 < j < s.len() - 1 ==> s[j] == code[j - p - 2],
        forall|i: int| 0 <= i < code.len() ==> char_is_alphanumeric(#[trigger] code[i]),
    ensures
        last_open_paren(s, k) == p,
    decreases k,
{
    if k > p + 1 {
        if k < s.len() - 1 {
            let c = code[k - p - 2];
            assert(s[k] == c);
            assert(char_is_alphanumeric(c));
            assert(c != '(');
        }
        lemma_no_later_pair_from(s, p, code, k - 1);
    }
}

/// Whether a folder on disk belongs to the property named `name`: it is
/// named exactly `name`, or `name` followed by ` (` (a code suffix).
pub open spec fn folder_matches_property(folder: Seq<char>, name: Seq<char>) -> bool {
    folder == name || (name + seq![' ', '(']).len() <= folder.len() && folder.take(
        (name + seq![' ', '(']).len() as int,
    ) == name + seq![' ', '(']
}

/// Whether `folder` is `name` or `name (…`.
pub fn folder_matches(folder: &str, name: &str) -> (b: bool)
    ensures
        b == folder_matches_property(folder@, name@),
{
    if str_equals(folder, name) {
        return true;
    }
    let mut prefix = String::from_str(name);
    proof {
        reveal_strlit(" (");
    }
    prefix.append(" (");
    assert(" ("@ =~= seq![' ', '(']);
    starts_with(folder, prefix.as_str())
}

/// Law: a property's folder always matches the property, with or without a
/// code.
pub proof fn law_folder_with_code_matches(name: Seq<char>, code: Seq<char>)
    ensures
        folder_matches_property(folder_name_with_code(name, code), name),
        folder_matches_property(name, name),
{
    let f = folder_name_with_code(name, code);
    let pre = name + seq![' ', '('];
    assert(f.take(pre.len() as int) =~= pre);
}

/// The first of `entries` (folder names in a city folder, in listing order)
/// that belongs to the property named `name`.
pub fn find_folder_by_prefix(entries: &[String], name: &str) -> (r: Option<String>)
    ensures
        match r {
            Some(f) => exists|i: int|
                0 <= i < entries@.len() && entries@[i]@ == f@ && folder_matches_property(
                    f@,
                    name@,
                ) && forall|j: int|
                    0 <= j < i ==> !folder_matches_property(#[trigger] entries@[j]@, name@),
            None => forall|j: int|
                0 <= j < entries@.len() ==> !folder_matches_property(#[trigger] entries@[j]@, name@),
        },
{
    let mut i: usize = 0;
    while i < entries.len()
        invariant
            i <= entries@.len(),
            forall|j: int| 0 <= j < i ==> !folder_matches_property(#[trigger] entries@[j]@, name@),
        decreases entries@.len() - i,
    {
        if folder_matches(entries[i].as_str(), name) {
            return Some(entries[i].clone());
        }
        i = i + 1;
    }
    None
}

/// The last `/`-separated part of a stored `folder_path` (the folder name).
pub fn last_path_segment(folder_path: &str) -> (r: String)
    ensures
        r@ == split_path(folder_path@).last(),
{
    let n = folder_path.unicode_len();
    let ghost s = folder_path@;
    let mut start: usize = 0;
    let mut i: usize = 0;
    proof {
        assert(s.take(0) =~= Seq::<char>::empty());
        assert(s.subrange(0, 0) =~= Seq::<char>::empty());
    }
    while i < n
        invariant
            n == s.len(),
            s == folder_path@,
            start <= i <= n,
            split_path(s.take(i as int)).len() >= 1,
            split_path(s.take(i as int)).last() == s.subrange(start as int, i as int),
        decreases n - i,
    {
        proof {
            assert(s.take(i + 1).drop_last() =~= s.take(i as int));
            assert(s.take(i + 1).last() == s[i as int]);
        }
        let c = folder_path.get_char(i);
        if c == '/' {
            start = i + 1;
            assert(s.subrange(i + 1, i + 1) =~= Seq::<char>::empty());
        } else {
            assert(s.subrange(start as int, i + 1) =~= s.subrange(start as int, i as int).push(c));
        }
        i = i + 1;
    }
    assert(s.take(n as int) =~= s);
    substring(folder_path, start, n)
}

} // verus!
