//! Repairing stored property statuses from what is on disk: a property is
//! found in the first status folder that holds its folder, or else, by name
//! prefix (its folder may carry a code suffix the database does not know),
//! in the first status folder whose city folder holds a matching folder.

use vstd::prelude::*;
use crate::paths::PathStyle;
use crate::folders::{
    get_relative_folder_path, join_path, native_folder_path, path_join, relative_folder_path,
    status_name, PropertyStatus, StatusFolders, folder_path_to_native,
};
use crate::naming::{find_folder_by_prefix, folder_matches_property};
use crate::paths::split_path;
use crate::perspective::{join_strings, joined_with};
use crate::text::{str_equals, substring};

verus! {

/// Totals of a repair run.
#[derive(Debug)]
pub struct RepairResult {
    pub properties_checked: usize,
    pub properties_fixed: usize,
    pub errors: Vec<String>,
}

/// The statuses in the order their folders are searched.
pub open spec fn status_at(i: int) -> PropertyStatus {
    if i == 0 {
        PropertyStatus::New
    } else if i == 1 {
        PropertyStatus::Done
    } else if i == 2 {
        PropertyStatus::NotFound
    } else {
        PropertyStatus::Archive
    }
}

pub fn status_at_exec(i: usize) -> (s: PropertyStatus)
    requires
        i < 4,
    ensures
        s == status_at(i as int),
{
    if i == 0 {
        PropertyStatus::New
    } else if i == 1 {
        PropertyStatus::Done
    } else if i == 2 {
        PropertyStatus::NotFound
    } else {
        PropertyStatus::Archive
    }
}

/// What was seen on disk for one status folder.
#[derive(Debug)]
pub struct StatusProbe {
    /// The status has a base folder configured.
    pub configured: bool,
    /// `{base}/{folder_path}` exists.
    pub exact_exists: bool,
    /// The folder names in `{base}/{city}`, when that is a readable folder.
    pub city_entries: Option<Vec<String>>,
}

/// Splits a stored `folder_path` into city and folder name; `None` unless it
/// has exactly two `/`-separated parts.
pub fn split_city_folder(folder_path: &str) -> (r: Option<(String, String)>)
    ensures
        match r {
            Some((c, f)) => split_path(folder_path@).len() == 2 && c@ == split_path(
                folder_path@,
            )[0] && f@ == split_path(folder_path@)[1],
            None => split_path(folder_path@).len() != 2,
        },
{
    let n = folder_path.unicode_len();
    let ghost s = folder_path@;
    let mut slashes: usize = 0;
    let mut first: usize = 0;
    let mut i: usize = 0;
    proof {
        assert(s.take(0) =~= Seq::<char>::empty());
    }
    while i < n
        invariant
            n == s.len(),
            s == folder_path@,
            i <= n,
            slashes <= i,
            slashes <= 2,
            split_path(s.take(i as int)).len() == slashes + 1,
            slashes >= 1 ==> first < i && s[first as int] == '/' && split_path(s.take(i as int))[0]
                == s.take(first as int),
            slashes == 0 ==> split_path(s.take(i as int))[0] == s.take(i as int),
        decreases n - i,
    {
        let ghost prev = split_path(s.take(i as int));
        proof {
            assert(s.take(i + 1).drop_last() =~= s.take(i as int));
            assert(s.take(i + 1).last() == s[i as int]);
            crate::paths::lemma_split_path_nonempty(s.take(i as int));
        }
        let c = folder_path.get_char(i);
        if c == '/' {
            if slashes == 0 {
                first = i;
            }
            if slashes < 2 {
                slashes = slashes + 1;
            } else {
                proof {
                    assert(prev.len() == 3);
                    assert(split_path(s.take(i + 1)) == prev.push(Seq::<char>::empty()));
                    assert(split_path(s.take(i + 1)).len() == 4);
                    lemma_split_len_grows(s, i + 1, n as int);
                    assert(s.take(n as int) =~= s);
                }
                return None;
            }
            proof {
                let next = split_path(s.take(i + 1));
                assert(next[0] == prev[0]);
            }
        } else {
            proof {
                let next = split_path(s.take(i + 1));
                if slashes == 0 {
                    assert(next[0] == prev[0].push(c));
                    assert(s.take(i + 1) =~= s.take(i as int).push(c));
                } else {
                    assert(next[0] == prev[0]);
                }
            }
        }
        i = i + 1;
    }
    assert(s.take(n as int) =~= s);
    if slashes != 1 {
        return None;
    }
    let city = substring(folder_path, 0, first);
    let folder = substring(folder_path, first + 1, n);
    proof {
        lemma_split_two(s, first as int);
        assert(city@ =~= s.take(first as int));
        assert(folder@ =~= s.skip(first + 1));
    }
    Some((city, folder))
}

proof fn lemma_split_len_grows(s: Seq<char>, j: int, m: int)
    requires
        0 <= j <= m <= s.len(),
    ensures
        split_path(s.take(j)).len() <= split_path(s.take(m)).len(),
    decreases m - j,
{
    if j < m {
        lemma_split_len_grows(s, j, m - 1);
        assert(s.take(m).drop_last() =~= s.take(m - 1));
    }
}

/// With exactly two parts, the first of which ends at `k`, the second part
/// is what follows position `k`.
proof fn lemma_split_two(s: Seq<char>, k: int)
    requires
        0 <= k < s.len(),
        s[k] == '/',
        split_path(s).len() == 2,
        split_path(s)[0] == s.take(k),
    ensures
        split_path(s)[1] == s.skip(k + 1),
{
    crate::paths::lemma_split_join(s);
    let parts = split_path(s);
    assert(parts.drop_last() =~= seq![parts[0]]);
    assert(joined_with(parts, seq!['/']) == joined_with(parts.drop_last(), seq!['/']) + seq!['/'] + parts[1]);
    assert(s == s.take(k) + seq!['/'] + parts[1]);
    assert(s.skip(k + 1) =~= parts[1]);
}

/// The first configured status folder that holds the folder itself.
pub open spec fn first_exact(probes: Seq<StatusProbe>, k: int) -> int
    decreases probes.len() - k,
{
    if k >= probes.len() || k < 0 {
        -1
    } else if probes[k].configured && probes[k].exact_exists {
        k
    } else {
        first_exact(probes, k + 1)
    }
}

/// The index of the first name in `l`, from `k` on, that matches the
/// property folder `name`; `-1` when there is none.
pub open spec fn first_matching(l: Seq<String>, name: Seq<char>, k: int) -> int
    decreases l.len() - k,
{
    if k >= l.len() || k < 0 {
        -1
    } else if folder_matches_property(l[k]@, name) {
        k
    } else {
        first_matching(l, name, k + 1)
    }
}

/// The first folder of a status's city folder that matches the property.
pub open spec fn prefix_match(probe: StatusProbe, folder_name: Seq<char>) -> Option<Seq<char>> {
    if !probe.configured {
        None
    } else {
        match probe.city_entries {
            Some(l) => {
                let i = first_matching(l@, folder_name, 0);
                if i >= 0 {
                    Some(l@[i]@)
                } else {
                    None
                }
            },
            None => None,
        }
    }
}

/// The first status whose city folder holds a matching folder.
pub open spec fn first_prefix(probes: Seq<StatusProbe>, folder_name: Seq<char>, k: int) -> int
    decreases probes.len() - k,
{
    if k >= probes.len() || k < 0 {
        -1
    } else if prefix_match(probes[k], folder_name) is Some {
        k
    } else {
        first_prefix(probes, folder_name, k + 1)
    }
}

/// The first match is the matching index before which nothing matches.
proof fn lemma_first_matching_at(l: Seq<String>, name: Seq<char>, w: int, k: int)
    requires
        0 <= k <= w < l.len(),
        folder_matches_property(l[w]@, name),
        forall|j: int| 0 <= j < w ==> !folder_matches_property(#[trigger] l[j]@, name),
    ensures
        first_matching(l, name, k) == w,
    decreases w - k,
{
    if k < w {
        assert(!folder_matches_property(l[k]@, name));
        lemma_first_matching_at(l, name, w, k + 1);
    }
}

/// Where nothing matches, there is no first match.
proof fn lemma_first_matching_none(l: Seq<String>, name: Seq<char>, k: int)
    requires
        0 <= k <= l.len(),
        forall|j: int| 0 <= j < l.len() ==> !folder_matches_property(#[trigger] l[j]@, name),
    ensures
        first_matching(l, name, k) == -1,
    decreases l.len() - k,
{
    if k < l.len() {
        assert(!folder_matches_property(l[k]@, name));
        lemma_first_matching_none(l, name, k + 1);
    }
}

/// What to do with one stored property.
#[derive(Debug)]
pub enum RepairDecision {
    /// The stored folder path is not `{city}/{folder}`.
    InvalidFormat,
    /// No status folder holds the property.
    NotFound,
    /// The property is where the database says; nothing to change.
    Unchanged,
    /// Store this status and folder path; `renamed_to` is the folder name
    /// found on disk when it differs from the stored one.
    Update { status: PropertyStatus, new_folder_path: String, renamed_to: Option<String> },
}

/// The decision for a property stored with `folder_path` and status
/// `db_status`, given what was seen in each status folder (in the order
/// NEW, DONE, NOT_FOUND, ARCHIVE).
pub open spec fn repair_decision_spec(
    folder_path: Seq<char>,
    db_status: Seq<char>,
    probes: Seq<StatusProbe>,
    r: RepairDecision,
) -> bool {
    let parts = split_path(folder_path);
    if parts.len() != 2 {
        r is InvalidFormat
    } else {
        let city = parts[0];
        let name = parts[1];
        let e = first_exact(probes, 0);
        let p = first_prefix(probes, name, 0);
        if e < 0 && p < 0 {
            r is NotFound
        } else {
            let found = if e >= 0 {
                e
            } else {
                p
            };
            let renamed: Option<Seq<char>> = if e >= 0 {
                None
            } else {
                match prefix_match(probes[p], name) {
                    Some(m) => if m == name {
                        None
                    } else {
                        Some(m)
                    },
                    None => None,
                }
            };
            let status_changed = status_name(status_at(found)) != db_status;
            if !status_changed && renamed is None {
                r is Unchanged
            } else {
                r matches RepairDecision::Update { status, new_folder_path, renamed_to } && status
                    == status_at(found) && match renamed {
                    Some(m) => renamed_to matches Some(t) && t@ == m && new_folder_path@
                        == relative_folder_path(city, m),
                    None => renamed_to is None && new_folder_path@ == folder_path,
                }
            }
        }
    }
}

/// Decides how to repair one stored property; see [`repair_decision_spec`].
pub fn decide_repair(folder_path: &str, db_status: &str, probes: &Vec<StatusProbe>) -> (r:
    RepairDecision)
    requires
        probes@.len() == 4,
    ensures
        repair_decision_spec(folder_path@, db_status@, probes@, r),
{
    let parts = split_city_folder(folder_path);
    if parts.is_none() {
        return RepairDecision::InvalidFormat;
    }
    let (city, name) = parts.unwrap();
    assert(split_path(folder_path@).len() == 2);
    assert(name@ == split_path(folder_path@)[1]);
    // exact match first
    let mut k: usize = 0;
    while k < 4
        invariant
            probes@.len() == 4,
            k <= 4,
            split_path(folder_path@).len() == 2,
            first_exact(probes@, 0) == first_exact(probes@, k as int),
        decreases 4 - k,
    {
        if probes[k].configured && probes[k].exact_exists {
            let status = status_at_exec(k);
            let same = str_equals(status.as_str(), db_status);
            if same {
                return RepairDecision::Unchanged;
            }
            return RepairDecision::Update {
                status,
                new_folder_path: String::from_str(folder_path),
                renamed_to: None,
            };
        }
        k = k + 1;
    }
    // then by name prefix
    let mut k: usize = 0;
    while k < 4
        invariant
            probes@.len() == 4,
            k <= 4,
            first_exact(probes@, 0) == -1,
            split_path(folder_path@).len() == 2,
            city@ == split_path(folder_path@)[0],
            name@ == split_path(folder_path@)[1],
            first_prefix(probes@, name@, 0) == first_prefix(probes@, name@, k as int),
        decreases 4 - k,
    {
        if probes[k].configured {
            match &probes[k].city_entries {
                Some(entries) => {
                    match find_folder_by_prefix(entries.as_slice(), name.as_str()) {
                        Some(actual) => {
                            proof {
                                let l = entries@;
                                let w = choose|i: int|
                                    0 <= i < l.len() && l[i]@ == actual@
                                        && folder_matches_property(actual@, name@) && forall|j: int|
                                        0 <= j < i ==> !folder_matches_property(
                                            #[trigger] l[j]@,
                                            name@,
                                        );
                                lemma_first_matching_at(l, name@, w, 0);
                            }
                            let status = status_at_exec(k);
                            let same_name = str_equals(actual.as_str(), name.as_str());
                            let same_status = str_equals(status.as_str(), db_status);
                            if same_name {
                                if same_status {
                                    return RepairDecision::Unchanged;
                                }
                                return RepairDecision::Update {
                                    status,
                                    new_folder_path: String::from_str(folder_path),
                                    renamed_to: None,
                                };
                            }
                            let new_path = get_relative_folder_path(
                                city.as_str(),
                                actual.as_str(),
                            );
                            return RepairDecision::Update {
                                status,
                                new_folder_path: new_path,
                                renamed_to: Some(actual),
                            };
                        },
                        None => {
                            proof {
                                lemma_first_matching_none(entries@, name@, 0);
                            }
                        },
                    }
                },
                None => {},
            }
        }
        k = k + 1;
    }
    RepairDecision::NotFound
}

/// `{STATUS}: {path}` for each status among the first `k` that has a
/// folder configured, in order.
pub open spec fn checked_entries(style: PathStyle, folders: StatusFolders, folder_path: Seq<char>, k: int) -> Seq<
    Seq<char>,
>
    decreases k,
{
    if k <= 0 {
        Seq::<Seq<char>>::empty()
    } else {
        let prev = checked_entries(style, folders, folder_path, k - 1);
        match crate::edits::candidate_path(style, folders, folder_path, status_at(k - 1)) {
            Some(p) => prev.push(status_name(status_at(k - 1)) + ": "@ + p),
            None => prev,
        }
    }
}

/// The report for a property whose folder is nowhere: its name, its stored
/// folder path and every place that was looked at.
pub open spec fn not_found_message_spec(
    style: PathStyle,
    name: Seq<char>,
    folder_path: Seq<char>,
    folders: StatusFolders,
) -> Seq<char> {
    "Property '"@ + name + "' folder not found. DB folder_path='"@ + folder_path + "'. Checked: ["@
        + joined_with(checked_entries(style, folders, folder_path, 4), ", "@) + "]"@
}

pub fn not_found_message(style: PathStyle, name: &str, folder_path: &str, folders: &StatusFolders) -> (r: String)
    ensures
        r@ == not_found_message_spec(style, name@, folder_path@, *folders),
{
    let candidates = crate::edits::status_folder_candidates(style, folders, folder_path);
    let mut entries: Vec<String> = Vec::new();
    let mut k: usize = 0;
    while k < 4
        invariant
            k <= 4,
            candidates@.len() == 4,
            forall|i: int|
                0 <= i < 4 ==> match #[trigger] candidates@[i] {
                    Some(p) => crate::edits::candidate_path(style, *folders, folder_path@, status_at(i))
                        == Some(p@),
                    None => crate::edits::candidate_path(style, *folders, folder_path@, status_at(i))
                        is None,
                },
            entries@.map_values(|s: String| s@) == checked_entries(style, *folders, folder_path@, k as int),
        decreases 4 - k,
    {
        match &candidates[k] {
            Some(p) => {
                let mut e = String::from_str(status_at_exec(k).as_str());
                e.append(": ");
                e.append(p.as_str());
                let ghost before = entries@;
                entries.push(e);
                proof {
                    assert(entries@.map_values(|s: String| s@) =~= before.map_values(
                        |s: String| s@,
                    ).push(e@));
                }
            },
            None => {},
        }
        k = k + 1;
    }
    let mut m = String::from_str("Property '");
    m.append(name);
    m.append("' folder not found. DB folder_path='");
    m.append(folder_path);
    m.append("'. Checked: [");
    let joined = join_strings(entries.as_slice(), ", ");
    m.append(joined.as_str());
    m.append("]");
    m
}

/// Records the outcome of repairing one property (named `name`, stored at
/// `folder_path`) in the totals: it was checked; an invalid path or a
/// missing folder is reported; an update that the database refused with
/// `update_error` is reported; an update that went through counts as a
/// fix and, when the folder was found under another name, is reported as
/// such.
pub fn record_repair(
    style: PathStyle,
    result: &mut RepairResult,
    decision: &RepairDecision,
    name: &str,
    folder_path: &str,
    folders: &StatusFolders,
    update_error: Option<String>,
)
    requires
        old(result).properties_checked < usize::MAX,
        old(result).properties_fixed < usize::MAX,
    ensures
        final(result).properties_checked == old(result).properties_checked + 1,
        final(result).properties_fixed == old(result).properties_fixed + if (decision is Update
            && update_error is None) {
            1int
        } else {
            0int
        },
        final(result).errors@.map_values(|s: String| s@) == old(result).errors@.map_values(
            |s: String| s@,
        ) + match decision {
            RepairDecision::InvalidFormat => seq!["Property has invalid folder_path format"@],
            RepairDecision::NotFound => seq![not_found_message_spec(style, name@, folder_path@, *folders)],
            RepairDecision::Unchanged => Seq::<Seq<char>>::empty(),
            RepairDecision::Update { status, new_folder_path, renamed_to } => match update_error {
                Some(e) => seq!["Failed to update status for '"@ + name@ + "': "@ + e@],
                None => match renamed_to {
                    Some(n) => seq![
                        "Fixed '"@ + name@ + "': folder_path updated from '"@ + folder_path@
                            + "' to '"@ + new_folder_path@ + "'"@,
                    ],
                    None => Seq::<Seq<char>>::empty(),
                },
            },
        },
{
    let ghost before = result.errors@;
    result.properties_checked = result.properties_checked + 1;
    match decision {
        RepairDecision::InvalidFormat => {
            result.errors.push(String::from_str("Property has invalid folder_path format"));
        },
        RepairDecision::NotFound => {
            result.errors.push(not_found_message(style, name, folder_path, folders));
        },
        RepairDecision::Unchanged => {},
        RepairDecision::Update { status, new_folder_path, renamed_to } => {
            match update_error {
                Some(e) => {
                    let mut m = String::from_str("Failed to update status for '");
                    m.append(name);
                    m.append("': ");
                    m.append(e.as_str());
                    result.errors.push(m);
                },
                None => {
                    result.properties_fixed = result.properties_fixed + 1;
                    match renamed_to {
                        Some(_) => {
                            let mut m = String::from_str("Fixed '");
                            m.append(name);
                            m.append("': folder_path updated from '");
                            m.append(folder_path);
                            m.append("' to '");
                            m.append(new_folder_path.as_str());
                            m.append("'");
                            result.errors.push(m);
                        },
                        None => {},
                    }
                },
            }
        },
    }
    proof {
        assert(result.errors@.map_values(|s: String| s@) =~= before.map_values(|s: String| s@)
            + match decision {
            RepairDecision::InvalidFormat => seq!["Property has invalid folder_path format"@],
            RepairDecision::NotFound => seq![not_found_message_spec(style, name@, folder_path@, *folders)],
            RepairDecision::Unchanged => Seq::<Seq<char>>::empty(),
            RepairDecision::Update { status, new_folder_path, renamed_to } => match update_error {
                Some(e) => seq!["Failed to update status for '"@ + name@ + "': "@ + e@],
                None => match renamed_to {
                    Some(n) => seq![
                        "Fixed '"@ + name@ + "': folder_path updated from '"@ + folder_path@
                            + "' to '"@ + new_folder_path@ + "'"@,
                    ],
                    None => Seq::<Seq<char>>::empty(),
                },
            },
        });
    }
}

/// Whether `name` is one of the folder names `l`.
pub open spec fn lists_name(l: Seq<String>, name: Seq<char>) -> bool {
    exists|j: int| 0 <= j < l.len() && #[trigger] l[j]@ == name
}

/// The first match of a listing is a listed name that matches.
proof fn lemma_first_matching_found(l: Seq<String>, name: Seq<char>, k: int)
    requires
        0 <= k,
    ensures
        ({
            let i = first_matching(l, name, k);
            i == -1 || (k <= i < l.len() && folder_matches_property(l[i]@, name))
        }),
    decreases l.len() - k,
{
    if k < l.len() {
        lemma_first_matching_found(l, name, k + 1);
    }
}

/// A listing that holds a matching name has a first match.
proof fn lemma_first_matching_exists(l: Seq<String>, name: Seq<char>, k: int, j: int)
    requires
        0 <= k <= j < l.len(),
        folder_matches_property(l[j]@, name),
    ensures
        first_matching(l, name, k) != -1,
    decreases j - k,
{
    if k < j && !folder_matches_property(l[k]@, name) {
        lemma_first_matching_exists(l, name, k + 1, j);
    }
}

/// The first exact hit and the first name match both exist up to `k`
/// exactly as `first_exact` / `first_prefix` find them.
proof fn lemma_first_exact_is(probes: Seq<StatusProbe>, p: int, k: int)
    requires
        0 <= k <= p < probes.len(),
        probes[p].configured && probes[p].exact_exists,
        forall|i: int| k <= i < p ==> !(probes[i].configured && #[trigger] probes[i].exact_exists),
    ensures
        first_exact(probes, k) == p,
    decreases p - k,
{
    if k < p {
        lemma_first_exact_is(probes, p, k + 1);
    }
}

proof fn lemma_first_exact_found(probes: Seq<StatusProbe>, k: int)
    requires
        0 <= k,
    ensures
        ({
            let e = first_exact(probes, k);
            e == -1 || (k <= e < probes.len() && probes[e].configured && probes[e].exact_exists
                && forall|i: int|
                k <= i < e ==> !(probes[i].configured && #[trigger] probes[i].exact_exists))
        }),
    decreases probes.len() - k,
{
    if k < probes.len() {
        lemma_first_exact_found(probes, k + 1);
    }
}

proof fn lemma_first_prefix_found(probes: Seq<StatusProbe>, name: Seq<char>, k: int)
    requires
        0 <= k,
    ensures
        ({
            let p = first_prefix(probes, name, k);
            p == -1 || (k <= p < probes.len() && prefix_match(probes[p], name) is Some && forall|
                i: int,
            |
                k <= i < p ==> prefix_match(#[trigger] probes[i], name) is None)
        }),
    decreases probes.len() - k,
{
    if k < probes.len() {
        lemma_first_prefix_found(probes, name, k + 1);
    }
}

/// Law: a repair settles. Once the status and folder path a repair chose are
/// stored, repairing again (on the same disk) changes nothing. `after` is
/// what the status folders show for the new folder path: the same
/// configuration and city listings, and, when the folder was found under
/// another name, the new path exists exactly where that name is listed.
pub proof fn law_repair_settles(
    folder_path: Seq<char>,
    db_status: Seq<char>,
    probes: Seq<StatusProbe>,
    after: Seq<StatusProbe>,
    status: PropertyStatus,
    new_folder_path: String,
    renamed_to: Option<String>,
)
    requires
        probes.len() == 4,
        after.len() == 4,
        repair_decision_spec(
            folder_path,
            db_status,
            probes,
            RepairDecision::Update { status, new_folder_path, renamed_to },
        ),
        forall|i: int|
            0 <= i < 4 ==> (#[trigger] after[i]).configured == probes[i].configured
                && after[i].city_entries == probes[i].city_entries,
        renamed_to is None ==> forall|i: int|
            0 <= i < 4 ==> (#[trigger] after[i]).exact_exists == probes[i].exact_exists,
        renamed_to matches Some(m) ==> forall|i: int|
            0 <= i < 4 ==> (#[trigger] after[i]).exact_exists == (probes[i].city_entries matches Some(
                l,
            ) && lists_name(l@, m@)),
        renamed_to matches Some(m) ==> forall|j: int| 0 <= j < m@.len() ==> m@[j] != '/',
    ensures
        repair_decision_spec(new_folder_path@, status_name(status), after, RepairDecision::Unchanged),
{
    let parts = split_path(folder_path);
    let city = parts[0];
    let name = parts[1];
    lemma_first_exact_found(probes, 0);
    lemma_first_prefix_found(probes, name, 0);
    let e = first_exact(probes, 0);
    let p = first_prefix(probes, name, 0);
    match renamed_to {
        None => {
            assert forall|i: int| 0 <= i < 4 implies #[trigger] after[i] == probes[i] by {
                assert(after[i].configured == probes[i].configured);
                assert(after[i].exact_exists == probes[i].exact_exists);
                assert(after[i].city_entries == probes[i].city_entries);
            }
            assert(after =~= probes);
        },
        Some(m) => {
            // The folder was found by name in status folder `p`, as `m`.
            assert(e < 0 && p >= 0);
            let l = probes[p].city_entries->Some_0@;
            let fi = first_matching(l, name, 0);
            lemma_first_matching_found(l, name, 0);
            assert(m@ == l[fi]@);
            // The new path splits into the city and `m`.
            crate::paths::lemma_split_path_no_slash(folder_path);
            crate::paths::lemma_split_single(m@);
            crate::paths::lemma_split_path_concat(city, m@);
            crate::paths::lemma_split_single(city);
            assert(split_path(new_folder_path@) =~= seq![city, m@]);
            // In `after`, the first exact hit is `p`.
            assert(lists_name(l, m@));
            assert(after[p].configured && after[p].exact_exists);
            assert forall|i: int| 0 <= i < p implies !(after[i].configured
                && #[trigger] after[i].exact_exists) by {
                if after[i].configured && after[i].exact_exists {
                    assert(probes[i].city_entries is Some);
                    let li = probes[i].city_entries->Some_0@;
                    assert(lists_name(li, m@));
                    let j = choose|j: int| 0 <= j < li.len() && #[trigger] li[j]@ == m@;
                    assert(folder_matches_property(li[j]@, name));
                    lemma_first_matching_exists(li, name, 0, j);
                    lemma_first_matching_found(li, name, 0);
                    assert(probes[i].configured);
                    assert(prefix_match(probes[i], name) is Some);
                    assert(prefix_match(probes[i], name) is None);
                }
            }
            lemma_first_exact_is(after, p, 0);
        },
    }
}

} // verus!
