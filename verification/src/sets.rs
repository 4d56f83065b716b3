//! Completing a set: every DONE property that has a listing code goes into
//! a ZIP archive named after the moment of completion and then to ARCHIVE;
//! every DONE property without one goes to NOT_FOUND.

use vstd::prelude::*;
use crate::paths::PathStyle;
use crate::components::{paths_equal, same_path};
use crate::edits::FolderMove;
use crate::folders::{
    base_path_for, folder_path_to_native, join_path, native_folder_path, path_join,
    StatusFolders,
};
use crate::text::{replace_char, replace_char_with};

verus! {

/// A stored property. Times are milliseconds since the Unix epoch.
#[derive(Debug)]
pub struct Property {
    pub id: Option<i64>,
    pub name: String,
    pub city: String,
    /// `NEW`, `DONE`, `NOT_FOUND` or `ARCHIVE`.
    pub status: String,
    /// `{city}/{folder name}`.
    pub folder_path: String,
    pub notes: Option<String>,
    /// The website listing code, such as `45164`.
    pub code: Option<String>,
    pub created_at: i64,
    pub updated_at: i64,
}

/// A city with the number of properties that used it.
#[derive(Debug)]
pub struct City {
    pub id: Option<i64>,
    pub name: String,
    pub usage_count: i64,
    pub created_at: i64,
}

/// A completed set.
#[derive(Debug)]
pub struct SetRecord {
    pub id: Option<i64>,
    pub name: String,
    pub zip_path: String,
    pub property_count: i64,
    pub created_at: i64,
}

/// A property as it was recorded in a set.
#[derive(Debug)]
pub struct SetProperty {
    pub id: Option<i64>,
    pub set_id: i64,
    pub property_id: Option<i64>,
    pub property_name: String,
    pub property_city: String,
    pub property_code: Option<String>,
}

/// What completing a set did.
#[derive(Debug)]
pub struct CompleteSetResult {
    pub set_id: i64,
    pub set_name: String,
    pub zip_path: String,
    pub properties_archived: usize,
    pub properties_moved_to_not_found: usize,
}

/// A property belongs in the set when it has a code that is not empty.
pub open spec fn has_code(p: Property) -> bool {
    p.code matches Some(c) && c@.len() > 0
}

/// The indices `i < n` of `ps` whose `has_code` is `coded`, in order.
pub open spec fn indices_where(ps: Seq<Property>, coded: bool, n: int) -> Seq<int>
    decreases n,
{
    if n <= 0 {
        Seq::<int>::empty()
    } else {
        let prev = indices_where(ps, coded, n - 1);
        if has_code(ps[n - 1]) == coded {
            prev.push(n - 1)
        } else {
            prev
        }
    }
}

/// Law: completing a set sends every DONE property exactly one way: the
/// properties with a code and those without together are all of them,
/// and no property is in both.
pub proof fn law_set_partition(ps: Seq<Property>, n: int)
    requires
        0 <= n <= ps.len(),
    ensures
        indices_where(ps, true, n).len() + indices_where(ps, false, n).len() == n,
        forall|a: int, b: int|
            0 <= a < indices_where(ps, true, n).len() && 0 <= b < indices_where(ps, false, n).len()
                ==> #[trigger] indices_where(ps, true, n)[a] != #[trigger] indices_where(
                ps,
                false,
                n,
            )[b],
    decreases n,
{
    if n > 0 {
        law_set_partition(ps, n - 1);
        lemma_indices_below(ps, true, n - 1);
        lemma_indices_below(ps, false, n - 1);
        let w0 = indices_where(ps, true, n - 1);
        let o0 = indices_where(ps, false, n - 1);
        let w = indices_where(ps, true, n);
        let o = indices_where(ps, false, n);
        assert forall|a: int, b: int| 0 <= a < w.len() && 0 <= b < o.len() implies #[trigger] w[a]
            != #[trigger] o[b] by {
            if a < w0.len() && b < o0.len() {
                assert(w[a] == w0[a] && o[b] == o0[b]);
            } else if a < w0.len() {
                assert(w[a] == w0[a]);
            } else if b < o0.len() {
                assert(o[b] == o0[b]);
            }
        }
    }
}

/// Every index listed for the first `n` properties is below `n`.
proof fn lemma_indices_below(ps: Seq<Property>, coded: bool, n: int)
    ensures
        forall|i: int|
            0 <= i < indices_where(ps, coded, n).len() ==> #[trigger] indices_where(ps, coded, n)[i]
                < n,
    decreases n,
{
    if n > 0 {
        lemma_indices_below(ps, coded, n - 1);
        let p = indices_where(ps, coded, n - 1);
        let q = indices_where(ps, coded, n);
        assert forall|i: int| 0 <= i < q.len() implies #[trigger] q[i] < n by {
            if i < p.len() {
                assert(q[i] == p[i]);
            }
        }
    }
}

/// Indices as integers.
pub open spec fn as_ints(v: Seq<usize>) -> Seq<int> {
    v.map_values(|x: usize| x as int)
}

/// The message when no sets folder is configured.
pub open spec fn sets_folder_missing_message() -> Seq<char> {
    "Sets folder path is not configured. Please configure it in Settings."@
}

/// The message when no DONE property has a code.
pub open spec fn no_coded_message() -> Seq<char> {
    "No DONE properties with codes found to create a set."@
}

/// A set can only be completed into a configured sets folder.
pub fn require_sets_folder(sets_folder_path: &str) -> (r: Result<(), String>)
    ensures
        r is Ok <==> sets_folder_path@.len() > 0,
        r matches Err(m) ==> m@ == sets_folder_missing_message(),
{
    if sets_folder_path.unicode_len() == 0 {
        Err(String::from_str("Sets folder path is not configured. Please configure it in Settings."))
    } else {
        Ok(())
    }
}

/// One property's part of the archive.
#[derive(Debug)]
pub struct ZipFolder {
    /// The city folder entry: `{city}/`.
    pub city_entry: String,
    /// The property's folder under the DONE folder.
    pub property_path: String,
}

/// The plan of a set completion.
#[derive(Debug)]
pub struct SetPlan {
    /// `Done - {stamp}`.
    pub set_name: String,
    /// `{sets folder}/{set name}.zip`.
    pub zip_path: String,
    /// The DONE status folder, under which the archive's paths are taken.
    pub done_base: String,
    /// The indices of the properties with a code, in order.
    pub with_code: Vec<usize>,
    /// The indices of the others, in order.
    pub without_code: Vec<usize>,
    /// For each property with a code, in the same order, what goes into
    /// the archive.
    pub zip_folders: Vec<ZipFolder>,
}

/// Plans completing a set from the DONE properties `done`; `stamp` is the
/// local time of completion as `YYYY-MM-DD HH-MM-SS`. Fails when no
/// property has a code, or (after that) when the DONE status has no
/// configured folder.
pub fn plan_complete_set(
    style: PathStyle,
    sets_folder_path: &str,
    done: &[Property],
    stamp: &str,
    folders: &StatusFolders,
) -> (r: Result<SetPlan, String>)
    ensures
        match r {
            Ok(p) => {
                let with = indices_where(done@, true, done@.len() as int);
                &&& with.len() > 0
                &&& base_path_for(*folders, "DONE"@) == Some(p.done_base@)
                &&& p.set_name@ == "Done - "@ + stamp@
                &&& p.zip_path@ == path_join(style, sets_folder_path@, p.set_name@ + ".zip"@)
                &&& as_ints(p.with_code@) == with
                &&& as_ints(p.without_code@) == indices_where(done@, false, done@.len() as int)
                &&& p.zip_folders@.len() == with.len()
                &&& forall|j: int|
                    0 <= j < with.len() ==> {
                        let q = done@[with[j]];
                        &&& (#[trigger] p.zip_folders@[j]).city_entry@ == q.city@.push('/')
                        &&& p.zip_folders@[j].property_path@ == path_join(style, 
                            p.done_base@,
                            native_folder_path(style, q.folder_path@),
                        )
                    }
            },
            Err(m) => if indices_where(done@, true, done@.len() as int).len() == 0 {
                m@ == no_coded_message()
            } else {
                base_path_for(*folders, "DONE"@) is None && m@
                    == "Folder path for status 'DONE' is not configured"@
            },
        },
{
    let mut with_code: Vec<usize> = Vec::new();
    let mut without_code: Vec<usize> = Vec::new();
    let mut i: usize = 0;
    while i < done.len()
        invariant
            i <= done@.len(),
            as_ints(with_code@) == indices_where(done@, true, i as int),
            as_ints(without_code@) == indices_where(done@, false, i as int),
            forall|j: int| 0 <= j < with_code@.len() ==> #[trigger] with_code@[j] < i,
        decreases done@.len() - i,
    {
        let coded = match &done[i].code {
            Some(c) => c.as_str().unicode_len() > 0,
            None => false,
        };
        if coded {
            let ghost before = with_code@;
            with_code.push(i);
            proof {
                assert(as_ints(with_code@) =~= as_ints(before).push(i as int));
            }
        } else {
            let ghost before = without_code@;
            without_code.push(i);
            proof {
                assert(as_ints(without_code@) =~= as_ints(before).push(i as int));
            }
        }
        i = i + 1;
    }
    if with_code.len() == 0 {
        proof {
            assert(as_ints(with_code@).len() == 0);
        }
        return Err(String::from_str("No DONE properties with codes found to create a set."));
    }
    let mut set_name = String::from_str("Done - ");
    set_name.append(stamp);
    let mut zip_filename = set_name.clone();
    zip_filename.append(".zip");
    let zip_path = join_path(style, sets_folder_path, zip_filename.as_str());
    let done_base = match crate::folders::get_base_path_for_status(folders, "DONE") {
        Ok(b) => b,
        Err(_) => {
            proof {
                reveal_strlit("DONE");
                assert("DONE"@ =~= crate::folders::status_name(
                    crate::folders::PropertyStatus::Done,
                ));
            }
            return Err(String::from_str("Folder path for status 'DONE' is not configured"));
        },
    };
    let mut zip_folders: Vec<ZipFolder> = Vec::new();
    let mut k: usize = 0;
    while k < with_code.len()
        invariant
            k <= with_code@.len(),
            as_ints(with_code@) == indices_where(done@, true, done@.len() as int),
            forall|j: int| 0 <= j < with_code@.len() ==> #[trigger] with_code@[j] < done@.len(),
            zip_folders@.len() == k,
            forall|j: int|
                0 <= j < k ==> {
                    let q = done@[with_code@[j] as int];
                    &&& (#[trigger] zip_folders@[j]).city_entry@ == q.city@.push('/')
                    &&& zip_folders@[j].property_path@ == path_join(style, 
                        done_base@,
                        native_folder_path(style, q.folder_path@),
                    )
                },
        decreases with_code@.len() - k,
    {
        let q = &done[with_code[k]];
        let mut city_entry = q.city.clone();
        proof {
            reveal_strlit("/");
        }
        city_entry.append("/");
        let native = folder_path_to_native(style, q.folder_path.as_str());
        let property_path = join_path(style, done_base.as_str(), native.as_str());
        zip_folders.push(ZipFolder { city_entry, property_path });
        k = k + 1;
    }
    proof {
        assert forall|j: int| 0 <= j < with_code@.len() implies as_ints(with_code@)[j]
            == with_code@[j] as int by {}
    }
    Ok(SetPlan { set_name, zip_path, done_base, with_code, without_code, zip_folders })
}

/// The moves for the first `n` of `folder_paths`: each from under
/// `done_base` to the same place under `target_base`, leaving out those
/// whose two paths are the same path.
pub open spec fn set_moves(
    style: PathStyle,
    done_base: Seq<char>,
    target_base: Seq<char>,
    folder_paths: Seq<String>,
    n: int,
) -> Seq<(Seq<char>, Seq<char>)>
    decreases n,
{
    if n <= 0 {
        Seq::<(Seq<char>, Seq<char>)>::empty()
    } else {
        let prev = set_moves(style, done_base, target_base, folder_paths, n - 1);
        let fp = native_folder_path(style, folder_paths[n - 1]@);
        let from = path_join(style, done_base, fp);
        let to = path_join(style, target_base, fp);
        if same_path(from, to) {
            prev
        } else {
            prev.push((from, to))
        }
    }
}

/// The view of a list of moves.
pub open spec fn moves_view(v: Seq<FolderMove>) -> Seq<(Seq<char>, Seq<char>)> {
    v.map_values(|m: FolderMove| (m.from@, m.to@))
}

/// The moves that close a set: each property with a code from the DONE
/// folder to the ARCHIVE folder, each other one to the NOT_FOUND folder;
/// see [`set_moves`]. The caller moves only the folders that exist.
pub fn plan_set_moves(style: PathStyle, done_base: &str, target_base: &str, folder_paths: &[String]) -> (r: Vec<
    FolderMove,
>)
    ensures
        moves_view(r@) == set_moves(style, done_base@, target_base@, folder_paths@, folder_paths@.len() as int),
{
    let mut out: Vec<FolderMove> = Vec::new();
    let mut i: usize = 0;
    proof {
        assert(moves_view(out@) =~= Seq::<(Seq<char>, Seq<char>)>::empty());
    }
    while i < folder_paths.len()
        invariant
            i <= folder_paths@.len(),
            moves_view(out@) == set_moves(style, done_base@, target_base@, folder_paths@, i as int),
        decreases folder_paths@.len() - i,
    {
        let native = folder_path_to_native(style, folder_paths[i].as_str());
        let from = join_path(style, done_base, native.as_str());
        let to = join_path(style, target_base, native.as_str());
        if !paths_equal(from.as_str(), to.as_str()) {
            let ghost before = out@;
            let ghost pair = (from@, to@);
            out.push(FolderMove { from, to });
            proof {
                assert(moves_view(out@) =~= moves_view(before).push(pair));
            }
        }
        i = i + 1;
    }
    out
}

/// The name of an archive entry for a path relative to the DONE folder,
/// with `\` written as `/`: a folder's name ends in `/` and the DONE folder
/// itself (the empty path) gets no entry.
pub fn zip_entry_name(relative_path: &str, is_dir: bool) -> (r: Option<String>)
    ensures
        is_dir && relative_path@.len() == 0 ==> r is None,
        is_dir && relative_path@.len() > 0 ==> (r matches Some(n) && n@ == replace_char(
            relative_path@,
            '\\',
            '/',
        ).push('/')),
        !is_dir ==> (r matches Some(n) && n@ == replace_char(relative_path@, '\\', '/')),
{
    proof {
        reveal_strlit("/");
    }
    let name = replace_char_with(relative_path, '\\', "/");
    if is_dir {
        if name.as_str().unicode_len() == 0 {
            return None;
        }
        let mut d = name;
        d.append("/");
        Some(d)
    } else {
        Some(name)
    }
}

} // verus!
