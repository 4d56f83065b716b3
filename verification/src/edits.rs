//! Editing a stored property: changing its status (which moves its folder
//! between status folders), setting its listing code (which renames its
//! folder) and changing its name or city (which moves or renames it).
//!
//! Each edit is planned here from the stored row and the configured status
//! folders; the caller performs the folder operations the plan names and
//! then writes the row.

use vstd::prelude::*;
use crate::paths::PathStyle;
use crate::components::{paths_equal, same_path};
use crate::folders::{
    base_path_for, folder_path_to_native, get_base_path_for_status, get_relative_folder_path,
    join_path, native_folder_path, path_join, relative_folder_path, status_from_name, status_name,
    PropertyStatus, StatusFolders, StatusPathError,
};
use crate::naming::{folder_name_with_code, last_path_segment, property_folder_name};
use crate::paths::split_path;
use crate::repair::{status_at, status_at_exec};
use crate::text::{str_equals, trim, trimmed};

verus! {

/// A folder to move from one path to another.
#[derive(Debug)]
pub struct FolderMove {
    pub from: String,
    pub to: String,
}

/// The message for a status name that is not one of the four.
pub open spec fn invalid_status_message(s: Seq<char>) -> Seq<char> {
    "Invalid status: "@ + s
}

/// Reads the requested new status; any other text is refused with
/// `Invalid status: {text}`.
pub fn validate_status(new_status: &str) -> (r: Result<PropertyStatus, String>)
    ensures
        match r {
            Ok(s) => status_from_name(new_status@) == Some(s),
            Err(m) => status_from_name(new_status@) is None && m@ == invalid_status_message(
                new_status@,
            ),
        },
{
    match PropertyStatus::parse(new_status) {
        Some(s) => Ok(s),
        None => {
            let mut m = String::from_str("Invalid status: ");
            m.append(new_status);
            Err(m)
        },
    }
}

/// Where a property stored at `folder_path` would be in the folder of status
/// `s`, if that status has a folder configured.
pub open spec fn candidate_path(style: PathStyle, folders: StatusFolders, folder_path: Seq<char>, s: PropertyStatus) -> Option<
    Seq<char>,
> {
    if folders.folder_of(s).len() == 0 {
        None
    } else {
        Some(path_join(style, folders.folder_of(s), native_folder_path(style, folder_path)))
    }
}

/// The four places a property could be, in the order NEW, DONE, NOT_FOUND,
/// ARCHIVE; `None` for a status without a configured folder.
pub fn status_folder_candidates(style: PathStyle, folders: &StatusFolders, folder_path: &str) -> (r: Vec<
    Option<String>,
>)
    ensures
        r@.len() == 4,
        forall|i: int|
            0 <= i < 4 ==> match #[trigger] r@[i] {
                Some(p) => candidate_path(style, *folders, folder_path@, status_at(i)) == Some(p@),
                None => candidate_path(style, *folders, folder_path@, status_at(i)) is None,
            },
{
    let native = folder_path_to_native(style, folder_path);
    let mut out: Vec<Option<String>> = Vec::new();
    let mut k: usize = 0;
    while k < 4
        invariant
            k <= 4,
            out@.len() == k,
            native@ == native_folder_path(style, folder_path@),
            forall|i: int|
                0 <= i < k ==> match #[trigger] out@[i] {
                    Some(p) => candidate_path(style, *folders, folder_path@, status_at(i)) == Some(p@),
                    None => candidate_path(style, *folders, folder_path@, status_at(i)) is None,
                },
        decreases 4 - k,
    {
        let base = folders.folder(status_at_exec(k));
        if base.as_str().unicode_len() == 0 {
            out.push(None);
        } else {
            out.push(Some(join_path(style, base.as_str(), native.as_str())));
        }
        k = k + 1;
    }
    out
}

/// The first status, from `k` on, whose candidate folder exists.
pub open spec fn first_present(
    style: PathStyle,
    folders: StatusFolders,
    folder_path: Seq<char>,
    present: Seq<bool>,
    k: int,
) -> int
    decreases 4 - k,
{
    if k < 0 || k >= 4 {
        -1
    } else if candidate_path(style, folders, folder_path, status_at(k)) is Some && present[k] {
        k
    } else {
        first_present(style, folders, folder_path, present, k + 1)
    }
}

/// Where a property folder actually is: the first configured status folder
/// (NEW, DONE, NOT_FOUND, ARCHIVE) whose candidate path is present on disk
/// (`present[i]` tells whether the `i`-th candidate exists as a folder).
/// Gives that path and the status name.
pub fn find_actual_folder_location(style: PathStyle, folders: &StatusFolders, folder_path: &str, present: &[bool]) -> (r:
    Option<(String, String)>)
    requires
        present@.len() == 4,
    ensures
        match r {
            Some((p, s)) => {
                let k = first_present(style, *folders, folder_path@, present@, 0);
                &&& 0 <= k < 4
                &&& candidate_path(style, *folders, folder_path@, status_at(k)) == Some(p@)
                &&& s@ == status_name(status_at(k))
            },
            None => first_present(style, *folders, folder_path@, present@, 0) == -1,
        },
{
    let candidates = status_folder_candidates(style, folders, folder_path);
    let mut k: usize = 0;
    while k < 4
        invariant
            k <= 4,
            present@.len() == 4,
            candidates@.len() == 4,
            forall|i: int|
                0 <= i < 4 ==> match #[trigger] candidates@[i] {
                    Some(p) => candidate_path(style, *folders, folder_path@, status_at(i)) == Some(p@),
                    None => candidate_path(style, *folders, folder_path@, status_at(i)) is None,
                },
            first_present(style, *folders, folder_path@, present@, 0) == first_present(style, 
                *folders,
                folder_path@,
                present@,
                k as int,
            ),
        decreases 4 - k,
    {
        let ghost c = candidates@[k as int];
        match &candidates[k] {
            Some(p) => {
                if present[k] {
                    let status = status_at_exec(k);
                    return Some((p.clone(), String::from_str(status.as_str())));
                }
            },
            None => {},
        }
        k = k + 1;
    }
    None
}

/// Changing a property's status moves its folder from where it is to the
/// new status's folder.
///
/// `current_status` is the stored status; `expected_present` tells whether
/// the property's folder exists under the stored status's folder, and
/// `located` is where [`find_actual_folder_location`] found it otherwise.
/// Nothing moves when the status does not change, when the folder is
/// nowhere, or when it is already at the new place. The new status's folder
/// must be configured: otherwise the change fails with
/// `Failed to get property path: {reason}`.
pub open spec fn status_move_spec(
    style: PathStyle,
    folders: StatusFolders,
    current_status: Seq<char>,
    new_status: PropertyStatus,
    folder_path: Seq<char>,
    expected_present: bool,
    located: Option<Seq<char>>,
    r: Result<Option<(Seq<char>, Seq<char>)>, Seq<char>>,
) -> bool {
    if current_status == status_name(new_status) {
        r == Ok::<Option<(Seq<char>, Seq<char>)>, Seq<char>>(None)
    } else if folders.folder_of(new_status).len() == 0 {
        r == Err::<Option<(Seq<char>, Seq<char>)>, Seq<char>>(
            "Failed to get property path: Folder path for status '"@ + status_name(new_status)
                + "' is not configured"@,
        )
    } else {
        let new_path = path_join(style, folders.folder_of(new_status), native_folder_path(style, folder_path));
        let expected = match base_path_for(folders, current_status) {
            Some(b) => Some(path_join(style, b, native_folder_path(style, folder_path))),
            None => None,
        };
        let actual = if expected is Some && expected_present {
            expected
        } else {
            located
        };
        match actual {
            Some(old) => if same_path(old, new_path) {
                r == Ok::<Option<(Seq<char>, Seq<char>)>, Seq<char>>(None)
            } else {
                r == Ok::<Option<(Seq<char>, Seq<char>)>, Seq<char>>(Some((old, new_path)))
            },
            None => r == Ok::<Option<(Seq<char>, Seq<char>)>, Seq<char>>(None),
        }
    }
}

/// The view of a planned move result.
pub open spec fn move_view(r: Result<Option<FolderMove>, String>) -> Result<
    Option<(Seq<char>, Seq<char>)>,
    Seq<char>,
> {
    match r {
        Ok(Some(m)) => Ok(Some((m.from@, m.to@))),
        Ok(None) => Ok(None),
        Err(e) => Err(e@),
    }
}

/// Plans the folder move of a status change; see [`status_move_spec`].
pub fn plan_status_move(
    style: PathStyle,
    folders: &StatusFolders,
    current_status: &str,
    new_status: PropertyStatus,
    folder_path: &str,
    expected_present: bool,
    located: Option<String>,
) -> (r: Result<Option<FolderMove>, String>)
    ensures
        status_move_spec(style, 
            *folders,
            current_status@,
            new_status,
            folder_path@,
            expected_present,
            match located {
                Some(l) => Some(l@),
                None => None,
            },
            move_view(r),
        ),
{
    if crate::text::str_equals(current_status, new_status.as_str()) {
        return Ok(None);
    }
    let new_base = folders.folder(new_status);
    if new_base.as_str().unicode_len() == 0 {
        let mut m = String::from_str("Failed to get property path: Folder path for status '");
        m.append(new_status.as_str());
        m.append("' is not configured");
        return Err(m);
    }
    let native = folder_path_to_native(style, folder_path);
    let new_path = join_path(style, new_base.as_str(), native.as_str());
    let actual = match get_base_path_for_status(folders, current_status) {
        Ok(b) => {
            if expected_present {
                Some(join_path(style, b.as_str(), native.as_str()))
            } else {
                located
            }
        },
        Err(_) => located,
    };
    match actual {
        Some(old) => {
            if paths_equal(old.as_str(), new_path.as_str()) {
                Ok(None)
            } else {
                Ok(Some(FolderMove { from: old, to: new_path }))
            }
        },
        None => Ok(None),
    }
}

/// Why a status has no base folder, as the message the user sees.
pub open spec fn base_path_error(status: Seq<char>) -> Seq<char> {
    if status_from_name(status) is None {
        "Invalid status: "@ + status
    } else {
        "Folder path for status '"@ + status + "' is not configured"@
    }
}

/// The base folder of the status named `status`, or the message saying why
/// there is none.
pub fn status_base_path(folders: &StatusFolders, status: &str) -> (r: Result<String, String>)
    ensures
        match r {
            Ok(b) => base_path_for(*folders, status@) == Some(b@),
            Err(m) => base_path_for(*folders, status@) is None && m@ == base_path_error(status@),
        },
{
    match get_base_path_for_status(folders, status) {
        Ok(b) => Ok(b),
        Err(e) => Err(e.message()),
    }
}

/// Trims a listing code (`str::trim`); an empty code is refused with
/// `Code cannot be empty`.
pub fn normalize_code(code: &str) -> (r: Result<String, String>)
    ensures
        match r {
            Ok(c) => c@ == trimmed(code@) && c@.len() > 0,
            Err(m) => trimmed(code@).len() == 0 && m@ == "Code cannot be empty"@,
        },
{
    let c = trim(code);
    if c.as_str().unicode_len() == 0 {
        Err(String::from_str("Code cannot be empty"))
    } else {
        Ok(c)
    }
}

/// Setting a listing code: the stored row and the folder rename it brings.
#[derive(Debug)]
pub struct CodeChange {
    /// The new stored `folder_path`: `{city}/{name} ({code})`.
    pub new_folder_path: String,
    /// The folder as it is now: `{base}/{city}/{current folder name}`.
    pub old_absolute_path: String,
    /// The folder after the rename: `{base}/{city}/{name} ({code})`.
    pub new_absolute_path: String,
    /// Whether the two paths differ, so that a rename is due (when the old
    /// folder exists).
    pub rename: bool,
}

/// Plans setting the code `code` (already trimmed) on the property `name`
/// in `city`, stored with `status` at `folder_path`. The current folder name
/// is the last part of `folder_path`; the new one is `{name} ({code})`
/// with `/` in the code written as `-`. Fails when the status has no
/// configured folder.
pub fn plan_code_change(
    style: PathStyle,
    folders: &StatusFolders,
    name: &str,
    city: &str,
    status: &str,
    folder_path: &str,
    code: &str,
) -> (r: Result<CodeChange, String>)
    ensures
        match r {
            Ok(c) => base_path_for(*folders, status@) matches Some(b) && {
                let new_name = folder_name_with_code(name@, code@);
                let old_name = split_path(folder_path@).last();
                &&& c.new_folder_path@ == relative_folder_path(city@, new_name)
                &&& c.old_absolute_path@ == path_join(style, path_join(style, b, city@), old_name)
                &&& c.new_absolute_path@ == path_join(style, path_join(style, b, city@), new_name)
                &&& c.rename == !same_path(c.old_absolute_path@, c.new_absolute_path@)
            },
            Err(m) => base_path_for(*folders, status@) is None && m@ == base_path_error(status@),
        },
{
    let old_folder_name = last_path_segment(folder_path);
    let new_folder_name = property_folder_name(name, code);
    let new_folder_path = get_relative_folder_path(city, new_folder_name.as_str());
    let base = status_base_path(folders, status)?;
    let city_path = join_path(style, base.as_str(), city);
    let old_absolute_path = join_path(style, city_path.as_str(), old_folder_name.as_str());
    let new_absolute_path = join_path(style, city_path.as_str(), new_folder_name.as_str());
    let rename = !paths_equal(old_absolute_path.as_str(), new_absolute_path.as_str());
    Ok(CodeChange { new_folder_path, old_absolute_path, new_absolute_path, rename })
}

/// Law: setting the same code again renames nothing. Once the folder path
/// a code change stored is the current one, planning the same code gives
/// the same folder as before and after (for a name without `/`).
pub proof fn law_code_change_settles(city: Seq<char>, name: Seq<char>, code: Seq<char>)
    requires
        forall|i: int| 0 <= i < name.len() ==> name[i] != '/',
    ensures
        split_path(relative_folder_path(city, folder_name_with_code(name, code))).last()
            == folder_name_with_code(name, code),
{
    let f = folder_name_with_code(name, code);
    let safe = crate::text::replace_char(code, '/', '-');
    assert forall|i: int| 0 <= i < f.len() implies f[i] != '/' by {
        if i < name.len() {
            assert(f[i] == name[i]);
        } else if i < name.len() + 2 {
        } else if i < name.len() + 2 + safe.len() {
            assert(f[i] == safe[i - name.len() - 2]);
        }
    }
    crate::paths::lemma_split_single(f);
    crate::paths::lemma_split_path_concat(city, f);
}

/// The edited name and city, trimmed; either one empty is refused, the
/// name first.
pub fn validate_property_fields(name: &str, city: &str) -> (r: Result<(String, String), String>)
    ensures
        match r {
            Ok((n, c)) => n@ == trimmed(name@) && c@ == trimmed(city@) && n@.len() > 0 && c@.len()
                > 0,
            Err(m) => if trimmed(name@).len() == 0 {
                m@ == "Property name cannot be empty"@
            } else {
                trimmed(city@).len() == 0 && m@ == "City cannot be empty"@
            },
        },
{
    let n = trim(name);
    let c = trim(city);
    if n.as_str().unicode_len() == 0 {
        return Err(String::from_str("Property name cannot be empty"));
    }
    if c.as_str().unicode_len() == 0 {
        return Err(String::from_str("City cannot be empty"));
    }
    Ok((n, c))
}

/// The folder operation that a name or city change brings.
#[derive(Debug)]
pub struct Relocation {
    /// `{base}/{old city}/{current folder name}`.
    pub from: String,
    /// `{base}/{city}/{new folder name}`.
    pub to: String,
    /// Whether `from` and `to` are different paths.
    pub differs: bool,
    /// `{base}/{city}` when the city changed: it must exist before the move.
    pub city_folder: Option<String>,
}

/// Changing a property's name or city: the new stored `folder_path` and,
/// when either changed, the folder operation.
#[derive(Debug)]
pub struct PropertyUpdate {
    pub new_folder_path: String,
    pub relocation: Option<Relocation>,
}

/// The folder name a property gets: `{name} ({code})` (with `/` in the code
/// written as `-`) when it has a code, else the name.
pub open spec fn folder_name_for(name: Seq<char>, code: Option<Seq<char>>) -> Seq<char> {
    match code {
        Some(c) => folder_name_with_code(name, c),
        None => name,
    }
}

/// Plans renaming the property stored as `old_name` in `old_city` (status
/// `status`, at `folder_path`, with listing code `code`) to `name` in
/// `city`. Fails when the status has no configured folder.
pub fn plan_property_update(
    style: PathStyle,
    folders: &StatusFolders,
    name: &str,
    city: &str,
    old_name: &str,
    old_city: &str,
    status: &str,
    folder_path: &str,
    code: Option<&str>,
) -> (r: Result<PropertyUpdate, String>)
    ensures
        match r {
            Ok(u) => base_path_for(*folders, status@) matches Some(b) && {
                let new_name = folder_name_for(
                    name@,
                    match code {
                        Some(c) => Some(c@),
                        None => None,
                    },
                );
                let changed = name@ != old_name@ || city@ != old_city@;
                &&& u.new_folder_path@ == relative_folder_path(city@, new_name)
                &&& changed == u.relocation is Some
                &&& (u.relocation matches Some(l) ==> {
                    &&& l.from@ == path_join(style, 
                        path_join(style, b, old_city@),
                        split_path(folder_path@).last(),
                    )
                    &&& l.to@ == path_join(style, path_join(style, b, city@), new_name)
                    &&& l.differs == !same_path(l.from@, l.to@)
                    &&& (l.city_folder matches Some(cf) ==> cf@ == path_join(style, b, city@))
                    &&& (l.city_folder is Some <==> city@ != old_city@)
                })
            },
            Err(m) => base_path_for(*folders, status@) is None && m@ == base_path_error(status@),
        },
{
    let old_folder_name = last_path_segment(folder_path);
    let name_changed = !str_equals(name, old_name);
    let city_changed = !str_equals(city, old_city);
    let new_folder_name = match code {
        Some(c) => property_folder_name(name, c),
        None => String::from_str(name),
    };
    let new_folder_path = get_relative_folder_path(city, new_folder_name.as_str());
    let base = status_base_path(folders, status)?;
    if !(name_changed || city_changed) {
        return Ok(PropertyUpdate { new_folder_path, relocation: None });
    }
    let old_city_path = join_path(style, base.as_str(), old_city);
    let from = join_path(style, old_city_path.as_str(), old_folder_name.as_str());
    let new_city_path = join_path(style, base.as_str(), city);
    let to = join_path(style, new_city_path.as_str(), new_folder_name.as_str());
    let differs = !paths_equal(from.as_str(), to.as_str());
    let city_folder = if city_changed {
        Some(new_city_path)
    } else {
        None
    };
    Ok(PropertyUpdate {
        new_folder_path,
        relocation: Some(Relocation { from, to, differs, city_folder }),
    })
}

/// A folder operation to perform.
#[derive(Debug)]
pub enum FolderAction {
    /// Create the folder (and its parents) unless it exists.
    EnsureFolder(String),
    /// Rename (move) a folder.
    Rename { from: String, to: String },
}

/// The message when a move would overwrite an existing folder.
pub open spec fn conflict_message(to: Seq<char>) -> Seq<char> {
    "Cannot move/rename: folder '"@ + to + "' already exists"@
}

/// What to do for a relocation once it is known whether its source and
/// target exist: nothing when the source is missing; a refusal when the
/// target is another existing folder; else create the new city folder (when
/// the city changed) and move, unless source and target are the same path.
pub fn relocation_steps(l: &Relocation, from_exists: bool, to_exists: bool) -> (r: Result<
    Vec<FolderAction>,
    String,
>)
    ensures
        !from_exists ==> (r matches Ok(v) && v@.len() == 0),
        from_exists && l.differs && to_exists ==> (r matches Err(m) && m@ == conflict_message(
            l.to@,
        )),
        from_exists && !(l.differs && to_exists) ==> (r matches Ok(v) && {
            let n = if l.city_folder is Some {
                1int
            } else {
                0int
            };
            &&& v@.len() == n + if l.differs {
                1int
            } else {
                0int
            }
            &&& (l.city_folder matches Some(cf) ==> (v@[0] matches FolderAction::EnsureFolder(p)
                && p@ == cf@))
            &&& (l.differs ==> (v@[n] matches FolderAction::Rename { from, to } && from@
                == l.from@ && to@ == l.to@))
        }),
{
    let mut v: Vec<FolderAction> = Vec::new();
    if !from_exists {
        return Ok(v);
    }
    if l.differs && to_exists {
        let mut m = String::from_str("Cannot move/rename: folder '");
        m.append(l.to.as_str());
        m.append("' already exists");
        return Err(m);
    }
    match &l.city_folder {
        Some(cf) => v.push(FolderAction::EnsureFolder(cf.clone())),
        None => {},
    }
    if l.differs {
        v.push(FolderAction::Rename { from: l.from.clone(), to: l.to.clone() });
    }
    Ok(v)
}

/// The folders a new property gets, in the order they are created: the
/// property folder, `INTERNET`, `WATERMARK`, `INTERNET/AGGELIA` and
/// `WATERMARK/AGGELIA`.
pub fn property_folder_structure(style: PathStyle, property_path: &str) -> (r: Vec<String>)
    ensures
        r@.len() == 5,
        r@[0]@ == property_path@,
        r@[1]@ == path_join(style, property_path@, "INTERNET"@),
        r@[2]@ == path_join(style, property_path@, "WATERMARK"@),
        r@[3]@ == path_join(style, path_join(style, property_path@, "INTERNET"@), "AGGELIA"@),
        r@[4]@ == path_join(style, path_join(style, property_path@, "WATERMARK"@), "AGGELIA"@),
{
    let internet = join_path(style, property_path, crate::folders::INTERNET);
    let watermark = join_path(style, property_path, crate::folders::WATERMARK);
    let internet_aggelia = join_path(style, internet.as_str(), crate::folders::AGGELIA);
    let watermark_aggelia = join_path(style, watermark.as_str(), crate::folders::AGGELIA);
    let mut v: Vec<String> = Vec::new();
    v.push(String::from_str(property_path));
    v.push(internet);
    v.push(watermark);
    v.push(internet_aggelia);
    v.push(watermark_aggelia);
    v
}

/// The folders that setting up a root folder creates, in order: the
/// FOTOGRAFIES - DONE and FOTOGRAFIES - NEW folders, then in each of them a
/// test property `TEST/EXAMPLE-1` with its subfolders (see
/// [`property_folder_structure`]).
pub fn setup_folder_plan(style: PathStyle, root: &str) -> (r: Vec<String>)
    ensures
        r@.len() == 12,
        r@[0]@ == path_join(style, root@, "FOTOGRAFIES - DONE"@),
        r@[1]@ == path_join(style, root@, "FOTOGRAFIES - NEW"@),
        r@[2]@ == path_join(style, r@[0]@, "TEST/EXAMPLE-1"@),
        r@[3]@ == path_join(style, r@[2]@, "INTERNET"@),
        r@[4]@ == path_join(style, r@[2]@, "WATERMARK"@),
        r@[5]@ == path_join(style, r@[3]@, "AGGELIA"@),
        r@[6]@ == path_join(style, r@[4]@, "AGGELIA"@),
        r@[7]@ == path_join(style, r@[1]@, "TEST/EXAMPLE-1"@),
        r@[8]@ == path_join(style, r@[7]@, "INTERNET"@),
        r@[9]@ == path_join(style, r@[7]@, "WATERMARK"@),
        r@[10]@ == path_join(style, r@[8]@, "AGGELIA"@),
        r@[11]@ == path_join(style, r@[9]@, "AGGELIA"@),
{
    let done = join_path(style, root, crate::folders::FOTOGRAFIES_DONE);
    let new = join_path(style, root, crate::folders::FOTOGRAFIES_NEW);
    let done_test = join_path(style, done.as_str(), "TEST/EXAMPLE-1");
    let new_test = join_path(style, new.as_str(), "TEST/EXAMPLE-1");
    let done_parts = property_folder_structure(style, done_test.as_str());
    let new_parts = property_folder_structure(style, new_test.as_str());
    let mut r: Vec<String> = Vec::new();
    r.push(done);
    r.push(new);
    r.push(done_parts[0].clone());
    r.push(done_parts[1].clone());
    r.push(done_parts[2].clone());
    r.push(done_parts[3].clone());
    r.push(done_parts[4].clone());
    r.push(new_parts[0].clone());
    r.push(new_parts[1].clone());
    r.push(new_parts[2].clone());
    r.push(new_parts[3].clone());
    r.push(new_parts[4].clone());
    r
}

} // verus!
