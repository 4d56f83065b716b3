//! The on-disk layout of properties.
//!
//! ```text
//! {root}/
//! ├── FOTOGRAFIES - NEW/
//! │   └── {City}/
//! │       └── {Property}/          or  {Property} ({code})
//! │           ├── INTERNET/
//! │           │   └── AGGELIA/
//! │           └── WATERMARK/
//! │               └── AGGELIA/
//! └── FOTOGRAFIES - DONE/
//!     └── ...
//! ```
//!
//! Each status (NEW, DONE, NOT_FOUND, ARCHIVE) has a configured base
//! folder. A property is stored in the database by its relative
//! `folder_path`, `{city}/{folder name}`, always `/`-separated; the folder
//! name carries the listing code as a ` ({code})` suffix once one is set.
//!
//! Full paths are built here as `PathBuf::join` builds them under the path
//! conventions of the platform ([`PathStyle`], [`path_join`]): `/` between
//! components on Unix, `\` on Windows. A base path in the verbatim `\\?\`
//! form is extended as the other forms are, where `PathBuf::push` would also
//! rebuild it from its components.

use vstd::prelude::*;
use crate::text::str_equals;
use crate::paths::{
    drive_prefix_at, has_drive_prefix, is_bare_drive, is_separator, is_separator_char, PathStyle,
};

verus! {

/// Folder containing processed (renamed/ordered) property images.
pub const INTERNET: &'static str = "INTERNET";

/// Subfolder of INTERNET / WATERMARK holding the advanced-edit selection.
pub const AGGELIA: &'static str = "AGGELIA";

/// Folder containing watermarked outputs.
pub const WATERMARK: &'static str = "WATERMARK";

/// Top-level folder for incomplete properties.
pub const FOTOGRAFIES_NEW: &'static str = "FOTOGRAFIES - NEW";

/// Top-level folder for completed properties.
pub const FOTOGRAFIES_DONE: &'static str = "FOTOGRAFIES - DONE";

/// Top-level folder for properties whose source files are missing.
pub const NOT_FOUND: &'static str = "NOT FOUND";

/// Top-level folder for archived properties.
pub const ARCHIVE: &'static str = "ARCHIVE";

/// The four workflow states of a property.
#[derive(Clone, Copy, Debug, PartialEq, Eq, Structural)]
pub enum PropertyStatus {
    New,
    Done,
    NotFound,
    Archive,
}

/// The name under which a status is stored.
pub open spec fn status_name(s: PropertyStatus) -> Seq<char> {
    match s {
        PropertyStatus::New => seq!['N', 'E', 'W'],
        PropertyStatus::Done => seq!['D', 'O', 'N', 'E'],
        PropertyStatus::NotFound => seq!['N', 'O', 'T', '_', 'F', 'O', 'U', 'N', 'D'],
        PropertyStatus::Archive => seq!['A', 'R', 'C', 'H', 'I', 'V', 'E'],
    }
}

/// The status stored under `name`, if any.
pub open spec fn status_from_name(name: Seq<char>) -> Option<PropertyStatus> {
    if name == status_name(PropertyStatus::New) {
        Some(PropertyStatus::New)
    } else if name == status_name(PropertyStatus::Done) {
        Some(PropertyStatus::Done)
    } else if name == status_name(PropertyStatus::NotFound) {
        Some(PropertyStatus::NotFound)
    } else if name == status_name(PropertyStatus::Archive) {
        Some(PropertyStatus::Archive)
    } else {
        None
    }
}

impl PropertyStatus {
    /// The stored name: `NEW`, `DONE`, `NOT_FOUND` or `ARCHIVE`.
    pub fn as_str(&self) -> (r: &'static str)
        ensures
            r@ == status_name(*self),
    {
        match self {
            PropertyStatus::New => {
                proof {
                    reveal_strlit("NEW");
                    assert("NEW"@ =~= status_name(PropertyStatus::New));
                }
                "NEW"
            },
            PropertyStatus::Done => {
                proof {
                    reveal_strlit("DONE");
                    assert("DONE"@ =~= status_name(PropertyStatus::Done));
                }
                "DONE"
            },
            PropertyStatus::NotFound => {
                proof {
                    reveal_strlit("NOT_FOUND");
                    assert("NOT_FOUND"@ =~= status_name(PropertyStatus::NotFound));
                }
                "NOT_FOUND"
            },
            PropertyStatus::Archive => {
                proof {
                    reveal_strlit("ARCHIVE");
                    assert("ARCHIVE"@ =~= status_name(PropertyStatus::Archive));
                }
                "ARCHIVE"
            },
        }
    }

    /// Reads a stored status name; any other text gives `None`.
    pub fn parse(name: &str) -> (r: Option<PropertyStatus>)
        ensures
            r == status_from_name(name@),
    {
        proof {
            reveal_strlit("NEW");
            reveal_strlit("DONE");
            reveal_strlit("NOT_FOUND");
            reveal_strlit("ARCHIVE");
            assert("NEW"@ =~= status_name(PropertyStatus::New));
            assert("DONE"@ =~= status_name(PropertyStatus::Done));
            assert("NOT_FOUND"@ =~= status_name(PropertyStatus::NotFound));
            assert("ARCHIVE"@ =~= status_name(PropertyStatus::Archive));
        }
        if str_equals(name, "NEW") {
            Some(PropertyStatus::New)
        } else if str_equals(name, "DONE") {
            Some(PropertyStatus::Done)
        } else if str_equals(name, "NOT_FOUND") {
            Some(PropertyStatus::NotFound)
        } else if str_equals(name, "ARCHIVE") {
            Some(PropertyStatus::Archive)
        } else {
            None
        }
    }
}

/// Law: reading back a stored status name gives the status, and distinct
/// statuses have distinct names.
pub proof fn law_status_name_round_trip(s: PropertyStatus)
    ensures
        status_from_name(status_name(s)) == Some(s),
{
    assert(status_name(PropertyStatus::New) != status_name(PropertyStatus::Done));
    assert(status_name(PropertyStatus::New) != status_name(PropertyStatus::NotFound));
    assert(status_name(PropertyStatus::New) != status_name(PropertyStatus::Archive));
    assert(status_name(PropertyStatus::Done) != status_name(PropertyStatus::NotFound));
    assert(status_name(PropertyStatus::Done) != status_name(PropertyStatus::Archive));
    assert(status_name(PropertyStatus::NotFound) != status_name(PropertyStatus::Archive));
}

/// The configured base folder of each status (empty when not configured).
pub struct StatusFolders {
    pub new_folder_path: String,
    pub done_folder_path: String,
    pub not_found_folder_path: String,
    pub archive_folder_path: String,
}

impl StatusFolders {
    pub open spec fn folder_of(&self, s: PropertyStatus) -> Seq<char> {
        match s {
            PropertyStatus::New => self.new_folder_path@,
            PropertyStatus::Done => self.done_folder_path@,
            PropertyStatus::NotFound => self.not_found_folder_path@,
            PropertyStatus::Archive => self.archive_folder_path@,
        }
    }

    /// The configured base folder of `s`, as stored.
    pub fn folder(&self, s: PropertyStatus) -> (r: &String)
        ensures
            r@ == self.folder_of(s),
    {
        match s {
            PropertyStatus::New => &self.new_folder_path,
            PropertyStatus::Done => &self.done_folder_path,
            PropertyStatus::NotFound => &self.not_found_folder_path,
            PropertyStatus::Archive => &self.archive_folder_path,
        }
    }
}

/// Why a status has no base folder.
#[derive(Debug)]
pub enum StatusPathError {
    /// The text is not one of the four status names.
    InvalidStatus(String),
    /// The status is valid but its folder is not configured.
    NotConfigured(String),
}

impl StatusPathError {
    /// The message shown to the user.
    pub fn message(&self) -> (s: String)
        ensures
            s@ == match self {
                StatusPathError::InvalidStatus(t) => "Invalid status: "@ + t@,
                StatusPathError::NotConfigured(t) => "Folder path for status '"@ + t@
                    + "' is not configured"@,
            },
    {
        match self {
            StatusPathError::InvalidStatus(t) => {
                let mut s = String::from_str("Invalid status: ");
                s.append(t.as_str());
                s
            },
            StatusPathError::NotConfigured(t) => {
                let mut s = String::from_str("Folder path for status '");
                s.append(t.as_str());
                s.append("' is not configured");
                s
            },
        }
    }
}

/// The base folder for the status named `status`.
pub open spec fn base_path_for(folders: StatusFolders, status: Seq<char>) -> Option<Seq<char>> {
    match status_from_name(status) {
        Some(s) => if folders.folder_of(s).len() == 0 {
            None
        } else {
            Some(folders.folder_of(s))
        },
        None => None,
    }
}

/// The base folder for the status named `status`: an error when the name is
/// not a status, or when that status has no folder configured.
pub fn get_base_path_for_status(folders: &StatusFolders, status: &str) -> (r: Result<
    String,
    StatusPathError,
>)
    ensures
        match r {
            Ok(p) => base_path_for(*folders, status@) == Some(p@),
            Err(StatusPathError::InvalidStatus(t)) => status_from_name(status@) is None && t@
                == status@,
            Err(StatusPathError::NotConfigured(t)) => status_from_name(status@) is Some
                && base_path_for(*folders, status@) is None && t@ == status@,
        },
{
    match PropertyStatus::parse(status) {
        None => Err(StatusPathError::InvalidStatus(String::from_str(status))),
        Some(s) => {
            let p = folders.folder(s);
            if p.as_str().unicode_len() == 0 {
                Err(StatusPathError::NotConfigured(String::from_str(status)))
            } else {
                Ok(p.clone())
            }
        },
    }
}

/// The number of characters of `s` before its first separator (all of them
/// when it has none).
pub open spec fn run_before_separator(style: PathStyle, s: Seq<char>) -> nat
    decreases s.len(),
{
    if s.len() == 0 || is_separator(style, s[0]) {
        0
    } else {
        1 + run_before_separator(style, s.skip(1))
    }
}

/// Whether `s` starts with two separators: on Windows, a UNC (`\\server\share`),
/// device (`\\.\name`) or verbatim (`\\?\...`) prefix.
pub open spec fn starts_with_two_separators(s: Seq<char>) -> bool {
    s.len() >= 2 && is_separator(PathStyle::Windows, s[0]) && is_separator(
        PathStyle::Windows,
        s[1],
    )
}

/// The length of the Windows prefix of `s` as `std::path` reads it: 2 for a
/// drive `C:`; `\\.\` and the name after it for a device; `\\`, the server
/// and, when there is one, a separator and the share for a UNC prefix; 0
/// when there is no prefix. Verbatim (`\\?\`) prefixes are read by the UNC
/// rule here.
pub open spec fn windows_prefix_len(s: Seq<char>) -> int {
    let w = PathStyle::Windows;
    if has_drive_prefix(s) {
        2
    } else if starts_with_two_separators(s) {
        if s.len() >= 4 && s[2] == '.' && is_separator(w, s[3]) {
            4 + run_before_separator(w, s.skip(4)) as int
        } else {
            let server = run_before_separator(w, s.skip(2)) as int;
            if 2 + server == s.len() {
                2 + server
            } else {
                let share = run_before_separator(w, s.skip(2 + server + 1)) as int;
                if share == 0 {
                    2 + server
                } else {
                    3 + server + share
                }
            }
        }
    } else {
        0
    }
}

/// `PathBuf::join(x)` onto `base` under the conventions of `style`.
///
/// On Unix an absolute `x` replaces `base`; otherwise `x` is appended, with
/// a `/` between unless `base` is empty or already ends in `/`.
///
/// On Windows an `x` that starts with a prefix (a drive, or two separators)
/// replaces `base`; an `x` that starts with one separator replaces all of
/// `base` but its prefix; otherwise `x` is appended, with a `\` between
/// unless `base` is empty, ends in a separator, or is a bare drive `C:`.
pub open spec fn path_join(style: PathStyle, base: Seq<char>, x: Seq<char>) -> Seq<char> {
    if style == PathStyle::Unix {
        if x.len() > 0 && x[0] == '/' {
            x
        } else if base.len() == 0 || base.last() == '/' {
            base + x
        } else {
            base.push('/') + x
        }
    } else {
        if has_drive_prefix(x) || starts_with_two_separators(x) {
            x
        } else if x.len() > 0 && is_separator(style, x[0]) {
            base.take(windows_prefix_len(base)) + x
        } else if base.len() == 0 || is_separator(style, base.last()) || is_bare_drive(base) {
            base + x
        } else {
            base.push('\\') + x
        }
    }
}

proof fn lemma_run_before_separator_bound(style: PathStyle, s: Seq<char>)
    ensures
        run_before_separator(style, s) <= s.len(),
    decreases s.len(),
{
    if s.len() > 0 && !is_separator(style, s[0]) {
        lemma_run_before_separator_bound(style, s.skip(1));
    }
}

/// The number of characters of `s` from `start` on before the next
/// separator.
fn run_before_separator_from(style: PathStyle, s: &str, start: usize) -> (n: usize)
    requires
        start <= s@.len(),
    ensures
        n == run_before_separator(style, s@.skip(start as int)),
        start + n <= s@.len(),
{
    let len = s.unicode_len();
    let mut i = start;
    proof {
        lemma_run_before_separator_bound(style, s@.skip(start as int));
    }
    while i < len && !is_separator_char(style, s.get_char(i))
        invariant
            start <= i <= len,
            len == s@.len(),
            run_before_separator(style, s@.skip(start as int)) == (i - start)
                + run_before_separator(style, s@.skip(i as int)),
        decreases len - i,
    {
        proof {
            assert(s@.skip(i as int).skip(1) =~= s@.skip(i + 1));
            assert(s@.skip(i as int)[0] == s@[i as int]);
        }
        i = i + 1;
    }
    proof {
        if i < len {
            assert(s@.skip(i as int)[0] == s@[i as int]);
        }
    }
    i - start
}

/// [`windows_prefix_len`] of `s`.
fn windows_prefix_length(s: &str) -> (n: usize)
    ensures
        n == windows_prefix_len(s@),
        n <= s@.len(),
{
    let w = PathStyle::Windows;
    let len = s.unicode_len();
    proof {
        assert(s@.subrange(0, len as int) =~= s@);
    }
    if drive_prefix_at(s, 0, len) {
        return 2;
    }
    if len >= 2 && is_separator_char(w, s.get_char(0)) && is_separator_char(w, s.get_char(1)) {
        if len >= 4 && s.get_char(2) == '.' && is_separator_char(w, s.get_char(3)) {
            let name = run_before_separator_from(w, s, 4);
            return 4 + name;
        }
        let server = run_before_separator_from(w, s, 2);
        if 2 + server == len {
            return 2 + server;
        }
        let share = run_before_separator_from(w, s, 2 + server + 1);
        if share == 0 {
            2 + server
        } else {
            3 + server + share
        }
    } else {
        0
    }
}

/// Joins `x` onto `base` as `PathBuf::join` does under the conventions of
/// `style`.
pub fn join_path(style: PathStyle, base: &str, x: &str) -> (r: String)
    ensures
        r@ == path_join(style, base@, x@),
{
    let xl = x.unicode_len();
    let bl = base.unicode_len();
    match style {
        PathStyle::Unix => {
            if xl > 0 && x.get_char(0) == '/' {
                return String::from_str(x);
            }
            let mut r = String::from_str(base);
            if bl > 0 && base.get_char(bl - 1) != '/' {
                proof {
                    reveal_strlit("/");
                }
                r.append("/");
            }
            r.append(x);
            r
        },
        PathStyle::Windows => {
            let w = PathStyle::Windows;
            proof {
                assert(x@.subrange(0, xl as int) =~= x@);
                assert(base@.subrange(0, bl as int) =~= base@);
            }
            if drive_prefix_at(x, 0, xl) || (xl >= 2 && is_separator_char(w, x.get_char(0))
                && is_separator_char(w, x.get_char(1))) {
                return String::from_str(x);
            }
            if xl > 0 && is_separator_char(w, x.get_char(0)) {
                let keep = windows_prefix_length(base);
                let mut r = String::from_str(base.substring_char(0, keep));
                r.append(x);
                proof {
                    assert(base@.subrange(0, keep as int) =~= base@.take(keep as int));
                }
                return r;
            }
            let mut r = String::from_str(base);
            let bare_drive = bl == 2 && drive_prefix_at(base, 0, bl);
            if bl > 0 && !is_separator_char(w, base.get_char(bl - 1)) && !bare_drive {
                proof {
                    reveal_strlit("\\");
                }
                r.append("\\");
                assert("\\"@ =~= seq!['\\']);
            }
            r.append(x);
            r
        },
    }
}

/// The stored relative path of a property: `{city}/{name}`.
pub open spec fn relative_folder_path(city: Seq<char>, name: Seq<char>) -> Seq<char> {
    city.push('/') + name
}

/// The stored relative path of a property: `{city}/{name}`.
pub fn get_relative_folder_path(city: &str, name: &str) -> (r: String)
    ensures
        r@ == relative_folder_path(city@, name@),
{
    let mut r = String::from_str(city);
    proof {
        reveal_strlit("/");
    }
    r.append("/");
    r.append(name);
    r
}

/// Pushes every `/`-separated part of `folder_path` in turn onto an empty
/// path, empty parts included, as building a `PathBuf` part by part does.
pub open spec fn native_folder_path(style: PathStyle, folder_path: Seq<char>) -> Seq<char> {
    push_parts(style, Seq::<char>::empty(), crate::paths::split_path(folder_path))
}

/// Pushes all `parts` in order onto `p`.
pub open spec fn push_parts(style: PathStyle, p: Seq<char>, parts: Seq<Seq<char>>) -> Seq<char>
    decreases parts.len(),
{
    if parts.len() == 0 {
        p
    } else {
        path_join(style, push_parts(style, p, parts.drop_last()), parts.last())
    }
}

/// Rebuilds a stored `folder_path` (always `/`-separated) part by part under
/// the conventions of `style`, as the original builds a `PathBuf` from it.
pub fn folder_path_to_native(style: PathStyle, folder_path: &str) -> (r: String)
    ensures
        r@ == native_folder_path(style, folder_path@),
{
    let n = folder_path.unicode_len();
    let ghost s = folder_path@;
    let mut result = String::new();
    let mut start: usize = 0;
    let mut i: usize = 0;
    proof {
        assert(s.take(0) =~= Seq::<char>::empty());
        assert(s.subrange(0, 0) =~= Seq::<char>::empty());
        assert(crate::paths::split_path(Seq::<char>::empty()).drop_last()
            =~= Seq::<Seq<char>>::empty());
    }
    while i < n
        invariant
            n == s.len(),
            s == folder_path@,
            start <= i <= n,
            crate::paths::split_path(s.take(i as int)).len() >= 1,
            crate::paths::split_path(s.take(i as int)).last() == s.subrange(start as int, i as int),
            result@ == push_parts(
                style,
                Seq::<char>::empty(),
                crate::paths::split_path(s.take(i as int)).drop_last(),
            ),
        decreases n - i,
    {
        let ghost prev = crate::paths::split_path(s.take(i as int));
        proof {
            assert(s.take(i + 1).drop_last() =~= s.take(i as int));
            assert(s.take(i + 1).last() == s[i as int]);
        }
        let c = folder_path.get_char(i);
        if c == '/' {
            result = join_path(style, result.as_str(), folder_path.substring_char(start, i));
            proof {
                let next = crate::paths::split_path(s.take(i + 1));
                assert(next.drop_last() =~= prev);
                assert(s.subrange(i + 1, i + 1) =~= Seq::<char>::empty());
            }
            start = i + 1;
        } else {
            proof {
                let next = crate::paths::split_path(s.take(i + 1));
                assert(next.drop_last() =~= prev.drop_last());
                assert(s.subrange(start as int, i + 1) =~= s.subrange(start as int, i as int).push(
                    c,
                ));
            }
        }
        i = i + 1;
    }
    proof {
        assert(s.take(n as int) =~= s);
    }
    join_path(style, result.as_str(), folder_path.substring_char(start, n))
}

/// The full path of a stored property: its status folder joined with its
/// relative `folder_path`.
pub fn get_property_base_path(style: PathStyle, folders: &StatusFolders, folder_path: &str, status: &str) -> (r:
    Result<String, StatusPathError>)
    ensures
        match r {
            Ok(p) => base_path_for(*folders, status@) matches Some(b) && p@ == path_join(
                style,
                b,
                native_folder_path(style, folder_path@),
            ),
            Err(e) => base_path_for(*folders, status@) is None,
        },
{
    let base = get_base_path_for_status(folders, status)?;
    let rel = folder_path_to_native(style, folder_path);
    Ok(join_path(style, base.as_str(), rel.as_str()))
}

/// The full path of a property given by city and folder name: its status
/// folder joined with the city and then the name.
pub fn construct_property_path_from_parts(
    style: PathStyle,
    folders: &StatusFolders,
    status: &str,
    city: &str,
    name: &str,
) -> (r: Result<String, StatusPathError>)
    ensures
        match r {
            Ok(p) => base_path_for(*folders, status@) matches Some(b) && p@ == path_join(
                style,
                path_join(style, b, city@),
                name@,
            ),
            Err(e) => base_path_for(*folders, status@) is None,
        },
{
    let base = get_base_path_for_status(folders, status)?;
    let with_city = join_path(style, base.as_str(), city);
    Ok(join_path(style, with_city.as_str(), name))
}

} // verus!
