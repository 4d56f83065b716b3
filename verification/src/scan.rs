//! Importing property folders found on disk: which of the folders in a
//! status folder are new to the database, and what is stored for them.

use vstd::prelude::*;
use crate::folders::{get_relative_folder_path, relative_folder_path};
use crate::naming::{parse_folder_name, parsed_folder_name};
use crate::text::str_equals;

verus! {

/// Totals of a scan, as reported to the user.
#[derive(Debug)]
pub struct ScanResult {
    pub found_properties: usize,
    pub new_properties: usize,
    pub existing_properties: usize,
    pub errors: Vec<String>,
}

/// A property folder found on disk: `{status folder}/{city}/{folder_name}`.
#[derive(Debug)]
pub struct ScannedFolder {
    pub city: String,
    pub folder_name: String,
}

/// A property to add to the database.
#[derive(Debug)]
pub struct NewProperty {
    pub name: String,
    pub city: String,
    pub status: String,
    pub folder_path: String,
    pub code: Option<String>,
}

/// The result of classifying the folders of one status folder.
#[derive(Debug)]
pub struct ScanClassification {
    /// Every folder found.
    pub found: usize,
    /// Folders the database already tracks.
    pub existing: usize,
    /// Folders to import, in the order found.
    pub new_properties: Vec<NewProperty>,
}

/// The database key of a found folder: `{city}/{folder_name}`.
pub open spec fn scanned_key(f: ScannedFolder) -> Seq<char> {
    relative_folder_path(f.city@, f.folder_name@)
}

/// Whether `key` is one of `existing`.
pub open spec fn is_tracked(existing: Seq<String>, key: Seq<char>) -> bool {
    exists|i: int| 0 <= i < existing.len() && (#[trigger] existing[i])@ == key
}

/// The found folders that the database does not track yet, in order.
pub open spec fn untracked(folders: Seq<ScannedFolder>, existing: Seq<String>) -> Seq<
    ScannedFolder,
>
    decreases folders.len(),
{
    if folders.len() == 0 {
        Seq::empty()
    } else {
        let prev = untracked(folders.drop_last(), existing);
        if is_tracked(existing, scanned_key(folders.last())) {
            prev
        } else {
            prev.push(folders.last())
        }
    }
}

/// What is stored for a new folder: the name and code read from the folder
/// name, the city, the status and the relative folder path.
pub open spec fn new_property_for(f: ScannedFolder, status: Seq<char>, p: NewProperty) -> bool {
    &&& p.name@ == parsed_folder_name(f.folder_name@).0
    &&& match p.code {
        Some(c) => parsed_folder_name(f.folder_name@).1 == Some(c@),
        None => parsed_folder_name(f.folder_name@).1 is None,
    }
    &&& p.city@ == f.city@
    &&& p.status@ == status
    &&& p.folder_path@ == scanned_key(f)
}

/// Whether `key` is among `existing`.
pub fn contains_key(existing: &[String], key: &str) -> (b: bool)
    ensures
        b == is_tracked(existing@, key@),
{
    let mut i: usize = 0;
    while i < existing.len()
        invariant
            i <= existing@.len(),
            forall|j: int| 0 <= j < i ==> (#[trigger] existing@[j])@ != key@,
        decreases existing@.len() - i,
    {
        if str_equals(existing[i].as_str(), key) {
            return true;
        }
        i = i + 1;
    }
    false
}

/// Classifies the property folders found in one status folder against the
/// folder paths the database already holds: every folder counts as found;
/// a tracked one counts as existing; every other one becomes a new property
/// with the given status.
pub fn classify_scanned_folders(folders: &[ScannedFolder], existing: &[String], status: &str) -> (r:
    ScanClassification)
    ensures
        r.found == folders@.len(),
        r.existing + r.new_properties@.len() == folders@.len(),
        r.new_properties@.len() == untracked(folders@, existing@).len(),
        forall|i: int|
            0 <= i < r.new_properties@.len() ==> new_property_for(
                untracked(folders@, existing@)[i],
                status@,
                #[trigger] r.new_properties@[i],
            ),
{
    let mut new_properties: Vec<NewProperty> = Vec::new();
    let mut existing_count: usize = 0;
    let mut i: usize = 0;
    proof {
        assert(folders@.take(0) =~= Seq::<ScannedFolder>::empty());
    }
    while i < folders.len()
        invariant
            i <= folders@.len(),
            existing_count + new_properties@.len() == i,
            new_properties@.len() == untracked(folders@.take(i as int), existing@).len(),
            forall|k: int|
                0 <= k < new_properties@.len() ==> new_property_for(
                    untracked(folders@.take(i as int), existing@)[k],
                    status@,
                    #[trigger] new_properties@[k],
                ),
        decreases folders@.len() - i,
    {
        let f = &folders[i];
        proof {
            assert(folders@.take(i + 1).drop_last() =~= folders@.take(i as int));
            assert(folders@.take(i + 1).last() == folders@[i as int]);
        }
        let key = get_relative_folder_path(f.city.as_str(), f.folder_name.as_str());
        if contains_key(existing, key.as_str()) {
            existing_count = existing_count + 1;
        } else {
            let (name, code) = parse_folder_name(f.folder_name.as_str());
            let p = NewProperty {
                name,
                city: f.city.clone(),
                status: String::from_str(status),
                folder_path: key,
                code,
            };
            let ghost prev = untracked(folders@.take(i as int), existing@);
            new_properties.push(p);
            proof {
                let now = untracked(folders@.take(i + 1), existing@);
                assert(now == prev.push(folders@[i as int]));
                assert forall|k: int| 0 <= k < new_properties@.len() implies new_property_for(
                    now[k],
                    status@,
                    #[trigger] new_properties@[k],
                ) by {
                    if k < prev.len() {
                        assert(now[k] == prev[k]);
                    }
                }
            }
        }
        i = i + 1;
    }
    assert(folders@.take(folders@.len() as int) =~= folders@);
    ScanClassification { found: folders.len(), existing: existing_count, new_properties }
}

/// Adds the totals of one status folder to the running totals of a scan.
pub fn add_scan_totals(total: &mut ScanResult, part: ScanResult)
    requires
        old(total).found_properties + part.found_properties <= usize::MAX,
        old(total).new_properties + part.new_properties <= usize::MAX,
        old(total).existing_properties + part.existing_properties <= usize::MAX,
    ensures
        final(total).found_properties == old(total).found_properties + part.found_properties,
        final(total).new_properties == old(total).new_properties + part.new_properties,
        final(total).existing_properties == old(total).existing_properties
            + part.existing_properties,
        final(total).errors@ == old(total).errors@ + part.errors@,
{
    total.found_properties = total.found_properties + part.found_properties;
    total.new_properties = total.new_properties + part.new_properties;
    total.existing_properties = total.existing_properties + part.existing_properties;
    let mut errs = part.errors;
    total.errors.append(&mut errs);
}


/// Law: importing is idempotent. Once the keys of the folders a scan found
/// untracked are stored, scanning the same folders again finds none
/// untracked.
pub proof fn law_rescan_imports_nothing(
    folders: Seq<ScannedFolder>,
    existing: Seq<String>,
    stored: Seq<String>,
)
    requires
        forall|i: int|
            0 <= i < existing.len() ==> is_tracked(stored, #[trigger] existing[i]@),
        forall|i: int|
            0 <= i < untracked(folders, existing).len() ==> is_tracked(
                stored,
                scanned_key(#[trigger] untracked(folders, existing)[i]),
            ),
    ensures
        untracked(folders, stored).len() == 0,
    decreases folders.len(),
{
    if folders.len() > 0 {
        let prev = untracked(folders.drop_last(), existing);
        let f = folders.last();
        if is_tracked(existing, scanned_key(f)) {
            let i = choose|i: int| 0 <= i < existing.len() && (#[trigger] existing[i])@ == scanned_key(f);
            assert(is_tracked(stored, existing[i]@));
            assert(untracked(folders, existing) == prev);
        } else {
            let now = untracked(folders, existing);
            assert(now == prev.push(f));
            assert(now[now.len() - 1] == f);
            assert forall|i: int| 0 <= i < prev.len() implies is_tracked(stored, scanned_key(#[trigger] prev[i])) by {
                assert(now[i] == prev[i]);
            }
        }
        law_rescan_imports_nothing(folders.drop_last(), existing, stored);
    }
}

} // verus!
