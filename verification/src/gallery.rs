//! Gallery thumbnails: which cached thumbnails are stale, where each one
//! lives, and how the work of regenerating them is shared among workers.

use vstd::prelude::*;
use crate::paths::PathStyle;
use crate::files::{file_stem_of, thumbnail_file_name};
use crate::folders::{join_path, path_join};
use crate::sort::texts;
use crate::thumbnails::{filter_thumbnail_sources, thumbnail_sources};

verus! {

/// The thumbnail size used when a request gives none.
pub const DEFAULT_GALLERY_SIZE: u32 = 400;

/// The most workers that regenerate thumbnails at once.
pub const MAX_THUMBNAIL_WORKERS: usize = 8;

/// Whether a cached thumbnail must be made again: when it is missing, when
/// either modification time cannot be read, or when the source is newer.
/// Times are nanoseconds relative to the Unix epoch.
pub open spec fn stale_spec(
    thumbnail_exists: bool,
    source_modified: Option<i128>,
    thumbnail_modified: Option<i128>,
) -> bool {
    if !thumbnail_exists {
        true
    } else {
        match (source_modified, thumbnail_modified) {
            (Some(s), Some(t)) => s > t,
            _ => true,
        }
    }
}

pub fn needs_regeneration(
    thumbnail_exists: bool,
    source_modified: Option<i128>,
    thumbnail_modified: Option<i128>,
) -> (r: bool)
    ensures
        r == stale_spec(thumbnail_exists, source_modified, thumbnail_modified),
{
    if !thumbnail_exists {
        return true;
    }
    match (source_modified, thumbnail_modified) {
        (Some(s), Some(t)) => s > t,
        _ => true,
    }
}

/// One gallery thumbnail: the source image and its cached thumbnail.
#[derive(Debug)]
pub struct GalleryJob {
    pub source_path: String,
    pub thumbnail_path: String,
}

/// The cached thumbnail of `name`: `{thumbnails_dir}/{stem}.jpg`.
pub open spec fn gallery_thumbnail_path_spec(style: PathStyle, thumbnails_dir: Seq<char>, name: Seq<char>) -> Seq<
    char,
> {
    path_join(style, thumbnails_dir, file_stem_of(name) + ".jpg"@)
}

/// Where the gallery thumbnail of `name` is cached.
pub fn gallery_thumbnail_path(style: PathStyle, thumbnails_dir: &str, name: &str) -> (r: String)
    ensures
        r@ == gallery_thumbnail_path_spec(style, thumbnails_dir@, name@),
{
    let file = thumbnail_file_name(name);
    join_path(style, thumbnails_dir, file.as_str())
}

/// The gallery jobs for the files `names` of `source_dir`: one per image
/// file, in listing order.
pub fn gallery_jobs(style: PathStyle, source_dir: &str, thumbnails_dir: &str, names: &[String]) -> (r: Vec<
    GalleryJob,
>)
    ensures
        ({
            let sources = thumbnail_sources(texts(names@));
            &&& r@.len() == sources.len()
            &&& forall|i: int|
                0 <= i < sources.len() ==> {
                    &&& (#[trigger] r@[i]).source_path@ == path_join(style, source_dir@, sources[i])
                    &&& r@[i].thumbnail_path@ == gallery_thumbnail_path_spec(style, 
                        thumbnails_dir@,
                        sources[i],
                    )
                }
        }),
{
    let images = filter_thumbnail_sources(names);
    let mut out: Vec<GalleryJob> = Vec::new();
    let mut i: usize = 0;
    while i < images.len()
        invariant
            i <= images@.len(),
            texts(images@) == thumbnail_sources(texts(names@)),
            out@.len() == i,
            forall|j: int|
                0 <= j < i ==> {
                    &&& (#[trigger] out@[j]).source_path@ == path_join(style, 
                        source_dir@,
                        texts(images@)[j],
                    )
                    &&& out@[j].thumbnail_path@ == gallery_thumbnail_path_spec(style, 
                        thumbnails_dir@,
                        texts(images@)[j],
                    )
                },
        decreases images@.len() - i,
    {
        let name = images[i].as_str();
        let source_path = join_path(style, source_dir, name);
        let thumbnail_path = gallery_thumbnail_path(style, thumbnails_dir, name);
        out.push(GalleryJob { source_path, thumbnail_path });
        i = i + 1;
    }
    out
}

/// The `i`-th of the ranges that share `count` jobs among at most
/// `max_workers` workers: ranges of `ceil(count / workers)` jobs, the last
/// one shorter.
pub open spec fn chunk_len(count: int, max_workers: int) -> int {
    let workers = if count < max_workers {
        count
    } else {
        max_workers
    };
    (count + workers - 1) / workers
}

/// Shares `count` jobs among at most `max_workers` workers: consecutive
/// ranges `[start, end)` of `ceil(count / workers)` jobs each (the last may
/// be shorter), where `workers = min(max_workers, count)`. The ranges are
/// not empty and cover `0..count` exactly once, in order.
pub fn work_chunks(count: usize, max_workers: usize) -> (r: Vec<(usize, usize)>)
    requires
        count > 0,
        max_workers > 0,
    ensures
        r@.len() >= 1,
        r@.len() <= max_workers,
        r@.len() <= count,
        r@[0].0 == 0,
        r@[r@.len() - 1].1 == count,
        forall|i: int|
            0 <= i < r@.len() ==> (#[trigger] r@[i]).0 < r@[i].1 && r@[i].0 == i * chunk_len(
                count as int,
                max_workers as int,
            ) && r@[i].1 - r@[i].0 <= chunk_len(count as int, max_workers as int),
        forall|i: int| 0 <= i < r@.len() - 1 ==> (#[trigger] r@[i]).1 == r@[i + 1].0,
{
    let workers = if count < max_workers {
        count
    } else {
        max_workers
    };
    let chunk = (count - 1) / workers + 1;
    let ghost cl = chunk_len(count as int, max_workers as int);
    assert(chunk == cl) by (nonlinear_arith)
        requires
            workers >= 1,
            count >= 1,
            chunk == (count - 1) as int / workers as int + 1,
            cl == (count + workers - 1) as int / workers as int,
    ;
    assert(chunk * workers >= count) by (nonlinear_arith)
        requires
            workers >= 1,
            count >= 1,
            chunk == (count - 1) as int / workers as int + 1,
    ;
    let mut out: Vec<(usize, usize)> = Vec::new();
    let mut i: usize = 0;
    let mut start: usize = 0;
    while i < workers && start < count
        invariant
            1 <= workers <= max_workers,
            workers <= count,
            chunk == cl,
            chunk >= 1,
            chunk * workers >= count,
            i <= workers,
            out@.len() == i,
            start == if i * chunk < count {
                i * chunk
            } else {
                count as int
            },
            i > 0 ==> out@[i - 1].1 == start,
            forall|j: int|
                0 <= j < i ==> (#[trigger] out@[j]).0 < out@[j].1 && out@[j].0 == j * cl
                    && out@[j].1 - out@[j].0 <= cl,
            forall|j: int| 0 <= j < i - 1 ==> (#[trigger] out@[j]).1 == out@[j + 1].0,
        decreases workers - i,
    {
        let end = if chunk < count - start {
            start + chunk
        } else {
            count
        };
        assert(start == i * chunk);
        out.push((start, end));
        assert((i + 1) * chunk == i * chunk + chunk) by (nonlinear_arith);
        start = end;
        i = i + 1;
    }
    proof {
        if start < count {
            assert(i == workers);
            assert(false) by (nonlinear_arith)
                requires
                    i == workers,
                    chunk * workers >= count,
                    start == if i * chunk < count {
                        i * chunk
                    } else {
                        count as int
                    },
                    start < count,
            ;
        }
        assert(out@.len() >= 1);
    }
    out
}

} // verus!
