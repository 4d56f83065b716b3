//! Which thumbnails the property list shows: per property, the images of
//! its folder in stem order, the first few of them, and where their cached
//! thumbnails live.

use vstd::prelude::*;
use crate::paths::PathStyle;
use crate::files::{
    file_stem, file_stem_of, has_listed_extension, is_thumbnail_source_name, list_thumbnail_dir,
    cache_safe_name, thumbnail_file_name,
};
use crate::folders::{join_path, path_join};
use crate::sort::{is_stable_order, stable_order_by_keys, texts};

verus! {

/// Request item for batch thumbnail path resolution.
#[derive(Debug)]
pub struct ThumbnailBatchRequest {
    pub folder_path: String,
    pub status: String,
    pub limit: Option<usize>,
}

/// Result item from batch thumbnail path resolution.
#[derive(Debug)]
pub struct ThumbnailBatchResult {
    pub folder_path: String,
    pub total_count: usize,
    pub paths: Vec<String>,
}

/// The number of thumbnails shown per property when the request gives none.
pub const DEFAULT_THUMBNAIL_LIMIT: usize = 6;

/// One thumbnail to resolve: the source image file name and the path of its
/// cached thumbnail.
#[derive(Debug)]
pub struct ThumbnailJob {
    pub source_name: String,
    pub thumbnail_path: String,
}

/// The thumbnails to resolve for one property.
#[derive(Debug)]
pub struct ThumbnailBatchPlan {
    pub folder_path: String,
    /// How many images the folder holds.
    pub total_count: usize,
    /// The first `limit` of them in stem order.
    pub jobs: Vec<ThumbnailJob>,
}

/// The thumbnail sources among `names`: those with an image extension.
pub open spec fn thumbnail_sources(names: Seq<Seq<char>>) -> Seq<Seq<char>> {
    names.filter(|n: Seq<char>| has_listed_extension(n, true, true))
}

/// Keeps the names that get thumbnails, in order.
pub fn filter_thumbnail_sources(names: &[String]) -> (r: Vec<String>)
    ensures
        texts(r@) == thumbnail_sources(texts(names@)),
{
    let mut out: Vec<String> = Vec::new();
    let mut i: usize = 0;
    proof {
        assert(texts(names@.take(0)) =~= Seq::<Seq<char>>::empty());
        reveal_with_fuel(Seq::filter, 1);
    }
    while i < names.len()
        invariant
            i <= names@.len(),
            texts(out@) == thumbnail_sources(texts(names@.take(i as int))),
        decreases names@.len() - i,
    {
        proof {
            reveal_with_fuel(Seq::filter, 1);
            assert(texts(names@.take(i + 1)).drop_last() =~= texts(names@.take(i as int)));
            assert(texts(names@.take(i + 1)).last() == names@[i as int]@);
        }
        if is_thumbnail_source_name(names[i].as_str()) {
            out.push(names[i].clone());
            assert(texts(out@) =~= texts(out@).drop_last().push(names@[i as int]@));
        }
        i = i + 1;
    }
    assert(names@.take(names@.len() as int) =~= names@);
    out
}

/// Plans the list thumbnails of one property whose folder holds the files
/// `names` (in listing order): the image files, stably ordered by stem, the
/// first `limit` of them (6 when none is given), each with its thumbnail at
/// `{app_data}/thumbnails/{folder}/{stem}.jpg`.
pub fn plan_thumbnail_batch(style: PathStyle, app_data: &str, request: &ThumbnailBatchRequest, names: &[String]) -> (r:
    ThumbnailBatchPlan)
    ensures
        r.folder_path@ == request.folder_path@,
        r.total_count == thumbnail_sources(texts(names@)).len(),
        ({
            let sources = thumbnail_sources(texts(names@));
            let limit = match request.limit {
                Some(l) => l as int,
                None => DEFAULT_THUMBNAIL_LIMIT as int,
            };
            let stems = sources.map_values(|n: Seq<char>| file_stem_of(n));
            exists|order: Seq<usize>|
                {
                    &&& #[trigger] is_stable_order(stems, order)
                    &&& r.jobs@.len() == if limit < sources.len() {
                        limit
                    } else {
                        sources.len() as int
                    }
                    &&& forall|j: int|
                        0 <= j < r.jobs@.len() ==> {
                            &&& (#[trigger] r.jobs@[j]).source_name@ == sources[order[j] as int]
                            &&& r.jobs@[j].thumbnail_path@ == path_join(style, 
                                path_join(style, 
                                    path_join(style, app_data@, "thumbnails"@),
                                    cache_safe_name(request.folder_path@),
                                ),
                                file_stem_of(sources[order[j] as int]) + ".jpg"@,
                            )
                        }
                }
        }),
{
    let sources = filter_thumbnail_sources(names);
    let ghost src = texts(sources@);
    let mut stems: Vec<String> = Vec::new();
    let mut i: usize = 0;
    while i < sources.len()
        invariant
            i <= sources@.len(),
            src == texts(sources@),
            stems@.len() == i,
            forall|j: int| 0 <= j < i ==> (#[trigger] stems@[j])@ == file_stem_of(src[j]),
        decreases sources@.len() - i,
    {
        stems.push(file_stem(sources[i].as_str()));
        i = i + 1;
    }
    let ghost stem_texts = src.map_values(|n: Seq<char>| file_stem_of(n));
    assert(texts(stems@) =~= stem_texts);
    let order = stable_order_by_keys(stems.as_slice());
    let limit = match request.limit {
        Some(l) => l,
        None => DEFAULT_THUMBNAIL_LIMIT,
    };
    let take = if limit < sources.len() {
        limit
    } else {
        sources.len()
    };
    let dir = list_thumbnail_dir(style, app_data, request.folder_path.as_str());
    let mut jobs: Vec<ThumbnailJob> = Vec::new();
    let mut k: usize = 0;
    while k < take
        invariant
            take <= sources@.len(),
            src == texts(sources@),
            is_stable_order(stem_texts, order@),
            stem_texts.len() == sources@.len(),
            dir@ == path_join(style, path_join(style, app_data@, "thumbnails"@), cache_safe_name(request.folder_path@)),
            k <= take,
            jobs@.len() == k,
            forall|j: int|
                0 <= j < k ==> {
                    &&& (#[trigger] jobs@[j]).source_name@ == src[order@[j] as int]
                    &&& jobs@[j].thumbnail_path@ == path_join(style, 
                        dir@,
                        file_stem_of(src[order@[j] as int]) + ".jpg"@,
                    )
                },
        decreases take - k,
    {
        let idx = order[k];
        let source = &sources[idx];
        let thumb = thumbnail_file_name(source.as_str());
        let path = join_path(style, dir.as_str(), thumb.as_str());
        jobs.push(ThumbnailJob { source_name: source.clone(), thumbnail_path: path });
        k = k + 1;
    }
    assert(is_stable_order(stem_texts, order@));
    ThumbnailBatchPlan { folder_path: request.folder_path.clone(), total_count: sources.len(), jobs }
}

} // verus!
