//! The image listings of a property's folders: the image files, in name
//! order, and the names their cached thumbnails get.

use vstd::prelude::*;
use crate::files::{file_stem_of, thumbnail_file_name};
use crate::sort::{is_sorted_names, sort_names, texts};
use crate::thumbnails::{filter_thumbnail_sources, thumbnail_sources};

verus! {

/// The image files among `names` (`jpg`, `jpeg`, `png`, `bmp`, `gif`,
/// `heic`, `webp`, in any case), sorted by name.
pub fn sorted_image_names(names: &[String]) -> (r: Vec<String>)
    ensures
        is_sorted_names(texts(r@)),
        texts(r@).to_multiset() == thumbnail_sources(texts(names@)).to_multiset(),
{
    let images = filter_thumbnail_sources(names);
    sort_names(images.as_slice())
}

/// The thumbnail names of `names`: `{stem}.jpg`.
pub open spec fn thumbnail_names(names: Seq<Seq<char>>) -> Seq<Seq<char>> {
    names.map_values(|n: Seq<char>| file_stem_of(n) + ".jpg"@)
}

/// The thumbnails listed for a folder holding the files `names`: each
/// image's `{stem}.jpg`, sorted.
pub fn thumbnail_listing(names: &[String]) -> (r: Vec<String>)
    ensures
        is_sorted_names(texts(r@)),
        texts(r@).to_multiset() == thumbnail_names(thumbnail_sources(texts(names@))).to_multiset(),
{
    let images = filter_thumbnail_sources(names);
    let mut thumbs: Vec<String> = Vec::new();
    let mut i: usize = 0;
    while i < images.len()
        invariant
            i <= images@.len(),
            texts(thumbs@) == thumbnail_names(texts(images@).take(i as int)),
        decreases images@.len() - i,
    {
        let t = thumbnail_file_name(images[i].as_str());
        let ghost before = thumbs@;
        thumbs.push(t);
        proof {
            assert(texts(images@).take(i + 1) =~= texts(images@).take(i as int).push(
                images@[i as int]@,
            ));
            assert(texts(thumbs@) =~= texts(before).push(t@));
            assert(thumbnail_names(texts(images@).take(i + 1)) =~= thumbnail_names(
                texts(images@).take(i as int),
            ).push(file_stem_of(images@[i as int]@) + ".jpg"@));
        }
        i = i + 1;
    }
    proof {
        assert(texts(images@).take(images@.len() as int) =~= texts(images@));
    }
    sort_names(thumbs.as_slice())
}

} // verus!
