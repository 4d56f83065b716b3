//! Opening a property's images in the system viewer: every image of the
//! folder in name order, with the image the user picked first.

use vstd::prelude::*;
use crate::components::{paths_equal, same_path};
use crate::folders::{join_path, path_join};
use crate::paths::PathStyle;
use crate::sort::{is_sorted_names, sort_names, texts};
use crate::thumbnails::{filter_thumbnail_sources, thumbnail_sources};

verus! {

/// The paths of `paths[..n]` that are not the path `selected`, in order.
pub open spec fn others(paths: Seq<Seq<char>>, selected: Seq<char>, n: int) -> Seq<Seq<char>>
    decreases n,
{
    if n <= 0 {
        Seq::<Seq<char>>::empty()
    } else {
        let prev = others(paths, selected, n - 1);
        if same_path(paths[n - 1], selected) {
            prev
        } else {
            prev.push(paths[n - 1])
        }
    }
}

/// Whether one of `paths[..n]` is the path `selected`.
pub open spec fn holds_path(paths: Seq<Seq<char>>, selected: Seq<char>, n: int) -> bool
    decreases n,
{
    if n <= 0 {
        false
    } else {
        holds_path(paths, selected, n - 1) || same_path(paths[n - 1], selected)
    }
}

/// The order in which images are opened: `selected` first when it is one
/// of `paths`, then every other path in order.
pub open spec fn open_order(paths: Seq<Seq<char>>, selected: Seq<char>) -> Seq<Seq<char>> {
    let rest = others(paths, selected, paths.len() as int);
    if holds_path(paths, selected, paths.len() as int) {
        seq![selected] + rest
    } else {
        rest
    }
}

/// The full paths of `names` in `folder`.
pub open spec fn paths_in(style: PathStyle, folder: Seq<char>, names: Seq<Seq<char>>) -> Seq<Seq<char>> {
    names.map_values(|n: Seq<char>| path_join(style, folder, n))
}

/// The images to open from `folder`, whose files are `names`: the image
/// files in name order, `{folder}/{selected}` first when it is one of them.
/// A folder without images is refused with `No images found in folder`.
pub fn image_open_order(style: PathStyle, folder: &str, names: &[String], selected: &str) -> (r: Result<
    Vec<String>,
    String,
>)
    ensures
        ({
            let sources = thumbnail_sources(texts(names@));
            match r {
                Ok(v) => sources.len() > 0 && exists|s: Seq<Seq<char>>|
                    #[trigger] is_sorted_names(s) && s.to_multiset() == sources.to_multiset()
                        && texts(v@) == open_order(
                        paths_in(style, folder@, s),
                        path_join(style, folder@, selected@),
                    ),
                Err(m) => sources.len() == 0 && m@ == "No images found in folder"@,
            }
        }),
{
    let images = filter_thumbnail_sources(names);
    if images.len() == 0 {
        return Err(String::from_str("No images found in folder"));
    }
    let sorted = sort_names(images.as_slice());
    let ghost s = texts(sorted@);
    let ghost ps = paths_in(style, folder@, s);
    let selected_path = join_path(style, folder, selected);
    let mut rest: Vec<String> = Vec::new();
    let mut found = false;
    let mut i: usize = 0;
    proof {
        assert(texts(rest@) =~= others(ps, selected_path@, 0));
    }
    while i < sorted.len()
        invariant
            i <= sorted@.len(),
            s == texts(sorted@),
            ps == paths_in(style, folder@, s),
            ps.len() == sorted@.len(),
            texts(rest@) == others(ps, selected_path@, i as int),
            found == holds_path(ps, selected_path@, i as int),
        decreases sorted@.len() - i,
    {
        let p = join_path(style, folder, sorted[i].as_str());
        proof {
            assert(ps[i as int] == p@);
        }
        if paths_equal(p.as_str(), selected_path.as_str()) {
            found = true;
        } else {
            let ghost before = rest@;
            rest.push(p);
            proof {
                assert(texts(rest@) =~= texts(before).push(ps[i as int]));
            }
        }
        i = i + 1;
    }
    let mut out: Vec<String> = Vec::new();
    if found {
        out.push(selected_path);
    }
    let ghost head = texts(out@);
    let mut k: usize = 0;
    proof {
        assert(texts(rest@).take(0) =~= Seq::<Seq<char>>::empty());
        assert(texts(out@) =~= head + texts(rest@).take(0));
    }
    while k < rest.len()
        invariant
            k <= rest@.len(),
            texts(out@) == head + texts(rest@).take(k as int),
        decreases rest@.len() - k,
    {
        let ghost before = out@;
        out.push(rest[k].clone());
        proof {
            assert(texts(rest@).take(k + 1) =~= texts(rest@).take(k as int).push(rest@[k as int]@));
            assert(texts(out@) =~= texts(before).push(rest@[k as int]@));
        }
        k = k + 1;
    }
    proof {
        assert(texts(rest@).take(rest@.len() as int) =~= texts(rest@));
        if found {
            assert(head =~= seq![selected_path@]);
        } else {
            assert(head =~= Seq::<Seq<char>>::empty());
        }
        assert(texts(out@) == open_order(ps, selected_path@));
        assert(is_sorted_names(s));
    }
    Ok(out)
}

} // verus!
