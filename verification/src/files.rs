//! Image file names: extensions and stems as `std::path::Path` reads them,
//! which files each listing shows, the format a file is saved in, and the
//! names of cached thumbnails.

use vstd::prelude::*;
use crate::paths::PathStyle;
use crate::folders::path_join;
use crate::numbers::{decimal, format_decimal};
use crate::text::{ascii_lowercase, lowercase_of, replace_char, replace_char_with, str_equals, substring, to_lowercase};

verus! {

/// The index of the last `.` before position `k`, or -1.
pub open spec fn last_dot(s: Seq<char>, k: int) -> int
    decreases k,
{
    if k <= 0 || k > s.len() {
        -1
    } else if s[k - 1] == '.' {
        k - 1
    } else {
        last_dot(s, k - 1)
    }
}

/// `Path::extension` of a file name: the text after the last `.`, unless
/// there is no `.`, the only `.` starts the name, or the name is `..`.
pub open spec fn file_extension_of(name: Seq<char>) -> Option<Seq<char>> {
    if name == seq!['.', '.'] {
        None
    } else if last_dot(name, name.len() as int) <= 0 {
        None
    } else {
        Some(name.skip(last_dot(name, name.len() as int) + 1))
    }
}

/// `Path::file_stem` of a file name: the text before the last `.`, or the
/// whole name where [`file_extension_of`] finds no extension.
pub open spec fn file_stem_of(name: Seq<char>) -> Seq<char> {
    if name == seq!['.', '.'] {
        name
    } else if last_dot(name, name.len() as int) <= 0 {
        name
    } else {
        name.take(last_dot(name, name.len() as int))
    }
}

proof fn lemma_last_dot_bounds(s: Seq<char>, k: int)
    ensures
        -1 <= last_dot(s, k) < s.len(),
        last_dot(s, k) >= 0 ==> s[last_dot(s, k)] == '.',
    decreases k,
{
    if k > 0 && k <= s.len() && s[k - 1] != '.' {
        lemma_last_dot_bounds(s, k - 1);
    }
}

/// Finds the last `.` of `name`, as a position or -1.
fn find_last_dot(name: &str) -> (r: (bool, usize))
    ensures
        r.0 ==> r.1 as int == last_dot(name@, name@.len() as int),
        !r.0 ==> last_dot(name@, name@.len() as int) == -1,
{
    let n = name.unicode_len();
    let mut k: usize = n;
    while k > 0
        invariant
            k <= n == name@.len(),
            last_dot(name@, n as int) == last_dot(name@, k as int),
        decreases k,
    {
        if name.get_char(k - 1) == '.' {
            return (true, k - 1);
        }
        k = k - 1;
    }
    (false, 0)
}

/// Whether `name` is `..`.
fn is_dot_dot(name: &str) -> (b: bool)
    ensures
        b == (name@ == seq!['.', '.']),
{
    proof {
        reveal_strlit("..");
    }
    assert(".."@ =~= seq!['.', '.']);
    str_equals(name, "..")
}

/// `Path::extension` of a file name.
pub fn file_extension(name: &str) -> (r: Option<String>)
    ensures
        match r {
            Some(e) => file_extension_of(name@) == Some(e@),
            None => file_extension_of(name@) is None,
        },
{
    if is_dot_dot(name) {
        return None;
    }
    let (found, k) = find_last_dot(name);
    proof {
        lemma_last_dot_bounds(name@, name@.len() as int);
    }
    if !found || k == 0 {
        return None;
    }
    let n = name.unicode_len();
    let e = substring(name, k + 1, n);
    assert(e@ =~= name@.skip(k + 1));
    Some(e)
}

/// `Path::file_stem` of a file name.
pub fn file_stem(name: &str) -> (r: String)
    ensures
        r@ == file_stem_of(name@),
{
    if is_dot_dot(name) {
        return String::from_str(name);
    }
    let (found, k) = find_last_dot(name);
    proof {
        lemma_last_dot_bounds(name@, name@.len() as int);
    }
    if !found || k == 0 {
        return String::from_str(name);
    }
    let r = substring(name, 0, k);
    assert(r@ =~= name@.take(k as int));
    r
}

/// The extensions (lower-cased) that the listings know as images.
pub open spec fn is_listed_extension(e: Seq<char>, with_heic: bool, with_webp: bool) -> bool {
    ||| e == "jpg"@
    ||| e == "jpeg"@
    ||| e == "png"@
    ||| e == "bmp"@
    ||| e == "gif"@
    ||| (with_heic && e == "heic"@)
    ||| (with_webp && e == "webp"@)
}

fn listed_extension(e: &str, with_heic: bool, with_webp: bool) -> (b: bool)
    ensures
        b == is_listed_extension(e@, with_heic, with_webp),
{
    str_equals(e, "jpg") || str_equals(e, "jpeg") || str_equals(e, "png") || str_equals(e, "bmp")
        || str_equals(e, "gif") || (with_heic && str_equals(e, "heic")) || (with_webp
        && str_equals(e, "webp"))
}

/// Whether a file name has one of the listed image extensions, compared
/// lower-cased.
pub open spec fn has_listed_extension(name: Seq<char>, with_heic: bool, with_webp: bool) -> bool {
    match file_extension_of(name) {
        Some(e) => is_listed_extension(lowercase_of(e), with_heic, with_webp),
        None => false,
    }
}

/// Whether std's lower-casing of the extension of `name`, where that
/// extension is ASCII, is the ASCII one (what a call of `str::to_lowercase`
/// on it shows).
pub open spec fn ascii_extension_lowercased(name: Seq<char>) -> bool {
    match file_extension_of(name) {
        Some(e) => (forall|i: int| 0 <= i < e.len() ==> (#[trigger] e[i] as u32) < 0x80)
            ==> lowercase_of(e) == ascii_lowercase(e),
        None => true,
    }
}

fn listed_image(name: &str, with_heic: bool, with_webp: bool) -> (b: bool)
    ensures
        b == has_listed_extension(name@, with_heic, with_webp),
        ascii_extension_lowercased(name@),
{
    match file_extension(name) {
        Some(e) => {
            let lower = to_lowercase(e.as_str());
            listed_extension(lower.as_str(), with_heic, with_webp)
        },
        None => false,
    }
}

/// Whether a file in a property folder is an original image: `jpg`,
/// `jpeg`, `png`, `bmp`, `gif` or `heic`, in any case.
pub fn is_original_image_name(name: &str) -> (b: bool)
    ensures
        b == has_listed_extension(name@, true, false),
        ascii_extension_lowercased(name@),
{
    listed_image(name, true, false)
}

/// Whether a file gets a thumbnail: the original images and `webp`.
pub fn is_thumbnail_source_name(name: &str) -> (b: bool)
    ensures
        b == has_listed_extension(name@, true, true),
        ascii_extension_lowercased(name@),
{
    listed_image(name, true, true)
}

/// Whether a file in an AGGELIA folder is an image: `jpg`, `jpeg`, `png`,
/// `bmp`, `gif` or `webp`, in any case.
pub fn is_aggelia_image_name(name: &str) -> (b: bool)
    ensures
        b == has_listed_extension(name@, false, true),
        ascii_extension_lowercased(name@),
{
    listed_image(name, false, true)
}

/// Whether a file is read with the scaled JPEG decoder: extension `jpg` or
/// `jpeg`, in any case.
pub open spec fn is_jpeg_name_spec(name: Seq<char>) -> bool {
    match file_extension_of(name) {
        Some(e) => lowercase_of(e) == "jpg"@ || lowercase_of(e) == "jpeg"@,
        None => false,
    }
}

pub fn is_jpeg_name(name: &str) -> (b: bool)
    ensures
        b == is_jpeg_name_spec(name@),
        ascii_extension_lowercased(name@),
{
    match file_extension(name) {
        Some(e) => {
            let lower = to_lowercase(e.as_str());
            str_equals(lower.as_str(), "jpg") || str_equals(lower.as_str(), "jpeg")
        },
        None => false,
    }
}

/// The formats the editor saves in.
#[derive(Clone, Copy, Debug, PartialEq, Eq, Structural)]
pub enum ImageFormatKind {
    Jpeg,
    Png,
    Gif,
    WebP,
    Bmp,
}

/// The format for a lower-cased extension; anything unknown is saved as JPEG.
pub open spec fn format_for_extension(e: Seq<char>) -> ImageFormatKind {
    if e == "png"@ {
        ImageFormatKind::Png
    } else if e == "gif"@ {
        ImageFormatKind::Gif
    } else if e == "webp"@ {
        ImageFormatKind::WebP
    } else if e == "bmp"@ {
        ImageFormatKind::Bmp
    } else {
        ImageFormatKind::Jpeg
    }
}

/// The format to save a file in, from its extension (`jpg`/`jpeg` → JPEG,
/// `png`, `gif`, `webp`, `bmp`, anything else JPEG); an error when the name
/// has no extension.
pub fn get_image_format(name: &str) -> (r: Result<ImageFormatKind, String>)
    ensures
        match r {
            Ok(f) => file_extension_of(name@) matches Some(e) && f == format_for_extension(
                lowercase_of(e),
            ),
            Err(m) => file_extension_of(name@) is None && m@
                == "Could not determine file extension"@,
        },
        ascii_extension_lowercased(name@),
{
    match file_extension(name) {
        None => Err(String::from_str("Could not determine file extension")),
        Some(e) => {
            let lower = to_lowercase(e.as_str());
            let l = lower.as_str();
            if str_equals(l, "png") {
                Ok(ImageFormatKind::Png)
            } else if str_equals(l, "gif") {
                Ok(ImageFormatKind::Gif)
            } else if str_equals(l, "webp") {
                Ok(ImageFormatKind::WebP)
            } else if str_equals(l, "bmp") {
                Ok(ImageFormatKind::Bmp)
            } else {
                Ok(ImageFormatKind::Jpeg)
            }
        },
    }
}

/// The last `.` of `stem.ext`, when `ext` holds no `.`, is the one between.
proof fn lemma_extension_of_joined(stem: Seq<char>, ext: Seq<char>)
    requires
        stem.len() > 0,
        ext.len() > 0,
        forall|i: int| 0 <= i < ext.len() ==> ext[i] != '.',
    ensures
        file_extension_of(stem + seq!['.'] + ext) == Some(ext),
{
    let name = stem + seq!['.'] + ext;
    assert forall|k: int| stem.len() < k <= name.len() implies last_dot(name, k) == stem.len() by {
        lemma_last_dot_down(name, stem.len() as int, k);
    }
    assert(name != seq!['.', '.']) by {
        if name == seq!['.', '.'] {
            assert(name.len() == 2);
            assert(name[name.len() - 1] == ext[ext.len() - 1]);
        }
    }
    assert(name.skip(stem.len() as int + 1) =~= ext);
}

/// Above the position of a `.` with no `.` after it up to `k`, the last `.`
/// before `k` is that one.
proof fn lemma_last_dot_down(name: Seq<char>, d: int, k: int)
    requires
        0 <= d < k <= name.len(),
        name[d] == '.',
        forall|i: int| d < i < name.len() ==> name[i] != '.',
    ensures
        last_dot(name, k) == d,
    decreases k,
{
    if k - 1 > d {
        lemma_last_dot_down(name, d, k - 1);
    }
}

/// Law: a file `stem.ext` is listed as an image exactly when its extension,
/// lower-cased, is `jpg`, `jpeg`, `png`, `bmp` or `gif`, or `heic` or
/// `webp` where the listing takes those (the lower-casing of the
/// extension is std's, which for ASCII text is the ASCII one).
pub proof fn law_listed_image_extensions(
    stem: Seq<char>,
    ext: Seq<char>,
    with_heic: bool,
    with_webp: bool,
)
    requires
        stem.len() > 0,
        ext.len() > 0,
        forall|i: int| 0 <= i < ext.len() ==> ext[i] != '.',
        lowercase_of(ext) == ascii_lowercase(ext),
    ensures
        has_listed_extension(stem + seq!['.'] + ext, with_heic, with_webp) <==> ({
            let l = ascii_lowercase(ext);
            ||| l == seq!['j', 'p', 'g']
            ||| l == seq!['j', 'p', 'e', 'g']
            ||| l == seq!['p', 'n', 'g']
            ||| l == seq!['b', 'm', 'p']
            ||| l == seq!['g', 'i', 'f']
            ||| (with_heic && l == seq!['h', 'e', 'i', 'c'])
            ||| (with_webp && l == seq!['w', 'e', 'b', 'p'])
        }),
{
    lemma_extension_of_joined(stem, ext);
    reveal_strlit("jpg");
    reveal_strlit("jpeg");
    reveal_strlit("png");
    reveal_strlit("bmp");
    reveal_strlit("gif");
    reveal_strlit("heic");
    reveal_strlit("webp");
    assert("jpg"@ =~= seq!['j', 'p', 'g']);
    assert("jpeg"@ =~= seq!['j', 'p', 'e', 'g']);
    assert("png"@ =~= seq!['p', 'n', 'g']);
    assert("bmp"@ =~= seq!['b', 'm', 'p']);
    assert("gif"@ =~= seq!['g', 'i', 'f']);
    assert("heic"@ =~= seq!['h', 'e', 'i', 'c']);
    assert("webp"@ =~= seq!['w', 'e', 'b', 'p']);
}

/// Law: an edited file `stem.ext` is saved in the format its extension
/// names, compared lower-cased: `png`, `gif`, `webp` and `bmp` each in its
/// own format, `jpg` and `jpeg` as JPEG, and any other extension as JPEG.
pub proof fn law_image_format_by_extension(stem: Seq<char>, ext: Seq<char>)
    requires
        stem.len() > 0,
        ext.len() > 0,
        forall|i: int| 0 <= i < ext.len() ==> ext[i] != '.',
        lowercase_of(ext) == ascii_lowercase(ext),
    ensures
        file_extension_of(stem + seq!['.'] + ext) == Some(ext),
        ({
            let l = ascii_lowercase(ext);
            let f = format_for_extension(lowercase_of(ext));
            &&& l == seq!['p', 'n', 'g'] ==> f == ImageFormatKind::Png
            &&& l == seq!['g', 'i', 'f'] ==> f == ImageFormatKind::Gif
            &&& l == seq!['w', 'e', 'b', 'p'] ==> f == ImageFormatKind::WebP
            &&& l == seq!['b', 'm', 'p'] ==> f == ImageFormatKind::Bmp
            &&& (l == seq!['j', 'p', 'g'] || l == seq!['j', 'p', 'e', 'g']) ==> f
                == ImageFormatKind::Jpeg
            &&& (l != seq!['p', 'n', 'g'] && l != seq!['g', 'i', 'f'] && l != seq![
                'w',
                'e',
                'b',
                'p',
            ] && l != seq!['b', 'm', 'p']) ==> f == ImageFormatKind::Jpeg
        }),
{
    lemma_extension_of_joined(stem, ext);
    reveal_strlit("png");
    reveal_strlit("gif");
    reveal_strlit("webp");
    reveal_strlit("bmp");
    assert("png"@ =~= seq!['p', 'n', 'g']);
    assert("gif"@ =~= seq!['g', 'i', 'f']);
    assert("webp"@ =~= seq!['w', 'e', 'b', 'p']);
    assert("bmp"@ =~= seq!['b', 'm', 'p']);
}

/// Law: a file `stem.ext` is read with the scaled JPEG decoder exactly when
/// its extension, lower-cased, is `jpg` or `jpeg`.
pub proof fn law_jpeg_names(stem: Seq<char>, ext: Seq<char>)
    requires
        stem.len() > 0,
        ext.len() > 0,
        forall|i: int| 0 <= i < ext.len() ==> ext[i] != '.',
        lowercase_of(ext) == ascii_lowercase(ext),
    ensures
        is_jpeg_name_spec(stem + seq!['.'] + ext) <==> (ascii_lowercase(ext) == seq!['j', 'p', 'g']
            || ascii_lowercase(ext) == seq!['j', 'p', 'e', 'g']),
{
    lemma_extension_of_joined(stem, ext);
    reveal_strlit("jpg");
    reveal_strlit("jpeg");
    assert("jpg"@ =~= seq!['j', 'p', 'g']);
    assert("jpeg"@ =~= seq!['j', 'p', 'e', 'g']);
}

/// The name of the cached thumbnail of an image: its stem and `.jpg`.
pub fn thumbnail_file_name(name: &str) -> (r: String)
    ensures
        r@ == file_stem_of(name@) + ".jpg"@,
{
    let mut r = file_stem(name);
    r.append(".jpg");
    r
}

/// A relative folder path made usable as one folder name: `/` and `\`
/// become `_`.
pub open spec fn cache_safe_name(s: Seq<char>) -> Seq<char> {
    replace_char(replace_char(s, '/', '_'), '\\', '_')
}

pub fn cache_safe_folder_name(s: &str) -> (r: String)
    ensures
        r@ == cache_safe_name(s@),
{
    proof {
        reveal_strlit("_");
    }
    let a = replace_char_with(s, '/', "_");
    replace_char_with(a.as_str(), '\\', "_")
}

/// The cache folder name for a subfolder: `root` for the property folder
/// itself, otherwise the subfolder made safe.
pub open spec fn cache_subfolder_name(sub: Seq<char>) -> Seq<char> {
    if sub.len() == 0 {
        "root"@
    } else {
        cache_safe_name(sub)
    }
}

/// The folder holding the gallery thumbnails of one property subfolder:
/// `{app_data}/thumbnails/gallery_{max_size}/{folder}/{subfolder}`.
pub open spec fn gallery_thumbnail_dir_spec(
    style: PathStyle,
    app_data: Seq<char>,
    max_size: u32,
    folder_path: Seq<char>,
    subfolder: Seq<char>,
) -> Seq<char> {
    path_join(style, 
        path_join(style, 
            path_join(style, path_join(style, app_data, "thumbnails"@), "gallery_"@ + decimal(max_size as nat)),
            cache_safe_name(folder_path),
        ),
        cache_subfolder_name(subfolder),
    )
}

pub fn gallery_thumbnail_dir(
    style: PathStyle,
    app_data: &str,
    max_size: u32,
    folder_path: &str,
    subfolder: &str,
) -> (r: String)
    ensures
        r@ == gallery_thumbnail_dir_spec(style, app_data@, max_size, folder_path@, subfolder@),
{
    let base = crate::folders::join_path(style, app_data, "thumbnails");
    let mut gallery = String::from_str("gallery_");
    let digits = format_decimal(max_size);
    gallery.append(digits.as_str());
    let sized = crate::folders::join_path(style, base.as_str(), gallery.as_str());
    let safe_folder = cache_safe_folder_name(folder_path);
    let with_folder = crate::folders::join_path(style, sized.as_str(), safe_folder.as_str());
    let sub = if subfolder.unicode_len() == 0 {
        String::from_str("root")
    } else {
        cache_safe_folder_name(subfolder)
    };
    crate::folders::join_path(style, with_folder.as_str(), sub.as_str())
}

/// The folder holding the small list thumbnails of a property:
/// `{app_data}/thumbnails/{folder}`.
pub fn list_thumbnail_dir(style: PathStyle, app_data: &str, folder_path: &str) -> (r: String)
    ensures
        r@ == path_join(style, path_join(style, app_data@, "thumbnails"@), cache_safe_name(folder_path@)),
{
    let base = crate::folders::join_path(style, app_data, "thumbnails");
    let safe_folder = cache_safe_folder_name(folder_path);
    crate::folders::join_path(style, base.as_str(), safe_folder.as_str())
}

} // verus!
