//! Filling a property's AGGELIA (listing) selection up to 25 images.
//!
//! The images already selected are listed in name order; copies of them,
//! taken in that order and cycling, are added under new numbered names
//! (`{n:02}.{ext}`) that continue after the highest number in use, until the
//! folder holds 25 images.

use vstd::prelude::*;
use crate::files::{file_extension, file_extension_of};
use crate::numbers::{decimal, decimal_two_digits, format_two_digits, parse_u32, parsed_u32};
use crate::sort::{sort_names, texts};
use crate::text::{lowercase_of, substring, to_lowercase};

verus! {

/// The number of images a listing selection is filled up to.
pub const AGGELIA_TARGET: usize = 25;

/// The text before the first `.` of a name (the whole name if none).
pub open spec fn before_first_dot(s: Seq<char>) -> Seq<char> {
    if exists|i: int| 0 <= i < s.len() && s[i] == '.' {
        s.take(choose|i: int| 0 <= i < s.len() && s[i] == '.' && forall|j: int| 0 <= j < i ==> s[j] != '.')
    } else {
        s
    }
}

/// The number a name starts with: its text before the first `.` read as a
/// `u32`, or 0 when that is not a number.
pub open spec fn leading_number(s: Seq<char>) -> nat {
    match parsed_u32(before_first_dot(s)) {
        Some(n) => n as nat,
        None => 0,
    }
}

/// The highest leading number among `names` (0 when there is none).
pub open spec fn max_leading_number(names: Seq<Seq<char>>) -> nat
    decreases names.len(),
{
    if names.len() == 0 {
        0
    } else {
        let prev = max_leading_number(names.drop_last());
        let n = leading_number(names.last());
        if n > prev {
            n
        } else {
            prev
        }
    }
}

/// The text before the first `.` of `s`.
fn prefix_before_dot(s: &str) -> (r: String)
    ensures
        r@ == before_first_dot(s@),
{
    let n = s.unicode_len();
    let mut i: usize = 0;
    while i < n
        invariant
            n == s@.len(),
            i <= n,
            forall|j: int| 0 <= j < i ==> s@[j] != '.',
        decreases n - i,
    {
        if s.get_char(i) == '.' {
            assert(s@[i as int] == '.');
            let r = substring(s, 0, i);
            proof {
                let k = choose|k: int| 0 <= k < s@.len() && s@[k] == '.' && forall|j: int| 0 <= j < k ==> s@[j] != '.';
                assert(k == i) by {
                    if k < i {
                    } else if k > i {
                        assert(s@[i as int] != '.');
                    }
                }
                assert(r@ =~= s@.take(i as int));
            }
            return r;
        }
        i = i + 1;
    }
    substring(s, 0, n)
}

/// The highest number that a name in `names` starts with.
pub fn max_image_number(names: &[String]) -> (r: u32)
    ensures
        r as nat == max_leading_number(texts(names@)),
{
    let mut max: u32 = 0;
    let mut i: usize = 0;
    proof {
        assert(texts(names@.take(0)) =~= Seq::<Seq<char>>::empty());
    }
    while i < names.len()
        invariant
            i <= names@.len(),
            max as nat == max_leading_number(texts(names@.take(i as int))),
        decreases names@.len() - i,
    {
        let prefix = prefix_before_dot(names[i].as_str());
        let n: u32 = match parse_u32(prefix.as_str()) {
            Some(v) => v,
            None => 0,
        };
        proof {
            assert(texts(names@.take(i + 1)).drop_last() =~= texts(names@.take(i as int)));
            assert(texts(names@.take(i + 1)).last() == names@[i as int]@);
        }
        if n > max {
            max = n;
        }
        i = i + 1;
    }
    assert(names@.take(names@.len() as int) =~= names@);
    max
}

/// One image to add: a copy of `source` saved as `new_name`.
#[derive(Debug)]
pub struct AggeliaCopy {
    pub source: String,
    pub new_name: String,
}

/// What filling the selection does.
#[derive(Debug)]
pub enum AggeliaFill {
    /// The folder already holds this many images, 25 or more; nothing to do.
    AlreadyFull(usize),
    /// The folder holds no image to copy.
    NoImages,
    /// The copies to make, in order.
    Copies(Vec<AggeliaCopy>),
}

/// The name of the `i`-th added image: the number `max + i + 1`, at least
/// two digits, then `.` and the source's extension (`jpg` when it has
/// none), lower-cased.
pub open spec fn added_name(source: Seq<char>, max: nat, i: nat) -> Seq<char> {
    decimal_two_digits(max + i + 1) + seq!['.'] + lowercase_of(
        match file_extension_of(source) {
            Some(e) => e,
            None => "jpg"@,
        },
    )
}

/// Plans filling an AGGELIA folder that holds the images `names` (in any
/// order) up to 25: already full with 25 or more, nothing to copy with
/// none, otherwise `25 - n` copies. Copy `i` takes the `(i mod n)`-th image
/// in name order and is numbered after the highest number in use.
pub fn plan_aggelia_fill(names: &[String]) -> (r: AggeliaFill)
    requires
        names@.len() < AGGELIA_TARGET ==> max_leading_number(texts(names@)) + (AGGELIA_TARGET
            - names@.len()) <= u32::MAX,
    ensures
        names@.len() >= AGGELIA_TARGET ==> r == AggeliaFill::AlreadyFull(names@.len() as usize),
        names@.len() == 0 ==> r is NoImages,
        0 < names@.len() < AGGELIA_TARGET ==> (r matches AggeliaFill::Copies(copies) && exists|
            sorted: Seq<Seq<char>>,
        | {
            &&& crate::sort::is_sorted_names(sorted)
            &&& sorted.to_multiset() == texts(names@).to_multiset()
            &&& copies@.len() == AGGELIA_TARGET - names@.len()
            &&& forall|i: int|
                0 <= i < copies@.len() ==> {
                    &&& (#[trigger] copies@[i]).source@ == sorted[i % names@.len() as int]
                    &&& copies@[i].new_name@ == added_name(
                        sorted[i % names@.len() as int],
                        max_leading_number(texts(names@)),
                        i as nat,
                    )
                }
        }),
{
    let count = names.len();
    if count >= AGGELIA_TARGET {
        return AggeliaFill::AlreadyFull(count);
    }
    if count == 0 {
        return AggeliaFill::NoImages;
    }
    let max = max_image_number(names);
    let sorted = sort_names(names);
    proof {
        vstd::seq_lib::to_multiset_len(texts(sorted@));
        vstd::seq_lib::to_multiset_len(texts(names@));
    }
    assert(sorted@.len() == count);
    let to_add = AGGELIA_TARGET - count;
    let mut copies: Vec<AggeliaCopy> = Vec::new();
    let mut i: usize = 0;
    while i < to_add
        invariant
            count == names@.len(),
            0 < count < AGGELIA_TARGET,
            to_add == AGGELIA_TARGET - count,
            sorted@.len() == count,
            max as nat == max_leading_number(texts(names@)),
            max + to_add <= u32::MAX,
            i <= to_add,
            copies@.len() == i,
            forall|j: int|
                0 <= j < i ==> {
                    &&& (#[trigger] copies@[j]).source@ == texts(sorted@)[j % count as int]
                    &&& copies@[j].new_name@ == added_name(
                        texts(sorted@)[j % count as int],
                        max as nat,
                        j as nat,
                    )
                },
        decreases to_add - i,
    {
        let source = &sorted[i % count];
        let ext = match file_extension(source.as_str()) {
            Some(e) => e,
            None => String::from_str("jpg"),
        };
        let lower = to_lowercase(ext.as_str());
        let number = max + (i as u32) + 1;
        let mut new_name = format_two_digits(number);
        proof {
            reveal_strlit(".");
        }
        new_name.append(".");
        assert("."@ =~= seq!['.']);
        new_name.append(lower.as_str());
        copies.push(AggeliaCopy { source: source.clone(), new_name });
        i = i + 1;
    }
    assert(crate::sort::is_sorted_names(texts(sorted@)));
    AggeliaFill::Copies(copies)
}

/// What filling the selection reports once the copies were attempted:
/// `Added {n} images to reach 25`, or, when some failed,
/// `Added {n} images with some errors: {errors, joined by ", "}` (still a
/// success when at least one image was added).
pub fn fill_outcome(added: usize, errors: &[String]) -> (r: crate::batch::BatchOutcome)
    ensures
        r.success == (errors@.len() == 0 || added > 0),
        errors@.len() == 0 ==> r.error is None && (r.message matches Some(m) && m@ == "Added "@
            + decimal(added as nat) + " images to reach 25"@),
        errors@.len() > 0 ==> r.message is None && (r.error matches Some(e) && e@ == "Added "@
            + decimal(added as nat) + " images with some errors: "@
            + crate::perspective::joined_with(texts(errors@), ", "@)),
{
    let digits = crate::numbers::format_count(added);
    let mut m = String::from_str("Added ");
    m.append(digits.as_str());
    if errors.len() == 0 {
        m.append(" images to reach 25");
        crate::batch::BatchOutcome { success: true, error: None, message: Some(m) }
    } else {
        m.append(" images with some errors: ");
        let joined = crate::perspective::join_strings(errors, ", ");
        proof {
            assert(errors@.map_values(|s: String| s@) =~= texts(errors@));
        }
        m.append(joined.as_str());
        crate::batch::BatchOutcome { success: added > 0, error: Some(m), message: None }
    }
}

/// The region kept when an added image is cropped: `edge_x` and `edge_y`
/// pixels (at least one) come off each side.
#[derive(Debug)]
pub struct CropBox {
    pub x: u32,
    pub y: u32,
    pub width: u32,
    pub height: u32,
}

/// Crops a `width` x `height` image by `edge_x` / `edge_y` pixels on each
/// side (taken as at least 1); refused with `Image too small to crop` when
/// fewer than 10 pixels would remain either way.
pub fn aggelia_crop(width: u32, height: u32, edge_x: u32, edge_y: u32) -> (r: Result<
    CropBox,
    String,
>)
    requires
        edge_x <= u32::MAX / 2,
        edge_y <= u32::MAX / 2,
    ensures
        ({
            let ex: int = if edge_x > 1 {
                edge_x as int
            } else {
                1
            };
            let ey: int = if edge_y > 1 {
                edge_y as int
            } else {
                1
            };
            let w: int = if width >= 2 * ex {
                width - 2 * ex
            } else {
                0
            };
            let h: int = if height >= 2 * ey {
                height - 2 * ey
            } else {
                0
            };
            match r {
                Ok(b) => w >= 10 && h >= 10 && b.x == ex && b.y == ey && b.width == w && b.height
                    == h,
                Err(m) => (w < 10 || h < 10) && m@ == "Image too small to crop"@,
            }
        }),
{
    let ex = if edge_x > 1 {
        edge_x
    } else {
        1
    };
    let ey = if edge_y > 1 {
        edge_y
    } else {
        1
    };
    let w = width.saturating_sub(ex * 2);
    let h = height.saturating_sub(ey * 2);
    if w < 10 || h < 10 {
        return Err(String::from_str("Image too small to crop"));
    }
    Ok(CropBox { x: ex, y: ey, width: w, height: h })
}

} // verus!
