//! Where a watermark goes on an image: one copy at an anchor (a corner, an
//! edge's middle or the centre) moved by an offset and kept inside the
//! image, or copies tiled across the whole image.

use vstd::prelude::*;
use crate::text::str_equals;

verus! {

/// The nine anchors; any other name means the centre.
#[derive(Clone, Copy, Debug, PartialEq, Eq, Structural)]
pub enum Anchor {
    TopLeft,
    TopCenter,
    TopRight,
    CenterLeft,
    Center,
    CenterRight,
    BottomLeft,
    BottomCenter,
    BottomRight,
}

/// The anchor named `name` (`top-left`, `center`, `bottom-right`, ...);
/// the centre for any other name.
pub open spec fn anchor_named(name: Seq<char>) -> Anchor {
    if name == "top-left"@ {
        Anchor::TopLeft
    } else if name == "top-center"@ {
        Anchor::TopCenter
    } else if name == "top-right"@ {
        Anchor::TopRight
    } else if name == "center-left"@ {
        Anchor::CenterLeft
    } else if name == "center-right"@ {
        Anchor::CenterRight
    } else if name == "bottom-left"@ {
        Anchor::BottomLeft
    } else if name == "bottom-center"@ {
        Anchor::BottomCenter
    } else if name == "bottom-right"@ {
        Anchor::BottomRight
    } else {
        Anchor::Center
    }
}

pub fn parse_anchor(name: &str) -> (r: Anchor)
    ensures
        r == anchor_named(name@),
{
    if str_equals(name, "top-left") {
        Anchor::TopLeft
    } else if str_equals(name, "top-center") {
        Anchor::TopCenter
    } else if str_equals(name, "top-right") {
        Anchor::TopRight
    } else if str_equals(name, "center-left") {
        Anchor::CenterLeft
    } else if str_equals(name, "center-right") {
        Anchor::CenterRight
    } else if str_equals(name, "bottom-left") {
        Anchor::BottomLeft
    } else if str_equals(name, "bottom-center") {
        Anchor::BottomCenter
    } else if str_equals(name, "bottom-right") {
        Anchor::BottomRight
    } else {
        Anchor::Center
    }
}

/// The position along one axis before the offset: the start, the middle
/// (rounded down) or the end of the free space `free`.
pub open spec fn axis_start(free: int, at: int) -> int {
    if at == 0 {
        0
    } else if at == 1 {
        free / 2
    } else {
        free
    }
}

/// Where along x (0 start, 1 middle, 2 end) an anchor puts the mark.
pub open spec fn anchor_column(a: Anchor) -> int {
    match a {
        Anchor::TopLeft | Anchor::CenterLeft | Anchor::BottomLeft => 0,
        Anchor::TopCenter | Anchor::Center | Anchor::BottomCenter => 1,
        _ => 2,
    }
}

/// Where along y (0 start, 1 middle, 2 end) an anchor puts the mark.
pub open spec fn anchor_row(a: Anchor) -> int {
    match a {
        Anchor::TopLeft | Anchor::TopCenter | Anchor::TopRight => 0,
        Anchor::CenterLeft | Anchor::Center | Anchor::CenterRight => 1,
        _ => 2,
    }
}

/// The anchored position moved by `offset` and kept within `0..=free`.
pub open spec fn placed(free: int, at: int, offset: int) -> int {
    let p = axis_start(free, at) + offset;
    if p < 0 {
        0
    } else if p > free {
        free
    } else {
        p
    }
}

fn place_axis(base: u32, mark: u32, at: u8, offset: i32) -> (r: u32)
    requires
        mark <= base <= i32::MAX,
        at <= 2,
        i32::MIN <= axis_start(base - mark, at as int) + offset <= i32::MAX,
    ensures
        r == placed(base - mark, at as int, offset as int),
{
    let free = base - mark;
    let start = if at == 0 {
        0
    } else if at == 1 {
        free / 2
    } else {
        free
    };
    let p = start as i32 + offset;
    let hi = free as i32;
    if p < 0 {
        0
    } else if p > hi {
        free
    } else {
        p as u32
    }
}

/// Law: with no offset, the anchor's horizontal word decides the column
/// (`left` at the left edge, `center` in the middle, rounded down, `right`
/// against the right edge) and its vertical word the row (`top`, `center`,
/// `bottom`), for a mark that fits in the image.
pub proof fn law_anchor_places_the_mark(
    anchor: Anchor,
    base_width: int,
    base_height: int,
    mark_width: int,
    mark_height: int,
)
    requires
        0 <= mark_width <= base_width,
        0 <= mark_height <= base_height,
    ensures
        ({
            let x = placed(base_width - mark_width, anchor_column(anchor), 0);
            let y = placed(base_height - mark_height, anchor_row(anchor), 0);
            &&& (anchor == Anchor::TopLeft || anchor == Anchor::CenterLeft || anchor
                == Anchor::BottomLeft) ==> x == 0
            &&& (anchor == Anchor::TopCenter || anchor == Anchor::Center || anchor
                == Anchor::BottomCenter) ==> x == (base_width - mark_width) / 2
            &&& (anchor == Anchor::TopRight || anchor == Anchor::CenterRight || anchor
                == Anchor::BottomRight) ==> x == base_width - mark_width
            &&& (anchor == Anchor::TopLeft || anchor == Anchor::TopCenter || anchor
                == Anchor::TopRight) ==> y == 0
            &&& (anchor == Anchor::CenterLeft || anchor == Anchor::Center || anchor
                == Anchor::CenterRight) ==> y == (base_height - mark_height) / 2
            &&& (anchor == Anchor::BottomLeft || anchor == Anchor::BottomCenter || anchor
                == Anchor::BottomRight) ==> y == base_height - mark_height
        }),
{
}

/// Law: whatever the anchor and offsets, the mark stays inside the image,
/// and an offset that keeps it inside moves it by exactly that much from
/// where the anchor puts it.
pub proof fn law_offset_moves_the_mark(
    anchor: Anchor,
    base_width: int,
    mark_width: int,
    offset: int,
)
    requires
        0 <= mark_width <= base_width,
    ensures
        0 <= placed(base_width - mark_width, anchor_column(anchor), offset) <= base_width
            - mark_width,
        ({
            let start = placed(base_width - mark_width, anchor_column(anchor), 0);
            0 <= start + offset <= base_width - mark_width ==> placed(
                base_width - mark_width,
                anchor_column(anchor),
                offset,
            ) == start + offset
        }),
{
}

/// The top-left corner of a single `mark_width` x `mark_height` watermark
/// on a `base_width` x `base_height` image: at `anchor`, moved by the
/// offsets, kept inside the image.
pub fn watermark_position(
    anchor: Anchor,
    base_width: u32,
    base_height: u32,
    mark_width: u32,
    mark_height: u32,
    offset_x: i32,
    offset_y: i32,
) -> (r: (u32, u32))
    requires
        mark_width <= base_width <= i32::MAX,
        mark_height <= base_height <= i32::MAX,
        i32::MIN <= axis_start(base_width - mark_width, anchor_column(anchor)) + offset_x
            <= i32::MAX,
        i32::MIN <= axis_start(base_height - mark_height, anchor_row(anchor)) + offset_y
            <= i32::MAX,
    ensures
        r.0 == placed(base_width - mark_width, anchor_column(anchor), offset_x as int),
        r.1 == placed(base_height - mark_height, anchor_row(anchor), offset_y as int),
{
    let column: u8 = match anchor {
        Anchor::TopLeft | Anchor::CenterLeft | Anchor::BottomLeft => 0,
        Anchor::TopCenter | Anchor::Center | Anchor::BottomCenter => 1,
        _ => 2,
    };
    let row: u8 = match anchor {
        Anchor::TopLeft | Anchor::TopCenter | Anchor::TopRight => 0,
        Anchor::CenterLeft | Anchor::Center | Anchor::CenterRight => 1,
        _ => 2,
    };
    (
        place_axis(base_width, mark_width, column, offset_x),
        place_axis(base_height, mark_height, row, offset_y),
    )
}

/// The starts of the tiles along one axis of length `base`: `0, step,
/// 2 * step, ...` while below `base`.
pub open spec fn tile_starts(base: int, step: int, from: int) -> Seq<int>
    decreases (if from < base {
        base - from
    } else {
        0
    }),
{
    if step <= 0 || from >= base {
        Seq::<int>::empty()
    } else {
        seq![from] + tile_starts(base, step, from + step)
    }
}

/// The offset's size, as the gap between tiles.
pub open spec fn gap(offset: int) -> int {
    if offset < 0 {
        -offset
    } else {
        offset
    }
}

fn axis_tiles(base: u32, step: u32) -> (r: Vec<u32>)
    requires
        step > 0,
        base + step <= u32::MAX,
    ensures
        r@.map_values(|x: u32| x as int) == tile_starts(base as int, step as int, 0),
{
    let mut out: Vec<u32> = Vec::new();
    let mut x: u32 = 0;
    proof {
        assert(out@.map_values(|v: u32| v as int) + tile_starts(base as int, step as int, 0)
            =~= tile_starts(base as int, step as int, 0));
    }
    while x < base
        invariant
            step > 0,
            base + step <= u32::MAX,
            x <= base + step,
            out@.map_values(|v: u32| v as int) + tile_starts(base as int, step as int, x as int)
                == tile_starts(base as int, step as int, 0),
        decreases base + step - x,
    {
        let ghost before = out@;
        out.push(x);
        proof {
            assert(out@.map_values(|v: u32| v as int) =~= before.map_values(|v: u32| v as int).push(
                x as int,
            ));
            assert(before.map_values(|v: u32| v as int) + tile_starts(base as int, step as int, x as int)
                =~= out@.map_values(|v: u32| v as int) + tile_starts(
                base as int,
                step as int,
                x + step,
            ));
        }
        x = x + step;
    }
    proof {
        assert(out@.map_values(|v: u32| v as int) + tile_starts(base as int, step as int, x as int)
            =~= out@.map_values(|v: u32| v as int));
    }
    out
}

/// `|v|` (`i32::unsigned_abs`).
fn magnitude(v: i32) -> (r: u32)
    ensures
        r == gap(v as int),
{
    if v < 0 {
        (-(v as i64)) as u32
    } else {
        v as u32
    }
}

/// Tiling a watermark: rows start at `0, h + |offset_y|, ...` below
/// `base_height`, and in each row copies start at `0, w + |offset_x|, ...`
/// below `base_width`. Gives the row starts and the column starts.
pub fn tile_positions(
    base_width: u32,
    base_height: u32,
    mark_width: u32,
    mark_height: u32,
    offset_x: i32,
    offset_y: i32,
) -> (r: (Vec<u32>, Vec<u32>))
    requires
        mark_width + gap(offset_x as int) > 0,
        mark_height + gap(offset_y as int) > 0,
        base_width + mark_width + gap(offset_x as int) <= u32::MAX,
        base_height + mark_height + gap(offset_y as int) <= u32::MAX,
    ensures
        r.0@.map_values(|x: u32| x as int) == tile_starts(
            base_width as int,
            mark_width + gap(offset_x as int),
            0,
        ),
        r.1@.map_values(|y: u32| y as int) == tile_starts(
            base_height as int,
            mark_height + gap(offset_y as int),
            0,
        ),
{
    let step_x = mark_width + magnitude(offset_x);
    let step_y = mark_height + magnitude(offset_y);
    (axis_tiles(base_width, step_x), axis_tiles(base_height, step_y))
}

/// The tile starts from `from` on are `from`, `from + step`, ... up to the
/// last one below `base`.
proof fn lemma_tile_starts(base: int, step: int, from: int)
    requires
        step > 0,
    ensures
        forall|i: int|
            0 <= i < tile_starts(base, step, from).len() ==> #[trigger] tile_starts(
                base,
                step,
                from,
            )[i] == from + i * step,
        tile_starts(base, step, from).len() == 0 <==> from >= base,
        tile_starts(base, step, from).len() > 0 ==> from + (tile_starts(base, step, from).len()
            - 1) * step < base <= from + tile_starts(base, step, from).len() * step,
    decreases (if from < base {
        base - from
    } else {
        0
    }),
{
    if from < base {
        lemma_tile_starts(base, step, from + step);
        let rest = tile_starts(base, step, from + step);
        let all = tile_starts(base, step, from);
        assert(all == seq![from] + rest);
        assert forall|i: int| 0 <= i < all.len() implies #[trigger] all[i] == from + i * step by {
            if i > 0 {
                assert(all[i] == rest[i - 1]);
                assert(from + step + (i - 1) * step == from + i * step) by (nonlinear_arith);
            }
        }
        if rest.len() > 0 {
            assert(from + step + (rest.len() - 1) * step == from + (all.len() - 1) * step)
                by (nonlinear_arith)
                requires
                    all.len() == rest.len() + 1,
            ;
            assert(from + step + rest.len() * step == from + all.len() * step) by (nonlinear_arith)
                requires
                    all.len() == rest.len() + 1,
            ;
        } else {
            assert(all.len() == 1);
        }
    }
}

/// Law: tiling along an axis of length `base` with steps of `step` (the
/// mark's size plus the gap) starts copies at `0, step, 2 * step, ...`, and
/// at every such start below `base` and no other: the last copy starts
/// below `base` and one more step would reach or pass it.
pub proof fn law_tiles_cover_the_axis(base: int, step: int)
    requires
        step > 0,
        base > 0,
    ensures
        forall|i: int|
            0 <= i < tile_starts(base, step, 0).len() ==> #[trigger] tile_starts(base, step, 0)[i]
                == i * step,
        tile_starts(base, step, 0).len() > 0,
        (tile_starts(base, step, 0).len() - 1) * step < base <= tile_starts(base, step, 0).len()
            * step,
{
    lemma_tile_starts(base, step, 0);
}

/// Law: the anchor names place the mark as they say: with no offset,
/// `*-left` at the left edge, `*-center` and `center` in the middle and
/// `*-right` at the right edge, `top-*` at the top, `center-*` and `center`
/// in the middle and `bottom-*` at the bottom; any other name in the
/// middle of the image.
pub proof fn law_anchor_names_place_the_mark(free_x: int, free_y: int, other: Seq<char>)
    requires
        free_x >= 0,
        free_y >= 0,
        other != "top-left"@,
        other != "top-center"@,
        other != "top-right"@,
        other != "center-left"@,
        other != "center-right"@,
        other != "bottom-left"@,
        other != "bottom-center"@,
        other != "bottom-right"@,
    ensures
        named_position("top-left"@, free_x, free_y) == (0int, 0int),
        named_position("top-center"@, free_x, free_y) == (free_x / 2, 0int),
        named_position("top-right"@, free_x, free_y) == (free_x, 0int),
        named_position("center-left"@, free_x, free_y) == (0int, free_y / 2),
        named_position("center"@, free_x, free_y) == (free_x / 2, free_y / 2),
        named_position("center-right"@, free_x, free_y) == (free_x, free_y / 2),
        named_position("bottom-left"@, free_x, free_y) == (0int, free_y),
        named_position("bottom-center"@, free_x, free_y) == (free_x / 2, free_y),
        named_position("bottom-right"@, free_x, free_y) == (free_x, free_y),
        named_position(other, free_x, free_y) == (free_x / 2, free_y / 2),
{
    reveal_strlit("top-left");
    reveal_strlit("top-center");
    reveal_strlit("top-right");
    reveal_strlit("center-left");
    reveal_strlit("center");
    reveal_strlit("center-right");
    reveal_strlit("bottom-left");
    reveal_strlit("bottom-center");
    reveal_strlit("bottom-right");
    assert(anchor_named("top-left"@) == Anchor::TopLeft);
    assert(anchor_named("top-center"@) == Anchor::TopCenter) by {
        assert("top-center"@.len() != "top-left"@.len());
    }
    assert(anchor_named("top-right"@) == Anchor::TopRight) by {
        assert("top-right"@.len() != "top-left"@.len());
        assert("top-right"@.len() != "top-center"@.len());
    }
    assert(anchor_named("center-left"@) == Anchor::CenterLeft) by {
        assert("center-left"@[0] != "top-left"@[0]);
        assert("center-left"@.len() != "top-center"@.len());
        assert("center-left"@[0] != "top-right"@[0]);
    }
    assert(anchor_named("center-right"@) == Anchor::CenterRight) by {
        assert("center-right"@[0] != "top-left"@[0]);
        assert("center-right"@[0] != "top-center"@[0]);
        assert("center-right"@[0] != "top-right"@[0]);
        assert("center-right"@.len() != "center-left"@.len());
    }
    assert(anchor_named("bottom-left"@) == Anchor::BottomLeft) by {
        assert("bottom-left"@[0] != "top-left"@[0]);
        assert("bottom-left"@[0] != "top-center"@[0]);
        assert("bottom-left"@[0] != "top-right"@[0]);
        assert("bottom-left"@[0] != "center-left"@[0]);
        assert("bottom-left"@[0] != "center-right"@[0]);
    }
    assert(anchor_named("bottom-center"@) == Anchor::BottomCenter) by {
        assert("bottom-center"@[0] != "top-left"@[0]);
        assert("bottom-center"@[0] != "top-center"@[0]);
        assert("bottom-center"@[0] != "top-right"@[0]);
        assert("bottom-center"@[0] != "center-left"@[0]);
        assert("bottom-center"@[0] != "center-right"@[0]);
        assert("bottom-center"@.len() != "bottom-left"@.len());
    }
    assert(anchor_named("bottom-right"@) == Anchor::BottomRight) by {
        assert("bottom-right"@[0] != "top-left"@[0]);
        assert("bottom-right"@[0] != "top-center"@[0]);
        assert("bottom-right"@[0] != "top-right"@[0]);
        assert("bottom-right"@[0] != "center-left"@[0]);
        assert("bottom-right"@[0] != "center-right"@[0]);
        assert("bottom-right"@.len() != "bottom-left"@.len());
        assert("bottom-right"@.len() != "bottom-center"@.len());
    }
    assert(anchor_named("center"@) == Anchor::Center) by {
        assert("center"@.len() != "top-left"@.len());
        assert("center"@.len() != "top-center"@.len());
        assert("center"@.len() != "top-right"@.len());
        assert("center"@.len() != "center-left"@.len());
        assert("center"@.len() != "center-right"@.len());
        assert("center"@.len() != "bottom-left"@.len());
        assert("center"@.len() != "bottom-center"@.len());
        assert("center"@.len() != "bottom-right"@.len());
    }
}

/// Where, with no offset, the anchor named `name` puts a mark that leaves
/// `free_x` by `free_y` of the image free.
pub open spec fn named_position(name: Seq<char>, free_x: int, free_y: int) -> (int, int) {
    let a = anchor_named(name);
    (placed(free_x, anchor_column(a), 0), placed(free_y, anchor_row(a), 0))
}

} // verus!
