//! Rectangles in logical pixels and the rule that splits one rectangle into two tiles.

use vstd::prelude::*;

verus! {

/// Pixel inset between the two tiles of a split and around the outer edge of a workspace.
pub const GAP: i32 = 12;

/// Axis-aligned rectangle in logical pixels: top-left corner and size.
#[derive(Clone, Copy, Debug, PartialEq, Eq, Structural)]
pub struct Rect {
    pub x: i32,
    pub y: i32,
    pub w: i32,
    pub h: i32,
}

/// Axis along which a split lays out its two tiles.
#[derive(Clone, Copy, Debug, PartialEq, Eq, Structural)]
pub enum Direction {
    /// Tiles side by side; the first one is on the left.
    Horizontal,
    /// Tiles stacked; the first one is on top.
    Vertical,
}

/// `v / 2` rounded toward zero, which is what machine division computes.
pub open spec fn trunc_half(v: int) -> int {
    if v >= 0 {
        v / 2
    } else {
        -((-v) / 2)
    }
}

/// Extent of one tile along the split axis when an extent of `full` is split in two:
/// half of `full`, less half a gap.
pub open spec fn half_extent(full: int) -> int {
    trunc_half(full) - GAP / 2
}

/// Whether the height-to-width ratio of `r` exceeds two. A zero width counts as an
/// infinite ratio when the height is positive.
pub open spec fn is_tall(r: Rect) -> bool {
    if r.w > 0 {
        r.h > 2 * r.w
    } else if r.w == 0 {
        r.h > 0
    } else {
        r.h < 2 * r.w
    }
}

/// Direction in which a fresh split of `r` is laid out: stacked for tall rectangles,
/// side by side otherwise.
pub open spec fn split_direction(r: Rect) -> Direction {
    if is_tall(r) {
        Direction::Vertical
    } else {
        Direction::Horizontal
    }
}

/// The second tile's origin along the split axis is representable.
pub open spec fn split_fits(r: Rect, d: Direction) -> bool {
    match d {
        Direction::Horizontal => i32::MIN <= r.x + half_extent(r.w as int) + GAP <= i32::MAX,
        Direction::Vertical => i32::MIN <= r.y + half_extent(r.h as int) + GAP <= i32::MAX,
    }
}

/// First tile of `r` split along `d`: same origin, half extent along the axis.
pub open spec fn first_half(r: Rect, d: Direction) -> Rect {
    match d {
        Direction::Horizontal => Rect { x: r.x, y: r.y, w: half_extent(r.w as int) as i32, h: r.h },
        Direction::Vertical => Rect { x: r.x, y: r.y, w: r.w, h: half_extent(r.h as int) as i32 },
    }
}

/// Second tile of `r` split along `d`: same size as the first, moved past it and the gap.
pub open spec fn second_half(r: Rect, d: Direction) -> Rect {
    match d {
        Direction::Horizontal => Rect {
            x: (r.x + half_extent(r.w as int) + GAP) as i32,
            y: r.y,
            w: half_extent(r.w as int) as i32,
            h: r.h,
        },
        Direction::Vertical => Rect {
            x: r.x,
            y: (r.y + half_extent(r.h as int) + GAP) as i32,
            w: r.w,
            h: half_extent(r.h as int) as i32,
        },
    }
}

/// `first` and `second` tile `whole` along `d`, in that order: both keep the cross-axis
/// extent of `whole`, `first` starts at its origin, `second` starts one gap after `first`
/// ends, and the two extents plus the gap make up the extent of `whole` rounded toward zero
/// to an even number.
pub open spec fn adjacent(first: Rect, second: Rect, whole: Rect, d: Direction) -> bool {
    match d {
        Direction::Horizontal => {
            &&& first.x == whole.x
            &&& first.y == whole.y && second.y == whole.y
            &&& first.h == whole.h && second.h == whole.h
            &&& second.x == first.x + first.w + GAP
            &&& first.w + GAP + second.w == 2 * trunc_half(whole.w as int)
        },
        Direction::Vertical => {
            &&& first.y == whole.y
            &&& first.x == whole.x && second.x == whole.x
            &&& first.w == whole.w && second.w == whole.w
            &&& second.y == first.y + first.h + GAP
            &&& first.h + GAP + second.h == 2 * trunc_half(whole.h as int)
        },
    }
}

/// `a` and `b` tile `whole` along `d`, whichever of the two comes first.
pub open spec fn partitions(a: Rect, b: Rect, whole: Rect, d: Direction) -> bool {
    adjacent(a, b, whole, d) || adjacent(b, a, whole, d)
}

/// The second of two rectangles starts one gap after the first ends, along `d`.
pub open spec fn comes_first(first: Rect, second: Rect, d: Direction) -> bool {
    match d {
        Direction::Horizontal => second.x == first.x + first.w + GAP,
        Direction::Vertical => second.y == first.y + first.h + GAP,
    }
}

/// Extent of a rectangle along `d`.
pub open spec fn extent(r: Rect, d: Direction) -> int {
    match d {
        Direction::Horizontal => r.w as int,
        Direction::Vertical => r.h as int,
    }
}

/// How far the boundary between two tiles of extents `first` and `second` moves when asked
/// to move by `delta`: as far as asked, but never so far that a tile would be left with less
/// than one pixel, and not at all when a tile has less than one pixel to begin with.
pub open spec fn clamped_shift(first: int, second: int, delta: int) -> int {
    if first < 1 || second < 1 {
        0
    } else if delta < 1 - first {
        1 - first
    } else if delta > second - 1 {
        second - 1
    } else {
        delta
    }
}

/// The first of two tiles after the boundary between them moved by `shift` along `d`: it
/// grows by `shift`.
pub open spec fn grown(first: Rect, d: Direction, shift: int) -> Rect {
    match d {
        Direction::Horizontal => Rect { w: (first.w + shift) as i32, ..first },
        Direction::Vertical => Rect { h: (first.h + shift) as i32, ..first },
    }
}

/// The second of two tiles after the boundary between them moved by `shift` along `d`: it
/// starts `shift` later and shrinks by `shift`.
pub open spec fn shrunk(second: Rect, d: Direction, shift: int) -> Rect {
    match d {
        Direction::Horizontal => Rect {
            x: (second.x + shift) as i32,
            w: (second.w - shift) as i32,
            ..second
        },
        Direction::Vertical => Rect { y: (second.y + shift) as i32, h: (second.h - shift) as i32, ..second },
    }
}

/// The shifted origin of the second tile and the new extents of both are representable.
pub open spec fn shift_fits(first: Rect, second: Rect, d: Direction, shift: int) -> bool {
    &&& i32::MIN <= extent(first, d) + shift <= i32::MAX
    &&& i32::MIN <= extent(second, d) - shift <= i32::MAX
    &&& match d {
        Direction::Horizontal => i32::MIN <= second.x + shift <= i32::MAX,
        Direction::Vertical => i32::MIN <= second.y + shift <= i32::MAX,
    }
}

/// All four edges of the rectangle lie within `s` pixels of the origin.
pub open spec fn bounded(r: Rect, s: int) -> bool {
    &&& -s <= r.x <= s
    &&& -s <= r.y <= s
    &&& -s <= r.x + r.w <= s
    &&& -s <= r.y + r.h <= s
}

/// A bound on coordinates under which splitting a rectangle and moving a boundary always
/// stay within the coordinate range.
pub const COORD_BOUND: i32 = 0x4000_0000;

impl Rect {
    /// The point `(px, py)` lies inside the rectangle; the right and bottom edges are outside.
    pub open spec fn contains(self, px: int, py: int) -> bool {
        self.x <= px < self.x + self.w && self.y <= py < self.y + self.h
    }

    /// No point lies in both rectangles.
    pub open spec fn disjoint(self, other: Rect) -> bool {
        forall|px: int, py: int| !(#[trigger] self.contains(px, py) && other.contains(px, py))
    }

    /// Every point of `self` is a point of `outer`.
    pub open spec fn within(self, outer: Rect) -> bool {
        forall|px: int, py: int| #[trigger] self.contains(px, py) ==> outer.contains(px, py)
    }

    pub fn new(x: i32, y: i32, w: i32, h: i32) -> (r: Rect)
        ensures
            r == (Rect { x, y, w, h }),
    {
        Rect { x, y, w, h }
    }

    /// Hit test for a point in logical coordinates.
    pub fn contains_point(&self, px: i32, py: i32) -> (r: bool)
        ensures
            r == self.contains(px as int, py as int),
    {
        let x: i64 = self.x as i64;
        let y: i64 = self.y as i64;
        let w: i64 = self.w as i64;
        let h: i64 = self.h as i64;
        let qx: i64 = px as i64;
        let qy: i64 = py as i64;
        x <= qx && qx < x + w && y <= qy && qy < y + h
    }
}

/// Decides whether a rectangle is more than twice as tall as it is wide.
pub fn exceeds_aspect(rec: &Rect) -> (r: bool)
    ensures
        r == is_tall(*rec),
{
    let w: i64 = rec.w as i64;
    let h: i64 = rec.h as i64;
    if w > 0 {
        h > 2 * w
    } else if w == 0 {
        h > 0
    } else {
        h < 2 * w
    }
}

/// Tests whether `rec` can be split along `direction` without leaving the coordinate range.
pub fn can_split(rec: &Rect, direction: &Direction) -> (r: bool)
    ensures
        r == split_fits(*rec, *direction),
{
    match direction {
        Direction::Horizontal => {
            let at: i64 = rec.x as i64 + (rec.w / 2 - GAP / 2) as i64 + GAP as i64;
            i32::MIN as i64 <= at && at <= i32::MAX as i64
        },
        Direction::Vertical => {
            let at: i64 = rec.y as i64 + (rec.h / 2 - GAP / 2) as i64 + GAP as i64;
            i32::MIN as i64 <= at && at <= i32::MAX as i64
        },
    }
}

/// Splits `rec` along a direction that was fixed earlier.
pub fn recover_new_rec(rec: &Rect, direction: &Direction) -> (res: (Rect, Rect))
    requires
        split_fits(*rec, *direction),
    ensures
        res.0 == first_half(*rec, *direction),
        res.1 == second_half(*rec, *direction),
{
    let mut l_rec = *rec;
    let mut r_rec = *rec;
    let gap: i32 = GAP / 2;
    match direction {
        Direction::Horizontal => {
            let half: i32 = rec.w / 2 - gap;
            l_rec.w = half;
            r_rec.w = half;
            r_rec.x = r_rec.x + (half + GAP);
            (l_rec, r_rec)
        },
        Direction::Vertical => {
            let half: i32 = rec.h / 2 - gap;
            l_rec.h = half;
            r_rec.h = half;
            r_rec.y = r_rec.y + (half + GAP);
            (l_rec, r_rec)
        },
    }
}

/// Splits `rec` for a new pair of tiles, choosing the direction from its aspect ratio.
pub fn get_new_rec(rec: &Rect) -> (res: (Direction, Rect, Rect))
    requires
        split_fits(*rec, split_direction(*rec)),
    ensures
        res.0 == split_direction(*rec),
        res.1 == first_half(*rec, split_direction(*rec)),
        res.2 == second_half(*rec, split_direction(*rec)),
{
    let direction = if exceeds_aspect(rec) {
        Direction::Vertical
    } else {
        Direction::Horizontal
    };
    let (l_rec, r_rec) = recover_new_rec(rec, &direction);
    (direction, l_rec, r_rec)
}

/// For a non-negative extent the tile extent is the extent less the gap, halved and rounded
/// down.
pub proof fn lemma_half_extent_formula(full: int)
    requires
        full >= 0,
    ensures
        half_extent(full) == (full - GAP) / 2,
{
}

/// The two halves of a split tile the split rectangle in order, and share no point.
pub proof fn lemma_halves_partition(r: Rect, d: Direction)
    requires
        split_fits(r, d),
    ensures
        adjacent(first_half(r, d), second_half(r, d), r, d),
        first_half(r, d).disjoint(second_half(r, d)),
{
}

/// Two rectangles that tile a third along some direction share no point.
pub proof fn lemma_partition_disjoint(a: Rect, b: Rect, whole: Rect, d: Direction)
    requires
        partitions(a, b, whole, d),
    ensures
        a.disjoint(b),
{
}

/// When the split extent is non-negative, the tiles and the gap cover it up to one pixel
/// of rounding, and tiles of non-negative extent stay inside the split rectangle.
pub proof fn lemma_partition_covers(a: Rect, b: Rect, whole: Rect, d: Direction)
    requires
        adjacent(a, b, whole, d),
        whole.w >= 0,
        whole.h >= 0,
    ensures
        d == Direction::Horizontal ==> whole.w - 1 <= a.w + GAP + b.w <= whole.w,
        d == Direction::Vertical ==> whole.h - 1 <= a.h + GAP + b.h <= whole.h,
        a.w >= 0 && a.h >= 0 && b.w >= 0 && b.h >= 0 ==> a.within(whole) && b.within(whole),
{
}

/// A rectangle within a bound can be split, and its halves lie within that bound plus one
/// gap.
pub proof fn lemma_halves_bounded(r: Rect, d: Direction, s: int)
    requires
        bounded(r, s),
        s <= COORD_BOUND,
    ensures
        split_fits(r, d),
        bounded(first_half(r, d), s + GAP),
        bounded(second_half(r, d), s + GAP),
{
}

/// Moves the boundary between two tiles that lie along `direction`, `first` before `second`,
/// by `delta` pixels, as far as both keep at least one pixel.
pub fn shift_boundary(
    first: &Rect,
    second: &Rect,
    direction: &Direction,
    delta: i32,
) -> (res: (Rect, Rect))
    requires
        shift_fits(
            *first,
            *second,
            *direction,
            clamped_shift(extent(*first, *direction), extent(*second, *direction), delta as int),
        ),
    ensures
        res.0 == grown(
            *first,
            *direction,
            clamped_shift(extent(*first, *direction), extent(*second, *direction), delta as int),
        ),
        res.1 == shrunk(
            *second,
            *direction,
            clamped_shift(extent(*first, *direction), extent(*second, *direction), delta as int),
        ),
{
    let (a, b): (i32, i32) = match direction {
        Direction::Horizontal => (first.w, second.w),
        Direction::Vertical => (first.h, second.h),
    };
    let shift: i32 = if a < 1 || b < 1 {
        0
    } else if delta < 1 - a {
        1 - a
    } else if delta > b - 1 {
        b - 1
    } else {
        delta
    };
    let mut f_rec = *first;
    let mut s_rec = *second;
    match direction {
        Direction::Horizontal => {
            f_rec.w = first.w + shift;
            s_rec.x = second.x + shift;
            s_rec.w = second.w - shift;
        },
        Direction::Vertical => {
            f_rec.h = first.h + shift;
            s_rec.y = second.y + shift;
            s_rec.h = second.h - shift;
        },
    }
    (f_rec, s_rec)
}

/// Moving the boundary between two tiles of a tiling, of which `first` is the one that the
/// other starts after, keeps them a tiling of the same rectangle.
pub proof fn lemma_shift_keeps_partitions(
    first: Rect,
    second: Rect,
    whole: Rect,
    d: Direction,
    delta: int,
)
    requires
        partitions(first, second, whole, d),
        comes_first(first, second, d),
        shift_fits(first, second, d, clamped_shift(extent(first, d), extent(second, d), delta)),
    ensures
        partitions(
            grown(first, d, clamped_shift(extent(first, d), extent(second, d), delta)),
            shrunk(second, d, clamped_shift(extent(first, d), extent(second, d), delta)),
            whole,
            d,
        ),
        comes_first(
            grown(first, d, clamped_shift(extent(first, d), extent(second, d), delta)),
            shrunk(second, d, clamped_shift(extent(first, d), extent(second, d), delta)),
            d,
        ),
{
}

/// Moving the boundary between two tiles within a bound keeps both within that bound.
pub proof fn lemma_shift_bounded(first: Rect, second: Rect, d: Direction, delta: int, s: int)
    requires
        comes_first(first, second, d),
        bounded(first, s),
        bounded(second, s),
        s <= COORD_BOUND,
    ensures
        shift_fits(first, second, d, clamped_shift(extent(first, d), extent(second, d), delta)),
        bounded(grown(first, d, clamped_shift(extent(first, d), extent(second, d), delta)), s),
        bounded(shrunk(second, d, clamped_shift(extent(first, d), extent(second, d), delta)), s),
{
}

} // verus!
