//! What holds of every squarified layout: the rectangles keep the order of the
//! items, their areas add up to the area of the input rectangle, and they tile
//! it without gap or overlap.

use vstd::prelude::*;
use crate::arith::{scaled, lemma_floor_difference, lemma_scaled_bounds, lemma_scaled_whole, lemma_scaled_monotone};
use crate::treemap::{Tile, range_sum, row_end, strip, strips, squarify_spec, layout_spec, lemma_row_positive, lemma_range_sum_split, lemma_range_sum_nonneg};

verus! {

/// Sum of the areas of the tiles.
pub open spec fn area_sum(tiles: Seq<Tile>) -> int
    decreases tiles.len(),
{
    if tiles.len() == 0 {
        0
    } else {
        area_sum(tiles.drop_last()) + tiles.last().w * tiles.last().h
    }
}

/// The area of a concatenation is the sum of the areas.
pub proof fn lemma_area_concat(a: Seq<Tile>, b: Seq<Tile>)
    ensures
        area_sum(a + b) == area_sum(a) + area_sum(b),
    decreases b.len(),
{
    if b.len() == 0 {
        assert(a + b =~= a);
    } else {
        lemma_area_concat(a, b.drop_last());
        assert((a + b).drop_last() =~= a + b.drop_last());
        assert((a + b).last() == b.last());
    }
}

/// The inputs on which squarifying from `lo` yields one tile per item.
pub open spec fn squarifiable(sizes: Seq<u64>, lo: int) -> bool {
    &&& 0 <= lo < sizes.len()
    &&& lo + 1 == sizes.len() || range_sum(sizes, lo, sizes.len() as int) > 0
}

/// Squarifying yields one tile per item, in input order, each tagged with the
/// position of its item.
pub proof fn lemma_squarify_order(sizes: Seq<u64>, lo: int, x: int, y: int, w: int, h: int)
    requires
        squarifiable(sizes, lo),
    ensures
        squarify_spec(sizes, lo, x, y, w, h).len() == sizes.len() - lo,
        forall|i: int| 0 <= i < sizes.len() - lo ==> (#[trigger] squarify_spec(sizes, lo, x, y, w, h)[i]).index == lo + i,
    decreases sizes.len() - lo,
{
    let n = sizes.len() as int;
    if lo + 1 < n {
        let wide = w >= h;
        let short = if wide { h } else { w };
        let long = if wide { w } else { h };
        let end = row_end(sizes, lo, lo + 1, short, long);
        let row = range_sum(sizes, lo, end);
        let thick = scaled(long, row, range_sum(sizes, lo, n));
        lemma_row_positive(sizes, lo, short, long);
        let first = strips(sizes, lo, end - lo, x, y, thick, short, row, wide);
        let rest = if wide {
            squarify_spec(sizes, end, x + thick, y, w - thick, h)
        } else {
            squarify_spec(sizes, end, x, y + thick, w, h - thick)
        };
        assert(squarify_spec(sizes, lo, x, y, w, h) == first + rest);
        if end < n {
            if wide {
                lemma_squarify_order(sizes, end, x + thick, y, w - thick, h);
            } else {
                lemma_squarify_order(sizes, end, x, y + thick, w, h - thick);
            }
        }
        assert forall|i: int| 0 <= i < n - lo implies (#[trigger] squarify_spec(sizes, lo, x, y, w, h)[i]).index == lo + i by {
            if i < end - lo {
                assert((first + rest)[i] == first[i]);
            } else {
                assert((first + rest)[i] == rest[i - (end - lo)]);
            }
        }
    }
}

/// Order preservation: a layout of items with a positive total in a non-empty
/// rectangle has exactly one rectangle per item, and the rectangle at
/// position `i` belongs to item `i`.
pub proof fn lemma_layout_keeps_order(x: int, y: int, w: int, h: int, sizes: Seq<u64>)
    requires
        w > 0,
        h > 0,
        range_sum(sizes, 0, sizes.len() as int) > 0,
    ensures
        layout_spec(x, y, w, h, sizes).len() == sizes.len(),
        forall|i: int| 0 <= i < sizes.len() ==> (#[trigger] layout_spec(x, y, w, h, sizes)[i]).index == i,
{
    lemma_squarify_order(sizes, 0, x, y, w, h);
}

/// The strips of a row add up to the row's thickness times the extent that the
/// summed sizes reach.
pub proof fn lemma_strips_area(sizes: Seq<u64>, lo: int, count: int, x: int, y: int, thick: int, side: int, row: int, wide: bool)
    requires
        0 <= count,
        0 < row,
    ensures
        area_sum(strips(sizes, lo, count, x, y, thick, side, row, wide)) == thick * scaled(side, range_sum(sizes, lo, lo + count), row),
    decreases count,
{
    let all = strips(sizes, lo, count, x, y, thick, side, row, wide);
    if count == 0 {
        lemma_scaled_whole(side, row);
        assert(thick * 0 == 0) by (nonlinear_arith);
    } else {
        lemma_strips_area(sizes, lo, count - 1, x, y, thick, side, row, wide);
        let fewer = strips(sizes, lo, count - 1, x, y, thick, side, row, wide);
        assert(all.drop_last() =~= fewer);
        let last = strip(sizes, lo, count - 1, x, y, thick, side, row, wide);
        assert(all.last() == last);
        let near = scaled(side, range_sum(sizes, lo, lo + count - 1), row);
        let far = scaled(side, range_sum(sizes, lo, lo + count), row);
        assert(last.w * last.h == thick * (far - near)) by (nonlinear_arith)
            requires
                (last.w == thick && last.h == far - near) || (last.w == far - near && last.h == thick),
        ;
        assert(thick * near + thick * (far - near) == thick * far) by (nonlinear_arith);
    }
}

/// The tiles of a squarified rectangle add up to its area.
pub proof fn lemma_squarify_area(sizes: Seq<u64>, lo: int, x: int, y: int, w: int, h: int)
    requires
        squarifiable(sizes, lo),
        0 <= w,
        0 <= h,
    ensures
        area_sum(squarify_spec(sizes, lo, x, y, w, h)) == w * h,
    decreases sizes.len() - lo,
{
    let n = sizes.len() as int;
    let all = squarify_spec(sizes, lo, x, y, w, h);
    if lo + 1 == n {
        assert(all.drop_last() =~= Seq::<Tile>::empty());
        assert(area_sum(Seq::<Tile>::empty()) == 0);
        assert(all.last().w * all.last().h == w * h);
        assert(area_sum(all) == w * h);
    } else {
        let wide = w >= h;
        let short = if wide { h } else { w };
        let long = if wide { w } else { h };
        let end = row_end(sizes, lo, lo + 1, short, long);
        let row = range_sum(sizes, lo, end);
        let total = range_sum(sizes, lo, n);
        let thick = scaled(long, row, total);
        lemma_row_positive(sizes, lo, short, long);
        lemma_scaled_bounds(long, row, total);
        let first = strips(sizes, lo, end - lo, x, y, thick, short, row, wide);
        let rest = if wide {
            squarify_spec(sizes, end, x + thick, y, w - thick, h)
        } else {
            squarify_spec(sizes, end, x, y + thick, w, h - thick)
        };
        assert(all == first + rest);
        lemma_area_concat(first, rest);
        lemma_strips_area(sizes, lo, end - lo, x, y, thick, short, row, wide);
        lemma_scaled_whole(short, row);
        assert(area_sum(first) == thick * short);
        if end < n {
            if wide {
                lemma_squarify_area(sizes, end, x + thick, y, w - thick, h);
            } else {
                lemma_squarify_area(sizes, end, x, y + thick, w, h - thick);
            }
            assert(area_sum(rest) == (long - thick) * short) by (nonlinear_arith)
                requires
                    (area_sum(rest) == (w - thick) * h && long == w && short == h) || (area_sum(rest) == w * (h - thick) && long == h && short == w),
            ;
        } else {
            lemma_scaled_whole(long, total);
            assert(rest =~= Seq::<Tile>::empty());
            assert(area_sum(rest) == 0);
            assert((long - thick) * short == 0) by (nonlinear_arith)
                requires
                    long == thick,
            ;
        }
        assert(area_sum(rest) == (long - thick) * short);
        assert(thick * short + (long - thick) * short == w * h) by (nonlinear_arith)
            requires
                (long == w && short == h) || (long == h && short == w),
        ;
        assert(area_sum(all) == w * h);
    }
}

/// Area conservation: the rectangles of a layout of items with a positive
/// total add up to exactly the area of the input rectangle.
pub proof fn lemma_layout_conserves_area(x: int, y: int, w: int, h: int, sizes: Seq<u64>)
    requires
        w > 0,
        h > 0,
        range_sum(sizes, 0, sizes.len() as int) > 0,
    ensures
        area_sum(layout_spec(x, y, w, h, sizes)) == w * h,
{
    lemma_squarify_area(sizes, 0, x, y, w, h);
}


/// Whether the grid cell at `(px, py)` lies in the tile. A tile covers the
/// cells from its near corner up to, not including, its far corner.
pub open spec fn covers(t: Tile, px: int, py: int) -> bool {
    t.x <= px < t.x + t.w && t.y <= py < t.y + t.h
}

/// Whether the tile lies inside the rectangle at `(x, y)` of width `w` and
/// height `h`.
pub open spec fn within(t: Tile, x: int, y: int, w: int, h: int) -> bool {
    &&& 0 <= t.w
    &&& 0 <= t.h
    &&& x <= t.x
    &&& t.x + t.w <= x + w
    &&& y <= t.y
    &&& t.y + t.h <= y + h
}

/// Whether the grid cell at `(px, py)` lies in the rectangle.
pub open spec fn in_rect(px: int, py: int, x: int, y: int, w: int, h: int) -> bool {
    x <= px < x + w && y <= py < y + h
}

/// Whether some tile covers the cell.
pub open spec fn covered(tiles: Seq<Tile>, px: int, py: int) -> bool {
    exists|i: int| 0 <= i < tiles.len() && covers(#[trigger] tiles[i], px, py)
}

/// Whether the tiles partition the rectangle: each lies inside it, every cell
/// of it is covered, and no cell is covered twice.
pub open spec fn tiling(tiles: Seq<Tile>, x: int, y: int, w: int, h: int) -> bool {
    &&& forall|i: int| 0 <= i < tiles.len() ==> within(#[trigger] tiles[i], x, y, w, h)
    &&& forall|px: int, py: int| #[trigger] in_rect(px, py, x, y, w, h) ==> covered(tiles, px, py)
    &&& forall|i: int, j: int, px: int, py: int|
        0 <= i < j < tiles.len() ==> !(#[trigger] covers(tiles[i], px, py) && #[trigger] covers(tiles[j], px, py))
}

/// Two tilings of the two parts of a rectangle, split at a distance `cut`
/// along the x axis (`wide`) or the y axis, tile the rectangle together.
pub proof fn lemma_tiling_join(a: Seq<Tile>, b: Seq<Tile>, x: int, y: int, w: int, h: int, cut: int, wide: bool)
    requires
        wide ==> 0 <= cut <= w && tiling(a, x, y, cut, h) && tiling(b, x + cut, y, w - cut, h),
        !wide ==> 0 <= cut <= h && tiling(a, x, y, w, cut) && tiling(b, x, y + cut, w, h - cut),
    ensures
        tiling(a + b, x, y, w, h),
{
    let all = a + b;
    assert forall|i: int| 0 <= i < all.len() implies within(#[trigger] all[i], x, y, w, h) by {
        if i < a.len() {
            assert(all[i] == a[i]);
        } else {
            assert(all[i] == b[i - a.len()]);
        }
    }
    assert forall|px: int, py: int| #[trigger] in_rect(px, py, x, y, w, h) implies covered(all, px, py) by {
        let in_first = if wide { px < x + cut } else { py < y + cut };
        if in_first {
            if wide {
                assert(in_rect(px, py, x, y, cut, h));
            } else {
                assert(in_rect(px, py, x, y, w, cut));
            }
            assert(covered(a, px, py));
            let i = choose|i: int| 0 <= i < a.len() && covers(#[trigger] a[i], px, py);
            assert(all[i] == a[i]);
        } else {
            if wide {
                assert(in_rect(px, py, x + cut, y, w - cut, h));
            } else {
                assert(in_rect(px, py, x, y + cut, w, h - cut));
            }
            assert(covered(b, px, py));
            let i = choose|i: int| 0 <= i < b.len() && covers(#[trigger] b[i], px, py);
            assert(all[a.len() + i] == b[i]);
        }
    }
    assert forall|i: int, j: int, px: int, py: int| 0 <= i < j < all.len() implies !(#[trigger] covers(all[i], px, py) && #[trigger] covers(all[j], px, py)) by {
        if j < a.len() {
            assert(all[i] == a[i] && all[j] == a[j]);
        } else if i >= a.len() {
            assert(all[i] == b[i - a.len()] && all[j] == b[j - a.len()]);
        } else {
            assert(all[i] == a[i] && all[j] == b[j - a.len()]);
            if wide {
                assert(within(a[i], x, y, cut, h));
                assert(within(b[j - a.len()], x + cut, y, w - cut, h));
            } else {
                assert(within(a[i], x, y, w, cut));
                assert(within(b[j - a.len()], x, y + cut, w, h - cut));
            }
        }
    }
}

/// Where the strip of item `lo + j` begins across the side.
pub open spec fn strip_start(sizes: Seq<u64>, lo: int, j: int, side: int, row: int) -> int {
    scaled(side, range_sum(sizes, lo, lo + j), row)
}

/// Strip boundaries grow along the row and stay within the side.
pub proof fn lemma_strip_starts(sizes: Seq<u64>, lo: int, i: int, j: int, count: int, side: int, row: int)
    requires
        0 <= i <= j <= count,
        0 <= side,
        0 < row,
        row == range_sum(sizes, lo, lo + count),
    ensures
        0 <= strip_start(sizes, lo, i, side, row) <= strip_start(sizes, lo, j, side, row) <= side,
{
    lemma_range_sum_nonneg(sizes, lo, lo + i);
    lemma_range_sum_split(sizes, lo, lo + i, lo + j);
    lemma_range_sum_nonneg(sizes, lo + i, lo + j);
    lemma_range_sum_split(sizes, lo, lo + j, lo + count);
    lemma_range_sum_nonneg(sizes, lo + j, lo + count);
    lemma_scaled_bounds(side, range_sum(sizes, lo, lo + i), row);
    lemma_scaled_bounds(side, range_sum(sizes, lo, lo + j), row);
    lemma_scaled_monotone(side, range_sum(sizes, lo, lo + i), range_sum(sizes, lo, lo + j), row);
}

/// Every offset across the side before the start of strip `upto` falls into
/// one of the strips before it.
pub proof fn lemma_find_strip(sizes: Seq<u64>, lo: int, upto: int, offset: int, side: int, row: int) -> (j: int)
    requires
        0 <= upto,
        0 < row,
        0 <= offset < strip_start(sizes, lo, upto, side, row),
    ensures
        0 <= j < upto,
        strip_start(sizes, lo, j, side, row) <= offset < strip_start(sizes, lo, j + 1, side, row),
    decreases upto,
{
    if upto == 0 {
        lemma_scaled_whole(side, row);
        assert(false);
        0
    } else if strip_start(sizes, lo, upto - 1, side, row) <= offset {
        upto - 1
    } else {
        lemma_find_strip(sizes, lo, upto - 1, offset, side, row)
    }
}

/// The strips of a row tile the row: a column `thick` wide and `side` high in
/// a wide rectangle, a band `side` wide and `thick` high otherwise.
pub proof fn lemma_strips_tiling(sizes: Seq<u64>, lo: int, count: int, x: int, y: int, thick: int, side: int, row: int, wide: bool)
    requires
        0 <= count,
        0 <= thick,
        0 <= side,
        0 < row,
        row == range_sum(sizes, lo, lo + count),
    ensures
        wide ==> tiling(strips(sizes, lo, count, x, y, thick, side, row, wide), x, y, thick, side),
        !wide ==> tiling(strips(sizes, lo, count, x, y, thick, side, row, wide), x, y, side, thick),
{
    let all = strips(sizes, lo, count, x, y, thick, side, row, wide);
    let rw = if wide { thick } else { side };
    let rh = if wide { side } else { thick };
    lemma_scaled_whole(side, row);
    assert forall|i: int| 0 <= i < all.len() implies within(#[trigger] all[i], x, y, rw, rh) by {
        lemma_strip_starts(sizes, lo, i, i + 1, count, side, row);
    }
    assert forall|px: int, py: int| #[trigger] in_rect(px, py, x, y, rw, rh) implies covered(all, px, py) by {
        let offset = if wide { py - y } else { px - x };
        assert(strip_start(sizes, lo, count, side, row) == side);
        let j = lemma_find_strip(sizes, lo, count, offset, side, row);
        assert(covers(all[j], px, py));
    }
    assert forall|i: int, j: int, px: int, py: int| 0 <= i < j < all.len() implies !(#[trigger] covers(all[i], px, py) && #[trigger] covers(all[j], px, py)) by {
        lemma_strip_starts(sizes, lo, i + 1, j, count, side, row);
    }
}

/// The tiles of a squarified rectangle tile it.
pub proof fn lemma_squarify_tiling(sizes: Seq<u64>, lo: int, x: int, y: int, w: int, h: int)
    requires
        squarifiable(sizes, lo),
        0 <= w,
        0 <= h,
    ensures
        tiling(squarify_spec(sizes, lo, x, y, w, h), x, y, w, h),
    decreases sizes.len() - lo,
{
    let n = sizes.len() as int;
    let all = squarify_spec(sizes, lo, x, y, w, h);
    if lo + 1 == n {
        assert forall|px: int, py: int| #[trigger] in_rect(px, py, x, y, w, h) implies covered(all, px, py) by {
            assert(covers(all[0], px, py));
        }
    } else {
        let wide = w >= h;
        let short = if wide { h } else { w };
        let long = if wide { w } else { h };
        let end = row_end(sizes, lo, lo + 1, short, long);
        let row = range_sum(sizes, lo, end);
        let total = range_sum(sizes, lo, n);
        let thick = scaled(long, row, total);
        lemma_row_positive(sizes, lo, short, long);
        lemma_scaled_bounds(long, row, total);
        let first = strips(sizes, lo, end - lo, x, y, thick, short, row, wide);
        let rest = if wide {
            squarify_spec(sizes, end, x + thick, y, w - thick, h)
        } else {
            squarify_spec(sizes, end, x, y + thick, w, h - thick)
        };
        assert(all == first + rest);
        lemma_strips_tiling(sizes, lo, end - lo, x, y, thick, short, row, wide);
        if end < n {
            if wide {
                lemma_squarify_tiling(sizes, end, x + thick, y, w - thick, h);
            } else {
                lemma_squarify_tiling(sizes, end, x, y + thick, w, h - thick);
            }
        } else {
            lemma_scaled_whole(long, total);
            assert(rest =~= Seq::<Tile>::empty());
            assert(thick == long);
            if wide {
                assert(tiling(rest, x + thick, y, w - thick, h));
            } else {
                assert(tiling(rest, x, y + thick, w, h - thick));
            }
        }
        lemma_tiling_join(first, rest, x, y, w, h, thick, wide);
    }
}

/// Tiling: the rectangles of a layout of items with a positive total lie
/// inside the input rectangle, cover every cell of it, and no two of them
/// share a cell.
pub proof fn lemma_layout_tiles(x: int, y: int, w: int, h: int, sizes: Seq<u64>)
    requires
        w > 0,
        h > 0,
        range_sum(sizes, 0, sizes.len() as int) > 0,
    ensures
        tiling(layout_spec(x, y, w, h, sizes), x, y, w, h),
{
    lemma_squarify_tiling(sizes, 0, x, y, w, h);
}


/// Proportion within a row: the extent of each strip across the side is its
/// item's share of the side, `side * size / row` rounded down, or one step
/// more. The thickness of the row is the row's share of the long side, so a
/// strip's area follows the size of its item up to the rounding of its two
/// lengths.
pub proof fn lemma_strip_extent_proportional(sizes: Seq<u64>, lo: int, j: int, side: int, row: int)
    requires
        0 <= lo,
        0 <= j,
        lo + j < sizes.len(),
        0 < row,
    ensures
        ({
            let extent = strip_start(sizes, lo, j + 1, side, row) - strip_start(sizes, lo, j, side, row);
            let share = scaled(side, sizes[lo + j] as int, row);
            share <= extent <= share + 1
        }),
{
    let before = range_sum(sizes, lo, lo + j);
    let after = range_sum(sizes, lo, lo + j + 1);
    assert(after == before + sizes[lo + j]);
    assert(side * after - side * before == side * (sizes[lo + j] as int)) by (nonlinear_arith)
        requires
            after == before + sizes[lo + j],
    ;
    lemma_floor_difference(side * before, side * after, row);
}

} // verus!
