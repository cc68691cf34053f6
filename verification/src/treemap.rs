//! Squarified treemap layout on an integer grid.
//!
//! A rectangle is divided among weighted items. Items are taken in order and
//! gathered into rows laid along the shorter side of what remains; a row is
//! closed as soon as one more item would worsen the worst aspect ratio among
//! its strips. Every length is rounded down to the grid by cumulative
//! proportion, so the strips of a row and the rows of a rectangle meet without
//! gap or overlap.

use vstd::prelude::*;
use crate::arith::{scaled, mul_div, lemma_scaled_bounds, lemma_scaled_whole, lemma_scaled_monotone};

verus! {

/// A positioned rectangle of the treemap, tagged with the position of its item
/// in the input.
#[derive(Clone, Copy, Debug, PartialEq, Eq, Structural)]
pub struct TreemapRect {
    pub x: i64,
    pub y: i64,
    pub w: i64,
    pub h: i64,
    pub index: usize,
}

/// The mathematical rectangle that a `TreemapRect` stands for.
pub ghost struct Tile {
    pub x: int,
    pub y: int,
    pub w: int,
    pub h: int,
    pub index: int,
}

impl View for TreemapRect {
    type V = Tile;

    open spec fn view(&self) -> Tile {
        Tile { x: self.x as int, y: self.y as int, w: self.w as int, h: self.h as int, index: self.index as int }
    }
}

/// The tiles that a sequence of rectangles stands for.
pub open spec fn tiles_of(rects: Seq<TreemapRect>) -> Seq<Tile> {
    Seq::new(rects.len(), |i: int| rects[i]@)
}

/// Sum of the sizes at positions `lo..hi`.
pub open spec fn range_sum(sizes: Seq<u64>, lo: int, hi: int) -> int
    decreases hi - lo,
{
    if hi <= lo {
        0
    } else {
        range_sum(sizes, lo, hi - 1) + sizes[hi - 1]
    }
}

/// An aspect ratio `num / den` with `num >= den >= 0`; `den == 0` means unbounded.
pub ghost struct Ratio {
    pub num: int,
    pub den: int,
}

/// The ratio that exceeds every bounded one.
pub open spec fn unbounded() -> Ratio {
    Ratio { num: 1, den: 0 }
}

/// Whether ratio `a` is strictly worse (larger) than ratio `b`.
pub open spec fn worse(a: Ratio, b: Ratio) -> bool {
    if b.den == 0 {
        false
    } else if a.den == 0 {
        true
    } else {
        a.num * b.den > b.num * a.den
    }
}

/// Aspect ratio of a strip that is `thick` along the long side and `extent`
/// along the short side.
pub open spec fn strip_ratio(thick: int, extent: int) -> Ratio {
    if thick >= extent {
        Ratio { num: thick, den: extent }
    } else {
        Ratio { num: extent, den: thick }
    }
}

/// Worst strip ratio among the items `lo..hi` with positive size, in a row of
/// thickness `thick` whose sizes sum to `row` across a side of length `side`.
pub open spec fn worst_of(sizes: Seq<u64>, lo: int, hi: int, thick: int, side: int, row: int) -> Ratio
    decreases hi - lo,
{
    if hi <= lo {
        Ratio { num: 0, den: 1 }
    } else {
        let prev = worst_of(sizes, lo, hi - 1, thick, side, row);
        let size = sizes[hi - 1] as int;
        if size == 0 {
            prev
        } else {
            let here = strip_ratio(thick, scaled(side, size, row));
            if worse(here, prev) {
                here
            } else {
                prev
            }
        }
    }
}

/// Worst aspect ratio of the candidate row `lo..hi` inside a rectangle with the
/// given short and long sides that is shared by the items `lo..`.
pub open spec fn row_worst(sizes: Seq<u64>, lo: int, hi: int, short: int, long: int) -> Ratio {
    let row = range_sum(sizes, lo, hi);
    if row <= 0 || short <= 0 {
        unbounded()
    } else {
        worst_of(sizes, lo, hi, scaled(long, row, range_sum(sizes, lo, sizes.len() as int)), short, row)
    }
}

/// End of the row that starts at `lo` and already holds the items `lo..hi`:
/// items are added while the worst ratio does not get worse.
pub open spec fn row_end(sizes: Seq<u64>, lo: int, hi: int, short: int, long: int) -> int
    decreases sizes.len() - hi,
{
    if hi >= sizes.len() {
        sizes.len() as int
    } else if worse(row_worst(sizes, lo, hi + 1, short, long), row_worst(sizes, lo, hi, short, long)) {
        hi
    } else {
        row_end(sizes, lo, hi + 1, short, long)
    }
}

/// The strip of item `lo + j` in a row that starts at `lo`, `thick` wide, whose
/// sizes sum to `row`. In a wide rectangle the row is a column at the left and
/// its strips are stacked downwards; otherwise it is a band at the top and its
/// strips run to the right.
pub open spec fn strip(sizes: Seq<u64>, lo: int, j: int, x: int, y: int, thick: int, side: int, row: int, wide: bool) -> Tile {
    let near = scaled(side, range_sum(sizes, lo, lo + j), row);
    let far = scaled(side, range_sum(sizes, lo, lo + j + 1), row);
    if wide {
        Tile { x: x, y: y + near, w: thick, h: far - near, index: lo + j }
    } else {
        Tile { x: x + near, y: y, w: far - near, h: thick, index: lo + j }
    }
}

/// The first `count` strips of a row.
pub open spec fn strips(sizes: Seq<u64>, lo: int, count: int, x: int, y: int, thick: int, side: int, row: int, wide: bool) -> Seq<Tile> {
    Seq::new(count as nat, |j: int| strip(sizes, lo, j, x, y, thick, side, row, wide))
}

/// The bounds of `row_end`.
pub proof fn lemma_row_end_bounds(sizes: Seq<u64>, lo: int, hi: int, short: int, long: int)
    requires
        hi <= sizes.len(),
    ensures
        hi <= row_end(sizes, lo, hi, short, long) <= sizes.len(),
    decreases sizes.len() - hi,
{
    if hi < sizes.len() && !worse(row_worst(sizes, lo, hi + 1, short, long), row_worst(sizes, lo, hi, short, long)) {
        lemma_row_end_bounds(sizes, lo, hi + 1, short, long);
    }
}

/// Tiles of the items `lo..` squarified into the rectangle at `(x, y)` of
/// width `w` and height `h`.
pub open spec fn squarify_spec(sizes: Seq<u64>, lo: int, x: int, y: int, w: int, h: int) -> Seq<Tile>
    decreases sizes.len() - lo,
{
    let n = sizes.len() as int;
    if lo < 0 || lo >= n {
        Seq::empty()
    } else if lo + 1 == n {
        seq![Tile { x: x, y: y, w: w, h: h, index: lo }]
    } else if range_sum(sizes, lo, n) <= 0 {
        Seq::empty()
    } else {
        let wide = w >= h;
        let short = if wide { h } else { w };
        let long = if wide { w } else { h };
        let end = row_end(sizes, lo, lo + 1, short, long);
        let row = range_sum(sizes, lo, end);
        let thick = scaled(long, row, range_sum(sizes, lo, n));
        proof {
            lemma_row_end_bounds(sizes, lo, lo + 1, short, long);
        }
        let first = strips(sizes, lo, end - lo, x, y, thick, short, row, wide);
        if wide {
            first + squarify_spec(sizes, end, x + thick, y, w - thick, h)
        } else {
            first + squarify_spec(sizes, end, x, y + thick, w, h - thick)
        }
    }
}

/// What `layout` returns: nothing for an empty list, an empty rectangle or
/// sizes that sum to zero; otherwise the squarified tiles of all items.
pub open spec fn layout_spec(x: int, y: int, w: int, h: int, sizes: Seq<u64>) -> Seq<Tile> {
    if sizes.len() == 0 || w <= 0 || h <= 0 || range_sum(sizes, 0, sizes.len() as int) <= 0 {
        Seq::empty()
    } else {
        squarify_spec(sizes, 0, x, y, w, h)
    }
}


/// A range sum is never negative.
pub proof fn lemma_range_sum_nonneg(sizes: Seq<u64>, lo: int, hi: int)
    ensures
        0 <= range_sum(sizes, lo, hi),
    decreases hi - lo,
{
    if hi > lo {
        lemma_range_sum_nonneg(sizes, lo, hi - 1);
    }
}

/// A range sum splits at any point inside the range.
pub proof fn lemma_range_sum_split(sizes: Seq<u64>, lo: int, mid: int, hi: int)
    requires
        lo <= mid <= hi,
    ensures
        range_sum(sizes, lo, hi) == range_sum(sizes, lo, mid) + range_sum(sizes, mid, hi),
    decreases hi - mid,
{
    if hi > mid {
        lemma_range_sum_split(sizes, lo, mid, hi - 1);
    }
}

/// Every item of a range is at most the range's sum.
pub proof fn lemma_range_sum_item(sizes: Seq<u64>, lo: int, j: int, hi: int)
    requires
        lo <= j < hi,
    ensures
        sizes[j] <= range_sum(sizes, lo, hi),
{
    lemma_range_sum_split(sizes, lo, j, hi);
    lemma_range_sum_split(sizes, j, j + 1, hi);
    lemma_range_sum_nonneg(sizes, lo, j);
    lemma_range_sum_nonneg(sizes, j + 1, hi);
    assert(range_sum(sizes, j, j + 1) == range_sum(sizes, j, j) + sizes[j]);
}

/// A range sum is bounded by the number of items times the largest size.
pub proof fn lemma_range_sum_bound(sizes: Seq<u64>, lo: int, hi: int)
    requires
        lo <= hi,
    ensures
        range_sum(sizes, lo, hi) <= (hi - lo) * 0xffff_ffff_ffff_ffff,
    decreases hi - lo,
{
    if hi > lo {
        lemma_range_sum_bound(sizes, lo, hi - 1);
    }
}

/// Sum of the sizes from `lo` to the end.
fn sum_from(sizes: &[u64], lo: usize) -> (total: u128)
    requires
        lo <= sizes@.len(),
    ensures
        total == range_sum(sizes@, lo as int, sizes@.len() as int),
{
    let n: usize = sizes.len();
    let mut i: usize = lo;
    let mut acc: u128 = 0;
    while i < n
        invariant
            lo <= i <= n,
            n == sizes@.len(),
            acc == range_sum(sizes@, lo as int, i as int),
        decreases n - i,
    {
        proof {
            lemma_range_sum_bound(sizes@, lo as int, i as int);
            assert((i - lo) * 0xffff_ffff_ffff_ffff + 0xffff_ffff_ffff_ffff <= u128::MAX) by (nonlinear_arith)
                requires
                    0 <= i - lo <= 0xffff_ffff_ffff_ffff,
            ;
        }
        acc = acc + sizes[i] as u128;
        i = i + 1;
    }
    acc
}

/// Whether the ratio `a.0 / a.1` is strictly larger than `b.0 / b.1`.
fn is_worse(a: (u64, u64), b: (u64, u64)) -> (out: bool)
    ensures
        out == worse((Ratio { num: a.0 as int, den: a.1 as int }), (Ratio { num: b.0 as int, den: b.1 as int })),
{
    if b.1 == 0 {
        false
    } else if a.1 == 0 {
        true
    } else {
        assert(a.0 * b.1 <= u128::MAX && b.0 * a.1 <= u128::MAX) by (nonlinear_arith)
            requires
                a.0 <= u64::MAX,
                a.1 <= u64::MAX,
                b.0 <= u64::MAX,
                b.1 <= u64::MAX,
        ;
        a.0 as u128 * b.1 as u128 > b.0 as u128 * a.1 as u128
    }
}

/// Worst aspect ratio among the strips of the candidate row `lo..hi`.
fn worst_ratio(sizes: &[u64], lo: usize, hi: usize, row: u128, total: u128, short: u64, long: u64) -> (out: (u64, u64))
    requires
        lo <= hi <= sizes@.len(),
        row == range_sum(sizes@, lo as int, hi as int),
        total == range_sum(sizes@, lo as int, sizes@.len() as int),
    ensures
        (Ratio { num: out.0 as int, den: out.1 as int }) == row_worst(sizes@, lo as int, hi as int, short as int, long as int),
{
    if row == 0 || short == 0 {
        return (1, 0);
    }
    proof {
        lemma_range_sum_split(sizes@, lo as int, hi as int, sizes@.len() as int);
        lemma_range_sum_nonneg(sizes@, hi as int, sizes@.len() as int);
    }
    let thick: u64 = mul_div(long, row, total);
    let mut worst: (u64, u64) = (0, 1);
    let mut i: usize = lo;
    while i < hi
        invariant
            lo <= i <= hi <= sizes@.len(),
            0 < row,
            row == range_sum(sizes@, lo as int, hi as int),
            (Ratio { num: worst.0 as int, den: worst.1 as int }) == worst_of(sizes@, lo as int, i as int, thick as int, short as int, row as int),
        decreases hi - i,
    {
        let size: u64 = sizes[i];
        if size != 0 {
            proof {
                lemma_range_sum_item(sizes@, lo as int, i as int, hi as int);
            }
            let extent: u64 = mul_div(short, size as u128, row);
            let here: (u64, u64) = if thick >= extent { (thick, extent) } else { (extent, thick) };
            if is_worse(here, worst) {
                worst = here;
            }
        }
        i = i + 1;
    }
    worst
}


/// A row that stops before the last item stops because the next item would
/// worsen it.
pub proof fn lemma_row_end_closed(sizes: Seq<u64>, lo: int, hi: int, short: int, long: int)
    requires
        hi <= sizes.len(),
    ensures
        ({
            let end = row_end(sizes, lo, hi, short, long);
            end < sizes.len() ==> worse(row_worst(sizes, lo, end + 1, short, long), row_worst(sizes, lo, end, short, long))
        }),
    decreases sizes.len() - hi,
{
    if hi < sizes.len() && !worse(row_worst(sizes, lo, hi + 1, short, long), row_worst(sizes, lo, hi, short, long)) {
        lemma_row_end_closed(sizes, lo, hi + 1, short, long);
    }
}

/// The first row of items with a positive total has a positive sum, and what
/// follows it starts with an item of positive size.
pub proof fn lemma_row_positive(sizes: Seq<u64>, lo: int, short: int, long: int)
    requires
        0 <= lo < sizes.len(),
        range_sum(sizes, lo, sizes.len() as int) > 0,
    ensures
        ({
            let end = row_end(sizes, lo, lo + 1, short, long);
            &&& lo < end <= sizes.len()
            &&& 0 < range_sum(sizes, lo, end) <= range_sum(sizes, lo, sizes.len() as int)
            &&& end < sizes.len() ==> sizes[end] > 0 && range_sum(sizes, end, sizes.len() as int) > 0
                && range_sum(sizes, lo, end) < range_sum(sizes, lo, sizes.len() as int)
        }),
{
    let n = sizes.len() as int;
    let end = row_end(sizes, lo, lo + 1, short, long);
    lemma_row_end_bounds(sizes, lo, lo + 1, short, long);
    lemma_row_end_closed(sizes, lo, lo + 1, short, long);
    lemma_range_sum_split(sizes, lo, end, n);
    lemma_range_sum_nonneg(sizes, end, n);
    if end < n {
        let before = row_worst(sizes, lo, end, short, long);
        let after = row_worst(sizes, lo, end + 1, short, long);
        assert(worse(after, before));
        assert(before.den != 0);
        assert(range_sum(sizes, lo, end) > 0);
        if sizes[end] == 0 {
            assert(range_sum(sizes, lo, end + 1) == range_sum(sizes, lo, end));
            assert(after == before);
            assert(false);
        }
        lemma_range_sum_item(sizes, end, end, n);
    }
}

/// Appending one rectangle appends its tile.
proof fn lemma_tiles_push(rects: Seq<TreemapRect>, rect: TreemapRect)
    ensures
        tiles_of(rects.push(rect)) == tiles_of(rects).push(rect@),
{
    assert(tiles_of(rects.push(rect)) =~= tiles_of(rects).push(rect@));
}

/// Lays the items `lo..` out in the given rectangle and appends their
/// rectangles to `result`.
fn squarify(sizes: &[u64], lo: usize, x: i64, y: i64, w: i64, h: i64, result: &mut Vec<TreemapRect>)
    requires
        lo <= sizes@.len(),
        0 <= w,
        0 <= h,
        x + w <= i64::MAX,
        y + h <= i64::MAX,
    ensures
        tiles_of(final(result)@) == tiles_of(old(result)@) + squarify_spec(sizes@, lo as int, x as int, y as int, w as int, h as int),
    decreases sizes@.len() - lo,
{
    let n: usize = sizes.len();
    if lo >= n {
        assert(tiles_of(result@) =~= tiles_of(result@) + Seq::<Tile>::empty());
        return;
    }
    if lo + 1 == n {
        proof {
            lemma_tiles_push(result@, TreemapRect { x, y, w, h, index: lo });
            assert(tiles_of(result@).push(Tile { x: x as int, y: y as int, w: w as int, h: h as int, index: lo as int })
                =~= tiles_of(result@) + seq![Tile { x: x as int, y: y as int, w: w as int, h: h as int, index: lo as int }]);
        }
        result.push(TreemapRect { x, y, w, h, index: lo });
        return;
    }
    let total: u128 = sum_from(sizes, lo);
    if total == 0 {
        assert(tiles_of(result@) =~= tiles_of(result@) + Seq::<Tile>::empty());
        return;
    }
    let wide: bool = w >= h;
    let short: u64 = if wide { h as u64 } else { w as u64 };
    let long: u64 = if wide { w as u64 } else { h as u64 };

    // Gather items into the row while the worst ratio does not get worse.
    let mut end: usize = lo + 1;
    let mut row: u128 = sizes[lo] as u128;
    assert(range_sum(sizes@, lo as int, lo + 1) == range_sum(sizes@, lo as int, lo as int) + sizes@[lo as int]);
    let mut best: (u64, u64) = worst_ratio(sizes, lo, end, row, total, short, long);
    let mut growing: bool = true;
    while growing && end < n
        invariant
            lo < end <= n,
            n == sizes@.len(),
            total == range_sum(sizes@, lo as int, n as int),
            row == range_sum(sizes@, lo as int, end as int),
            (Ratio { num: best.0 as int, den: best.1 as int }) == row_worst(sizes@, lo as int, end as int, short as int, long as int),
            growing ==> row_end(sizes@, lo as int, lo + 1, short as int, long as int) == row_end(sizes@, lo as int, end as int, short as int, long as int),
            !growing ==> row_end(sizes@, lo as int, lo + 1, short as int, long as int) == end,
        decreases n - end + (if growing { 1int } else { 0int }),
    {
        proof {
            lemma_range_sum_split(sizes@, lo as int, end + 1, n as int);
            lemma_range_sum_nonneg(sizes@, end + 1, n as int);
        }
        let new_sum: u128 = row + sizes[end] as u128;
        let new_ratio: (u64, u64) = worst_ratio(sizes, lo, end + 1, new_sum, total, short, long);
        if is_worse(new_ratio, best) {
            growing = false;
        } else {
            end = end + 1;
            row = new_sum;
            best = new_ratio;
        }
    }
    proof {
        lemma_row_positive(sizes@, lo as int, short as int, long as int);
        lemma_scaled_bounds(long as int, row as int, total as int);
    }
    let thick: u64 = mul_div(long, row, total);

    // Lay the row's strips out across the short side.
    let ghost before = tiles_of(result@);
    let mut j: usize = lo;
    let mut near: u64 = 0;
    let mut prefix: u128 = 0;
    proof {
        lemma_scaled_whole(short as int, row as int);
        assert(before =~= before + strips(sizes@, lo as int, 0, x as int, y as int, thick as int, short as int, row as int, wide));
    }
    while j < end
        invariant
            lo <= j <= end <= n,
            n == sizes@.len(),
            0 < row,
            row == range_sum(sizes@, lo as int, end as int),
            prefix == range_sum(sizes@, lo as int, j as int),
            near == scaled(short as int, prefix as int, row as int),
            near <= short,
            thick <= long,
            wide ==> short == h && long == w,
            !wide ==> short == w && long == h,
            0 <= w,
            0 <= h,
            x + w <= i64::MAX,
            y + h <= i64::MAX,
            tiles_of(result@) == before + strips(sizes@, lo as int, j - lo, x as int, y as int, thick as int, short as int, row as int, wide),
        decreases end - j,
    {
        proof {
            lemma_range_sum_split(sizes@, lo as int, j + 1, end as int);
            lemma_range_sum_nonneg(sizes@, j + 1, end as int);
            lemma_scaled_bounds(short as int, prefix + sizes@[j as int], row as int);
            lemma_scaled_monotone(short as int, prefix as int, prefix + sizes@[j as int], row as int);
        }
        let next: u128 = prefix + sizes[j] as u128;
        let far: u64 = mul_div(short, next, row);
        let rect: TreemapRect = if wide {
            TreemapRect { x: x, y: y + near as i64, w: thick as i64, h: (far - near) as i64, index: j }
        } else {
            TreemapRect { x: x + near as i64, y: y, w: (far - near) as i64, h: thick as i64, index: j }
        };
        proof {
            lemma_tiles_push(result@, rect);
            let so_far = strips(sizes@, lo as int, j - lo, x as int, y as int, thick as int, short as int, row as int, wide);
            let more = strips(sizes@, lo as int, j - lo + 1, x as int, y as int, thick as int, short as int, row as int, wide);
            assert(rect@ == strip(sizes@, lo as int, j - lo, x as int, y as int, thick as int, short as int, row as int, wide));
            assert((before + so_far).push(rect@) =~= before + more);
        }
        result.push(rect);
        prefix = next;
        near = far;
        j = j + 1;
    }
    let ghost first = strips(sizes@, lo as int, end - lo, x as int, y as int, thick as int, short as int, row as int, wide);
    let ghost rest = if wide {
        squarify_spec(sizes@, end as int, x + thick, y as int, w - thick, h as int)
    } else {
        squarify_spec(sizes@, end as int, x as int, y + thick, w as int, h - thick)
    };
    if wide {
        squarify(sizes, end, x + thick as i64, y, w - thick as i64, h, result);
    } else {
        squarify(sizes, end, x, y + thick as i64, w, h - thick as i64, result);
    }
    assert(tiles_of(result@) =~= before + (first + rest));
}

/// Squarified treemap layout of `sizes` in the rectangle at `(x, y)` of width
/// `w` and height `h`: one rectangle per item, in input order. An empty list,
/// an empty rectangle or sizes that sum to zero give no rectangles.
pub fn layout(x: i64, y: i64, w: i64, h: i64, sizes: &[u64]) -> (rects: Vec<TreemapRect>)
    requires
        w > 0 && h > 0 ==> x + w <= i64::MAX && y + h <= i64::MAX,
    ensures
        tiles_of(rects@) == layout_spec(x as int, y as int, w as int, h as int, sizes@),
{
    let mut result: Vec<TreemapRect> = Vec::new();
    if sizes.len() == 0 || w <= 0 || h <= 0 {
        assert(tiles_of(result@) =~= Seq::<Tile>::empty());
        return result;
    }
    let total: u128 = sum_from(sizes, 0);
    if total == 0 {
        assert(tiles_of(result@) =~= Seq::<Tile>::empty());
        return result;
    }
    assert(tiles_of(result@) =~= Seq::<Tile>::empty());
    squarify(sizes, 0, x, y, w, h, &mut result);
    assert(Seq::<Tile>::empty() + squarify_spec(sizes@, 0, x as int, y as int, w as int, h as int)
        =~= squarify_spec(sizes@, 0, x as int, y as int, w as int, h as int));
    result
}

} // verus!
