//! Properties of every layout, proved from the contracts of the layout.
//!
//! Each law speaks of the buffer `positions` that a state `s` of the greedy
//! scan after all boxes determines (`placed_layout`), for any such state of
//! the shape the scan keeps (`shaped`). `lemma_scan_shaped` shows that the
//! scan of `Layout::new` has that shape, and `native::lemma_block_scan_shaped`
//! that the block-wise scan of `get_justified_layout_simd` has it.

use crate::binary32::{binary32_add, binary32_gt, binary32_mul, is_nan, ZERO};
use crate::options::Limits;
use crate::rows::{
    at_most, box_left, box_placed, closed_row, closes_row_before, final_rows, is_layout_of,
    last_row, lemma_final_rows, more_than_one_below, lemma_max_at_least, lemma_rows_ordered, lemma_scan_shaped,
    lemma_split_bounds, placed_layout, row_extent, row_width, scan, scan_step, scan_steps, shaped,
    splits, Row, Scan,
};
use crate::native::lemma_scan_from;
use vstd::prelude::*;

verus! {

/// Every box sits in exactly one row.
pub proof fn law_each_box_in_one_row(s: Scan, ars: Seq<u32>, l: Limits, i: int)
    requires
        shaped(s, ars, l, ars.len() as int),
        0 <= i < ars.len(),
    ensures
        exists|r: int|
            0 <= r < final_rows(s, ars, l).len() && #[trigger] final_rows(s, ars, l)[r].start
                <= i < final_rows(s, ars, l)[r].end,
        forall|r: int, q: int|
            0 <= r < final_rows(s, ars, l).len() && 0 <= q < final_rows(s, ars, l).len()
                && #[trigger] final_rows(s, ars, l)[r].start <= i < final_rows(s, ars, l)[r].end
                && #[trigger] final_rows(s, ars, l)[q].start <= i < final_rows(s, ars, l)[q].end
                ==> r == q,
{
    lemma_final_rows(s, ars, l);
    let rows = final_rows(s, ars, l);
    lemma_row_of(rows, ars.len() as int, i, rows.len() - 1);
    assert forall|r: int, q: int|
        0 <= r < rows.len() && 0 <= q < rows.len() && #[trigger] rows[r].start <= i < rows[r].end
            && #[trigger] rows[q].start <= i < rows[q].end implies r == q by {
        if r < q {
            lemma_rows_ordered(rows, ars.len() as int, r, q);
        }
        if q < r {
            lemma_rows_ordered(rows, ars.len() as int, q, r);
        }
    }
}

/// The rows take the boxes in order: non-empty runs of consecutive boxes,
/// the first from box 0, the last up to the last box.
pub proof fn law_rows_split_boxes(s: Scan, ars: Seq<u32>, l: Limits)
    requires
        ars.len() > 0,
        shaped(s, ars, l, ars.len() as int),
    ensures
        splits(final_rows(s, ars, l), ars.len() as int),
{
    lemma_final_rows(s, ars, l);
}

/// The first row is at the top, and each further row lies `spacing` below
/// the one above it.
pub proof fn law_rows_stacked(s: Scan, ars: Seq<u32>, l: Limits)
    requires
        ars.len() > 0,
        shaped(s, ars, l, ars.len() as int),
    ensures
        final_rows(s, ars, l)[0].top == ZERO,
        forall|r: int|
            0 <= r < final_rows(s, ars, l).len() - 1 ==> #[trigger] final_rows(s, ars, l)[r
                + 1].top == binary32_add(
                final_rows(s, ars, l)[r].top,
                binary32_add(final_rows(s, ars, l)[r].height, l.spacing),
            ),
{
    lemma_final_rows(s, ars, l);
}

/// The first box has its top and left edges at 0: no spacing is put where
/// there is no box.
pub proof fn law_first_box_at_origin(positions: Seq<u32>, s: Scan, ars: Seq<u32>, l: Limits)
    requires
        ars.len() > 0,
        shaped(s, ars, l, ars.len() as int),
        placed_layout(positions, ars, l, s),
    ensures
        positions[4] == ZERO,
        positions[5] == ZERO,
{
    lemma_final_rows(s, ars, l);
    let rows = final_rows(s, ars, l);
    assert(box_placed(positions, ars, rows[0].start, rows[0].top, rows[0].height, 0, l.spacing));
}

/// The first box of every row has its left edge at 0.
pub proof fn law_rows_start_at_left_edge(
    positions: Seq<u32>,
    s: Scan,
    ars: Seq<u32>,
    l: Limits,
    r: int,
)
    requires
        ars.len() > 0,
        shaped(s, ars, l, ars.len() as int),
        placed_layout(positions, ars, l, s),
        0 <= r < final_rows(s, ars, l).len(),
    ensures
        positions[4 * final_rows(s, ars, l)[r].start + 5] == ZERO,
{
    lemma_final_rows(s, ars, l);
    let row = final_rows(s, ars, l)[r];
    assert(box_placed(positions, ars, row.start, row.top, row.height, row.start, l.spacing));
}

/// Within a row, a box has the top and height of the box before it, keeps its
/// aspect ratio, and starts `spacing` after the right edge of the box before it.
pub proof fn law_boxes_in_row(
    positions: Seq<u32>,
    s: Scan,
    ars: Seq<u32>,
    l: Limits,
    r: int,
    i: int,
)
    requires
        ars.len() > 0,
        shaped(s, ars, l, ars.len() as int),
        placed_layout(positions, ars, l, s),
        0 <= r < final_rows(s, ars, l).len(),
        final_rows(s, ars, l)[r].start < i < final_rows(s, ars, l)[r].end,
    ensures
        positions[4 * i + 4] == positions[4 * i],
        positions[4 * i + 7] == positions[4 * i + 3],
        positions[4 * i + 6] == binary32_mul(ars[i], positions[4 * i + 7]),
        positions[4 * i + 5] == binary32_add(
            positions[4 * i + 1],
            binary32_add(positions[4 * i + 2], l.spacing),
        ),
{
    lemma_final_rows(s, ars, l);
    let row = final_rows(s, ars, l)[r];
    assert(box_placed(positions, ars, row.start, row.top, row.height, i, l.spacing));
    assert(box_placed(positions, ars, row.start, row.top, row.height, i - 1, l.spacing));
    assert(4 * (i - 1) + 4 == 4 * i);
    assert(box_left(ars, row.start, i, row.height, l.spacing) == binary32_add(
        box_left(ars, row.start, i - 1, row.height, l.spacing),
        binary32_add(binary32_mul(ars[i - 1], row.height), l.spacing),
    ));
}

/// No row but the last is taller than the largest row height, and each is
/// shown at a height that is a number.
pub proof fn law_rows_capped(s: Scan, ars: Seq<u32>, l: Limits, r: int)
    requires
        ars.len() > 0,
        shaped(s, ars, l, ars.len() as int),
        0 <= r < final_rows(s, ars, l).len() - 1,
        !is_nan(l.max_row_height),
    ensures
        at_most(final_rows(s, ars, l)[r].height, l.max_row_height),
{
    lemma_final_rows(s, ars, l);
}

/// No row but the last that holds several boxes is shown more than one below
/// the smallest row height, `row_height * (1 - tolerance)` (at least 0), when
/// the largest row height is not itself more than one below it.
pub proof fn law_rows_not_too_short(s: Scan, ars: Seq<u32>, l: Limits, r: int)
    requires
        ars.len() > 0,
        shaped(s, ars, l, ars.len() as int),
        0 <= r < final_rows(s, ars, l).len() - 1,
        final_rows(s, ars, l)[r].end - final_rows(s, ars, l)[r].start >= 2,
        !more_than_one_below(l.max_row_height, l.min_row_height),
    ensures
        !more_than_one_below(final_rows(s, ars, l)[r].height, l.min_row_height),
{
    lemma_final_rows(s, ars, l);
}

/// The last row is shown at the height that fills the row width when that
/// does not exceed the largest row height; otherwise at the height of the row
/// above it, or at the target row height when it is the only row.
pub proof fn law_last_row_height(s: Scan, ars: Seq<u32>, l: Limits)
    requires
        ars.len() > 0,
        shaped(s, ars, l, ars.len() as int),
    ensures
        ({
            let rows = final_rows(s, ars, l);
            let last = rows.last();
            &&& !binary32_gt(last.fill, l.max_row_height) ==> last.height == last.fill
            &&& binary32_gt(last.fill, l.max_row_height) && rows.len() > 1 ==> last.height
                == rows[rows.len() - 2].height
            &&& binary32_gt(last.fill, l.max_row_height) && rows.len() == 1 ==> last.height
                == l.row_height
        }),
{
    lemma_final_rows(s, ars, l);
    let rows = final_rows(s, ars, l);
    if rows.len() > 1 {
        assert(rows[rows.len() - 2] == s.rows.last());
    }
}

/// The last row is no taller than the largest row height either, when the
/// height at which it fills the row width is a number and the target height
/// is no greater than the largest (as with any tolerance of 0).
pub proof fn law_last_row_capped(s: Scan, ars: Seq<u32>, l: Limits)
    requires
        ars.len() > 0,
        shaped(s, ars, l, ars.len() as int),
        !is_nan(final_rows(s, ars, l).last().fill),
        at_most(l.row_height, l.max_row_height),
    ensures
        at_most(final_rows(s, ars, l).last().height, l.max_row_height),
{
    lemma_final_rows(s, ars, l);
    law_last_row_height(s, ars, l);
    let rows = final_rows(s, ars, l);
    if rows.len() > 1 {
        law_rows_capped(s, ars, l, rows.len() - 2);
    }
}

/// The layout is as wide as its widest row: no row whose width is a number is
/// wider than the layout, and that width is a number.
pub proof fn law_width_covers_rows(positions: Seq<u32>, s: Scan, ars: Seq<u32>, l: Limits, r: int)
    requires
        ars.len() > 0,
        shaped(s, ars, l, ars.len() as int),
        placed_layout(positions, ars, l, s),
        0 <= r < final_rows(s, ars, l).len(),
        !is_nan(row_width(ars, final_rows(s, ars, l)[r])),
    ensures
        at_most(row_width(ars, final_rows(s, ars, l)[r]), positions[0]),
{
    lemma_final_rows(s, ars, l);
    let rows = final_rows(s, ars, l);
    let last = rows.last();
    lemma_max_at_least(row_width(ars, last), s.max_width);
}

/// The layout's width is a number no less than 0.
pub proof fn law_width_not_negative(positions: Seq<u32>, s: Scan, ars: Seq<u32>, l: Limits)
    requires
        ars.len() > 0,
        shaped(s, ars, l, ars.len() as int),
        placed_layout(positions, ars, l, s),
    ensures
        at_most(ZERO, positions[0]),
{
    lemma_max_at_least(row_width(ars, last_row(s, ars, l)), s.max_width);
}

/// The layout's height is the bottom edge of its last box.
pub proof fn law_height_is_bottom_of_last_box(
    positions: Seq<u32>,
    s: Scan,
    ars: Seq<u32>,
    l: Limits,
)
    requires
        ars.len() > 0,
        shaped(s, ars, l, ars.len() as int),
        placed_layout(positions, ars, l, s),
    ensures
        positions[1] == binary32_add(
            positions[4 * (ars.len() - 1) + 4],
            positions[4 * (ars.len() - 1) + 7],
        ),
{
    lemma_final_rows(s, ars, l);
    let rows = final_rows(s, ars, l);
    let last = rows.last();
    let i = ars.len() - 1;
    assert(box_placed(positions, ars, last.start, last.top, last.height, i, l.spacing));
}

/// A layout is determined by its aspect ratios and limits: two buffers that
/// are both the layout of `ars` under `l` are equal.
pub proof fn law_layout_unique(p: Seq<u32>, q: Seq<u32>, ars: Seq<u32>, l: Limits)
    requires
        is_layout_of(p, ars, l),
        is_layout_of(q, ars, l),
    ensures
        p == q,
{
    if ars.len() > 0 {
        let s = scan(ars, l, ars.len() as int);
        lemma_scan_shaped(ars, l, ars.len() as int);
        lemma_same_placement(p, q, s, ars, l);
    }
}

/// Two buffers placed from the same state after all boxes are equal.
pub proof fn lemma_same_placement(p: Seq<u32>, q: Seq<u32>, s: Scan, ars: Seq<u32>, l: Limits)
    requires
        ars.len() > 0,
        shaped(s, ars, l, ars.len() as int),
        placed_layout(p, ars, l, s),
        placed_layout(q, ars, l, s),
    ensures
        p == q,
{
    let rows = final_rows(s, ars, l);
    assert forall|k: int| 0 <= k < p.len() implies p[k] == q[k] by {
        if k >= 4 {
            let i = (k - 4) / 4;
            law_each_box_in_one_row(s, ars, l, i);
            let r = choose|r: int| 0 <= r < rows.len() && #[trigger] rows[r].start <= i < rows[r].end;
            assert(box_placed(p, ars, rows[r].start, rows[r].top, rows[r].height, i, l.spacing));
            assert(box_placed(q, ars, rows[r].start, rows[r].top, rows[r].height, i, l.spacing));
            assert(k == 4 * i + 4 || k == 4 * i + 5 || k == 4 * i + 6 || k == 4 * i + 7);
        }
    }
    assert(p =~= q);
}

/// Appending boxes never moves a row already closed: the closed rows of the
/// layout `q` of `a` are the first rows of the layout `p` of `a ++ b`, and
/// each box `k` before the last row of `q` lies in `p` where it lies in `q`.
pub proof fn law_appending_keeps_closed_rows(
    p: Seq<u32>,
    q: Seq<u32>,
    a: Seq<u32>,
    b: Seq<u32>,
    l: Limits,
    k: int,
)
    requires
        a.len() > 0,
        is_layout_of(q, a, l),
        is_layout_of(p, a + b, l),
        0 <= k < scan(a, l, a.len() as int).row_start,
    ensures
        forall|r: int|
            0 <= r < scan(a, l, a.len() as int).rows.len() ==> #[trigger] final_rows(
                scan(a + b, l, (a + b).len() as int),
                a + b,
                l,
            )[r] == scan(a, l, a.len() as int).rows[r],
        p[4 * k + 4] == q[4 * k + 4],
        p[4 * k + 5] == q[4 * k + 5],
        p[4 * k + 6] == q[4 * k + 6],
        p[4 * k + 7] == q[4 * k + 7],
{
    let ab = a + b;
    let n = a.len() as int;
    let m = ab.len() as int;
    let s = scan(a, l, n);
    let t = scan(ab, l, m);
    lemma_scan_prefix(a, b, l, n);
    lemma_scan_from(ab, l, n, m - n);
    lemma_rows_grow(s, ab, l, n, m);
    lemma_scan_shaped(a, l, n);
    lemma_scan_shaped(ab, l, m);
    lemma_split_bounds(s.rows, s.row_start);
    let rows_q = final_rows(s, a, l);
    let rows_p = final_rows(t, ab, l);
    assert forall|r: int| 0 <= r < s.rows.len() implies #[trigger] rows_p[r] == s.rows[r] by {
        assert(rows_p[r] == t.rows[r]);
    }
    lemma_row_of(s.rows, s.row_start, k, s.rows.len() - 1);
    let r = choose|r: int| 0 <= r < s.rows.len() && #[trigger] s.rows[r].start <= k < s.rows[r].end;
    let row = s.rows[r];
    assert(rows_q[r] == row);
    assert(rows_p[r] == row);
    assert(box_placed(q, a, row.start, row.top, row.height, k, l.spacing));
    assert(box_placed(p, ab, row.start, row.top, row.height, k, l.spacing));
    lemma_box_left_prefix(a, b, row.start, k, row.height, l.spacing);
    assert(ab[k] == a[k]);
}

/// The left edge of a box reads only the aspect ratios before it.
proof fn lemma_box_left_prefix(a: Seq<u32>, b: Seq<u32>, start: int, j: int, height: u32, spacing: u32)
    requires
        0 <= start,
        j <= a.len(),
    ensures
        box_left(a + b, start, j, height, spacing) == box_left(a, start, j, height, spacing),
    decreases j - start,
{
    if j > start {
        lemma_box_left_prefix(a, b, start, j - 1, height, spacing);
        assert((a + b)[j - 1] == a[j - 1]);
    }
}

/// The width of boxes `start..j` reads only the aspect ratios before `j`.
proof fn lemma_row_extent_prefix(
    a: Seq<u32>,
    b: Seq<u32>,
    start: int,
    j: int,
    height: u32,
    spacing_pixels: u32,
)
    requires
        0 <= start,
        j <= a.len(),
    ensures
        row_extent(a + b, start, j, height, spacing_pixels) == row_extent(
            a,
            start,
            j,
            height,
            spacing_pixels,
        ),
    decreases j - start,
{
    if j > start {
        lemma_row_extent_prefix(a, b, start, j - 1, height, spacing_pixels);
        assert((a + b)[j - 1] == a[j - 1]);
    }
}

/// The scan of the first `k` boxes of `a ++ b` is the scan of the first `k`
/// boxes of `a`.
proof fn lemma_scan_prefix(a: Seq<u32>, b: Seq<u32>, l: Limits, k: int)
    requires
        0 <= k <= a.len(),
    ensures
        scan(a + b, l, k) == scan(a, l, k),
    decreases k,
{
    if k > 0 {
        lemma_scan_prefix(a, b, l, k - 1);
        let s = scan(a, l, k - 1);
        lemma_scan_shaped(a, l, k - 1);
        reveal(scan_step);
        assert((a + b)[k - 1] == a[k - 1]);
        let row = closed_row(s, l, k - 1);
        lemma_row_extent_prefix(a, b, row.start, row.end, row.height, row.spacing_pixels);
        assert(scan_step(s, a + b, l, k - 1) == scan_step(s, a, l, k - 1));
    }
}

/// Steps of the scan keep the rows closed before them, in place.
proof fn lemma_rows_grow(s: Scan, ars: Seq<u32>, l: Limits, from: int, k: int)
    ensures
        s.rows.len() <= scan_steps(s, ars, l, from, k).rows.len(),
        forall|r: int|
            0 <= r < s.rows.len() ==> #[trigger] scan_steps(s, ars, l, from, k).rows[r] == s.rows[r],
    decreases k - from,
{
    if k > from {
        lemma_rows_grow(s, ars, l, from, k - 1);
        reveal(scan_step);
        let u = scan_steps(s, ars, l, from, k - 1);
        let v = scan_steps(s, ars, l, from, k);
        assert(v == scan_step(u, ars, l, k - 1));
        assert forall|r: int| 0 <= r < s.rows.len() implies #[trigger] v.rows[r] == s.rows[r] by {
            assert(u.rows[r] == s.rows[r]);
            if closes_row_before(u, ars, l, k - 1) {
                assert(v.rows == u.rows.push(closed_row(u, l, k - 1)));
            }
        }
    }
}

/// The layout's height is the bottom of its last row.
pub proof fn law_height_is_bottom_of_last_row(
    positions: Seq<u32>,
    s: Scan,
    ars: Seq<u32>,
    l: Limits,
)
    requires
        ars.len() > 0,
        shaped(s, ars, l, ars.len() as int),
        placed_layout(positions, ars, l, s),
    ensures
        positions[1] == binary32_add(
            final_rows(s, ars, l).last().top,
            final_rows(s, ars, l).last().height,
        ),
{
}

/// The buffer holds four values for each box after a header of four.
pub proof fn law_box_count(positions: Seq<u32>, s: Scan, ars: Seq<u32>, l: Limits)
    requires
        placed_layout(positions, ars, l, s),
    ensures
        positions.len() >= 4,
        (positions.len() - 4) / 4 == ars.len(),
{
}

/// Whether box `i` starts a row of the state `s`: a closed row or the open one.
pub open spec fn starts_row(s: Scan, i: int) -> bool {
    i == s.row_start || exists|r: int| 0 <= r < s.rows.len() && #[trigger] s.rows[r].start == i
}

/// Rows break where the greedy rule says: after the first box, a box starts
/// a row of the layout exactly when adding its aspect ratio makes the open row
/// too wide (beyond the largest row aspect ratio, or farther from the target
/// than before).
pub proof fn law_rows_break_where_full(ars: Seq<u32>, l: Limits, i: int)
    requires
        0 < i < ars.len(),
    ensures
        (exists|r: int|
            0 <= r < final_rows(scan(ars, l, ars.len() as int), ars, l).len()
                && #[trigger] final_rows(scan(ars, l, ars.len() as int), ars, l)[r].start == i)
            <==> closes_row_before(scan(ars, l, i), ars, l, i),
{
    let n = ars.len() as int;
    let s = scan(ars, l, n);
    let rows = final_rows(s, ars, l);
    lemma_starts(ars, l, n);
    lemma_scan_shaped(ars, l, n);
    if closes_row_before(scan(ars, l, i), ars, l, i) {
        assert(starts_row(s, i));
        if i == s.row_start {
            assert(rows[rows.len() - 1].start == i);
        } else {
            let r = choose|r: int| 0 <= r < s.rows.len() && #[trigger] s.rows[r].start == i;
            assert(rows[r] == s.rows[r]);
        }
    }
    if exists|r: int| 0 <= r < rows.len() && #[trigger] rows[r].start == i {
        let r = choose|r: int| 0 <= r < rows.len() && #[trigger] rows[r].start == i;
        if r < rows.len() - 1 {
            assert(rows[r] == s.rows[r]);
        }
        assert(starts_row(s, i));
    }
}

/// After boxes `0..k`, a box `i` with `0 < i < k` starts a row exactly when
/// the rule closes a row before it.
proof fn lemma_starts(ars: Seq<u32>, l: Limits, k: int)
    requires
        0 <= k <= ars.len(),
    ensures
        forall|i: int|
            0 < i < k ==> (starts_row(scan(ars, l, k), i) <==> closes_row_before(
                #[trigger] scan(ars, l, i),
                ars,
                l,
                i,
            )),
    decreases k,
{
    if k > 0 {
        lemma_starts(ars, l, k - 1);
        lemma_scan_shaped(ars, l, k - 1);
        reveal(scan_step);
        let p = scan(ars, l, k - 1);
        let s = scan(ars, l, k);
        lemma_split_starts(p.rows, p.row_start);
        assert forall|i: int| 0 < i < k implies (starts_row(s, i) <==> closes_row_before(
            #[trigger] scan(ars, l, i),
            ars,
            l,
            i,
        )) by {
            if closes_row_before(p, ars, l, k - 1) {
                assert(s.rows == p.rows.push(closed_row(p, l, k - 1)));
                if i < k - 1 {
                    if starts_row(p, i) {
                        if i == p.row_start {
                            assert(s.rows[p.rows.len() as int].start == i);
                        } else {
                            let r = choose|r: int|
                                0 <= r < p.rows.len() && #[trigger] p.rows[r].start == i;
                            assert(s.rows[r] == p.rows[r]);
                        }
                    }
                    if starts_row(s, i) {
                        let r = choose|r: int|
                            0 <= r < s.rows.len() && #[trigger] s.rows[r].start == i;
                        if r < p.rows.len() {
                            assert(s.rows[r] == p.rows[r]);
                        }
                    }
                }
            } else {
                assert(s.rows == p.rows);
                if i == k - 1 && starts_row(s, i) {
                    assert(i >= p.row_start);
                }
            }
        }
    }
}

/// The closed rows of rows that split `0..end` start before `end`.
proof fn lemma_split_starts(rows: Seq<Row>, end: int)
    requires
        splits(rows, end),
    ensures
        forall|r: int| 0 <= r < rows.len() ==> #[trigger] rows[r].start < end,
{
    assert forall|r: int| 0 <= r < rows.len() implies #[trigger] rows[r].start < end by {
        if r < rows.len() - 1 {
            lemma_rows_ordered(rows, end, r, rows.len() - 1);
        }
    }
}

/// A box inside `0..end` lies in some row of rows that split `0..end`: the
/// row at index `q` or an earlier one, when the box is before that row's end.
pub proof fn lemma_row_of(rows: Seq<Row>, end: int, i: int, q: int)
    requires
        splits(rows, end),
        0 <= i < end,
        0 <= q < rows.len(),
        i < rows[q].end,
    ensures
        exists|r: int| 0 <= r < rows.len() && #[trigger] rows[r].start <= i < rows[r].end,
    decreases q,
{
    if rows[q].start <= i {
        assert(rows[q].start <= i < rows[q].end);
    } else {
        assert(q > 0);
        assert(rows[q - 1].end == rows[q].start);
        lemma_row_of(rows, end, i, q - 1);
    }
}

} // verus!
