//! The rules of a layout stated over its input and its buffer alone.
//!
//! The laws here do not go through the state of the scan: where a row breaks
//! is stated over running sums of the aspect ratios, the height of each row
//! over the row width, the spacing and the aspect ratios of its boxes, and the
//! layout's width over the widths that the buffer gives its boxes.

use crate::binary32::{
    binary32_abs, binary32_add, binary32_div, binary32_from_int, binary32_gt, binary32_min,
    binary32_mul, binary32_sub, is_nan, ONE, ZERO,
};
use crate::laws::law_each_box_in_one_row;
use crate::options::Limits;
use crate::rows::{
    at_most, box_placed, closed_row, closes_row_before, final_rows, is_layout_of,
    lemma_final_rows, lemma_rows_ordered, lemma_scan_shaped, lemma_split_bounds, placed_layout,
    row_extent, row_width, scan, scan_start, scan_step, shaped, splits, Row, Scan,
};
use vstd::prelude::*;

verus! {

/// The running aspect ratio of a row that starts at box `s`, after its box
/// `j`: the aspect ratios of boxes `s..=j`, with the spacing's share of the
/// row height added after each box but the last, summed from the left. The
/// very first box is added to the empty sum 0.
pub open spec fn running(ars: Seq<u32>, l: Limits, s: int, j: int) -> u32
    decreases j - s,
{
    if j <= s {
        if s == 0 {
            binary32_add(ZERO, ars[0])
        } else {
            ars[s]
        }
    } else {
        binary32_add(binary32_add(running(ars, l, s, j - 1), l.spacing_aspect_ratio), ars[j])
    }
}

/// The room the gaps take in a row of `count` boxes: `count - 1` times the
/// spacing.
pub open spec fn gaps(l: Limits, count: int) -> u32 {
    binary32_mul(l.spacing, binary32_from_int((count - 1) as u128))
}

/// The height at which boxes `s..e` fill the row width: what the row width
/// leaves after the gaps, over the summed aspect ratios of the boxes.
pub open spec fn filling_height(ars: Seq<u32>, l: Limits, s: int, e: int) -> u32 {
    let ratios = binary32_sub(
        binary32_add(running(ars, l, s, e - 1), l.spacing_aspect_ratio),
        binary32_mul(l.spacing_aspect_ratio, binary32_from_int((e - s) as u128)),
    );
    binary32_div(binary32_sub(l.row_width, gaps(l, e - s)), ratios)
}

/// Whether box `j` may join the row that starts at box `s < j`: the running
/// aspect ratio stays within the largest row aspect ratio, gets no farther
/// from the target than before the box, and the row would not be shown more
/// than one below the smallest row height.
pub open spec fn joins(ars: Seq<u32>, l: Limits, s: int, j: int) -> bool {
    let with = running(ars, l, s, j);
    let without = running(ars, l, s, j - 1);
    &&& !binary32_gt(with, l.max_row_aspect_ratio)
    &&& !binary32_gt(
        binary32_abs(binary32_sub(with, l.target_row_aspect_ratio)),
        binary32_abs(binary32_sub(without, l.target_row_aspect_ratio)),
    )
    &&& !binary32_gt(l.min_row_height, binary32_add(filling_height(ars, l, s, j + 1), ONE))
}

/// The width the buffer gives boxes `s..e` together with `gaps`: the gaps,
/// then the width of each box added from the left.
pub open spec fn placed_width(positions: Seq<u32>, s: int, e: int, gaps: u32) -> u32
    decreases e - s,
{
    if e <= s {
        gaps
    } else {
        binary32_add(placed_width(positions, s, e - 1, gaps), positions[4 * (e - 1) + 6])
    }
}

/// The height the buffer gives box `i`.
pub open spec fn shown_height(positions: Seq<u32>, i: int) -> u32 {
    positions[4 * i + 7]
}

/// The greedy rule, over the aspect ratios: every box after the first of a
/// row joins it by `joins`, and the box after a row that is followed by
/// another does not.
pub proof fn law_rows_break_by_the_rule(ars: Seq<u32>, l: Limits)
    requires
        ars.len() > 0,
    ensures
        ({
            let rows = final_rows(scan(ars, l, ars.len() as int), ars, l);
            &&& forall|r: int, j: int|
                0 <= r < rows.len() && rows[r].start < j < rows[r].end ==> #[trigger] joins(
                    ars,
                    l,
                    rows[r].start,
                    j,
                )
            &&& forall|r: int|
                0 <= r < rows.len() - 1 ==> !joins(ars, l, #[trigger] rows[r].start, rows[r].end)
        }),
{
    let n = ars.len() as int;
    let s = scan(ars, l, n);
    lemma_scan_follows(ars, l, n);
    lemma_scan_shaped(ars, l, n);
    lemma_final_rows(s, ars, l);
    let rows = final_rows(s, ars, l);
    assert forall|r: int, j: int|
        0 <= r < rows.len() && rows[r].start < j < rows[r].end implies #[trigger] joins(
        ars,
        l,
        rows[r].start,
        j,
    ) by {
        if r < rows.len() - 1 {
            assert(rows[r] == s.rows[r]);
        }
    }
    assert forall|r: int| 0 <= r < rows.len() - 1 implies !joins(
        ars,
        l,
        #[trigger] rows[r].start,
        rows[r].end,
    ) by {
        assert(rows[r] == s.rows[r]);
    }
}

/// Each row is shown at the height at which its boxes and gaps fill the row
/// width, capped at the largest row height; the last row keeps that height
/// only where it is within the cap, and otherwise takes the height of the box
/// before it, or the target height when it is the only row.
pub proof fn law_rows_fill_the_width(positions: Seq<u32>, ars: Seq<u32>, l: Limits)
    requires
        ars.len() > 0,
        is_layout_of(positions, ars, l),
    ensures
        ({
            let rows = final_rows(scan(ars, l, ars.len() as int), ars, l);
            let last = rows.last();
            let fill = filling_height(ars, l, last.start, last.end);
            &&& forall|r: int, i: int|
                #![trigger rows[r], shown_height(positions, i)]
                0 <= r < rows.len() - 1 && rows[r].start <= i < rows[r].end ==> shown_height(
                    positions,
                    i,
                ) == binary32_min(
                    filling_height(ars, l, rows[r].start, rows[r].end),
                    l.max_row_height,
                )
            &&& forall|i: int|
                last.start <= i < last.end ==> #[trigger] shown_height(positions, i) == if binary32_gt(
                    fill,
                    l.max_row_height,
                ) {
                    if last.start > 0 {
                        positions[4 * last.start + 3]
                    } else {
                        l.row_height
                    }
                } else {
                    fill
                }
        }),
{
    let n = ars.len() as int;
    let rows = final_rows(scan(ars, l, n), ars, l);
    let last = rows.last();
    lemma_row_heights(ars, l);
    let s = scan(ars, l, n);
    assert(placed_layout(positions, ars, l, s));
    assert forall|r: int, i: int|
        #![trigger rows[r], shown_height(positions, i)]
        0 <= r < rows.len() - 1 && rows[r].start <= i < rows[r].end implies shown_height(
        positions,
        i,
    ) == binary32_min(filling_height(ars, l, rows[r].start, rows[r].end), l.max_row_height) by {
        assert(box_placed(positions, ars, rows[r].start, rows[r].top, rows[r].height, i, l.spacing));
    }
    if last.start > 0 {
        let p = rows[rows.len() - 2];
        assert(box_placed(positions, ars, p.start, p.top, p.height, last.start - 1, l.spacing));
    }
    assert forall|i: int| last.start <= i < last.end implies #[trigger] shown_height(positions, i)
        == if binary32_gt(filling_height(ars, l, last.start, last.end), l.max_row_height) {
        if last.start > 0 {
            positions[4 * last.start + 3]
        } else {
            l.row_height
        }
    } else {
        filling_height(ars, l, last.start, last.end)
    } by {
        assert(box_placed(positions, ars, last.start, last.top, last.height, i, l.spacing));
    }
}

/// The rows of a layout, with the height each is shown at, over the input.
proof fn lemma_row_heights(ars: Seq<u32>, l: Limits)
    requires
        ars.len() > 0,
    ensures
        ({
            let rows = final_rows(scan(ars, l, ars.len() as int), ars, l);
            let last = rows.last();
            let fill = filling_height(ars, l, last.start, last.end);
            &&& rows.len() > 0
            &&& forall|r: int|
                0 <= r < rows.len() ==> 0 <= #[trigger] rows[r].start && rows[r].end <= ars.len()
            &&& forall|r: int|
                0 <= r < rows.len() - 1 ==> #[trigger] rows[r].height == binary32_min(
                    filling_height(ars, l, rows[r].start, rows[r].end),
                    l.max_row_height,
                )
            &&& last.start > 0 ==> rows.len() > 1 && rows[rows.len() - 2].end == last.start
                && rows[rows.len() - 2].start < last.start
            &&& last.height == if binary32_gt(fill, l.max_row_height) {
                if last.start > 0 {
                    rows[rows.len() - 2].height
                } else {
                    l.row_height
                }
            } else {
                fill
            }
        }),
{
    let n = ars.len() as int;
    let s = scan(ars, l, n);
    lemma_scan_follows(ars, l, n);
    lemma_scan_shaped(ars, l, n);
    lemma_final_rows(s, ars, l);
    let rows = final_rows(s, ars, l);
    lemma_split_bounds(rows, n);
    assert forall|r: int| 0 <= r < rows.len() - 1 implies #[trigger] rows[r].height
        == binary32_min(filling_height(ars, l, rows[r].start, rows[r].end), l.max_row_height) by {
        assert(rows[r] == s.rows[r]);
    }
    if rows.last().start > 0 {
        assert(rows[rows.len() - 2] == s.rows.last());
    }
}

/// The layout is exactly as wide as its widest row: its width is the width
/// the buffer gives one of its rows (boxes and gaps), and no row whose width
/// is a number is wider; it is 0 only where no row is wider than 0.
pub proof fn law_width_is_the_widest_row(positions: Seq<u32>, ars: Seq<u32>, l: Limits)
    requires
        ars.len() > 0,
        is_layout_of(positions, ars, l),
    ensures
        ({
            let rows = final_rows(scan(ars, l, ars.len() as int), ars, l);
            &&& forall|r: int|
                0 <= r < rows.len() && !is_nan(
                    placed_width(positions, rows[r].start, rows[r].end, gaps(l, rows[r].end - rows[r].start)),
                ) ==> at_most(
                    #[trigger] placed_width(
                        positions,
                        rows[r].start,
                        rows[r].end,
                        gaps(l, rows[r].end - rows[r].start),
                    ),
                    positions[0],
                )
            &&& (exists|r: int|
                0 <= r < rows.len() && positions[0] == #[trigger] placed_width(
                    positions,
                    rows[r].start,
                    rows[r].end,
                    gaps(l, rows[r].end - rows[r].start),
                )) || positions[0] == ZERO
            &&& at_most(ZERO, positions[0])
        }),
{
    let n = ars.len() as int;
    let s = scan(ars, l, n);
    lemma_scan_follows(ars, l, n);
    lemma_scan_shaped(ars, l, n);
    lemma_final_rows(s, ars, l);
    let rows = final_rows(s, ars, l);
    lemma_split_bounds(rows, n);
    let last = rows.last();
    assert forall|r: int| 0 <= r < rows.len() implies #[trigger] placed_width(
        positions,
        rows[r].start,
        rows[r].end,
        gaps(l, rows[r].end - rows[r].start),
    ) == row_width(ars, rows[r]) by {
        if r < rows.len() - 1 {
            assert(rows[r] == s.rows[r]);
        }
        lemma_placed_width(positions, ars, l, rows[r], rows[r].end);
    }
    crate::rows::lemma_max_at_least(row_width(ars, last), s.max_width);
    if positions[0] != ZERO {
        if positions[0] == row_width(ars, last) {
            assert(positions[0] == placed_width(
                positions,
                rows[rows.len() - 1].start,
                rows[rows.len() - 1].end,
                gaps(l, rows[rows.len() - 1].end - rows[rows.len() - 1].start),
            ));
        } else {
            assert(positions[0] == s.max_width);
            let r = choose|r: int| 0 <= r < s.rows.len() && s.max_width == row_width(ars, #[trigger] s.rows[r]);
            assert(rows[r] == s.rows[r]);
            assert(positions[0] == placed_width(
                positions,
                rows[r].start,
                rows[r].end,
                gaps(l, rows[r].end - rows[r].start),
            ));
        }
    }
    assert forall|r: int|
        0 <= r < rows.len() && !is_nan(
            placed_width(positions, rows[r].start, rows[r].end, gaps(l, rows[r].end - rows[r].start)),
        ) implies at_most(
        #[trigger] placed_width(
            positions,
            rows[r].start,
            rows[r].end,
            gaps(l, rows[r].end - rows[r].start),
        ),
        positions[0],
    ) by {
        if r < rows.len() - 1 {
            assert(rows[r] == s.rows[r]);
        }
    }
}

/// The top edge the buffer gives box `i`.
pub open spec fn shown_top(positions: Seq<u32>, i: int) -> u32 {
    positions[4 * i + 4]
}

/// The left edge the buffer gives box `i`.
pub open spec fn shown_left(positions: Seq<u32>, i: int) -> u32 {
    positions[4 * i + 5]
}

/// The width the buffer gives box `i`.
pub open spec fn shown_width(positions: Seq<u32>, i: int) -> u32 {
    positions[4 * i + 6]
}

/// Whether box `i` is the first box of one of `rows`.
pub open spec fn starts_a_row(rows: Seq<Row>, i: int) -> bool {
    exists|r: int| 0 <= r < rows.len() && #[trigger] rows[r].start == i
}

/// The buffer places the boxes one after the other: after a header of the
/// width, the height and two zeros, each box keeps its aspect ratio; the first
/// box sits at the origin; a box that starts a row sits at the left edge,
/// `spacing` below the bottom of the box before it; any other box sits at the
/// top and height of the box before it, `spacing` after its right edge; and
/// the layout is as high as the bottom of its last box.
pub proof fn law_boxes_follow_each_other(positions: Seq<u32>, ars: Seq<u32>, l: Limits)
    requires
        ars.len() > 0,
        is_layout_of(positions, ars, l),
    ensures
        ({
            let n = ars.len() as int;
            let rows = final_rows(scan(ars, l, n), ars, l);
            &&& positions.len() == 4 * n + 4
            &&& positions[2] == ZERO
            &&& positions[3] == ZERO
            &&& shown_top(positions, 0) == ZERO
            &&& shown_left(positions, 0) == ZERO
            &&& positions[1] == binary32_add(
                shown_top(positions, n - 1),
                shown_height(positions, n - 1),
            )
            &&& forall|i: int|
                0 <= i < n ==> #[trigger] shown_width(positions, i) == binary32_mul(
                    ars[i],
                    shown_height(positions, i),
                )
            &&& forall|i: int|
                0 < i < n && #[trigger] starts_a_row(rows, i) ==> {
                    &&& shown_left(positions, i) == ZERO
                    &&& shown_top(positions, i) == binary32_add(
                        shown_top(positions, i - 1),
                        binary32_add(shown_height(positions, i - 1), l.spacing),
                    )
                }
            &&& forall|i: int|
                0 < i < n && !#[trigger] starts_a_row(rows, i) ==> {
                    &&& shown_top(positions, i) == shown_top(positions, i - 1)
                    &&& shown_height(positions, i) == shown_height(positions, i - 1)
                    &&& shown_left(positions, i) == binary32_add(
                        shown_left(positions, i - 1),
                        binary32_add(shown_width(positions, i - 1), l.spacing),
                    )
                }
        }),
{
    let n = ars.len() as int;
    let s = scan(ars, l, n);
    lemma_scan_shaped(ars, l, n);
    lemma_final_rows(s, ars, l);
    let rows = final_rows(s, ars, l);
    lemma_split_bounds(rows, n);
    assert(placed_layout(positions, ars, l, s));
    assert(box_placed(positions, ars, rows[0].start, rows[0].top, rows[0].height, 0, l.spacing));
    let last = rows.last();
    assert(box_placed(positions, ars, last.start, last.top, last.height, n - 1, l.spacing));
    assert forall|i: int| 0 <= i < n implies #[trigger] shown_width(positions, i) == binary32_mul(
        ars[i],
        shown_height(positions, i),
    ) by {
        law_each_box_in_one_row(s, ars, l, i);
        let r = choose|r: int| 0 <= r < rows.len() && #[trigger] rows[r].start <= i < rows[r].end;
        assert(box_placed(positions, ars, rows[r].start, rows[r].top, rows[r].height, i, l.spacing));
    }
    assert forall|i: int| 0 < i < n implies {
        &&& #[trigger] starts_a_row(rows, i) ==> {
            &&& shown_left(positions, i) == ZERO
            &&& shown_top(positions, i) == binary32_add(
                shown_top(positions, i - 1),
                binary32_add(shown_height(positions, i - 1), l.spacing),
            )
        }
        &&& !starts_a_row(rows, i) ==> {
            &&& shown_top(positions, i) == shown_top(positions, i - 1)
            &&& shown_height(positions, i) == shown_height(positions, i - 1)
            &&& shown_left(positions, i) == binary32_add(
                shown_left(positions, i - 1),
                binary32_add(shown_width(positions, i - 1), l.spacing),
            )
        }
    } by {
        lemma_box_after(positions, s, ars, l, i);
    }
}

/// Box `i > 0` of a placed layout lies after box `i - 1` as its row says.
proof fn lemma_box_after(positions: Seq<u32>, s: Scan, ars: Seq<u32>, l: Limits, i: int)
    requires
        ars.len() > 0,
        shaped(s, ars, l, ars.len() as int),
        placed_layout(positions, ars, l, s),
        0 < i < ars.len(),
    ensures
        ({
            let rows = final_rows(s, ars, l);
            &&& starts_a_row(rows, i) ==> {
                &&& shown_left(positions, i) == ZERO
                &&& shown_top(positions, i) == binary32_add(
                    shown_top(positions, i - 1),
                    binary32_add(shown_height(positions, i - 1), l.spacing),
                )
            }
            &&& !starts_a_row(rows, i) ==> {
                &&& shown_top(positions, i) == shown_top(positions, i - 1)
                &&& shown_height(positions, i) == shown_height(positions, i - 1)
                &&& shown_left(positions, i) == binary32_add(
                    shown_left(positions, i - 1),
                    binary32_add(shown_width(positions, i - 1), l.spacing),
                )
            }
        }),
{
    let n = ars.len() as int;
    lemma_final_rows(s, ars, l);
    let rows = final_rows(s, ars, l);
    let r = lemma_row_containing(rows, n, i);
    let row = rows[r];
    assert(box_placed(positions, ars, row.start, row.top, row.height, i, l.spacing));
    if row.start == i {
        assert(starts_a_row(rows, i));
        assert(r > 0);
        let p = rows[r - 1];
        assert(p.end == i);
        assert(p.start < p.end);
        assert(box_placed(positions, ars, p.start, p.top, p.height, i - 1, l.spacing));
        assert(4 * (i - 1) + 4 == 4 * i);
    } else {
        lemma_inside_starts_none(rows, n, r, i);
        assert(box_placed(positions, ars, row.start, row.top, row.height, i - 1, l.spacing));
        assert(4 * (i - 1) + 4 == 4 * i);
        assert(crate::rows::box_left(ars, row.start, i, row.height, l.spacing) == binary32_add(
            crate::rows::box_left(ars, row.start, i - 1, row.height, l.spacing),
            binary32_add(binary32_mul(ars[i - 1], row.height), l.spacing),
        ));
    }
}

/// The row of `rows`, which split `0..end`, that holds box `i`.
proof fn lemma_row_containing(rows: Seq<Row>, end: int, i: int) -> (r: int)
    requires
        splits(rows, end),
        0 <= i < end,
    ensures
        0 <= r < rows.len(),
        rows[r].start <= i < rows[r].end,
{
    lemma_split_bounds(rows, end);
    crate::laws::lemma_row_of(rows, end, i, rows.len() - 1);
    choose|r: int| 0 <= r < rows.len() && #[trigger] rows[r].start <= i < rows[r].end
}

/// A box strictly inside a row starts no row.
proof fn lemma_inside_starts_none(rows: Seq<Row>, end: int, r: int, i: int)
    requires
        splits(rows, end),
        0 <= r < rows.len(),
        rows[r].start < i < rows[r].end,
    ensures
        !starts_a_row(rows, i),
{
    if starts_a_row(rows, i) {
        let q = choose|q: int| 0 <= q < rows.len() && #[trigger] rows[q].start == i;
        if q < r {
            lemma_rows_ordered(rows, end, q, r);
            assert(rows[q].start < rows[q].end);
        } else if q > r {
            lemma_rows_ordered(rows, end, r, q);
        }
    }
}

/// The width the buffer gives the boxes of a placed row, up to box `j`, is the
/// row's extent up to `j`.
proof fn lemma_placed_width(positions: Seq<u32>, ars: Seq<u32>, l: Limits, row: Row, j: int)
    requires
        0 <= row.start <= j <= row.end,
        forall|i: int|
            row.start <= i < row.end ==> #[trigger] box_placed(
                positions,
                ars,
                row.start,
                row.top,
                row.height,
                i,
                l.spacing,
            ),
        row.spacing_pixels == gaps(l, row.end - row.start),
    ensures
        placed_width(positions, row.start, j, gaps(l, row.end - row.start)) == row_extent(
            ars,
            row.start,
            j,
            row.height,
            row.spacing_pixels,
        ),
    decreases j - row.start,
{
    if j > row.start {
        lemma_placed_width(positions, ars, l, row, j - 1);
        assert(box_placed(positions, ars, row.start, row.top, row.height, j - 1, l.spacing));
    }
}

/// What the scan keeps after boxes `0..k`, stated over the input: the running
/// sums and distance of the open row, the rule at every box of the rows so
/// far, the filling height of each closed row, and that the widest width is
/// 0 or the width of a closed row.
spec fn follows(s: Scan, ars: Seq<u32>, l: Limits, k: int) -> bool {
    &&& k > 0 ==> {
        &&& s.cumulative == binary32_add(running(ars, l, s.row_start, k - 1), l.spacing_aspect_ratio)
        &&& s.row_aspect_ratio == s.cumulative
        &&& s.best_diff == binary32_abs(
            binary32_sub(running(ars, l, s.row_start, k - 1), l.target_row_aspect_ratio),
        )
    }
    &&& k == 0 ==> s == scan_start(l)
    &&& forall|j: int| s.row_start < j < k ==> #[trigger] joins(ars, l, s.row_start, j)
    &&& forall|r: int, j: int|
        0 <= r < s.rows.len() && s.rows[r].start < j < s.rows[r].end ==> #[trigger] joins(
            ars,
            l,
            s.rows[r].start,
            j,
        )
    &&& forall|r: int|
        0 <= r < s.rows.len() ==> !joins(ars, l, #[trigger] s.rows[r].start, s.rows[r].end)
    &&& forall|r: int|
        0 <= r < s.rows.len() ==> #[trigger] s.rows[r].fill == filling_height(
            ars,
            l,
            s.rows[r].start,
            s.rows[r].end,
        ) && s.rows[r].spacing_pixels == gaps(l, s.rows[r].end - s.rows[r].start)
    &&& s.max_width == ZERO || exists|r: int|
        0 <= r < s.rows.len() && s.max_width == row_width(ars, #[trigger] s.rows[r])
}

/// One step of the scan keeps `follows`.
proof fn lemma_step_follows(s: Scan, ars: Seq<u32>, l: Limits, i: int)
    requires
        0 <= i < ars.len(),
        shaped(s, ars, l, i),
        follows(s, ars, l, i),
    ensures
        follows(scan_step(s, ars, l, i), ars, l, i + 1),
{
    if closes_row_before(s, ars, l, i) {
        lemma_close_follows(s, ars, l, i);
    } else {
        lemma_extend_follows(s, ars, l, i);
    }
}

/// A step that closes a row keeps `follows`.
proof fn lemma_close_follows(s: Scan, ars: Seq<u32>, l: Limits, i: int)
    requires
        0 <= i < ars.len(),
        shaped(s, ars, l, i),
        follows(s, ars, l, i),
        closes_row_before(s, ars, l, i),
    ensures
        follows(scan_step(s, ars, l, i), ars, l, i + 1),
{
    reveal(scan_step);
    let t = scan_step(s, ars, l, i);
    let row = closed_row(s, l, i);
    assert(running(ars, l, s.row_start, i) == binary32_add(s.cumulative, ars[i]));
    assert(!joins(ars, l, s.row_start, i));
    assert(t.rows == s.rows.push(row));
    assert(running(ars, l, i, i) == ars[i]);
    lemma_pushed_rows_follow(s.rows, t.rows, row, ars, l);
    if t.max_width != ZERO {
        if t.max_width == row_width(ars, row) {
            assert(t.rows[s.rows.len() as int] == row);
        } else {
            assert(t.max_width == s.max_width);
            let r = choose|r: int|
                0 <= r < s.rows.len() && s.max_width == row_width(ars, #[trigger] s.rows[r]);
            assert(t.rows[r] == s.rows[r]);
        }
    }
}

/// The rule at every box of rows, and their filling heights, carry over to
/// the rows with one more row that keeps them.
proof fn lemma_pushed_rows_follow(rows: Seq<Row>, more: Seq<Row>, row: Row, ars: Seq<u32>, l: Limits)
    requires
        more == rows.push(row),
        forall|j: int| row.start < j < row.end ==> #[trigger] joins(ars, l, row.start, j),
        !joins(ars, l, row.start, row.end),
        row.fill == filling_height(ars, l, row.start, row.end),
        row.spacing_pixels == gaps(l, row.end - row.start),
        forall|r: int, j: int|
            0 <= r < rows.len() && rows[r].start < j < rows[r].end ==> #[trigger] joins(
                ars,
                l,
                rows[r].start,
                j,
            ),
        forall|r: int| 0 <= r < rows.len() ==> !joins(ars, l, #[trigger] rows[r].start, rows[r].end),
        forall|r: int|
            0 <= r < rows.len() ==> #[trigger] rows[r].fill == filling_height(
                ars,
                l,
                rows[r].start,
                rows[r].end,
            ) && rows[r].spacing_pixels == gaps(l, rows[r].end - rows[r].start),
    ensures
        forall|r: int, j: int|
            0 <= r < more.len() && more[r].start < j < more[r].end ==> #[trigger] joins(
                ars,
                l,
                more[r].start,
                j,
            ),
        forall|r: int| 0 <= r < more.len() ==> !joins(ars, l, #[trigger] more[r].start, more[r].end),
        forall|r: int|
            0 <= r < more.len() ==> #[trigger] more[r].fill == filling_height(
                ars,
                l,
                more[r].start,
                more[r].end,
            ) && more[r].spacing_pixels == gaps(l, more[r].end - more[r].start),
{
    assert forall|r: int, j: int|
        0 <= r < more.len() && more[r].start < j < more[r].end implies #[trigger] joins(
        ars,
        l,
        more[r].start,
        j,
    ) by {
        if r < rows.len() {
            assert(more[r] == rows[r]);
        }
    }
    assert forall|r: int| 0 <= r < more.len() implies !joins(
        ars,
        l,
        #[trigger] more[r].start,
        more[r].end,
    ) by {
        if r < rows.len() {
            assert(more[r] == rows[r]);
        }
    }
    assert forall|r: int| 0 <= r < more.len() implies #[trigger] more[r].fill == filling_height(
        ars,
        l,
        more[r].start,
        more[r].end,
    ) && more[r].spacing_pixels == gaps(l, more[r].end - more[r].start) by {
        if r < rows.len() {
            assert(more[r] == rows[r]);
        }
    }
}

/// A step that adds the box to the open row keeps `follows`.
proof fn lemma_extend_follows(s: Scan, ars: Seq<u32>, l: Limits, i: int)
    requires
        0 <= i < ars.len(),
        shaped(s, ars, l, i),
        follows(s, ars, l, i),
        !closes_row_before(s, ars, l, i),
    ensures
        follows(scan_step(s, ars, l, i), ars, l, i + 1),
{
    reveal(scan_step);
    let t = scan_step(s, ars, l, i);
    if i == 0 {
        assert(s == scan_start(l));
        assert(running(ars, l, 0, 0) == binary32_add(ZERO, ars[0]));
    } else {
        assert(running(ars, l, s.row_start, i) == binary32_add(s.cumulative, ars[i]));
        assert(joins(ars, l, s.row_start, i));
    }
    assert(t.rows == s.rows);
}

/// The scan after boxes `0..k` keeps `follows`.
proof fn lemma_scan_follows(ars: Seq<u32>, l: Limits, k: int)
    requires
        0 <= k <= ars.len(),
    ensures
        follows(scan(ars, l, k), ars, l, k),
    decreases k,
{
    if k > 0 {
        lemma_scan_follows(ars, l, k - 1);
        lemma_scan_shaped(ars, l, k - 1);
        lemma_step_follows(scan(ars, l, k - 1), ars, l, k - 1);
    }
}

} // verus!
