//! The greedy choice of rows, stated over the binary32 operations.
//!
//! Boxes are taken in order. Each box's aspect ratio is added to the running
//! aspect ratio of the open row; the row is closed before the box when that
//! sum exceeds the largest allowed row aspect ratio, or when it lies farther
//! from the target row aspect ratio than the sum before the box did (and the
//! box is not the very first one), or when the row with the box would be shown
//! more than one below the smallest allowed row height. A closed row is shown
//! at the height that makes it fill the row width, capped at the largest
//! allowed row height; the last row is shown at that height only where it does
//! not exceed the cap, and otherwise at the height of the row above it (or the
//! target height).
//!
//! The third condition changes the rows only where a row of several boxes
//! would otherwise be shown more than one below
//! `max(row_height * (1 - tolerance), 0)`; a height may be off by one through
//! rounding, so a row that falls short by one or less is kept.

use crate::binary32::{
    binary32_abs, binary32_add, binary32_div, binary32_from_int, binary32_gt, binary32_max,
    binary32_min, binary32_mul, binary32_sub, is_nan, ordinal, ONE, ZERO,
};
use crate::options::Limits;
use vstd::prelude::*;

verus! {

/// One row of a layout: the boxes `start..end`, shown at `top` with
/// `height`; `fill` is the height at which the row would exactly fill the row
/// width, and `spacing_pixels` the room taken by the spacing between its boxes.
pub struct Row {
    pub start: int,
    pub end: int,
    pub top: u32,
    pub height: u32,
    pub fill: u32,
    pub spacing_pixels: u32,
}

/// The state of the greedy scan after a prefix of the boxes.
pub struct Scan {
    /// Summed aspect ratio of the open row, spacing included.
    pub cumulative: u32,
    /// The same sum, as the height of the open row is computed from it.
    pub row_aspect_ratio: u32,
    /// Distance of the open row's aspect ratio from the target before the last box.
    pub best_diff: u32,
    /// First box of the open row.
    pub row_start: int,
    /// Top of the open row.
    pub top: u32,
    /// Width of the widest closed row.
    pub max_width: u32,
    /// The closed rows, in order.
    pub rows: Seq<Row>,
}

/// The room taken by the spacing in a row of `count` boxes: `count - 1` gaps.
pub open spec fn spacing_pixels(count: int, l: Limits) -> u32 {
    binary32_mul(l.spacing, binary32_from_int((count - 1) as u128))
}

/// The height at which a row of `count` boxes, of summed aspect ratio
/// `row_aspect_ratio` (spacing included), exactly fills the row width.
pub open spec fn fill_height(row_aspect_ratio: u32, count: int, l: Limits) -> u32 {
    let total_aspect_ratio = binary32_sub(
        row_aspect_ratio,
        binary32_mul(l.spacing_aspect_ratio, binary32_from_int(count as u128)),
    );
    binary32_div(binary32_sub(l.row_width, spacing_pixels(count, l)), total_aspect_ratio)
}

/// The left edge of box `j` of a row whose first box is `start`, at `height`.
pub open spec fn box_left(ars: Seq<u32>, start: int, j: int, height: u32, spacing: u32) -> u32
    decreases j - start,
{
    if j <= start {
        ZERO
    } else {
        binary32_add(
            box_left(ars, start, j - 1, height, spacing),
            binary32_add(binary32_mul(ars[j - 1], height), spacing),
        )
    }
}

/// The width of boxes `start..j` of a row at `height`, plus `spacing_pixels`.
pub open spec fn row_extent(
    ars: Seq<u32>,
    start: int,
    j: int,
    height: u32,
    spacing_pixels: u32,
) -> u32
    decreases j - start,
{
    if j <= start {
        spacing_pixels
    } else {
        binary32_add(
            row_extent(ars, start, j - 1, height, spacing_pixels),
            binary32_mul(ars[j - 1], height),
        )
    }
}

/// The width of `row`: its boxes plus the spacing between them.
pub open spec fn row_width(ars: Seq<u32>, row: Row) -> u32 {
    row_extent(ars, row.start, row.end, row.height, row.spacing_pixels)
}

/// Whether `a <= b`, both being numbers (not NaN).
pub open spec fn at_most(a: u32, b: u32) -> bool {
    !is_nan(a) && !is_nan(b) && !binary32_gt(a, b)
}

/// The state before any box.
pub open spec fn scan_start(l: Limits) -> Scan {
    Scan {
        cumulative: ZERO,
        row_aspect_ratio: ZERO,
        best_diff: l.target_row_aspect_ratio,
        row_start: 0,
        top: ZERO,
        max_width: ZERO,
        rows: Seq::empty(),
    }
}

/// Whether `height` lies more than one below `bound`: `height + 1 < bound`.
/// A height may be off by one through rounding, so only a larger shortfall
/// counts.
pub open spec fn more_than_one_below(height: u32, bound: u32) -> bool {
    binary32_gt(bound, binary32_add(height, ONE))
}

/// Whether a row of `count` boxes, whose summed aspect ratio up to its last box
/// is `cumulative`, would be shown more than one below the smallest row
/// height. This is the only place where the tolerance's lower bound changes
/// the rows: a row of several boxes whose filling height is within one of the
/// bound, or above it, is kept as the other two conditions choose it.
pub open spec fn too_short(cumulative: u32, count: int, l: Limits) -> bool {
    more_than_one_below(
        fill_height(binary32_add(cumulative, l.spacing_aspect_ratio), count, l),
        l.min_row_height,
    )
}

/// Whether a row of `count` boxes and summed aspect ratio `cumulative` is too
/// wide: beyond the largest allowed, farther from the target than
/// `best_diff`, or so wide that it would be shown more than one below the
/// smallest height.
pub open spec fn is_full(cumulative: u32, best_diff: u32, count: int, l: Limits) -> bool {
    ||| binary32_gt(cumulative, l.max_row_aspect_ratio)
    ||| binary32_gt(
        binary32_abs(binary32_sub(cumulative, l.target_row_aspect_ratio)),
        best_diff,
    )
    ||| too_short(cumulative, count, l)
}

/// Whether box `i` starts a new row.
pub open spec fn closes_row_before(s: Scan, ars: Seq<u32>, l: Limits, i: int) -> bool {
    i > 0 && is_full(binary32_add(s.cumulative, ars[i]), s.best_diff, i - s.row_start + 1, l)
}

/// The row closed before box `i`.
pub open spec fn closed_row(s: Scan, l: Limits, i: int) -> Row {
    let count = i - s.row_start;
    let fill = fill_height(s.row_aspect_ratio, count, l);
    Row {
        start: s.row_start,
        end: i,
        top: s.top,
        height: binary32_min(fill, l.max_row_height),
        fill,
        spacing_pixels: spacing_pixels(count, l),
    }
}

/// The state after box `i`, from the state `s` before it.
#[verifier::opaque]
pub open spec fn scan_step(s: Scan, ars: Seq<u32>, l: Limits, i: int) -> Scan {
    let ratio = ars[i];
    let opened = if closes_row_before(s, ars, l, i) {
        let row = closed_row(s, l, i);
        Scan {
            cumulative: ratio,
            row_aspect_ratio: s.row_aspect_ratio,
            best_diff: s.best_diff,
            row_start: i,
            top: binary32_add(s.top, binary32_add(row.height, l.spacing)),
            max_width: binary32_max(row_width(ars, row), s.max_width),
            rows: s.rows.push(row),
        }
    } else {
        Scan { cumulative: binary32_add(s.cumulative, ratio), ..s }
    };
    let cumulative = binary32_add(opened.cumulative, l.spacing_aspect_ratio);
    Scan {
        cumulative,
        row_aspect_ratio: cumulative,
        best_diff: binary32_abs(binary32_sub(opened.cumulative, l.target_row_aspect_ratio)),
        ..opened
    }
}

/// The state after boxes `from..k`, from the state `s` before them.
pub open spec fn scan_steps(s: Scan, ars: Seq<u32>, l: Limits, from: int, k: int) -> Scan
    decreases k - from,
{
    if k <= from {
        s
    } else {
        scan_step(scan_steps(s, ars, l, from, k - 1), ars, l, k - 1)
    }
}

/// The state after boxes `0..k`.
pub open spec fn scan(ars: Seq<u32>, l: Limits, k: int) -> Scan {
    scan_steps(scan_start(l), ars, l, 0, k)
}

/// The last row, from the state `s` after all boxes.
pub open spec fn last_row(s: Scan, ars: Seq<u32>, l: Limits) -> Row {
    let count = ars.len() - s.row_start;
    let fill = fill_height(s.row_aspect_ratio, count, l);
    let previous = if s.rows.len() > 0 {
        s.rows.last().height
    } else {
        l.row_height
    };
    Row {
        start: s.row_start,
        end: ars.len() as int,
        top: s.top,
        height: if binary32_gt(fill, l.max_row_height) {
            previous
        } else {
            fill
        },
        fill,
        spacing_pixels: spacing_pixels(count, l),
    }
}

/// All rows, from the state `s` after all boxes.
pub open spec fn final_rows(s: Scan, ars: Seq<u32>, l: Limits) -> Seq<Row> {
    s.rows.push(last_row(s, ars, l))
}

/// Whether the four values at `4 * i + 4` in `positions` are the top, left,
/// width and height of box `i` in a row that starts at box `start` and lies at
/// `top` with `height`.
pub open spec fn box_placed(
    positions: Seq<u32>,
    ars: Seq<u32>,
    start: int,
    top: u32,
    height: u32,
    i: int,
    spacing: u32,
) -> bool {
    &&& positions[4 * i + 4] == top
    &&& positions[4 * i + 5] == box_left(ars, start, i, height, spacing)
    &&& positions[4 * i + 6] == binary32_mul(ars[i], height)
    &&& positions[4 * i + 7] == height
}

/// Whether every box of `rows` is placed in `positions` as its row says.
pub open spec fn rows_placed(
    positions: Seq<u32>,
    ars: Seq<u32>,
    rows: Seq<Row>,
    spacing: u32,
) -> bool {
    forall|r: int, i: int|
        0 <= r < rows.len() && rows[r].start <= i < rows[r].end ==> #[trigger] box_placed(
            positions,
            ars,
            rows[r].start,
            rows[r].top,
            rows[r].height,
            i,
            spacing,
        )
}

/// Whether `positions` holds the layout whose rows the state `s` after all
/// boxes determines: the width of the widest row, the bottom of the last row,
/// two zeros, and the top, left, width and height of each box in turn.
pub open spec fn placed_layout(positions: Seq<u32>, ars: Seq<u32>, l: Limits, s: Scan) -> bool {
    let last = last_row(s, ars, l);
    &&& positions.len() == 4 * ars.len() + 4
    &&& positions[0] == binary32_max(row_width(ars, last), s.max_width)
    &&& positions[1] == binary32_add(last.top, last.height)
    &&& positions[2] == ZERO
    &&& positions[3] == ZERO
    &&& rows_placed(positions, ars, final_rows(s, ars, l), l.spacing)
}

/// Whether `positions` is the layout of the aspect ratios `ars` under `l`:
/// four zeros for no boxes, else the layout that the greedy scan determines.
pub open spec fn is_layout_of(positions: Seq<u32>, ars: Seq<u32>, l: Limits) -> bool {
    if ars.len() == 0 {
        positions == seq![ZERO, ZERO, ZERO, ZERO]
    } else {
        placed_layout(positions, ars, l, scan(ars, l, ars.len() as int))
    }
}

/// Whether `rows` split `0..end` into non-empty runs of consecutive boxes, in
/// order.
pub open spec fn splits(rows: Seq<Row>, end: int) -> bool {
    &&& rows.len() == 0 ==> end == 0
    &&& rows.len() > 0 ==> rows[0].start == 0 && rows.last().end == end
    &&& forall|r: int| 0 <= r < rows.len() ==> #[trigger] rows[r].start < rows[r].end
    &&& forall|r: int| 0 <= r < rows.len() - 1 ==> #[trigger] rows[r].end == rows[r + 1].start
}

/// Whether each row of `rows` lies right below the one before, `spacing`
/// apart, the first at the top, and `top` is where the next row goes.
pub open spec fn stacked(rows: Seq<Row>, top: u32, spacing: u32) -> bool {
    &&& rows.len() > 0 ==> rows[0].top == ZERO
    &&& forall|r: int|
        0 <= r < rows.len() - 1 ==> #[trigger] rows[r + 1].top == binary32_add(
            rows[r].top,
            binary32_add(rows[r].height, spacing),
        )
    &&& top == if rows.len() == 0 {
        ZERO
    } else {
        binary32_add(rows.last().top, binary32_add(rows.last().height, spacing))
    }
}

/// Whether the state `s` after boxes `0..k` has the shape the scan keeps:
/// its closed rows split `0..row_start`, lie one below the other, are shown at
/// their filling height capped at the largest row height, and none whose width
/// is a number is wider than `max_width`, itself a number; the open row is
/// non-empty once a box was seen. Rows of several boxes, the open one
/// included, would fill the row width at no more than one below the smallest
/// row height, and the widest row is at least 0.
pub open spec fn shaped(s: Scan, ars: Seq<u32>, l: Limits, k: int) -> bool {
    &&& 0 <= s.row_start <= k <= ars.len()
    &&& k > 0 ==> s.row_start < k
    &&& splits(s.rows, s.row_start)
    &&& stacked(s.rows, s.top, l.spacing)
    &&& forall|r: int|
        0 <= r < s.rows.len() ==> #[trigger] s.rows[r].height == binary32_min(
            s.rows[r].fill,
            l.max_row_height,
        )
    &&& at_most(ZERO, s.max_width)
    &&& forall|r: int|
        0 <= r < s.rows.len() && !is_nan(row_width(ars, #[trigger] s.rows[r])) ==> at_most(
            row_width(ars, s.rows[r]),
            s.max_width,
        )
    &&& forall|r: int|
        0 <= r < s.rows.len() && #[trigger] s.rows[r].end - s.rows[r].start >= 2
            ==> !more_than_one_below(s.rows[r].fill, l.min_row_height)
    &&& k - s.row_start >= 2 ==> !more_than_one_below(
        fill_height(s.row_aspect_ratio, k - s.row_start, l),
        l.min_row_height,
    )
}

/// In rows that split a range, an earlier row ends before a later one starts.
pub proof fn lemma_rows_ordered(rows: Seq<Row>, end: int, r: int, q: int)
    requires
        splits(rows, end),
        0 <= r < q < rows.len(),
    ensures
        rows[r].end <= rows[q].start,
    decreases q - r,
{
    if r + 1 < q {
        lemma_rows_ordered(rows, end, r + 1, q);
    }
    assert(rows[r].end == rows[r + 1].start);
}

/// Rows that split `0..end` lie within it.
pub proof fn lemma_split_bounds(rows: Seq<Row>, end: int)
    requires
        splits(rows, end),
    ensures
        forall|r: int| 0 <= r < rows.len() ==> 0 <= #[trigger] rows[r].start && rows[r].end <= end,
        rows.len() > 0 ==> end > 0,
{
    assert forall|r: int| 0 <= r < rows.len() implies 0 <= #[trigger] rows[r].start && rows[r].end
        <= end by {
        if r > 0 {
            lemma_rows_ordered(rows, end, 0, r);
        }
        if r < rows.len() - 1 {
            lemma_rows_ordered(rows, end, r, rows.len() - 1);
        }
    }
}

/// maxNum of two values is at least each of them that is a number, and is a
/// number when the second one is.
pub proof fn lemma_max_at_least(a: u32, b: u32)
    requires
        !is_nan(b),
    ensures
        !is_nan(binary32_max(a, b)),
        at_most(b, binary32_max(a, b)),
        !is_nan(a) ==> at_most(a, binary32_max(a, b)),
{
}

/// The state before any box has the shape.
pub proof fn lemma_start_shaped(ars: Seq<u32>, l: Limits)
    ensures
        shaped(scan_start(l), ars, l, 0),
{
    assert(!is_nan(ZERO) && ordinal(ZERO) == 0) by (bit_vector);
}

/// One step of the scan keeps the shape.
pub proof fn lemma_step_shaped(s: Scan, ars: Seq<u32>, l: Limits, i: int)
    requires
        0 <= i < ars.len(),
        shaped(s, ars, l, i),
    ensures
        shaped(scan_step(s, ars, l, i), ars, l, i + 1),
{
    reveal(scan_step);
    let t = scan_step(s, ars, l, i);
    if closes_row_before(s, ars, l, i) {
        let row = closed_row(s, l, i);
        assert(t.rows == s.rows.push(row));
        lemma_max_at_least(row_width(ars, row), s.max_width);
        assert forall|r: int| 0 <= r < t.rows.len() implies #[trigger] t.rows[r].height
            == binary32_min(t.rows[r].fill, l.max_row_height) by {
            if r < s.rows.len() {
                assert(t.rows[r] == s.rows[r]);
            }
        }
        assert forall|r: int|
            0 <= r < t.rows.len() && !is_nan(row_width(ars, #[trigger] t.rows[r])) implies at_most(
            row_width(ars, t.rows[r]),
            t.max_width,
        ) by {
            if r < s.rows.len() {
                assert(t.rows[r] == s.rows[r]);
            }
        }
        assert forall|r: int|
            0 <= r < t.rows.len() && #[trigger] t.rows[r].end - t.rows[r].start >= 2 implies !more_than_one_below(
            t.rows[r].fill,
            l.min_row_height,
        ) by {
            if r < s.rows.len() {
                assert(t.rows[r] == s.rows[r]);
            }
        }
    }
}

/// Steps of the scan keep the shape.
pub proof fn lemma_steps_shaped(s: Scan, ars: Seq<u32>, l: Limits, from: int, k: int)
    requires
        from <= k <= ars.len(),
        shaped(s, ars, l, from),
    ensures
        shaped(scan_steps(s, ars, l, from, k), ars, l, k),
    decreases k - from,
{
    if k > from {
        lemma_steps_shaped(s, ars, l, from, k - 1);
        lemma_step_shaped(scan_steps(s, ars, l, from, k - 1), ars, l, k - 1);
    }
}

/// The scan after boxes `0..k` has the shape.
pub proof fn lemma_scan_shaped(ars: Seq<u32>, l: Limits, k: int)
    requires
        0 <= k <= ars.len(),
    ensures
        shaped(scan(ars, l, k), ars, l, k),
{
    lemma_start_shaped(ars, l);
    lemma_steps_shaped(scan_start(l), ars, l, 0, k);
}

/// All rows of a layout split the boxes and lie one below the other, from a
/// state after all boxes that has the shape.
pub proof fn lemma_final_rows(s: Scan, ars: Seq<u32>, l: Limits)
    requires
        ars.len() > 0,
        shaped(s, ars, l, ars.len() as int),
    ensures
        ({
            let rows = final_rows(s, ars, l);
            let last = rows.last();
            &&& splits(rows, ars.len() as int)
            &&& stacked(rows, binary32_add(last.top, binary32_add(last.height, l.spacing)), l.spacing)
            &&& last == last_row(s, ars, l)
            &&& forall|r: int| 0 <= r < rows.len() - 1 ==> #[trigger] rows[r] == s.rows[r]
        }),
{
    let rows = final_rows(s, ars, l);
    assert forall|r: int| 0 <= r < rows.len() implies #[trigger] rows[r].start < rows[r].end by {
        if r < rows.len() - 1 {
            assert(rows[r] == s.rows[r]);
        }
    }
    assert forall|r: int| 0 <= r < rows.len() - 1 implies #[trigger] rows[r].end == rows[r
        + 1].start by {
        assert(rows[r] == s.rows[r]);
        if r + 1 < rows.len() - 1 {
            assert(rows[r + 1] == s.rows[r + 1]);
        }
    }
    assert forall|r: int| 0 <= r < rows.len() - 1 implies #[trigger] rows[r + 1].top
        == binary32_add(rows[r].top, binary32_add(rows[r].height, l.spacing)) by {
        assert(rows[r] == s.rows[r]);
        if r + 1 < rows.len() - 1 {
            assert(rows[r + 1] == s.rows[r + 1]);
        }
    }
    if s.rows.len() > 0 {
        assert(rows[0] == s.rows[0]);
    }
}

} // verus!
