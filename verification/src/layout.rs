//! The scalar layout: boxes placed row by row into one flat buffer.

use crate::binary32::{
    abs, binary32_abs, binary32_sub, difference, from_int, gt, max, min, product, quotient, sum,
    ONE, ZERO,
};
use crate::options::{LayoutOptions, Limits};
use crate::rows::{
    box_left, box_placed, closed_row, closes_row_before, fill_height, final_rows, is_layout_of,
    last_row, lemma_scan_shaped, placed_layout, row_extent, row_width, rows_placed, scan,
    scan_start, scan_step, shaped, spacing_pixels, splits, too_short, lemma_split_bounds, Row,
    Scan,
};
use vstd::prelude::*;

verus! {

/// The position and size of one box.
#[derive(Clone, Copy)]
pub struct Box {
    pub top: u32,
    pub left: u32,
    pub width: u32,
    pub height: u32,
}

/// A computed layout: the layout's width and height, two padding values, and
/// the top, left, width and height of each box in turn.
pub struct Layout {
    pub(crate) positions: Vec<u32>,
}

impl View for Layout {
    type V = Seq<u32>;

    closed spec fn view(&self) -> Seq<u32> {
        self.positions@
    }
}

impl Layout {
    /// The buffer holds a header of four values and four values per box.
    #[verifier::type_invariant]
    spec fn well_formed(self) -> bool {
        self.positions@.len() >= 4 && (self.positions@.len() - 4) % 4 == 0
    }
}

/// The height at which a completed row of `count` boxes fills the row width,
/// and the room its spacing takes.
pub(crate) fn get_row_height(row_aspect_ratio: u32, count: usize, limits: &Limits) -> (r: (
    u32,
    u32,
))
    requires
        count >= 1,
    ensures
        r.0 == fill_height(row_aspect_ratio, count as int, *limits),
        r.1 == spacing_pixels(count as int, *limits),
{
    let total_aspect_ratio = difference(
        row_aspect_ratio,
        product(limits.spacing_aspect_ratio, from_int(count as u128)),
    );
    let spacing_pixels = product(limits.spacing, from_int((count - 1) as u128));
    let base = quotient(difference(limits.row_width, spacing_pixels), total_aspect_ratio);
    (base, spacing_pixels)
}

/// Writes the boxes `start..end` as one row at `top` and `height`, and returns
/// the row's width: its boxes plus `spacing_pixels`.
fn write_row(
    positions: &mut Vec<u32>,
    aspect_ratios: &[u32],
    start: usize,
    end: usize,
    height: u32,
    top: u32,
    spacing: u32,
    spacing_pixels: u32,
) -> (width: u32)
    requires
        start < end <= aspect_ratios@.len(),
        old(positions)@.len() == 4 * aspect_ratios@.len() + 4,
        4 * aspect_ratios@.len() + 4 <= usize::MAX,
    ensures
        final(positions)@.len() == old(positions)@.len(),
        width == row_extent(aspect_ratios@, start as int, end as int, height, spacing_pixels),
        forall|i: int|
            start <= i < end ==> #[trigger] box_placed(
                final(positions)@,
                aspect_ratios@,
                start as int,
                top,
                height,
                i,
                spacing,
            ),
        forall|k: int|
            0 <= k < old(positions)@.len() && !(4 * start + 4 <= k < 4 * end + 4)
                ==> #[trigger] final(positions)@[k] == old(positions)@[k],
{
    let ghost ars = aspect_ratios@;
    let ghost before = positions@;
    let mut actual_row_width = spacing_pixels;
    let mut left = ZERO;
    let mut j = start;
    while j < end
        invariant
            start <= j <= end <= ars.len(),
            ars == aspect_ratios@,
            before.len() == 4 * ars.len() + 4,
            4 * ars.len() + 4 <= usize::MAX,
            positions@.len() == before.len(),
            left == box_left(ars, start as int, j as int, height, spacing),
            actual_row_width == row_extent(ars, start as int, j as int, height, spacing_pixels),
            forall|i: int|
                start <= i < j ==> #[trigger] box_placed(
                    positions@,
                    ars,
                    start as int,
                    top,
                    height,
                    i,
                    spacing,
                ),
            forall|k: int|
                0 <= k < before.len() && !(4 * start + 4 <= k < 4 * j + 4)
                    ==> #[trigger] positions@[k] == before[k],
        decreases end - j,
    {
        let ratio = aspect_ratios[j];
        let width = product(ratio, height);
        let base = 4 * j + 4;
        let ghost prev = positions@;
        positions.set(base, top);
        positions.set(base + 1, left);
        positions.set(base + 2, width);
        positions.set(base + 3, height);
        assert(positions@[4 * j + 4] == top);
        assert(positions@[4 * j + 5] == left);
        assert(positions@[4 * j + 6] == width);
        assert(positions@[4 * j + 7] == height);
        assert(box_placed(positions@, ars, start as int, top, height, j as int, spacing));
        assert forall|i: int| start <= i < j implies #[trigger] box_placed(
            positions@,
            ars,
            start as int,
            top,
            height,
            i,
            spacing,
        ) by {
            assert(box_placed(prev, ars, start as int, top, height, i, spacing));
        }
        left = sum(left, sum(width, spacing));
        actual_row_width = sum(actual_row_width, width);
        j = j + 1;
    }
    actual_row_width
}

/// Writes the boxes of `row`, which follows `rows`, and returns the row's width.
pub(crate) fn place_row(
    positions: &mut Vec<u32>,
    aspect_ratios: &[u32],
    start: usize,
    end: usize,
    height: u32,
    top: u32,
    spacing: u32,
    spacing_pixels: u32,
    Ghost(rows): Ghost<Seq<Row>>,
    Ghost(row): Ghost<Row>,
) -> (width: u32)
    requires
        start < end <= aspect_ratios@.len(),
        old(positions)@.len() == 4 * aspect_ratios@.len() + 4,
        4 * aspect_ratios@.len() + 4 <= usize::MAX,
        splits(rows, start as int),
        rows_placed(old(positions)@, aspect_ratios@, rows, spacing),
        row.start == start,
        row.end == end,
        row.top == top,
        row.height == height,
        row.spacing_pixels == spacing_pixels,
    ensures
        rows_placed(final(positions)@, aspect_ratios@, rows.push(row), spacing),
        splits(rows.push(row), end as int),
        final(positions)@.len() == old(positions)@.len(),
        forall|k: int| 0 <= k < 4 ==> #[trigger] final(positions)@[k] == old(positions)@[k],
        width == row_width(aspect_ratios@, row),
{
    let ghost before = positions@;
    let width = write_row(
        positions,
        aspect_ratios,
        start,
        end,
        height,
        top,
        spacing,
        spacing_pixels,
    );
    proof {
        lemma_place_row(before, positions@, aspect_ratios@, rows, row, spacing);
    }
    width
}

/// `n` zeros.
pub(crate) fn zeros(n: usize) -> (v: Vec<u32>)
    ensures
        v@ == Seq::new(n as nat, |k: int| ZERO),
{
    let mut v: Vec<u32> = Vec::with_capacity(n);
    let mut k: usize = 0;
    while k < n
        invariant
            k <= n,
            v@ == Seq::new(k as nat, |t: int| ZERO),
        decreases n - k,
    {
        v.push(ZERO);
        k = k + 1;
    }
    v
}

/// Writes the last row, from the state after all boxes, and the header: the
/// layout's width and height.
#[verifier::rlimit(40)]
pub(crate) fn finish_layout(
    positions: &mut Vec<u32>,
    aspect_ratios: &[u32],
    limits: &Limits,
    progress: &Progress,
    Ghost(s): Ghost<Scan>,
)
    requires
        aspect_ratios@.len() > 0,
        16 * aspect_ratios@.len() + 16 <= isize::MAX,
        shaped(s, aspect_ratios@, *limits, aspect_ratios@.len() as int),
        old(positions)@.len() == 4 * aspect_ratios@.len() + 4,
        old(positions)@[2] == ZERO,
        old(positions)@[3] == ZERO,
        rows_placed(old(positions)@, aspect_ratios@, s.rows, limits.spacing),
        progress.tracks(s),
    ensures
        placed_layout(final(positions)@, aspect_ratios@, *limits, s),
{
    let ghost ars = aspect_ratios@;
    let ghost l = *limits;
    let n = aspect_ratios.len();
    let row_start = progress.row_start;
    let row_aspect_ratio = progress.row_aspect_ratio;
    let top = progress.top;
    let max_width = progress.max_width;
    let (fill, total_spacing) = get_row_height(row_aspect_ratio, n - row_start, limits);
    let prev_height = if row_start > 0 {
        proof {
            let last = s.rows.last();
            lemma_split_bounds(s.rows, row_start as int);
            assert(box_placed(
                positions@,
                ars,
                last.start,
                last.top,
                last.height,
                row_start - 1,
                l.spacing,
            ));
        }
        positions[row_start * 4 + 3]
    } else {
        proof {
            lemma_split_bounds(s.rows, row_start as int);
        }
        limits.row_height
    };
    let height = if gt(fill, limits.max_row_height) {
        prev_height
    } else {
        fill
    };
    let ghost row = last_row(s, ars, l);
    let row_width = place_row(
        positions,
        aspect_ratios,
        row_start,
        n,
        height,
        top,
        limits.spacing,
        total_spacing,
        Ghost(s.rows),
        Ghost(row),
    );
    let ghost placed = positions@;
    let width = max(row_width, max_width);
    positions.set(0, width);
    positions.set(1, sum(top, height));
    proof {
        let rows = final_rows(s, ars, l);
        lemma_split_bounds(rows, n as int);
        assert forall|r: int, t: int|
            0 <= r < rows.len() && rows[r].start <= t < rows[r].end implies #[trigger] box_placed(
            positions@,
            ars,
            rows[r].start,
            rows[r].top,
            rows[r].height,
            t,
            l.spacing,
        ) by {
            assert(box_placed(
                placed,
                ars,
                rows[r].start,
                rows[r].top,
                rows[r].height,
                t,
                l.spacing,
            ));
        }
    }
}

/// The state of the greedy scan that the code keeps: all of `Scan` but the
/// closed rows, which are written to the buffer as they close.
pub(crate) struct Progress {
    pub(crate) cumulative: u32,
    pub(crate) row_aspect_ratio: u32,
    pub(crate) best_diff: u32,
    pub(crate) row_start: usize,
    pub(crate) top: u32,
    pub(crate) max_width: u32,
}

impl Progress {
    /// Whether this is the state `s`, its closed rows aside.
    pub(crate) open spec fn tracks(&self, s: Scan) -> bool {
        &&& self.cumulative == s.cumulative
        &&& self.row_aspect_ratio == s.row_aspect_ratio
        &&& self.best_diff == s.best_diff
        &&& self.row_start == s.row_start
        &&& self.top == s.top
        &&& self.max_width == s.max_width
    }

    /// The state before any box.
    pub(crate) fn start(limits: &Limits) -> (r: Progress)
        ensures
            r.tracks(scan_start(*limits)),
    {
        Progress {
            cumulative: ZERO,
            row_aspect_ratio: ZERO,
            best_diff: limits.target_row_aspect_ratio,
            row_start: 0,
            top: ZERO,
            max_width: ZERO,
        }
    }
}

/// Takes box `i` into the layout: closes the open row before it where it is
/// full, writing that row's boxes, and adds the box to the open row.
pub(crate) fn layout_step(
    positions: &mut Vec<u32>,
    aspect_ratios: &[u32],
    limits: &Limits,
    progress: &mut Progress,
    i: usize,
    Ghost(s): Ghost<Scan>,
)
    requires
        i < aspect_ratios@.len(),
        16 * aspect_ratios@.len() + 16 <= isize::MAX,
        shaped(s, aspect_ratios@, *limits, i as int),
        old(progress).tracks(s),
        old(positions)@.len() == 4 * aspect_ratios@.len() + 4,
        rows_placed(old(positions)@, aspect_ratios@, s.rows, limits.spacing),
    ensures
        final(progress).tracks(scan_step(s, aspect_ratios@, *limits, i as int)),
        final(positions)@.len() == old(positions)@.len(),
        forall|k: int| 0 <= k < 4 ==> #[trigger] final(positions)@[k] == old(positions)@[k],
        rows_placed(
            final(positions)@,
            aspect_ratios@,
            scan_step(s, aspect_ratios@, *limits, i as int).rows,
            limits.spacing,
        ),
{
    reveal(scan_step);
    let ghost ars = aspect_ratios@;
    let ghost l = *limits;
    let ratio = aspect_ratios[i];
    let mut cumulative = sum(progress.cumulative, ratio);
    let is_full = gt(cumulative, limits.max_row_aspect_ratio) || gt(
        abs_diff(cumulative, limits.target_row_aspect_ratio),
        progress.best_diff,
    ) || is_too_short(cumulative, i - progress.row_start + 1, limits);
    if is_full && i > 0 {
        assert(closes_row_before(s, ars, l, i as int));
        let row_start = progress.row_start;
        let (fill, total_spacing) = get_row_height(progress.row_aspect_ratio, i - row_start, limits);
        let height = min(fill, limits.max_row_height);
        let top = progress.top;
        let row_width = place_row(
            positions,
            aspect_ratios,
            row_start,
            i,
            height,
            top,
            limits.spacing,
            total_spacing,
            Ghost(s.rows),
            Ghost(closed_row(s, l, i as int)),
        );
        progress.top = sum(top, sum(height, limits.spacing));
        progress.max_width = max(row_width, progress.max_width);
        progress.row_start = i;
        cumulative = ratio;
    } else {
        assert(!closes_row_before(s, ars, l, i as int));
    }
    progress.best_diff = abs_diff(cumulative, limits.target_row_aspect_ratio);
    cumulative = sum(cumulative, limits.spacing_aspect_ratio);
    progress.cumulative = cumulative;
    progress.row_aspect_ratio = cumulative;
}

impl Layout {
    /// Lays out boxes of the given aspect ratios (width / height) in rows.
    pub fn new(aspect_ratios: &[u32], options: &LayoutOptions) -> (r: Layout)
        requires
            16 * aspect_ratios@.len() + 16 <= isize::MAX,
        ensures
            is_layout_of(r@, aspect_ratios@, options.spec_limits()),
            r.box_count() == aspect_ratios@.len(),
    {
        let ghost ars = aspect_ratios@;
        let limits = options.limits();
        let ghost l = limits;
        let n = aspect_ratios.len();
        if n == 0 {
            let positions = zeros(4);
            assert(positions@ =~= seq![ZERO, ZERO, ZERO, ZERO]);
            return Layout { positions };
        }
        let mut positions = zeros(n * 4 + 4);
        let mut progress = Progress::start(&limits);
        let mut i: usize = 0;
        while i < n
            invariant
                ars == aspect_ratios@,
                l == limits,
                n == ars.len(),
                16 * n + 16 <= isize::MAX,
                0 <= i <= n,
                positions@.len() == 4 * n + 4,
                positions@[2] == ZERO,
                positions@[3] == ZERO,
                progress.tracks(scan(ars, l, i as int)),
                rows_placed(positions@, ars, scan(ars, l, i as int).rows, l.spacing),
            decreases n - i,
        {
            proof {
                lemma_scan_shaped(ars, l, i as int);
            }
            layout_step(
                &mut positions,
                aspect_ratios,
                &limits,
                &mut progress,
                i,
                Ghost(scan(ars, l, i as int)),
            );
            i = i + 1;
        }
        proof {
            lemma_scan_shaped(ars, l, n as int);
        }
        finish_layout(
            &mut positions,
            aspect_ratios,
            &limits,
            &progress,
            Ghost(scan(ars, l, n as int)),
        );
        Layout { positions }
    }
}

impl Layout {
    /// The number of boxes.
    pub open spec fn box_count(&self) -> int {
        (self@.len() - 4) / 4
    }

    /// The position and size of every box, in order.
    pub fn boxes(&self) -> (r: Vec<Box>)
        ensures
            r@.len() == self.box_count(),
            forall|i: int|
                0 <= i < r@.len() ==> {
                    &&& #[trigger] r@[i].top == self@[4 * i + 4]
                    &&& r@[i].left == self@[4 * i + 5]
                    &&& r@[i].width == self@[4 * i + 6]
                    &&& r@[i].height == self@[4 * i + 7]
                },
    {
        proof {
            use_type_invariant(self);
        }
        let n = self.len();
        let mut boxes: Vec<Box> = Vec::with_capacity(n);
        let mut i: usize = 0;
        while i < n
            invariant
                n == self.box_count(),
                self.positions.len() == 4 * n + 4,
                self@.len() == 4 * n + 4,
                self@ == self.positions@,
                i <= n,
                boxes@.len() == i,
                forall|t: int|
                    0 <= t < i ==> {
                        &&& #[trigger] boxes@[t].top == self@[4 * t + 4]
                        &&& boxes@[t].left == self@[4 * t + 5]
                        &&& boxes@[t].width == self@[4 * t + 6]
                        &&& boxes@[t].height == self@[4 * t + 7]
                    },
            decreases n - i,
        {
            let base = 4 * i + 4;
            boxes.push(
                Box {
                    top: self.positions[base],
                    left: self.positions[base + 1],
                    width: self.positions[base + 2],
                    height: self.positions[base + 3],
                },
            );
            i = i + 1;
        }
        boxes
    }

    /// The width of the layout: that of its widest row.
    pub fn width(&self) -> (r: u32)
        ensures
            r == self@[0],
    {
        proof {
            use_type_invariant(self);
        }
        self.positions[0]
    }

    /// The height of the layout: the bottom of its last row.
    pub fn height(&self) -> (r: u32)
        ensures
            r == self@[1],
    {
        proof {
            use_type_invariant(self);
        }
        self.positions[1]
    }

    /// The number of boxes.
    pub fn len(&self) -> (r: usize)
        ensures
            r == self.box_count(),
    {
        proof {
            use_type_invariant(self);
        }
        (self.positions.len() - 4) / 4
    }

    /// Whether the buffer holds more than its header: `true` exactly when the
    /// layout has at least one box.
    pub fn is_empty(&self) -> (r: bool)
        ensures
            r == (self@.len() > 4),
    {
        self.positions.len() > 4
    }
}

/// The layout of boxes of the given aspect ratios as one flat buffer: the
/// layout's width and height, two padding values, then the top, left, width
/// and height of each box.
pub fn get_justified_layout(
    aspect_ratios: &[u32],
    row_height: u32,
    row_width: u32,
    spacing: u32,
    tolerance: u32,
) -> (r: Vec<u32>)
    requires
        16 * aspect_ratios@.len() + 16 <= isize::MAX,
    ensures
        is_layout_of(
            r@,
            aspect_ratios@,
            LayoutOptions::new_spec(row_height, row_width, spacing, tolerance).spec_limits(),
        ),
{
    let options = LayoutOptions::new(row_height, row_width, spacing, tolerance);
    Layout::new(aspect_ratios, &options).positions
}

/// Whether a row of `count` boxes, whose summed aspect ratio up to its last
/// box is `cumulative`, would be shown more than one below the smallest row
/// height.
pub(crate) fn is_too_short(cumulative: u32, count: usize, limits: &Limits) -> (r: bool)
    requires
        count >= 1,
    ensures
        r == too_short(cumulative, count as int, *limits),
{
    let (fill, _) = get_row_height(sum(cumulative, limits.spacing_aspect_ratio), count, limits);
    gt(limits.min_row_height, sum(fill, ONE))
}

/// `|a - b|`.
pub(crate) fn abs_diff(a: u32, b: u32) -> (r: u32)
    ensures
        r == binary32_abs(binary32_sub(a, b)),
{
    abs(difference(a, b))
}

/// Placing the boxes of `row`, which follows `rows`, keeps those of `rows`.
proof fn lemma_place_row(
    before: Seq<u32>,
    after: Seq<u32>,
    ars: Seq<u32>,
    rows: Seq<Row>,
    row: Row,
    spacing: u32,
)
    requires
        before.len() == after.len() == 4 * ars.len() + 4,
        0 <= row.start < row.end <= ars.len(),
        splits(rows, row.start),
        rows_placed(before, ars, rows, spacing),
        forall|i: int|
            row.start <= i < row.end ==> #[trigger] box_placed(
                after,
                ars,
                row.start,
                row.top,
                row.height,
                i,
                spacing,
            ),
        forall|k: int|
            0 <= k < before.len() && !(4 * row.start + 4 <= k < 4 * row.end + 4)
                ==> #[trigger] after[k] == before[k],
    ensures
        rows_placed(after, ars, rows.push(row), spacing),
        splits(rows.push(row), row.end),
{
    lemma_split_bounds(rows, row.start);
    let all = rows.push(row);
    assert forall|r: int, t: int|
        0 <= r < all.len() && all[r].start <= t < all[r].end implies #[trigger] box_placed(
        after,
        ars,
        all[r].start,
        all[r].top,
        all[r].height,
        t,
        spacing,
    ) by {
        if r < rows.len() {
            assert(all[r] == rows[r]);
            assert(box_placed(before, ars, rows[r].start, rows[r].top, rows[r].height, t, spacing));
            assert(after[4 * t + 4] == before[4 * t + 4]);
            assert(after[4 * t + 5] == before[4 * t + 5]);
            assert(after[4 * t + 6] == before[4 * t + 6]);
            assert(after[4 * t + 7] == before[4 * t + 7]);
        } else {
            assert(all[r] == row);
        }
    }
}

} // verus!
