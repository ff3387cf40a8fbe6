//! The block-wise layout: the same greedy scan, taking four boxes at a time
//! where none of them closes a row.
//!
//! For each block of four boxes, the running aspect ratio after each of them
//! is computed from prefix sums within the block. When none of the four sums
//! exceeds the largest row aspect ratio, none would show the row more than one
//! below the smallest row height, and none lies farther from the target than the one
//! before it (the first box of all excepted, which never closes a row), the
//! block is taken whole; otherwise its boxes are taken one at a time as in
//! `Layout::new`. Boxes after the last full block
//! are taken one at a time. As the prefix sums add the aspect ratios in
//! another order, the sums (and so, at the edges, the rows) may differ from
//! those of `Layout::new` by rounding.

use crate::binary32::{
    binary32_abs, binary32_add, binary32_div, binary32_gt, binary32_mul, binary32_sub,
    difference, gt, is_nan, max, product, quotient, sum, ONE, SIGN_MASK, THREE, TWO, ZERO,
};
use crate::layout::{abs_diff, finish_layout, is_too_short, layout_step, zeros, Progress};
use crate::options::{spec_min_row_height, LayoutOptions, Limits};
use crate::laws::lemma_same_placement;
use crate::rows::{
    closes_row_before, is_layout_of, lemma_scan_shaped, lemma_start_shaped, lemma_steps_shaped,
    placed_layout, rows_placed, scan, scan_start, scan_step, scan_steps, shaped, too_short, Scan,
};
use vstd::prelude::*;

verus! {

/// The quantities that choose and size the rows, computed from the four
/// parameters of `o` (the largest row height as `row_height * (tolerance + 1)`).
pub open spec fn block_limits(o: LayoutOptions) -> Limits {
    Limits {
        row_height: o.spec_row_height(),
        row_width: o.spec_row_width(),
        spacing: o.spec_spacing(),
        min_row_height: spec_min_row_height(o.spec_row_height(), o.spec_tolerance()),
        max_row_height: binary32_mul(o.spec_row_height(), binary32_add(o.spec_tolerance(), ONE)),
        max_row_aspect_ratio: binary32_div(
            o.spec_row_width(),
            spec_min_row_height(o.spec_row_height(), o.spec_tolerance()),
        ),
        target_row_aspect_ratio: binary32_div(o.spec_row_width(), o.spec_row_height()),
        spacing_aspect_ratio: binary32_div(o.spec_spacing(), o.spec_row_height()),
    }
}

/// Prefix sums within a block `[a, b, c, d]`, in the order a vector unit adds
/// them: `[a + 0, b + a, c + b, d + c]` and then each lane plus the lane two
/// before it (or 0).
pub open spec fn spec_local_prefix(v: Seq<u32>) -> Seq<u32> {
    let s0 = binary32_add(v[0], ZERO);
    let s1 = binary32_add(v[1], v[0]);
    let s2 = binary32_add(v[2], v[1]);
    let s3 = binary32_add(v[3], v[2]);
    seq![binary32_add(s0, ZERO), binary32_add(s1, ZERO), binary32_add(s2, s0), binary32_add(s3, s1)]
}

/// The aspect ratios of block `b`.
pub open spec fn block(ars: Seq<u32>, b: int) -> Seq<u32> {
    ars.subrange(4 * b, 4 * b + 4)
}

/// The spacing added after `k` boxes of a block: `k * spacing_aspect_ratio`.
pub open spec fn spacing_offset(l: Limits, k: int) -> u32 {
    if k == 0 {
        ZERO
    } else if k == 1 {
        l.spacing_aspect_ratio
    } else if k == 2 {
        binary32_mul(l.spacing_aspect_ratio, TWO)
    } else {
        binary32_mul(l.spacing_aspect_ratio, THREE)
    }
}

/// The running aspect ratio of the open row after box `k` of block `b`, from
/// the state `s` before the block, were no row closed in the block.
pub open spec fn block_value(s: Scan, ars: Seq<u32>, l: Limits, b: int, k: int) -> u32 {
    binary32_add(
        binary32_add(spec_local_prefix(block(ars, b))[k], s.cumulative),
        spacing_offset(l, k),
    )
}

/// Its distance from the target row aspect ratio.
pub open spec fn block_diff(s: Scan, ars: Seq<u32>, l: Limits, b: int, k: int) -> u32 {
    binary32_abs(binary32_sub(block_value(s, ars, l, b, k), l.target_row_aspect_ratio))
}

/// Whether the row with box `k` of block `b` would be shown more than one
/// below the smallest row height.
pub open spec fn block_too_short(s: Scan, ars: Seq<u32>, l: Limits, b: int, k: int) -> bool {
    too_short(block_value(s, ars, l, b, k), 4 * b + k - s.row_start + 1, l)
}

/// Whether some box of block `b` may close a row: a running aspect ratio in the
/// block exceeds the largest, would show the row more than one below the
/// smallest height, or
/// lies farther from the target than the one before it (the first box of all,
/// which never closes a row, is not compared).
pub open spec fn block_has_boundary(s: Scan, ars: Seq<u32>, l: Limits, b: int) -> bool {
    let m = l.max_row_aspect_ratio;
    let exceeds = binary32_gt(block_value(s, ars, l, b, 0), m) || binary32_gt(
        block_value(s, ars, l, b, 1),
        m,
    ) || binary32_gt(block_value(s, ars, l, b, 2), m) || binary32_gt(
        block_value(s, ars, l, b, 3),
        m,
    );
    let short = block_too_short(s, ars, l, b, 0) || block_too_short(s, ars, l, b, 1)
        || block_too_short(s, ars, l, b, 2) || block_too_short(s, ars, l, b, 3);
    let worse = (b > 0 && binary32_gt(block_diff(s, ars, l, b, 0), s.best_diff)) || binary32_gt(
        block_diff(s, ars, l, b, 1),
        block_diff(s, ars, l, b, 0),
    ) || binary32_gt(block_diff(s, ars, l, b, 2), block_diff(s, ars, l, b, 1)) || binary32_gt(
        block_diff(s, ars, l, b, 3),
        block_diff(s, ars, l, b, 2),
    );
    exceeds || short || worse
}

/// The state after block `b`, from the state `s` before it.
pub open spec fn block_step(s: Scan, ars: Seq<u32>, l: Limits, b: int) -> Scan {
    if block_has_boundary(s, ars, l, b) {
        scan_steps(s, ars, l, 4 * b, 4 * b + 4)
    } else {
        let cumulative = binary32_add(block_value(s, ars, l, b, 3), l.spacing_aspect_ratio);
        Scan {
            cumulative,
            row_aspect_ratio: cumulative,
            best_diff: block_diff(s, ars, l, b, 3),
            ..s
        }
    }
}

/// The state after blocks `0..b`.
pub open spec fn blocks(ars: Seq<u32>, l: Limits, b: int) -> Scan
    decreases b,
{
    if b <= 0 {
        scan_start(l)
    } else {
        block_step(blocks(ars, l, b - 1), ars, l, b - 1)
    }
}

/// The state after all boxes: the full blocks, then the remaining boxes one
/// at a time.
pub open spec fn block_scan(ars: Seq<u32>, l: Limits) -> Scan {
    let full = (ars.len() / 4) as int;
    scan_steps(blocks(ars, l, full), ars, l, 4 * full, ars.len() as int)
}

/// Whether block `b`, if the block-wise scan takes it whole from the state of
/// the row-by-row scan before it, has the running sums of the row-by-row scan.
pub open spec fn block_matches(ars: Seq<u32>, l: Limits, b: int) -> bool {
    let s = scan(ars, l, 4 * b);
    !block_has_boundary(s, ars, l, b) ==> {
        &&& block_value(s, ars, l, b, 0) == binary32_add(scan(ars, l, 4 * b).cumulative, ars[4 * b])
        &&& block_value(s, ars, l, b, 1) == binary32_add(
            scan(ars, l, 4 * b + 1).cumulative,
            ars[4 * b + 1],
        )
        &&& block_value(s, ars, l, b, 2) == binary32_add(
            scan(ars, l, 4 * b + 2).cumulative,
            ars[4 * b + 2],
        )
        &&& block_value(s, ars, l, b, 3) == binary32_add(
            scan(ars, l, 4 * b + 3).cumulative,
            ars[4 * b + 3],
        )
    }
}

/// Whether every full block matches the row-by-row scan.
pub open spec fn block_sums_match(ars: Seq<u32>, l: Limits) -> bool {
    forall|b: int| 0 <= b < ars.len() / 4 ==> #[trigger] block_matches(ars, l, b)
}

/// Steps of the row-by-row scan from its own state after `from` boxes give its
/// state after `from + j` boxes.
pub proof fn lemma_scan_from(ars: Seq<u32>, l: Limits, from: int, j: int)
    requires
        0 <= from,
        0 <= j,
    ensures
        scan_steps(scan(ars, l, from), ars, l, from, from + j) == scan(ars, l, from + j),
    decreases j,
{
    if j > 0 {
        lemma_scan_from(ars, l, from, j - 1);
    }
}

/// A block taken whole with the running sums of the row-by-row scan leaves the
/// state the row-by-row scan reaches after it.
proof fn lemma_whole_block(ars: Seq<u32>, l: Limits, b: int)
    requires
        0 <= b,
        4 * b + 4 <= ars.len(),
        block_matches(ars, l, b),
        !block_has_boundary(scan(ars, l, 4 * b), ars, l, b),
    ensures
        block_step(scan(ars, l, 4 * b), ars, l, b) == scan(ars, l, 4 * b + 4),
{
    reveal(scan_step);
    let s = scan(ars, l, 4 * b);
    let t1 = scan(ars, l, 4 * b + 1);
    let t2 = scan(ars, l, 4 * b + 2);
    let t3 = scan(ars, l, 4 * b + 3);
    let t4 = scan(ars, l, 4 * b + 4);
    assert(t1 == scan_step(s, ars, l, 4 * b));
    assert(!closes_row_before(s, ars, l, 4 * b));
    assert(t2 == scan_step(t1, ars, l, 4 * b + 1));
    assert(t1.row_start == s.row_start && t1.best_diff == block_diff(s, ars, l, b, 0));
    assert(!closes_row_before(t1, ars, l, 4 * b + 1));
    assert(t3 == scan_step(t2, ars, l, 4 * b + 2));
    assert(t2.row_start == s.row_start && t2.best_diff == block_diff(s, ars, l, b, 1));
    assert(!closes_row_before(t2, ars, l, 4 * b + 2));
    assert(t4 == scan_step(t3, ars, l, 4 * b + 3));
    assert(t3.row_start == s.row_start && t3.best_diff == block_diff(s, ars, l, b, 2));
    assert(!closes_row_before(t3, ars, l, 4 * b + 3));
}

/// Where every full block matches, the block-wise scan reaches the states of
/// the row-by-row scan after each block.
proof fn lemma_blocks_match(ars: Seq<u32>, l: Limits, b: int)
    requires
        0 <= b <= ars.len() / 4,
        block_sums_match(ars, l),
    ensures
        blocks(ars, l, b) == scan(ars, l, 4 * b),
    decreases b,
{
    if b > 0 {
        lemma_blocks_match(ars, l, b - 1);
        let s = scan(ars, l, 4 * (b - 1));
        assert(block_matches(ars, l, b - 1));
        if block_has_boundary(s, ars, l, b - 1) {
            lemma_scan_from(ars, l, 4 * (b - 1), 4);
        } else {
            lemma_whole_block(ars, l, b - 1);
        }
    }
}

/// The block-wise layout is the row-by-row layout wherever every block it
/// takes whole has the running sums of the row-by-row scan (their prefix sums
/// add the aspect ratios in another order and may round differently): then
/// the two buffers are equal. With fewer than four boxes there is no block,
/// and they are always equal.
pub proof fn law_block_wise_matches_row_by_row(p: Seq<u32>, q: Seq<u32>, ars: Seq<u32>, l: Limits)
    requires
        ars.len() > 0,
        block_sums_match(ars, l),
        placed_layout(p, ars, l, block_scan(ars, l)),
        is_layout_of(q, ars, l),
    ensures
        p == q,
{
    let full = (ars.len() / 4) as int;
    lemma_blocks_match(ars, l, full);
    lemma_scan_from(ars, l, 4 * full, ars.len() - 4 * full);
    assert(block_scan(ars, l) == scan(ars, l, ars.len() as int));
    lemma_scan_shaped(ars, l, ars.len() as int);
    lemma_same_placement(p, q, scan(ars, l, ars.len() as int), ars, l);
}

/// The block-wise scan has the shape the scan keeps, after every full block.
pub proof fn lemma_blocks_shaped(ars: Seq<u32>, l: Limits, b: int)
    requires
        0 <= b <= ars.len() / 4,
    ensures
        shaped(blocks(ars, l, b), ars, l, 4 * b),
    decreases b,
{
    if b == 0 {
        lemma_start_shaped(ars, l);
    } else {
        lemma_blocks_shaped(ars, l, b - 1);
        let s = blocks(ars, l, b - 1);
        if block_has_boundary(s, ars, l, b - 1) {
            lemma_steps_shaped(s, ars, l, 4 * (b - 1), 4 * b);
        }
    }
}

/// The state after all boxes of the block-wise scan has the shape the scan keeps.
pub proof fn lemma_block_scan_shaped(ars: Seq<u32>, l: Limits)
    ensures
        shaped(block_scan(ars, l), ars, l, ars.len() as int),
{
    let full = (ars.len() / 4) as int;
    lemma_blocks_shaped(ars, l, full);
    lemma_steps_shaped(blocks(ars, l, full), ars, l, 4 * full, ars.len() as int);
}

/// Prefix sums within a block of four values.
fn local_prefix(v: [u32; 4]) -> (r: [u32; 4])
    ensures
        r@ == spec_local_prefix(v@),
{
    let s0 = sum(v[0], ZERO);
    let s1 = sum(v[1], v[0]);
    let s2 = sum(v[2], v[1]);
    let s3 = sum(v[3], v[2]);
    let r = [sum(s0, ZERO), sum(s1, ZERO), sum(s2, s0), sum(s3, s1)];
    assert(r@ =~= spec_local_prefix(v@));
    r
}

/// The quantities that choose and size the rows, from the four parameters.
fn block_limits_of(options: &LayoutOptions) -> (r: Limits)
    ensures
        r == block_limits(*options),
        options.spec_tolerance() == ZERO && !is_nan(options.spec_row_height())
            ==> r.max_row_height == options.spec_row_height(),
{
    proof {
        assert(!is_nan(ONE) && ONE != SIGN_MASK) by (bit_vector);
    }
    let row_height = options.row_height();
    let row_width = options.row_width();
    let spacing = options.spacing();
    let tolerance = options.tolerance();
    let min_row_height = max(product(row_height, difference(ONE, tolerance)), ZERO);
    Limits {
        row_height,
        row_width,
        spacing,
        min_row_height,
        max_row_height: product(row_height, sum(tolerance, ONE)),
        max_row_aspect_ratio: quotient(row_width, min_row_height),
        target_row_aspect_ratio: quotient(row_width, row_height),
        spacing_aspect_ratio: quotient(spacing, row_height),
    }
}

/// Takes block `b` into the layout: whole where none of its boxes can close a
/// row, else one box at a time.
fn take_block(
    positions: &mut Vec<u32>,
    aspect_ratios: &[u32],
    limits: &Limits,
    progress: &mut Progress,
    b: usize,
    Ghost(s): Ghost<Scan>,
)
    requires
        4 * b + 4 <= aspect_ratios@.len(),
        16 * aspect_ratios@.len() + 16 <= isize::MAX,
        shaped(s, aspect_ratios@, *limits, 4 * b),
        old(progress).tracks(s),
        old(positions)@.len() == 4 * aspect_ratios@.len() + 4,
        rows_placed(old(positions)@, aspect_ratios@, s.rows, limits.spacing),
    ensures
        final(progress).tracks(block_step(s, aspect_ratios@, *limits, b as int)),
        final(positions)@.len() == old(positions)@.len(),
        forall|k: int| 0 <= k < 4 ==> #[trigger] final(positions)@[k] == old(positions)@[k],
        rows_placed(
            final(positions)@,
            aspect_ratios@,
            block_step(s, aspect_ratios@, *limits, b as int).rows,
            limits.spacing,
        ),
{
    let ghost ars = aspect_ratios@;
    let ghost l = *limits;
    let block_start = b * 4;
    let v = [
        aspect_ratios[block_start],
        aspect_ratios[block_start + 1],
        aspect_ratios[block_start + 2],
        aspect_ratios[block_start + 3],
    ];
    assert(v@ =~= block(ars, b as int));
    let prefix = local_prefix(v);
    let spacing_aspect_ratio = limits.spacing_aspect_ratio;
    let offsets = [
        ZERO,
        spacing_aspect_ratio,
        product(spacing_aspect_ratio, TWO),
        product(spacing_aspect_ratio, THREE),
    ];
    let cumulative = progress.cumulative;
    let v0 = sum(sum(prefix[0], cumulative), offsets[0]);
    let v1 = sum(sum(prefix[1], cumulative), offsets[1]);
    let v2 = sum(sum(prefix[2], cumulative), offsets[2]);
    let v3 = sum(sum(prefix[3], cumulative), offsets[3]);
    assert(v0 == block_value(s, ars, l, b as int, 0));
    assert(v1 == block_value(s, ars, l, b as int, 1));
    assert(v2 == block_value(s, ars, l, b as int, 2));
    assert(v3 == block_value(s, ars, l, b as int, 3));
    let m = limits.max_row_aspect_ratio;
    let exceeds_max = gt(v0, m) || gt(v1, m) || gt(v2, m) || gt(v3, m);
    let target = limits.target_row_aspect_ratio;
    let d0 = abs_diff(v0, target);
    let d1 = abs_diff(v1, target);
    let d2 = abs_diff(v2, target);
    let d3 = abs_diff(v3, target);
    let row_start = progress.row_start;
    let too_short = is_too_short(v0, block_start - row_start + 1, limits) || is_too_short(
        v1,
        block_start - row_start + 2,
        limits,
    ) || is_too_short(v2, block_start - row_start + 3, limits) || is_too_short(
        v3,
        block_start - row_start + 4,
        limits,
    );
    let getting_worse = (block_start > 0 && gt(d0, progress.best_diff)) || gt(d1, d0) || gt(
        d2,
        d1,
    ) || gt(d3, d2);
    let has_boundary = exceeds_max || too_short || getting_worse;
    assert(has_boundary == block_has_boundary(s, ars, l, b as int));
    if !has_boundary {
        let next = sum(v3, spacing_aspect_ratio);
        progress.cumulative = next;
        progress.row_aspect_ratio = next;
        progress.best_diff = d3;
    } else {
        let mut j: usize = 0;
        while j < 4
            invariant
                j <= 4,
                ars == aspect_ratios@,
                l == *limits,
                block_start == 4 * b,
                4 * b + 4 <= ars.len(),
                16 * ars.len() + 16 <= isize::MAX,
                shaped(s, ars, l, 4 * b),
                progress.tracks(scan_steps(s, ars, l, 4 * b, 4 * b + j)),
                positions@.len() == 4 * ars.len() + 4,
                forall|k: int| 0 <= k < 4 ==> #[trigger] positions@[k] == old(positions)@[k],
                rows_placed(positions@, ars, scan_steps(s, ars, l, 4 * b, 4 * b + j).rows, l.spacing),
            decreases 4 - j,
        {
            proof {
                lemma_steps_shaped(s, ars, l, 4 * b, 4 * b + j);
            }
            layout_step(
                positions,
                aspect_ratios,
                limits,
                progress,
                block_start + j,
                Ghost(scan_steps(s, ars, l, 4 * b, 4 * b + j)),
            );
            j = j + 1;
        }
    }
}

/// The layout of boxes of the given aspect ratios as one flat buffer (empty
/// for no boxes), computed block-wise: the layout's width and height, two
/// padding values, then the top, left, width and height of each box.
pub fn get_justified_layout_simd(aspect_ratios: &[u32], options: LayoutOptions) -> (r: Vec<u32>)
    requires
        16 * aspect_ratios@.len() + 16 <= isize::MAX,
    ensures
        aspect_ratios@.len() == 0 ==> r@.len() == 0,
        aspect_ratios@.len() > 0 ==> placed_layout(
            r@,
            aspect_ratios@,
            block_limits(options),
            block_scan(aspect_ratios@, block_limits(options)),
        ),
        options.spec_tolerance() == ZERO && !is_nan(options.spec_row_height()) ==> block_limits(
            options,
        ).max_row_height == options.spec_row_height(),
{
    let ghost ars = aspect_ratios@;
    let limits = block_limits_of(&options);
    let n = aspect_ratios.len();
    if n == 0 {
        return Vec::new();
    }
    let mut positions = zeros(n * 4 + 4);
    let ghost l = limits;
    let mut progress = Progress::start(&limits);
    let full_blocks = n / 4;
    let mut b: usize = 0;
    while b < full_blocks
        invariant
            ars == aspect_ratios@,
            l == limits,
            n == ars.len(),
            full_blocks == n / 4,
            16 * n + 16 <= isize::MAX,
            b <= full_blocks,
            positions@.len() == 4 * n + 4,
            positions@[2] == ZERO,
            positions@[3] == ZERO,
            progress.tracks(blocks(ars, l, b as int)),
            rows_placed(positions@, ars, blocks(ars, l, b as int).rows, l.spacing),
        decreases full_blocks - b,
    {
        proof {
            lemma_blocks_shaped(ars, l, b as int);
        }
        take_block(
            &mut positions,
            aspect_ratios,
            &limits,
            &mut progress,
            b,
            Ghost(blocks(ars, l, b as int)),
        );
        b = b + 1;
    }
    let rem_start = full_blocks * 4;
    let ghost from = blocks(ars, l, full_blocks as int);
    proof {
        lemma_blocks_shaped(ars, l, full_blocks as int);
    }
    let mut idx = rem_start;
    while idx < n
        invariant
            ars == aspect_ratios@,
            l == limits,
            n == ars.len(),
            rem_start == 4 * (n / 4),
            from == blocks(ars, l, (n / 4) as int),
            shaped(from, ars, l, rem_start as int),
            16 * n + 16 <= isize::MAX,
            rem_start <= idx <= n,
            positions@.len() == 4 * n + 4,
            positions@[2] == ZERO,
            positions@[3] == ZERO,
            progress.tracks(scan_steps(from, ars, l, rem_start as int, idx as int)),
            rows_placed(
                positions@,
                ars,
                scan_steps(from, ars, l, rem_start as int, idx as int).rows,
                l.spacing,
            ),
        decreases n - idx,
    {
        proof {
            lemma_steps_shaped(from, ars, l, rem_start as int, idx as int);
        }
        layout_step(
            &mut positions,
            aspect_ratios,
            &limits,
            &mut progress,
            idx,
            Ghost(scan_steps(from, ars, l, rem_start as int, idx as int)),
        );
        idx = idx + 1;
    }
    proof {
        lemma_block_scan_shaped(ars, l);
    }
    finish_layout(&mut positions, aspect_ratios, &limits, &progress, Ghost(block_scan(ars, l)));
    positions
}

} // verus!
