use justified_layout::binary32::{abs, gt, max, min, nan};
use justified_layout::native::get_justified_layout_simd;
use justified_layout::{get_justified_layout, Layout, LayoutOptions};

fn bits(values: &[f32]) -> Vec<u32> {
    values.iter().map(|v| v.to_bits()).collect()
}

fn options(row_height: f32, row_width: f32, spacing: f32, tolerance: f32) -> LayoutOptions {
    LayoutOptions::new(
        row_height.to_bits(),
        row_width.to_bits(),
        spacing.to_bits(),
        tolerance.to_bits(),
    )
}

fn samples() -> Vec<f32> {
    vec![
        0.0,
        -0.0,
        1.0,
        -1.0,
        0.5,
        2.5,
        -3.75,
        1.0e-40,
        -1.0e-40,
        f32::MIN_POSITIVE,
        f32::MAX,
        f32::MIN,
        f32::INFINITY,
        f32::NEG_INFINITY,
        f32::NAN,
        -f32::NAN,
        16.0 / 9.0,
    ]
}

/// Deterministic aspect ratios in [0.5, 2.5].
fn ratios(n: usize) -> Vec<f32> {
    let mut out = Vec::with_capacity(n);
    let mut seed: u32 = 7;
    for _ in 0..n {
        seed = seed.wrapping_mul(1103515245).wrapping_add(12345);
        out.push(0.5 + 2.0 * (seed >> 16) as f32 / 65536.0);
    }
    out
}

#[test]
fn comparison_matches_numbers() {
    for &a in &samples() {
        for &b in &samples() {
            assert_eq!(gt(a.to_bits(), b.to_bits()), a > b, "{a} > {b}");
        }
    }
}

#[test]
fn abs_nan_max_min_match_numbers() {
    for &a in &samples() {
        assert_eq!(abs(a.to_bits()), a.abs().to_bits());
        assert_eq!(nan(a.to_bits()), a.is_nan());
        for &b in &samples() {
            let hi = f32::from_bits(max(a.to_bits(), b.to_bits()));
            let lo = f32::from_bits(min(a.to_bits(), b.to_bits()));
            let want_hi = a.max(b);
            let want_lo = a.min(b);
            assert!(hi == want_hi || (hi.is_nan() && want_hi.is_nan()), "max {a} {b}");
            assert!(lo == want_lo || (lo.is_nan() && want_lo.is_nan()), "min {a} {b}");
        }
    }
}

#[test]
fn options_derive_limits_with_native_arithmetic() {
    let (row_height, row_width, spacing, tolerance) = (300.0f32, 900.0f32, 2.0f32, 0.1f32);
    let limits = options(row_height, row_width, spacing, tolerance).limits();
    assert_eq!(limits.row_height, row_height.to_bits());
    assert_eq!(limits.row_width, row_width.to_bits());
    assert_eq!(limits.spacing, spacing.to_bits());
    assert_eq!(limits.max_row_height, (row_height * (1.0 + tolerance)).to_bits());
    let min_row_height = (row_height * (1.0 - tolerance)).max(0.0);
    assert_eq!(limits.max_row_aspect_ratio, (row_width / min_row_height).to_bits());
    assert_eq!(limits.target_row_aspect_ratio, (row_width / row_height).to_bits());
    assert_eq!(limits.spacing_aspect_ratio, (spacing / row_height).to_bits());
}

#[test]
fn tolerance_above_one_gives_infinite_row_aspect_ratio() {
    // max(300 * (1 - 1.5), 0) is 0, and 900 / 0 is infinite.
    let limits = options(300.0, 900.0, 0.0, 1.5).limits();
    assert_eq!(limits.max_row_aspect_ratio, f32::INFINITY.to_bits());
}

/// Checks the laws of a layout buffer: the header, that each row starts at the
/// left edge, that boxes of a row share top and height and follow each other
/// `spacing` apart, that rows are stacked `spacing` apart from the top, that
/// widths keep the aspect ratios, and that the layout is as wide as its
/// widest row and as high as the bottom of its last row.
fn check_laws(input: &[f32], spacing: f32, positions: &[f32]) {
    let n = input.len();
    assert_eq!(positions.len(), 4 * n + 4);
    assert_eq!(positions[2], 0.0);
    assert_eq!(positions[3], 0.0);
    if n == 0 {
        return;
    }
    let at = |i: usize, k: usize| positions[4 * i + 4 + k];
    assert_eq!(at(0, 0).to_bits(), 0);
    assert_eq!(at(0, 1).to_bits(), 0);
    let mut row_width = at(0, 2);
    let mut widest = 0.0f32;
    for i in 0..n {
        assert_eq!(at(i, 2).to_bits(), (input[i] * at(i, 3)).to_bits());
        if i == 0 {
            continue;
        }
        let same_row = at(i, 0).to_bits() == at(i - 1, 0).to_bits() && at(i, 1) != 0.0;
        if same_row {
            assert_eq!(at(i, 3).to_bits(), at(i - 1, 3).to_bits());
            assert_eq!(at(i, 1).to_bits(), (at(i - 1, 1) + (at(i - 1, 2) + spacing)).to_bits());
            row_width += at(i, 2);
        } else {
            assert_eq!(at(i, 1).to_bits(), 0);
            assert_eq!(at(i, 0).to_bits(), (at(i - 1, 0) + (at(i - 1, 3) + spacing)).to_bits());
            widest = widest.max(row_width);
            row_width = at(i, 2);
        }
    }
    widest = widest.max(row_width);
    assert!(positions[0] >= widest - 0.01);
    assert_eq!(positions[1].to_bits(), (at(n - 1, 0) + at(n - 1, 3)).to_bits());
}

fn flat(input: &[f32], row_height: f32, row_width: f32, spacing: f32, tolerance: f32) -> Vec<f32> {
    get_justified_layout(
        &bits(input),
        row_height.to_bits(),
        row_width.to_bits(),
        spacing.to_bits(),
        tolerance.to_bits(),
    )
    .iter()
    .map(|b| f32::from_bits(*b))
    .collect()
}

#[test]
fn layouts_keep_the_row_laws() {
    for &n in &[1usize, 2, 3, 7, 50, 333] {
        let input = ratios(n);
        for &(row_height, row_width, spacing, tolerance) in &[
            (235.0f32, 1000.0f32, 2.0f32, 0.15f32),
            (100.0, 640.0, 0.0, 0.0),
            (75.0, 350.0, 4.0, 0.3),
        ] {
            let positions = flat(&input, row_height, row_width, spacing, tolerance);
            check_laws(&input, spacing, &positions);
        }
    }
}

#[test]
fn rows_are_capped_by_the_tolerance() {
    let input = ratios(200);
    let (row_height, tolerance) = (235.0f32, 0.15f32);
    let positions = flat(&input, row_height, 1000.0, 2.0, tolerance);
    let cap = row_height * (1.0 + tolerance);
    let last_row_top = positions[4 * 199 + 4];
    for i in 0..200 {
        if positions[4 * i + 4] != last_row_top {
            assert!(positions[4 * i + 7] <= cap);
        }
    }
}

#[test]
fn layout_counts_its_boxes() {
    let input = ratios(9);
    let layout = Layout::new(&bits(&input), &options(75.0, 350.0, 4.0, 0.15));
    assert_eq!(layout.len(), 9);
    assert_eq!(layout.boxes().len(), 9);
    assert!(layout.is_empty());
    let empty = Layout::new(&[], &options(75.0, 350.0, 4.0, 0.15));
    assert_eq!(empty.len(), 0);
    assert!(!empty.is_empty());
}

#[test]
fn spacing_counts_every_gap_of_a_long_row() {
    // 65537 narrow boxes under a very wide target row make one row, shown at
    // the target height 100: each box is 1.0 wide, with 65536 gaps of 2.0.
    let input = vec![0.01f32; 65537];
    let positions = flat(&input, 100.0, 1.0e9, 2.0, 0.0);
    assert_eq!(positions.len(), 4 * 65537 + 4);
    assert_eq!(positions[4 * 65536 + 4], 0.0);
    assert_eq!(positions[4 * 65536 + 7], 100.0);
    assert_eq!(positions[0], 2.0 * 65536.0 + 65537.0);
}

#[test]
fn odd_inputs_do_not_panic() {
    let input = vec![f32::NAN, f32::INFINITY, -1.0, 0.0, 1.0e30, 1.0e-30];
    for &(row_height, row_width, spacing, tolerance) in &[
        (0.0f32, 0.0f32, 0.0f32, 0.0f32),
        (-10.0, 100.0, -2.0, 2.0),
        (f32::NAN, 100.0, 1.0, 0.1),
    ] {
        let positions = flat(&input, row_height, row_width, spacing, tolerance);
        assert_eq!(positions.len(), 4 * input.len() + 4);
        let simd = get_justified_layout_simd(
            &bits(&input),
            options(row_height, row_width, spacing, tolerance),
        );
        assert_eq!(simd.len(), 4 * input.len() + 4);
    }
}

#[test]
fn block_wise_layout_keeps_the_row_laws() {
    for &n in &[4usize, 5, 8, 13, 1001] {
        let input = ratios(n);
        let positions: Vec<f32> = get_justified_layout_simd(
            &bits(&input),
            options(235.0, 1000.0, 2.0, 0.15),
        )
        .iter()
        .map(|b| f32::from_bits(*b))
        .collect();
        check_laws(&input, 2.0, &positions);
    }
}

#[test]
fn block_wise_layout_rounds_differently() {
    // The block-wise prefix sums add the aspect ratios in another order: the
    // row height differs in its last bits, within 0.01.
    let input = [0.90960693f32, 0.5326843, 1.0661316, 1.3039856];
    let scalar = flat(&input, 235.0, 1000.0, 2.0, 0.15);
    let blocks: Vec<f32> = get_justified_layout_simd(&bits(&input), options(235.0, 1000.0, 2.0, 0.15))
        .iter()
        .map(|b| f32::from_bits(*b))
        .collect();
    assert_eq!(scalar[1], 260.7276);
    assert_eq!(blocks[1], 260.72757);
    for (s, b) in scalar.iter().zip(blocks.iter()) {
        assert!((s - b).abs() < 0.01);
    }
}

#[test]
fn rows_of_several_boxes_keep_the_lower_bound() {
    // A first row of the two narrow boxes would be 3.2 high at spacing 60,
    // more than one below 10 * (1 - 0.5) = 5.0: the first box closes a row of
    // its own.
    let input = [0.5f32, 12.0, 100.0];
    let positions = flat(&input, 10.0, 100.0, 60.0, 0.5);
    assert_eq!(positions.len(), 16);
    // First row: the first box alone at height 10 * 1.5.
    assert_eq!(positions[4], 0.0);
    assert_eq!(positions[5], 0.0);
    assert_eq!(positions[7], 15.0);
    // The second box starts a new row below it.
    assert_eq!(positions[9], 0.0);
    assert_eq!(positions[8], 15.0 + 60.0);
    assert!((positions[11] - 100.0 / 12.0).abs() < 0.001);
    // No row of two or more boxes but the last lies more than one under the
    // lower bound.
    let n = input.len();
    let last_top = positions[4 * (n - 1) + 4];
    for i in 1..n {
        let same_row = positions[4 * i + 4] == positions[4 * i] && positions[4 * i + 5] != 0.0;
        if same_row && positions[4 * i + 4] != last_top {
            assert!(positions[4 * i + 7] + 1.0 >= 5.0);
        }
    }
}

#[test]
fn a_row_short_by_rounding_alone_is_kept() {
    // With tolerance 0 the lower bound is the target 200; the two boxes fill
    // the row at 199.99998, short of it by rounding only, and stay together.
    let input = [1.97f32, 2.02];
    let positions = flat(&input, 200.0, 800.0, 2.0, 0.0);
    assert_eq!(positions.len(), 12);
    assert_eq!(positions[8], 0.0);
    assert!(positions[9] > 0.0);
    assert_eq!(positions[7].to_bits(), positions[11].to_bits());
    assert!(positions[7] < 200.0);
    assert!((positions[7] - 200.0).abs() < 0.001);
    assert_eq!(positions[1].to_bits(), positions[7].to_bits());
}

#[test]
fn a_row_short_by_one_is_kept() {
    // The two boxes fill the row at 4.0, one below the bound 5.0: they stay
    // in one row.
    let input = [0.5f32, 12.0, 100.0];
    let positions = flat(&input, 10.0, 100.0, 50.0, 0.5);
    assert_eq!(positions[8], 0.0);
    assert!(positions[9] > 0.0);
    assert_eq!(positions[7], 4.0);
    assert_eq!(positions[11], 4.0);
}

#[test]
fn appending_boxes_keeps_closed_rows() {
    let all = ratios(60);
    for &cut in &[1usize, 5, 17, 30, 59] {
        let a = &all[..cut];
        let q = flat(a, 235.0, 1000.0, 2.0, 0.15);
        let p = flat(&all, 235.0, 1000.0, 2.0, 0.15);
        let last_top = q[4 * (cut - 1) + 4];
        for k in 0..cut {
            if q[4 * k + 4] == last_top {
                break;
            }
            for j in 0..4 {
                assert_eq!(p[4 * k + 4 + j].to_bits(), q[4 * k + 4 + j].to_bits());
            }
        }
    }
}

#[test]
fn with_no_tolerance_no_row_is_taller_than_the_target() {
    for &n in &[1usize, 2, 5, 40, 200] {
        let input = ratios(n);
        let positions = flat(&input, 235.0, 1000.0, 2.0, 0.0);
        for i in 0..n {
            assert!(positions[4 * i + 7] <= 235.0);
        }
    }
}
