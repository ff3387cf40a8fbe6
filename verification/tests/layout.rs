use justified_layout::{Layout, LayoutOptions};

/// A box with its fields read as numbers.
struct Placed {
    top: f32,
    left: f32,
    width: f32,
    height: f32,
}

fn options(row_height: f32, row_width: f32, spacing: f32, tolerance: f32) -> LayoutOptions {
    LayoutOptions::new(
        row_height.to_bits(),
        row_width.to_bits(),
        spacing.to_bits(),
        tolerance.to_bits(),
    )
}

fn bits(values: &[f32]) -> Vec<u32> {
    values.iter().map(|v| v.to_bits()).collect()
}

fn value(bits: u32) -> f32 {
    f32::from_bits(bits)
}

fn boxes_of(layout: &Layout) -> Vec<Placed> {
    layout
        .boxes()
        .iter()
        .map(|b| Placed {
            top: value(b.top),
            left: value(b.left),
            width: value(b.width),
            height: value(b.height),
        })
        .collect()
}

#[test]
fn lib_fits_perfectly_on_one_row() {
    let input: Vec<f32> = vec![1.0, 1.0, 1.0];
    let options = options(300.0, 900.0, 0.0, 0.0);

    let layout = Layout::new(&bits(&input), &options);
    assert_eq!(layout.len(), 3);
    assert_eq!(value(layout.width()), 900.0);
    assert_eq!(value(layout.height()), 300.0);

    let boxes = boxes_of(&layout);
    assert_eq!(boxes[0].top, 0.0);
    assert_eq!(boxes[0].left, 0.0);
    assert_eq!(boxes[0].width, 300.0);
    assert_eq!(boxes[0].height, 300.0);

    assert_eq!(boxes[1].top, 0.0);
    assert_eq!(boxes[1].left, 300.0);
    assert_eq!(boxes[1].width, 300.0);
    assert_eq!(boxes[1].height, 300.0);

    assert_eq!(boxes[2].top, 0.0);
    assert_eq!(boxes[2].left, 600.0);
    assert_eq!(boxes[2].width, 300.0);
    assert_eq!(boxes[2].height, 300.0);
}

#[test]
fn lib_applies_spacing() {
    let input: Vec<f32> = vec![1.0, 1.0, 1.0];
    let spacing = 2.0;
    let options = options(300.0, 904.0, spacing, 0.0);

    let layout = Layout::new(&bits(&input), &options);
    assert_eq!(layout.len(), 3);
    assert_eq!(value(layout.width()), 904.0);
    assert_eq!(value(layout.height()), 300.0);

    let boxes = boxes_of(&layout);
    assert_eq!(boxes[0].top, 0.0);
    assert_eq!(boxes[0].left, 0.0);
    assert_eq!(boxes[0].width, 300.0);
    assert_eq!(boxes[0].height, 300.0);

    assert_eq!(boxes[1].top, 0.0);
    assert_eq!(boxes[1].left, 300.0 + spacing);
    assert_eq!(boxes[1].width, 300.0);
    assert_eq!(boxes[1].height, 300.0);

    assert_eq!(boxes[2].top, 0.0);
    assert_eq!(boxes[2].left, 300.0 + spacing + 300.0 + spacing);
    assert_eq!(boxes[2].width, 300.0);
    assert_eq!(boxes[2].height, 300.0);
}

#[test]
fn lib_expands_row_based_on_height_tolerance() {
    let input: Vec<f32> = vec![1.0, 1.0, 1.0];
    let spacing = 2.0;
    let options = options(300.0, 994.0, spacing, 0.1);

    let layout = Layout::new(&bits(&input), &options);
    assert_eq!(layout.len(), 3);
    assert_eq!(value(layout.width()), 994.0);
    assert_eq!(value(layout.height()), 330.0);

    let boxes = boxes_of(&layout);
    assert_eq!(boxes[0].top, 0.0);
    assert_eq!(boxes[0].left, 0.0);
    assert_eq!(boxes[0].width, 330.0);
    assert_eq!(boxes[0].height, 330.0);

    assert_eq!(boxes[1].top, 0.0);
    assert_eq!(boxes[1].left, 330.0 + spacing);
    assert_eq!(boxes[1].width, 330.0);
    assert_eq!(boxes[1].height, 330.0);

    assert_eq!(boxes[2].top, 0.0);
    assert_eq!(boxes[2].left, 330.0 + spacing + 330.0 + spacing);
    assert_eq!(boxes[2].width, 330.0);
    assert_eq!(boxes[2].height, 330.0);
}

#[test]
fn lib_uses_target_height_if_max_height_cannot_fill_row() {
    let input: Vec<f32> = vec![1.0, 1.0, 1.0];
    let spacing = 2.0;
    let options = options(300.0, 1000.0, spacing, 0.1);

    let layout = Layout::new(&bits(&input), &options);
    assert_eq!(layout.len(), 3);
    assert_eq!(value(layout.width()), 904.0);
    assert_eq!(value(layout.height()), 300.0);

    let boxes = boxes_of(&layout);
    assert_eq!(boxes[0].top, 0.0);
    assert_eq!(boxes[0].left, 0.0);
    assert_eq!(boxes[0].width, 300.0);
    assert_eq!(boxes[0].height, 300.0);

    assert_eq!(boxes[1].top, 0.0);
    assert_eq!(boxes[1].left, 300.0 + spacing);
    assert_eq!(boxes[1].width, 300.0);
    assert_eq!(boxes[1].height, 300.0);

    assert_eq!(boxes[2].top, 0.0);
    assert_eq!(boxes[2].left, 300.0 + spacing + 300.0 + spacing);
    assert_eq!(boxes[2].width, 300.0);
    assert_eq!(boxes[2].height, 300.0);
}

#[test]
fn lib_adds_second_row_due_to_spacing() {
    let input: Vec<f32> = vec![1.0, 1.0, 1.0];
    let row_height = 300.0;
    let spacing = 2.0;
    let options = options(row_height, 900.0, spacing, 0.0);

    let layout = Layout::new(&bits(&input), &options);
    assert_eq!(layout.len(), 3);
    assert_eq!(value(layout.width()), 602.0);
    assert_eq!(value(layout.height()), 602.0);

    let boxes = boxes_of(&layout);
    assert_eq!(boxes[0].top, 0.0);
    assert_eq!(boxes[0].left, 0.0);
    assert_eq!(boxes[0].width, 300.0);
    assert_eq!(boxes[0].height, 300.0);

    assert_eq!(boxes[1].top, 0.0);
    assert_eq!(boxes[1].left, 300.0 + spacing);
    assert_eq!(boxes[1].width, 300.0);
    assert_eq!(boxes[1].height, 300.0);

    assert_eq!(boxes[2].top, row_height + spacing);
    assert_eq!(boxes[2].left, 0.0);
    assert_eq!(boxes[2].width, 300.0);
    assert_eq!(boxes[2].height, 300.0);
}

#[test]
fn lib_positions_boxes_with_different_aspect_ratios() {
    let input: Vec<f32> = vec![16.0 / 9.0, 2.0, 9.0 / 16.0];
    let spacing = 2.0;
    let options = options(300.0, 900.0, spacing, 0.0);

    let layout = Layout::new(&bits(&input), &options);
    assert_eq!(layout.len(), 3);
    assert_eq!(value(layout.width()), 770.75);
    assert_eq!(value(layout.height()), 602.0);

    let boxes = boxes_of(&layout);
    assert_eq!(boxes[0].top, 0.0);
    assert_eq!(boxes[0].left, 0.0);
    assert_eq!(boxes[0].width, 300.0 * (16.0 / 9.0));
    assert_eq!(boxes[0].height, 300.0);

    assert_eq!(boxes[1].top, boxes[0].height + spacing);
    assert_eq!(boxes[1].left, 0.0);
    assert_eq!(boxes[1].width, 300.0 * 2.0);
    assert_eq!(boxes[1].height, 300.0);

    assert_eq!(boxes[2].top, boxes[0].height + spacing);
    assert_eq!(boxes[2].left, boxes[1].width + spacing);
    assert_eq!(boxes[2].width, 300.0 * (9.0 / 16.0));
    assert_eq!(boxes[2].height, 300.0);
}

#[test]
fn lib_scales_boxes_with_different_aspect_ratios_when_using_height_tolerance() {
    let input: Vec<f32> = vec![16.0 / 9.0, 2.0, 9.0 / 16.0];
    let spacing = 2.0;
    let options = options(300.0, 900.0, spacing, 0.2);

    let layout = Layout::new(&bits(&input), &options);
    assert_eq!(layout.len(), 3);
    assert_eq!(value(layout.width()), 900.0);
    assert_eq!(value(layout.height()), 712.439);

    let boxes = boxes_of(&layout);
    assert_eq!(boxes[0].top, 0.0);
    assert_eq!(boxes[0].left, 0.0);
    assert_eq!(boxes[0].width, 640.0);
    assert_eq!(boxes[0].height, 360.0);

    assert_eq!(boxes[1].top, boxes[0].height + spacing);
    assert_eq!(boxes[1].left, 0.0);
    assert_eq!(boxes[1].width, 700.87805);
    assert_eq!(boxes[1].height, 350.43903);

    assert_eq!(boxes[2].top, boxes[0].height + spacing);
    assert_eq!(boxes[2].left, boxes[1].width + spacing);
    assert_eq!(boxes[2].width, 197.12195);
    assert_eq!(boxes[2].height, 350.43903);
}

#[test]
fn lib_one_square_box_on_each_row() {
    let input: Vec<f32> = vec![1.0, 1.0, 1.0];
    let spacing = 2.0;
    let options = options(300.0, 599.0, spacing, 0.0);

    let layout = Layout::new(&bits(&input), &options);
    assert_eq!(layout.len(), 3);
    assert_eq!(value(layout.width()), 300.0);
    assert_eq!(value(layout.height()), 904.0);

    let boxes = boxes_of(&layout);
    assert_eq!(boxes[0].top, 0.0);
    assert_eq!(boxes[0].left, 0.0);
    assert_eq!(boxes[0].width, 300.0);
    assert_eq!(boxes[0].height, 300.0);

    assert_eq!(boxes[1].top, boxes[0].height + spacing);
    assert_eq!(boxes[1].left, 0.0);
    assert_eq!(boxes[1].width, 300.0);
    assert_eq!(boxes[1].height, 300.0);

    assert_eq!(boxes[2].top, boxes[0].height + spacing + boxes[1].height + spacing);
    assert_eq!(boxes[2].left, 0.0);
    assert_eq!(boxes[2].width, 300.0);
    assert_eq!(boxes[2].height, 300.0);
}

#[test]
fn lib_different_shaped_boxes_on_each_row() {
    let input: Vec<f32> = vec![16.0 / 9.0, 2.0, 9.0 / 16.0];
    let spacing = 2.0;
    let options = options(300.0, 600.0, spacing, 0.0);

    let layout = Layout::new(&bits(&input), &options);
    assert_eq!(layout.len(), 3);
    assert_eq!(value(layout.width()), 600.0);
    assert_eq!(value(layout.height()), 904.0);

    let boxes = boxes_of(&layout);
    assert_eq!(boxes[0].top, 0.0);
    assert_eq!(boxes[0].left, 0.0);
    assert_eq!(boxes[0].width, 533.3333);
    assert_eq!(boxes[0].height, 300.0);

    assert_eq!(boxes[1].top, boxes[0].height + spacing);
    assert_eq!(boxes[1].left, 0.0);
    assert_eq!(boxes[1].width, 600.0);
    assert_eq!(boxes[1].height, 300.0);

    assert_eq!(boxes[2].top, boxes[0].height + spacing + boxes[1].height + spacing);
    assert_eq!(boxes[2].left, 0.0);
    assert_eq!(boxes[2].width, 168.75);
    assert_eq!(boxes[2].height, 300.0);
}

#[test]
fn lib_one_box_on_each_row_with_scaling() {
    let input: Vec<f32> = vec![16.0 / 9.0, 2.0, 9.0 / 16.0];
    let spacing = 2.0;
    let options = options(300.0, 600.0, spacing, 0.15);

    let layout = Layout::new(&bits(&input), &options);
    assert_eq!(layout.len(), 3);
    assert_eq!(value(layout.width()), 600.0);
    assert_eq!(value(layout.height()), 337.5 + 2.0 + 300.0 + 2.0 + 300.0);

    let boxes = boxes_of(&layout);
    assert_eq!(boxes[0].top, 0.0);
    assert_eq!(boxes[0].left, 0.0);
    assert_eq!(boxes[0].width, 600.0);
    assert_eq!(boxes[0].height, 337.5);

    assert_eq!(boxes[1].top, boxes[0].height + spacing);
    assert_eq!(boxes[1].left, 0.0);
    assert_eq!(boxes[1].width, 600.0);
    assert_eq!(boxes[1].height, 300.0);

    assert_eq!(boxes[2].top, boxes[0].height + spacing + boxes[1].height + spacing);
    assert_eq!(boxes[2].left, 0.0);
    assert_eq!(boxes[2].width, 168.75);
    assert_eq!(boxes[2].height, 300.0);
}

#[test]
fn lib_add_box_to_full_row_when_it_helps() {
    let input: Vec<f32> = vec![
        1.5,
        0.6666666666666666,
        1.3274336283185841,
        1.3333333333333333,
        0.7516666666666667,
        1.5,
        0.665,
        1.4018691588785046,
        1.3392857142857142,
    ];
    let spacing = 4.0;
    let options = options(75.0, 350.0, spacing, 0.15);

    let layout = Layout::new(&bits(&input), &options);
    assert_eq!(layout.len(), 9);
    assert_eq!(value(layout.width()), 350.00003);

    let boxes = boxes_of(&layout);
    assert_eq!(boxes[0].top, 0.0);
    assert_eq!(boxes[0].left, 0.0);
    assert_eq!(boxes[0].width, 105.02475);
    assert_eq!(boxes[0].height, 70.0165);

    assert_eq!(boxes[1].top, 0.0);
    assert_eq!(boxes[1].left, boxes[0].width + spacing);
    assert_eq!(boxes[1].width, 46.67767);
    assert_eq!(boxes[1].height, 70.0165);

    assert_eq!(boxes[2].top, 0.0);
    assert_eq!(boxes[2].left, boxes[0].width + spacing + boxes[1].width + spacing);
    assert_eq!(boxes[2].width, 92.94225);
    assert_eq!(boxes[2].height, 70.0165);

    assert_eq!(boxes[3].top, 0.0);
    assert_eq!(
        boxes[3].left,
        boxes[0].width + spacing + boxes[1].width + spacing + boxes[2].width + spacing
    );
    assert_eq!(boxes[3].width, 93.35534);
    assert_eq!(boxes[3].height, 70.0165);

    assert_eq!(boxes[4].top, boxes[0].height + spacing);
    assert_eq!(boxes[4].left, 0.0);
    assert_eq!(boxes[4].width, 58.830894);
    assert_eq!(boxes[4].height, 78.267265);

    assert_eq!(boxes[5].top, boxes[0].height + spacing);
    assert_eq!(boxes[5].left, boxes[4].width + spacing);
    assert_eq!(boxes[5].width, 117.400894);
    assert_eq!(boxes[5].height, 78.267265);

    assert_eq!(boxes[6].top, boxes[0].height + spacing);
    assert_eq!(boxes[6].left, boxes[4].width + spacing + boxes[5].width + spacing);
    assert_eq!(boxes[6].width, 52.047733);
    assert_eq!(boxes[6].height, 78.267265);

    assert_eq!(boxes[7].top, boxes[0].height + spacing);
    assert_eq!(
        boxes[7].left,
        boxes[4].width + spacing + boxes[5].width + spacing + boxes[6].width + spacing
    );
    assert_eq!(boxes[7].width, 109.72047);
    assert_eq!(boxes[7].height, 78.267265);

    assert_eq!(boxes[8].top, boxes[0].height + spacing + boxes[4].height + spacing);
    assert_eq!(boxes[8].left, 0.0);
    assert_eq!(boxes[8].width, 104.822235);
    assert_eq!(boxes[8].height, 78.267265);

    assert_eq!(
        value(layout.height()),
        boxes[0].height + spacing + boxes[4].height + spacing + boxes[8].height
    );
}

#[test]
fn lib_fills_last_row_when_within_max_row_height() {
    let input: Vec<f32> = vec![
        1.5,
        0.6666666666666666,
        1.3274336283185841,
        1.3333333333333333,
        0.7516666666666667,
        1.5,
        0.665,
        1.4018691588785046,
        1.3392857142857142,
        0.5625,
    ];
    let options = options(100.0, 640.0, 2.0, 0.2);

    let layout = Layout::new(&bits(&input), &options);
    assert_eq!(layout.len(), 10);
    assert_eq!(value(layout.width()), 640.00006);
    assert_eq!(value(layout.height()), 230.84763);

    let boxes = boxes_of(&layout);
    assert_eq!(boxes[9].top, 115.279915);
    assert_eq!(boxes[9].left, 574.99316);
    assert_eq!(boxes[9].width, 65.00684);
    assert_eq!(boxes[9].height, 115.56772);
}

#[test]
fn lib_empty_input() {
    let options = options(300.0, 900.0, 0.0, 0.0);
    let layout = Layout::new(&[], &options);
    assert_eq!(layout.len(), 0);
    assert_eq!(value(layout.width()), 0.0);
    assert_eq!(value(layout.height()), 0.0);
    assert!(layout.boxes().is_empty());
}
