# justified_layout

A justified ("Flickr style") gallery layout: boxes of given aspect ratios are
placed in rows that fill a target width at about a target height. The
library is written in Verus and its behaviour is proved against the
specifications in `src/`.

## Numbers

Every number the layout reads or produces is an IEEE 754 binary32 value. The
library holds such values as their bit patterns (`u32`); addition,
subtraction, multiplication, division and integer conversion are done by the
`rustc_apfloat` crate (round to nearest, ties to even). For numbers these are
the correctly rounded IEEE results that native `f32` arithmetic gives too; a
NaN result may carry another sign or payload than the one a given processor
produces. What the library proves of these five operations rests on the
contracts of the small wrappers around `rustc_apfloat`, which are trusted, not
proved. Comparison, absolute value, minimum and maximum are computed from the
bits and proved against short specifications.

## Layout

* `src/binary32.rs` – the binary32 operations.
* `src/options.rs` – `LayoutOptions` and the quantities derived from it (`Limits`).
* `src/rows.rs` – the greedy choice of rows as a specification, and the shape
  the scan keeps. A row closes before a box when adding it would pass the
  widest allowed row, when it would move the row away from the target, or when
  the row of two or more boxes would come out more than one lower than
  `row_height * (1 - tolerance)` once its gaps are counted (a height may be
  off by one through rounding, so a smaller shortfall keeps the row). A row of `n` boxes
  has `n - 1` gaps of `spacing`.
* `src/layout.rs` – `Layout::new` and its accessors, and
  `get_justified_layout`, which returns the flat buffer: width, height, two
  padding values, then top, left, width and height of each box.
* `src/native.rs` – `get_justified_layout_simd`, the same scan taking four
  boxes at a time where none closes a row.
* `src/laws.rs` – properties of every layout: rows split the boxes in order,
  rows are stacked `spacing` apart from the top, each row starts at the left
  edge, boxes of a row follow each other `spacing` apart and keep their aspect
  ratio, rows are capped in height and, where they hold two or more boxes and
  are not the last, kept within one of the lower bound, the layout is as wide
  as its widest row and as high as the bottom of its last box, appending boxes
  never moves a closed row, and the block-wise scan gives the row-by-row
  layout wherever its sums agree with the row-by-row ones.
* `app/` – the `f32` API and the WebAssembly export.
