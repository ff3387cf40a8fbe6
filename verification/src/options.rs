//! The parameters of a layout and the quantities derived from them.

use crate::binary32::{
    binary32_add, binary32_div, binary32_max, binary32_mul, binary32_sub, difference, is_nan,
    max, product, quotient, sum, ONE, SIGN_MASK, ZERO,
};
use crate::native::block_limits;
use vstd::prelude::*;

verus! {

/// Target row height, row width, spacing and height tolerance, each an IEEE
/// binary32 bit pattern, with the five quantities that the layout derives
/// from them.
#[derive(Clone, Copy)]
pub struct LayoutOptions {
    /// The target height of each row.
    pub row_height: u32,
    /// The target width of each row.
    pub row_width: u32,
    /// The space between boxes, horizontally and vertically.
    pub spacing: u32,
    /// How far (as a fraction of `row_height`) a row may be taller or shorter.
    pub tolerance: u32,
    min_row_height: u32,
    max_row_height: u32,
    max_row_aspect_ratio: u32,
    target_row_aspect_ratio: u32,
    spacing_aspect_ratio: u32,
}

/// The quantities that choose the rows of a layout and size them, each an
/// IEEE binary32 bit pattern.
#[derive(Clone, Copy)]
pub struct Limits {
    /// The target height of each row.
    pub row_height: u32,
    /// The target width of each row.
    pub row_width: u32,
    /// The space between boxes.
    pub spacing: u32,
    /// The smallest height of a row of several boxes, but the last.
    pub min_row_height: u32,
    /// The largest height of any row but the last.
    pub max_row_height: u32,
    /// The summed aspect ratio beyond which a row is full.
    pub max_row_aspect_ratio: u32,
    /// The aspect ratio of a row at the target size.
    pub target_row_aspect_ratio: u32,
    /// The spacing as a share of the target row height.
    pub spacing_aspect_ratio: u32,
}

/// `max(row_height * (1 - tolerance), 0)`.
pub open spec fn spec_min_row_height(row_height: u32, tolerance: u32) -> u32 {
    binary32_max(binary32_mul(row_height, binary32_sub(ONE, tolerance)), ZERO)
}

impl LayoutOptions {
    /// The target row height.
    pub closed spec fn spec_row_height(self) -> u32 {
        self.row_height
    }

    /// The target row width.
    pub closed spec fn spec_row_width(self) -> u32 {
        self.row_width
    }

    /// The spacing between boxes.
    pub closed spec fn spec_spacing(self) -> u32 {
        self.spacing
    }

    /// The height tolerance.
    pub closed spec fn spec_tolerance(self) -> u32 {
        self.tolerance
    }

    /// `max(row_height * (1 - tolerance), 0)`: no row of several boxes but the
    /// last may be shorter.
    pub closed spec fn spec_min_row_height(self) -> u32 {
        self.min_row_height
    }

    /// `row_height * (1 + tolerance)`: no row but the last may be taller.
    pub closed spec fn spec_max_row_height(self) -> u32 {
        self.max_row_height
    }

    /// `row_width / max(row_height * (1 - tolerance), 0)`: a row whose summed
    /// aspect ratio exceeds this cannot be shown at the smallest allowed height.
    pub closed spec fn spec_max_row_aspect_ratio(self) -> u32 {
        self.max_row_aspect_ratio
    }

    /// `row_width / row_height`: the aspect ratio of a row at the target size.
    pub closed spec fn spec_target_row_aspect_ratio(self) -> u32 {
        self.target_row_aspect_ratio
    }

    /// `spacing / row_height`: the spacing, as a share of the target height.
    pub closed spec fn spec_spacing_aspect_ratio(self) -> u32 {
        self.spacing_aspect_ratio
    }

    /// Whether the derived quantities are those that `new` computes from the
    /// four parameters.
    pub open spec fn derived_from_parameters(self) -> bool {
        &&& self.spec_min_row_height() == spec_min_row_height(
            self.spec_row_height(),
            self.spec_tolerance(),
        )
        &&& self.spec_max_row_height() == binary32_mul(
            self.spec_row_height(),
            binary32_add(ONE, self.spec_tolerance()),
        )
        &&& self.spec_max_row_aspect_ratio() == binary32_div(
            self.spec_row_width(),
            spec_min_row_height(self.spec_row_height(), self.spec_tolerance()),
        )
        &&& self.spec_target_row_aspect_ratio() == binary32_div(
            self.spec_row_width(),
            self.spec_row_height(),
        )
        &&& self.spec_spacing_aspect_ratio() == binary32_div(
            self.spec_spacing(),
            self.spec_row_height(),
        )
    }

    /// The options that `new` builds from the four parameters.
    pub closed spec fn new_spec(row_height: u32, row_width: u32, spacing: u32, tolerance: u32) -> Self {
        LayoutOptions {
            row_height,
            row_width,
            spacing,
            tolerance,
            min_row_height: spec_min_row_height(row_height, tolerance),
            max_row_height: binary32_mul(row_height, binary32_add(ONE, tolerance)),
            max_row_aspect_ratio: binary32_div(
                row_width,
                spec_min_row_height(row_height, tolerance),
            ),
            target_row_aspect_ratio: binary32_div(row_width, row_height),
            spacing_aspect_ratio: binary32_div(spacing, row_height),
        }
    }

    /// The options that `new` builds hold the four parameters and the
    /// quantities derived from them.
    pub proof fn lemma_new_spec(row_height: u32, row_width: u32, spacing: u32, tolerance: u32)
        ensures
            ({
                let o = Self::new_spec(row_height, row_width, spacing, tolerance);
                &&& o.spec_row_height() == row_height
                &&& o.spec_row_width() == row_width
                &&& o.spec_spacing() == spacing
                &&& o.spec_tolerance() == tolerance
                &&& o.derived_from_parameters()
            }),
    {
    }

    /// The quantities that choose and size the rows of options built by `new`,
    /// over its four parameters: the parameters themselves; the smallest row
    /// height `max(row_height * (1 - tolerance), 0)`; the largest
    /// `row_height * (1 + tolerance)`; the largest row aspect ratio, the row
    /// width over the smallest height; the target row aspect ratio, the row
    /// width over the row height; and the spacing over the row height.
    pub proof fn law_limits_of_new(row_height: u32, row_width: u32, spacing: u32, tolerance: u32)
        ensures
            ({
                let l = Self::new_spec(row_height, row_width, spacing, tolerance).spec_limits();
                let smallest = binary32_max(
                    binary32_mul(row_height, binary32_sub(ONE, tolerance)),
                    ZERO,
                );
                &&& l.row_height == row_height
                &&& l.row_width == row_width
                &&& l.spacing == spacing
                &&& l.min_row_height == smallest
                &&& l.max_row_height == binary32_mul(row_height, binary32_add(ONE, tolerance))
                &&& l.max_row_aspect_ratio == binary32_div(row_width, smallest)
                &&& l.target_row_aspect_ratio == binary32_div(row_width, row_height)
                &&& l.spacing_aspect_ratio == binary32_div(spacing, row_height)
            }),
    {
    }

    /// Options for rows of target height `row_height` and width `row_width`,
    /// boxes `spacing` apart, whose height may differ from the target by the
    /// fraction `tolerance`.
    pub fn new(row_height: u32, row_width: u32, spacing: u32, tolerance: u32) -> (r: Self)
        ensures
            r == Self::new_spec(row_height, row_width, spacing, tolerance),
            r.spec_row_height() == row_height,
            r.spec_row_width() == row_width,
            r.spec_spacing() == spacing,
            r.spec_tolerance() == tolerance,
            r.derived_from_parameters(),
            tolerance == ZERO && !is_nan(row_height) ==> r.spec_max_row_height() == row_height,
            !is_nan(tolerance) ==> block_limits(r) == r.spec_limits(),
    {
        proof {
            assert(!is_nan(ONE) && ONE != SIGN_MASK) by (bit_vector);
        }
        let min_row_height = max(product(row_height, difference(ONE, tolerance)), ZERO);
        LayoutOptions {
            row_height,
            row_width,
            spacing,
            tolerance,
            min_row_height,
            max_row_height: product(row_height, sum(ONE, tolerance)),
            max_row_aspect_ratio: quotient(row_width, min_row_height),
            target_row_aspect_ratio: quotient(row_width, row_height),
            spacing_aspect_ratio: quotient(spacing, row_height),
        }
    }

    /// The target row height.
    pub fn row_height(&self) -> (r: u32)
        ensures
            r == self.spec_row_height(),
    {
        self.row_height
    }

    /// The target row width.
    pub fn row_width(&self) -> (r: u32)
        ensures
            r == self.spec_row_width(),
    {
        self.row_width
    }

    /// The spacing between boxes.
    pub fn spacing(&self) -> (r: u32)
        ensures
            r == self.spec_spacing(),
    {
        self.spacing
    }

    /// The height tolerance.
    pub fn tolerance(&self) -> (r: u32)
        ensures
            r == self.spec_tolerance(),
    {
        self.tolerance
    }

    /// The quantities that choose and size the rows.
    pub open spec fn spec_limits(self) -> Limits {
        Limits {
            row_height: self.spec_row_height(),
            row_width: self.spec_row_width(),
            spacing: self.spec_spacing(),
            min_row_height: self.spec_min_row_height(),
            max_row_height: self.spec_max_row_height(),
            max_row_aspect_ratio: self.spec_max_row_aspect_ratio(),
            target_row_aspect_ratio: self.spec_target_row_aspect_ratio(),
            spacing_aspect_ratio: self.spec_spacing_aspect_ratio(),
        }
    }

    /// The quantities that choose and size the rows.
    pub fn limits(&self) -> (r: Limits)
        ensures
            r == self.spec_limits(),
    {
        Limits {
            row_height: self.row_height,
            row_width: self.row_width,
            spacing: self.spacing,
            min_row_height: self.min_row_height,
            max_row_height: self.max_row_height,
            max_row_aspect_ratio: self.max_row_aspect_ratio,
            target_row_aspect_ratio: self.target_row_aspect_ratio,
            spacing_aspect_ratio: self.spacing_aspect_ratio,
        }
    }
}

} // verus!
