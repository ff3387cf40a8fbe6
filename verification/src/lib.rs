//! Justified ("Flickr style") gallery layout.
//!
//! Every number that the layout reads or produces is an IEEE 754 binary32
//! value, carried as its bit pattern (`u32`). The arithmetic on those values
//! is done by `rustc_apfloat`, a software implementation of IEEE 754.

pub mod binary32;
pub mod options;
pub mod rows;
pub mod layout;
pub mod laws;
pub mod rules;
pub mod native;

pub use layout::{get_justified_layout, Box, Layout};
pub use options::LayoutOptions;
