//! Extraction of structured course records from the flat block sequence of a
//! university course-catalog page.
//!
//! A catalog page renders each course as a run of sibling blocks. The
//! segmenter groups the blocks by course; the record builder maps each group
//! onto one record. Both are pure functions of the blocks, and every
//! function states in its contract the value it returns.

pub mod block;
pub mod catalog;
pub mod gen_ed;
pub mod record;
pub mod segment;
pub mod text;

pub use crate::block::{Block, CaseSensitivity};
pub use crate::catalog::{
    build_records, extract, get_class_list, list_classes, CatalogError, Extraction,
    MalformedPolicy,
};
pub use crate::gen_ed::{GenEds, PE, PR};
pub use crate::record::{Class, MalformedGroup};
pub use crate::segment::segment;
