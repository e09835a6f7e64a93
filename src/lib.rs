//! Extraction of an SVG document's intrinsic width and height.
//!
//! The document is seen one element at a time, in document order, as plain
//! values ([`ElementView`]). The dimensions come either from the root `<svg>`
//! element's `width` and `height` attributes or, failing those, from the
//! extent part of its `viewBox`.

mod custom_jobs;
mod element;
mod extract_dimensions;
mod lemmas;
mod number;
mod separators;

pub use custom_jobs::{CustomJobs, Error, passes_run};
pub use element::{Attribute, ElementView, attribute_value};
pub use extract_dimensions::{
    Dimensions, ExtractDimensions, ExtractionState, PrepareOutcome, VIEW_BOX_SEPARATORS,
    attribute_dimensions, attribute_dimensions_of, declared_dimensions, dimensions_view,
    document_dimensions, element_dimensions, extract_all, extract_step, has_svg_tag,
    is_svg_tag, numeric_pair, numeric_pair_of,
    view_box_dimensions, view_box_dimensions_of, view_box_extent, view_box_extent_of,
    view_box_tokens,
};
pub use lemmas::{
    lemma_extraction_idempotent, lemma_fresh_extraction, lemma_no_declaration,
    lemma_settled_state_is_kept, lemma_view_box_extent, lemma_width_height_attributes,
};
pub use number::{
    F64_OVERFLOW_DIGITS, below_f64_overflow, decimal_exponent, is_finite_unsigned, is_number,
    is_number_text, significant_digits,
};
pub use separators::regex_split;
