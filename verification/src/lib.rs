//! Vocabulary types for describing the memory shape of values: validated
//! layout descriptors (size and power-of-two alignment, composed without
//! silent overflow) and non-null pointer handles that carry the metadata
//! word of a wide pointer, together with the attribute-verdict bookkeeping
//! used when checking that a type declaration opts into a foreign-compatible
//! layout.

pub mod check;
pub mod layout;
pub mod ptr;
