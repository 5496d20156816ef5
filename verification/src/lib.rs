//! High-performance core primitives for a home-automation state engine:
//! validation and splitting of `domain.object_id` entity identifiers, and
//! early-exit equality of attribute mappings.

pub mod entity_id;
pub mod state_compare;
pub mod values;
