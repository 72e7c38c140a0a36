//! Balanced double-entry transactions assembled from templated line items.
pub mod amount;
pub mod input;
pub mod line_item;
pub mod merge;
pub mod order;
pub mod placeholder;
pub mod text;
pub mod transaction;
