//! Reports the in-memory layout of a structured type: its size, its
//! alignment, and the offset and size of each field, with the padding that
//! alignment puts between and after the fields.
pub mod decimal;
pub mod laws;
pub mod model;
pub mod render;
pub mod rows;
pub mod sort;

pub use model::{Field, Row, RowWidths, TypeLayout, TypeLayoutInfo};
pub use render::write_row;
