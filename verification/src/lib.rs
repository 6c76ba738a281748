//! Field descriptions of API documentation, read into typed records.

pub mod driver;
pub mod field;
pub mod laws;
pub mod name_map;
pub mod render;
pub mod schema;
pub mod text;
pub mod types;
