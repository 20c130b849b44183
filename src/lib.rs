//! Cells addressed by coordinate, each carrying a pixel value: a spatial
//! index kept in step with cell creation and removal, and a per-generation
//! update pipeline that commits only the values that changed against a
//! snapshot.
pub mod calculation;
pub mod cells;
pub mod map;
pub mod random;
pub mod systems;
