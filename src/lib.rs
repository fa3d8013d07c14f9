//! Column transforms for a columnar dataframe engine: per-element text and integer maps,
//! broadcasting maximum reducers, and cumulative text folds over nullable columns.

pub mod column;
pub mod cumulative;
pub mod maximum;
pub mod text;
