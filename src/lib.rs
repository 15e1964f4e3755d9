//! A terminal picker for local branches: the branch set, the filter and the
//! selection cursor, the key handling and what each row of the list shows.

pub mod branch;
pub mod picker;
pub mod render;
pub mod text;
