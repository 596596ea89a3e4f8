use vstd::prelude::*;

pub mod elements;
pub mod grid;
pub mod keyed;
pub mod messages;
pub mod pipeline;
pub mod plugin;
pub mod properties;
pub mod render;
pub mod text;
pub mod tree;

verus! {
} // verus!
