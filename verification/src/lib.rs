use vstd::prelude::*;

pub mod text;
pub mod path;
pub mod json;
pub mod config;
pub mod error;
pub mod agent;
pub mod tokens;
pub mod window_state;
pub mod store;
pub mod events;
pub mod llm;
pub mod sort;
pub mod persona;
pub mod skills;
pub mod theme;
pub mod pattern;

verus! {

} // verus!
