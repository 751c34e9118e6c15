pub mod digraph;
pub mod envs;
pub mod fs;
pub mod keymap;
pub mod list;
pub mod order;
pub mod path;
pub mod rusk;
pub mod schedule;
pub mod staleness;
pub mod taskkey;
