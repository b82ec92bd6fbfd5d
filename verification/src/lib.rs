use vstd::prelude::*;

pub mod boundaries;
pub mod cli;
pub mod config;
pub mod flow;
pub mod git;
pub mod listing;
pub mod render;
pub mod text;
pub mod update;
pub mod voice;
