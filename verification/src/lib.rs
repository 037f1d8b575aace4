use vstd::prelude::*;

pub mod db;
pub mod error;
pub mod json;
pub mod text;
pub mod git;
pub mod attention;
pub mod stamps;
pub mod workspace;
pub mod keyed;
pub mod codex;
pub mod terminal;
