//! Turns a project directory into one context file: selection rules,
//! profile configuration, the directory tree and the framed output.

pub mod config;
pub mod explain;
pub mod filter;
pub mod glob;
pub mod output;
pub mod path;
pub mod scan;
pub mod seqs;
pub mod text;
pub mod tree;
pub mod update;
