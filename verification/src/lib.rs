//! Core engine of a code-editor backend: filter-aware text search across a
//! set of project files, and the bookkeeping for supervising externally
//! executed commands (event records, working-directory resolution, and a
//! registry of running process ids).

pub mod classify;
pub mod lines;
pub mod pattern;
pub mod process;
pub mod search;
pub mod text;
