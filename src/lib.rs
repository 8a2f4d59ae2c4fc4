//! Turns a linear commit history into one document: each commit's message is
//! framed by marker lines, the framed text is classified line by line, and
//! each commit's diff is rendered to markup.
pub mod annotations;
pub mod document;
pub mod error;
pub mod git;
pub mod markers;
pub mod parse;
pub mod patchset;
pub mod section;
pub mod text;
