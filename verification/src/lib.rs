//! Path selection inside JSON documents, one document per line of text.
//!
//! A path is a sequence of segments, each an object key or an array index.
//! The library follows a path into a document and shapes what it finds into
//! the text of at most one output line.

pub mod cli;
pub mod descend;
pub mod json;
pub mod output;
pub mod segment;
