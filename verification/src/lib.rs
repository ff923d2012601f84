//! A compiler front end for a small rule language: an incremental UTF-8
//! decoder over byte input, and a single-pass pushdown parser that checks a
//! package declaration while tracking line and column positions.

pub mod compiler;
