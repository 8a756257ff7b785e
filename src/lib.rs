//! Extracts file-path references from lines of text and drives an interactive
//! multi-selection over the candidates that were found.

pub mod parser;
pub mod pattern;
pub mod tui;
pub mod pipe;
