//! Compiler for a small glossary markup language.
//!
//! The input is an ordered sequence of positioned characters.  A
//! recursive-descent parser turns it into a list of top-level expressions,
//! a linking pass folds those into a cross-referenced document, and a
//! renderer serializes the document to HTML with internal hyperlinks and
//! superscript/subscript decoration.

pub mod chars;
pub mod text;
pub mod parser;
pub mod document;
pub mod render;
pub mod laws;

