//! Turns the text of a class diagram into class records and renders each
//! record as a Java class.
//!
//! The work is done in three steps: [`tokenizer`] scans the diagram text into a
//! flat sequence of tokens, [`generate`] rebuilds the classes and their
//! inheritance edges from that sequence, and [`model`] holds the records and
//! renders them. [`laws`], [`documents`] and [`texts`] state what holds of the
//! tokenizer and of the builder for every input.
pub mod documents;
pub mod generate;
pub mod laws;
pub mod model;
pub mod text;
pub mod texts;
pub mod tokenizer;
