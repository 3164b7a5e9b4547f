//! Reduces a fully expanded style configuration to the smallest set of
//! overrides over the best-fitting base style.
pub mod document;
pub mod language;
pub mod minimize;
pub mod theorems;
pub mod catalog;
