//! UTF-8 validation with a block-wise window checker and an exact error
//! locator, and property checks that compare both with the standard
//! library's `core::str::from_utf8`.
pub mod spec;
pub mod window;
pub mod checker;
pub mod basic;
pub mod compat;
pub mod std_utf8;
pub mod text;
pub mod etna;
pub mod report;
pub mod mutate;
