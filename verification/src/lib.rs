//! A word-game solver library.
//!
//! Given seven letters, the first of which is mandatory, the solver scans a
//! dictionary (a list of lines) and reports every word that is at least four
//! letters long, uses only the allowed letters, and contains the mandatory
//! letter; plus the "perfect" subset of words that use every allowed letter
//! at least once. Result lists are ordered by non-increasing word length,
//! with ties kept in dictionary order.

pub mod letters;
pub mod matcher;
pub mod solver;
pub mod sorting;
pub mod words;
