//! Literal line search: decides which lines of a text are reported for a
//! pattern, cuts each reported line around the first occurrence, and renders
//! the results as output text.

pub mod config;
pub mod content;
pub mod matcher;
pub mod render;
pub mod search;
pub mod slicing;
pub mod substring;
pub mod text;
