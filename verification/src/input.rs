//! What is read besides the program: specifications.

pub mod specification;
