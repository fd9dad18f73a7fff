//! Translation of the rules of a logic program.

pub mod verify_properties;
