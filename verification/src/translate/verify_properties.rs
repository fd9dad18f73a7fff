//! Translation for the verification of program properties: the shape of rule heads and the
//! definitions that the rules of a program give its predicates.

pub mod context;
pub mod translate_head;

pub use context::{Context, Definitions};
pub use translate_head::{determine_head_type, HeadAtom, HeadType};
