//! Translation of logic programs into first-order formulas for program verification: the
//! declarations of functions, predicates and variables, the shapes of rule heads, the
//! definitions that the rules of a program give its predicates, and the reading of
//! specifications.

pub mod ast;
pub mod declarations;
pub mod domain;
pub mod error;
pub mod input;
pub mod ordering;
pub mod problem;
pub mod text;
pub mod translate;
pub mod variables;

pub use ast::{
    FoliageFlavor,
    Formula,
    FunctionDeclaration,
    GeneratedVariableName,
    PredicateDeclaration,
    ScopedFormula,
    Term,
    VariableDeclaration,
    VariableName,
};
pub use domain::Domain;
pub use error::{Error, Kind};
pub use problem::{Problem, ProofDirection, SectionKind, Statement, StatementKind};
pub use translate::verify_properties::context::{Context, Definitions};
pub use translate::verify_properties::translate_head::{determine_head_type, HeadAtom, HeadType};
