//! The shapes of rule heads.
//!
//! The head of a rule is given as the part of the program's syntax tree that decides its shape.
//! The argument terms of the head atom are of a type `T` of the caller's choice; they are handed
//! on as they come.

use vstd::prelude::*;
use crate::ast::PredicateDeclarationView;
use crate::declarations::{predicate_interned, PredicateDeclarations};
use crate::error::{Error, ErrorView, KindView};

verus! {

/// The sign in front of a literal.
#[derive(Clone, Copy, Debug, PartialEq, Eq, Structural)]
pub enum Sign {
    NoSign,
    Negation,
    DoubleNegation,
}

/// A term of the program, as far as the shape of a head depends on it.
#[derive(Debug, PartialEq, Eq)]
pub enum Term<T> {
    /// A function symbol applied to arguments. The name is an error message where the symbol's
    /// identifier could not be decoded.
    Function { name: Result<String, String>, arguments: Vec<T> },
    /// Any other term.
    Other,
}

/// What a literal is made of.
#[derive(Debug, PartialEq, Eq)]
pub enum LiteralType<T> {
    Boolean(bool),
    Symbolic(Term<T>),
    /// A comparison or another literal that is neither Boolean nor symbolic.
    Other,
}

#[derive(Debug, PartialEq, Eq)]
pub struct Literal<T> {
    pub sign: Sign,
    pub literal_type: LiteralType<T>,
}

/// An aggregate in the head of a rule: a choice between its elements.
#[derive(Debug, PartialEq, Eq)]
pub struct Aggregate<T> {
    pub has_left_guard: bool,
    pub has_right_guard: bool,
    /// The literal of each element.
    pub elements: Vec<Literal<T>>,
}

/// The head of a rule.
#[derive(Debug, PartialEq, Eq)]
pub enum HeadLiteral<T> {
    Literal(Literal<T>),
    Aggregate(Aggregate<T>),
    /// A disjunction, a theory atom, or another head that defines no predicate.
    Other,
}

/// The atom in the head of a rule: its predicate's handle and its argument terms.
#[derive(Debug, PartialEq, Eq)]
pub struct HeadAtom<T> {
    pub predicate_declaration: usize,
    pub arguments: Vec<T>,
}

/// The shape of a rule's head.
#[derive(Debug, PartialEq, Eq)]
pub enum HeadType<T> {
    /// An atom: the rule defines the atom's predicate.
    SingleAtom(HeadAtom<T>),
    /// A choice of one atom: the rule defines the atom's predicate.
    ChoiceWithSingleAtom(HeadAtom<T>),
    /// `false`: the rule forbids its body.
    IntegrityConstraint,
    /// `true`: the rule says nothing.
    Trivial,
    /// A head that takes no part in the definition of any predicate.
    Annotation,
}

/// The shape of a head, before its predicate is looked up.
pub enum HeadShape<T> {
    Atom { is_choice: bool, name: Seq<char>, arguments: Seq<T> },
    IntegrityConstraint,
    Trivial,
    Annotation,
}

pub open spec fn unsupported(description: &'static str) -> ErrorView {
    ErrorView::of_kind(KindView::UnsupportedLanguageFeature(description@))
}

/// The atom that a term in a head stands for. `not_an_atom` describes the term that is none.
pub open spec fn atom_of_term<T>(
    term: Term<T>,
    is_choice: bool,
    not_an_atom: &'static str,
) -> Result<HeadShape<T>, ErrorView> {
    match term {
        Term::Function { name: Ok(name), arguments } => Ok(
            HeadShape::Atom { is_choice, name: name@, arguments: arguments@ },
        ),
        Term::Function { name: Err(message), arguments } => Err(
            ErrorView { kind: KindView::DecodeIdentifier, source: Some(message@) },
        ),
        Term::Other => Err(unsupported(not_an_atom)),
    }
}

/// The shape of a head that is a literal.
pub open spec fn shape_of_literal<T>(literal: Literal<T>) -> Result<HeadShape<T>, ErrorView> {
    if literal.sign != Sign::NoSign {
        Err(unsupported("negated head literals"))
    } else {
        match literal.literal_type {
            LiteralType::Boolean(true) => Ok(HeadShape::Trivial),
            LiteralType::Boolean(false) => Ok(HeadShape::IntegrityConstraint),
            LiteralType::Symbolic(term) => atom_of_term(
                term,
                false,
                "elements other than atoms in rule head",
            ),
            LiteralType::Other => Err(unsupported("elements other than terms in rule head")),
        }
    }
}

/// The shape of a head that is an aggregate.
pub open spec fn shape_of_aggregate<T>(aggregate: Aggregate<T>) -> Result<HeadShape<T>, ErrorView> {
    if aggregate.has_left_guard || aggregate.has_right_guard {
        Err(unsupported("aggregates with guards"))
    } else if aggregate.elements@.len() != 1 {
        Err(unsupported("aggregates not containing exactly one element"))
    } else if aggregate.elements@[0].sign != Sign::NoSign {
        Err(unsupported("negated literals in aggregates"))
    } else {
        match aggregate.elements@[0].literal_type {
            LiteralType::Symbolic(term) => atom_of_term(
                term,
                true,
                "elements other than atoms in aggregates",
            ),
            _ => Err(unsupported("elements other than terms in aggregates")),
        }
    }
}

/// The shape of a head, or why the translation does not support it.
pub open spec fn shape_of_head<T>(head_literal: HeadLiteral<T>) -> Result<HeadShape<T>, ErrorView> {
    match head_literal {
        HeadLiteral::Literal(literal) => shape_of_literal(literal),
        HeadLiteral::Aggregate(aggregate) => shape_of_aggregate(aggregate),
        HeadLiteral::Other => Ok(HeadShape::Annotation),
    }
}

/// Whether `result` is what a head of the given shape comes to, with the head atom's predicate
/// interned in a table that was `before` and is `after`.
pub open spec fn head_type_determined<T>(
    shape: Result<HeadShape<T>, ErrorView>,
    before: Seq<PredicateDeclarationView>,
    after: Seq<PredicateDeclarationView>,
    result: Result<HeadType<T>, Error>,
) -> bool {
    match shape {
        Ok(HeadShape::Atom { is_choice, name, arguments }) => {
            &&& result matches Ok(head_type)
            &&& if is_choice {
                head_type is ChoiceWithSingleAtom
            } else {
                head_type is SingleAtom
            }
            &&& head_atom(head_type).arguments@ == arguments
            &&& predicate_interned(
                before,
                name,
                arguments.len() as usize,
                after,
                head_atom(head_type).predicate_declaration,
            )
        },
        Ok(HeadShape::IntegrityConstraint) => result matches Ok(HeadType::IntegrityConstraint)
            && after == before,
        Ok(HeadShape::Trivial) => result matches Ok(HeadType::Trivial) && after == before,
        Ok(HeadShape::Annotation) => result matches Ok(HeadType::Annotation) && after == before,
        Err(expected) => {
            &&& result matches Err(error)
            &&& error@ == expected
            &&& after == before
        },
    }
}

/// The atom of a head that has one.
pub open spec fn head_atom<T>(head_type: HeadType<T>) -> HeadAtom<T>
    recommends
        head_type is SingleAtom || head_type is ChoiceWithSingleAtom,
{
    match head_type {
        HeadType::SingleAtom(head_atom) => head_atom,
        HeadType::ChoiceWithSingleAtom(head_atom) => head_atom,
        _ => arbitrary(),
    }
}

fn create_head_atom<T>(
    term: Term<T>,
    is_choice: bool,
    not_an_atom: &'static str,
    predicate_declarations: &mut PredicateDeclarations,
) -> (result: Result<HeadType<T>, Error>)
    requires
        old(predicate_declarations).wf(),
    ensures
        final(predicate_declarations).wf(),
        head_type_determined(
            atom_of_term(term, is_choice, not_an_atom),
            old(predicate_declarations)@,
            final(predicate_declarations)@,
            result,
        ),
{
    match term {
        Term::Function { name, arguments } => {
            let function_name = match name {
                Ok(function_name) => function_name,
                Err(message) => return Err(Error::new_decode_identifier(message)),
            };
            let predicate_declaration = predicate_declarations.get_or_create(
                function_name.as_str(),
                arguments.len(),
            );
            let head_atom = HeadAtom { predicate_declaration, arguments };
            if is_choice {
                Ok(HeadType::ChoiceWithSingleAtom(head_atom))
            } else {
                Ok(HeadType::SingleAtom(head_atom))
            }
        },
        Term::Other => Err(Error::new_unsupported_language_feature(not_an_atom)),
    }
}

/// Determines the shape of a rule's head. The predicate of a head atom is looked up in
/// `predicate_declarations` by its name and the number of its arguments, and declared there where
/// it is missing.
pub fn determine_head_type<T>(
    head_literal: HeadLiteral<T>,
    predicate_declarations: &mut PredicateDeclarations,
) -> (result: Result<HeadType<T>, Error>)
    requires
        old(predicate_declarations).wf(),
    ensures
        final(predicate_declarations).wf(),
        head_type_determined(
            shape_of_head(head_literal),
            old(predicate_declarations)@,
            final(predicate_declarations)@,
            result,
        ),
{
    match head_literal {
        HeadLiteral::Aggregate(aggregate) => {
            if aggregate.has_left_guard || aggregate.has_right_guard {
                return Err(Error::new_unsupported_language_feature("aggregates with guards"));
            }
            let mut elements = aggregate.elements;
            if elements.len() != 1 {
                return Err(
                    Error::new_unsupported_language_feature(
                        "aggregates not containing exactly one element",
                    ),
                );
            }
            let literal = match elements.pop() {
                Some(literal) => literal,
                None => return Err(
                    Error::new_unsupported_language_feature(
                        "aggregates not containing exactly one element",
                    ),
                ),
            };
            match literal.sign {
                Sign::NoSign => {},
                _ => return Err(
                    Error::new_unsupported_language_feature("negated literals in aggregates"),
                ),
            }
            let term = match literal.literal_type {
                LiteralType::Symbolic(term) => term,
                _ => return Err(
                    Error::new_unsupported_language_feature(
                        "elements other than terms in aggregates",
                    ),
                ),
            };
            create_head_atom(
                term,
                true,
                "elements other than atoms in aggregates",
                predicate_declarations,
            )
        },
        HeadLiteral::Literal(literal) => {
            match literal.sign {
                Sign::NoSign => {},
                _ => return Err(Error::new_unsupported_language_feature("negated head literals")),
            }
            let term = match literal.literal_type {
                LiteralType::Boolean(true) => return Ok(HeadType::Trivial),
                LiteralType::Boolean(false) => return Ok(HeadType::IntegrityConstraint),
                LiteralType::Symbolic(term) => term,
                LiteralType::Other => return Err(
                    Error::new_unsupported_language_feature(
                        "elements other than terms in rule head",
                    ),
                ),
            };
            create_head_atom(
                term,
                false,
                "elements other than atoms in rule head",
                predicate_declarations,
            )
        },
        HeadLiteral::Other => Ok(HeadType::Annotation),
    }
}

} // verus!
