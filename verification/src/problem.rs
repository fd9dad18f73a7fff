//! The verification problem that a specification states: its statements, and the declarations
//! that they are made over.

use vstd::prelude::*;
use crate::ast::{Formula, FormulaView, ScopedFormula};
use crate::error::Error;
use crate::input::specification::{variable_free_formula, variable_free_formula_of};
use crate::translate::verify_properties::context::{Context, ContextView};

verus! {

/// Which half of an equivalence a lemma helps to prove.
#[derive(Clone, Copy, Debug, PartialEq, Eq, Structural)]
pub enum ProofDirection {
    Forward,
    Backward,
    Both,
}

/// What a statement is taken for.
#[derive(Clone, Copy, Debug, PartialEq, Eq, Structural)]
pub enum StatementKind {
    Axiom,
    Assumption,
    Lemma(ProofDirection),
    Assertion,
}

/// The part of a proof obligation that a statement belongs to.
#[derive(Clone, Copy, Debug, PartialEq, Eq, Structural)]
pub enum SectionKind {
    Axioms,
    Assumptions,
    Lemmas,
    Assertions,
}

impl StatementKind {
    pub open spec fn spec_section(self) -> SectionKind {
        match self {
            StatementKind::Axiom => SectionKind::Axioms,
            StatementKind::Assumption => SectionKind::Assumptions,
            StatementKind::Lemma(_) => SectionKind::Lemmas,
            StatementKind::Assertion => SectionKind::Assertions,
        }
    }

    /// The part of a proof obligation that statements of this kind belong to.
    #[verifier::when_used_as_spec(spec_section)]
    pub fn section(self) -> (section: SectionKind)
        ensures
            section == self.spec_section(),
    {
        match self {
            StatementKind::Axiom => SectionKind::Axioms,
            StatementKind::Assumption => SectionKind::Assumptions,
            StatementKind::Lemma(_) => SectionKind::Lemmas,
            StatementKind::Assertion => SectionKind::Assertions,
        }
    }
}

/// A statement of a specification: a closed formula and what it is taken for.
#[derive(Debug, PartialEq, Eq)]
pub struct Statement {
    pub kind: StatementKind,
    pub formula: Formula,
}

pub struct StatementView {
    pub kind: StatementKind,
    pub formula: FormulaView,
}

impl View for Statement {
    type V = StatementView;

    open spec fn view(&self) -> StatementView {
        StatementView { kind: self.kind, formula: self.formula@ }
    }
}

impl Statement {
    pub fn new(kind: StatementKind, formula: Formula) -> (statement: Statement)
        ensures
            statement@ == (StatementView { kind, formula: formula@ }),
    {
        Statement { kind, formula }
    }
}

/// The mathematical values of a list of statements.
pub open spec fn statements_view(statements: Seq<Statement>) -> Seq<StatementView> {
    Seq::new(statements.len(), |i: int| statements[i]@)
}

/// A verification problem: the statements of its specification, in their order, and the state
/// of the translation, whose declarations the statements are made over.
#[derive(Debug)]
pub struct Problem {
    pub context: Context,
    pub statements: Vec<Statement>,
}

impl Problem {
    /// The problem's invariant: that of the translation's state.
    pub open spec fn wf(&self) -> bool {
        self.context.wf()
    }

    /// A problem without statements and declarations.
    pub fn new() -> (problem: Problem)
        ensures
            problem.wf(),
            problem.context@ == ContextView::new(),
            problem.statements@.len() == 0,
    {
        Problem { context: Context::new(), statements: Vec::new() }
    }

    /// Adds a statement behind those that the problem has.
    pub fn add_statement(&mut self, statement: Statement)
        ensures
            final(self).context == old(self).context,
            final(self).statements@ == old(self).statements@.push(statement),
            statements_view(final(self).statements@) == statements_view(old(self).statements@).push(
                statement@,
            ),
    {
        self.statements.push(statement);
        assert(statements_view(self.statements@) =~= statements_view(old(self).statements@).push(
            statement@,
        ));
    }
}


impl Problem {
    /// Takes in a statement whose formula the formula parser has parsed: the sorts of the
    /// formula's variables are recorded, and the statement is added behind those that the
    /// problem has. A formula with free variables is rejected, as is one that the recording of
    /// sorts fails on; the problem then has no statement more than before.
    pub fn add_formula_statement(&mut self, kind: StatementKind, formula: ScopedFormula) -> (result:
        Result<(), Error>)
        requires
            old(self).wf(),
        ensures
            final(self).wf(),
            final(self).context@ == variable_free_formula_of(old(self).context@, formula@).0,
            match variable_free_formula_of(old(self).context@, formula@).1 {
                Ok(closed) => result is Ok && statements_view(final(self).statements@)
                    == statements_view(old(self).statements@).push(
                    StatementView { kind, formula: closed },
                ),
                Err(expected) => {
                    &&& result matches Err(error)
                    &&& error@ == expected
                    &&& final(self).statements@ == old(self).statements@
                },
            },
    {
        let formula = match variable_free_formula(formula, &mut self.context) {
            Ok(formula) => formula,
            Err(error) => return Err(error),
        };
        self.add_statement(Statement::new(kind, formula));
        Ok(())
    }
}

} // verus!
