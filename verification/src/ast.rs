//! Declarations of functions, predicates and variables, and the terms and formulas over them.
//!
//! Formulas refer to declarations by handle: the position of a function or predicate declaration
//! in its table, the position of a variable declaration in the table of variable declarations.
//! Two variable declarations of the same name are distinct where their handles are.

use vstd::prelude::*;
use vstd::std_specs::cmp::PartialEqSpec;
use crate::domain::{domain_of_name, Domain};
use crate::error::{Error, ErrorView, KindView};
use crate::text::{
    decimal,
    decimal_string,
    is_digit,
    same_text,
    lemma_decimal_digits,
    lemma_decimal_value_of_decimal,
};

verus! {

/// Names the declaration types of this crate as the ones that formulas are built over.
#[derive(Clone, Copy, Debug, PartialEq, Eq)]
pub struct FoliageFlavor;

/// Whether a name is reserved for a helper that the translation itself introduces: the given
/// letter and two underscores in front, two underscores behind.
pub open spec fn is_built_in_name(letter: char, name: Seq<char>) -> bool {
    seq![letter, '_', '_'].is_prefix_of(name) && seq!['_', '_'].is_suffix_of(name)
}

/// Whether a name is reserved for a helper of the translation's own.
pub fn has_built_in_name(letter: char, name: &str) -> (result: bool)
    ensures
        result == is_built_in_name(letter, name@),
{
    let length = name.unicode_len();
    if length < 3 {
        return false;
    }
    let result = name.get_char(0) == letter && name.get_char(1) == '_' && name.get_char(2) == '_'
        && name.get_char(length - 2) == '_' && name.get_char(length - 1) == '_';
    proof {
        let prefix = seq![letter, '_', '_'];
        let suffix = seq!['_', '_'];
        let head = name@.subrange(0, 3);
        let tail = name@.subrange(length - 2, length as int);
        assert(head[0] == name@[0] && head[1] == name@[1] && head[2] == name@[2]);
        assert(tail[0] == name@[length - 2] && tail[1] == name@[length - 1]);
        if result {
            assert(prefix =~= head);
            assert(suffix =~= tail);
        }
    }
    result
}

/// A function symbol. Two declarations are the same where name and arity are.
#[derive(Clone, Debug)]
pub struct FunctionDeclaration {
    pub name: String,
    pub arity: usize,
    /// The sort of the function's values.
    pub domain: Domain,
    /// Whether a specification declared the function as part of the program's input.
    pub is_input: bool,
}

pub struct FunctionDeclarationView {
    pub name: Seq<char>,
    pub arity: usize,
    pub domain: Domain,
    pub is_input: bool,
}

impl View for FunctionDeclaration {
    type V = FunctionDeclarationView;

    open spec fn view(&self) -> FunctionDeclarationView {
        FunctionDeclarationView {
            name: self.name@,
            arity: self.arity,
            domain: self.domain,
            is_input: self.is_input,
        }
    }
}

impl FunctionDeclarationView {
    /// A declaration as it is first made: over program values, and no input.
    pub open spec fn new(name: Seq<char>, arity: usize) -> FunctionDeclarationView {
        FunctionDeclarationView { name, arity, domain: Domain::Program, is_input: false }
    }

    pub open spec fn matches_signature(self, name: Seq<char>, arity: usize) -> bool {
        self.name == name && self.arity == arity
    }

    pub open spec fn is_built_in(self) -> bool {
        is_built_in_name('f', self.name)
    }
}

impl FunctionDeclaration {
    pub fn new(name: String, arity: usize) -> (declaration: FunctionDeclaration)
        ensures
            declaration@ == FunctionDeclarationView::new(name@, arity),
    {
        FunctionDeclaration { name, arity, domain: Domain::Program, is_input: false }
    }

    pub fn is_built_in(&self) -> (result: bool)
        ensures
            result == self@.is_built_in(),
    {
        has_built_in_name('f', self.name.as_str())
    }

    pub fn display_name(&self) -> (name: String)
        ensures
            name@ == self@.name,
    {
        self.name.clone()
    }

    pub fn arity(&self) -> (arity: usize)
        ensures
            arity == self@.arity,
    {
        self.arity
    }

    pub fn matches_signature(&self, other_name: &str, other_arity: usize) -> (result: bool)
        ensures
            result == self@.matches_signature(other_name@, other_arity),
    {
        self.arity == other_arity && same_text(self.name.as_str(), other_name)
    }
}

impl PartialEq for FunctionDeclaration {
    fn eq(&self, other: &FunctionDeclaration) -> (result: bool) {
        self.arity == other.arity && self.name == other.name
    }
}

impl Eq for FunctionDeclaration {

}

impl vstd::std_specs::cmp::PartialEqSpecImpl for FunctionDeclaration {
    open spec fn obeys_eq_spec() -> bool {
        true
    }

    open spec fn eq_spec(&self, other: &FunctionDeclaration) -> bool {
        self.arity == other.arity && self.name@ == other.name@
    }
}

/// A predicate symbol. Two declarations are the same where name and arity are.
#[derive(Clone, Debug)]
pub struct PredicateDeclaration {
    pub name: String,
    pub arity: usize,
    /// Whether a specification declared the predicate as part of the program's input.
    pub is_input: bool,
    /// Whether a specification declared the predicate as part of the program's output.
    pub is_output: bool,
}

pub struct PredicateDeclarationView {
    pub name: Seq<char>,
    pub arity: usize,
    pub is_input: bool,
    pub is_output: bool,
}

impl View for PredicateDeclaration {
    type V = PredicateDeclarationView;

    open spec fn view(&self) -> PredicateDeclarationView {
        PredicateDeclarationView {
            name: self.name@,
            arity: self.arity,
            is_input: self.is_input,
            is_output: self.is_output,
        }
    }
}

impl PredicateDeclarationView {
    /// A declaration as it is first made: neither input nor output.
    pub open spec fn new(name: Seq<char>, arity: usize) -> PredicateDeclarationView {
        PredicateDeclarationView { name, arity, is_input: false, is_output: false }
    }

    pub open spec fn matches_signature(self, name: Seq<char>, arity: usize) -> bool {
        self.name == name && self.arity == arity
    }

    pub open spec fn is_built_in(self) -> bool {
        is_built_in_name('p', self.name)
    }

    /// The predicate's name in the prover's input: the name, an underscore, the arity.
    pub open spec fn tptp_statement_name(self) -> Seq<char> {
        self.name + seq!['_'] + decimal(self.arity as nat)
    }
}

impl PredicateDeclaration {
    pub fn new(name: String, arity: usize) -> (declaration: PredicateDeclaration)
        ensures
            declaration@ == PredicateDeclarationView::new(name@, arity),
    {
        PredicateDeclaration { name, arity, is_input: false, is_output: false }
    }

    pub fn tptp_statement_name(&self) -> (name: String)
        ensures
            name@ == self@.tptp_statement_name(),
    {
        proof {
            reveal_strlit("_");
        }
        let name = self.name.clone().concat("_").concat(decimal_string(self.arity as u128).as_str());
        assert(name@ =~= self@.tptp_statement_name());
        name
    }

    pub fn is_built_in(&self) -> (result: bool)
        ensures
            result == self@.is_built_in(),
    {
        has_built_in_name('p', self.name.as_str())
    }

    pub fn display_name(&self) -> (name: String)
        ensures
            name@ == self@.name,
    {
        self.name.clone()
    }

    pub fn arity(&self) -> (arity: usize)
        ensures
            arity == self@.arity,
    {
        self.arity
    }

    pub fn matches_signature(&self, other_name: &str, other_arity: usize) -> (result: bool)
        ensures
            result == self@.matches_signature(other_name@, other_arity),
    {
        self.arity == other_arity && same_text(self.name.as_str(), other_name)
    }
}

impl PartialEq for PredicateDeclaration {
    fn eq(&self, other: &PredicateDeclaration) -> (result: bool) {
        self.arity == other.arity && self.name == other.name
    }
}

impl Eq for PredicateDeclaration {

}

impl vstd::std_specs::cmp::PartialEqSpecImpl for PredicateDeclaration {
    open spec fn obeys_eq_spec() -> bool {
        true
    }

    open spec fn eq_spec(&self, other: &PredicateDeclaration) -> bool {
        self.arity == other.arity && self.name@ == other.name@
    }
}

/// Two declarations are equal where name and arity are, whatever else they hold, and only there:
/// declarations of different name or arity are never equal.
pub proof fn lemma_declarations_equal_by_signature(
    first_function: FunctionDeclaration,
    second_function: FunctionDeclaration,
    first_predicate: PredicateDeclaration,
    second_predicate: PredicateDeclaration,
)
    ensures
        first_function.eq_spec(&second_function) <==> first_function@.matches_signature(
            second_function@.name,
            second_function@.arity,
        ),
        first_predicate.eq_spec(&second_predicate) <==> first_predicate@.matches_signature(
            second_predicate@.name,
            second_predicate@.arity,
        ),
{
}

/// The names in the prover's input tell the predicates apart: two predicates have the same name
/// there exactly where they have the same name and arity.
pub proof fn lemma_tptp_statement_name_unique(
    first: PredicateDeclarationView,
    second: PredicateDeclarationView,
)
    ensures
        first.tptp_statement_name() == second.tptp_statement_name() <==> first.matches_signature(
            second.name,
            second.arity,
        ),
{
    let first_numeral = decimal(first.arity as nat);
    let second_numeral = decimal(second.arity as nat);
    let first_text = first.tptp_statement_name();
    let second_text = second.tptp_statement_name();
    if first_text == second_text {
        lemma_decimal_digits(first.arity as nat);
        lemma_decimal_digits(second.arity as nat);
        assert(first_text.len() == first.name.len() + 1 + first_numeral.len());
        assert(second_text.len() == second.name.len() + 1 + second_numeral.len());
        assert(first_text[first.name.len() as int] == '_');
        assert(second_text[second.name.len() as int] == '_');
        if first.name.len() < second.name.len() {
            let position = second.name.len() as int;
            assert(second_text[position] == '_');
            assert(first_text[position] == first_numeral[position - first.name.len() - 1]);
            assert(is_digit(first_numeral[position - first.name.len() - 1]));
        } else if second.name.len() < first.name.len() {
            let position = first.name.len() as int;
            assert(first_text[position] == '_');
            assert(second_text[position] == second_numeral[position - second.name.len() - 1]);
            assert(is_digit(second_numeral[position - second.name.len() - 1]));
        }
        let length = first.name.len() as int;
        assert(first.name =~= first_text.subrange(0, length));
        assert(second.name =~= second_text.subrange(0, length));
        assert(first_numeral =~= first_text.subrange(length + 1, first_text.len() as int));
        assert(second_numeral =~= second_text.subrange(length + 1, second_text.len() as int));
        lemma_decimal_value_of_decimal(first.arity as nat);
        lemma_decimal_value_of_decimal(second.arity as nat);
    }
}

/// The name of a variable that the translation introduced.
#[derive(Clone, Copy, Debug, PartialEq, Eq, Structural)]
pub struct GeneratedVariableName {
    pub domain: Domain,
    /// The number under which the variable is shown, once it has one.
    pub id: Option<usize>,
}

/// The name of a variable.
#[derive(Clone, Debug, PartialEq, Eq)]
pub enum VariableName {
    /// The name as the source has it.
    UserDefined(String),
    Generated(GeneratedVariableName),
}

pub enum VariableNameView {
    UserDefined(Seq<char>),
    Generated(GeneratedVariableName),
}

impl View for VariableName {
    type V = VariableNameView;

    open spec fn view(&self) -> VariableNameView {
        match *self {
            VariableName::UserDefined(name) => VariableNameView::UserDefined(name@),
            VariableName::Generated(generated_variable_name) => VariableNameView::Generated(
                generated_variable_name,
            ),
        }
    }
}

impl VariableNameView {
    /// The variable's sort: what a user-defined name tells, what a generated name holds.
    pub open spec fn domain(self) -> Option<Domain> {
        match self {
            VariableNameView::UserDefined(name) => domain_of_name(name),
            VariableNameView::Generated(generated_variable_name) => Some(
                generated_variable_name.domain,
            ),
        }
    }

    /// Whether a variable written as `other_name` in the source refers to this one. No source
    /// text refers to a generated variable.
    pub open spec fn matches_name(self, other_name: Seq<char>) -> bool {
        match self {
            VariableNameView::UserDefined(name) => name == other_name,
            VariableNameView::Generated(_) => false,
        }
    }

    /// The name under which the variable is shown: a user-defined variable under its own, a
    /// generated one under `X` or `N` and its number, counted from 1. `None` while a generated
    /// variable has no number.
    pub open spec fn display_name(self) -> Option<Seq<char>> {
        match self {
            VariableNameView::UserDefined(name) => Some(name),
            VariableNameView::Generated(generated_variable_name) => match generated_variable_name.id {
                Some(id) => Some(
                    seq![generated_prefix(generated_variable_name.domain)] + decimal(
                        (id + 1) as nat,
                    ),
                ),
                None => None,
            },
        }
    }
}

/// The letter that starts the shown name of a generated variable.
pub open spec fn generated_prefix(domain: Domain) -> char {
    match domain {
        Domain::Program => 'X',
        Domain::Integer => 'N',
    }
}

/// A variable. Its identity is its handle, not its name.
#[derive(Clone, Debug)]
pub struct VariableDeclaration {
    pub name: VariableName,
}

impl View for VariableDeclaration {
    type V = VariableNameView;

    open spec fn view(&self) -> VariableNameView {
        self.name@
    }
}

impl VariableDeclaration {
    /// A variable with the name that the source gives it.
    pub fn new(name: String) -> (declaration: VariableDeclaration)
        ensures
            declaration@ == VariableNameView::UserDefined(name@),
    {
        VariableDeclaration { name: VariableName::UserDefined(name) }
    }

    /// A variable of the translation's own, of the given sort and without a number yet.
    pub fn new_generated(domain: Domain) -> (declaration: VariableDeclaration)
        ensures
            declaration@ == VariableNameView::Generated(GeneratedVariableName { domain, id: None }),
    {
        let generated_variable_name = GeneratedVariableName { domain, id: None };
        VariableDeclaration { name: VariableName::Generated(generated_variable_name) }
    }

    /// The variable's sort. Fails where a user-defined name tells none.
    pub fn domain(&self) -> (result: Result<Domain, Error>)
        ensures
            match result {
                Ok(domain) => self@.domain() == Some(domain),
                Err(error) => {
                    &&& self@.domain() is None
                    &&& self@ matches VariableNameView::UserDefined(name)
                    &&& error@ == ErrorView::of_kind(KindView::VariableNameNotAllowed(name))
                },
            },
    {
        match &self.name {
            VariableName::UserDefined(name) => Domain::from_variable_name(name.as_str()),
            VariableName::Generated(generated_variable_name) => Ok(generated_variable_name.domain),
        }
    }

    /// The name under which the variable is shown. Fails for a generated variable that has no
    /// number yet.
    pub fn display_name(&self) -> (result: Result<String, Error>)
        ensures
            match result {
                Ok(name) => self@.display_name() == Some(name@),
                Err(error) => self@.display_name() is None && error@ == ErrorView::of_kind(
                    KindView::Logic("all variable IDs should be assigned at this point"@),
                ),
            },
    {
        match &self.name {
            VariableName::UserDefined(name) => Ok(name.clone()),
            VariableName::Generated(generated_variable_name) => {
                let variable_name_prefix = match generated_variable_name.domain {
                    Domain::Program => "X",
                    Domain::Integer => "N",
                };
                proof {
                    reveal_strlit("X");
                    reveal_strlit("N");
                }
                match generated_variable_name.id {
                    Some(id) => {
                        let number = decimal_string(id as u128 + 1);
                        let name = String::from_str(variable_name_prefix).concat(number.as_str());
                        assert(name@ =~= seq![generated_prefix(generated_variable_name.domain)]
                            + decimal((id + 1) as nat));
                        Ok(name)
                    },
                    None => Err(
                        Error::new_logic("all variable IDs should be assigned at this point"),
                    ),
                }
            },
        }
    }

    pub fn matches_name(&self, other_name: &str) -> (result: bool)
        ensures
            result == self@.matches_name(other_name@),
    {
        match &self.name {
            VariableName::UserDefined(name) => same_text(name.as_str(), other_name),
            VariableName::Generated(_) => false,
        }
    }
}


#[derive(Clone, Copy, Debug, PartialEq, Eq, Structural)]
pub enum BinaryOperator {
    Add,
    Subtract,
    Multiply,
    Divide,
    Modulo,
    Exponentiate,
}

#[derive(Clone, Copy, Debug, PartialEq, Eq, Structural)]
pub enum ComparisonOperator {
    Greater,
    Less,
    LessOrEqual,
    GreaterOrEqual,
    NotEqual,
    Equal,
}

#[derive(Clone, Copy, Debug, PartialEq, Eq, Structural)]
pub enum UnaryOperator {
    AbsoluteValue,
    Negative,
}

#[derive(Clone, Copy, Debug, PartialEq, Eq, Structural)]
pub enum SpecialInteger {
    Infimum,
    Supremum,
}

/// A term. Functions and variables are given by the handles of their declarations.
#[derive(Debug, PartialEq, Eq)]
#[allow(inconsistent_fields)]
pub enum Term {
    BinaryOperation { operator: BinaryOperator, left: Box<Term>, right: Box<Term> },
    Boolean(bool),
    Function { declaration: usize, arguments: Vec<Term> },
    Integer(i32),
    SpecialInteger(SpecialInteger),
    String(String),
    UnaryOperation { operator: UnaryOperator, argument: Box<Term> },
    Variable(usize),
}

/// A term as a mathematical value.
#[allow(inconsistent_fields)]
pub enum TermView {
    BinaryOperation { operator: BinaryOperator, left: Box<TermView>, right: Box<TermView> },
    Boolean(bool),
    Function { declaration: usize, arguments: Seq<TermView> },
    Integer(i32),
    SpecialInteger(SpecialInteger),
    String(Seq<char>),
    UnaryOperation { operator: UnaryOperator, argument: Box<TermView> },
    Variable(usize),
}

/// The mathematical value of a term.
pub open spec fn term_view(term: Term) -> TermView
    decreases term,
{
    match term {
        Term::BinaryOperation { operator, left, right } => TermView::BinaryOperation {
            operator,
            left: Box::new(term_view(*left)),
            right: Box::new(term_view(*right)),
        },
        Term::Boolean(value) => TermView::Boolean(value),
        Term::Function { declaration, arguments } => TermView::Function {
            declaration,
            arguments: Seq::new(
                arguments@.len(),
                |i: int|
                    if 0 <= i < arguments@.len() {
                        term_view(arguments@[i])
                    } else {
                        TermView::Boolean(false)
                    },
            ),
        },
        Term::Integer(value) => TermView::Integer(value),
        Term::SpecialInteger(value) => TermView::SpecialInteger(value),
        Term::String(value) => TermView::String(value@),
        Term::UnaryOperation { operator, argument } => TermView::UnaryOperation {
            operator,
            argument: Box::new(term_view(*argument)),
        },
        Term::Variable(declaration) => TermView::Variable(declaration),
    }
}

impl View for Term {
    type V = TermView;

    open spec fn view(&self) -> TermView {
        term_view(*self)
    }
}

/// The mathematical values of a list of terms.
pub open spec fn terms_view(terms: Seq<Term>) -> Seq<TermView> {
    Seq::new(terms.len(), |i: int| terms[i]@)
}

/// A formula. Predicates and variables are given by the handles of their declarations.
#[derive(Debug, PartialEq, Eq)]
#[allow(inconsistent_fields)]
pub enum Formula {
    And(Vec<Formula>),
    Boolean(bool),
    Compare { operator: ComparisonOperator, left: Box<Term>, right: Box<Term> },
    Exists { parameters: Vec<usize>, argument: Box<Formula> },
    ForAll { parameters: Vec<usize>, argument: Box<Formula> },
    IfAndOnlyIf(Vec<Formula>),
    Implies { antecedent: Box<Formula>, implication: Box<Formula> },
    Not(Box<Formula>),
    Or(Vec<Formula>),
    Predicate { declaration: usize, arguments: Vec<Term> },
}

/// A formula as a mathematical value.
#[allow(inconsistent_fields)]
pub enum FormulaView {
    And(Seq<FormulaView>),
    Boolean(bool),
    Compare { operator: ComparisonOperator, left: TermView, right: TermView },
    Exists { parameters: Seq<usize>, argument: Box<FormulaView> },
    ForAll { parameters: Seq<usize>, argument: Box<FormulaView> },
    IfAndOnlyIf(Seq<FormulaView>),
    Implies { antecedent: Box<FormulaView>, implication: Box<FormulaView> },
    Not(Box<FormulaView>),
    Or(Seq<FormulaView>),
    Predicate { declaration: usize, arguments: Seq<TermView> },
}

/// The mathematical value of a formula.
pub open spec fn formula_view(formula: Formula) -> FormulaView
    decreases formula,
{
    match formula {
        Formula::And(arguments) => FormulaView::And(
            Seq::new(
                arguments@.len(),
                |i: int|
                    if 0 <= i < arguments@.len() {
                        formula_view(arguments@[i])
                    } else {
                        FormulaView::Boolean(false)
                    },
            ),
        ),
        Formula::Boolean(value) => FormulaView::Boolean(value),
        Formula::Compare { operator, left, right } => FormulaView::Compare {
            operator,
            left: left@,
            right: right@,
        },
        Formula::Exists { parameters, argument } => FormulaView::Exists {
            parameters: parameters@,
            argument: Box::new(formula_view(*argument)),
        },
        Formula::ForAll { parameters, argument } => FormulaView::ForAll {
            parameters: parameters@,
            argument: Box::new(formula_view(*argument)),
        },
        Formula::IfAndOnlyIf(arguments) => FormulaView::IfAndOnlyIf(
            Seq::new(
                arguments@.len(),
                |i: int|
                    if 0 <= i < arguments@.len() {
                        formula_view(arguments@[i])
                    } else {
                        FormulaView::Boolean(false)
                    },
            ),
        ),
        Formula::Implies { antecedent, implication } => FormulaView::Implies {
            antecedent: Box::new(formula_view(*antecedent)),
            implication: Box::new(formula_view(*implication)),
        },
        Formula::Not(argument) => FormulaView::Not(Box::new(formula_view(*argument))),
        Formula::Or(arguments) => FormulaView::Or(
            Seq::new(
                arguments@.len(),
                |i: int|
                    if 0 <= i < arguments@.len() {
                        formula_view(arguments@[i])
                    } else {
                        FormulaView::Boolean(false)
                    },
            ),
        ),
        Formula::Predicate { declaration, arguments } => FormulaView::Predicate {
            declaration,
            arguments: terms_view(arguments@),
        },
    }
}

impl View for Formula {
    type V = FormulaView;

    open spec fn view(&self) -> FormulaView {
        formula_view(*self)
    }
}

/// The mathematical values of a list of formulas.
pub open spec fn formulas_view(formulas: Seq<Formula>) -> Seq<FormulaView> {
    Seq::new(formulas.len(), |i: int| formulas[i]@)
}

/// What `term_view` and `formula_view` give for lists, in terms of the lists' own views.
pub proof fn lemma_views_of_lists(term: Term, formula: Formula)
    ensures
        term matches Term::Function { declaration, arguments } ==> term@
            == (TermView::Function { declaration, arguments: terms_view(arguments@) }),
        formula matches Formula::And(arguments) ==> formula@ == FormulaView::And(
            formulas_view(arguments@),
        ),
        formula matches Formula::Or(arguments) ==> formula@ == FormulaView::Or(
            formulas_view(arguments@),
        ),
        formula matches Formula::IfAndOnlyIf(arguments) ==> formula@ == FormulaView::IfAndOnlyIf(
            formulas_view(arguments@),
        ),
{
    match term {
        Term::Function { declaration, arguments } => {
            assert(term@->Function_arguments =~= terms_view(arguments@));
        },
        _ => {},
    }
    match formula {
        Formula::And(arguments) => {
            assert(formula@->And_0 =~= formulas_view(arguments@));
        },
        Formula::Or(arguments) => {
            assert(formula@->Or_0 =~= formulas_view(arguments@));
        },
        Formula::IfAndOnlyIf(arguments) => {
            assert(formula@->IfAndOnlyIf_0 =~= formulas_view(arguments@));
        },
        _ => {},
    }
}

/// The variables of a term, one for each occurrence, as they occur from left to right.
pub open spec fn term_variables(term: TermView) -> Seq<usize>
    decreases term,
{
    match term {
        TermView::BinaryOperation { operator, left, right } => term_variables(*left)
            + term_variables(*right),
        TermView::Function { declaration, arguments } => terms_variables(arguments),
        TermView::UnaryOperation { operator, argument } => term_variables(*argument),
        TermView::Variable(declaration) => seq![declaration],
        _ => Seq::empty(),
    }
}

/// The variables of a list of terms, one for each occurrence, as they occur from left to right.
pub open spec fn terms_variables(terms: Seq<TermView>) -> Seq<usize>
    decreases terms,
{
    if terms.len() == 0 {
        Seq::empty()
    } else {
        terms_variables(terms.drop_last()) + term_variables(terms.last())
    }
}

/// The variables in the terms of a formula, one for each occurrence, as they occur from left to
/// right. The parameters of a quantifier are no occurrences.
pub open spec fn formula_variables(formula: FormulaView) -> Seq<usize>
    decreases formula,
{
    match formula {
        FormulaView::And(arguments) => formulas_variables(arguments),
        FormulaView::Boolean(value) => Seq::empty(),
        FormulaView::Compare { operator, left, right } => term_variables(left) + term_variables(
            right,
        ),
        FormulaView::Exists { parameters, argument } => formula_variables(*argument),
        FormulaView::ForAll { parameters, argument } => formula_variables(*argument),
        FormulaView::IfAndOnlyIf(arguments) => formulas_variables(arguments),
        FormulaView::Implies { antecedent, implication } => formula_variables(*antecedent)
            + formula_variables(*implication),
        FormulaView::Not(argument) => formula_variables(*argument),
        FormulaView::Or(arguments) => formulas_variables(arguments),
        FormulaView::Predicate { declaration, arguments } => terms_variables(arguments),
    }
}

/// The variables in the terms of a list of formulas, one for each occurrence, as they occur from
/// left to right.
pub open spec fn formulas_variables(formulas: Seq<FormulaView>) -> Seq<usize>
    decreases formulas,
{
    if formulas.len() == 0 {
        Seq::empty()
    } else {
        formulas_variables(formulas.drop_last()) + formula_variables(formulas.last())
    }
}

impl TermView {
    /// The variables of the term, one for each occurrence, as they occur from left to right.
    pub open spec fn variables(self) -> Seq<usize> {
        term_variables(self)
    }
}

impl FormulaView {
    /// The variables in the terms of the formula, one for each occurrence, as they occur from
    /// left to right.
    pub open spec fn variables(self) -> Seq<usize> {
        formula_variables(self)
    }
}

fn duplicate_terms(terms: &Vec<Term>) -> (copies: Vec<Term>)
    ensures
        terms_view(copies@) == terms_view(terms@),
    decreases terms, 1int,
{
    let mut copies: Vec<Term> = Vec::new();
    let mut position: usize = 0;
    while position < terms.len()
        invariant
            position <= terms@.len(),
            copies@.len() == position,
            forall|i: int| 0 <= i < position ==> (#[trigger] copies@[i])@ == terms@[i]@,
        decreases terms@.len() - position,
    {
        copies.push(terms[position].duplicate());
        position += 1;
    }
    assert(terms_view(copies@) =~= terms_view(terms@));
    copies
}

impl Term {
    /// A copy of the term.
    pub fn duplicate(&self) -> (copy: Term)
        ensures
            copy@ == self@,
        decreases self, 0int,
    {
        match self {
            Term::BinaryOperation { operator, left, right } => Term::BinaryOperation {
                operator: *operator,
                left: Box::new(left.duplicate()),
                right: Box::new(right.duplicate()),
            },
            Term::Boolean(value) => Term::Boolean(*value),
            Term::Function { declaration, arguments } => {
                let copy = Term::Function {
                    declaration: *declaration,
                    arguments: duplicate_terms(arguments),
                };
                proof {
                    lemma_views_of_lists(*self, Formula::Boolean(true));
                    lemma_views_of_lists(copy, Formula::Boolean(true));
                }
                copy
            },
            Term::Integer(value) => Term::Integer(*value),
            Term::SpecialInteger(value) => Term::SpecialInteger(*value),
            Term::String(value) => Term::String(value.clone()),
            Term::UnaryOperation { operator, argument } => Term::UnaryOperation {
                operator: *operator,
                argument: Box::new(argument.duplicate()),
            },
            Term::Variable(declaration) => Term::Variable(*declaration),
        }
    }
}

/// A copy of a list of handles.
pub fn duplicate_handles(handles: &Vec<usize>) -> (copy: Vec<usize>)
    ensures
        copy@ == handles@,
{
    let mut copy: Vec<usize> = Vec::new();
    let mut position: usize = 0;
    while position < handles.len()
        invariant
            position <= handles@.len(),
            copy@ == handles@.subrange(0, position as int),
        decreases handles@.len() - position,
    {
        copy.push(handles[position]);
        position += 1;
        assert(copy@ =~= handles@.subrange(0, position as int));
    }
    assert(handles@.subrange(0, handles@.len() as int) =~= handles@);
    copy
}

fn duplicate_formulas(formulas: &Vec<Formula>) -> (copies: Vec<Formula>)
    ensures
        formulas_view(copies@) == formulas_view(formulas@),
    decreases formulas, 1int,
{
    let mut copies: Vec<Formula> = Vec::new();
    let mut position: usize = 0;
    while position < formulas.len()
        invariant
            position <= formulas@.len(),
            copies@.len() == position,
            forall|i: int| 0 <= i < position ==> (#[trigger] copies@[i])@ == formulas@[i]@,
        decreases formulas@.len() - position,
    {
        copies.push(formulas[position].duplicate());
        position += 1;
    }
    assert(formulas_view(copies@) =~= formulas_view(formulas@));
    copies
}

impl Formula {
    /// A copy of the formula.
    pub fn duplicate(&self) -> (copy: Formula)
        ensures
            copy@ == self@,
        decreases self, 0int,
    {
        proof {
            lemma_views_of_lists(Term::Boolean(true), *self);
        }
        match self {
            Formula::And(arguments) => {
                let copy = Formula::And(duplicate_formulas(arguments));
                proof {
                    lemma_views_of_lists(Term::Boolean(true), copy);
                }
                copy
            },
            Formula::Boolean(value) => Formula::Boolean(*value),
            Formula::Compare { operator, left, right } => Formula::Compare {
                operator: *operator,
                left: Box::new(left.duplicate()),
                right: Box::new(right.duplicate()),
            },
            Formula::Exists { parameters, argument } => Formula::Exists {
                parameters: duplicate_handles(parameters),
                argument: Box::new(argument.duplicate()),
            },
            Formula::ForAll { parameters, argument } => Formula::ForAll {
                parameters: duplicate_handles(parameters),
                argument: Box::new(argument.duplicate()),
            },
            Formula::IfAndOnlyIf(arguments) => {
                let copy = Formula::IfAndOnlyIf(duplicate_formulas(arguments));
                proof {
                    lemma_views_of_lists(Term::Boolean(true), copy);
                }
                copy
            },
            Formula::Implies { antecedent, implication } => Formula::Implies {
                antecedent: Box::new(antecedent.duplicate()),
                implication: Box::new(implication.duplicate()),
            },
            Formula::Not(argument) => Formula::Not(Box::new(argument.duplicate())),
            Formula::Or(arguments) => {
                let copy = Formula::Or(duplicate_formulas(arguments));
                proof {
                    lemma_views_of_lists(Term::Boolean(true), copy);
                }
                copy
            },
            Formula::Predicate { declaration, arguments } => Formula::Predicate {
                declaration: *declaration,
                arguments: duplicate_terms(arguments),
            },
        }
    }
}

/// A formula together with the variables that occur free in it.
#[derive(Debug, PartialEq, Eq)]
pub struct ScopedFormula {
    pub free_variable_declarations: Vec<usize>,
    pub formula: Formula,
}

pub struct ScopedFormulaView {
    pub free_variable_declarations: Seq<usize>,
    pub formula: FormulaView,
}

impl View for ScopedFormula {
    type V = ScopedFormulaView;

    open spec fn view(&self) -> ScopedFormulaView {
        ScopedFormulaView {
            free_variable_declarations: self.free_variable_declarations@,
            formula: self.formula@,
        }
    }
}

} // verus!
