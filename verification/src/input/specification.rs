//! Reading specifications: sequences of statements, each a keyword, a body and a period.
//!
//! ```text
//! axiom: <formula>.
//! assume: <formula>.
//! lemma: <formula>.        lemma(forward): <formula>.      (also backward, both)
//! assert: <formula>.
//! input: p/2, c -> integer, d.
//! ```
//!
//! The text of a formula is everything between the colon and the next period. Formulas are
//! parsed elsewhere: the reader stops at each formula and hands out its text, and takes the
//! parsed formula back to record the sorts of its variables and to make sure that it is closed.

use vstd::prelude::*;
use crate::ast::{
    formula_variables,
    formulas_variables,
    formulas_view,
    has_built_in_name,
    is_built_in_name,
    lemma_views_of_lists,
    term_variables,
    terms_variables,
    terms_view,
    Formula,
    FormulaView,
    FunctionDeclarationView,
    PredicateDeclarationView,
    ScopedFormula,
    ScopedFormulaView,
    Term,
    TermView,
    VariableNameView,
};
use crate::declarations::{
    declares_function,
    declares_predicate,
    function_interned,
    lemma_function_handles,
    lemma_predicate_handles,
    predicate_interned,
};
use crate::domain::{domain_of_name, Domain};
use crate::error::{Error, ErrorView, KindView};
use crate::problem::{statements_view, Problem, ProofDirection, StatementKind, StatementView};
use crate::text::{
    character_is_digit,
    character_is_letter,
    character_is_whitespace,
    characters_of,
    decimal_value,
    digit_value,
    is_digit,
    is_letter,
    is_whitespace,
};
use crate::translate::verify_properties::context::{
    handle_of_function,
    handle_of_predicate,
    logic_error,
    with_input_constant,
    with_input_predicate,
    Context,
    ContextView,
};
use crate::variables::domain_assigned;

verus! {

/// A class of characters that a reader skips or collects.
#[derive(Clone, Copy, Debug, PartialEq, Eq, Structural)]
pub enum CharacterClass {
    Whitespace,
    /// The characters of an identifier behind its first: letters, digits and underscores.
    IdentifierBody,
    Digit,
}

pub open spec fn accepts(class: CharacterClass, character: char) -> bool {
    match class {
        CharacterClass::Whitespace => is_whitespace(character),
        CharacterClass::IdentifierBody => is_letter(character) || is_digit(character) || character
            == '_',
        CharacterClass::Digit => is_digit(character),
    }
}

/// Where the run of characters of a class that starts at `from` ends: the position of the first
/// character at or behind `from` that is not of the class, or the end of the text.
pub open spec fn span_end(text: Seq<char>, from: int, class: CharacterClass) -> int
    decreases text.len() - from,
{
    if 0 <= from < text.len() && accepts(class, text[from]) {
        span_end(text, from + 1, class)
    } else {
        from
    }
}

/// A run ends where the first character outside the class stands, and nowhere else.
pub proof fn lemma_span_end(text: Seq<char>, from: int, class: CharacterClass, end: int)
    requires
        0 <= from <= end <= text.len(),
        forall|i: int| from <= i < end ==> accepts(class, #[trigger] text[i]),
        end < text.len() ==> !accepts(class, text[end]),
    ensures
        span_end(text, from, class) == end,
    decreases end - from,
{
    if from < end {
        lemma_span_end(text, from + 1, class, end);
    }
}

/// A run lies within the text, and all its characters are of the class.
pub proof fn lemma_span_end_bounds(text: Seq<char>, from: int, class: CharacterClass)
    requires
        0 <= from <= text.len(),
    ensures
        from <= span_end(text, from, class) <= text.len(),
        forall|i: int| from <= i < span_end(text, from, class) ==> accepts(class, #[trigger] text[i]),
        span_end(text, from, class) < text.len() ==> !accepts(
            class,
            text[span_end(text, from, class)],
        ),
    decreases text.len() - from,
{
    if from < text.len() && accepts(class, text[from]) {
        lemma_span_end_bounds(text, from + 1, class);
    }
}

/// The position of the first character at or behind `from` that is no white space.
pub open spec fn skip_whitespace(text: Seq<char>, from: int) -> int {
    span_end(text, from, CharacterClass::Whitespace)
}

/// The character at a position, if the text has one there.
pub open spec fn character_at(text: Seq<char>, position: int) -> Option<char> {
    if 0 <= position < text.len() {
        Some(text[position])
    } else {
        None
    }
}

/// Where the identifier that starts at `from` ends, if one starts there: an identifier is a
/// letter followed by letters, digits and underscores.
pub open spec fn identifier_at(text: Seq<char>, from: int) -> Option<int> {
    if 0 <= from < text.len() && is_letter(text[from]) {
        Some(span_end(text, from + 1, CharacterClass::IdentifierBody))
    } else {
        None
    }
}

/// Where the number that starts at `from` ends, if one starts there: a number is a run of
/// decimal digits.
pub open spec fn number_at(text: Seq<char>, from: int) -> Option<int> {
    if 0 <= from < text.len() && is_digit(text[from]) {
        Some(span_end(text, from + 1, CharacterClass::Digit))
    } else {
        None
    }
}

/// The position of the first period at or behind `from`.
pub open spec fn find_terminator(text: Seq<char>, from: int) -> Option<int>
    decreases text.len() - from,
{
    if from < 0 || from >= text.len() {
        None
    } else if text[from] == '.' {
        Some(from)
    } else {
        find_terminator(text, from + 1)
    }
}

/// The first period is where a period stands and none stands before.
pub proof fn lemma_find_terminator(text: Seq<char>, from: int, end: int)
    requires
        0 <= from <= end <= text.len(),
        forall|i: int| from <= i < end ==> #[trigger] text[i] != '.',
        end < text.len() ==> text[end] == '.',
    ensures
        find_terminator(text, from) == if end < text.len() {
            Some(end)
        } else {
            None
        },
    decreases end - from,
{
    if from < end {
        lemma_find_terminator(text, from + 1, end);
    }
}

fn class_accepts(class: CharacterClass, character: char) -> (result: bool)
    ensures
        result == accepts(class, character),
{
    match class {
        CharacterClass::Whitespace => character_is_whitespace(character),
        CharacterClass::IdentifierBody => character_is_letter(character) || character_is_digit(
            character,
        ) || character == '_',
        CharacterClass::Digit => character_is_digit(character),
    }
}

/// Finds where the run of characters of a class that starts at `from` ends.
fn read_span(characters: &Vec<char>, from: usize, class: CharacterClass) -> (end: usize)
    requires
        from <= characters@.len(),
    ensures
        end == span_end(characters@, from as int, class),
        from <= end <= characters@.len(),
{
    let mut end = from;
    while end < characters.len() && class_accepts(class, characters[end])
        invariant
            from <= end <= characters@.len(),
            forall|i: int| from <= i < end ==> accepts(class, #[trigger] characters@[i]),
        decreases characters@.len() - end,
    {
        end += 1;
    }
    proof {
        lemma_span_end(characters@, from as int, class, end as int);
    }
    end
}

/// Skips white space.
fn read_whitespace(characters: &Vec<char>, from: usize) -> (end: usize)
    requires
        from <= characters@.len(),
    ensures
        end == skip_whitespace(characters@, from as int),
        from <= end <= characters@.len(),
{
    read_span(characters, from, CharacterClass::Whitespace)
}

/// Whether the given character stands at a position.
fn character_is(characters: &Vec<char>, position: usize, expected: char) -> (result: bool)
    ensures
        result == (character_at(characters@, position as int) == Some(expected)),
        result ==> position < characters@.len() <= usize::MAX,
{
    position < characters.len() && characters[position] == expected
}

/// Finds where the identifier that starts at `from` ends, if one starts there.
fn read_identifier(characters: &Vec<char>, from: usize) -> (end: Option<usize>)
    requires
        from <= characters@.len(),
    ensures
        match end {
            Some(end) => identifier_at(characters@, from as int) == Some(end as int) && from < end
                <= characters@.len(),
            None => identifier_at(characters@, from as int) is None,
        },
{
    if from < characters.len() && character_is_letter(characters[from]) {
        Some(read_span(characters, from + 1, CharacterClass::IdentifierBody))
    } else {
        None
    }
}

/// Finds the first period at or behind `from`.
fn read_terminator(characters: &Vec<char>, from: usize) -> (position: Option<usize>)
    requires
        from <= characters@.len(),
    ensures
        match position {
            Some(position) => find_terminator(characters@, from as int) == Some(position as int)
                && from <= position < characters@.len() <= usize::MAX,
            None => find_terminator(characters@, from as int) is None,
        },
{
    let mut position = from;
    while position < characters.len() && characters[position] != '.'
        invariant
            from <= position <= characters@.len(),
            forall|i: int| from <= i < position ==> #[trigger] characters@[i] != '.',
        decreases characters@.len() - position,
    {
        position += 1;
    }
    proof {
        lemma_find_terminator(characters@, from as int, position as int);
    }
    if position < characters.len() {
        Some(position)
    } else {
        None
    }
}


/// Whether the characters from `from` up to `to` are those of `word`.
fn word_is(characters: &Vec<char>, from: usize, to: usize, word: &str) -> (result: bool)
    requires
        from <= to <= characters@.len(),
    ensures
        result == (characters@.subrange(from as int, to as int) == word@),
{
    let length = word.unicode_len();
    if to - from != length {
        return false;
    }
    let mut position: usize = 0;
    while position < length
        invariant
            length == word@.len(),
            to - from == length,
            from <= to <= characters@.len(),
            position <= length,
            forall|i: int| 0 <= i < position ==> characters@[from + i] == word@[i],
        decreases length - position,
    {
        if characters[from + position] != word.get_char(position) {
            assert(characters@.subrange(from as int, to as int)[position as int] != word@[position as int]);
            return false;
        }
        position += 1;
    }
    assert(characters@.subrange(from as int, to as int) =~= word@);
    true
}

/// The characters from `from` up to `to` as a text of their own.
fn copy_word(input: &str, characters: &Vec<char>, from: usize, to: usize) -> (word: String)
    requires
        characters@ == input@,
        from <= to <= characters@.len(),
    ensures
        word@ == characters@.subrange(from as int, to as int),
{
    input.substring_char(from, to).to_owned()
}

/// A prefix of a run of digits stands for no greater number than the run.
pub proof fn lemma_decimal_value_of_prefix(digits: Seq<char>, length: int)
    requires
        0 <= length <= digits.len(),
    ensures
        decimal_value(digits.subrange(0, length)) <= decimal_value(digits),
    decreases digits.len() - length,
{
    if length == digits.len() {
        assert(digits.subrange(0, length) =~= digits);
    } else {
        lemma_decimal_value_of_prefix(digits.drop_last(), length);
        assert(digits.drop_last().subrange(0, length) =~= digits.subrange(0, length));
    }
}

/// The error of a number that is too large for an arity.
pub open spec fn number_too_large() -> ErrorView {
    ErrorView {
        kind: KindView::ParsePredicateDeclaration,
        source: Some("number too large to fit in target type"@),
    }
}

/// The number that starts at `from`, with the position behind it: `None` where no digit stands
/// at `from`, an error where the number does not fit.
pub open spec fn number_value_at(text: Seq<char>, from: int) -> Result<
    Option<(usize, int)>,
    ErrorView,
> {
    match number_at(text, from) {
        None => Ok(None),
        Some(end) => if decimal_value(text.subrange(from, end)) <= usize::MAX {
            Ok(Some((decimal_value(text.subrange(from, end)) as usize, end)))
        } else {
            Err(number_too_large())
        },
    }
}

/// Reads the number that starts at `from`.
fn read_number(characters: &Vec<char>, from: usize) -> (result: Result<
    Option<(usize, usize)>,
    Error,
>)
    requires
        from <= characters@.len(),
    ensures
        match number_value_at(characters@, from as int) {
            Ok(Some((value, end))) => result matches Ok(Some(read)) && read.0 == value && read.1
                == end && from < end <= characters@.len(),
            Ok(None) => result matches Ok(None),
            Err(expected) => result matches Err(error) && error@ == expected,
        },
{
    if from >= characters.len() || !character_is_digit(characters[from]) {
        return Ok(None);
    }
    let end = read_span(characters, from + 1, CharacterClass::Digit);
    let ghost digits = characters@.subrange(from as int, end as int);
    proof {
        lemma_span_end_bounds(characters@, from + 1, CharacterClass::Digit);
    }
    let mut value: usize = 0;
    let mut position = from;
    assert(characters@.subrange(from as int, from as int) =~= Seq::<char>::empty());
    while position < end
        invariant
            from <= position <= end <= characters@.len(),
            digits == characters@.subrange(from as int, end as int),
            number_at(characters@, from as int) == Some(end as int),
            forall|i: int| from <= i < end ==> is_digit(#[trigger] characters@[i]),
            value == decimal_value(characters@.subrange(from as int, position as int)),
        decreases end - position,
    {
        let character = characters[position];
        let digit: usize = (character as u32 - '0' as u32) as usize;
        let ghost read = characters@.subrange(from as int, position + 1);
        proof {
            assert(is_digit(characters@[position as int]));
            assert(read.drop_last() =~= characters@.subrange(from as int, position as int));
            assert(read.last() == character);
            assert(digit == digit_value(character));
            assert(decimal_value(read) == value * 10 + digit);
            assert(read =~= digits.subrange(0, position + 1 - from));
            lemma_decimal_value_of_prefix(digits, position + 1 - from);
            assert(decimal_value(digits) >= value * 10 + digit);
        }
        let tens = match value.checked_mul(10) {
            Some(tens) => tens,
            None => return Err(
                Error::new_parse_predicate_declaration().with(
                    String::from_str("number too large to fit in target type"),
                ),
            ),
        };
        value = match tens.checked_add(digit) {
            Some(sum) => sum,
            None => return Err(
                Error::new_parse_predicate_declaration().with(
                    String::from_str("number too large to fit in target type"),
                ),
            ),
        };
        position += 1;
    }
    Ok(Some((value, end)))
}

/// The proof direction that a word names.
pub open spec fn proof_direction_named(word: Seq<char>) -> Option<ProofDirection> {
    if word == "forward"@ {
        Some(ProofDirection::Forward)
    } else if word == "backward"@ {
        Some(ProofDirection::Backward)
    } else if word == "both"@ {
        Some(ProofDirection::Both)
    } else {
        None
    }
}

/// The sort that a word names.
pub open spec fn domain_named(word: Seq<char>) -> Option<Domain> {
    if word == "integer"@ {
        Some(Domain::Integer)
    } else if word == "program"@ {
        Some(Domain::Program)
    } else {
        None
    }
}

/// The proof direction behind the keyword `lemma`, with the position behind it. The direction
/// stands in parentheses; without parentheses, and with nothing in them, it is `Both`.
pub open spec fn proof_direction_at(text: Seq<char>, from: int) -> Result<
    (ProofDirection, int),
    ErrorView,
> {
    let open = skip_whitespace(text, from);
    if character_at(text, open) == Some('(') {
        let start = skip_whitespace(text, open + 1);
        match identifier_at(text, start) {
            Some(end) => match proof_direction_named(text.subrange(start, end)) {
                Some(proof_direction) => closing_parenthesis_at(text, end, proof_direction),
                None => Err(
                    ErrorView::of_kind(
                        KindView::UnknownProofDirection(text.subrange(start, end)),
                    ),
                ),
            },
            None => closing_parenthesis_at(text, start, ProofDirection::Both),
        }
    } else {
        Ok((ProofDirection::Both, from))
    }
}

/// The parenthesis that closes a proof direction.
pub open spec fn closing_parenthesis_at(
    text: Seq<char>,
    from: int,
    proof_direction: ProofDirection,
) -> Result<(ProofDirection, int), ErrorView> {
    let close = skip_whitespace(text, from);
    if character_at(text, close) == Some(')') {
        Ok((proof_direction, close + 1))
    } else {
        Err(ErrorView::of_kind(KindView::UnmatchedParenthesis))
    }
}

/// The text of the formula of a statement, with the position behind the statement: a colon, the
/// formula, a period.
pub open spec fn formula_body_at(text: Seq<char>, from: int) -> Result<(Seq<char>, int), ErrorView> {
    let colon = skip_whitespace(text, from);
    if character_at(text, colon) != Some(':') {
        Err(ErrorView::of_kind(KindView::ExpectedColon))
    } else {
        match find_terminator(text, colon + 1) {
            Some(terminator) => Ok((text.subrange(colon + 1, terminator), terminator + 1)),
            None => Err(ErrorView::of_kind(KindView::MissingStatementTerminator)),
        }
    }
}

fn read_closing_parenthesis(
    characters: &Vec<char>,
    from: usize,
    proof_direction: ProofDirection,
) -> (result: Result<(ProofDirection, usize), Error>)
    requires
        from <= characters@.len(),
    ensures
        match closing_parenthesis_at(characters@, from as int, proof_direction) {
            Ok((direction, end)) => result matches Ok(read) && read.0 == direction && read.1 == end
                && from <= end <= characters@.len(),
            Err(expected) => result matches Err(error) && error@ == expected,
        },
{
    let close = read_whitespace(characters, from);
    if character_is(characters, close, ')') {
        Ok((proof_direction, close + 1))
    } else {
        Err(Error::new_unmatched_parenthesis())
    }
}

fn read_proof_direction(input: &str, characters: &Vec<char>, from: usize) -> (result: Result<
    (ProofDirection, usize),
    Error,
>)
    requires
        characters@ == input@,
        from <= characters@.len(),
    ensures
        match proof_direction_at(characters@, from as int) {
            Ok((direction, end)) => result matches Ok(read) && read.0 == direction && read.1 == end
                && from <= end <= characters@.len(),
            Err(expected) => result matches Err(error) && error@ == expected,
        },
{
    let open = read_whitespace(characters, from);
    if !character_is(characters, open, '(') {
        return Ok((ProofDirection::Both, from));
    }
    let start = read_whitespace(characters, open + 1);
    match read_identifier(characters, start) {
        Some(end) => {
            let proof_direction = if word_is(characters, start, end, "forward") {
                ProofDirection::Forward
            } else if word_is(characters, start, end, "backward") {
                ProofDirection::Backward
            } else if word_is(characters, start, end, "both") {
                ProofDirection::Both
            } else {
                return Err(
                    Error::new_unknown_proof_direction(copy_word(input, characters, start, end)),
                );
            };
            read_closing_parenthesis(characters, end, proof_direction)
        },
        None => read_closing_parenthesis(characters, start, ProofDirection::Both),
    }
}

fn read_formula_body(input: &str, characters: &Vec<char>, from: usize) -> (result: Result<
    (String, usize),
    Error,
>)
    requires
        characters@ == input@,
        from <= characters@.len(),
    ensures
        match formula_body_at(characters@, from as int) {
            Ok((formula, end)) => result matches Ok(read) && read.0@ == formula && read.1 == end
                && from < end <= characters@.len(),
            Err(expected) => result matches Err(error) && error@ == expected,
        },
{
    let colon = read_whitespace(characters, from);
    if !character_is(characters, colon, ':') {
        return Err(Error::new_expected_colon());
    }
    match read_terminator(characters, colon + 1) {
        Some(terminator) => Ok(
            (copy_word(input, characters, colon + 1, terminator), terminator + 1),
        ),
        None => Err(Error::new_missing_statement_terminator()),
    }
}


/// What an `input` statement declares: a predicate by name and arity, or a constant by name and
/// the sort of its value.
#[derive(Clone, Debug, PartialEq, Eq)]
pub enum InputDeclaration {
    Predicate { name: String, arity: usize },
    Constant { name: String, domain: Domain },
}

pub enum InputDeclarationView {
    Predicate { name: Seq<char>, arity: usize },
    Constant { name: Seq<char>, domain: Domain },
}

impl View for InputDeclaration {
    type V = InputDeclarationView;

    open spec fn view(&self) -> InputDeclarationView {
        match *self {
            InputDeclaration::Predicate { name, arity } => InputDeclarationView::Predicate {
                name: name@,
                arity,
            },
            InputDeclaration::Constant { name, domain } => InputDeclarationView::Constant {
                name: name@,
                domain,
            },
        }
    }
}

/// The mathematical values of a list of input declarations.
pub open spec fn input_declarations_view(declarations: Seq<InputDeclaration>) -> Seq<
    InputDeclarationView,
> {
    Seq::new(declarations.len(), |i: int| declarations[i]@)
}

/// A statement as the text gives it: a formula still as text, or the declarations of an `input`
/// statement.
#[derive(Clone, Debug, PartialEq, Eq)]
pub enum StatementSource {
    Formula { kind: StatementKind, formula: String },
    Input { declarations: Vec<InputDeclaration> },
}

pub enum StatementSourceView {
    Formula { kind: StatementKind, formula: Seq<char> },
    Input { declarations: Seq<InputDeclarationView> },
}

impl View for StatementSource {
    type V = StatementSourceView;

    open spec fn view(&self) -> StatementSourceView {
        match *self {
            StatementSource::Formula { kind, formula } => StatementSourceView::Formula {
                kind,
                formula: formula@,
            },
            StatementSource::Input { declarations } => StatementSourceView::Input {
                declarations: input_declarations_view(declarations@),
            },
        }
    }
}

/// The sort behind the arrow of a constant's declaration, with the position behind it.
pub open spec fn constant_domain_at(text: Seq<char>, from: int) -> Result<(Domain, int), ErrorView> {
    let start = skip_whitespace(text, from);
    match identifier_at(text, start) {
        Some(end) => match domain_named(text.subrange(start, end)) {
            Some(domain) => Ok((domain, end)),
            None => Err(
                ErrorView::of_kind(KindView::UnknownDomainIdentifier(text.subrange(start, end))),
            ),
        },
        None => Err(ErrorView::of_kind(KindView::ExpectedIdentifier)),
    }
}

/// The arity behind the slash of a predicate's declaration, with the position of what follows
/// the declaration.
pub open spec fn predicate_arity_at(text: Seq<char>, from: int) -> Result<(usize, int), ErrorView> {
    match number_value_at(text, skip_whitespace(text, from)) {
        Ok(Some((arity, end))) => Ok((arity, skip_whitespace(text, end))),
        Ok(None) => Err(ErrorView::of_kind(KindView::ParsePredicateDeclaration)),
        Err(error) => Err(error),
    }
}

/// The declaration that starts at or behind `from`, with the position of what follows it:
/// `name/arity` declares a predicate, `name -> sort` a constant of that sort, `name` a constant
/// over program values. Names that are reserved for the translation's own helpers cannot be
/// declared.
pub open spec fn input_declaration_at(text: Seq<char>, from: int) -> Result<
    (InputDeclarationView, int),
    ErrorView,
> {
    let start = skip_whitespace(text, from);
    match identifier_at(text, start) {
        None => Err(ErrorView::of_kind(KindView::ExpectedIdentifier)),
        Some(end) => {
            let name = text.subrange(start, end);
            let behind = skip_whitespace(text, end);
            if character_at(text, behind) == Some('/') {
                if is_built_in_name('p', name) {
                    Err(ErrorView::of_kind(KindView::ExpectedIdentifier))
                } else {
                    match predicate_arity_at(text, behind + 1) {
                        Ok((arity, next)) => Ok(
                            (InputDeclarationView::Predicate { name, arity }, next),
                        ),
                        Err(error) => Err(error),
                    }
                }
            } else if is_built_in_name('f', name) {
                Err(ErrorView::of_kind(KindView::ExpectedIdentifier))
            } else if character_at(text, behind) == Some('-') && character_at(text, behind + 1)
                == Some('>') {
                match constant_domain_at(text, behind + 2) {
                    Ok((domain, next)) => Ok(
                        (InputDeclarationView::Constant { name, domain }, next),
                    ),
                    Err(error) => Err(error),
                }
            } else {
                Ok((InputDeclarationView::Constant { name, domain: Domain::Program }, behind))
            }
        },
    }
}

/// A declaration is not empty, and ends within the text.
pub proof fn lemma_input_declaration_advances(text: Seq<char>, from: int)
    ensures
        input_declaration_at(text, from) matches Ok((_, next)) ==> 0 <= from < next <= text.len(),
{
    if from >= 0 && from <= text.len() {
        lemma_span_end_bounds(text, from, CharacterClass::Whitespace);
        let start = skip_whitespace(text, from);
        if identifier_at(text, start) is Some {
            lemma_span_end_bounds(text, start + 1, CharacterClass::IdentifierBody);
            let end = identifier_at(text, start)->Some_0;
            lemma_span_end_bounds(text, end, CharacterClass::Whitespace);
            let behind = skip_whitespace(text, end);
            if character_at(text, behind) == Some('/') {
                lemma_span_end_bounds(text, behind + 1, CharacterClass::Whitespace);
                let digits = skip_whitespace(text, behind + 1);
                if number_at(text, digits) is Some {
                    lemma_span_end_bounds(text, digits + 1, CharacterClass::Digit);
                    lemma_span_end_bounds(
                        text,
                        number_at(text, digits)->Some_0,
                        CharacterClass::Whitespace,
                    );
                }
            } else if character_at(text, behind) == Some('-') && character_at(text, behind + 1)
                == Some('>') {
                lemma_span_end_bounds(text, behind + 2, CharacterClass::Whitespace);
                let word = skip_whitespace(text, behind + 2);
                if identifier_at(text, word) is Some {
                    lemma_span_end_bounds(text, word + 1, CharacterClass::IdentifierBody);
                }
            }
        }
    }
}

/// The declarations of an `input` statement from `from` on, with the position behind the last:
/// one declaration, and as long as a comma follows, another.
pub open spec fn input_declarations_at(text: Seq<char>, from: int) -> Result<
    (Seq<InputDeclarationView>, int),
    ErrorView,
>
    decreases text.len() - from,
{
    match input_declaration_at(text, from) {
        Err(error) => Err(error),
        Ok((declaration, next)) => if character_at(text, next) == Some(',') {
            proof {
                lemma_input_declaration_advances(text, from);
            }
            match input_declarations_at(text, next + 1) {
                Ok((declarations, end)) => Ok((seq![declaration] + declarations, end)),
                Err(error) => Err(error),
            }
        } else {
            Ok((seq![declaration], next))
        },
    }
}

/// The declarations of an `input` statement, with the position behind the statement: a colon,
/// the declarations with commas between them, a period.
pub open spec fn input_body_at(text: Seq<char>, from: int) -> Result<
    (Seq<InputDeclarationView>, int),
    ErrorView,
> {
    let colon = skip_whitespace(text, from);
    if character_at(text, colon) != Some(':') {
        Err(ErrorView::of_kind(KindView::ExpectedColon))
    } else {
        match input_declarations_at(text, colon + 1) {
            Ok((declarations, next)) => {
                let terminator = skip_whitespace(text, next);
                if character_at(text, terminator) == Some('.') {
                    Ok((declarations, terminator + 1))
                } else {
                    Err(ErrorView::of_kind(KindView::MissingStatementTerminator))
                }
            },
            Err(error) => Err(error),
        }
    }
}

/// A statement with a formula, of the given kind, with the position behind it.
pub open spec fn formula_statement_at(text: Seq<char>, from: int, kind: StatementKind) -> Result<
    Option<(StatementSourceView, int)>,
    ErrorView,
> {
    match formula_body_at(text, from) {
        Ok((formula, next)) => Ok(Some((StatementSourceView::Formula { kind, formula }, next))),
        Err(error) => Err(error),
    }
}

/// The statement that starts at or behind `from`, with the position behind it; `None` where
/// only white space is left.
pub open spec fn statement_at(text: Seq<char>, from: int) -> Result<
    Option<(StatementSourceView, int)>,
    ErrorView,
> {
    let start = skip_whitespace(text, from);
    if start >= text.len() {
        Ok(None)
    } else {
        match identifier_at(text, start) {
            None => Err(ErrorView::of_kind(KindView::ExpectedStatement)),
            Some(end) => {
                let keyword = text.subrange(start, end);
                if keyword == "axiom"@ {
                    formula_statement_at(text, end, StatementKind::Axiom)
                } else if keyword == "assume"@ {
                    formula_statement_at(text, end, StatementKind::Assumption)
                } else if keyword == "lemma"@ {
                    match proof_direction_at(text, end) {
                        Ok((proof_direction, next)) => formula_statement_at(
                            text,
                            next,
                            StatementKind::Lemma(proof_direction),
                        ),
                        Err(error) => Err(error),
                    }
                } else if keyword == "assert"@ {
                    formula_statement_at(text, end, StatementKind::Assertion)
                } else if keyword == "input"@ {
                    match input_body_at(text, end) {
                        Ok((declarations, next)) => Ok(
                            Some((StatementSourceView::Input { declarations }, next)),
                        ),
                        Err(error) => Err(error),
                    }
                } else {
                    Err(ErrorView::of_kind(KindView::UnknownStatement(keyword)))
                }
            },
        }
    }
}


fn read_constant_domain(input: &str, characters: &Vec<char>, from: usize) -> (result: Result<
    (Domain, usize),
    Error,
>)
    requires
        characters@ == input@,
        from <= characters@.len(),
    ensures
        match constant_domain_at(characters@, from as int) {
            Ok((domain, end)) => result matches Ok(read) && read.0 == domain && read.1 == end && from
                < end <= characters@.len(),
            Err(expected) => result matches Err(error) && error@ == expected,
        },
{
    let start = read_whitespace(characters, from);
    match read_identifier(characters, start) {
        Some(end) => {
            if word_is(characters, start, end, "integer") {
                Ok((Domain::Integer, end))
            } else if word_is(characters, start, end, "program") {
                Ok((Domain::Program, end))
            } else {
                Err(
                    Error::new_unknown_domain_identifier(
                        copy_word(input, characters, start, end),
                    ),
                )
            }
        },
        None => Err(Error::new_expected_identifier()),
    }
}

fn read_predicate_arity(characters: &Vec<char>, from: usize) -> (result: Result<
    (usize, usize),
    Error,
>)
    requires
        from <= characters@.len(),
    ensures
        match predicate_arity_at(characters@, from as int) {
            Ok((arity, end)) => result matches Ok(read) && read.0 == arity && read.1 == end && from
                < end <= characters@.len(),
            Err(expected) => result matches Err(error) && error@ == expected,
        },
{
    let start = read_whitespace(characters, from);
    match read_number(characters, start) {
        Ok(Some((arity, end))) => Ok((arity, read_whitespace(characters, end))),
        Ok(None) => Err(Error::new_parse_predicate_declaration()),
        Err(error) => Err(error),
    }
}

fn read_input_declaration(input: &str, characters: &Vec<char>, from: usize) -> (result: Result<
    (InputDeclaration, usize),
    Error,
>)
    requires
        characters@ == input@,
        from <= characters@.len(),
    ensures
        match input_declaration_at(characters@, from as int) {
            Ok((declaration, end)) => result matches Ok(read) && read.0@ == declaration && read.1
                == end && from < end <= characters@.len(),
            Err(expected) => result matches Err(error) && error@ == expected,
        },
{
    let start = read_whitespace(characters, from);
    let end = match read_identifier(characters, start) {
        Some(end) => end,
        None => return Err(Error::new_expected_identifier()),
    };
    let name = copy_word(input, characters, start, end);
    let behind = read_whitespace(characters, end);
    if character_is(characters, behind, '/') {
        if has_built_in_name('p', name.as_str()) {
            return Err(Error::new_expected_identifier());
        }
        match read_predicate_arity(characters, behind + 1) {
            Ok((arity, next)) => Ok((InputDeclaration::Predicate { name, arity }, next)),
            Err(error) => Err(error),
        }
    } else if has_built_in_name('f', name.as_str()) {
        Err(Error::new_expected_identifier())
    } else if character_is(characters, behind, '-') && character_is(characters, behind + 1, '>') {
        match read_constant_domain(input, characters, behind + 2) {
            Ok((domain, next)) => Ok((InputDeclaration::Constant { name, domain }, next)),
            Err(error) => Err(error),
        }
    } else {
        Ok((InputDeclaration::Constant { name, domain: Domain::Program }, behind))
    }
}

/// The declarations that follow, behind those that were read before.
spec fn behind_earlier(
    earlier: Seq<InputDeclarationView>,
    following: Result<(Seq<InputDeclarationView>, int), ErrorView>,
) -> Result<(Seq<InputDeclarationView>, int), ErrorView> {
    match following {
        Ok((declarations, end)) => Ok((earlier + declarations, end)),
        Err(error) => Err(error),
    }
}

fn read_input_declarations(input: &str, characters: &Vec<char>, from: usize) -> (result: Result<
    (Vec<InputDeclaration>, usize),
    Error,
>)
    requires
        characters@ == input@,
        from <= characters@.len(),
    ensures
        match input_declarations_at(characters@, from as int) {
            Ok((declarations, end)) => result matches Ok(read) && input_declarations_view(read.0@)
                == declarations && read.1 == end && from < end <= characters@.len(),
            Err(expected) => result matches Err(error) && error@ == expected,
        },
{
    let ghost whole = input_declarations_at(characters@, from as int);
    let mut declarations: Vec<InputDeclaration> = Vec::new();
    let mut position = from;
    proof {
        assert(input_declarations_view(declarations@) =~= Seq::<InputDeclarationView>::empty());
        lemma_behind_nothing(whole);
    }
    loop
        invariant
            characters@ == input@,
            from <= position <= characters@.len(),
            declarations@.len() > 0 ==> from < position,
            whole == input_declarations_at(characters@, from as int),
            whole == behind_earlier(
                input_declarations_view(declarations@),
                input_declarations_at(characters@, position as int),
            ),
        decreases characters@.len() - position,
    {
        let ghost earlier = input_declarations_view(declarations@);
        let (declaration, next) = match read_input_declaration(input, characters, position) {
            Ok(read) => read,
            Err(error) => return Err(error),
        };
        declarations.push(declaration);
        assert(input_declarations_view(declarations@) =~= earlier.push(declaration@));
        if character_is(characters, next, ',') {
            proof {
                let following = input_declarations_at(characters@, next + 1);
                if following is Ok {
                    assert(earlier + (seq![declaration@] + following->Ok_0.0) =~= earlier.push(
                        declaration@,
                    ) + following->Ok_0.0);
                }
            }
            position = next + 1;
        } else {
            assert(earlier + seq![declaration@] =~= earlier.push(declaration@));
            return Ok((declarations, next));
        }
    }
}

/// Behind nothing, the declarations that follow are all there is.
proof fn lemma_behind_nothing(following: Result<(Seq<InputDeclarationView>, int), ErrorView>)
    ensures
        behind_earlier(Seq::empty(), following) == following,
{
    if following is Ok {
        assert(Seq::<InputDeclarationView>::empty() + following->Ok_0.0 =~= following->Ok_0.0);
    }
}

fn read_input_body(input: &str, characters: &Vec<char>, from: usize) -> (result: Result<
    (Vec<InputDeclaration>, usize),
    Error,
>)
    requires
        characters@ == input@,
        from <= characters@.len(),
    ensures
        match input_body_at(characters@, from as int) {
            Ok((declarations, end)) => result matches Ok(read) && input_declarations_view(read.0@)
                == declarations && read.1 == end && from < end <= characters@.len(),
            Err(expected) => result matches Err(error) && error@ == expected,
        },
{
    let colon = read_whitespace(characters, from);
    if !character_is(characters, colon, ':') {
        return Err(Error::new_expected_colon());
    }
    let (declarations, next) = match read_input_declarations(input, characters, colon + 1) {
        Ok(read) => read,
        Err(error) => return Err(error),
    };
    let terminator = read_whitespace(characters, next);
    if character_is(characters, terminator, '.') {
        Ok((declarations, terminator + 1))
    } else {
        Err(Error::new_missing_statement_terminator())
    }
}

fn read_formula_statement(
    input: &str,
    characters: &Vec<char>,
    from: usize,
    kind: StatementKind,
) -> (result: Result<Option<(StatementSource, usize)>, Error>)
    requires
        characters@ == input@,
        from <= characters@.len(),
    ensures
        statement_read(formula_statement_at(characters@, from as int, kind), from, result),
        result matches Ok(Some(read)) ==> read.1 <= characters@.len(),
{
    match read_formula_body(input, characters, from) {
        Ok((formula, next)) => Ok(Some((StatementSource::Formula { kind, formula }, next))),
        Err(error) => Err(error),
    }
}

/// Whether `result` is the given statement, read from a position `from` on.
spec fn statement_read(
    expected: Result<Option<(StatementSourceView, int)>, ErrorView>,
    from: usize,
    result: Result<Option<(StatementSource, usize)>, Error>,
) -> bool {
    match expected {
        Ok(Some((statement, end))) => {
            &&& result matches Ok(Some(read))
            &&& read.0@ == statement
            &&& read.1 == end
            &&& from < end
        },
        Ok(None) => result matches Ok(None),
        Err(error) => result matches Err(read) && read@ == error,
    }
}

/// Reads the statement that starts at or behind `from`. `characters` are the characters of
/// `input`.
fn read_statement(input: &str, characters: &Vec<char>, from: usize) -> (result: Result<
    Option<(StatementSource, usize)>,
    Error,
>)
    requires
        characters@ == input@,
        from <= characters@.len(),
    ensures
        statement_read(statement_at(characters@, from as int), from, result),
        result matches Ok(Some(read)) ==> read.1 <= characters@.len(),
{
    let start = read_whitespace(characters, from);
    if start >= characters.len() {
        return Ok(None);
    }
    let end = match read_identifier(characters, start) {
        Some(end) => end,
        None => return Err(Error::new_expected_statement()),
    };
    if word_is(characters, start, end, "axiom") {
        read_formula_statement(input, characters, end, StatementKind::Axiom)
    } else if word_is(characters, start, end, "assume") {
        read_formula_statement(input, characters, end, StatementKind::Assumption)
    } else if word_is(characters, start, end, "lemma") {
        match read_proof_direction(input, characters, end) {
            Ok((proof_direction, next)) => read_formula_statement(
                input,
                characters,
                next,
                StatementKind::Lemma(proof_direction),
            ),
            Err(error) => Err(error),
        }
    } else if word_is(characters, start, end, "assert") {
        read_formula_statement(input, characters, end, StatementKind::Assertion)
    } else if word_is(characters, start, end, "input") {
        match read_input_body(input, characters, end) {
            Ok((declarations, next)) => Ok(Some((StatementSource::Input { declarations }, next))),
            Err(error) => Err(error),
        }
    } else {
        Err(Error::new_unknown_statement(copy_word(input, characters, start, end)))
    }
}


/// What one occurrence of a variable makes of the recorded sorts: the variable's sort, which a
/// user-defined name tells and a generated name holds, is recorded for it. An occurrence of a
/// variable without declaration, of a name that tells no sort, or of a variable for which another
/// sort is recorded is an error.
pub open spec fn occurrence_assigned(
    domains: Map<usize, Domain>,
    declarations: Seq<VariableNameView>,
    variable_declaration: usize,
) -> Result<Map<usize, Domain>, ErrorView> {
    if variable_declaration >= declarations.len() {
        Err(logic_error("variable without declaration"))
    } else {
        match declarations[variable_declaration as int] {
            VariableNameView::UserDefined(name) => match domain_of_name(name) {
                Some(domain) => domain_assigned(domains, variable_declaration, domain),
                None => Err(ErrorView::of_kind(KindView::VariableNameNotAllowed(name))),
            },
            VariableNameView::Generated(generated_variable_name) => domain_assigned(
                domains,
                variable_declaration,
                generated_variable_name.domain,
            ),
        }
    }
}

/// The sorts recorded after a run over occurrences of variables, and the error that ended the
/// run, if one did.
pub struct DomainAssignment {
    pub domains: Map<usize, Domain>,
    pub error: Option<ErrorView>,
}

/// What a run over occurrences of variables, in their order, makes of the recorded sorts. The
/// first error ends the run.
pub open spec fn occurrences_assigned(
    domains: Map<usize, Domain>,
    declarations: Seq<VariableNameView>,
    occurrences: Seq<usize>,
) -> DomainAssignment
    decreases occurrences.len(),
{
    if occurrences.len() == 0 {
        DomainAssignment { domains, error: None }
    } else {
        match occurrence_assigned(domains, declarations, occurrences[0]) {
            Ok(assigned) => occurrences_assigned(assigned, declarations, occurrences.drop_first()),
            Err(error) => DomainAssignment { domains, error: Some(error) },
        }
    }
}

/// A run over two lists of occurrences is a run over the first and, if that ends without error,
/// a run over the second.
pub proof fn lemma_occurrences_assigned_in_turn(
    domains: Map<usize, Domain>,
    declarations: Seq<VariableNameView>,
    first: Seq<usize>,
    second: Seq<usize>,
)
    ensures
        occurrences_assigned(domains, declarations, first + second) == ({
            let outcome = occurrences_assigned(domains, declarations, first);
            if outcome.error is Some {
                outcome
            } else {
                occurrences_assigned(outcome.domains, declarations, second)
            }
        }),
    decreases first.len(),
{
    if first.len() == 0 {
        assert(first + second =~= second);
    } else {
        assert((first + second)[0] == first[0]);
        assert((first + second).drop_first() =~= first.drop_first() + second);
        match occurrence_assigned(domains, declarations, first[0]) {
            Ok(assigned) => {
                lemma_occurrences_assigned_in_turn(
                    assigned,
                    declarations,
                    first.drop_first(),
                    second,
                );
            },
            Err(error) => {},
        }
    }
}

/// Whether a run over the given occurrences leads from one state to another, with the given
/// result: nothing but the recorded sorts changes, and the result is the run's error, if it has
/// one.
pub open spec fn domains_assigned(
    before: ContextView,
    occurrences: Seq<usize>,
    after: ContextView,
    result: Result<(), Error>,
) -> bool {
    let outcome = occurrences_assigned(
        before.variable_declaration_domains,
        before.variable_declarations,
        occurrences,
    );
    &&& after == (ContextView { variable_declaration_domains: outcome.domains, ..before })
    &&& match outcome.error {
        None => result is Ok,
        Some(expected) => result matches Err(error) && error@ == expected,
    }
}

/// Two runs, one behind the other, are one run over both lists of occurrences. A run that ends
/// with an error stays what it is with further occurrences behind it.
proof fn lemma_domains_assigned_in_turn(
    before: ContextView,
    first: Seq<usize>,
    between: ContextView,
    first_result: Result<(), Error>,
    second: Seq<usize>,
    after: ContextView,
    second_result: Result<(), Error>,
)
    requires
        domains_assigned(before, first, between, first_result),
        first_result is Ok ==> domains_assigned(between, second, after, second_result),
    ensures
        first_result is Ok ==> domains_assigned(before, first + second, after, second_result),
        first_result is Err ==> domains_assigned(before, first + second, between, first_result),
{
    lemma_occurrences_assigned_in_turn(
        before.variable_declaration_domains,
        before.variable_declarations,
        first,
        second,
    );
}

/// Records the sort of one occurrence of a variable.
fn assign_occurrence(variable_declaration: usize, context: &mut Context) -> (result: Result<
    (),
    Error,
>)
    requires
        old(context).wf(),
    ensures
        final(context).wf(),
        domains_assigned(old(context)@, seq![variable_declaration], final(context)@, result),
{
    proof {
        let occurrences = seq![variable_declaration];
        assert(occurrences.drop_first() =~= Seq::<usize>::empty());
        reveal_with_fuel(occurrences_assigned, 2);
    }
    let domain = match context.variable_declarations().get(variable_declaration) {
        Some(declaration) => match declaration.domain() {
            Ok(domain) => domain,
            Err(error) => return Err(error),
        },
        None => return Err(Error::new_logic("variable without declaration")),
    };
    context.assign_variable_declaration_domain(variable_declaration, domain)
}

/// Records, for each occurrence of a variable in a list of terms, the variable's sort.
fn terms_assign_variable_declaration_domains(terms: &Vec<Term>, context: &mut Context) -> (result:
    Result<(), Error>)
    requires
        old(context).wf(),
    ensures
        final(context).wf(),
        domains_assigned(
            old(context)@,
            terms_variables(terms_view(terms@)),
            final(context)@,
            result,
        ),
    decreases terms, 1int,
{
    let ghost views = terms_view(terms@);
    let mut position: usize = 0;
    assert(views.take(0) =~= Seq::<TermView>::empty());
    while position < terms.len()
        invariant
            context.wf(),
            position <= terms@.len(),
            views == terms_view(terms@),
            domains_assigned(
                old(context)@,
                terms_variables(views.take(position as int)),
                context@,
                Ok(()),
            ),
        decreases terms@.len() - position,
    {
        let ghost between = context@;
        let ghost read = terms_variables(views.take(position as int));
        let result = term_assign_variable_declaration_domains(&terms[position], context);
        proof {
            let term = views[position as int];
            assert(views.take(position + 1).drop_last() =~= views.take(position as int));
            assert(views.take(position + 1).last() == term);
            assert(terms_variables(views.take(position + 1)) == read + term_variables(term));
            lemma_domains_assigned_in_turn(
                old(context)@,
                read,
                between,
                Ok(()),
                term_variables(term),
                context@,
                result,
            );
        }
        position += 1;
        if result.is_err() {
            proof {
                lemma_domains_assigned_in_turn(
                    old(context)@,
                    terms_variables(views.take(position as int)),
                    context@,
                    result,
                    terms_variables(views.skip(position as int)),
                    context@,
                    result,
                );
                lemma_terms_variables_split(views, position as int);
            }
            return result;
        }
    }
    assert(views.take(position as int) =~= views);
    Ok(())
}

/// The variables of a list of terms are those of a front part and those of the rest.
proof fn lemma_terms_variables_split(terms: Seq<TermView>, length: int)
    requires
        0 <= length <= terms.len(),
    ensures
        terms_variables(terms) == terms_variables(terms.take(length)) + terms_variables(
            terms.skip(length),
        ),
    decreases terms.len() - length,
{
    if length == terms.len() {
        assert(terms.take(length) =~= terms);
        assert(terms.skip(length) =~= Seq::<TermView>::empty());
        assert(terms_variables(terms) + Seq::<usize>::empty() =~= terms_variables(terms));
    } else {
        lemma_terms_variables_split(terms.drop_last(), length);
        assert(terms.drop_last().take(length) =~= terms.take(length));
        assert(terms.drop_last().skip(length) =~= terms.skip(length).drop_last());
        assert(terms.skip(length).last() == terms.last());
        assert(terms_variables(terms.take(length)) + (terms_variables(
            terms.skip(length).drop_last(),
        ) + term_variables(terms.last())) =~= (terms_variables(terms.take(length))
            + terms_variables(terms.skip(length).drop_last())) + term_variables(terms.last()));
    }
}

/// Records, for each occurrence of a variable in a term, the variable's sort. The first error
/// ends the run: a variable without declaration, a name that tells no sort, or a sort other than
/// the one that is recorded for the variable.
pub fn term_assign_variable_declaration_domains(term: &Term, context: &mut Context) -> (result:
    Result<(), Error>)
    requires
        old(context).wf(),
    ensures
        final(context).wf(),
        domains_assigned(old(context)@, term@.variables(), final(context)@, result),
    decreases term, 0int,
{
    match term {
        Term::BinaryOperation { operator, left, right } => {
            let first = term_assign_variable_declaration_domains(left, context);
            let ghost between = context@;
            if first.is_err() {
                proof {
                    lemma_domains_assigned_in_turn(
                        old(context)@,
                        left@.variables(),
                        between,
                        first,
                        right@.variables(),
                        between,
                        first,
                    );
                }
                return first;
            }
            let second = term_assign_variable_declaration_domains(right, context);
            proof {
                lemma_domains_assigned_in_turn(
                    old(context)@,
                    left@.variables(),
                    between,
                    first,
                    right@.variables(),
                    context@,
                    second,
                );
            }
            second
        },
        Term::Function { declaration, arguments } => {
            proof {
                lemma_views_of_lists(*term, Formula::Boolean(true));
            }
            terms_assign_variable_declaration_domains(arguments, context)
        },
        Term::UnaryOperation { operator, argument } => term_assign_variable_declaration_domains(
            argument,
            context,
        ),
        Term::Variable(declaration) => assign_occurrence(*declaration, context),
        _ => Ok(()),
    }
}


/// The variables of a list of formulas are those of a front part and those of the rest.
proof fn lemma_formulas_variables_split(formulas: Seq<FormulaView>, length: int)
    requires
        0 <= length <= formulas.len(),
    ensures
        formulas_variables(formulas) == formulas_variables(formulas.take(length))
            + formulas_variables(formulas.skip(length)),
    decreases formulas.len() - length,
{
    if length == formulas.len() {
        assert(formulas.take(length) =~= formulas);
        assert(formulas.skip(length) =~= Seq::<FormulaView>::empty());
        assert(formulas_variables(formulas) + Seq::<usize>::empty() =~= formulas_variables(
            formulas,
        ));
    } else {
        lemma_formulas_variables_split(formulas.drop_last(), length);
        assert(formulas.drop_last().take(length) =~= formulas.take(length));
        assert(formulas.drop_last().skip(length) =~= formulas.skip(length).drop_last());
        assert(formulas.skip(length).last() == formulas.last());
        assert(formulas_variables(formulas.take(length)) + (formulas_variables(
            formulas.skip(length).drop_last(),
        ) + formula_variables(formulas.last())) =~= (formulas_variables(formulas.take(length))
            + formulas_variables(formulas.skip(length).drop_last())) + formula_variables(
            formulas.last(),
        ));
    }
}

/// Records, for each occurrence of a variable in a list of formulas, the variable's sort.
fn formulas_assign_variable_declaration_domains(
    formulas: &Vec<Formula>,
    context: &mut Context,
) -> (result: Result<(), Error>)
    requires
        old(context).wf(),
    ensures
        final(context).wf(),
        domains_assigned(
            old(context)@,
            formulas_variables(formulas_view(formulas@)),
            final(context)@,
            result,
        ),
    decreases formulas, 1int,
{
    let ghost views = formulas_view(formulas@);
    let mut position: usize = 0;
    assert(views.take(0) =~= Seq::<FormulaView>::empty());
    while position < formulas.len()
        invariant
            context.wf(),
            position <= formulas@.len(),
            views == formulas_view(formulas@),
            domains_assigned(
                old(context)@,
                formulas_variables(views.take(position as int)),
                context@,
                Ok(()),
            ),
        decreases formulas@.len() - position,
    {
        let ghost between = context@;
        let ghost read = formulas_variables(views.take(position as int));
        let result = formula_assign_variable_declaration_domains(&formulas[position], context);
        proof {
            let formula = views[position as int];
            assert(views.take(position + 1).drop_last() =~= views.take(position as int));
            assert(views.take(position + 1).last() == formula);
            assert(formulas_variables(views.take(position + 1)) == read + formula_variables(
                formula,
            ));
            lemma_domains_assigned_in_turn(
                old(context)@,
                read,
                between,
                Ok(()),
                formula_variables(formula),
                context@,
                result,
            );
        }
        position += 1;
        if result.is_err() {
            proof {
                lemma_domains_assigned_in_turn(
                    old(context)@,
                    formulas_variables(views.take(position as int)),
                    context@,
                    result,
                    formulas_variables(views.skip(position as int)),
                    context@,
                    result,
                );
                lemma_formulas_variables_split(views, position as int);
            }
            return result;
        }
    }
    assert(views.take(position as int) =~= views);
    Ok(())
}

/// Records, for each occurrence of a variable in the terms of a formula, the variable's sort.
/// The first error ends the run: a variable without declaration, a name that tells no sort, or a
/// sort other than the one that is recorded for the variable.
pub fn formula_assign_variable_declaration_domains(formula: &Formula, context: &mut Context) -> (result:
    Result<(), Error>)
    requires
        old(context).wf(),
    ensures
        final(context).wf(),
        domains_assigned(old(context)@, formula@.variables(), final(context)@, result),
    decreases formula, 0int,
{
    proof {
        lemma_views_of_lists(Term::Boolean(true), *formula);
    }
    match formula {
        Formula::And(arguments) => formulas_assign_variable_declaration_domains(
            arguments,
            context,
        ),
        Formula::Or(arguments) => formulas_assign_variable_declaration_domains(arguments, context),
        Formula::IfAndOnlyIf(arguments) => formulas_assign_variable_declaration_domains(
            arguments,
            context,
        ),
        Formula::Compare { operator, left, right } => {
            let first = term_assign_variable_declaration_domains(left, context);
            let ghost between = context@;
            if first.is_err() {
                proof {
                    lemma_domains_assigned_in_turn(
                        old(context)@,
                        left@.variables(),
                        between,
                        first,
                        right@.variables(),
                        between,
                        first,
                    );
                }
                return first;
            }
            let second = term_assign_variable_declaration_domains(right, context);
            proof {
                lemma_domains_assigned_in_turn(
                    old(context)@,
                    left@.variables(),
                    between,
                    first,
                    right@.variables(),
                    context@,
                    second,
                );
            }
            second
        },
        Formula::Exists { parameters, argument } => formula_assign_variable_declaration_domains(
            argument,
            context,
        ),
        Formula::ForAll { parameters, argument } => formula_assign_variable_declaration_domains(
            argument,
            context,
        ),
        Formula::Implies { antecedent, implication } => {
            let first = formula_assign_variable_declaration_domains(antecedent, context);
            let ghost between = context@;
            if first.is_err() {
                proof {
                    lemma_domains_assigned_in_turn(
                        old(context)@,
                        antecedent@.variables(),
                        between,
                        first,
                        implication@.variables(),
                        between,
                        first,
                    );
                }
                return first;
            }
            let second = formula_assign_variable_declaration_domains(implication, context);
            proof {
                lemma_domains_assigned_in_turn(
                    old(context)@,
                    antecedent@.variables(),
                    between,
                    first,
                    implication@.variables(),
                    context@,
                    second,
                );
            }
            second
        },
        Formula::Not(argument) => formula_assign_variable_declaration_domains(argument, context),
        Formula::Predicate { declaration, arguments } => terms_assign_variable_declaration_domains(
            arguments,
            context,
        ),
        Formula::Boolean(value) => Ok(()),
    }
}

/// Takes in a formula as the formula parser hands it over, with the variables that are free in
/// it: records the sort of each variable that occurs in its terms.
pub fn closed_formula(formula: ScopedFormula, context: &mut Context) -> (result: Result<
    ScopedFormula,
    Error,
>)
    requires
        old(context).wf(),
    ensures
        final(context).wf(),
        domains_assigned(
            old(context)@,
            formula@.formula.variables(),
            final(context)@,
            match result {
                Ok(_) => Ok(()),
                Err(error) => Err(error),
            },
        ),
        result matches Ok(scoped_formula) ==> scoped_formula == formula,
{
    match formula_assign_variable_declaration_domains(&formula.formula, context) {
        Ok(()) => Ok(formula),
        Err(error) => Err(error),
    }
}

/// What a formula that has to be closed comes to, in a state of the translation: the state in
/// which the sorts of its variables are recorded and, where no error ends that run and no
/// variable is free in the formula, the formula itself.
pub open spec fn variable_free_formula_of(before: ContextView, formula: ScopedFormulaView) -> (
    ContextView,
    Result<FormulaView, ErrorView>,
) {
    let outcome = occurrences_assigned(
        before.variable_declaration_domains,
        before.variable_declarations,
        formula.formula.variables(),
    );
    (
        ContextView { variable_declaration_domains: outcome.domains, ..before },
        match outcome.error {
            Some(error) => Err(error),
            None => if formula.free_variable_declarations.len() > 0 {
                Err(ErrorView::of_kind(KindView::FreeVariables))
            } else {
                Ok(formula.formula)
            },
        },
    )
}

/// Takes in a formula that has to be closed: records the sort of each variable that occurs in
/// its terms, and rejects the formula if a variable is free in it.
pub fn variable_free_formula(formula: ScopedFormula, context: &mut Context) -> (result: Result<
    Formula,
    Error,
>)
    requires
        old(context).wf(),
    ensures
        final(context).wf(),
        final(context)@ == variable_free_formula_of(old(context)@, formula@).0,
        match variable_free_formula_of(old(context)@, formula@).1 {
            Ok(expected) => result matches Ok(closed) && closed@ == expected,
            Err(expected) => result matches Err(error) && error@ == expected,
        },
{
    let closed_formula = match closed_formula(formula, context) {
        Ok(closed_formula) => closed_formula,
        Err(error) => return Err(error),
    };
    if closed_formula.free_variable_declarations.len() > 0 {
        return Err(Error::new_free_variables());
    }
    Ok(closed_formula.formula)
}


/// The state of the translation after a specification has declared a predicate or a constant
/// as input.
pub open spec fn input_declared(before: ContextView, declaration: InputDeclarationView) -> ContextView {
    match declaration {
        InputDeclarationView::Predicate { name, arity } => ContextView {
            predicate_declarations: with_input_predicate(before.predicate_declarations, name, arity),
            ..before
        },
        InputDeclarationView::Constant { name, domain } => ContextView {
            function_declarations: with_input_constant(before.function_declarations, name, domain),
            ..before
        },
    }
}

/// The state of the translation after the declarations of an `input` statement, made in their
/// order.
pub open spec fn inputs_declared(
    before: ContextView,
    declarations: Seq<InputDeclarationView>,
) -> ContextView
    decreases declarations.len(),
{
    if declarations.len() == 0 {
        before
    } else {
        input_declared(inputs_declared(before, declarations.drop_last()), declarations.last())
    }
}

/// Makes the declarations of an `input` statement, in their order: each predicate and constant
/// is marked as input in its table, where it is declared first if it is not yet; a constant is
/// given its sort.
pub fn input_statement_body(declarations: &Vec<InputDeclaration>, context: &mut Context)
    requires
        old(context).wf(),
    ensures
        final(context).wf(),
        final(context)@ == inputs_declared(old(context)@, input_declarations_view(declarations@)),
{
    let ghost views = input_declarations_view(declarations@);
    let mut position: usize = 0;
    assert(views.take(0) =~= Seq::<InputDeclarationView>::empty());
    while position < declarations.len()
        invariant
            context.wf(),
            position <= declarations@.len(),
            views == input_declarations_view(declarations@),
            context@ == inputs_declared(old(context)@, views.take(position as int)),
        decreases declarations@.len() - position,
    {
        match &declarations[position] {
            InputDeclaration::Predicate { name, arity } => {
                context.declare_input_predicate(name.as_str(), *arity);
            },
            InputDeclaration::Constant { name, domain } => {
                context.declare_input_constant(name.as_str(), *domain);
            },
        }
        position += 1;
        proof {
            assert(views.take(position as int).drop_last() =~= views.take(position - 1));
            assert(views.take(position as int).last() == declarations@[position - 1]@);
        }
    }
    assert(views.take(position as int) =~= views);
}

/// A statement is not empty, and ends within the text.
pub proof fn lemma_statement_advances(text: Seq<char>, from: int)
    requires
        0 <= from <= text.len(),
    ensures
        statement_at(text, from) matches Ok(Some((_, next))) ==> from < next <= text.len(),
{
    lemma_span_end_bounds(text, from, CharacterClass::Whitespace);
    let start = skip_whitespace(text, from);
    if start < text.len() && identifier_at(text, start) is Some {
        lemma_span_end_bounds(text, start + 1, CharacterClass::IdentifierBody);
        let end = identifier_at(text, start)->Some_0;
        lemma_formula_body_advances(text, end);
        lemma_proof_direction_advances(text, end);
        if proof_direction_at(text, end) is Ok {
            lemma_formula_body_advances(text, proof_direction_at(text, end)->Ok_0.1);
        }
        lemma_span_end_bounds(text, end, CharacterClass::Whitespace);
        let colon = skip_whitespace(text, end);
        if character_at(text, colon) == Some(':') {
            lemma_input_declarations_advance(text, colon + 1);
            if input_declarations_at(text, colon + 1) is Ok {
                lemma_span_end_bounds(
                    text,
                    input_declarations_at(text, colon + 1)->Ok_0.1,
                    CharacterClass::Whitespace,
                );
            }
        }
    }
}

proof fn lemma_formula_body_advances(text: Seq<char>, from: int)
    requires
        0 <= from <= text.len(),
    ensures
        formula_body_at(text, from) matches Ok((_, next)) ==> from < next <= text.len(),
{
    lemma_span_end_bounds(text, from, CharacterClass::Whitespace);
    let colon = skip_whitespace(text, from);
    if character_at(text, colon) == Some(':') {
        lemma_terminator_bounds(text, colon + 1);
    }
}

proof fn lemma_terminator_bounds(text: Seq<char>, from: int)
    requires
        0 <= from <= text.len(),
    ensures
        find_terminator(text, from) matches Some(terminator) ==> from <= terminator < text.len(),
    decreases text.len() - from,
{
    if from < text.len() && text[from] != '.' {
        lemma_terminator_bounds(text, from + 1);
    }
}

proof fn lemma_proof_direction_advances(text: Seq<char>, from: int)
    requires
        0 <= from <= text.len(),
    ensures
        proof_direction_at(text, from) matches Ok((_, next)) ==> from <= next <= text.len(),
{
    lemma_span_end_bounds(text, from, CharacterClass::Whitespace);
    let open = skip_whitespace(text, from);
    if character_at(text, open) == Some('(') {
        lemma_span_end_bounds(text, open + 1, CharacterClass::Whitespace);
        let start = skip_whitespace(text, open + 1);
        if identifier_at(text, start) is Some {
            lemma_span_end_bounds(text, start + 1, CharacterClass::IdentifierBody);
            lemma_span_end_bounds(
                text,
                identifier_at(text, start)->Some_0,
                CharacterClass::Whitespace,
            );
        } else {
            lemma_span_end_bounds(text, start, CharacterClass::Whitespace);
        }
    }
}

proof fn lemma_input_declarations_advance(text: Seq<char>, from: int)
    requires
        0 <= from <= text.len(),
    ensures
        input_declarations_at(text, from) matches Ok((_, next)) ==> from < next <= text.len(),
    decreases text.len() - from,
{
    lemma_input_declaration_advances(text, from);
    if input_declaration_at(text, from) is Ok {
        let next = input_declaration_at(text, from)->Ok_0.1;
        if character_at(text, next) == Some(',') {
            lemma_input_declarations_advance(text, next + 1);
        }
    }
}

/// What a reader asks for when it stops: the formula of a statement, which the formula parser
/// has to parse, or nothing more, at the end of the specification.
#[derive(Clone, Debug, PartialEq, Eq)]
pub enum Step {
    Formula { kind: StatementKind, formula: String },
    Finished,
}

pub enum StepView {
    Formula { kind: StatementKind, formula: Seq<char> },
    Finished,
}

impl View for Step {
    type V = StepView;

    open spec fn view(&self) -> StepView {
        match *self {
            Step::Formula { kind, formula } => StepView::Formula { kind, formula: formula@ },
            Step::Finished => StepView::Finished,
        }
    }
}

/// Where reading on leads: the state of the translation, the reader's position, and what the
/// reader stops with.
pub struct Advance {
    pub context: ContextView,
    pub position: int,
    pub result: Result<StepView, ErrorView>,
}

/// Reading on from a position: `input` statements are carried out as they come, until a
/// statement with a formula, the end of the text or an error stops the reader. A statement with
/// a formula leaves the position behind it; the end and an error leave the position where the
/// statement at hand was looked for.
pub open spec fn advanced(text: Seq<char>, from: int, context: ContextView) -> Advance
    decreases text.len() - from,
{
    match statement_at(text, from) {
        Err(error) => Advance { context, position: from, result: Err(error) },
        Ok(None) => Advance { context, position: from, result: Ok(StepView::Finished) },
        Ok(Some((StatementSourceView::Formula { kind, formula }, next))) => Advance {
            context,
            position: next,
            result: Ok(StepView::Formula { kind, formula }),
        },
        Ok(Some((StatementSourceView::Input { declarations }, next))) => {
            proof {
                if 0 <= from <= text.len() {
                    lemma_statement_advances(text, from);
                }
            }
            advanced(text, next, inputs_declared(context, declarations))
        },
    }
}

/// A reader of specifications: the text and the position up to which it is read.
#[derive(Debug)]
pub struct SpecificationParser {
    input: String,
    characters: Vec<char>,
    position: usize,
}

impl SpecificationParser {
    /// The text that is read.
    pub closed spec fn text(&self) -> Seq<char> {
        self.characters@
    }

    /// The position up to which the text is read.
    pub closed spec fn position(&self) -> int {
        self.position as int
    }

    /// The reader's invariant: its position lies within the text.
    pub closed spec fn wf(&self) -> bool {
        &&& self.characters@ == self.input@
        &&& self.position <= self.characters@.len()
    }

    /// A reader at the start of a text.
    pub fn new(input: &str) -> (parser: SpecificationParser)
        ensures
            parser.wf(),
            parser.text() == input@,
            parser.position() == 0,
    {
        SpecificationParser {
            input: input.to_owned(),
            characters: characters_of(input),
            position: 0,
        }
    }

    /// Whether nothing but white space is left to read.
    pub fn is_finished(&self) -> (finished: bool)
        requires
            self.wf(),
        ensures
            finished == (skip_whitespace(self.text(), self.position()) >= self.text().len()),
    {
        read_whitespace(&self.characters, self.position) >= self.characters.len()
    }

    /// Reads the next statement; `None` at the end of the text. An error leaves the reader
    /// where it was.
    pub fn next_statement(&mut self) -> (result: Result<Option<StatementSource>, Error>)
        requires
            old(self).wf(),
        ensures
            final(self).wf(),
            final(self).text() == old(self).text(),
            match statement_at(old(self).text(), old(self).position()) {
                Ok(Some((statement, next))) => {
                    &&& result matches Ok(Some(read))
                    &&& read@ == statement
                    &&& final(self).position() == next
                    &&& old(self).position() < next
                },
                Ok(None) => result matches Ok(None) && final(self).position() == old(
                    self,
                ).position(),
                Err(expected) => {
                    &&& result matches Err(error)
                    &&& error@ == expected
                    &&& final(self).position() == old(self).position()
                },
            },
    {
        match read_statement(self.input.as_str(), &self.characters, self.position) {
            Ok(Some((statement, next))) => {
                self.position = next;
                Ok(Some(statement))
            },
            Ok(None) => Ok(None),
            Err(error) => Err(error),
        }
    }

    /// Reads on until the formula parser is needed: `input` statements are carried out on
    /// `context` as they come; a statement with a formula stops the reader behind it, with the
    /// statement's kind and the text of the formula. `Finished` at the end of the text.
    pub fn advance(&mut self, context: &mut Context) -> (result: Result<Step, Error>)
        requires
            old(self).wf(),
            old(context).wf(),
        ensures
            final(self).wf(),
            final(context).wf(),
            final(self).text() == old(self).text(),
            ({
                let expected = advanced(old(self).text(), old(self).position(), old(context)@);
                &&& final(context)@ == expected.context
                &&& final(self).position() == expected.position
                &&& match expected.result {
                    Ok(step) => result matches Ok(read) && read@ == step,
                    Err(error) => result matches Err(read) && read@ == error,
                }
            }),
    {
        loop
            invariant
                self.wf(),
                context.wf(),
                self.text() == old(self).text(),
                advanced(old(self).text(), old(self).position(), old(context)@) == advanced(
                    self.text(),
                    self.position(),
                    context@,
                ),
            decreases self.text().len() - self.position(),
        {
            match self.next_statement() {
                Ok(Some(StatementSource::Formula { kind, formula })) => {
                    return Ok(Step::Formula { kind, formula });
                },
                Ok(Some(StatementSource::Input { declarations })) => {
                    input_statement_body(&declarations, context);
                },
                Ok(None) => {
                    return Ok(Step::Finished);
                },
                Err(error) => {
                    return Err(error);
                },
            }
        }
    }
}


/// Whether a table of predicates is a later state of another: what was declared stands where
/// it stood, and what was input is input.
pub open spec fn predicates_kept(
    before: Seq<PredicateDeclarationView>,
    after: Seq<PredicateDeclarationView>,
) -> bool {
    &&& before.len() <= after.len()
    &&& forall|handle: int|
        0 <= handle < before.len() ==> {
            &&& (#[trigger] after[handle]).matches_signature(
                before[handle].name,
                before[handle].arity,
            )
            &&& before[handle].is_input ==> after[handle].is_input
        }
}

/// Whether a table of functions is a later state of another: what was declared stands where it
/// stood, and what was input is input.
pub open spec fn functions_kept(
    before: Seq<FunctionDeclarationView>,
    after: Seq<FunctionDeclarationView>,
) -> bool {
    &&& before.len() <= after.len()
    &&& forall|handle: int|
        0 <= handle < before.len() ==> {
            &&& (#[trigger] after[handle]).matches_signature(
                before[handle].name,
                before[handle].arity,
            )
            &&& before[handle].is_input ==> after[handle].is_input
        }
}

/// Whether a state of the translation has what an `input` statement declared: the predicate or
/// constant stands in its table, marked as input.
pub open spec fn has_input(context: ContextView, declaration: InputDeclarationView) -> bool {
    match declaration {
        InputDeclarationView::Predicate { name, arity } => exists|handle: int|
            0 <= handle < context.predicate_declarations.len() && (
            #[trigger] context.predicate_declarations[handle]).matches_signature(name, arity)
                && context.predicate_declarations[handle].is_input,
        InputDeclarationView::Constant { name, domain } => exists|handle: int|
            0 <= handle < context.function_declarations.len() && (
            #[trigger] context.function_declarations[handle]).matches_signature(name, 0)
                && context.function_declarations[handle].is_input,
    }
}

/// One declaration of an `input` statement keeps the state's invariant and what the tables
/// hold, and the state then has what was declared. A constant has the declared sort.
pub proof fn lemma_input_declared(before: ContextView, declaration: InputDeclarationView)
    requires
        before.wf(),
    ensures
        ({
            let after = input_declared(before, declaration);
            &&& after.wf()
            &&& predicates_kept(before.predicate_declarations, after.predicate_declarations)
            &&& functions_kept(before.function_declarations, after.function_declarations)
            &&& has_input(after, declaration)
            &&& declaration matches InputDeclarationView::Constant { name, domain }
                ==> after.function_declarations[handle_of_function(
                after.function_declarations,
                name,
                0,
            )].domain == domain
        }),
{
    let after = input_declared(before, declaration);
    match declaration {
        InputDeclarationView::Predicate { name, arity } => {
            let table = before.predicate_declarations;
            let updated = after.predicate_declarations;
            if declares_predicate(table, name, arity) {
                let handle = handle_of_predicate(table, name, arity);
                assert(updated[handle].matches_signature(name, arity) && updated[handle].is_input);
                assert forall|i: int, j: int| 0 <= i < j < updated.len() implies !(
                #[trigger] updated[i]).matches_signature(
                    (#[trigger] updated[j]).name,
                    updated[j].arity,
                ) by {
                    assert(updated[i].name == table[i].name && updated[i].arity == table[i].arity);
                    assert(updated[j].name == table[j].name && updated[j].arity == table[j].arity);
                }
            } else {
                let handle = table.len() as int;
                assert(updated[handle].matches_signature(name, arity) && updated[handle].is_input);
                assert forall|i: int, j: int| 0 <= i < j < updated.len() implies !(
                #[trigger] updated[i]).matches_signature(
                    (#[trigger] updated[j]).name,
                    updated[j].arity,
                ) by {
                    if j == table.len() {
                        assert(updated[i] == table[i]);
                    } else {
                        assert(updated[i] == table[i] && updated[j] == table[j]);
                    }
                }
            }
            assert forall|predicate: usize| #[trigger]
                after.definitions.contains_key(predicate) implies predicate < updated.len()
                && after.definitions[predicate].head_atom_parameters.len()
                == updated[predicate as int].arity by {
                assert(before.definitions.contains_key(predicate));
            }
        },
        InputDeclarationView::Constant { name, domain } => {
            let table = before.function_declarations;
            let updated = after.function_declarations;
            if declares_function(table, name, 0) {
                let handle = handle_of_function(table, name, 0);
                assert(updated[handle].matches_signature(name, 0) && updated[handle].is_input);
                assert forall|i: int, j: int| 0 <= i < j < updated.len() implies !(
                #[trigger] updated[i]).matches_signature(
                    (#[trigger] updated[j]).name,
                    updated[j].arity,
                ) by {
                    assert(updated[i].name == table[i].name && updated[i].arity == table[i].arity);
                    assert(updated[j].name == table[j].name && updated[j].arity == table[j].arity);
                }
                lemma_function_handles(
                    updated,
                    handle,
                    handle_of_function(updated, name, 0),
                );
            } else {
                let handle = table.len() as int;
                assert(updated[handle].matches_signature(name, 0) && updated[handle].is_input);
                assert forall|i: int, j: int| 0 <= i < j < updated.len() implies !(
                #[trigger] updated[i]).matches_signature(
                    (#[trigger] updated[j]).name,
                    updated[j].arity,
                ) by {
                    if j == table.len() {
                        assert(updated[i] == table[i]);
                    } else {
                        assert(updated[i] == table[i] && updated[j] == table[j]);
                    }
                }
                lemma_function_handles(
                    updated,
                    handle,
                    handle_of_function(updated, name, 0),
                );
            }
        },
    }
}

/// What an `input` statement declares is found in the tables from then on: after the statement,
/// the state has each of its declarations, and the tables hold what they held before.
pub proof fn lemma_inputs_declared(
    before: ContextView,
    declarations: Seq<InputDeclarationView>,
    position: int,
)
    requires
        before.wf(),
        0 <= position < declarations.len(),
    ensures
        ({
            let after = inputs_declared(before, declarations);
            &&& after.wf()
            &&& predicates_kept(before.predicate_declarations, after.predicate_declarations)
            &&& functions_kept(before.function_declarations, after.function_declarations)
            &&& has_input(after, declarations[position])
        }),
    decreases declarations.len(),
{
    let earlier = inputs_declared(before, declarations.drop_last());
    let after = inputs_declared(before, declarations);
    if declarations.len() > 1 {
        lemma_inputs_declared(
            before,
            declarations.drop_last(),
            if position < declarations.len() - 1 {
                position
            } else {
                0
            },
        );
    }
    lemma_input_declared(earlier, declarations.last());
    if position < declarations.len() - 1 {
        assert(declarations.drop_last()[position] == declarations[position]);
        match declarations[position] {
            InputDeclarationView::Predicate { name, arity } => {
                let handle = choose|handle: int|
                    0 <= handle < earlier.predicate_declarations.len() && (
                    #[trigger] earlier.predicate_declarations[handle]).matches_signature(
                        name,
                        arity,
                    ) && earlier.predicate_declarations[handle].is_input;
                assert(after.predicate_declarations[handle].matches_signature(name, arity));
            },
            InputDeclarationView::Constant { name, domain } => {
                let handle = choose|handle: int|
                    0 <= handle < earlier.function_declarations.len() && (
                    #[trigger] earlier.function_declarations[handle]).matches_signature(name, 0)
                        && earlier.function_declarations[handle].is_input;
                assert(after.function_declarations[handle].matches_signature(name, 0));
            },
        }
    }
    assert forall|handle: int|
        0 <= handle < before.predicate_declarations.len() implies (
    #[trigger] after.predicate_declarations[handle]).matches_signature(
        before.predicate_declarations[handle].name,
        before.predicate_declarations[handle].arity,
    ) && (before.predicate_declarations[handle].is_input
        ==> after.predicate_declarations[handle].is_input) by {
        assert(earlier.predicate_declarations[handle].matches_signature(
            before.predicate_declarations[handle].name,
            before.predicate_declarations[handle].arity,
        ));
    }
    assert forall|handle: int|
        0 <= handle < before.function_declarations.len() implies (
    #[trigger] after.function_declarations[handle]).matches_signature(
        before.function_declarations[handle].name,
        before.function_declarations[handle].arity,
    ) && (before.function_declarations[handle].is_input
        ==> after.function_declarations[handle].is_input) by {
        assert(earlier.function_declarations[handle].matches_signature(
            before.function_declarations[handle].name,
            before.function_declarations[handle].arity,
        ));
    }
}

/// A predicate or constant that a specification declared as input is the one that a later
/// lookup by name and arity finds: the lookup declares nothing, and what it finds is marked as
/// input.
pub proof fn lemma_input_found_again(
    context: ContextView,
    declaration: InputDeclarationView,
    predicates: Seq<PredicateDeclarationView>,
    functions: Seq<FunctionDeclarationView>,
    handle: usize,
)
    requires
        context.wf(),
        has_input(context, declaration),
        match declaration {
            InputDeclarationView::Predicate { name, arity } => predicate_interned(
                context.predicate_declarations,
                name,
                arity,
                predicates,
                handle,
            ),
            InputDeclarationView::Constant { name, domain } => function_interned(
                context.function_declarations,
                name,
                0,
                functions,
                handle,
            ),
        },
    ensures
        match declaration {
            InputDeclarationView::Predicate { name, arity } => predicates
                == context.predicate_declarations && predicates[handle as int].is_input,
            InputDeclarationView::Constant { name, domain } => functions
                == context.function_declarations && functions[handle as int].is_input,
        },
{
    match declaration {
        InputDeclarationView::Predicate { name, arity } => {
            let found = choose|found: int|
                0 <= found < context.predicate_declarations.len() && (
                #[trigger] context.predicate_declarations[found]).matches_signature(name, arity)
                    && context.predicate_declarations[found].is_input;
            assert(declares_predicate(context.predicate_declarations, name, arity));
            lemma_predicate_handles(
                context.predicate_declarations,
                found,
                handle as int,
            );
        },
        InputDeclarationView::Constant { name, domain } => {
            let found = choose|found: int|
                0 <= found < context.function_declarations.len() && (
                #[trigger] context.function_declarations[found]).matches_signature(name, 0)
                    && context.function_declarations[found].is_input;
            assert(declares_function(context.function_declarations, name, 0));
            lemma_function_handles(
                context.function_declarations,
                found,
                handle as int,
            );
        },
    }
}


/// Where one step of reading a specification leads: where reading on leads, and the statements
/// that the problem then has.
pub struct SpecificationStep {
    pub advance: Advance,
    pub statements: Seq<StatementView>,
}

/// One step of reading a specification. The formula that the step before asked for, if it asked
/// for one, is taken in as a statement of its kind: the sorts of its variables are recorded, and
/// the statement is added to those of the problem. Then the text is read on. A formula that is
/// rejected ends the step with its error, and the text is not read on.
pub open spec fn specification_parsed(
    text: Seq<char>,
    position: int,
    context: ContextView,
    statements: Seq<StatementView>,
    parsed: Option<(StatementKind, ScopedFormulaView)>,
) -> SpecificationStep {
    match parsed {
        None => SpecificationStep { advance: advanced(text, position, context), statements },
        Some((kind, formula)) => {
            let taken_in = variable_free_formula_of(context, formula);
            match taken_in.1 {
                Ok(closed) => SpecificationStep {
                    advance: advanced(text, position, taken_in.0),
                    statements: statements.push(StatementView { kind, formula: closed }),
                },
                Err(error) => SpecificationStep {
                    advance: Advance { context: taken_in.0, position, result: Err(error) },
                    statements,
                },
            }
        },
    }
}

/// Reads a specification, one step at a time: up to the next formula, which the formula parser
/// has to parse, or to the end. `parsed` hands over the formula that the step before asked for,
/// with the kind of its statement and the variables that are free in it; the first step gets
/// `None`. The caller parses the text of each `Step::Formula` and calls again, until a step ends
/// with `Step::Finished` or an error.
pub fn parse_specification(
    parser: &mut SpecificationParser,
    problem: &mut Problem,
    parsed: Option<(StatementKind, ScopedFormula)>,
) -> (result: Result<Step, Error>)
    requires
        old(parser).wf(),
        old(problem).wf(),
    ensures
        final(parser).wf(),
        final(problem).wf(),
        final(parser).text() == old(parser).text(),
        ({
            let expected = specification_parsed(
                old(parser).text(),
                old(parser).position(),
                old(problem).context@,
                statements_view(old(problem).statements@),
                match parsed {
                    Some((kind, formula)) => Some((kind, formula@)),
                    None => None,
                },
            );
            &&& final(problem).context@ == expected.advance.context
            &&& final(parser).position() == expected.advance.position
            &&& statements_view(final(problem).statements@) == expected.statements
            &&& match expected.advance.result {
                Ok(step) => result matches Ok(read) && read@ == step,
                Err(error) => result matches Err(read) && read@ == error,
            }
        }),
{
    match parsed {
        Some((kind, formula)) => {
            match problem.add_formula_statement(kind, formula) {
                Ok(()) => {},
                Err(error) => {
                    return Err(error);
                },
            }
        },
        None => {},
    }
    parser.advance(&mut problem.context)
}

} // verus!
