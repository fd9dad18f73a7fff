//! The errors that translation and specification reading report.

use vstd::prelude::*;

verus! {

/// What went wrong.
#[derive(Clone, Debug, PartialEq, Eq)]
pub enum Kind {
    /// An invariant of the translation was violated, which points to a bug.
    Logic(&'static str),
    /// The input uses a construct that the translation does not model.
    UnsupportedLanguageFeature(&'static str),
    NotYetImplemented(&'static str),
    /// An identifier of the input program could not be decoded.
    DecodeIdentifier,
    /// A variable's name does not tell its sort.
    VariableNameNotAllowed(String),
    ExpectedStatement,
    ExpectedColon,
    ExpectedIdentifier,
    UnknownStatement(String),
    UnknownProofDirection(String),
    UnknownDomainIdentifier(String),
    UnmatchedParenthesis,
    MissingStatementTerminator,
    ParseFormula,
    ParsePredicateDeclaration,
    /// A formula that has to be closed has free variables.
    FreeVariables,
}

/// A `Kind` with its texts as character sequences.
pub enum KindView {
    Logic(Seq<char>),
    UnsupportedLanguageFeature(Seq<char>),
    NotYetImplemented(Seq<char>),
    DecodeIdentifier,
    VariableNameNotAllowed(Seq<char>),
    ExpectedStatement,
    ExpectedColon,
    ExpectedIdentifier,
    UnknownStatement(Seq<char>),
    UnknownProofDirection(Seq<char>),
    UnknownDomainIdentifier(Seq<char>),
    UnmatchedParenthesis,
    MissingStatementTerminator,
    ParseFormula,
    ParsePredicateDeclaration,
    FreeVariables,
}

impl View for Kind {
    type V = KindView;

    open spec fn view(&self) -> KindView {
        match *self {
            Kind::Logic(description) => KindView::Logic(description@),
            Kind::UnsupportedLanguageFeature(description) => KindView::UnsupportedLanguageFeature(
                description@,
            ),
            Kind::NotYetImplemented(description) => KindView::NotYetImplemented(description@),
            Kind::DecodeIdentifier => KindView::DecodeIdentifier,
            Kind::VariableNameNotAllowed(name) => KindView::VariableNameNotAllowed(name@),
            Kind::ExpectedStatement => KindView::ExpectedStatement,
            Kind::ExpectedColon => KindView::ExpectedColon,
            Kind::ExpectedIdentifier => KindView::ExpectedIdentifier,
            Kind::UnknownStatement(name) => KindView::UnknownStatement(name@),
            Kind::UnknownProofDirection(name) => KindView::UnknownProofDirection(name@),
            Kind::UnknownDomainIdentifier(name) => KindView::UnknownDomainIdentifier(name@),
            Kind::UnmatchedParenthesis => KindView::UnmatchedParenthesis,
            Kind::MissingStatementTerminator => KindView::MissingStatementTerminator,
            Kind::ParseFormula => KindView::ParseFormula,
            Kind::ParsePredicateDeclaration => KindView::ParsePredicateDeclaration,
            Kind::FreeVariables => KindView::FreeVariables,
        }
    }
}

/// An error: its kind and, where another error caused it, that error's message.
#[derive(Clone, Debug, PartialEq, Eq)]
pub struct Error {
    pub kind: Kind,
    pub source: Option<String>,
}

/// An `Error` with its texts as character sequences.
pub struct ErrorView {
    pub kind: KindView,
    pub source: Option<Seq<char>>,
}

impl View for Error {
    type V = ErrorView;

    open spec fn view(&self) -> ErrorView {
        ErrorView {
            kind: self.kind@,
            source: match self.source {
                Some(source) => Some(source@),
                None => None,
            },
        }
    }
}

impl ErrorView {
    /// An error of the given kind that no other error caused.
    pub open spec fn of_kind(kind: KindView) -> ErrorView {
        ErrorView { kind, source: None }
    }
}

/// The text that describes a kind of error.
pub open spec fn kind_message(kind: KindView) -> Seq<char> {
    match kind {
        KindView::Logic(description) => "logic error, please report to bug tracker ("@
            + description + ")"@,
        KindView::UnsupportedLanguageFeature(description) => "language feature not yet supported ("@
            + description + ")"@,
        KindView::NotYetImplemented(description) => "not yet implemented ("@ + description + ")"@,
        KindView::DecodeIdentifier => "could not decode identifier"@,
        KindView::VariableNameNotAllowed(name) => "variable name \""@ + name
            + "\" not allowed (program variables must start with X, Y, or Z and integer variables with I, J, K, L, M, or N)"@,
        KindView::ExpectedStatement => "expected statement (axiom, assert, assume, input, lemma)"@,
        KindView::ExpectedColon => "expected ':'"@,
        KindView::ExpectedIdentifier => "expected constant or predicate name"@,
        KindView::UnknownStatement(name) => "unknown statement \""@ + name
            + "\" (allowed statements: axiom, assert, assume, input, lemma)"@,
        KindView::UnknownProofDirection(name) => "unknown proof direction \""@ + name
            + "\" (allowed: forward, backward, both)"@,
        KindView::UnknownDomainIdentifier(name) => "unknown domain identifier \""@ + name
            + "\" (allowed: integer, program)"@,
        KindView::UnmatchedParenthesis => "unmatched parenthesis"@,
        KindView::MissingStatementTerminator => "statement not terminated with '.' character"@,
        KindView::ParseFormula => "could not parse formula"@,
        KindView::ParsePredicateDeclaration => "could not parse predicate declaration"@,
        KindView::FreeVariables => "formula may not contain free variables"@,
    }
}

/// The text that describes an error: that of its kind and, on a line of its own, its source.
pub open spec fn error_message(error: ErrorView) -> Seq<char> {
    match error.source {
        Some(source) => kind_message(error.kind) + "\nerror source: "@ + source,
        None => kind_message(error.kind),
    }
}

impl Kind {
    /// Describes this kind of error.
    pub fn message(&self) -> (text: String)
        ensures
            text@ == kind_message(self@),
    {
        match self {
            Kind::Logic(description) => String::from_str(
                "logic error, please report to bug tracker (",
            ).concat(description).concat(")"),
            Kind::UnsupportedLanguageFeature(description) => String::from_str(
                "language feature not yet supported (",
            ).concat(description).concat(")"),
            Kind::NotYetImplemented(description) => String::from_str(
                "not yet implemented (",
            ).concat(description).concat(")"),
            Kind::DecodeIdentifier => String::from_str("could not decode identifier"),
            Kind::VariableNameNotAllowed(name) => String::from_str("variable name \"").concat(
                name.as_str(),
            ).concat(
                "\" not allowed (program variables must start with X, Y, or Z and integer variables with I, J, K, L, M, or N)",
            ),
            Kind::ExpectedStatement => String::from_str(
                "expected statement (axiom, assert, assume, input, lemma)",
            ),
            Kind::ExpectedColon => String::from_str("expected ':'"),
            Kind::ExpectedIdentifier => String::from_str("expected constant or predicate name"),
            Kind::UnknownStatement(name) => String::from_str("unknown statement \"").concat(
                name.as_str(),
            ).concat("\" (allowed statements: axiom, assert, assume, input, lemma)"),
            Kind::UnknownProofDirection(name) => String::from_str(
                "unknown proof direction \"",
            ).concat(name.as_str()).concat("\" (allowed: forward, backward, both)"),
            Kind::UnknownDomainIdentifier(name) => String::from_str(
                "unknown domain identifier \"",
            ).concat(name.as_str()).concat("\" (allowed: integer, program)"),
            Kind::UnmatchedParenthesis => String::from_str("unmatched parenthesis"),
            Kind::MissingStatementTerminator => String::from_str(
                "statement not terminated with '.' character",
            ),
            Kind::ParseFormula => String::from_str("could not parse formula"),
            Kind::ParsePredicateDeclaration => String::from_str(
                "could not parse predicate declaration",
            ),
            Kind::FreeVariables => String::from_str("formula may not contain free variables"),
        }
    }
}

impl Error {
    /// An error of the given kind that no other error caused.
    pub fn new(kind: Kind) -> (error: Error)
        ensures
            error@ == ErrorView::of_kind(kind@),
            error.kind == kind,
            error.source is None,
    {
        Error { kind, source: None }
    }

    /// This error, caused by another error with the given message.
    pub fn with(self, source: String) -> (error: Error)
        ensures
            error@ == (ErrorView { kind: self@.kind, source: Some(source@) }),
            error.kind == self.kind,
            error.source == Some(source),
    {
        Error { kind: self.kind, source: Some(source) }
    }

    pub fn new_logic(description: &'static str) -> (error: Error)
        ensures
            error@ == ErrorView::of_kind(KindView::Logic(description@)),
    {
        Error::new(Kind::Logic(description))
    }

    pub fn new_unsupported_language_feature(description: &'static str) -> (error: Error)
        ensures
            error@ == ErrorView::of_kind(KindView::UnsupportedLanguageFeature(description@)),
    {
        Error::new(Kind::UnsupportedLanguageFeature(description))
    }

    pub fn new_not_yet_implemented(description: &'static str) -> (error: Error)
        ensures
            error@ == ErrorView::of_kind(KindView::NotYetImplemented(description@)),
    {
        Error::new(Kind::NotYetImplemented(description))
    }

    /// An identifier could not be decoded; `source` is what the decoder reported.
    pub fn new_decode_identifier(source: String) -> (error: Error)
        ensures
            error@ == (ErrorView { kind: KindView::DecodeIdentifier, source: Some(source@) }),
    {
        Error::new(Kind::DecodeIdentifier).with(source)
    }

    pub fn new_variable_name_not_allowed(name: String) -> (error: Error)
        ensures
            error@ == ErrorView::of_kind(KindView::VariableNameNotAllowed(name@)),
    {
        Error::new(Kind::VariableNameNotAllowed(name))
    }

    pub fn new_expected_statement() -> (error: Error)
        ensures
            error@ == ErrorView::of_kind(KindView::ExpectedStatement),
    {
        Error::new(Kind::ExpectedStatement)
    }

    pub fn new_expected_colon() -> (error: Error)
        ensures
            error@ == ErrorView::of_kind(KindView::ExpectedColon),
    {
        Error::new(Kind::ExpectedColon)
    }

    pub fn new_expected_identifier() -> (error: Error)
        ensures
            error@ == ErrorView::of_kind(KindView::ExpectedIdentifier),
    {
        Error::new(Kind::ExpectedIdentifier)
    }

    pub fn new_unknown_statement(name: String) -> (error: Error)
        ensures
            error@ == ErrorView::of_kind(KindView::UnknownStatement(name@)),
    {
        Error::new(Kind::UnknownStatement(name))
    }

    pub fn new_unknown_proof_direction(name: String) -> (error: Error)
        ensures
            error@ == ErrorView::of_kind(KindView::UnknownProofDirection(name@)),
    {
        Error::new(Kind::UnknownProofDirection(name))
    }

    pub fn new_unknown_domain_identifier(name: String) -> (error: Error)
        ensures
            error@ == ErrorView::of_kind(KindView::UnknownDomainIdentifier(name@)),
    {
        Error::new(Kind::UnknownDomainIdentifier(name))
    }

    pub fn new_unmatched_parenthesis() -> (error: Error)
        ensures
            error@ == ErrorView::of_kind(KindView::UnmatchedParenthesis),
    {
        Error::new(Kind::UnmatchedParenthesis)
    }

    pub fn new_missing_statement_terminator() -> (error: Error)
        ensures
            error@ == ErrorView::of_kind(KindView::MissingStatementTerminator),
    {
        Error::new(Kind::MissingStatementTerminator)
    }

    /// A formula could not be parsed; `source` is what the formula parser reported.
    pub fn new_parse_formula(source: String) -> (error: Error)
        ensures
            error@ == (ErrorView { kind: KindView::ParseFormula, source: Some(source@) }),
    {
        Error::new(Kind::ParseFormula).with(source)
    }

    pub fn new_parse_predicate_declaration() -> (error: Error)
        ensures
            error@ == ErrorView::of_kind(KindView::ParsePredicateDeclaration),
    {
        Error::new(Kind::ParsePredicateDeclaration)
    }

    pub fn new_free_variables() -> (error: Error)
        ensures
            error@ == ErrorView::of_kind(KindView::FreeVariables),
    {
        Error::new(Kind::FreeVariables)
    }

    /// Describes this error and, where it has one, its source.
    pub fn message(&self) -> (text: String)
        ensures
            text@ == error_message(self@),
    {
        let text = self.kind.message();
        match &self.source {
            Some(source) => text.concat("\nerror source: ").concat(source.as_str()),
            None => text,
        }
    }
}

} // verus!
