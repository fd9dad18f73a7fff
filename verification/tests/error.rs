use anthem::error::{Error, Kind};
use anthem::text::decimal_string;

#[test]
fn new_error_has_no_source() {
    let error = Error::new(Kind::DecodeIdentifier);
    assert_eq!(error.kind, Kind::DecodeIdentifier);
    assert_eq!(error.source, None);
}

#[test]
fn with_sets_the_source() {
    let error = Error::new(Kind::ParseFormula).with("unexpected end".to_string());
    assert_eq!(error.kind, Kind::ParseFormula);
    assert_eq!(error.source, Some("unexpected end".to_string()));
}

#[test]
fn constructors_give_their_kinds() {
    assert_eq!(Error::new_logic("a").kind, Kind::Logic("a"));
    assert_eq!(
        Error::new_unsupported_language_feature("b").kind,
        Kind::UnsupportedLanguageFeature("b")
    );
    assert_eq!(Error::new_not_yet_implemented("c").kind, Kind::NotYetImplemented("c"));
    let decode = Error::new_decode_identifier("invalid utf-8".to_string());
    assert_eq!(decode.kind, Kind::DecodeIdentifier);
    assert_eq!(decode.source, Some("invalid utf-8".to_string()));
    assert_eq!(
        Error::new_variable_name_not_allowed("A".to_string()).kind,
        Kind::VariableNameNotAllowed("A".to_string())
    );
    assert_eq!(Error::new_expected_statement().kind, Kind::ExpectedStatement);
    assert_eq!(Error::new_expected_colon().kind, Kind::ExpectedColon);
    assert_eq!(Error::new_expected_identifier().kind, Kind::ExpectedIdentifier);
    assert_eq!(
        Error::new_unknown_statement("axioms".to_string()).kind,
        Kind::UnknownStatement("axioms".to_string())
    );
    assert_eq!(
        Error::new_unknown_proof_direction("up".to_string()).kind,
        Kind::UnknownProofDirection("up".to_string())
    );
    assert_eq!(
        Error::new_unknown_domain_identifier("int".to_string()).kind,
        Kind::UnknownDomainIdentifier("int".to_string())
    );
    assert_eq!(Error::new_unmatched_parenthesis().kind, Kind::UnmatchedParenthesis);
    assert_eq!(Error::new_missing_statement_terminator().kind, Kind::MissingStatementTerminator);
    let parse = Error::new_parse_formula("bad".to_string());
    assert_eq!(parse.kind, Kind::ParseFormula);
    assert_eq!(parse.source, Some("bad".to_string()));
    assert_eq!(Error::new_parse_predicate_declaration().kind, Kind::ParsePredicateDeclaration);
    assert_eq!(Error::new_free_variables().kind, Kind::FreeVariables);
}

#[test]
fn messages_of_the_translation_errors() {
    assert_eq!(
        Error::new_logic("inconsistent variable declaration domain").message(),
        "logic error, please report to bug tracker (inconsistent variable declaration domain)"
    );
    assert_eq!(
        Error::new_unsupported_language_feature("aggregates with guards").message(),
        "language feature not yet supported (aggregates with guards)"
    );
    assert_eq!(
        Error::new_not_yet_implemented("disjunctions").message(),
        "not yet implemented (disjunctions)"
    );
    assert_eq!(Error::new(Kind::DecodeIdentifier).message(), "could not decode identifier");
}

#[test]
fn messages_of_the_specification_errors() {
    assert_eq!(
        Error::new_variable_name_not_allowed("A".to_string()).message(),
        "variable name \"A\" not allowed (program variables must start with X, Y, or Z and integer variables with I, J, K, L, M, or N)"
    );
    assert_eq!(
        Error::new_expected_statement().message(),
        "expected statement (axiom, assert, assume, input, lemma)"
    );
    assert_eq!(Error::new_expected_colon().message(), "expected ':'");
    assert_eq!(Error::new_expected_identifier().message(), "expected constant or predicate name");
    assert_eq!(
        Error::new_unknown_statement("axioms".to_string()).message(),
        "unknown statement \"axioms\" (allowed statements: axiom, assert, assume, input, lemma)"
    );
    assert_eq!(
        Error::new_unknown_proof_direction("up".to_string()).message(),
        "unknown proof direction \"up\" (allowed: forward, backward, both)"
    );
    assert_eq!(
        Error::new_unknown_domain_identifier("int".to_string()).message(),
        "unknown domain identifier \"int\" (allowed: integer, program)"
    );
    assert_eq!(Error::new_unmatched_parenthesis().message(), "unmatched parenthesis");
    assert_eq!(
        Error::new_missing_statement_terminator().message(),
        "statement not terminated with '.' character"
    );
    assert_eq!(Error::new(Kind::ParseFormula).message(), "could not parse formula");
    assert_eq!(
        Error::new_parse_predicate_declaration().message(),
        "could not parse predicate declaration"
    );
    assert_eq!(Error::new_free_variables().message(), "formula may not contain free variables");
}

#[test]
fn message_shows_the_source_on_a_line_of_its_own() {
    let error = Error::new_decode_identifier("invalid utf-8 sequence".to_string());
    assert_eq!(
        error.message(),
        "could not decode identifier\nerror source: invalid utf-8 sequence"
    );
    assert_eq!(error.kind.message(), "could not decode identifier");
}

#[test]
fn decimal_numerals() {
    assert_eq!(decimal_string(0), "0");
    assert_eq!(decimal_string(7), "7");
    assert_eq!(decimal_string(10), "10");
    assert_eq!(decimal_string(909), "909");
    assert_eq!(decimal_string(1234567890), "1234567890");
    assert_eq!(decimal_string(u128::MAX), u128::MAX.to_string());
}
