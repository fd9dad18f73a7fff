use anthem::domain::Domain;
use anthem::error::{Error, Kind};
use anthem::input::specification::{
    closed_formula,
    formula_assign_variable_declaration_domains,
    input_statement_body,
    parse_specification,
    term_assign_variable_declaration_domains,
    variable_free_formula,
    InputDeclaration,
    SpecificationParser,
    StatementSource,
    Step,
};
use anthem::ast::{BinaryOperator, ComparisonOperator, UnaryOperator};
use anthem::{
    Context,
    Formula,
    Problem,
    ProofDirection,
    ScopedFormula,
    SectionKind,
    Statement,
    StatementKind,
    Term,
};

fn statements(input: &str) -> Result<Vec<StatementSource>, Error> {
    let mut parser = SpecificationParser::new(input);
    let mut statements = vec![];
    while let Some(statement) = parser.next_statement()? {
        statements.push(statement);
    }
    assert!(parser.is_finished());
    Ok(statements)
}

fn formula(kind: StatementKind, formula: &str) -> StatementSource {
    StatementSource::Formula { kind, formula: formula.to_string() }
}

fn predicate(name: &str, arity: usize) -> InputDeclaration {
    InputDeclaration::Predicate { name: name.to_string(), arity }
}

fn constant(name: &str, domain: Domain) -> InputDeclaration {
    InputDeclaration::Constant { name: name.to_string(), domain }
}

fn input(declarations: Vec<InputDeclaration>) -> StatementSource {
    StatementSource::Input { declarations }
}

fn error_kind(input: &str) -> Kind {
    statements(input).unwrap_err().kind
}

/// p(a), over the declarations of the context
fn p_of_a(context: &mut Context) -> Formula {
    let p = context.get_or_create_predicate_declaration("p", 1);
    let a = context.get_or_create_function_declaration("a", 0);
    Formula::Predicate {
        declaration: p,
        arguments: vec![Term::Function { declaration: a, arguments: vec![] }],
    }
}

#[test]
fn axiom_without_free_variables_succeeds() {
    let mut problem = Problem::new();
    let mut parser = SpecificationParser::new("axiom: p(a).");
    let step = parser.advance(&mut problem.context).unwrap();
    assert_eq!(step, Step::Formula { kind: StatementKind::Axiom, formula: " p(a)".to_string() });
    let formula = p_of_a(&mut problem.context);
    let scoped = ScopedFormula { free_variable_declarations: vec![], formula };
    problem.add_formula_statement(StatementKind::Axiom, scoped).unwrap();
    assert_eq!(parser.advance(&mut problem.context).unwrap(), Step::Finished);
    assert_eq!(problem.statements.len(), 1);
    assert_eq!(problem.statements[0].kind, StatementKind::Axiom);
    assert_eq!(problem.statements[0].formula, p_of_a(&mut problem.context));
}

#[test]
fn axiom_with_free_variable_fails() {
    let mut problem = Problem::new();
    let mut parser = SpecificationParser::new("axiom: p(X).");
    let step = parser.advance(&mut problem.context).unwrap();
    assert_eq!(step, Step::Formula { kind: StatementKind::Axiom, formula: " p(X)".to_string() });
    let p = problem.context.get_or_create_predicate_declaration("p", 1);
    let x = problem.context.get_or_create_variable_declaration("X");
    let scoped = ScopedFormula {
        free_variable_declarations: vec![x],
        formula: Formula::Predicate { declaration: p, arguments: vec![Term::Variable(x)] },
    };
    let error = problem.add_formula_statement(StatementKind::Axiom, scoped).unwrap_err();
    assert_eq!(error.kind, Kind::FreeVariables);
    assert!(problem.statements.is_empty());
    // the variable's sort is recorded all the same
    assert_eq!(problem.context.variable_declaration_domain(x), Some(Domain::Program));
}

#[test]
fn lemma_records_its_direction() {
    assert_eq!(
        statements("lemma(forward): p(a) -> q(a).").unwrap(),
        vec![formula(StatementKind::Lemma(ProofDirection::Forward), " p(a) -> q(a)")]
    );
    assert_eq!(
        statements("lemma(backward): p.").unwrap(),
        vec![formula(StatementKind::Lemma(ProofDirection::Backward), " p")]
    );
    assert_eq!(
        statements("lemma(both): p.").unwrap(),
        vec![formula(StatementKind::Lemma(ProofDirection::Both), " p")]
    );
    assert_eq!(
        statements("lemma ( forward ) : p.").unwrap(),
        vec![formula(StatementKind::Lemma(ProofDirection::Forward), " p")]
    );
}

#[test]
fn lemma_direction_defaults_to_both() {
    assert_eq!(
        statements("lemma: p(a).").unwrap(),
        vec![formula(StatementKind::Lemma(ProofDirection::Both), " p(a)")]
    );
    assert_eq!(
        statements("lemma  :p(a).").unwrap(),
        vec![formula(StatementKind::Lemma(ProofDirection::Both), "p(a)")]
    );
    assert_eq!(
        statements("lemma(): p(a).").unwrap(),
        vec![formula(StatementKind::Lemma(ProofDirection::Both), " p(a)")]
    );
}

#[test]
fn input_declares_predicates_and_constants() {
    assert_eq!(
        statements("input: p/2, c -> integer.").unwrap(),
        vec![input(vec![predicate("p", 2), constant("c", Domain::Integer)])]
    );
    let mut context = Context::new();
    let mut parser = SpecificationParser::new("input: p/2, c -> integer.");
    assert_eq!(parser.advance(&mut context).unwrap(), Step::Finished);
    let p = context.predicate_declarations().find("p", 2).unwrap();
    assert!(context.predicate_declarations().get(p).unwrap().is_input);
    assert!(!context.predicate_declarations().get(p).unwrap().is_output);
    let c = context.function_declarations().find("c", 0).unwrap();
    assert!(context.function_declarations().get(c).unwrap().is_input);
    assert_eq!(context.function_declarations().get(c).unwrap().domain, Domain::Integer);
    assert_eq!(context.predicate_declarations().len(), 1);
    assert_eq!(context.function_declarations().len(), 1);
}

#[test]
fn input_with_missing_comma_fails() {
    assert_eq!(error_kind("input: p/2 q/1."), Kind::MissingStatementTerminator);
    let mut context = Context::new();
    let mut parser = SpecificationParser::new("input: p/2 q/1.");
    let error = parser.advance(&mut context).unwrap_err();
    assert_eq!(error.kind, Kind::MissingStatementTerminator);
    // nothing of the statement is kept
    assert_eq!(context.predicate_declarations().len(), 0);
}

#[test]
fn input_declarations_in_all_forms() {
    assert_eq!(
        statements("input: c, d -> program, e->integer, n / 0 , q_1/12\n.").unwrap(),
        vec![input(vec![
            constant("c", Domain::Program),
            constant("d", Domain::Program),
            constant("e", Domain::Integer),
            predicate("n", 0),
            predicate("q_1", 12),
        ])]
    );
    assert_eq!(statements("input:c.").unwrap(), vec![input(vec![constant("c", Domain::Program)])]);
    assert_eq!(statements("input : p/007 .").unwrap(), vec![input(vec![predicate("p", 7)])]);
}

#[test]
fn no_white_space_between_a_domain_and_the_comma() {
    assert_eq!(error_kind("input: c -> integer , d."), Kind::MissingStatementTerminator);
    assert_eq!(
        statements("input: c -> integer, d.").unwrap(),
        vec![input(vec![constant("c", Domain::Integer), constant("d", Domain::Program)])]
    );
    assert_eq!(
        statements("input: c -> integer .").unwrap(),
        vec![input(vec![constant("c", Domain::Integer)])]
    );
}

#[test]
fn statements_are_read_in_their_order() {
    let text = "  input: p/1.\naxiom: forall X p(X).\n assume: q. lemma(backward): r.\n\tassert: s.\n";
    assert_eq!(
        statements(text).unwrap(),
        vec![
            input(vec![predicate("p", 1)]),
            formula(StatementKind::Axiom, " forall X p(X)"),
            formula(StatementKind::Assumption, " q"),
            formula(StatementKind::Lemma(ProofDirection::Backward), " r"),
            formula(StatementKind::Assertion, " s"),
        ]
    );
}

#[test]
fn empty_specification_has_no_statements() {
    assert_eq!(statements("").unwrap(), vec![]);
    assert_eq!(statements(" \n\t \u{a0}\u{2003}").unwrap(), vec![]);
    let mut context = Context::new();
    assert_eq!(SpecificationParser::new("  ").advance(&mut context).unwrap(), Step::Finished);
}

#[test]
fn formula_ends_at_the_first_period() {
    assert_eq!(
        statements("axiom: p(1..2).").unwrap_err().kind,
        Kind::ExpectedStatement
    );
    let mut parser = SpecificationParser::new("axiom: p(1..2).");
    assert_eq!(
        parser.next_statement().unwrap(),
        Some(formula(StatementKind::Axiom, " p(1"))
    );
    assert_eq!(statements("axiom:.").unwrap(), vec![formula(StatementKind::Axiom, "")]);
}

#[test]
fn missing_statement_terminator() {
    assert_eq!(error_kind("axiom: p(a)"), Kind::MissingStatementTerminator);
    assert_eq!(error_kind("assert:"), Kind::MissingStatementTerminator);
    assert_eq!(error_kind("input: p/1"), Kind::MissingStatementTerminator);
    assert_eq!(error_kind("input: p/1, c;"), Kind::MissingStatementTerminator);
}

#[test]
fn missing_colon() {
    assert_eq!(error_kind("axiom p(a)."), Kind::ExpectedColon);
    assert_eq!(error_kind("assume"), Kind::ExpectedColon);
    assert_eq!(error_kind("lemma(forward) p."), Kind::ExpectedColon);
    assert_eq!(error_kind("input p/1."), Kind::ExpectedColon);
    assert_eq!(error_kind("assert."), Kind::ExpectedColon);
}

#[test]
fn expected_statement() {
    assert_eq!(error_kind(": p."), Kind::ExpectedStatement);
    assert_eq!(error_kind("axiom: p. 1"), Kind::ExpectedStatement);
    assert_eq!(error_kind("_axiom: p."), Kind::ExpectedStatement);
}

#[test]
fn unknown_statement() {
    assert_eq!(error_kind("axioms: p."), Kind::UnknownStatement("axioms".to_string()));
    assert_eq!(error_kind("Axiom: p."), Kind::UnknownStatement("Axiom".to_string()));
    assert_eq!(error_kind("output: p/1."), Kind::UnknownStatement("output".to_string()));
    assert_eq!(error_kind("axiom: p. x_1y"), Kind::UnknownStatement("x_1y".to_string()));
}

#[test]
fn unknown_proof_direction() {
    assert_eq!(
        error_kind("lemma(forwards): p."),
        Kind::UnknownProofDirection("forwards".to_string())
    );
    assert_eq!(error_kind("lemma( up ): p."), Kind::UnknownProofDirection("up".to_string()));
}

#[test]
fn unmatched_parenthesis() {
    assert_eq!(error_kind("lemma(forward: p."), Kind::UnmatchedParenthesis);
    assert_eq!(error_kind("lemma(: p."), Kind::UnmatchedParenthesis);
    assert_eq!(error_kind("lemma("), Kind::UnmatchedParenthesis);
    assert_eq!(error_kind("lemma(both both): p."), Kind::UnmatchedParenthesis);
}

#[test]
fn unknown_domain_identifier() {
    assert_eq!(
        error_kind("input: c -> int."),
        Kind::UnknownDomainIdentifier("int".to_string())
    );
    assert_eq!(
        error_kind("input: c -> Integer."),
        Kind::UnknownDomainIdentifier("Integer".to_string())
    );
}

#[test]
fn expected_identifier() {
    assert_eq!(error_kind("input: ."), Kind::ExpectedIdentifier);
    assert_eq!(error_kind("input: p/1, ."), Kind::ExpectedIdentifier);
    assert_eq!(error_kind("input: 1."), Kind::ExpectedIdentifier);
    assert_eq!(error_kind("input: _c."), Kind::ExpectedIdentifier);
    assert_eq!(error_kind("input: c -> ."), Kind::ExpectedIdentifier);
    assert_eq!(error_kind("input: c -> 1."), Kind::ExpectedIdentifier);
    assert_eq!(error_kind("input:"), Kind::ExpectedIdentifier);
}

#[test]
fn reserved_names_cannot_be_declared() {
    assert_eq!(error_kind("input: p__is_integer__/1."), Kind::ExpectedIdentifier);
    assert_eq!(error_kind("input: f__integer__."), Kind::ExpectedIdentifier);
    assert_eq!(error_kind("input: f__integer__ -> integer."), Kind::ExpectedIdentifier);
    // the reserved names of functions are free for predicates, and the other way round
    assert_eq!(
        statements("input: f__x__/1, p__x__.").unwrap(),
        vec![input(vec![predicate("f__x__", 1), constant("p__x__", Domain::Program)])]
    );
}

#[test]
fn predicate_declaration_needs_an_arity() {
    let error = statements("input: p/.").unwrap_err();
    assert_eq!(error.kind, Kind::ParsePredicateDeclaration);
    assert_eq!(error.source, None);
    assert_eq!(error_kind("input: p/q."), Kind::ParsePredicateDeclaration);
    assert_eq!(error_kind("input: p/-1."), Kind::ParsePredicateDeclaration);
    assert_eq!(error_kind("input: p/"), Kind::ParsePredicateDeclaration);
}

#[test]
fn arity_that_does_not_fit_is_rejected() {
    let error = statements("input: p/340282366920938463463374607431768211456.").unwrap_err();
    assert_eq!(error.kind, Kind::ParsePredicateDeclaration);
    assert_eq!(error.source, Some("number too large to fit in target type".to_string()));
    let largest = format!("input: p/{}.", usize::MAX);
    assert_eq!(statements(&largest).unwrap(), vec![input(vec![predicate("p", usize::MAX)])]);
    let too_large = format!("input: p/{}.", usize::MAX as u128 + 1);
    assert_eq!(statements(&too_large).unwrap_err().kind, Kind::ParsePredicateDeclaration);
}

#[test]
fn error_leaves_the_reader_where_it_was() {
    let mut parser = SpecificationParser::new("axiom: p. axiom q.");
    assert_eq!(parser.next_statement().unwrap(), Some(formula(StatementKind::Axiom, " p")));
    assert_eq!(parser.next_statement().unwrap_err().kind, Kind::ExpectedColon);
    assert_eq!(parser.next_statement().unwrap_err().kind, Kind::ExpectedColon);
    assert!(!parser.is_finished());
}

#[test]
fn advance_carries_out_input_statements_on_the_way() {
    let mut context = Context::new();
    let mut parser = SpecificationParser::new("input: p/1. input: q/2, c. assert: p(c). input: r/0.");
    assert_eq!(
        parser.advance(&mut context).unwrap(),
        Step::Formula { kind: StatementKind::Assertion, formula: " p(c)".to_string() }
    );
    assert_eq!(context.predicate_declarations().len(), 2);
    assert_eq!(context.function_declarations().len(), 1);
    assert_eq!(parser.advance(&mut context).unwrap(), Step::Finished);
    assert_eq!(context.predicate_declarations().len(), 3);
    assert_eq!(parser.advance(&mut context).unwrap(), Step::Finished);
}

#[test]
fn input_declarations_are_found_by_later_lookups() {
    let mut problem = Problem::new();
    let mut parser = SpecificationParser::new("input: p/1, a -> integer. axiom: p(a).");
    assert_eq!(
        parser.advance(&mut problem.context).unwrap(),
        Step::Formula { kind: StatementKind::Axiom, formula: " p(a)".to_string() }
    );
    let predicates = problem.context.predicate_declarations().len();
    let functions = problem.context.function_declarations().len();
    let p = problem.context.get_or_create_predicate_declaration("p", 1);
    let a = problem.context.get_or_create_function_declaration("a", 0);
    assert_eq!(problem.context.predicate_declarations().len(), predicates);
    assert_eq!(problem.context.function_declarations().len(), functions);
    assert!(problem.context.predicate_declarations().get(p).unwrap().is_input);
    assert!(problem.context.function_declarations().get(a).unwrap().is_input);
    assert_eq!(problem.context.function_declarations().get(a).unwrap().domain, Domain::Integer);
    let formula = p_of_a(&mut problem.context);
    problem
        .add_formula_statement(
            StatementKind::Axiom,
            ScopedFormula { free_variable_declarations: vec![], formula },
        )
        .unwrap();
    assert_eq!(parser.advance(&mut problem.context).unwrap(), Step::Finished);
}

#[test]
fn later_input_declaration_of_a_constant_sets_its_domain() {
    let mut context = Context::new();
    input_statement_body(
        &vec![
            constant("c", Domain::Integer),
            predicate("c", 0),
            constant("c", Domain::Program),
            predicate("c", 0),
        ],
        &mut context,
    );
    assert_eq!(context.function_declarations().len(), 1);
    assert_eq!(context.predicate_declarations().len(), 1);
    assert_eq!(context.function_declarations().get(0).unwrap().domain, Domain::Program);
    assert!(context.function_declarations().get(0).unwrap().is_input);
    assert!(context.predicate_declarations().get(0).unwrap().is_input);
}

#[test]
fn domains_are_assigned_to_the_variables_of_a_term() {
    let mut context = Context::new();
    let x = context.get_or_create_variable_declaration("X");
    let n = context.get_or_create_variable_declaration("N");
    let i = context.get_or_create_variable_declaration("_I");
    let unused = context.get_or_create_variable_declaration("Y");
    let f = context.get_or_create_function_declaration("f", 2);
    let term = Term::BinaryOperation {
        operator: BinaryOperator::Add,
        left: Box::new(Term::Function {
            declaration: f,
            arguments: vec![Term::Variable(x), Term::Integer(1)],
        }),
        right: Box::new(Term::UnaryOperation {
            operator: UnaryOperator::Negative,
            argument: Box::new(Term::BinaryOperation {
                operator: BinaryOperator::Multiply,
                left: Box::new(Term::Variable(n)),
                right: Box::new(Term::Variable(i)),
            }),
        }),
    };
    term_assign_variable_declaration_domains(&term, &mut context).unwrap();
    assert_eq!(context.variable_declaration_domain(x), Some(Domain::Program));
    assert_eq!(context.variable_declaration_domain(n), Some(Domain::Integer));
    assert_eq!(context.variable_declaration_domain(i), Some(Domain::Integer));
    assert_eq!(context.variable_declaration_domain(unused), None);
}

#[test]
fn domains_are_assigned_to_the_variables_of_a_formula() {
    let mut context = Context::new();
    let p = context.get_or_create_predicate_declaration("p", 1);
    let names = ["X", "Y", "Z", "I", "J", "K", "L", "M"];
    let v: Vec<usize> =
        names.iter().map(|name| context.get_or_create_variable_declaration(name)).collect();
    let atom = |variable: usize| Formula::Predicate {
        declaration: p,
        arguments: vec![Term::Variable(variable)],
    };
    let formula = Formula::ForAll {
        parameters: vec![v[0]],
        argument: Box::new(Formula::And(vec![
            atom(v[0]),
            Formula::Or(vec![Formula::Boolean(true), atom(v[1])]),
            Formula::IfAndOnlyIf(vec![atom(v[2]), Formula::Not(Box::new(atom(v[3])))]),
            Formula::Implies {
                antecedent: Box::new(atom(v[4])),
                implication: Box::new(Formula::Exists {
                    parameters: vec![v[5]],
                    argument: Box::new(atom(v[5])),
                }),
            },
            Formula::Compare {
                operator: ComparisonOperator::Less,
                left: Box::new(Term::Variable(v[6])),
                right: Box::new(Term::Variable(v[7])),
            },
        ])),
    };
    formula_assign_variable_declaration_domains(&formula, &mut context).unwrap();
    for (position, name) in names.iter().enumerate() {
        assert_eq!(
            context.variable_declaration_domain(v[position]),
            Some(Domain::from_variable_name(name).unwrap())
        );
    }
}

#[test]
fn first_variable_with_a_name_that_is_not_allowed_ends_the_run() {
    let mut context = Context::new();
    let p = context.get_or_create_predicate_declaration("p", 3);
    let x = context.get_or_create_variable_declaration("X");
    let a = context.get_or_create_variable_declaration("A");
    let n = context.get_or_create_variable_declaration("N");
    let formula = Formula::Predicate {
        declaration: p,
        arguments: vec![Term::Variable(x), Term::Variable(a), Term::Variable(n)],
    };
    let error = formula_assign_variable_declaration_domains(&formula, &mut context).unwrap_err();
    assert_eq!(error.kind, Kind::VariableNameNotAllowed("A".to_string()));
    assert_eq!(context.variable_declaration_domain(x), Some(Domain::Program));
    assert_eq!(context.variable_declaration_domain(a), None);
    assert_eq!(context.variable_declaration_domain(n), None);
}

#[test]
fn variable_without_declaration_is_a_logic_error() {
    let mut context = Context::new();
    let error =
        term_assign_variable_declaration_domains(&Term::Variable(7), &mut context).unwrap_err();
    assert_eq!(error.kind, Kind::Logic("variable without declaration"));
}

#[test]
fn recorded_domain_that_differs_from_the_name_is_a_logic_error() {
    let mut context = Context::new();
    let x = context.get_or_create_variable_declaration("X");
    context.assign_variable_declaration_domain(x, Domain::Integer).unwrap();
    let error =
        term_assign_variable_declaration_domains(&Term::Variable(x), &mut context).unwrap_err();
    assert_eq!(error.kind, Kind::Logic("inconsistent variable declaration domain"));
}

#[test]
fn closed_formula_keeps_free_variables() {
    let mut context = Context::new();
    let p = context.get_or_create_predicate_declaration("p", 1);
    let x = context.get_or_create_variable_declaration("X");
    let scoped = || ScopedFormula {
        free_variable_declarations: vec![x],
        formula: Formula::Predicate { declaration: p, arguments: vec![Term::Variable(x)] },
    };
    assert_eq!(closed_formula(scoped(), &mut context).unwrap(), scoped());
    assert_eq!(context.variable_declaration_domain(x), Some(Domain::Program));
    assert_eq!(variable_free_formula(scoped(), &mut context).unwrap_err().kind, Kind::FreeVariables);
}

#[test]
fn variable_name_error_comes_before_free_variable_error() {
    let mut context = Context::new();
    let p = context.get_or_create_predicate_declaration("p", 1);
    let a = context.get_or_create_variable_declaration("A");
    let scoped = ScopedFormula {
        free_variable_declarations: vec![a],
        formula: Formula::Predicate { declaration: p, arguments: vec![Term::Variable(a)] },
    };
    assert_eq!(
        variable_free_formula(scoped, &mut context).unwrap_err().kind,
        Kind::VariableNameNotAllowed("A".to_string())
    );
}

#[test]
fn statements_belong_to_sections() {
    assert_eq!(StatementKind::Axiom.section(), SectionKind::Axioms);
    assert_eq!(StatementKind::Assumption.section(), SectionKind::Assumptions);
    assert_eq!(StatementKind::Lemma(ProofDirection::Forward).section(), SectionKind::Lemmas);
    assert_eq!(StatementKind::Assertion.section(), SectionKind::Assertions);
    let mut problem = Problem::new();
    problem.add_statement(Statement::new(StatementKind::Assertion, Formula::Boolean(true)));
    problem.add_statement(Statement::new(StatementKind::Axiom, Formula::Boolean(false)));
    assert_eq!(problem.statements[0].kind, StatementKind::Assertion);
    assert_eq!(problem.statements[1].formula, Formula::Boolean(false));
}

#[test]
fn specification_is_read_step_by_step() {
    let mut problem = Problem::new();
    let mut parser =
        SpecificationParser::new("input: p/1, a.\nassume: p(a).\nlemma(backward): p(a).\n");
    let step = parse_specification(&mut parser, &mut problem, None).unwrap();
    assert_eq!(step, Step::Formula { kind: StatementKind::Assumption, formula: " p(a)".to_string() });
    assert!(problem.statements.is_empty());

    let formula = p_of_a(&mut problem.context);
    let parsed = ScopedFormula { free_variable_declarations: vec![], formula };
    let step =
        parse_specification(&mut parser, &mut problem, Some((StatementKind::Assumption, parsed)))
            .unwrap();
    assert_eq!(
        step,
        Step::Formula {
            kind: StatementKind::Lemma(ProofDirection::Backward),
            formula: " p(a)".to_string(),
        }
    );
    assert_eq!(problem.statements.len(), 1);

    let formula = p_of_a(&mut problem.context);
    let parsed = ScopedFormula { free_variable_declarations: vec![], formula };
    let kind = StatementKind::Lemma(ProofDirection::Backward);
    let step = parse_specification(&mut parser, &mut problem, Some((kind, parsed))).unwrap();
    assert_eq!(step, Step::Finished);
    assert_eq!(problem.statements.len(), 2);
    assert_eq!(problem.statements[0].kind, StatementKind::Assumption);
    assert_eq!(problem.statements[1].kind, StatementKind::Lemma(ProofDirection::Backward));
    assert_eq!(problem.context.predicate_declarations().len(), 1);
    assert_eq!(problem.context.function_declarations().len(), 1);
}

#[test]
fn rejected_formula_ends_the_reading() {
    let mut problem = Problem::new();
    let mut parser = SpecificationParser::new("assert: p(X). axiom: p(a).");
    let step = parse_specification(&mut parser, &mut problem, None).unwrap();
    assert_eq!(step, Step::Formula { kind: StatementKind::Assertion, formula: " p(X)".to_string() });
    let p = problem.context.get_or_create_predicate_declaration("p", 1);
    let x = problem.context.get_or_create_variable_declaration("X");
    let parsed = ScopedFormula {
        free_variable_declarations: vec![x],
        formula: Formula::Predicate { declaration: p, arguments: vec![Term::Variable(x)] },
    };
    let error =
        parse_specification(&mut parser, &mut problem, Some((StatementKind::Assertion, parsed)))
            .unwrap_err();
    assert_eq!(error.kind, Kind::FreeVariables);
    assert!(problem.statements.is_empty());
}
