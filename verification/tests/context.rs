use anthem::ast::{ComparisonOperator, GeneratedVariableName, VariableName};
use anthem::domain::Domain;
use anthem::error::Kind;
use anthem::{Context, Formula, HeadAtom, HeadType, ScopedFormula, Term};

fn predicate(declaration: usize, variable: usize) -> Formula {
    Formula::Predicate { declaration, arguments: vec![Term::Variable(variable)] }
}

fn equality(parameter: usize, argument: Term) -> Formula {
    Formula::Compare {
        operator: ComparisonOperator::Equal,
        left: Box::new(Term::Variable(parameter)),
        right: Box::new(argument),
    }
}

#[test]
fn new_context_is_empty() {
    let context = Context::new();
    assert_eq!(context.function_declarations().len(), 0);
    assert_eq!(context.predicate_declarations().len(), 0);
    assert_eq!(context.variable_declarations().len(), 0);
    assert_eq!(context.variable_declaration_stack().depth(), 1);
    assert!(context.integrity_constraints().is_empty());
    assert!(context.definitions(0).is_none());
    assert_eq!(context.variable_declaration_domain(0), None);
}

#[test]
fn context_interns_functions_and_predicates() {
    let mut context = Context::new();
    let f = context.get_or_create_function_declaration("f", 1);
    let p = context.get_or_create_predicate_declaration("f", 1);
    let g = context.get_or_create_function_declaration("g", 1);
    assert_eq!((f, p, g), (0, 0, 1));
    assert_eq!(context.get_or_create_function_declaration("f", 1), f);
    assert_eq!(context.get_or_create_predicate_declaration("f", 1), p);
    assert_eq!(context.get_or_create_function_declaration("f", 0), 2);
    assert_eq!(context.function_declarations().len(), 3);
    assert_eq!(context.predicate_declarations().len(), 1);
}

#[test]
fn anonymous_variables_never_unify() {
    let mut context = Context::new();
    let x = context.get_or_create_variable_declaration("X");
    let first = context.get_or_create_variable_declaration("_");
    let second = context.get_or_create_variable_declaration("_");
    assert_eq!(context.get_or_create_variable_declaration("X"), x);
    assert_ne!(first, second);
    assert_ne!(first, x);
    let layer = context.variable_declaration_stack().innermost();
    assert_eq!(layer.variable_declarations, vec![x]);
    assert_eq!(layer.free_variable_declarations, vec![first, second]);
    assert!(context.variable_declarations().get(first).unwrap().matches_name("_"));
}

#[test]
fn scopes_release_their_variables() {
    let mut context = Context::new();
    context.enter_scope();
    let inner = context.get_or_create_variable_declaration("X");
    let layer = context.leave_scope().unwrap();
    assert_eq!(layer.variable_declarations, vec![inner]);
    let outer = context.get_or_create_variable_declaration("X");
    assert_ne!(inner, outer);
    assert!(context.leave_scope().is_none());
    assert_eq!(context.get_or_create_variable_declaration("X"), outer);
}

#[test]
fn second_differing_domain_is_a_logic_error() {
    let mut context = Context::new();
    let x = context.get_or_create_variable_declaration("X");
    assert!(context.assign_variable_declaration_domain(x, Domain::Program).is_ok());
    assert!(context.assign_variable_declaration_domain(x, Domain::Program).is_ok());
    let error = context.assign_variable_declaration_domain(x, Domain::Integer).unwrap_err();
    assert_eq!(error.kind, Kind::Logic("inconsistent variable declaration domain"));
    assert_eq!(context.variable_declaration_domain(x), Some(Domain::Program));
}

#[test]
fn variable_declaration_ids_start_at_zero_and_stay() {
    let mut context = Context::new();
    let x = context.get_or_create_variable_declaration("X");
    let y = context.get_or_create_variable_declaration("Y");
    let z = context.get_or_create_variable_declaration("Z");
    assert_eq!(context.variable_declaration_id(z), 0);
    assert_eq!(context.variable_declaration_id(x), 1);
    assert_eq!(context.variable_declaration_id(z), 0);
    assert_eq!(context.variable_declaration_id(y), 2);
    assert_eq!(context.variable_declaration_id(x), 1);
    assert_eq!(context.variable_declaration_id(y), 2);
}

#[test]
fn two_rules_give_two_definitions_over_the_same_parameters() {
    // p(X) :- a(X).  p(X) :- b(X).
    let mut context = Context::new();
    let p = context.get_or_create_predicate_declaration("p", 1);
    let a = context.get_or_create_predicate_declaration("a", 1);
    let b = context.get_or_create_predicate_declaration("b", 1);

    context.enter_scope();
    let x1 = context.get_or_create_variable_declaration("X");
    context.leave_scope();
    let first = ScopedFormula { free_variable_declarations: vec![x1], formula: predicate(a, x1) };
    context.add_definition(p, vec![Term::Variable(x1)], first).unwrap();

    context.enter_scope();
    let x2 = context.get_or_create_variable_declaration("X");
    context.leave_scope();
    assert_ne!(x1, x2);
    let second = ScopedFormula { free_variable_declarations: vec![x2], formula: predicate(b, x2) };
    context.add_definition(p, vec![Term::Variable(x2)], second).unwrap();

    let definitions = context.definitions(p).unwrap();
    assert_eq!(definitions.head_atom_parameters.len(), 1);
    assert_eq!(definitions.definitions.len(), 2);
    let parameter = definitions.head_atom_parameters[0];
    assert_eq!(
        context.variable_declarations().get(parameter).unwrap().name,
        VariableName::Generated(GeneratedVariableName { domain: Domain::Program, id: None })
    );
    assert_eq!(definitions.definitions[0].free_variable_declarations, vec![parameter]);
    assert_eq!(definitions.definitions[1].free_variable_declarations, vec![parameter]);
    assert_eq!(
        definitions.definitions[0].formula,
        Formula::Exists {
            parameters: vec![x1],
            argument: Box::new(Formula::And(vec![
                predicate(a, x1),
                equality(parameter, Term::Variable(x1)),
            ])),
        }
    );
    assert_eq!(
        definitions.definitions[1].formula,
        Formula::Exists {
            parameters: vec![x2],
            argument: Box::new(Formula::And(vec![
                predicate(b, x2),
                equality(parameter, Term::Variable(x2)),
            ])),
        }
    );
    assert!(context.definitions(a).is_none());
    assert!(context.definitions(b).is_none());
}

#[test]
fn definition_binds_each_argument_to_its_parameter() {
    // p(X, 1) :- q(X).
    let mut context = Context::new();
    let p = context.get_or_create_predicate_declaration("p", 2);
    let q = context.get_or_create_predicate_declaration("q", 1);
    let x = context.get_or_create_variable_declaration("X");
    let body = ScopedFormula { free_variable_declarations: vec![x], formula: predicate(q, x) };
    context.add_definition(p, vec![Term::Variable(x), Term::Integer(1)], body).unwrap();
    let definitions = context.definitions(p).unwrap();
    assert_eq!(definitions.head_atom_parameters, vec![1, 2]);
    assert_eq!(
        definitions.definitions[0].formula,
        Formula::Exists {
            parameters: vec![x],
            argument: Box::new(Formula::And(vec![
                predicate(q, x),
                equality(1, Term::Variable(x)),
                equality(2, Term::Integer(1)),
            ])),
        }
    );
}

#[test]
fn definition_of_a_proposition_is_the_body() {
    // p :- true.
    let mut context = Context::new();
    let p = context.get_or_create_predicate_declaration("p", 0);
    let body = ScopedFormula { free_variable_declarations: vec![], formula: Formula::Boolean(true) };
    context.add_definition(p, vec![], body).unwrap();
    let definitions = context.definitions(p).unwrap();
    assert!(definitions.head_atom_parameters.is_empty());
    assert_eq!(definitions.definitions.len(), 1);
    assert!(definitions.definitions[0].free_variable_declarations.is_empty());
    assert_eq!(definitions.definitions[0].formula, Formula::Boolean(true));
    assert_eq!(context.variable_declarations().len(), 0);
}

#[test]
fn parameters_are_not_quantified() {
    let mut context = Context::new();
    let p = context.get_or_create_predicate_declaration("p", 1);
    let q = context.get_or_create_predicate_declaration("q", 1);
    let x = context.get_or_create_variable_declaration("X");
    let body = ScopedFormula { free_variable_declarations: vec![x], formula: predicate(q, x) };
    context.add_definition(p, vec![Term::Variable(x)], body).unwrap();
    let parameter = context.definitions(p).unwrap().head_atom_parameters[0];
    // a body that mentions the parameter itself among the rule's variables
    let y = context.get_or_create_variable_declaration("Y");
    let body = ScopedFormula {
        free_variable_declarations: vec![parameter, y, parameter],
        formula: predicate(q, y),
    };
    context.add_definition(p, vec![Term::Variable(y)], body).unwrap();
    let definitions = context.definitions(p).unwrap();
    assert_eq!(definitions.head_atom_parameters, vec![parameter]);
    assert_eq!(
        definitions.definitions[1].formula,
        Formula::Exists {
            parameters: vec![y],
            argument: Box::new(Formula::And(vec![
                predicate(q, y),
                equality(parameter, Term::Variable(y)),
            ])),
        }
    );
}

#[test]
fn head_atom_with_wrong_number_of_arguments_is_a_logic_error() {
    let mut context = Context::new();
    let p = context.get_or_create_predicate_declaration("p", 1);
    let body = || ScopedFormula { free_variable_declarations: vec![], formula: Formula::Boolean(true) };
    let error = context.add_definition(p, vec![], body()).unwrap_err();
    assert_eq!(
        error.kind,
        Kind::Logic("head atom with a different number of arguments than its predicate")
    );
    let error = context
        .add_definition(p, vec![Term::Integer(1), Term::Integer(2)], body())
        .unwrap_err();
    assert_eq!(
        error.kind,
        Kind::Logic("head atom with a different number of arguments than its predicate")
    );
    assert!(context.definitions(p).is_none());
    assert_eq!(context.variable_declarations().len(), 0);
}

#[test]
fn head_atom_of_an_undeclared_predicate_is_a_logic_error() {
    let mut context = Context::new();
    let body = ScopedFormula { free_variable_declarations: vec![], formula: Formula::Boolean(true) };
    let error = context.add_definition(0, vec![], body).unwrap_err();
    assert_eq!(error.kind, Kind::Logic("head atom of an undeclared predicate"));
}

#[test]
fn integrity_constraint_forbids_the_body() {
    // :- q(X).
    let mut context = Context::new();
    let q = context.get_or_create_predicate_declaration("q", 1);
    let x = context.get_or_create_variable_declaration("X");
    context.add_integrity_constraint(ScopedFormula {
        free_variable_declarations: vec![x],
        formula: predicate(q, x),
    });
    context.add_integrity_constraint(ScopedFormula {
        free_variable_declarations: vec![],
        formula: Formula::Boolean(false),
    });
    assert_eq!(
        context.integrity_constraints(),
        &vec![
            Formula::Not(Box::new(Formula::Exists {
                parameters: vec![x],
                argument: Box::new(predicate(q, x)),
            })),
            Formula::Not(Box::new(Formula::Boolean(false))),
        ]
    );
}

#[test]
fn rules_are_read_by_the_shape_of_their_head() {
    let mut context = Context::new();
    let p = context.get_or_create_predicate_declaration("p", 1);
    let q = context.get_or_create_predicate_declaration("q", 1);
    let x = context.get_or_create_variable_declaration("X");
    let body = || ScopedFormula { free_variable_declarations: vec![x], formula: predicate(q, x) };

    context.add_rule(HeadType::Trivial, body()).unwrap();
    context.add_rule(HeadType::Annotation, body()).unwrap();
    assert!(context.integrity_constraints().is_empty());
    assert!(context.definitions(p).is_none());

    context.add_rule(HeadType::IntegrityConstraint, body()).unwrap();
    assert_eq!(context.integrity_constraints().len(), 1);

    let head_atom = || HeadAtom { predicate_declaration: p, arguments: vec![Term::Variable(x)] };
    context.add_rule(HeadType::SingleAtom(head_atom()), body()).unwrap();
    context.add_rule(HeadType::ChoiceWithSingleAtom(head_atom()), body()).unwrap();
    let definitions = context.definitions(p).unwrap();
    assert_eq!(definitions.definitions.len(), 2);
    assert_eq!(definitions.definitions[0], definitions.definitions[1]);
    assert_eq!(context.integrity_constraints().len(), 1);
}

#[test]
fn completion_is_the_equivalence_of_atom_and_definitions() {
    // p(X) :- a(X).  p(X) :- b(X).
    let mut context = Context::new();
    let p = context.get_or_create_predicate_declaration("p", 1);
    let a = context.get_or_create_predicate_declaration("a", 1);
    let b = context.get_or_create_predicate_declaration("b", 1);
    let x = context.get_or_create_variable_declaration("X");
    let first = ScopedFormula { free_variable_declarations: vec![x], formula: predicate(a, x) };
    let second = ScopedFormula { free_variable_declarations: vec![x], formula: predicate(b, x) };
    context.add_definition(p, vec![Term::Variable(x)], first).unwrap();
    context.add_definition(p, vec![Term::Variable(x)], second).unwrap();
    let parameter = context.definitions(p).unwrap().head_atom_parameters[0];
    let definition = |body: usize| Formula::Exists {
        parameters: vec![x],
        argument: Box::new(Formula::And(vec![
            predicate(body, x),
            equality(parameter, Term::Variable(x)),
        ])),
    };
    assert_eq!(
        context.completion(p).unwrap(),
        Formula::ForAll {
            parameters: vec![parameter],
            argument: Box::new(Formula::IfAndOnlyIf(vec![
                predicate(p, parameter),
                Formula::Or(vec![definition(a), definition(b)]),
            ])),
        }
    );
    assert_eq!(context.completion(a), None);
    assert_eq!(context.completion(17), None);
}

#[test]
fn completion_of_a_proposition_has_no_quantifier() {
    let mut context = Context::new();
    let p = context.get_or_create_predicate_declaration("p", 0);
    let body = ScopedFormula { free_variable_declarations: vec![], formula: Formula::Boolean(true) };
    context.add_definition(p, vec![], body).unwrap();
    assert_eq!(
        context.completion(p).unwrap(),
        Formula::IfAndOnlyIf(vec![
            Formula::Predicate { declaration: p, arguments: vec![] },
            Formula::Or(vec![Formula::Boolean(true)]),
        ])
    );
}

#[test]
fn generated_variables_get_their_numbers_in_a_pass() {
    let mut context = Context::new();
    let p = context.get_or_create_predicate_declaration("p", 2);
    let q = context.get_or_create_predicate_declaration("q", 1);
    let x = context.get_or_create_variable_declaration("X");
    let body = || ScopedFormula { free_variable_declarations: vec![], formula: Formula::Boolean(true) };
    context.add_definition(p, vec![Term::Integer(1), Term::Integer(2)], body()).unwrap();
    context.add_definition(q, vec![Term::Integer(1)], body()).unwrap();
    let p_parameters = context.definitions(p).unwrap().head_atom_parameters.clone();
    let q_parameters = context.definitions(q).unwrap().head_atom_parameters.clone();
    assert!(context.variable_declarations().get(p_parameters[0]).unwrap().display_name().is_err());

    // the parameter of q is asked for first
    assert_eq!(context.variable_declaration_id(q_parameters[0]), 0);
    context.assign_variable_declaration_ids();
    let shown = |context: &Context, handle: usize| {
        context.variable_declarations().get(handle).unwrap().display_name().unwrap()
    };
    assert_eq!(shown(&context, x), "X");
    assert_eq!(shown(&context, q_parameters[0]), "X1");
    assert_eq!(shown(&context, p_parameters[0]), "X2");
    assert_eq!(shown(&context, p_parameters[1]), "X3");

    // numbers that are assigned stay
    context.assign_variable_declaration_ids();
    context.assign_variable_declaration_id(p_parameters[1]);
    assert_eq!(shown(&context, p_parameters[1]), "X3");
    assert_eq!(context.variable_declaration_id(p_parameters[0]), 1);
    // a user-defined variable is not numbered by the pass
    assert_eq!(context.variable_declaration_id(x), 3);
    context.assign_variable_declaration_id(99);
}

#[test]
fn copies_of_formulas_are_equal() {
    let formula = Formula::ForAll {
        parameters: vec![3, 4],
        argument: Box::new(Formula::Implies {
            antecedent: Box::new(Formula::And(vec![
                Formula::Boolean(true),
                Formula::Predicate {
                    declaration: 1,
                    arguments: vec![
                        Term::String("text".to_string()),
                        Term::Function { declaration: 0, arguments: vec![Term::Variable(3)] },
                    ],
                },
            ])),
            implication: Box::new(Formula::Not(Box::new(Formula::Or(vec![
                equality(4, Term::Boolean(false)),
                Formula::IfAndOnlyIf(vec![]),
                Formula::Exists { parameters: vec![], argument: Box::new(Formula::Boolean(false)) },
            ])))),
        }),
    };
    assert_eq!(formula.duplicate(), formula);
    let term = Term::UnaryOperation {
        operator: anthem::ast::UnaryOperator::AbsoluteValue,
        argument: Box::new(Term::BinaryOperation {
            operator: anthem::ast::BinaryOperator::Modulo,
            left: Box::new(Term::SpecialInteger(anthem::ast::SpecialInteger::Infimum)),
            right: Box::new(Term::Integer(-3)),
        }),
    };
    assert_eq!(term.duplicate(), term);
}

#[test]
fn created_variables_shadow_outer_ones() {
    let mut context = Context::new();
    let outer = context.get_or_create_variable_declaration("X");
    context.enter_scope();
    let inner = context.create_variable_declaration("X");
    assert_ne!(inner, outer);
    assert_eq!(context.get_or_create_variable_declaration("X"), inner);
    let again = context.create_variable_declaration("X");
    assert_ne!(again, inner);
    // the first of the scope's declarations of a name is the one that the name refers to
    assert_eq!(context.get_or_create_variable_declaration("X"), inner);
    let layer = context.leave_scope().unwrap();
    assert_eq!(layer.variable_declarations, vec![inner, again]);
    assert_eq!(context.get_or_create_variable_declaration("X"), outer);
}
