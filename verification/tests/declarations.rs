use anthem::ast::{GeneratedVariableName, VariableName};
use anthem::declarations::{FunctionDeclarations, PredicateDeclarations};
use anthem::domain::Domain;
use anthem::error::Kind;
use anthem::variables::{
    VariableDeclarationDomains,
    VariableDeclarationIds,
    VariableDeclarationStack,
    VariableDeclarations,
};
use anthem::{FunctionDeclaration, PredicateDeclaration, VariableDeclaration};

#[test]
fn new_function_declaration_ranges_over_program_values() {
    let declaration = FunctionDeclaration::new("f".to_string(), 2);
    assert_eq!(declaration.name, "f");
    assert_eq!(declaration.arity, 2);
    assert_eq!(declaration.arity(), 2);
    assert_eq!(declaration.domain, Domain::Program);
    assert!(!declaration.is_input);
    assert_eq!(declaration.display_name(), "f");
}

#[test]
fn new_predicate_declaration_is_neither_input_nor_output() {
    let declaration = PredicateDeclaration::new("edge".to_string(), 2);
    assert_eq!(declaration.name, "edge");
    assert_eq!(declaration.arity(), 2);
    assert!(!declaration.is_input);
    assert!(!declaration.is_output);
    assert_eq!(declaration.display_name(), "edge");
}

#[test]
fn tptp_statement_name_is_name_and_arity() {
    assert_eq!(PredicateDeclaration::new("edge".to_string(), 2).tptp_statement_name(), "edge_2");
    assert_eq!(PredicateDeclaration::new("p".to_string(), 0).tptp_statement_name(), "p_0");
    assert_eq!(PredicateDeclaration::new("a_1".to_string(), 12).tptp_statement_name(), "a_1_12");
}

#[test]
fn tptp_statement_names_differ_for_different_predicates() {
    let signatures = [("p", 1), ("p", 2), ("p_1", 2), ("p", 12), ("p_1", 1), ("q", 1)];
    for (i, (first_name, first_arity)) in signatures.iter().enumerate() {
        for (j, (second_name, second_arity)) in signatures.iter().enumerate() {
            let first = PredicateDeclaration::new(first_name.to_string(), *first_arity);
            let second = PredicateDeclaration::new(second_name.to_string(), *second_arity);
            assert_eq!(first.tptp_statement_name() == second.tptp_statement_name(), i == j);
        }
    }
}

#[test]
fn built_in_functions_have_reserved_names() {
    for name in ["f__integer__", "f__x__", "f____", "f__"] {
        assert!(FunctionDeclaration::new(name.to_string(), 1).is_built_in());
    }
    for name in ["f", "f_", "f_x__", "f__x_", "f__x", "p__x__", "g__x__", "__x__", "", "ff__x__"] {
        assert!(!FunctionDeclaration::new(name.to_string(), 1).is_built_in());
    }
}

#[test]
fn built_in_predicates_have_reserved_names() {
    for name in ["p__is_integer__", "p__x__", "p__"] {
        assert!(PredicateDeclaration::new(name.to_string(), 1).is_built_in());
    }
    for name in ["p", "p_x__", "p__x_", "f__x__", "q__x__", "px__"] {
        assert!(!PredicateDeclaration::new(name.to_string(), 1).is_built_in());
    }
}

#[test]
fn declarations_are_equal_by_name_and_arity() {
    let mut first = FunctionDeclaration::new("f".to_string(), 1);
    let second = FunctionDeclaration::new("f".to_string(), 1);
    first.is_input = true;
    first.domain = Domain::Integer;
    assert!(first == second);
    assert!(first != FunctionDeclaration::new("f".to_string(), 2));
    assert!(first != FunctionDeclaration::new("g".to_string(), 1));

    let mut first = PredicateDeclaration::new("p".to_string(), 3);
    first.is_output = true;
    assert!(first == PredicateDeclaration::new("p".to_string(), 3));
    assert!(first != PredicateDeclaration::new("p".to_string(), 0));
    assert!(first != PredicateDeclaration::new("q".to_string(), 3));
}

#[test]
fn matches_signature_compares_name_and_arity() {
    let function = FunctionDeclaration::new("f".to_string(), 1);
    assert!(function.matches_signature("f", 1));
    assert!(!function.matches_signature("f", 0));
    assert!(!function.matches_signature("ff", 1));
    let predicate = PredicateDeclaration::new("p".to_string(), 2);
    assert!(predicate.matches_signature("p", 2));
    assert!(!predicate.matches_signature("p", 1));
    assert!(!predicate.matches_signature("", 2));
}

#[test]
fn repeated_get_or_create_function_returns_the_same_declaration() {
    let mut declarations = FunctionDeclarations::new();
    let f1 = declarations.get_or_create("f", 1);
    let f2 = declarations.get_or_create("f", 2);
    let g1 = declarations.get_or_create("g", 1);
    assert_eq!((f1, f2, g1), (0, 1, 2));
    assert_eq!(declarations.len(), 3);
    assert_eq!(declarations.get_or_create("f", 1), f1);
    assert_eq!(declarations.get_or_create("f", 2), f2);
    assert_eq!(declarations.get_or_create("g", 1), g1);
    assert_eq!(declarations.len(), 3);
    assert_eq!(declarations.find("f", 2), Some(f2));
    assert_eq!(declarations.find("f", 3), None);
    assert_eq!(declarations.find("h", 1), None);
    assert_eq!(declarations.get(f2).unwrap().name, "f");
    assert_eq!(declarations.get(f2).unwrap().arity, 2);
    assert!(declarations.get(3).is_none());
}

#[test]
fn repeated_get_or_create_predicate_returns_the_same_declaration() {
    let mut declarations = PredicateDeclarations::new();
    let p1 = declarations.get_or_create("p", 1);
    let q1 = declarations.get_or_create("q", 1);
    let p0 = declarations.get_or_create("p", 0);
    assert_eq!((p1, q1, p0), (0, 1, 2));
    for _ in 0..3 {
        assert_eq!(declarations.get_or_create("p", 1), p1);
        assert_eq!(declarations.get_or_create("q", 1), q1);
        assert_eq!(declarations.get_or_create("p", 0), p0);
    }
    assert_eq!(declarations.len(), 3);
    assert!(declarations.get(p1).unwrap() != declarations.get(p0).unwrap());
    assert!(declarations.get(p1).unwrap() != declarations.get(q1).unwrap());
}

#[test]
fn input_and_output_marks_keep_the_declaration() {
    let mut predicates = PredicateDeclarations::new();
    let p = predicates.get_or_create("p", 1);
    assert!(predicates.declare_input(p));
    assert!(predicates.get(p).unwrap().is_input);
    assert!(!predicates.get(p).unwrap().is_output);
    assert!(predicates.declare_output(p));
    assert!(predicates.get(p).unwrap().is_input);
    assert!(predicates.get(p).unwrap().is_output);
    assert_eq!(predicates.get(p).unwrap().name, "p");
    assert!(!predicates.declare_input(5));
    assert!(!predicates.declare_output(1));
    assert_eq!(predicates.len(), 1);

    let mut functions = FunctionDeclarations::new();
    let c = functions.get_or_create("c", 0);
    assert!(functions.declare_input(c, Domain::Integer));
    assert!(functions.get(c).unwrap().is_input);
    assert_eq!(functions.get(c).unwrap().domain, Domain::Integer);
    assert!(!functions.declare_input(1, Domain::Integer));
    assert_eq!(functions.get_or_create("c", 0), c);
}

#[test]
fn user_defined_variables_are_shown_under_their_name() {
    let declaration = VariableDeclaration::new("X".to_string());
    assert_eq!(declaration.name, VariableName::UserDefined("X".to_string()));
    assert_eq!(declaration.display_name().unwrap(), "X");
    assert!(declaration.matches_name("X"));
    assert!(!declaration.matches_name("Y"));
    assert!(!declaration.matches_name("X1"));
}

#[test]
fn generated_variables_are_shown_under_prefix_and_number() {
    let mut declaration = VariableDeclaration::new_generated(Domain::Program);
    assert_eq!(
        declaration.name,
        VariableName::Generated(GeneratedVariableName { domain: Domain::Program, id: None })
    );
    let error = declaration.display_name().unwrap_err();
    assert_eq!(error.kind, Kind::Logic("all variable IDs should be assigned at this point"));
    declaration.name =
        VariableName::Generated(GeneratedVariableName { domain: Domain::Program, id: Some(0) });
    assert_eq!(declaration.display_name().unwrap(), "X1");
    declaration.name =
        VariableName::Generated(GeneratedVariableName { domain: Domain::Integer, id: Some(41) });
    assert_eq!(declaration.display_name().unwrap(), "N42");
    declaration.name = VariableName::Generated(GeneratedVariableName {
        domain: Domain::Integer,
        id: Some(usize::MAX),
    });
    assert_eq!(declaration.display_name().unwrap(), format!("N{}", usize::MAX as u128 + 1));
}

#[test]
fn generated_variables_match_no_name() {
    let declaration = VariableDeclaration::new_generated(Domain::Program);
    assert!(!declaration.matches_name("X"));
    assert!(!declaration.matches_name("X1"));
    assert!(!declaration.matches_name(""));
}

#[test]
fn assigning_the_same_domain_twice_succeeds() {
    let mut domains = VariableDeclarationDomains::new();
    assert_eq!(domains.get(3), None);
    assert!(domains.assign(3, Domain::Integer).is_ok());
    assert_eq!(domains.get(3), Some(Domain::Integer));
    assert!(domains.assign(3, Domain::Integer).is_ok());
    assert_eq!(domains.get(3), Some(Domain::Integer));
    assert_eq!(domains.get(4), None);
}

#[test]
fn assigning_a_differing_domain_fails() {
    let mut domains = VariableDeclarationDomains::new();
    assert!(domains.assign(0, Domain::Program).is_ok());
    let error = domains.assign(0, Domain::Integer).unwrap_err();
    assert_eq!(error.kind, Kind::Logic("inconsistent variable declaration domain"));
    assert_eq!(domains.get(0), Some(Domain::Program));
    assert!(domains.assign(1, Domain::Integer).is_ok());
    assert!(domains.assign(1, Domain::Program).is_err());
}

#[test]
fn variable_ids_go_by_first_request() {
    let mut ids = VariableDeclarationIds::new();
    assert_eq!(ids.get_or_assign(17), 0);
    assert_eq!(ids.get_or_assign(3), 1);
    assert_eq!(ids.get_or_assign(17), 0);
    assert_eq!(ids.get_or_assign(99), 2);
    assert_eq!(ids.get_or_assign(3), 1);
    assert_eq!(ids.get_or_assign(0), 3);
    assert_eq!(ids.get_or_assign(99), 2);
}

#[test]
fn variables_are_found_in_the_innermost_scope_first() {
    let mut declarations = VariableDeclarations::new();
    let mut stack = VariableDeclarationStack::new();
    assert_eq!(stack.depth(), 1);
    let outer_x = stack.find_or_create(&mut declarations, "X");
    assert_eq!(stack.find_or_create(&mut declarations, "X"), outer_x);
    stack.push_layer();
    assert_eq!(stack.depth(), 2);
    assert_eq!(stack.find(&declarations, "X"), Some(outer_x));
    assert_eq!(stack.find(&declarations, "Y"), None);
    let inner_y = stack.find_or_create(&mut declarations, "Y");
    assert_ne!(inner_y, outer_x);
    assert_eq!(stack.innermost().variable_declarations, vec![inner_y]);
    let layer = stack.pop_layer().unwrap();
    assert_eq!(layer.variable_declarations, vec![inner_y]);
    assert!(layer.free_variable_declarations.is_empty());
    assert_eq!(stack.find(&declarations, "Y"), None);
    let outer_y = stack.find_or_create(&mut declarations, "Y");
    assert_ne!(outer_y, inner_y);
    assert_eq!(declarations.len(), 3);
    assert!(declarations.get(inner_y).unwrap().matches_name("Y"));
    assert!(stack.pop_layer().is_none());
    assert_eq!(stack.depth(), 1);
}

#[test]
fn inner_declarations_shadow_outer_ones() {
    let mut declarations = VariableDeclarations::new();
    let mut stack = VariableDeclarationStack::new();
    let outer = stack.find_or_create(&mut declarations, "X");
    stack.push_layer();
    let inner = stack.create_free(&mut declarations, "X");
    assert_ne!(inner, outer);
    assert_eq!(stack.innermost().free_variable_declarations, vec![inner]);
    // a free declaration is not found by name
    assert_eq!(stack.find(&declarations, "X"), Some(outer));
}
