use anthem::domain::Domain;
use anthem::error::Kind;
use anthem::VariableDeclaration;

#[test]
fn program_variables_start_with_x_y_z() {
    for name in ["X", "Y", "Z", "X1", "Yvalue", "_X", "___Z_"] {
        assert_eq!(Domain::from_variable_name(name).unwrap(), Domain::Program);
    }
}

#[test]
fn integer_variables_start_with_i_to_n() {
    for name in ["I", "J", "K", "L", "M", "N", "N1", "_I", "__M2"] {
        assert_eq!(Domain::from_variable_name(name).unwrap(), Domain::Integer);
    }
}

#[test]
fn other_variable_names_are_not_allowed() {
    for name in ["A", "x", "H", "O", "W", "", "_", "___", "_a", "1X", " X"] {
        let error = Domain::from_variable_name(name).unwrap_err();
        assert_eq!(error.kind, Kind::VariableNameNotAllowed(name.to_string()));
        assert!(error.source.is_none());
    }
}

#[test]
fn declaration_domain_agrees_with_name_inference() {
    for name in ["X", "_N", "Q", "__", "I5"] {
        let declaration = VariableDeclaration::new(name.to_string());
        match (declaration.domain(), Domain::from_variable_name(name)) {
            (Ok(left), Ok(right)) => assert_eq!(left, right),
            (Err(left), Err(right)) => assert_eq!(left, right),
            _ => panic!("the two inferences disagree on {}", name),
        }
    }
}

#[test]
fn generated_variables_carry_their_domain() {
    assert_eq!(VariableDeclaration::new_generated(Domain::Integer).domain().unwrap(), Domain::Integer);
    assert_eq!(VariableDeclaration::new_generated(Domain::Program).domain().unwrap(), Domain::Program);
}
