use anthem::declarations::PredicateDeclarations;
use anthem::error::Kind;
use anthem::translate::verify_properties::translate_head::{
    Aggregate,
    HeadLiteral,
    Literal,
    LiteralType,
    Sign,
    Term,
};
use anthem::{determine_head_type, HeadAtom, HeadType};

fn atom(name: &str, arguments: &[&str]) -> Term<String> {
    Term::Function {
        name: Ok(name.to_string()),
        arguments: arguments.iter().map(|argument| argument.to_string()).collect(),
    }
}

fn literal(sign: Sign, literal_type: LiteralType<String>) -> Literal<String> {
    Literal { sign, literal_type }
}

fn choice(elements: Vec<Literal<String>>) -> HeadLiteral<String> {
    HeadLiteral::Aggregate(Aggregate { has_left_guard: false, has_right_guard: false, elements })
}

fn unsupported(
    head_literal: HeadLiteral<String>,
    description: &'static str,
) {
    let mut predicates = PredicateDeclarations::new();
    let error = determine_head_type(head_literal, &mut predicates).unwrap_err();
    assert_eq!(error.kind, Kind::UnsupportedLanguageFeature(description));
    assert_eq!(error.source, None);
    assert_eq!(predicates.len(), 0);
}

#[test]
fn head_true_is_trivial() {
    let mut predicates = PredicateDeclarations::new();
    let head = HeadLiteral::Literal(literal(Sign::NoSign, LiteralType::<String>::Boolean(true)));
    assert_eq!(determine_head_type(head, &mut predicates).unwrap(), HeadType::Trivial);
    assert_eq!(predicates.len(), 0);
}

#[test]
fn head_false_is_an_integrity_constraint() {
    let mut predicates = PredicateDeclarations::new();
    let head = HeadLiteral::Literal(literal(Sign::NoSign, LiteralType::<String>::Boolean(false)));
    assert_eq!(determine_head_type(head, &mut predicates).unwrap(), HeadType::IntegrityConstraint);
    assert_eq!(predicates.len(), 0);
}

#[test]
fn head_atom_is_a_single_atom() {
    let mut predicates = PredicateDeclarations::new();
    let head = HeadLiteral::Literal(literal(Sign::NoSign, LiteralType::Symbolic(atom("p", &["X"]))));
    let head_type = determine_head_type(head, &mut predicates).unwrap();
    assert_eq!(
        head_type,
        HeadType::SingleAtom(HeadAtom { predicate_declaration: 0, arguments: vec!["X".to_string()] })
    );
    assert_eq!(predicates.len(), 1);
    assert!(predicates.get(0).unwrap().matches_signature("p", 1));
}

#[test]
fn choice_of_one_atom_is_a_choice_with_single_atom() {
    let mut predicates = PredicateDeclarations::new();
    let head = choice(vec![literal(Sign::NoSign, LiteralType::Symbolic(atom("p", &["X"])))]);
    let head_type = determine_head_type(head, &mut predicates).unwrap();
    assert_eq!(
        head_type,
        HeadType::ChoiceWithSingleAtom(HeadAtom {
            predicate_declaration: 0,
            arguments: vec!["X".to_string()],
        })
    );
    assert!(predicates.get(0).unwrap().matches_signature("p", 1));
}

#[test]
fn choice_of_two_atoms_is_not_supported() {
    unsupported(
        choice(vec![
            literal(Sign::NoSign, LiteralType::Symbolic(atom("p", &["X"]))),
            literal(Sign::NoSign, LiteralType::Symbolic(atom("q", &["X"]))),
        ]),
        "aggregates not containing exactly one element",
    );
}

#[test]
fn empty_choice_is_not_supported() {
    unsupported(choice(vec![]), "aggregates not containing exactly one element");
}

#[test]
fn negated_head_atom_is_not_supported() {
    unsupported(
        HeadLiteral::Literal(literal(Sign::Negation, LiteralType::Symbolic(atom("p", &["X"])))),
        "negated head literals",
    );
    unsupported(
        HeadLiteral::Literal(literal(Sign::DoubleNegation, LiteralType::Symbolic(atom("p", &[])))),
        "negated head literals",
    );
    unsupported(
        HeadLiteral::Literal(literal(Sign::Negation, LiteralType::Boolean(true))),
        "negated head literals",
    );
}

#[test]
fn guarded_aggregates_are_not_supported() {
    let element = || literal(Sign::NoSign, LiteralType::Symbolic(atom("p", &["X"])));
    unsupported(
        HeadLiteral::Aggregate(Aggregate {
            has_left_guard: true,
            has_right_guard: false,
            elements: vec![element()],
        }),
        "aggregates with guards",
    );
    unsupported(
        HeadLiteral::Aggregate(Aggregate {
            has_left_guard: false,
            has_right_guard: true,
            elements: vec![element(), element()],
        }),
        "aggregates with guards",
    );
}

#[test]
fn negated_literals_in_aggregates_are_not_supported() {
    unsupported(
        choice(vec![literal(Sign::Negation, LiteralType::Symbolic(atom("p", &["X"])))]),
        "negated literals in aggregates",
    );
}

#[test]
fn aggregate_elements_have_to_be_atoms() {
    unsupported(
        choice(vec![literal(Sign::NoSign, LiteralType::Boolean(true))]),
        "elements other than terms in aggregates",
    );
    unsupported(
        choice(vec![literal(Sign::NoSign, LiteralType::Other)]),
        "elements other than terms in aggregates",
    );
    unsupported(
        choice(vec![literal(Sign::NoSign, LiteralType::Symbolic(Term::Other))]),
        "elements other than atoms in aggregates",
    );
}

#[test]
fn head_literals_have_to_be_atoms() {
    unsupported(
        HeadLiteral::Literal(literal(Sign::NoSign, LiteralType::Other)),
        "elements other than terms in rule head",
    );
    unsupported(
        HeadLiteral::Literal(literal(Sign::NoSign, LiteralType::Symbolic(Term::Other))),
        "elements other than atoms in rule head",
    );
}

#[test]
fn undecodable_head_atom_name_is_a_decode_error() {
    let mut predicates = PredicateDeclarations::new();
    let term: Term<String> = Term::Function {
        name: Err("invalid utf-8 sequence of 1 bytes from index 0".to_string()),
        arguments: vec![],
    };
    let head = HeadLiteral::Literal(literal(Sign::NoSign, LiteralType::Symbolic(term)));
    let error = determine_head_type(head, &mut predicates).unwrap_err();
    assert_eq!(error.kind, Kind::DecodeIdentifier);
    assert_eq!(error.source, Some("invalid utf-8 sequence of 1 bytes from index 0".to_string()));
    assert_eq!(predicates.len(), 0);
}

#[test]
fn other_heads_are_annotations() {
    let mut predicates = PredicateDeclarations::new();
    assert_eq!(
        determine_head_type(HeadLiteral::<String>::Other, &mut predicates).unwrap(),
        HeadType::Annotation
    );
    assert_eq!(predicates.len(), 0);
}

#[test]
fn head_atoms_of_one_predicate_share_its_declaration() {
    let mut predicates = PredicateDeclarations::new();
    let first = HeadLiteral::Literal(literal(Sign::NoSign, LiteralType::Symbolic(atom("p", &["X"]))));
    let second = choice(vec![literal(Sign::NoSign, LiteralType::Symbolic(atom("p", &["Y"])))]);
    let third =
        HeadLiteral::Literal(literal(Sign::NoSign, LiteralType::Symbolic(atom("p", &["X", "Y"]))));
    let handle = |head_type| match head_type {
        HeadType::SingleAtom(head_atom) | HeadType::ChoiceWithSingleAtom(head_atom) => {
            head_atom.predicate_declaration
        }
        _ => panic!("no head atom"),
    };
    let first = handle(determine_head_type(first, &mut predicates).unwrap());
    let second = handle(determine_head_type(second, &mut predicates).unwrap());
    let third = handle(determine_head_type(third, &mut predicates).unwrap());
    assert_eq!(first, second);
    assert_ne!(first, third);
    assert_eq!(predicates.len(), 2);
    assert!(predicates.get(third).unwrap().matches_signature("p", 2));
}
