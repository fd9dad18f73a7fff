use anthem::ordering::{signature_comes_before, text_comes_before};
use anthem::{FunctionDeclaration, PredicateDeclaration};
use std::cmp::Ordering;

#[test]
fn texts_are_ordered_by_their_characters() {
    let texts = ["", "a", "a_", "aa", "ab", "b", "ba", "é", "z\u{10000}", "\u{ff5e}"];
    for left in texts {
        for right in texts {
            assert_eq!(text_comes_before(left, right), left < right, "{:?} {:?}", left, right);
        }
    }
}

#[test]
fn declarations_are_ordered_by_name_then_arity() {
    assert!(signature_comes_before("p", 1, "p", 2));
    assert!(signature_comes_before("p", 2, "q", 1));
    assert!(signature_comes_before("p", 9, "pp", 0));
    assert!(!signature_comes_before("p", 1, "p", 1));
    assert!(!signature_comes_before("q", 1, "p", 2));
    assert!(!signature_comes_before("p", 2, "p", 1));
}

#[test]
fn function_declarations_compare_by_name_and_arity() {
    let mut f1 = FunctionDeclaration::new("f".to_string(), 1);
    let f2 = FunctionDeclaration::new("f".to_string(), 2);
    let g0 = FunctionDeclaration::new("g".to_string(), 0);
    f1.is_input = true;
    assert_eq!(f1.partial_cmp(&f2), Some(Ordering::Less));
    assert_eq!(f2.partial_cmp(&f1), Some(Ordering::Greater));
    assert_eq!(f2.partial_cmp(&g0), Some(Ordering::Less));
    assert_eq!(f1.partial_cmp(&FunctionDeclaration::new("f".to_string(), 1)), Some(Ordering::Equal));
    assert!(f1 < f2 && f2 < g0 && f1 < g0);
    assert!(g0 > f1);
    assert!(f1 <= FunctionDeclaration::new("f".to_string(), 1));
}

#[test]
fn predicate_declarations_compare_by_name_and_arity() {
    let p1 = PredicateDeclaration::new("p".to_string(), 1);
    let mut p2 = PredicateDeclaration::new("p".to_string(), 2);
    let a3 = PredicateDeclaration::new("a".to_string(), 3);
    p2.is_output = true;
    assert_eq!(p1.partial_cmp(&p2), Some(Ordering::Less));
    assert_eq!(p1.partial_cmp(&a3), Some(Ordering::Greater));
    assert_eq!(p2.partial_cmp(&PredicateDeclaration::new("p".to_string(), 2)), Some(Ordering::Equal));
    let mut declarations = vec![&p2, &a3, &p1];
    declarations.sort_by(|left, right| left.partial_cmp(right).unwrap());
    assert_eq!(
        declarations.iter().map(|declaration| declaration.tptp_statement_name()).collect::<Vec<_>>(),
        vec!["a_3", "p_1", "p_2"]
    );
}

#[test]
fn equal_declarations_hash_alike() {
    let mut functions = std::collections::HashSet::new();
    let mut input = FunctionDeclaration::new("f".to_string(), 1);
    input.is_input = true;
    functions.insert(input);
    functions.insert(FunctionDeclaration::new("f".to_string(), 1));
    functions.insert(FunctionDeclaration::new("f".to_string(), 2));
    functions.insert(FunctionDeclaration::new("g".to_string(), 1));
    assert_eq!(functions.len(), 3);
    assert!(functions.contains(&FunctionDeclaration::new("f".to_string(), 2)));

    let mut predicates = std::collections::HashSet::new();
    let mut output = PredicateDeclaration::new("p".to_string(), 0);
    output.is_output = true;
    predicates.insert(PredicateDeclaration::new("p".to_string(), 0));
    predicates.insert(output);
    predicates.insert(PredicateDeclaration::new("q".to_string(), 0));
    assert_eq!(predicates.len(), 2);
}
