//! The order of declarations, by name and among declarations of one name by arity, and their
//! hashing.

use vstd::prelude::*;
use std::cmp::Ordering;
use crate::ast::{FunctionDeclaration, PredicateDeclaration};
use crate::text::characters_of;

verus! {

/// Whether a text comes before another: at the first position where the two differ, it has the
/// lesser character, or it ends there and the other does not.
pub open spec fn text_precedes(left: Seq<char>, right: Seq<char>) -> bool
    decreases left.len(),
{
    if right.len() == 0 {
        false
    } else if left.len() == 0 {
        true
    } else if left[0] != right[0] {
        left[0] < right[0]
    } else {
        text_precedes(left.drop_first(), right.drop_first())
    }
}

/// Whether a declaration of name and arity comes before another: by name, and among
/// declarations of one name by arity.
pub open spec fn signature_precedes(
    left_name: Seq<char>,
    left_arity: usize,
    right_name: Seq<char>,
    right_arity: usize,
) -> bool {
    text_precedes(left_name, right_name) || (left_name == right_name && left_arity < right_arity)
}

/// No text comes before itself.
pub proof fn lemma_text_order_irreflexive(text: Seq<char>)
    ensures
        !text_precedes(text, text),
    decreases text.len(),
{
    if text.len() > 0 {
        lemma_text_order_irreflexive(text.drop_first());
    }
}

/// Of two different texts, one comes before the other.
pub proof fn lemma_text_order_total(left: Seq<char>, right: Seq<char>)
    ensures
        left == right || text_precedes(left, right) || text_precedes(right, left),
    decreases left.len(),
{
    if left.len() > 0 && right.len() > 0 && left[0] == right[0] {
        lemma_text_order_total(left.drop_first(), right.drop_first());
        if left.drop_first() == right.drop_first() {
            assert(left =~= seq![left[0]] + left.drop_first());
            assert(right =~= seq![right[0]] + right.drop_first());
        }
    } else if left.len() == 0 && right.len() == 0 {
        assert(left =~= right);
    }
}

/// Of two texts, not each comes before the other.
pub proof fn lemma_text_order_asymmetric(left: Seq<char>, right: Seq<char>)
    ensures
        !(text_precedes(left, right) && text_precedes(right, left)),
    decreases left.len(),
{
    if left.len() > 0 && right.len() > 0 && left[0] == right[0] {
        lemma_text_order_asymmetric(left.drop_first(), right.drop_first());
    }
}

/// What comes before a text comes before all that the text comes before.
pub proof fn lemma_text_order_transitive(first: Seq<char>, second: Seq<char>, third: Seq<char>)
    requires
        text_precedes(first, second),
        text_precedes(second, third),
    ensures
        text_precedes(first, third),
    decreases first.len(),
{
    if first.len() > 0 && first[0] == second[0] && second[0] == third[0] {
        lemma_text_order_transitive(first.drop_first(), second.drop_first(), third.drop_first());
    }
}

/// The order of declarations is a strict total order on names and arities: of two declarations,
/// exactly one comes first, unless name and arity are the same; and the order is transitive.
pub proof fn lemma_signature_order(
    first_name: Seq<char>,
    first_arity: usize,
    second_name: Seq<char>,
    second_arity: usize,
    third_name: Seq<char>,
    third_arity: usize,
)
    ensures
        !signature_precedes(first_name, first_arity, first_name, first_arity),
        !(signature_precedes(first_name, first_arity, second_name, second_arity)
            && signature_precedes(second_name, second_arity, first_name, first_arity)),
        (first_name == second_name && first_arity == second_arity) || signature_precedes(
            first_name,
            first_arity,
            second_name,
            second_arity,
        ) || signature_precedes(second_name, second_arity, first_name, first_arity),
        signature_precedes(first_name, first_arity, second_name, second_arity)
            && signature_precedes(second_name, second_arity, third_name, third_arity)
            ==> signature_precedes(first_name, first_arity, third_name, third_arity),
{
    lemma_text_order_irreflexive(first_name);
    lemma_text_order_irreflexive(second_name);
    lemma_text_order_asymmetric(first_name, second_name);
    lemma_text_order_total(first_name, second_name);
    if text_precedes(first_name, second_name) && text_precedes(second_name, third_name) {
        lemma_text_order_transitive(first_name, second_name, third_name);
    }
}

/// Whether a text comes before another.
pub fn text_comes_before(left: &str, right: &str) -> (result: bool)
    ensures
        result == text_precedes(left@, right@),
{
    let left_characters = characters_of(left);
    let right_characters = characters_of(right);
    let mut position: usize = 0;
    assert(left@.skip(0) =~= left@ && right@.skip(0) =~= right@);
    while position < left_characters.len() && position < right_characters.len()
        && left_characters[position] == right_characters[position]
        invariant
            left_characters@ == left@,
            right_characters@ == right@,
            position <= left@.len(),
            position <= right@.len(),
            text_precedes(left@, right@) == text_precedes(
                left@.skip(position as int),
                right@.skip(position as int),
            ),
        decreases left@.len() - position,
    {
        proof {
            let left_rest = left@.skip(position as int);
            let right_rest = right@.skip(position as int);
            assert(left_rest[0] == left@[position as int]);
            assert(right_rest[0] == right@[position as int]);
            assert(left_rest.drop_first() =~= left@.skip(position + 1));
            assert(right_rest.drop_first() =~= right@.skip(position + 1));
        }
        position += 1;
    }
    proof {
        let left_rest = left@.skip(position as int);
        let right_rest = right@.skip(position as int);
        if position < left@.len() {
            assert(left_rest[0] == left@[position as int]);
        }
        if position < right@.len() {
            assert(right_rest[0] == right@[position as int]);
        }
    }
    if position >= right_characters.len() {
        false
    } else if position >= left_characters.len() {
        true
    } else {
        left_characters[position] < right_characters[position]
    }
}

/// Whether a declaration of name and arity comes before another.
pub fn signature_comes_before(
    left_name: &str,
    left_arity: usize,
    right_name: &str,
    right_arity: usize,
) -> (result: bool)
    ensures
        result == signature_precedes(left_name@, left_arity, right_name@, right_arity),
{
    if text_comes_before(left_name, right_name) {
        true
    } else if text_comes_before(right_name, left_name) {
        proof {
            lemma_text_order_irreflexive(left_name@);
        }
        false
    } else {
        proof {
            lemma_text_order_total(left_name@, right_name@);
        }
        left_arity < right_arity
    }
}

impl PartialOrd for FunctionDeclaration {
    fn partial_cmp(&self, other: &FunctionDeclaration) -> (result: Option<Ordering>) {
        if signature_comes_before(
            self.name.as_str(),
            self.arity,
            other.name.as_str(),
            other.arity,
        ) {
            Some(Ordering::Less)
        } else if signature_comes_before(
            other.name.as_str(),
            other.arity,
            self.name.as_str(),
            self.arity,
        ) {
            Some(Ordering::Greater)
        } else {
            Some(Ordering::Equal)
        }
    }
}

impl vstd::std_specs::cmp::PartialOrdSpecImpl for FunctionDeclaration {
    open spec fn obeys_partial_cmp_spec() -> bool {
        true
    }

    open spec fn partial_cmp_spec(&self, other: &FunctionDeclaration) -> Option<Ordering> {
        if signature_precedes(self.name@, self.arity, other.name@, other.arity) {
            Some(Ordering::Less)
        } else if signature_precedes(other.name@, other.arity, self.name@, self.arity) {
            Some(Ordering::Greater)
        } else {
            Some(Ordering::Equal)
        }
    }
}

impl PartialOrd for PredicateDeclaration {
    fn partial_cmp(&self, other: &PredicateDeclaration) -> (result: Option<Ordering>) {
        if signature_comes_before(
            self.name.as_str(),
            self.arity,
            other.name.as_str(),
            other.arity,
        ) {
            Some(Ordering::Less)
        } else if signature_comes_before(
            other.name.as_str(),
            other.arity,
            self.name.as_str(),
            self.arity,
        ) {
            Some(Ordering::Greater)
        } else {
            Some(Ordering::Equal)
        }
    }
}

impl vstd::std_specs::cmp::PartialOrdSpecImpl for PredicateDeclaration {
    open spec fn obeys_partial_cmp_spec() -> bool {
        true
    }

    open spec fn partial_cmp_spec(&self, other: &PredicateDeclaration) -> Option<Ordering> {
        if signature_precedes(self.name@, self.arity, other.name@, other.arity) {
            Some(Ordering::Less)
        } else if signature_precedes(other.name@, other.arity, self.name@, self.arity) {
            Some(Ordering::Greater)
        } else {
            Some(Ordering::Equal)
        }
    }
}


impl std::hash::Hash for FunctionDeclaration {
    /// Feeds name and arity, and nothing else, to the hasher: declarations that are equal hash
    /// alike. Calls `Hash::hash` of the pair of name and arity.
    #[verifier::external_body]
    fn hash<H: std::hash::Hasher>(&self, state: &mut H) {
        (&self.name, self.arity).hash(state)
    }
}

impl std::hash::Hash for PredicateDeclaration {
    /// Feeds name and arity, and nothing else, to the hasher: declarations that are equal hash
    /// alike. Calls `Hash::hash` of the pair of name and arity.
    #[verifier::external_body]
    fn hash<H: std::hash::Hasher>(&self, state: &mut H) {
        (&self.name, self.arity).hash(state)
    }
}

} // verus!
