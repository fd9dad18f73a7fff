//! The two sorts of the target language and how a variable's sort follows from its name.

use vstd::prelude::*;
use crate::error::{Error, ErrorView, KindView};

verus! {

/// The sort over which a symbol ranges.
#[derive(Clone, Copy, Debug, PartialEq, Eq, Structural, PartialOrd, Ord, Hash)]
pub enum Domain {
    Program,
    Integer,
}

/// The name without its leading underscores.
pub open spec fn strip_underscores(name: Seq<char>) -> Seq<char>
    decreases name.len(),
{
    if name.len() > 0 && name[0] == '_' {
        strip_underscores(name.drop_first())
    } else {
        name
    }
}

/// The sort that a leading letter stands for, if it stands for one.
pub open spec fn domain_of_letter(letter: char) -> Option<Domain> {
    if letter == 'I' || letter == 'J' || letter == 'K' || letter == 'L' || letter == 'M' || letter
        == 'N' {
        Some(Domain::Integer)
    } else if letter == 'X' || letter == 'Y' || letter == 'Z' {
        Some(Domain::Program)
    } else {
        None
    }
}

/// The sort of a user-defined variable, which its name alone decides: the first character after
/// any leading underscores. `None` where the name is not allowed.
pub open spec fn domain_of_name(name: Seq<char>) -> Option<Domain> {
    let rest = strip_underscores(name);
    if rest.len() == 0 {
        None
    } else {
        domain_of_letter(rest[0])
    }
}

/// A run of `count` underscores.
pub open spec fn underscores(count: nat) -> Seq<char> {
    Seq::new(count, |i: int| '_')
}

/// Leading underscores do not count: behind any number of them, the first other character decides
/// the sort.
pub proof fn lemma_leading_letter_decides(count: nat, letter: char, rest: Seq<char>)
    requires
        letter != '_',
    ensures
        domain_of_name(underscores(count) + seq![letter] + rest) == domain_of_letter(letter),
    decreases count,
{
    let name = underscores(count) + seq![letter] + rest;
    if count == 0 {
        assert(name[0] == letter);
        assert(strip_underscores(name) == name);
    } else {
        let shorter = underscores((count - 1) as nat) + seq![letter] + rest;
        assert(name[0] == '_');
        assert(name.drop_first() =~= shorter);
        lemma_leading_letter_decides((count - 1) as nat, letter, rest);
    }
}

/// A name made of underscores alone has no sort.
pub proof fn lemma_underscores_have_no_domain(count: nat)
    ensures
        domain_of_name(underscores(count)) is None,
    decreases count,
{
    let name = underscores(count);
    if count > 0 {
        assert(name[0] == '_');
        assert(name.drop_first() =~= underscores((count - 1) as nat));
        lemma_underscores_have_no_domain((count - 1) as nat);
    }
}

/// Stripping leaves a suffix of the name that does not start with an underscore.
pub proof fn lemma_strip_underscores(name: Seq<char>, skipped: int)
    requires
        0 <= skipped <= name.len(),
        forall|i: int| 0 <= i < skipped ==> name[i] == '_',
        skipped < name.len() ==> name[skipped] != '_',
    ensures
        strip_underscores(name) == name.subrange(skipped, name.len() as int),
    decreases skipped,
{
    if skipped == 0 {
        assert(name.subrange(0, name.len() as int) =~= name);
    } else {
        let tail = name.drop_first();
        assert forall|i: int| 0 <= i < skipped - 1 implies tail[i] == '_' by {
            assert(tail[i] == name[i + 1]);
        }
        lemma_strip_underscores(tail, skipped - 1);
        assert(tail.subrange(skipped - 1, tail.len() as int) =~= name.subrange(
            skipped,
            name.len() as int,
        ));
    }
}

impl Domain {
    /// Infers the sort of a user-defined variable from its name.
    pub fn from_variable_name(name: &str) -> (result: Result<Domain, Error>)
        ensures
            match result {
                Ok(domain) => domain_of_name(name@) == Some(domain),
                Err(error) => domain_of_name(name@) is None && error@
                    == ErrorView::of_kind(KindView::VariableNameNotAllowed(name@)),
            },
    {
        let length = name.unicode_len();
        let mut position: usize = 0;
        while position < length && name.get_char(position) == '_'
            invariant
                length == name@.len(),
                position <= length,
                forall|i: int| 0 <= i < position ==> name@[i] == '_',
            decreases length - position,
        {
            position += 1;
        }
        proof {
            lemma_strip_underscores(name@, position as int);
        }
        if position == length {
            return Err(Error::new_variable_name_not_allowed(name.to_owned()));
        }
        let letter = name.get_char(position);
        if letter == 'I' || letter == 'J' || letter == 'K' || letter == 'L' || letter == 'M'
            || letter == 'N' {
            Ok(Domain::Integer)
        } else if letter == 'X' || letter == 'Y' || letter == 'Z' {
            Ok(Domain::Program)
        } else {
            Err(Error::new_variable_name_not_allowed(name.to_owned()))
        }
    }
}

} // verus!
