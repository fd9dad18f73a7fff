//! The tables in which function and predicate declarations are interned.
//!
//! A table never holds two declarations of one name and arity, and never drops or moves a
//! declaration: the position of a declaration in its table is its handle for as long as the table
//! lives.

use vstd::prelude::*;
use crate::ast::{
    FunctionDeclaration,
    FunctionDeclarationView,
    PredicateDeclaration,
    PredicateDeclarationView,
};
use crate::domain::Domain;

verus! {

/// Whether a table of function declarations holds one of the given name and arity.
pub open spec fn declares_function(
    declarations: Seq<FunctionDeclarationView>,
    name: Seq<char>,
    arity: usize,
) -> bool {
    exists|i: int|
        0 <= i < declarations.len() && (#[trigger] declarations[i]).matches_signature(name, arity)
}

/// Whether no two declarations of a table share name and arity.
pub open spec fn distinct_functions(declarations: Seq<FunctionDeclarationView>) -> bool {
    forall|i: int, j: int|
        0 <= i < j < declarations.len() ==> !(#[trigger] declarations[i]).matches_signature(
            (#[trigger] declarations[j]).name,
            declarations[j].arity,
        )
}

/// What looking a function up, and declaring it where it is missing, makes of a table: `handle` is
/// where the function then stands.
pub open spec fn function_interned(
    before: Seq<FunctionDeclarationView>,
    name: Seq<char>,
    arity: usize,
    after: Seq<FunctionDeclarationView>,
    handle: usize,
) -> bool {
    &&& handle < after.len()
    &&& after[handle as int].matches_signature(name, arity)
    &&& if declares_function(before, name, arity) {
        after == before
    } else {
        after == before.push(FunctionDeclarationView::new(name, arity)) && handle == before.len()
    }
}

/// Interning is idempotent: asked twice for one name and arity, a table answers with the same
/// handle, and the second request changes nothing.
pub proof fn lemma_function_interned_twice(
    before: Seq<FunctionDeclarationView>,
    name: Seq<char>,
    arity: usize,
    between: Seq<FunctionDeclarationView>,
    first: usize,
    after: Seq<FunctionDeclarationView>,
    second: usize,
)
    requires
        distinct_functions(before),
        function_interned(before, name, arity, between, first),
        function_interned(between, name, arity, after, second),
    ensures
        first == second,
        after == between,
        distinct_functions(after),
{
    assert(between[first as int].matches_signature(name, arity));
    assert(declares_function(between, name, arity));
    lemma_function_interned_distinct(before, name, arity, between, first);
    if first < second {
        assert(!between[first as int].matches_signature(
            between[second as int].name,
            between[second as int].arity,
        ));
    } else if second < first {
        assert(!between[second as int].matches_signature(
            between[first as int].name,
            between[first as int].arity,
        ));
    }
}

/// Interning keeps the declarations of a table distinct.
pub proof fn lemma_function_interned_distinct(
    before: Seq<FunctionDeclarationView>,
    name: Seq<char>,
    arity: usize,
    after: Seq<FunctionDeclarationView>,
    handle: usize,
)
    requires
        distinct_functions(before),
        function_interned(before, name, arity, after, handle),
    ensures
        distinct_functions(after),
{
    if !declares_function(before, name, arity) {
        assert forall|i: int, j: int| 0 <= i < j < after.len() implies !(#[trigger] after[i]).matches_signature(
            (#[trigger] after[j]).name,
            after[j].arity,
        ) by {
            if j == before.len() {
                assert(after[i] == before[i]);
                if before[i].matches_signature(name, arity) {
                    assert(declares_function(before, name, arity));
                }
            } else {
                assert(after[i] == before[i] && after[j] == before[j]);
            }
        }
    }
}

/// Functions of different name or arity stand at different handles, and one function stands at
/// one handle only.
pub proof fn lemma_function_handles(
    declarations: Seq<FunctionDeclarationView>,
    first: int,
    second: int,
)
    requires
        distinct_functions(declarations),
        0 <= first < declarations.len(),
        0 <= second < declarations.len(),
    ensures
        first == second <==> declarations[first].matches_signature(
            declarations[second].name,
            declarations[second].arity,
        ),
{
    if first < second {
        assert(!declarations[first].matches_signature(
            declarations[second].name,
            declarations[second].arity,
        ));
    } else if second < first {
        assert(!declarations[second].matches_signature(
            declarations[first].name,
            declarations[first].arity,
        ));
    }
}

/// The table of function declarations.
#[derive(Debug)]
pub struct FunctionDeclarations {
    declarations: Vec<FunctionDeclaration>,
}

impl View for FunctionDeclarations {
    type V = Seq<FunctionDeclarationView>;

    closed spec fn view(&self) -> Seq<FunctionDeclarationView> {
        Seq::new(self.declarations@.len(), |i: int| self.declarations@[i]@)
    }
}

impl FunctionDeclarations {
    /// The table's invariant: no two of its declarations share name and arity.
    pub open spec fn wf(&self) -> bool {
        distinct_functions(self@)
    }

    pub fn new() -> (declarations: FunctionDeclarations)
        ensures
            declarations@ == Seq::<FunctionDeclarationView>::empty(),
            declarations.wf(),
    {
        let declarations = FunctionDeclarations { declarations: Vec::new() };
        assert(declarations@ =~= Seq::<FunctionDeclarationView>::empty());
        declarations
    }

    pub fn len(&self) -> (length: usize)
        ensures
            length == self@.len(),
    {
        self.declarations.len()
    }

    /// The declaration at a handle, if the table has one there.
    pub fn get(&self, handle: usize) -> (declaration: Option<&FunctionDeclaration>)
        ensures
            match declaration {
                Some(declaration) => handle < self@.len() && declaration@ == self@[handle as int],
                None => handle >= self@.len(),
            },
    {
        if handle < self.declarations.len() {
            Some(&self.declarations[handle])
        } else {
            None
        }
    }

    /// The handle of the function of the given name and arity, if it is declared.
    pub fn find(&self, name: &str, arity: usize) -> (handle: Option<usize>)
        ensures
            match handle {
                Some(handle) => handle < self@.len() && self@[handle as int].matches_signature(
                    name@,
                    arity,
                ),
                None => !declares_function(self@, name@, arity),
            },
    {
        let mut position: usize = 0;
        while position < self.declarations.len()
            invariant
                position <= self.declarations@.len(),
                forall|i: int|
                    0 <= i < position ==> !(#[trigger] self@[i]).matches_signature(name@, arity),
            decreases self.declarations@.len() - position,
        {
            if self.declarations[position].matches_signature(name, arity) {
                return Some(position);
            }
            position += 1;
        }
        None
    }

    /// The handle of the function of the given name and arity, which is declared first where it
    /// is not yet.
    pub fn get_or_create(&mut self, name: &str, arity: usize) -> (handle: usize)
        requires
            old(self).wf(),
        ensures
            final(self).wf(),
            function_interned(old(self)@, name@, arity, final(self)@, handle),
    {
        match self.find(name, arity) {
            Some(handle) => {
                assert(declares_function(self@, name@, arity));
                handle
            },
            None => {
                let handle = self.declarations.len();
                self.declarations.push(FunctionDeclaration::new(name.to_owned(), arity));
                proof {
                    assert(self@ =~= old(self)@.push(FunctionDeclarationView::new(name@, arity)));
                    lemma_function_interned_distinct(old(self)@, name@, arity, self@, handle);
                }
                handle
            },
        }
    }

    /// Records that a specification declared the function at `handle` as input, with values of
    /// the given sort. Returns whether there is such a function; nothing changes where not.
    pub fn declare_input(&mut self, handle: usize, domain: Domain) -> (declared: bool)
        requires
            old(self).wf(),
        ensures
            final(self).wf(),
            declared == (handle < old(self)@.len()),
            declared ==> final(self)@ == old(self)@.update(
                handle as int,
                FunctionDeclarationView { domain, is_input: true, ..old(self)@[handle as int] },
            ),
            !declared ==> final(self)@ == old(self)@,
    {
        if handle >= self.declarations.len() {
            return false;
        }
        let declaration = &self.declarations[handle];
        let updated = FunctionDeclaration {
            name: declaration.name.clone(),
            arity: declaration.arity,
            domain,
            is_input: true,
        };
        self.declarations.set(handle, updated);
        proof {
            assert(self@ =~= old(self)@.update(
                handle as int,
                FunctionDeclarationView { domain, is_input: true, ..old(self)@[handle as int] },
            ));
            assert forall|i: int, j: int| 0 <= i < j < self@.len() implies !(#[trigger] self@[i]).matches_signature(
                (#[trigger] self@[j]).name,
                self@[j].arity,
            ) by {
                assert(self@[i].name == old(self)@[i].name && self@[i].arity == old(self)@[i].arity);
                assert(self@[j].name == old(self)@[j].name && self@[j].arity == old(self)@[j].arity);
            }
        }
        true
    }
}

/// Whether a table of predicate declarations holds one of the given name and arity.
pub open spec fn declares_predicate(
    declarations: Seq<PredicateDeclarationView>,
    name: Seq<char>,
    arity: usize,
) -> bool {
    exists|i: int|
        0 <= i < declarations.len() && (#[trigger] declarations[i]).matches_signature(name, arity)
}

/// Whether no two declarations of a table share name and arity.
pub open spec fn distinct_predicates(declarations: Seq<PredicateDeclarationView>) -> bool {
    forall|i: int, j: int|
        0 <= i < j < declarations.len() ==> !(#[trigger] declarations[i]).matches_signature(
            (#[trigger] declarations[j]).name,
            declarations[j].arity,
        )
}

/// What looking a predicate up, and declaring it where it is missing, makes of a table: `handle` is
/// where the predicate then stands.
pub open spec fn predicate_interned(
    before: Seq<PredicateDeclarationView>,
    name: Seq<char>,
    arity: usize,
    after: Seq<PredicateDeclarationView>,
    handle: usize,
) -> bool {
    &&& handle < after.len()
    &&& after[handle as int].matches_signature(name, arity)
    &&& if declares_predicate(before, name, arity) {
        after == before
    } else {
        after == before.push(PredicateDeclarationView::new(name, arity)) && handle == before.len()
    }
}

/// Interning is idempotent: asked twice for one name and arity, a table answers with the same
/// handle, and the second request changes nothing.
pub proof fn lemma_predicate_interned_twice(
    before: Seq<PredicateDeclarationView>,
    name: Seq<char>,
    arity: usize,
    between: Seq<PredicateDeclarationView>,
    first: usize,
    after: Seq<PredicateDeclarationView>,
    second: usize,
)
    requires
        distinct_predicates(before),
        predicate_interned(before, name, arity, between, first),
        predicate_interned(between, name, arity, after, second),
    ensures
        first == second,
        after == between,
        distinct_predicates(after),
{
    assert(between[first as int].matches_signature(name, arity));
    assert(declares_predicate(between, name, arity));
    lemma_predicate_interned_distinct(before, name, arity, between, first);
    if first < second {
        assert(!between[first as int].matches_signature(
            between[second as int].name,
            between[second as int].arity,
        ));
    } else if second < first {
        assert(!between[second as int].matches_signature(
            between[first as int].name,
            between[first as int].arity,
        ));
    }
}

/// Interning keeps the declarations of a table distinct.
pub proof fn lemma_predicate_interned_distinct(
    before: Seq<PredicateDeclarationView>,
    name: Seq<char>,
    arity: usize,
    after: Seq<PredicateDeclarationView>,
    handle: usize,
)
    requires
        distinct_predicates(before),
        predicate_interned(before, name, arity, after, handle),
    ensures
        distinct_predicates(after),
{
    if !declares_predicate(before, name, arity) {
        assert forall|i: int, j: int| 0 <= i < j < after.len() implies !(#[trigger] after[i]).matches_signature(
            (#[trigger] after[j]).name,
            after[j].arity,
        ) by {
            if j == before.len() {
                assert(after[i] == before[i]);
                if before[i].matches_signature(name, arity) {
                    assert(declares_predicate(before, name, arity));
                }
            } else {
                assert(after[i] == before[i] && after[j] == before[j]);
            }
        }
    }
}

/// Predicates of different name or arity stand at different handles, and one predicate stands at
/// one handle only.
pub proof fn lemma_predicate_handles(
    declarations: Seq<PredicateDeclarationView>,
    first: int,
    second: int,
)
    requires
        distinct_predicates(declarations),
        0 <= first < declarations.len(),
        0 <= second < declarations.len(),
    ensures
        first == second <==> declarations[first].matches_signature(
            declarations[second].name,
            declarations[second].arity,
        ),
{
    if first < second {
        assert(!declarations[first].matches_signature(
            declarations[second].name,
            declarations[second].arity,
        ));
    } else if second < first {
        assert(!declarations[second].matches_signature(
            declarations[first].name,
            declarations[first].arity,
        ));
    }
}

/// The table of predicate declarations.
#[derive(Debug)]
pub struct PredicateDeclarations {
    declarations: Vec<PredicateDeclaration>,
}

impl View for PredicateDeclarations {
    type V = Seq<PredicateDeclarationView>;

    closed spec fn view(&self) -> Seq<PredicateDeclarationView> {
        Seq::new(self.declarations@.len(), |i: int| self.declarations@[i]@)
    }
}

impl PredicateDeclarations {
    /// The table's invariant: no two of its declarations share name and arity.
    pub open spec fn wf(&self) -> bool {
        distinct_predicates(self@)
    }

    pub fn new() -> (declarations: PredicateDeclarations)
        ensures
            declarations@ == Seq::<PredicateDeclarationView>::empty(),
            declarations.wf(),
    {
        let declarations = PredicateDeclarations { declarations: Vec::new() };
        assert(declarations@ =~= Seq::<PredicateDeclarationView>::empty());
        declarations
    }

    pub fn len(&self) -> (length: usize)
        ensures
            length == self@.len(),
    {
        self.declarations.len()
    }

    /// The declaration at a handle, if the table has one there.
    pub fn get(&self, handle: usize) -> (declaration: Option<&PredicateDeclaration>)
        ensures
            match declaration {
                Some(declaration) => handle < self@.len() && declaration@ == self@[handle as int],
                None => handle >= self@.len(),
            },
    {
        if handle < self.declarations.len() {
            Some(&self.declarations[handle])
        } else {
            None
        }
    }

    /// The handle of the predicate of the given name and arity, if it is declared.
    pub fn find(&self, name: &str, arity: usize) -> (handle: Option<usize>)
        ensures
            match handle {
                Some(handle) => handle < self@.len() && self@[handle as int].matches_signature(
                    name@,
                    arity,
                ),
                None => !declares_predicate(self@, name@, arity),
            },
    {
        let mut position: usize = 0;
        while position < self.declarations.len()
            invariant
                position <= self.declarations@.len(),
                forall|i: int|
                    0 <= i < position ==> !(#[trigger] self@[i]).matches_signature(name@, arity),
            decreases self.declarations@.len() - position,
        {
            if self.declarations[position].matches_signature(name, arity) {
                return Some(position);
            }
            position += 1;
        }
        None
    }

    /// The handle of the predicate of the given name and arity, which is declared first where it
    /// is not yet.
    pub fn get_or_create(&mut self, name: &str, arity: usize) -> (handle: usize)
        requires
            old(self).wf(),
        ensures
            final(self).wf(),
            predicate_interned(old(self)@, name@, arity, final(self)@, handle),
    {
        match self.find(name, arity) {
            Some(handle) => {
                assert(declares_predicate(self@, name@, arity));
                handle
            },
            None => {
                let handle = self.declarations.len();
                self.declarations.push(PredicateDeclaration::new(name.to_owned(), arity));
                proof {
                    assert(self@ =~= old(self)@.push(PredicateDeclarationView::new(name@, arity)));
                    lemma_predicate_interned_distinct(old(self)@, name@, arity, self@, handle);
                }
                handle
            },
        }
    }

    /// Records that a specification declared the predicate at `handle` as input. Returns
    /// whether there is such a predicate; nothing changes where not.
    pub fn declare_input(&mut self, handle: usize) -> (declared: bool)
        requires
            old(self).wf(),
        ensures
            final(self).wf(),
            declared == (handle < old(self)@.len()),
            declared ==> final(self)@ == old(self)@.update(
                handle as int,
                PredicateDeclarationView { is_input: true, ..old(self)@[handle as int] },
            ),
            !declared ==> final(self)@ == old(self)@,
    {
        if handle >= self.declarations.len() {
            return false;
        }
        let declaration = &self.declarations[handle];
        let updated = PredicateDeclaration {
            name: declaration.name.clone(),
            arity: declaration.arity,
            is_input: true,
            is_output: declaration.is_output,
        };
        self.declarations.set(handle, updated);
        proof {
            assert(self@ =~= old(self)@.update(
                handle as int,
                PredicateDeclarationView { is_input: true, ..old(self)@[handle as int] },
            ));
            assert forall|i: int, j: int| 0 <= i < j < self@.len() implies !(#[trigger] self@[i]).matches_signature(
                (#[trigger] self@[j]).name,
                self@[j].arity,
            ) by {
                assert(self@[i].name == old(self)@[i].name && self@[i].arity == old(self)@[i].arity);
                assert(self@[j].name == old(self)@[j].name && self@[j].arity == old(self)@[j].arity);
            }
        }
        true
    }

    /// Records that a specification declared the predicate at `handle` as output. Returns
    /// whether there is such a predicate; nothing changes where not.
    pub fn declare_output(&mut self, handle: usize) -> (declared: bool)
        requires
            old(self).wf(),
        ensures
            final(self).wf(),
            declared == (handle < old(self)@.len()),
            declared ==> final(self)@ == old(self)@.update(
                handle as int,
                PredicateDeclarationView { is_output: true, ..old(self)@[handle as int] },
            ),
            !declared ==> final(self)@ == old(self)@,
    {
        if handle >= self.declarations.len() {
            return false;
        }
        let declaration = &self.declarations[handle];
        let updated = PredicateDeclaration {
            name: declaration.name.clone(),
            arity: declaration.arity,
            is_input: declaration.is_input,
            is_output: true,
        };
        self.declarations.set(handle, updated);
        proof {
            assert(self@ =~= old(self)@.update(
                handle as int,
                PredicateDeclarationView { is_output: true, ..old(self)@[handle as int] },
            ));
            assert forall|i: int, j: int| 0 <= i < j < self@.len() implies !(#[trigger] self@[i]).matches_signature(
                (#[trigger] self@[j]).name,
                self@[j].arity,
            ) by {
                assert(self@[i].name == old(self)@[i].name && self@[i].arity == old(self)@[i].arity);
                assert(self@[j].name == old(self)@[j].name && self@[j].arity == old(self)@[j].arity);
            }
        }
        true
    }
}

} // verus!
