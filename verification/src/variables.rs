//! Variable declarations: the table that holds them, the sorts and numbers assigned to them, and
//! the stack of scopes in which names are looked up.

use vstd::prelude::*;
use std::collections::BTreeMap;
use crate::ast::{
    GeneratedVariableName,
    VariableDeclaration,
    VariableName,
    VariableNameView,
};
use crate::domain::Domain;
use crate::error::{Error, ErrorView, KindView};

verus! {

broadcast use vstd::std_specs::btree::group_btree_axioms;

/// A table of variable declarations after the generated variable at a handle is given the
/// number under which it is shown. A variable that has a number keeps it.
pub open spec fn with_id(declarations: Seq<VariableNameView>, handle: usize, id: usize) -> Seq<
    VariableNameView,
> {
    if handle < declarations.len() {
        match declarations[handle as int] {
            VariableNameView::Generated(GeneratedVariableName { domain, id: None }) => declarations.update(
                handle as int,
                VariableNameView::Generated(GeneratedVariableName { domain, id: Some(id) }),
            ),
            _ => declarations,
        }
    } else {
        declarations
    }
}

/// The table of variable declarations. The position of a declaration in it is the declaration's
/// handle; declarations are added at the end and never dropped.
#[derive(Debug)]
pub struct VariableDeclarations {
    declarations: Vec<VariableDeclaration>,
}

impl View for VariableDeclarations {
    type V = Seq<VariableNameView>;

    closed spec fn view(&self) -> Seq<VariableNameView> {
        Seq::new(self.declarations@.len(), |i: int| self.declarations@[i]@)
    }
}

impl VariableDeclarations {
    pub fn new() -> (declarations: VariableDeclarations)
        ensures
            declarations@ == Seq::<VariableNameView>::empty(),
    {
        let declarations = VariableDeclarations { declarations: Vec::new() };
        assert(declarations@ =~= Seq::<VariableNameView>::empty());
        declarations
    }

    pub fn len(&self) -> (length: usize)
        ensures
            length == self@.len(),
    {
        self.declarations.len()
    }

    /// The declaration at a handle, if the table has one there.
    pub fn get(&self, handle: usize) -> (declaration: Option<&VariableDeclaration>)
        ensures
            match declaration {
                Some(declaration) => handle < self@.len() && declaration@ == self@[handle as int],
                None => handle >= self@.len(),
            },
    {
        if handle < self.declarations.len() {
            Some(&self.declarations[handle])
        } else {
            None
        }
    }

    /// Gives the generated variable at a handle the number under which it is shown, unless it
    /// has one: a number that is assigned never changes. Nothing changes for a user-defined
    /// variable or where the table has no declaration.
    pub fn assign_id(&mut self, handle: usize, id: usize)
        ensures
            final(self)@ == with_id(old(self)@, handle, id),
    {
        if handle >= self.declarations.len() {
            return ;
        }
        let domain = match &self.declarations[handle].name {
            VariableName::Generated(generated_variable_name) => {
                if generated_variable_name.id.is_some() {
                    return ;
                }
                generated_variable_name.domain
            },
            VariableName::UserDefined(_) => {
                return ;
            },
        };
        let numbered = VariableDeclaration {
            name: VariableName::Generated(GeneratedVariableName { domain, id: Some(id) }),
        };
        self.declarations.set(handle, numbered);
        assert(self@ =~= with_id(old(self)@, handle, id));
    }

    /// Adds a declaration and returns its handle.
    pub fn add(&mut self, declaration: VariableDeclaration) -> (handle: usize)
        ensures
            handle == old(self)@.len(),
            final(self)@ == old(self)@.push(declaration@),
    {
        let handle = self.declarations.len();
        self.declarations.push(declaration);
        assert(self@ =~= old(self)@.push(declaration@));
        handle
    }
}

/// What recording a sort for a variable makes of the recorded sorts: the variable has the sort
/// from then on, unless another sort was recorded for it before, which is an error.
pub open spec fn domain_assigned(
    before: Map<usize, Domain>,
    variable_declaration: usize,
    domain: Domain,
) -> Result<Map<usize, Domain>, ErrorView> {
    if before.contains_key(variable_declaration) && before[variable_declaration] != domain {
        Err(ErrorView::of_kind(KindView::Logic("inconsistent variable declaration domain"@)))
    } else {
        Ok(before.insert(variable_declaration, domain))
    }
}

/// Recording a sort a second time changes nothing.
pub proof fn lemma_domain_assigned_twice(
    before: Map<usize, Domain>,
    variable_declaration: usize,
    domain: Domain,
)
    requires
        domain_assigned(before, variable_declaration, domain) is Ok,
    ensures
        ({
            let between = domain_assigned(before, variable_declaration, domain)->Ok_0;
            domain_assigned(between, variable_declaration, domain) == Ok::<
                Map<usize, Domain>,
                ErrorView,
            >(between)
        }),
{
    let between = before.insert(variable_declaration, domain);
    assert(between.insert(variable_declaration, domain) =~= between);
}

/// Once a sort is recorded for a variable, no other sort can be.
pub proof fn lemma_domain_assigned_differing(
    before: Map<usize, Domain>,
    variable_declaration: usize,
    domain: Domain,
    other: Domain,
)
    requires
        domain_assigned(before, variable_declaration, domain) is Ok,
        other != domain,
    ensures
        domain_assigned(
            domain_assigned(before, variable_declaration, domain)->Ok_0,
            variable_declaration,
            other,
        ) is Err,
{
}

/// The sorts recorded for variable declarations, by handle.
#[derive(Debug)]
pub struct VariableDeclarationDomains {
    domains: BTreeMap<usize, Domain>,
}

impl View for VariableDeclarationDomains {
    type V = Map<usize, Domain>;

    closed spec fn view(&self) -> Map<usize, Domain> {
        self.domains@
    }
}

impl VariableDeclarationDomains {
    pub fn new() -> (domains: VariableDeclarationDomains)
        ensures
            domains@ == Map::<usize, Domain>::empty(),
    {
        VariableDeclarationDomains { domains: BTreeMap::new() }
    }

    /// The sort recorded for a variable, if one is.
    pub fn get(&self, variable_declaration: usize) -> (domain: Option<Domain>)
        ensures
            domain == if self@.contains_key(variable_declaration) {
                Some(self@[variable_declaration])
            } else {
                None
            },
    {
        match self.domains.get(&variable_declaration) {
            Some(domain) => Some(*domain),
            None => None,
        }
    }

    /// Records the sort of a variable. To record the sort that is recorded already changes
    /// nothing; to record another is an error, and changes nothing either.
    pub fn assign(&mut self, variable_declaration: usize, domain: Domain) -> (result: Result<
        (),
        Error,
    >)
        ensures
            match domain_assigned(old(self)@, variable_declaration, domain) {
                Ok(domains) => result is Ok && final(self)@ == domains,
                Err(expected) => {
                    &&& result matches Err(error)
                    &&& error@ == expected
                    &&& final(self)@ == old(self)@
                },
            },
    {
        match self.domains.get(&variable_declaration) {
            Some(current_domain) => {
                if *current_domain != domain {
                    return Err(Error::new_logic("inconsistent variable declaration domain"));
                }
                assert(self@.insert(variable_declaration, domain) =~= self@);
            },
            None => {
                self.domains.insert(variable_declaration, domain);
            },
        }
        Ok(())
    }
}

/// Whether a table of numbers holds, for the variables in it, the numbers from 0 up to their
/// count, each once.
pub open spec fn numbered(ids: Map<usize, usize>) -> bool {
    &&& ids.dom().finite()
    &&& forall|variable_declaration: usize| #[trigger]
        ids.contains_key(variable_declaration) ==> ids[variable_declaration] < ids.len()
    &&& forall|first: usize, second: usize|
        ids.contains_key(first) && ids.contains_key(second) && first != second ==> #[trigger] ids[first]
            != #[trigger] ids[second]
}

/// What asking for a variable's number makes of the table: a variable that has a number keeps it,
/// another gets the next free one, which is the count of the variables numbered so far.
pub open spec fn id_assigned(
    before: Map<usize, usize>,
    variable_declaration: usize,
    after: Map<usize, usize>,
    id: usize,
) -> bool {
    if before.contains_key(variable_declaration) {
        after == before && id == before[variable_declaration]
    } else {
        after == before.insert(variable_declaration, id) && id == before.len()
    }
}

/// A variable keeps its number: asked again, the table answers as before and does not change.
pub proof fn lemma_id_assigned_twice(
    before: Map<usize, usize>,
    variable_declaration: usize,
    between: Map<usize, usize>,
    first: usize,
    after: Map<usize, usize>,
    second: usize,
)
    requires
        id_assigned(before, variable_declaration, between, first),
        id_assigned(between, variable_declaration, after, second),
    ensures
        first == second,
        after == between,
{
}

/// Numbers are handed out in the order of the first requests: another variable's first request
/// gets the number that follows.
pub proof fn lemma_id_assigned_next(
    before: Map<usize, usize>,
    first_declaration: usize,
    between: Map<usize, usize>,
    first: usize,
    second_declaration: usize,
    after: Map<usize, usize>,
    second: usize,
)
    requires
        numbered(before),
        !before.contains_key(first_declaration),
        !before.contains_key(second_declaration),
        first_declaration != second_declaration,
        id_assigned(before, first_declaration, between, first),
        id_assigned(between, second_declaration, after, second),
    ensures
        second == first + 1,
{
    assert(!between.contains_key(second_declaration));
    assert(between.len() == before.len() + 1);
}

/// Numbers start at 0: that is the number of the first variable that is asked for.
pub proof fn lemma_id_assigned_first(
    variable_declaration: usize,
    after: Map<usize, usize>,
    id: usize,
)
    requires
        id_assigned(Map::empty(), variable_declaration, after, id),
    ensures
        id == 0,
        after == Map::<usize, usize>::empty().insert(variable_declaration, 0),
{
}

/// Asking for a number keeps the numbering.
pub proof fn lemma_id_assigned_numbered(
    before: Map<usize, usize>,
    variable_declaration: usize,
    after: Map<usize, usize>,
    id: usize,
)
    requires
        numbered(before),
        id_assigned(before, variable_declaration, after, id),
    ensures
        numbered(after),
{
    if !before.contains_key(variable_declaration) {
        assert(after.len() == before.len() + 1);
        assert forall|key: usize| #[trigger] after.contains_key(key) implies after[key]
            < after.len() by {
            if key != variable_declaration {
                assert(before.contains_key(key));
            }
        }
        assert forall|first: usize, second: usize|
            after.contains_key(first) && after.contains_key(second) && first
                != second implies #[trigger] after[first] != #[trigger] after[second] by {
            if first != variable_declaration {
                assert(before.contains_key(first));
            }
            if second != variable_declaration {
                assert(before.contains_key(second));
            }
        }
    }
}

/// In a numbering, two variables never share a number.
pub proof fn lemma_numbered_unique(ids: Map<usize, usize>, first: usize, second: usize)
    requires
        numbered(ids),
        ids.contains_key(first),
        ids.contains_key(second),
    ensures
        ids[first] == ids[second] <==> first == second,
{
}

/// The numbers under which generated variables are shown, by handle.
#[derive(Debug)]
pub struct VariableDeclarationIds {
    ids: BTreeMap<usize, usize>,
}

impl View for VariableDeclarationIds {
    type V = Map<usize, usize>;

    closed spec fn view(&self) -> Map<usize, usize> {
        self.ids@
    }
}

impl VariableDeclarationIds {
    /// The table's invariant: the numbers are those from 0 up to their count, each once.
    pub open spec fn wf(&self) -> bool {
        numbered(self@)
    }

    pub fn new() -> (ids: VariableDeclarationIds)
        ensures
            ids@ == Map::<usize, usize>::empty(),
            ids.wf(),
    {
        VariableDeclarationIds { ids: BTreeMap::new() }
    }

    /// The number of a variable. A variable that has none yet gets the next free one.
    pub fn get_or_assign(&mut self, variable_declaration: usize) -> (id: usize)
        requires
            old(self).wf(),
        ensures
            final(self).wf(),
            id_assigned(old(self)@, variable_declaration, final(self)@, id),
    {
        match self.ids.get(&variable_declaration) {
            Some(id) => *id,
            None => {
                let id = self.ids.len();
                self.ids.insert(variable_declaration, id);
                proof {
                    lemma_id_assigned_numbered(old(self)@, variable_declaration, self@, id);
                }
                id
            },
        }
    }
}


/// One scope of variables: the declarations that the scope introduces, and the declarations of
/// the anonymous variables that occur in it.
#[derive(Debug, PartialEq, Eq)]
pub struct VariableDeclarationStackLayer {
    pub variable_declarations: Vec<usize>,
    pub free_variable_declarations: Vec<usize>,
}

pub struct VariableDeclarationStackLayerView {
    pub variable_declarations: Seq<usize>,
    pub free_variable_declarations: Seq<usize>,
}

impl View for VariableDeclarationStackLayer {
    type V = VariableDeclarationStackLayerView;

    open spec fn view(&self) -> VariableDeclarationStackLayerView {
        VariableDeclarationStackLayerView {
            variable_declarations: self.variable_declarations@,
            free_variable_declarations: self.free_variable_declarations@,
        }
    }
}

impl VariableDeclarationStackLayerView {
    /// A scope that has introduced nothing yet.
    pub open spec fn empty() -> VariableDeclarationStackLayerView {
        VariableDeclarationStackLayerView {
            variable_declarations: Seq::empty(),
            free_variable_declarations: Seq::empty(),
        }
    }
}

/// The first of the given handles, in their order, that stands for a variable of the given name.
pub open spec fn find_in_layer(
    handles: Seq<usize>,
    declarations: Seq<VariableNameView>,
    name: Seq<char>,
) -> Option<usize>
    decreases handles.len(),
{
    if handles.len() == 0 {
        None
    } else if handles[0] < declarations.len() && declarations[handles[0] as int].matches_name(
        name,
    ) {
        Some(handles[0])
    } else {
        find_in_layer(handles.drop_first(), declarations, name)
    }
}

/// The variable that a name refers to: the first match in the innermost scope that has one. The
/// innermost scope is the last.
pub open spec fn find_in_layers(
    layers: Seq<VariableDeclarationStackLayerView>,
    declarations: Seq<VariableNameView>,
    name: Seq<char>,
) -> Option<usize>
    decreases layers.len(),
{
    if layers.len() == 0 {
        None
    } else {
        match find_in_layer(layers.last().variable_declarations, declarations, name) {
            Some(handle) => Some(handle),
            None => find_in_layers(layers.drop_last(), declarations, name),
        }
    }
}

/// The scopes with one more declaration introduced by the innermost.
pub open spec fn with_declaration(
    layers: Seq<VariableDeclarationStackLayerView>,
    handle: usize,
) -> Seq<VariableDeclarationStackLayerView>
    recommends
        layers.len() > 0,
{
    layers.drop_last().push(
        VariableDeclarationStackLayerView {
            variable_declarations: layers.last().variable_declarations.push(handle),
            ..layers.last()
        },
    )
}

/// The scopes with one more anonymous variable in the innermost.
pub open spec fn with_free_declaration(
    layers: Seq<VariableDeclarationStackLayerView>,
    handle: usize,
) -> Seq<VariableDeclarationStackLayerView>
    recommends
        layers.len() > 0,
{
    layers.drop_last().push(
        VariableDeclarationStackLayerView {
            free_variable_declarations: layers.last().free_variable_declarations.push(handle),
            ..layers.last()
        },
    )
}

/// A name that was looked up, and declared where it was missing, is found from then on, at the
/// same handle.
pub proof fn lemma_find_after_create(
    layers: Seq<VariableDeclarationStackLayerView>,
    declarations: Seq<VariableNameView>,
    name: Seq<char>,
)
    requires
        layers.len() > 0,
        declarations.len() <= usize::MAX,
        find_in_layers(layers, declarations, name) is None,
    ensures
        find_in_layers(
            with_declaration(layers, declarations.len() as usize),
            declarations.push(VariableNameView::UserDefined(name)),
            name,
        ) == Some(declarations.len() as usize),
{
    let handle = declarations.len() as usize;
    let extended = declarations.push(VariableNameView::UserDefined(name));
    let after = with_declaration(layers, handle);
    assert(after.last().variable_declarations == layers.last().variable_declarations.push(handle));
    assert(find_in_layer(layers.last().variable_declarations, declarations, name) is None);
    lemma_find_in_layer_pushed(layers.last().variable_declarations, declarations, name);
}

/// In a scope without a match, a declaration of the name that is added last is the match.
proof fn lemma_find_in_layer_pushed(
    handles: Seq<usize>,
    declarations: Seq<VariableNameView>,
    name: Seq<char>,
)
    requires
        declarations.len() <= usize::MAX,
        find_in_layer(handles, declarations, name) is None,
    ensures
        find_in_layer(
            handles.push(declarations.len() as usize),
            declarations.push(VariableNameView::UserDefined(name)),
            name,
        ) == Some(declarations.len() as usize),
    decreases handles.len(),
{
    let handle = declarations.len() as usize;
    let extended = declarations.push(VariableNameView::UserDefined(name));
    let pushed = handles.push(handle);
    if handles.len() == 0 {
        assert(pushed[0] == handle);
        assert(extended[handle as int].matches_name(name));
    } else {
        assert(pushed[0] == handles[0]);
        if handles[0] < declarations.len() {
            assert(extended[handles[0] as int] == declarations[handles[0] as int]);
        } else {
            // A handle that stood for nothing before: the table never had a declaration there,
            // so the new declaration is the first that it can stand for.
            if handles[0] == handle {
                assert(extended[handle as int].matches_name(name));
            }
        }
        if handles[0] != handle {
            assert(pushed.drop_first() =~= handles.drop_first().push(handle));
            lemma_find_in_layer_pushed(handles.drop_first(), declarations, name);
        }
    }
}

/// The stack of scopes in which variable names are looked up. It always has an outermost scope.
#[derive(Debug)]
pub struct VariableDeclarationStack {
    layers: Vec<VariableDeclarationStackLayer>,
}

impl View for VariableDeclarationStack {
    type V = Seq<VariableDeclarationStackLayerView>;

    closed spec fn view(&self) -> Seq<VariableDeclarationStackLayerView> {
        Seq::new(self.layers@.len(), |i: int| self.layers@[i]@)
    }
}

fn find_variable_in_layer(
    handles: &Vec<usize>,
    declarations: &VariableDeclarations,
    name: &str,
) -> (result: Option<usize>)
    ensures
        result == find_in_layer(handles@, declarations@, name@),
{
    let mut position: usize = 0;
    assert(handles@.subrange(0, handles@.len() as int) =~= handles@);
    while position < handles.len()
        invariant
            position <= handles@.len(),
            find_in_layer(handles@, declarations@, name@) == find_in_layer(
                handles@.subrange(position as int, handles@.len() as int),
                declarations@,
                name@,
            ),
        decreases handles@.len() - position,
    {
        let handle = handles[position];
        let ghost rest = handles@.subrange(position as int, handles@.len() as int);
        assert(rest[0] == handle);
        match declarations.get(handle) {
            Some(declaration) => {
                if declaration.matches_name(name) {
                    return Some(handle);
                }
            },
            None => {},
        }
        position += 1;
        assert(rest.drop_first() =~= handles@.subrange(position as int, handles@.len() as int));
    }
    assert(handles@.subrange(position as int, handles@.len() as int) =~= Seq::<usize>::empty());
    None
}

impl VariableDeclarationStack {
    /// The stack's invariant: there is an outermost scope.
    pub open spec fn wf(&self) -> bool {
        self@.len() > 0
    }

    /// A stack with its outermost scope, which has introduced nothing yet.
    pub fn new() -> (stack: VariableDeclarationStack)
        ensures
            stack.wf(),
            stack@ == seq![VariableDeclarationStackLayerView::empty()],
    {
        let mut layers = Vec::new();
        layers.push(
            VariableDeclarationStackLayer {
                variable_declarations: Vec::new(),
                free_variable_declarations: Vec::new(),
            },
        );
        let stack = VariableDeclarationStack { layers };
        assert(stack@ =~= seq![VariableDeclarationStackLayerView::empty()]);
        stack
    }

    /// The number of scopes, the outermost included.
    pub fn depth(&self) -> (depth: usize)
        ensures
            depth == self@.len(),
    {
        self.layers.len()
    }

    /// The innermost scope.
    pub fn innermost(&self) -> (layer: &VariableDeclarationStackLayer)
        requires
            self.wf(),
        ensures
            layer@ == self@.last(),
    {
        &self.layers[self.layers.len() - 1]
    }

    /// Enters a scope, which has introduced nothing yet.
    pub fn push_layer(&mut self)
        requires
            old(self).wf(),
        ensures
            final(self).wf(),
            final(self)@ == old(self)@.push(VariableDeclarationStackLayerView::empty()),
    {
        self.layers.push(
            VariableDeclarationStackLayer {
                variable_declarations: Vec::new(),
                free_variable_declarations: Vec::new(),
            },
        );
        assert(self@ =~= old(self)@.push(VariableDeclarationStackLayerView::empty()));
    }

    /// Leaves the innermost scope and returns it: its declarations are no longer found by name.
    /// The outermost scope cannot be left: `None`, and nothing changes.
    pub fn pop_layer(&mut self) -> (layer: Option<VariableDeclarationStackLayer>)
        requires
            old(self).wf(),
        ensures
            final(self).wf(),
            match layer {
                Some(layer) => old(self)@.len() > 1 && layer@ == old(self)@.last() && final(self)@
                    == old(self)@.drop_last(),
                None => old(self)@.len() == 1 && final(self)@ == old(self)@,
            },
    {
        if self.layers.len() <= 1 {
            return None;
        }
        let layer = self.layers.pop();
        assert(self@ =~= old(self)@.drop_last());
        layer
    }

    /// The variable that a name refers to, if any: the first match in the innermost scope that
    /// has one.
    pub fn find(&self, declarations: &VariableDeclarations, name: &str) -> (result: Option<usize>)
        ensures
            result == find_in_layers(self@, declarations@, name@),
    {
        let mut remaining: usize = self.layers.len();
        assert(self@.subrange(0, remaining as int) =~= self@);
        while remaining > 0
            invariant
                remaining <= self.layers@.len(),
                find_in_layers(self@, declarations@, name@) == find_in_layers(
                    self@.subrange(0, remaining as int),
                    declarations@,
                    name@,
                ),
            decreases remaining,
        {
            let ghost outer = self@.subrange(0, remaining as int);
            remaining -= 1;
            assert(outer.last() == self.layers@[remaining as int]@);
            assert(outer.drop_last() =~= self@.subrange(0, remaining as int));
            let found = find_variable_in_layer(
                &self.layers[remaining].variable_declarations,
                declarations,
                name,
            );
            if found.is_some() {
                return found;
            }
        }
        None
    }

    /// Declares a variable of the given name and lets the innermost scope introduce it, whether
    /// or not the name refers to a variable already. The name then refers to the new variable,
    /// unless the innermost scope has introduced a variable of that name before.
    pub fn create(&mut self, declarations: &mut VariableDeclarations, name: &str) -> (handle: usize)
        requires
            old(self).wf(),
        ensures
            final(self).wf(),
            handle == old(declarations)@.len(),
            final(self)@ == with_declaration(old(self)@, handle),
            final(declarations)@ == old(declarations)@.push(VariableNameView::UserDefined(name@)),
    {
        let handle = declarations.add(VariableDeclaration::new(name.to_owned()));
        match self.layers.pop() {
            Some(layer) => {
                let mut layer = layer;
                layer.variable_declarations.push(handle);
                self.layers.push(layer);
            },
            None => {},
        }
        assert(self@ =~= with_declaration(old(self)@, handle));
        handle
    }

    /// The variable that a name refers to. Where the name refers to none, a variable of that name
    /// is declared and introduced by the innermost scope.
    pub fn find_or_create(&mut self, declarations: &mut VariableDeclarations, name: &str) -> (handle:
        usize)
        requires
            old(self).wf(),
        ensures
            final(self).wf(),
            match find_in_layers(old(self)@, old(declarations)@, name@) {
                Some(found) => {
                    &&& handle == found
                    &&& final(self)@ == old(self)@
                    &&& final(declarations)@ == old(declarations)@
                },
                None => {
                    &&& handle == old(declarations)@.len()
                    &&& final(self)@ == with_declaration(old(self)@, handle)
                    &&& final(declarations)@ == old(declarations)@.push(
                        VariableNameView::UserDefined(name@),
                    )
                },
            },
    {
        match self.find(declarations, name) {
            Some(handle) => handle,
            None => self.create(declarations, name),
        }
    }

    /// Declares a variable of the given name that no name refers to, and records it with the
    /// anonymous variables of the innermost scope.
    pub fn create_free(&mut self, declarations: &mut VariableDeclarations, name: &str) -> (handle:
        usize)
        requires
            old(self).wf(),
        ensures
            final(self).wf(),
            handle == old(declarations)@.len(),
            final(self)@ == with_free_declaration(old(self)@, handle),
            final(declarations)@ == old(declarations)@.push(VariableNameView::UserDefined(name@)),
    {
        let handle = declarations.add(VariableDeclaration::new(name.to_owned()));
        match self.layers.pop() {
            Some(layer) => {
                let mut layer = layer;
                layer.free_variable_declarations.push(handle);
                self.layers.push(layer);
            },
            None => {},
        }
        assert(self@ =~= with_free_declaration(old(self)@, handle));
        handle
    }
}

} // verus!
