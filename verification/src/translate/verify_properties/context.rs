//! The state of one translation run: the declarations made so far, the definitions that the rules
//! read so far give each predicate, and the integrity constraints.

use vstd::prelude::*;
use crate::ast::{
    lemma_views_of_lists,
    ComparisonOperator,
    Formula,
    FormulaView,
    FunctionDeclarationView,
    GeneratedVariableName,
    PredicateDeclarationView,
    ScopedFormula,
    ScopedFormulaView,
    Term,
    TermView,
    VariableDeclaration,
    VariableName,
    VariableNameView,
    duplicate_handles,
    formulas_view,
    terms_view,
};
use crate::declarations::{
    declares_function,
    declares_predicate,
    distinct_functions,
    distinct_predicates,
    function_interned,
    lemma_function_handles,
    lemma_predicate_handles,
    predicate_interned,
    FunctionDeclarations,
    PredicateDeclarations,
};
use crate::domain::Domain;
use crate::error::{Error, ErrorView, KindView};
use crate::text::same_text;
use crate::translate::verify_properties::translate_head::HeadType;
use crate::variables::{
    domain_assigned,
    find_in_layers,
    id_assigned,
    numbered,
    with_declaration,
    with_id,
    with_free_declaration,
    VariableDeclarationDomains,
    VariableDeclarationIds,
    VariableDeclarationStack,
    VariableDeclarationStackLayer,
    VariableDeclarationStackLayerView,
    VariableDeclarations,
};

verus! {

/// What the rules of a program say of one predicate: the variables that stand for the
/// predicate's arguments, shared by all its definitions, and one definition for each rule, in
/// the order of the rules.
#[derive(Debug, PartialEq, Eq)]
pub struct Definitions {
    pub head_atom_parameters: Vec<usize>,
    pub definitions: Vec<ScopedFormula>,
}

pub struct DefinitionsView {
    pub head_atom_parameters: Seq<usize>,
    pub definitions: Seq<ScopedFormulaView>,
}

impl View for Definitions {
    type V = DefinitionsView;

    open spec fn view(&self) -> DefinitionsView {
        DefinitionsView {
            head_atom_parameters: self.head_atom_parameters@,
            definitions: Seq::new(self.definitions@.len(), |i: int| self.definitions@[i]@),
        }
    }
}

/// The state of a translation run as a mathematical value. Declarations stand in their tables
/// at their handles; definitions, sorts and numbers are keyed by handle.
pub struct ContextView {
    pub definitions: Map<usize, DefinitionsView>,
    pub integrity_constraints: Seq<FormulaView>,
    pub function_declarations: Seq<FunctionDeclarationView>,
    pub predicate_declarations: Seq<PredicateDeclarationView>,
    pub variable_declarations: Seq<VariableNameView>,
    pub variable_declaration_stack: Seq<VariableDeclarationStackLayerView>,
    pub variable_declaration_domains: Map<usize, Domain>,
    pub variable_declaration_ids: Map<usize, usize>,
}

/// The state of one translation run.
#[derive(Debug)]
pub struct Context {
    definitions: Vec<Option<Definitions>>,
    integrity_constraints: Vec<Formula>,
    function_declarations: FunctionDeclarations,
    predicate_declarations: PredicateDeclarations,
    variable_declarations: VariableDeclarations,
    variable_declaration_stack: VariableDeclarationStack,
    variable_declaration_domains: VariableDeclarationDomains,
    variable_declaration_ids: VariableDeclarationIds,
}

/// The definitions of a list that holds, at each predicate's handle, what is known of it.
pub open spec fn definitions_view(definitions: Seq<Option<Definitions>>) -> Map<
    usize,
    DefinitionsView,
> {
    Map::new(
        |predicate: usize| predicate < definitions.len() && definitions[predicate as int] is Some,
        |predicate: usize| definitions[predicate as int]->Some_0@,
    )
}

impl View for Context {
    type V = ContextView;

    closed spec fn view(&self) -> ContextView {
        ContextView {
            definitions: definitions_view(self.definitions@),
            integrity_constraints: formulas_view(self.integrity_constraints@),
            function_declarations: self.function_declarations@,
            predicate_declarations: self.predicate_declarations@,
            variable_declarations: self.variable_declarations@,
            variable_declaration_stack: self.variable_declaration_stack@,
            variable_declaration_domains: self.variable_declaration_domains@,
            variable_declaration_ids: self.variable_declaration_ids@,
        }
    }
}

impl ContextView {
    /// The state before anything is declared or read.
    pub open spec fn new() -> ContextView {
        ContextView {
            definitions: Map::empty(),
            integrity_constraints: Seq::empty(),
            function_declarations: Seq::empty(),
            predicate_declarations: Seq::empty(),
            variable_declarations: Seq::empty(),
            variable_declaration_stack: seq![VariableDeclarationStackLayerView::empty()],
            variable_declaration_domains: Map::empty(),
            variable_declaration_ids: Map::empty(),
        }
    }

    /// What holds of every state: no function and no predicate is declared twice, there is an
    /// outermost scope, the numbers of the variables are those from 0 up to their count, and each
    /// predicate that has definitions has as many parameters as its arity says.
    pub open spec fn wf(self) -> bool {
        &&& distinct_functions(self.function_declarations)
        &&& distinct_predicates(self.predicate_declarations)
        &&& self.variable_declaration_stack.len() > 0
        &&& numbered(self.variable_declaration_ids)
        &&& forall|predicate: usize| #[trigger]
            self.definitions.contains_key(predicate) ==> {
                &&& predicate < self.predicate_declarations.len()
                &&& self.definitions[predicate].head_atom_parameters.len()
                    == self.predicate_declarations[predicate as int].arity
            }
    }
}

impl Context {
    /// The state's invariant.
    pub closed spec fn wf(&self) -> bool {
        &&& self@.wf()
        &&& self.function_declarations.wf()
        &&& self.predicate_declarations.wf()
        &&& self.variable_declaration_stack.wf()
        &&& self.variable_declaration_ids.wf()
    }

    /// The invariant as it shows in the state's view.
    pub proof fn lemma_wf(&self)
        requires
            self.wf(),
        ensures
            self@.wf(),
    {
    }

    pub fn new() -> (context: Context)
        ensures
            context.wf(),
            context@ == ContextView::new(),
    {
        let context = Context {
            definitions: Vec::new(),
            integrity_constraints: Vec::new(),
            function_declarations: FunctionDeclarations::new(),
            predicate_declarations: PredicateDeclarations::new(),
            variable_declarations: VariableDeclarations::new(),
            variable_declaration_stack: VariableDeclarationStack::new(),
            variable_declaration_domains: VariableDeclarationDomains::new(),
            variable_declaration_ids: VariableDeclarationIds::new(),
        };
        proof {
            assert(context@.definitions =~= Map::<usize, DefinitionsView>::empty());
            assert(context@.integrity_constraints =~= Seq::<FormulaView>::empty());
        }
        context
    }

    pub fn function_declarations(&self) -> (declarations: &FunctionDeclarations)
        ensures
            declarations@ == self@.function_declarations,
    {
        &self.function_declarations
    }

    pub fn predicate_declarations(&self) -> (declarations: &PredicateDeclarations)
        ensures
            declarations@ == self@.predicate_declarations,
    {
        &self.predicate_declarations
    }

    pub fn variable_declarations(&self) -> (declarations: &VariableDeclarations)
        ensures
            declarations@ == self@.variable_declarations,
    {
        &self.variable_declarations
    }

    pub fn variable_declaration_stack(&self) -> (stack: &VariableDeclarationStack)
        ensures
            stack@ == self@.variable_declaration_stack,
    {
        &self.variable_declaration_stack
    }

    /// The integrity constraints read so far, in the order of their rules.
    pub fn integrity_constraints(&self) -> (integrity_constraints: &Vec<Formula>)
        ensures
            formulas_view(integrity_constraints@) == self@.integrity_constraints,
    {
        &self.integrity_constraints
    }

    /// What the rules read so far say of a predicate; `None` where no rule defines it.
    pub fn definitions(&self, predicate_declaration: usize) -> (definitions: Option<&Definitions>)
        ensures
            match definitions {
                Some(definitions) => self@.definitions.contains_key(predicate_declaration)
                    && definitions@ == self@.definitions[predicate_declaration],
                None => !self@.definitions.contains_key(predicate_declaration),
            },
    {
        if predicate_declaration < self.definitions.len() {
            self.definitions[predicate_declaration].as_ref()
        } else {
            None
        }
    }

    /// The handle of the function of the given name and arity, which is declared first where it
    /// is not yet.
    pub fn get_or_create_function_declaration(&mut self, name: &str, arity: usize) -> (handle:
        usize)
        requires
            old(self).wf(),
        ensures
            final(self).wf(),
            function_interned(
                old(self)@.function_declarations,
                name@,
                arity,
                final(self)@.function_declarations,
                handle,
            ),
            final(self)@ == (ContextView {
                function_declarations: final(self)@.function_declarations,
                ..old(self)@
            }),
    {
        self.function_declarations.get_or_create(name, arity)
    }

    /// The handle of the predicate of the given name and arity, which is declared first where it
    /// is not yet.
    pub fn get_or_create_predicate_declaration(&mut self, name: &str, arity: usize) -> (handle:
        usize)
        requires
            old(self).wf(),
        ensures
            final(self).wf(),
            predicate_interned(
                old(self)@.predicate_declarations,
                name@,
                arity,
                final(self)@.predicate_declarations,
                handle,
            ),
            final(self)@ == (ContextView {
                predicate_declarations: final(self)@.predicate_declarations,
                ..old(self)@
            }),
    {
        let handle = self.predicate_declarations.get_or_create(name, arity);
        proof {
            assert forall|predicate: usize| #[trigger]
                self@.definitions.contains_key(predicate) implies predicate
                < self@.predicate_declarations.len()
                && self@.definitions[predicate].head_atom_parameters.len()
                == self@.predicate_declarations[predicate as int].arity by {
                assert(old(self)@.definitions.contains_key(predicate));
            }
        }
        handle
    }

    /// The variable that an occurrence of a name refers to. The anonymous variable `_` refers to
    /// a variable of its own at each occurrence, which is recorded with the anonymous variables
    /// of the innermost scope. Another name refers to the first match in the innermost scope
    /// that has one; where it refers to none, a variable of that name is declared and introduced
    /// by the innermost scope.
    pub fn get_or_create_variable_declaration(&mut self, name: &str) -> (handle: usize)
        requires
            old(self).wf(),
        ensures
            final(self).wf(),
            variable_found_or_created(old(self)@, name@, final(self)@, handle),
    {
        proof {
            reveal_strlit("_");
            assert("_"@ =~= seq!['_']);
        }
        let handle = if same_text(name, "_") {
            self.variable_declaration_stack.create_free(&mut self.variable_declarations, "_")
        } else {
            self.variable_declaration_stack.find_or_create(&mut self.variable_declarations, name)
        };
        proof {
            assert(self@.definitions == old(self)@.definitions);
            assert(self@.predicate_declarations == old(self)@.predicate_declarations);
        }
        handle
    }

    /// Declares a variable of the given name and lets the innermost scope introduce it, as a
    /// quantifier does with the variables that it binds. The name then refers to the new
    /// variable, unless the innermost scope has introduced a variable of that name before.
    pub fn create_variable_declaration(&mut self, name: &str) -> (handle: usize)
        requires
            old(self).wf(),
        ensures
            final(self).wf(),
            handle == old(self)@.variable_declarations.len(),
            final(self)@ == (ContextView {
                variable_declarations: old(self)@.variable_declarations.push(
                    VariableNameView::UserDefined(name@),
                ),
                variable_declaration_stack: with_declaration(
                    old(self)@.variable_declaration_stack,
                    handle,
                ),
                ..old(self)@
            }),
    {
        let handle = self.variable_declaration_stack.create(&mut self.variable_declarations, name);
        proof {
            assert(self@.definitions == old(self)@.definitions);
            assert(self@.predicate_declarations == old(self)@.predicate_declarations);
        }
        handle
    }

    /// Enters a scope of variables.
    pub fn enter_scope(&mut self)
        requires
            old(self).wf(),
        ensures
            final(self).wf(),
            final(self)@ == (ContextView {
                variable_declaration_stack: old(self)@.variable_declaration_stack.push(
                    VariableDeclarationStackLayerView::empty(),
                ),
                ..old(self)@
            }),
    {
        self.variable_declaration_stack.push_layer();
    }

    /// Leaves the innermost scope of variables and returns it. The outermost scope cannot be
    /// left: `None`, and nothing changes.
    pub fn leave_scope(&mut self) -> (layer: Option<VariableDeclarationStackLayer>)
        requires
            old(self).wf(),
        ensures
            final(self).wf(),
            match layer {
                Some(layer) => {
                    &&& old(self)@.variable_declaration_stack.len() > 1
                    &&& layer@ == old(self)@.variable_declaration_stack.last()
                    &&& final(self)@ == (ContextView {
                        variable_declaration_stack: old(
                            self,
                        )@.variable_declaration_stack.drop_last(),
                        ..old(self)@
                    })
                },
                None => old(self)@.variable_declaration_stack.len() == 1 && final(self)@ == old(
                    self,
                )@,
            },
    {
        self.variable_declaration_stack.pop_layer()
    }

    /// Records the sort of a variable. To record the sort that is recorded already changes
    /// nothing; to record another is an error, and changes nothing either.
    pub fn assign_variable_declaration_domain(
        &mut self,
        variable_declaration: usize,
        domain: Domain,
    ) -> (result: Result<(), Error>)
        requires
            old(self).wf(),
        ensures
            final(self).wf(),
            match domain_assigned(
                old(self)@.variable_declaration_domains,
                variable_declaration,
                domain,
            ) {
                Ok(domains) => result is Ok && final(self)@ == (ContextView {
                    variable_declaration_domains: domains,
                    ..old(self)@
                }),
                Err(expected) => {
                    &&& result matches Err(error)
                    &&& error@ == expected
                    &&& final(self)@ == old(self)@
                },
            },
    {
        self.variable_declaration_domains.assign(variable_declaration, domain)
    }

    /// The sort recorded for a variable, if one is.
    pub fn variable_declaration_domain(&self, variable_declaration: usize) -> (domain: Option<
        Domain,
    >)
        ensures
            domain == if self@.variable_declaration_domains.contains_key(variable_declaration) {
                Some(self@.variable_declaration_domains[variable_declaration])
            } else {
                None
            },
    {
        self.variable_declaration_domains.get(variable_declaration)
    }

    /// The number under which a variable is shown. A variable that has none yet gets the next
    /// free one: numbers start at 0 and go by the order of the first requests.
    pub fn variable_declaration_id(&mut self, variable_declaration: usize) -> (id: usize)
        requires
            old(self).wf(),
        ensures
            final(self).wf(),
            id_assigned(
                old(self)@.variable_declaration_ids,
                variable_declaration,
                final(self)@.variable_declaration_ids,
                id,
            ),
            final(self)@ == (ContextView {
                variable_declaration_ids: final(self)@.variable_declaration_ids,
                ..old(self)@
            }),
    {
        self.variable_declaration_ids.get_or_assign(variable_declaration)
    }
}

/// What looking a variable up by name, and declaring it where the name refers to none, makes of
/// the state.
pub open spec fn variable_found_or_created(
    before: ContextView,
    name: Seq<char>,
    after: ContextView,
    handle: usize,
) -> bool {
    if name == seq!['_'] {
        &&& handle == before.variable_declarations.len()
        &&& after == (ContextView {
            variable_declarations: before.variable_declarations.push(
                VariableNameView::UserDefined(name),
            ),
            variable_declaration_stack: with_free_declaration(
                before.variable_declaration_stack,
                handle,
            ),
            ..before
        })
    } else {
        match find_in_layers(before.variable_declaration_stack, before.variable_declarations, name) {
            Some(found) => handle == found && after == before,
            None => {
                &&& handle == before.variable_declarations.len()
                &&& after == (ContextView {
                    variable_declarations: before.variable_declarations.push(
                        VariableNameView::UserDefined(name),
                    ),
                    variable_declaration_stack: with_declaration(
                        before.variable_declaration_stack,
                        handle,
                    ),
                    ..before
                })
            },
        }
    }
}


/// The equalities that bind the arguments of a head atom to the parameters of its predicate,
/// position by position.
pub open spec fn head_equalities(parameters: Seq<usize>, arguments: Seq<TermView>) -> Seq<
    FormulaView,
> {
    Seq::new(
        parameters.len(),
        |i: int|
            FormulaView::Compare {
                operator: ComparisonOperator::Equal,
                left: TermView::Variable(parameters[i]),
                right: arguments[i],
            },
    )
}

/// The conjunction of the given formulas; a single formula stands for itself.
pub open spec fn conjunction_of(conjuncts: Seq<FormulaView>) -> FormulaView
    recommends
        conjuncts.len() > 0,
{
    if conjuncts.len() == 1 {
        conjuncts[0]
    } else {
        FormulaView::And(conjuncts)
    }
}

/// A formula with the given variables bound by an existential quantifier; without variables, the
/// formula itself.
pub open spec fn existential_closure(parameters: Seq<usize>, formula: FormulaView) -> FormulaView {
    if parameters.len() == 0 {
        formula
    } else {
        FormulaView::Exists { parameters, argument: Box::new(formula) }
    }
}

/// The definition that a rule gives the predicate of its head atom: the rule's body and the
/// equalities that bind the head's arguments to the predicate's parameters, with every variable
/// of the rule bound by an existential quantifier. The parameters are what is free in it.
pub open spec fn definition_of(
    parameters: Seq<usize>,
    arguments: Seq<TermView>,
    body: ScopedFormulaView,
) -> ScopedFormulaView {
    ScopedFormulaView {
        free_variable_declarations: parameters,
        formula: existential_closure(
            body.free_variable_declarations.filter(
                |variable_declaration: usize| !parameters.contains(variable_declaration),
            ),
            conjunction_of(seq![body.formula] + head_equalities(parameters, arguments)),
        ),
    }
}

/// The integrity constraint that a rule without head gives: its body must not hold, whatever
/// the rule's variables stand for.
pub open spec fn integrity_constraint_of(body: ScopedFormulaView) -> FormulaView {
    FormulaView::Not(
        Box::new(existential_closure(body.free_variable_declarations, body.formula)),
    )
}

/// The handles of `count` declarations that are added to a table of `first` declarations.
pub open spec fn fresh_handles(first: nat, count: nat) -> Seq<usize> {
    Seq::new(count, |i: int| (first + i) as usize)
}

/// The declarations of `count` generated variables over program values that have no number yet.
pub open spec fn generated_parameters(count: nat) -> Seq<VariableNameView> {
    Seq::new(
        count,
        |i: int|
            VariableNameView::Generated(GeneratedVariableName { domain: Domain::Program, id: None }),
    )
}

pub open spec fn logic_error(description: &'static str) -> ErrorView {
    ErrorView::of_kind(KindView::Logic(description@))
}

/// What a rule with a head atom makes of the state. The first rule of a predicate gives the
/// predicate its parameters, which are generated variables declared for that purpose; every rule
/// appends its definition to those that the predicate has. A head atom over an unknown predicate,
/// or with another number of arguments than its predicate's arity, is an error.
pub open spec fn definition_added(
    before: ContextView,
    predicate_declaration: usize,
    arguments: Seq<TermView>,
    body: ScopedFormulaView,
) -> Result<ContextView, ErrorView> {
    if predicate_declaration >= before.predicate_declarations.len() {
        Err(logic_error("head atom of an undeclared predicate"))
    } else if arguments.len() != before.predicate_declarations[predicate_declaration as int].arity {
        Err(logic_error("head atom with a different number of arguments than its predicate"))
    } else if before.definitions.contains_key(predicate_declaration) {
        let definitions = before.definitions[predicate_declaration];
        Ok(
            ContextView {
                definitions: before.definitions.insert(
                    predicate_declaration,
                    DefinitionsView {
                        definitions: definitions.definitions.push(
                            definition_of(definitions.head_atom_parameters, arguments, body),
                        ),
                        ..definitions
                    },
                ),
                ..before
            },
        )
    } else {
        let parameters = fresh_handles(before.variable_declarations.len(), arguments.len());
        Ok(
            ContextView {
                definitions: before.definitions.insert(
                    predicate_declaration,
                    DefinitionsView {
                        head_atom_parameters: parameters,
                        definitions: seq![definition_of(parameters, arguments, body)],
                    },
                ),
                variable_declarations: before.variable_declarations + generated_parameters(
                    arguments.len(),
                ),
                ..before
            },
        )
    }
}

/// What a rule makes of the state, by the shape of its head: a head atom adds a definition,
/// `false` adds an integrity constraint, any other head adds nothing.
pub open spec fn rule_added(
    before: ContextView,
    head_type: HeadType<Term>,
    body: ScopedFormulaView,
) -> Result<ContextView, ErrorView> {
    match head_type {
        HeadType::SingleAtom(head_atom) => definition_added(
            before,
            head_atom.predicate_declaration,
            terms_view(head_atom.arguments@),
            body,
        ),
        HeadType::ChoiceWithSingleAtom(
            head_atom,
        ) => definition_added(
            before,
            head_atom.predicate_declaration,
            terms_view(head_atom.arguments@),
            body,
        ),
        HeadType::IntegrityConstraint => Ok(
            ContextView {
                integrity_constraints: before.integrity_constraints.push(
                    integrity_constraint_of(body),
                ),
                ..before
            },
        ),
        _ => Ok(before),
    }
}

fn contains_handle(handles: &Vec<usize>, handle: usize) -> (result: bool)
    ensures
        result == handles@.contains(handle),
{
    let mut position: usize = 0;
    while position < handles.len()
        invariant
            position <= handles@.len(),
            forall|i: int| 0 <= i < position ==> handles@[i] != handle,
        decreases handles@.len() - position,
    {
        if handles[position] == handle {
            return true;
        }
        position += 1;
    }
    false
}

/// Binds the given variables in a formula by an existential quantifier.
fn close_existentially(parameters: Vec<usize>, formula: Formula) -> (closed: Formula)
    ensures
        closed@ == existential_closure(parameters@, formula@),
{
    if parameters.len() == 0 {
        formula
    } else {
        Formula::Exists { parameters, argument: Box::new(formula) }
    }
}

/// Builds the definition that a rule gives the predicate of its head atom.
fn build_definition(parameters: &Vec<usize>, arguments: Vec<Term>, body: ScopedFormula) -> (definition:
    ScopedFormula)
    requires
        parameters@.len() == arguments@.len(),
    ensures
        definition@ == definition_of(parameters@, terms_view(arguments@), body@),
{
    let ghost equalities = head_equalities(parameters@, terms_view(arguments@));
    let ghost is_other = |variable_declaration: usize| !parameters@.contains(variable_declaration);
    let ScopedFormula { free_variable_declarations, formula } = body;
    let mut conjuncts: Vec<Formula> = Vec::new();
    conjuncts.push(formula);
    assert(formulas_view(conjuncts@) =~= seq![body.formula@] + equalities.subrange(0, 0));
    let mut remaining = arguments;
    let mut position: usize = 0;
    while position < parameters.len()
        invariant
            position <= parameters@.len(),
            parameters@.len() == arguments@.len(),
            equalities == head_equalities(parameters@, terms_view(arguments@)),
            remaining@ == arguments@.subrange(position as int, arguments@.len() as int),
            formulas_view(conjuncts@) == seq![body.formula@] + equalities.subrange(
                0,
                position as int,
            ),
        decreases parameters@.len() - position,
    {
        let ghost conjuncts_before = formulas_view(conjuncts@);
        let argument = remaining.remove(0);
        let equality = Formula::Compare {
            operator: ComparisonOperator::Equal,
            left: Box::new(Term::Variable(parameters[position])),
            right: Box::new(argument),
        };
        assert(equality@ == equalities[position as int]);
        conjuncts.push(equality);
        position += 1;
        proof {
            assert(remaining@ =~= arguments@.subrange(position as int, arguments@.len() as int));
            assert(formulas_view(conjuncts@) =~= conjuncts_before.push(equality@));
            assert(formulas_view(conjuncts@) =~= seq![body.formula@] + equalities.subrange(
                0,
                position as int,
            ));
        }
    }
    assert(equalities.subrange(0, position as int) =~= equalities);
    let ghost all = seq![body.formula@] + equalities;
    let conjunction = if conjuncts.len() == 1 {
        match conjuncts.pop() {
            Some(single) => single,
            None => Formula::Boolean(true),
        }
    } else {
        proof {
            lemma_views_of_lists(Term::Boolean(true), Formula::And(conjuncts));
        }
        Formula::And(conjuncts)
    };
    assert(conjunction@ == conjunction_of(all));
    let mut quantified: Vec<usize> = Vec::new();
    let mut position: usize = 0;
    assert(free_variable_declarations@.subrange(0, 0) =~= Seq::<usize>::empty());
    proof {
        Seq::<usize>::empty().lemma_filter_len(is_other);
        assert(Seq::<usize>::empty().filter(is_other) =~= Seq::<usize>::empty());
    }
    while position < free_variable_declarations.len()
        invariant
            position <= free_variable_declarations@.len(),
            is_other == |variable_declaration: usize| !parameters@.contains(variable_declaration),
            quantified@ == free_variable_declarations@.subrange(0, position as int).filter(
                is_other,
            ),
        decreases free_variable_declarations@.len() - position,
    {
        let variable_declaration = free_variable_declarations[position];
        let ghost seen = free_variable_declarations@.subrange(0, position as int);
        if !contains_handle(parameters, variable_declaration) {
            quantified.push(variable_declaration);
        }
        position += 1;
        proof {
            assert(free_variable_declarations@.subrange(0, position as int) =~= seen.push(
                variable_declaration,
            ));
            seen.lemma_filter_push(variable_declaration, is_other);
        }
    }
    assert(free_variable_declarations@.subrange(0, position as int)
        =~= free_variable_declarations@);
    ScopedFormula {
        free_variable_declarations: duplicate_handles(parameters),
        formula: close_existentially(quantified, conjunction),
    }
}

impl Context {
    /// Reads a rule whose head is `false`: the rule's body must not hold.
    pub fn add_integrity_constraint(&mut self, body: ScopedFormula)
        requires
            old(self).wf(),
        ensures
            final(self).wf(),
            final(self)@ == (ContextView {
                integrity_constraints: old(self)@.integrity_constraints.push(
                    integrity_constraint_of(body@),
                ),
                ..old(self)@
            }),
    {
        let ScopedFormula { free_variable_declarations, formula } = body;
        let integrity_constraint = Formula::Not(
            Box::new(close_existentially(free_variable_declarations, formula)),
        );
        self.integrity_constraints.push(integrity_constraint);
        proof {
            assert(self@.integrity_constraints =~= old(self)@.integrity_constraints.push(
                integrity_constraint_of(body@),
            ));
        }
    }
}


impl Context {
    /// Declares the parameters of a predicate: `count` generated variables over program values.
    fn create_parameters(&mut self, count: usize) -> (parameters: Vec<usize>)
        requires
            old(self).wf(),
        ensures
            final(self).wf(),
            parameters@ == fresh_handles(old(self)@.variable_declarations.len(), count as nat),
            final(self)@ == (ContextView {
                variable_declarations: old(self)@.variable_declarations + generated_parameters(
                    count as nat,
                ),
                ..old(self)@
            }),
            final(self).definitions == old(self).definitions,
    {
        let ghost first = self@.variable_declarations.len();
        let mut parameters: Vec<usize> = Vec::new();
        assert(self@.variable_declarations =~= old(self)@.variable_declarations
            + generated_parameters(0));
        while parameters.len() < count
            invariant
                self.wf(),
                first == old(self)@.variable_declarations.len(),
                parameters@.len() <= count,
                parameters@ == fresh_handles(first, parameters@.len()),
                self@ == (ContextView {
                    variable_declarations: old(self)@.variable_declarations + generated_parameters(
                        parameters@.len(),
                    ),
                    ..old(self)@
                }),
                self.definitions == old(self).definitions,
            decreases count - parameters@.len(),
        {
            let ghost start = self@;
            assert(start.wf());
            let handle = self.variable_declarations.add(
                VariableDeclaration::new_generated(Domain::Program),
            );
            parameters.push(handle);
            proof {
                assert(parameters@ =~= fresh_handles(first, parameters@.len()));
                assert(self@.variable_declarations =~= old(self)@.variable_declarations
                    + generated_parameters(parameters@.len()));
                assert(self@.definitions == start.definitions);
                assert(self@.predicate_declarations == start.predicate_declarations);
                assert forall|predicate: usize| #[trigger]
                    self@.definitions.contains_key(predicate) implies predicate
                    < self@.predicate_declarations.len()
                    && self@.definitions[predicate].head_atom_parameters.len()
                    == self@.predicate_declarations[predicate as int].arity by {
                    assert(start.definitions.contains_key(predicate));
                }
            }
        }
        parameters
    }

    /// Reads a rule with a head atom: the rule defines the atom's predicate. `arguments` are the
    /// atom's arguments, `body` is the rule's body with the variables of the rule.
    pub fn add_definition(
        &mut self,
        predicate_declaration: usize,
        arguments: Vec<Term>,
        body: ScopedFormula,
    ) -> (result: Result<(), Error>)
        requires
            old(self).wf(),
        ensures
            final(self).wf(),
            match definition_added(
                old(self)@,
                predicate_declaration,
                terms_view(arguments@),
                body@,
            ) {
                Ok(state) => result is Ok && final(self)@ == state,
                Err(expected) => {
                    &&& result matches Err(error)
                    &&& error@ == expected
                    &&& final(self)@ == old(self)@
                },
            },
    {
        let arity = match self.predicate_declarations.get(predicate_declaration) {
            Some(declaration) => declaration.arity,
            None => return Err(Error::new_logic("head atom of an undeclared predicate")),
        };
        if arguments.len() != arity {
            return Err(
                Error::new_logic(
                    "head atom with a different number of arguments than its predicate",
                ),
            );
        }
        while self.definitions.len() <= predicate_declaration
            invariant
                self.wf(),
                self@ == old(self)@,
            decreases predicate_declaration + 1 - self.definitions@.len(),
        {
            let ghost before = self.definitions@;
            self.definitions.push(None);
            assert(definitions_view(self.definitions@) =~= definitions_view(before));
        }
        let ghost known = self@.definitions.contains_key(predicate_declaration);
        let ghost slots = self.definitions@;
        let ghost state = self@;
        let taken = self.definitions.remove(predicate_declaration);
        let mut definitions = match taken {
            Some(definitions) => definitions,
            None => {
                self.definitions.insert(predicate_declaration, None);
                assert(self.definitions@ =~= slots);
                let head_atom_parameters = self.create_parameters(arity);
                self.definitions.remove(predicate_declaration);
                Definitions { head_atom_parameters, definitions: Vec::new() }
            },
        };
        assert(self.definitions@ =~= slots.remove(predicate_declaration as int));
        let ghost earlier = definitions@;
        let definition = build_definition(&definitions.head_atom_parameters, arguments, body);
        definitions.definitions.push(definition);
        assert(definitions@.definitions =~= earlier.definitions.push(definition@));
        self.definitions.insert(predicate_declaration, Some(definitions));
        proof {
            let expected = definition_added(
                old(self)@,
                predicate_declaration,
                terms_view(arguments@),
                body@,
            )->Ok_0;
            assert(self.definitions@ =~= slots.update(
                predicate_declaration as int,
                Some(definitions),
            ));
            if known {
                assert(earlier == old(self)@.definitions[predicate_declaration]);
            } else {
                assert(earlier.definitions =~= Seq::<ScopedFormulaView>::empty());
                assert(definitions@.definitions =~= seq![definition@]);
            }
            assert(self@.definitions =~= expected.definitions);
            assert(self@ == expected);
        }
        Ok(())
    }

    /// Reads a rule, by the shape of its head: a head atom adds a definition of its predicate,
    /// `false` adds an integrity constraint, any other head adds nothing.
    pub fn add_rule(
        &mut self,
        head_type: HeadType<Term>,
        body: ScopedFormula,
    ) -> (result: Result<(), Error>)
        requires
            old(self).wf(),
        ensures
            final(self).wf(),
            match rule_added(old(self)@, head_type, body@) {
                Ok(state) => result is Ok && final(self)@ == state,
                Err(expected) => {
                    &&& result matches Err(error)
                    &&& error@ == expected
                    &&& final(self)@ == old(self)@
                },
            },
    {
        match head_type {
            HeadType::SingleAtom(
                head_atom,
            ) => self.add_definition(
                head_atom.predicate_declaration,
                head_atom.arguments,
                body,
            ),
            HeadType::ChoiceWithSingleAtom(
                head_atom,
            ) => self.add_definition(
                head_atom.predicate_declaration,
                head_atom.arguments,
                body,
            ),
            HeadType::IntegrityConstraint => {
                self.add_integrity_constraint(body);
                Ok(())
            },
            _ => Ok(()),
        }
    }
}


/// The handle of the predicate of the given name and arity in a table that declares it.
pub open spec fn handle_of_predicate(
    declarations: Seq<PredicateDeclarationView>,
    name: Seq<char>,
    arity: usize,
) -> int {
    choose|i: int|
        0 <= i < declarations.len() && (#[trigger] declarations[i]).matches_signature(name, arity)
}

/// The handle of the function of the given name and arity in a table that declares it.
pub open spec fn handle_of_function(
    declarations: Seq<FunctionDeclarationView>,
    name: Seq<char>,
    arity: usize,
) -> int {
    choose|i: int|
        0 <= i < declarations.len() && (#[trigger] declarations[i]).matches_signature(name, arity)
}

/// A table of predicates after a specification has declared one of them as input: the predicate
/// is marked where the table has it, and added with the mark where not.
pub open spec fn with_input_predicate(
    declarations: Seq<PredicateDeclarationView>,
    name: Seq<char>,
    arity: usize,
) -> Seq<PredicateDeclarationView> {
    if declares_predicate(declarations, name, arity) {
        let handle = handle_of_predicate(declarations, name, arity);
        declarations.update(
            handle,
            PredicateDeclarationView { is_input: true, ..declarations[handle] },
        )
    } else {
        declarations.push(
            PredicateDeclarationView { is_input: true, ..PredicateDeclarationView::new(name, arity) },
        )
    }
}

/// A table of functions after a specification has declared a constant as input, with values of
/// the given sort: the constant is marked and given the sort where the table has it, and added
/// so where not.
pub open spec fn with_input_constant(
    declarations: Seq<FunctionDeclarationView>,
    name: Seq<char>,
    domain: Domain,
) -> Seq<FunctionDeclarationView> {
    if declares_function(declarations, name, 0) {
        let handle = handle_of_function(declarations, name, 0);
        declarations.update(
            handle,
            FunctionDeclarationView { domain, is_input: true, ..declarations[handle] },
        )
    } else {
        declarations.push(
            FunctionDeclarationView {
                domain,
                is_input: true,
                ..FunctionDeclarationView::new(name, 0)
            },
        )
    }
}

impl Context {
    /// Declares a predicate as part of the program's input, and returns its handle.
    pub fn declare_input_predicate(&mut self, name: &str, arity: usize) -> (handle: usize)
        requires
            old(self).wf(),
        ensures
            final(self).wf(),
            final(self)@ == (ContextView {
                predicate_declarations: with_input_predicate(
                    old(self)@.predicate_declarations,
                    name@,
                    arity,
                ),
                ..old(self)@
            }),
            handle < final(self)@.predicate_declarations.len(),
            final(self)@.predicate_declarations[handle as int].matches_signature(name@, arity),
    {
        let ghost before = self@.predicate_declarations;
        let handle = self.predicate_declarations.get_or_create(name, arity);
        let ghost between = self.predicate_declarations@;
        self.predicate_declarations.declare_input(handle);
        proof {
            if declares_predicate(before, name@, arity) {
                lemma_predicate_handles(
                    before,
                    handle as int,
                    handle_of_predicate(before, name@, arity),
                );
            } else {
                assert(self@.predicate_declarations =~= with_input_predicate(before, name@, arity));
            }
            assert forall|predicate: usize| #[trigger]
                self@.definitions.contains_key(predicate) implies predicate
                < self@.predicate_declarations.len()
                && self@.definitions[predicate].head_atom_parameters.len()
                == self@.predicate_declarations[predicate as int].arity by {
                assert(old(self)@.definitions.contains_key(predicate));
            }
        }
        handle
    }

    /// Declares a constant as part of the program's input, with values of the given sort, and
    /// returns its handle.
    pub fn declare_input_constant(&mut self, name: &str, domain: Domain) -> (handle: usize)
        requires
            old(self).wf(),
        ensures
            final(self).wf(),
            final(self)@ == (ContextView {
                function_declarations: with_input_constant(
                    old(self)@.function_declarations,
                    name@,
                    domain,
                ),
                ..old(self)@
            }),
            handle < final(self)@.function_declarations.len(),
            final(self)@.function_declarations[handle as int].matches_signature(name@, 0),
    {
        let ghost before = self@.function_declarations;
        let handle = self.function_declarations.get_or_create(name, 0);
        self.function_declarations.declare_input(handle, domain);
        proof {
            if declares_function(before, name@, 0) {
                lemma_function_handles(
                    before,
                    handle as int,
                    handle_of_function(before, name@, 0),
                );
            } else {
                assert(self@.function_declarations =~= with_input_constant(before, name@, domain));
            }
        }
        handle
    }
}


/// What a rule with a head atom adds: one definition behind those that its predicate has, over
/// the predicate's parameters, which are as many as the predicate's arity says and stay what they
/// are once the predicate has them. The definitions of other predicates stay as they are.
pub proof fn lemma_definition_added(
    before: ContextView,
    predicate_declaration: usize,
    arguments: Seq<TermView>,
    body: ScopedFormulaView,
)
    requires
        before.wf(),
        definition_added(before, predicate_declaration, arguments, body) is Ok,
    ensures
        ({
            let after = definition_added(before, predicate_declaration, arguments, body)->Ok_0;
            let definitions = after.definitions[predicate_declaration];
            &&& after.wf()
            &&& after.definitions.contains_key(predicate_declaration)
            &&& definitions.head_atom_parameters.len()
                == before.predicate_declarations[predicate_declaration as int].arity
            &&& definitions.definitions.last().free_variable_declarations
                == definitions.head_atom_parameters
            &&& if before.definitions.contains_key(predicate_declaration) {
                let earlier = before.definitions[predicate_declaration];
                &&& definitions.head_atom_parameters == earlier.head_atom_parameters
                &&& definitions.definitions.len() == earlier.definitions.len() + 1
                &&& definitions.definitions.drop_last() == earlier.definitions
            } else {
                definitions.definitions.len() == 1
            }
            &&& forall|other: usize|
                other != predicate_declaration ==> (#[trigger] after.definitions.contains_key(other)
                    == before.definitions.contains_key(other)) && (before.definitions.contains_key(
                    other,
                ) ==> after.definitions[other] == before.definitions[other])
        }),
{
    let after = definition_added(before, predicate_declaration, arguments, body)->Ok_0;
    let definitions = after.definitions[predicate_declaration];
    if before.definitions.contains_key(predicate_declaration) {
        let earlier = before.definitions[predicate_declaration];
        assert(definitions.definitions.drop_last() =~= earlier.definitions);
    }
    assert forall|predicate: usize| #[trigger] after.definitions.contains_key(predicate) implies {
        &&& predicate < after.predicate_declarations.len()
        &&& after.definitions[predicate].head_atom_parameters.len()
            == after.predicate_declarations[predicate as int].arity
    } by {
        if predicate != predicate_declaration {
            assert(before.definitions.contains_key(predicate));
        }
    }
}

/// Two rules with head atoms of one predicate that had no definition give the predicate two
/// definitions, in the order of the rules, over the same parameters, which are as many as the
/// predicate's arity says.
pub proof fn lemma_two_rules_two_definitions(
    before: ContextView,
    predicate_declaration: usize,
    first_arguments: Seq<TermView>,
    first_body: ScopedFormulaView,
    second_arguments: Seq<TermView>,
    second_body: ScopedFormulaView,
)
    requires
        before.wf(),
        !before.definitions.contains_key(predicate_declaration),
        definition_added(before, predicate_declaration, first_arguments, first_body) is Ok,
        definition_added(
            definition_added(before, predicate_declaration, first_arguments, first_body)->Ok_0,
            predicate_declaration,
            second_arguments,
            second_body,
        ) is Ok,
    ensures
        ({
            let between = definition_added(
                before,
                predicate_declaration,
                first_arguments,
                first_body,
            )->Ok_0;
            let after = definition_added(
                between,
                predicate_declaration,
                second_arguments,
                second_body,
            )->Ok_0;
            let definitions = after.definitions[predicate_declaration];
            let parameters = definitions.head_atom_parameters;
            &&& parameters.len() == before.predicate_declarations[predicate_declaration as int].arity
            &&& definitions.definitions == seq![
                definition_of(parameters, first_arguments, first_body),
                definition_of(parameters, second_arguments, second_body),
            ]
            &&& definitions.definitions[0].free_variable_declarations == parameters
            &&& definitions.definitions[1].free_variable_declarations == parameters
        }),
{
    let between = definition_added(before, predicate_declaration, first_arguments, first_body)->Ok_0;
    lemma_definition_added(before, predicate_declaration, first_arguments, first_body);
    lemma_definition_added(between, predicate_declaration, second_arguments, second_body);
    let after = definition_added(between, predicate_declaration, second_arguments, second_body)->Ok_0;
    let definitions = after.definitions[predicate_declaration];
    let parameters = definitions.head_atom_parameters;
    assert(definitions.definitions =~= seq![
        definition_of(parameters, first_arguments, first_body),
        definition_of(parameters, second_arguments, second_body),
    ]);
}


/// Whether the variable at a handle is a generated variable that has no number yet.
pub open spec fn is_unnumbered(declarations: Seq<VariableNameView>, handle: usize) -> bool {
    handle < declarations.len() && declarations[handle as int] matches VariableNameView::Generated(
        GeneratedVariableName { domain, id: None },
    )
}

/// The state after the variable at a handle is given its number: a generated variable without
/// number gets the one that the table of numbers has for it, which is the next free one where
/// the table has none. Nothing changes for any other variable.
pub open spec fn variable_numbered(before: ContextView, handle: usize) -> ContextView {
    if is_unnumbered(before.variable_declarations, handle) {
        let id = if before.variable_declaration_ids.contains_key(handle) {
            before.variable_declaration_ids[handle]
        } else {
            before.variable_declaration_ids.len() as usize
        };
        ContextView {
            variable_declarations: with_id(before.variable_declarations, handle, id),
            variable_declaration_ids: before.variable_declaration_ids.insert(handle, id),
            ..before
        }
    } else {
        before
    }
}

/// The state after the variables at the handles below `count` are given their numbers, in the
/// order of their handles.
pub open spec fn variables_numbered(before: ContextView, count: nat) -> ContextView
    decreases count,
{
    if count == 0 {
        before
    } else {
        variable_numbered(variables_numbered(before, (count - 1) as nat), (count - 1) as usize)
    }
}

impl Context {
    /// Gives the variable at a handle the number under which it is shown, if it is a generated
    /// variable that has none. A number that is assigned never changes.
    pub fn assign_variable_declaration_id(&mut self, variable_declaration: usize)
        requires
            old(self).wf(),
        ensures
            final(self).wf(),
            final(self)@ == variable_numbered(old(self)@, variable_declaration),
    {
        let unnumbered = match self.variable_declarations.get(variable_declaration) {
            Some(declaration) => match &declaration.name {
                VariableName::Generated(generated_variable_name) => generated_variable_name.id.is_none(),
                VariableName::UserDefined(_) => false,
            },
            None => false,
        };
        if unnumbered {
            let id = self.variable_declaration_ids.get_or_assign(variable_declaration);
            self.variable_declarations.assign_id(variable_declaration, id);
            proof {
                let before = old(self)@.variable_declaration_ids;
                if before.contains_key(variable_declaration) {
                    assert(before.insert(variable_declaration, id) =~= before);
                }
                assert(self@.definitions == old(self)@.definitions);
                assert(self@.predicate_declarations == old(self)@.predicate_declarations);
                assert forall|predicate: usize| #[trigger]
                    self@.definitions.contains_key(predicate) implies predicate
                    < self@.predicate_declarations.len()
                    && self@.definitions[predicate].head_atom_parameters.len()
                    == self@.predicate_declarations[predicate as int].arity by {
                    assert(old(self)@.definitions.contains_key(predicate));
                }
            }
        }
    }

    /// Gives every generated variable that has no number the number under which it is shown, in
    /// the order of the handles. Variables that have a number keep it.
    pub fn assign_variable_declaration_ids(&mut self)
        requires
            old(self).wf(),
        ensures
            final(self).wf(),
            final(self)@ == variables_numbered(
                old(self)@,
                old(self)@.variable_declarations.len(),
            ),
    {
        let count = self.variable_declarations.len();
        let mut handle: usize = 0;
        while handle < count
            invariant
                self.wf(),
                handle <= count,
                count == old(self)@.variable_declarations.len(),
                self@ == variables_numbered(old(self)@, handle as nat),
            decreases count - handle,
        {
            self.assign_variable_declaration_id(handle);
            handle += 1;
        }
    }
}

/// Numbering keeps the numbers that variables have, and leaves no generated variable without
/// one at the handle that is numbered.
pub proof fn lemma_variable_numbered(before: ContextView, handle: usize)
    ensures
        ({
            let after = variable_numbered(before, handle);
            &&& after.variable_declarations.len() == before.variable_declarations.len()
            &&& !is_unnumbered(after.variable_declarations, handle)
            &&& forall|other: int|
                0 <= other < before.variable_declarations.len() && !is_unnumbered(
                    before.variable_declarations,
                    other as usize,
                ) ==> #[trigger] after.variable_declarations[other]
                    == before.variable_declarations[other]
            &&& forall|other: usize|
                before.variable_declaration_ids.contains_key(other) ==> #[trigger]
                    after.variable_declaration_ids.contains_key(other)
                    && after.variable_declaration_ids[other]
                    == before.variable_declaration_ids[other]
        }),
{
}


/// A formula with the given variables bound by a universal quantifier; without variables, the
/// formula itself.
pub open spec fn universal_closure(parameters: Seq<usize>, formula: FormulaView) -> FormulaView {
    if parameters.len() == 0 {
        formula
    } else {
        FormulaView::ForAll { parameters, argument: Box::new(formula) }
    }
}

/// The atom of a predicate over its parameters.
pub open spec fn atom_over_parameters(predicate_declaration: usize, parameters: Seq<usize>) -> FormulaView {
    FormulaView::Predicate {
        declaration: predicate_declaration,
        arguments: Seq::new(parameters.len(), |i: int| TermView::Variable(parameters[i])),
    }
}

/// The completion of a predicate: whatever its parameters stand for, the predicate holds of them
/// if and only if one of its definitions does. The definitions stand in the order of their rules.
pub open spec fn completion_of(predicate_declaration: usize, definitions: DefinitionsView) -> FormulaView {
    universal_closure(
        definitions.head_atom_parameters,
        FormulaView::IfAndOnlyIf(
            seq![
                atom_over_parameters(predicate_declaration, definitions.head_atom_parameters),
                FormulaView::Or(
                    Seq::new(
                        definitions.definitions.len(),
                        |i: int| definitions.definitions[i].formula,
                    ),
                ),
            ],
        ),
    )
}

impl Context {
    /// The completion of a predicate; `None` for a predicate that no rule defines.
    pub fn completion(&self, predicate_declaration: usize) -> (completion: Option<Formula>)
        ensures
            match completion {
                Some(formula) => self@.definitions.contains_key(predicate_declaration) && formula@
                    == completion_of(predicate_declaration, self@.definitions[predicate_declaration]),
                None => !self@.definitions.contains_key(predicate_declaration),
            },
    {
        let definitions = match self.definitions(predicate_declaration) {
            Some(definitions) => definitions,
            None => return None,
        };
        let ghost view = definitions@;
        let mut arguments: Vec<Term> = Vec::new();
        let mut position: usize = 0;
        while position < definitions.head_atom_parameters.len()
            invariant
                position <= definitions.head_atom_parameters@.len(),
                arguments@.len() == position,
                forall|i: int|
                    0 <= i < position ==> (#[trigger] arguments@[i])@ == TermView::Variable(
                        definitions.head_atom_parameters@[i],
                    ),
            decreases definitions.head_atom_parameters@.len() - position,
        {
            arguments.push(Term::Variable(definitions.head_atom_parameters[position]));
            position += 1;
        }
        let atom = Formula::Predicate { declaration: predicate_declaration, arguments };
        assert(atom@ =~= atom_over_parameters(predicate_declaration, view.head_atom_parameters)) by {
            assert(terms_view(arguments@) =~= Seq::new(
                view.head_atom_parameters.len(),
                |i: int| TermView::Variable(view.head_atom_parameters[i]),
            ));
        }
        let mut disjuncts: Vec<Formula> = Vec::new();
        let mut position: usize = 0;
        while position < definitions.definitions.len()
            invariant
                position <= definitions.definitions@.len(),
                disjuncts@.len() == position,
                forall|i: int|
                    0 <= i < position ==> (#[trigger] disjuncts@[i])@
                        == definitions.definitions@[i].formula@,
            decreases definitions.definitions@.len() - position,
        {
            disjuncts.push(definitions.definitions[position].formula.duplicate());
            position += 1;
        }
        let disjunction = Formula::Or(disjuncts);
        proof {
            lemma_views_of_lists(Term::Boolean(true), disjunction);
            assert(formulas_view(disjuncts@) =~= Seq::new(
                view.definitions.len(),
                |i: int| view.definitions[i].formula,
            ));
        }
        let mut sides: Vec<Formula> = Vec::new();
        sides.push(atom);
        sides.push(disjunction);
        let equivalence = Formula::IfAndOnlyIf(sides);
        proof {
            lemma_views_of_lists(Term::Boolean(true), equivalence);
            assert(formulas_view(sides@) =~= seq![atom@, disjunction@]);
        }
        let parameters = duplicate_handles(&definitions.head_atom_parameters);
        if parameters.len() == 0 {
            Some(equivalence)
        } else {
            Some(Formula::ForAll { parameters, argument: Box::new(equivalence) })
        }
    }
}

} // verus!
