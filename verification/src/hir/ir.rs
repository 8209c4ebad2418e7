//! Terms, inductive types and declarations.
use vstd::prelude::*;

verus! {

pub type Identifier = String;

/// The distance from a variable to its binder, counted in binders.
pub type DeBruijnIndex = usize;

#[derive(Debug)]
pub enum Name {
    Named(Identifier),
    Anonymous,
}

#[derive(Debug)]
pub enum Sort {
    Prop,
    Type(usize),
}

#[derive(Debug)]
#[allow(inconsistent_fields)]
pub enum Term {
    DeBruijnIndex(DeBruijnIndex),
    Sort(Sort),
    DependentProduct {
        parameter_name: Name,
        parameter_type: Box<Term>,
        return_type: Box<Term>,
    },
    Lambda {
        name: Name,
        parameter_name: Name,
        parameter_type: Box<Term>,
        body: Box<Term>,
    },
    Fixpoint { name: Identifier, expression_type: Box<Term>, body: Box<Term> },
    Application { function: Box<Term>, argument: Box<Term> },
    Inductive(Identifier),
    Constructor(Identifier, usize),
    Match {
        inductive_name: Identifier,
        return_type: Box<Term>,
        scrutinee: Box<Term>,
        branches: Vec<Term>,
    },
    Constant(Identifier),
}

#[derive(Debug)]
pub struct Constructor {
    pub name: Identifier,
    pub typ: Term,
}

#[derive(Debug)]
pub struct Inductive {
    pub name: Identifier,
    pub typ: Term,
    pub constructors: Vec<Constructor>,
}

#[derive(Debug)]
pub enum Declaration {
    Constant(Term),
    Inductive(Inductive),
}

#[derive(Debug)]
pub struct HIR {
    pub declarations: Vec<Declaration>,
}

/// The position in a stack of `len` entries of the entry with this index: the
/// last entry pushed has index zero.
pub open spec fn debruijn_position(len: nat, debruijn_index: nat) -> int {
    len - 1 - debruijn_index
}

/// The entry of `values` with the given index, counted from the end.
pub fn debruijn_index_lookup<T>(values: &Vec<T>, debruijn_index: DeBruijnIndex) -> (value: &T)
    requires
        debruijn_index < values@.len(),
    ensures
        *value == values@[debruijn_position(values@.len(), debruijn_index as nat)],
{
    &values[values.len() - 1 - debruijn_index]
}

/// The entry of `values` with the given index, counted from the end, to be
/// written to.
pub fn debruijn_index_lookup_mut<T>(values: &mut Vec<T>, debruijn_index: DeBruijnIndex) -> (value:
    &mut T)
    requires
        debruijn_index < old(values)@.len(),
    ensures
        *value == old(values)@[debruijn_position(old(values)@.len(), debruijn_index as nat)],
        final(values)@ == old(values)@.update(
            debruijn_position(old(values)@.len(), debruijn_index as nat),
            *final(value),
        ),
{
    let position: usize = values.len() - 1 - debruijn_index;
    &mut values[position]
}

/// The two terms are written alike.
pub open spec fn same_term(a: Term, b: Term) -> bool
    decreases a, 0nat,
{
    match (a, b) {
        (Term::DeBruijnIndex(i), Term::DeBruijnIndex(j)) => i == j,
        (Term::Sort(one), Term::Sort(other)) => one == other,
        (
            Term::DependentProduct { parameter_name, parameter_type, return_type },
            Term::DependentProduct {
                parameter_name: other_name,
                parameter_type: other_type,
                return_type: other_return_type,
            },
        ) => parameter_name == other_name && same_term(*parameter_type, *other_type) && same_term(
            *return_type,
            *other_return_type,
        ),
        (
            Term::Lambda { name, parameter_name, parameter_type, body },
            Term::Lambda {
                name: other_name,
                parameter_name: other_parameter_name,
                parameter_type: other_type,
                body: other_body,
            },
        ) => name == other_name && parameter_name == other_parameter_name && same_term(
            *parameter_type,
            *other_type,
        ) && same_term(*body, *other_body),
        (
            Term::Fixpoint { name, expression_type, body },
            Term::Fixpoint { name: other_name, expression_type: other_type, body: other_body },
        ) => name == other_name && same_term(*expression_type, *other_type) && same_term(
            *body,
            *other_body,
        ),
        (
            Term::Application { function, argument },
            Term::Application { function: other_function, argument: other_argument },
        ) => same_term(*function, *other_function) && same_term(*argument, *other_argument),
        (Term::Inductive(name), Term::Inductive(other)) => name == other,
        (Term::Constructor(name, i), Term::Constructor(other, j)) => name == other && i == j,
        (
            Term::Match { inductive_name, return_type, scrutinee, branches },
            Term::Match {
                inductive_name: other_name,
                return_type: other_type,
                scrutinee: other_scrutinee,
                branches: other_branches,
            },
        ) => inductive_name == other_name && same_term(*return_type, *other_type) && same_term(
            *scrutinee,
            *other_scrutinee,
        ) && branches@.len() == other_branches@.len() && same_terms(
            branches@,
            other_branches@,
            branches@.len(),
        ),
        (Term::Constant(name), Term::Constant(other)) => name == other,
        _ => false,
    }
}

/// The first `n` terms are written alike.
pub open spec fn same_terms(a: Seq<Term>, b: Seq<Term>, n: nat) -> bool
    decreases a, n,
{
    n == 0 || n > a.len() || (same_terms(a, b, (n - 1) as nat) && same_term(a[n - 1], b[n - 1]))
}

impl Clone for Name {
    fn clone(&self) -> (copy: Name)
        ensures
            copy == *self,
    {
        match self {
            Name::Named(name) => Name::Named(name.clone()),
            Name::Anonymous => Name::Anonymous,
        }
    }
}

impl Clone for Sort {
    fn clone(&self) -> (copy: Sort)
        ensures
            copy == *self,
    {
        match self {
            Sort::Prop => Sort::Prop,
            Sort::Type(universe) => Sort::Type(*universe),
        }
    }
}

/// A term that is written like this one.
fn copied(term: &Term) -> (copy: Term)
    ensures
        same_term(*term, copy),
    decreases *term, 0nat,
{
    match term {
        Term::DeBruijnIndex(index) => Term::DeBruijnIndex(*index),
        Term::Sort(sort) => Term::Sort(sort.clone()),
        Term::DependentProduct { parameter_name, parameter_type, return_type } => {
            Term::DependentProduct {
                parameter_name: parameter_name.clone(),
                parameter_type: Box::new(copied(parameter_type)),
                return_type: Box::new(copied(return_type)),
            }
        },
        Term::Lambda { name, parameter_name, parameter_type, body } => Term::Lambda {
            name: name.clone(),
            parameter_name: parameter_name.clone(),
            parameter_type: Box::new(copied(parameter_type)),
            body: Box::new(copied(body)),
        },
        Term::Fixpoint { name, expression_type, body } => Term::Fixpoint {
            name: name.clone(),
            expression_type: Box::new(copied(expression_type)),
            body: Box::new(copied(body)),
        },
        Term::Application { function, argument } => Term::Application {
            function: Box::new(copied(function)),
            argument: Box::new(copied(argument)),
        },
        Term::Inductive(name) => Term::Inductive(name.clone()),
        Term::Constructor(name, index) => Term::Constructor(name.clone(), *index),
        Term::Match { inductive_name, return_type, scrutinee, branches } => {
            let mut copies: Vec<Term> = Vec::new();
            let count: usize = branches.len();
            let mut i: usize = 0;
            while i < count
                invariant
                    i <= count == branches@.len(),
                    copies@.len() == i,
                    decreases_to!(*term => *branches),
                    same_terms(branches@, copies@, i as nat),
                decreases count - i,
            {
                let ghost before = copies@;
                copies.push(copied(&branches[i]));
                proof {
                    lemma_same_terms_push(branches@, before, copies@.last(), i as nat);
                }
                i = i + 1;
            }
            Term::Match {
                inductive_name: inductive_name.clone(),
                return_type: Box::new(copied(return_type)),
                scrutinee: Box::new(copied(scrutinee)),
                branches: copies,
            }
        },
        Term::Constant(name) => Term::Constant(name.clone()),
    }
}

proof fn lemma_same_terms_push(a: Seq<Term>, b: Seq<Term>, term: Term, n: nat)
    requires
        n <= b.len(),
        same_terms(a, b, n),
    ensures
        same_terms(a, b.push(term), n),
    decreases n,
{
    if 0 < n <= a.len() {
        lemma_same_terms_push(a, b, term, (n - 1) as nat);
        assert(b.push(term)[n - 1] == b[n - 1]);
    }
}

impl Clone for Term {
    fn clone(&self) -> (copy: Term)
        ensures
            same_term(*self, copy),
    {
        copied(self)
    }
}

impl Clone for Constructor {
    fn clone(&self) -> (copy: Constructor)
        ensures
            copy.name == self.name,
            same_term(self.typ, copy.typ),
    {
        Constructor { name: self.name.clone(), typ: copied(&self.typ) }
    }
}

/// The two inductive types are written alike.
pub open spec fn same_inductive(a: Inductive, b: Inductive) -> bool {
    &&& a.name == b.name
    &&& same_term(a.typ, b.typ)
    &&& a.constructors@.len() == b.constructors@.len()
    &&& forall|i: int|
        0 <= i < a.constructors@.len() ==> (#[trigger] a.constructors@[i]).name
            == b.constructors@[i].name && same_term(a.constructors@[i].typ, b.constructors@[i].typ)
}

impl Clone for Inductive {
    fn clone(&self) -> (copy: Inductive)
        ensures
            same_inductive(*self, copy),
    {
        let mut constructors: Vec<Constructor> = Vec::new();
        let count: usize = self.constructors.len();
        let mut i: usize = 0;
        while i < count
            invariant
                i <= count == self.constructors@.len(),
                constructors@.len() == i,
                forall|j: int|
                    0 <= j < i ==> (#[trigger] self.constructors@[j]).name == constructors@[j].name
                        && same_term(self.constructors@[j].typ, constructors@[j].typ),
            decreases count - i,
        {
            constructors.push(self.constructors[i].clone());
            i = i + 1;
        }
        Inductive { name: self.name.clone(), typ: copied(&self.typ), constructors }
    }
}

/// The two declarations are written alike.
pub open spec fn same_declaration(a: Declaration, b: Declaration) -> bool {
    match (a, b) {
        (Declaration::Constant(one), Declaration::Constant(other)) => same_term(one, other),
        (Declaration::Inductive(one), Declaration::Inductive(other)) => same_inductive(one, other),
        _ => false,
    }
}

impl Clone for Declaration {
    fn clone(&self) -> (copy: Declaration)
        ensures
            same_declaration(*self, copy),
    {
        match self {
            Declaration::Constant(term) => Declaration::Constant(copied(term)),
            Declaration::Inductive(inductive) => Declaration::Inductive(inductive.clone()),
        }
    }
}

impl Clone for HIR {
    fn clone(&self) -> (copy: HIR)
        ensures
            copy.declarations@.len() == self.declarations@.len(),
            forall|i: int|
                0 <= i < self.declarations@.len() ==> same_declaration(
                    #[trigger] self.declarations@[i],
                    copy.declarations@[i],
                ),
    {
        let mut declarations: Vec<Declaration> = Vec::new();
        let count: usize = self.declarations.len();
        let mut i: usize = 0;
        while i < count
            invariant
                i <= count == self.declarations@.len(),
                declarations@.len() == i,
                forall|j: int|
                    0 <= j < i ==> same_declaration(
                        #[trigger] self.declarations@[j],
                        declarations@[j],
                    ),
            decreases count - i,
        {
            declarations.push(self.declarations[i].clone());
            i = i + 1;
        }
        HIR { declarations }
    }
}

} // verus!
