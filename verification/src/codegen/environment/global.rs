//! The declarations that have been compiled.
use inkwell::types::{PointerType, StructType};
use inkwell::values::PointerValue;
use vstd::prelude::*;

use crate::codegen::search::{first, lemma_first};
use crate::hir::ir::Identifier;
use crate::llvm::session::pointer_type;
use crate::llvm::trace::Ty;

verus! {

#[derive(Debug)]
pub enum Declaration<'ctx> {
    Constant { name: String, llvm_value: PointerValue<'ctx> },
    Inductive(String, Inductive<'ctx>),
}

#[derive(Debug)]
pub struct Inductive<'ctx> {
    pub name: Identifier,
    pub llvm_type: PointerType<'ctx>,
    pub constructors: Vec<Constructor<'ctx>>,
}

#[derive(Debug)]
pub struct Constructor<'ctx> {
    pub name: Identifier,
    pub llvm_struct_type: StructType<'ctx>,
    pub llvm_function: PointerValue<'ctx>,
}

/// The compiled declarations, first to last.
#[derive(Debug)]
pub struct Environment<'ctx> {
    declarations: Vec<Declaration<'ctx>>,
}

/// What a compiled declaration is.
pub enum Entry<'ctx> {
    Constant { name: Seq<char>, llvm_value: PointerValue<'ctx> },
    Inductive(Seq<char>, Family<'ctx>),
}

/// What a compiled inductive type is.
pub struct Family<'ctx> {
    pub name: Seq<char>,
    pub llvm_type: Ty<'ctx>,
    pub constructors: Seq<Member<'ctx>>,
}

/// What a compiled constructor is.
pub struct Member<'ctx> {
    pub name: Seq<char>,
    pub llvm_struct_type: StructType<'ctx>,
    pub llvm_function: PointerValue<'ctx>,
}

impl<'ctx> View for Constructor<'ctx> {
    type V = Member<'ctx>;

    open spec fn view(&self) -> Member<'ctx> {
        Member {
            name: self.name@,
            llvm_struct_type: self.llvm_struct_type,
            llvm_function: self.llvm_function,
        }
    }
}

impl<'ctx> View for Inductive<'ctx> {
    type V = Family<'ctx>;

    open spec fn view(&self) -> Family<'ctx> {
        Family {
            name: self.name@,
            llvm_type: pointer_type(self.llvm_type),
            constructors: Seq::new(self.constructors@.len(), |i: int| self.constructors@[i]@),
        }
    }
}

impl<'ctx> View for Declaration<'ctx> {
    type V = Entry<'ctx>;

    open spec fn view(&self) -> Entry<'ctx> {
        match self {
            Declaration::Constant { name, llvm_value } => Entry::Constant {
                name: name@,
                llvm_value: *llvm_value,
            },
            Declaration::Inductive(name, inductive) => Entry::Inductive(name@, inductive@),
        }
    }
}

/// The declaration is that of an inductive type of this name.
pub open spec fn declares_inductive(declaration: Entry<'_>, name: Seq<char>) -> bool {
    declaration matches Entry::Inductive(declared, _) && declared == name
}

/// The declaration is that of a constant of this name.
pub open spec fn declares_constant(declaration: Entry<'_>, name: Seq<char>) -> bool {
    declaration matches Entry::Constant { name: declared, .. } && declared == name
}

/// Where the first inductive type of this name is declared.
pub open spec fn find_inductive(declarations: Seq<Entry<'_>>, name: Seq<char>) -> Option<
    int,
> {
    first(declarations, |declaration: Entry<'_>| declares_inductive(declaration, name))
}

/// Where the first constant of this name is declared.
pub open spec fn find_constant(declarations: Seq<Entry<'_>>, name: Seq<char>) -> Option<int> {
    first(declarations, |declaration: Entry<'_>| declares_constant(declaration, name))
}

/// The constructors of the first inductive type of this name.
pub open spec fn find_constructors<'ctx>(
    declarations: Seq<Entry<'ctx>>,
    name: Seq<char>,
) -> Option<Seq<Member<'ctx>>> {
    match find_inductive(declarations, name) {
        Some(i) => Some(declarations[i]->Inductive_1.constructors),
        None => None,
    }
}

/// The first inductive type of this name has one more constructor.
pub open spec fn with_constructor<'ctx>(
    declarations: Seq<Entry<'ctx>>,
    name: Seq<char>,
    constructor: Member<'ctx>,
) -> Seq<Entry<'ctx>> {
    let i = find_inductive(declarations, name)->0;
    let inductive = declarations[i]->Inductive_1;
    declarations.update(
        i,
        Entry::Inductive(
            name,
            Family { constructors: inductive.constructors.push(constructor), ..inductive },
        ),
    )
}

/// What is found is the declaration looked for, and the first such.
pub proof fn lemma_find_inductive(declarations: Seq<Entry<'_>>, name: Seq<char>)
    ensures
        match find_inductive(declarations, name) {
            Some(i) => 0 <= i < declarations.len() && declares_inductive(declarations[i], name)
                && forall|j: int|
                0 <= j < i ==> !declares_inductive(#[trigger] declarations[j], name),
            None => forall|j: int|
                0 <= j < declarations.len() ==> !declares_inductive(
                    #[trigger] declarations[j],
                    name,
                ),
        },
{
    let wanted = |declaration: Entry<'_>| declares_inductive(declaration, name);
    lemma_first(declarations, wanted);
    assert forall|j: int| 0 <= j < declarations.len() implies wanted(#[trigger] declarations[j])
        == declares_inductive(declarations[j], name) by {}
}

/// What is found is the declaration looked for, and the first such.
pub proof fn lemma_find_constant(declarations: Seq<Entry<'_>>, name: Seq<char>)
    ensures
        match find_constant(declarations, name) {
            Some(i) => 0 <= i < declarations.len() && declares_constant(declarations[i], name)
                && forall|j: int|
                0 <= j < i ==> !declares_constant(#[trigger] declarations[j], name),
            None => forall|j: int|
                0 <= j < declarations.len() ==> !declares_constant(#[trigger] declarations[j], name),
        },
{
    let wanted = |declaration: Entry<'_>| declares_constant(declaration, name);
    lemma_first(declarations, wanted);
    assert forall|j: int| 0 <= j < declarations.len() implies wanted(#[trigger] declarations[j])
        == declares_constant(declarations[j], name) by {}
}

impl<'ctx> View for Environment<'ctx> {
    type V = Seq<Entry<'ctx>>;

    closed spec fn view(&self) -> Seq<Entry<'ctx>> {
        Seq::new(self.declarations@.len(), |i: int| self.declarations@[i]@)
    }
}

impl<'ctx> Environment<'ctx> {
    /// Nothing has been declared.
    pub fn new() -> (environment: Environment<'ctx>)
        ensures
            environment@ == Seq::<Entry<'ctx>>::empty(),
    {
        Environment { declarations: Vec::new() }
    }

    /// How many declarations there are.
    pub fn len(&self) -> (count: usize)
        ensures
            count == self@.len(),
    {
        self.declarations.len()
    }

    /// Declaration `i`, in order.
    pub fn get(&self, i: usize) -> (declaration: &Declaration<'ctx>)
        requires
            i < self@.len(),
        ensures
            declaration@ == self@[i as int],
    {
        &self.declarations[i]
    }

    fn inductive_position(&self, name: &str) -> (found: usize)
        requires
            find_inductive(self@, name@) is Some,
        ensures
            find_inductive(self@, name@) == Some(found as int),
            found < self@.len(),
            declares_inductive(self@[found as int], name@),
    {
        proof {
            lemma_find_inductive(self@, name@);
        }
        let key: String = name.to_owned();
        let count: usize = self.declarations.len();
        let mut i: usize = 0;
        loop
            invariant
                i < count == self.declarations@.len(),
                self@ == Seq::new(count as nat, |i: int| self.declarations@[i]@),
                key@ == name@,
                find_inductive(self@, name@) matches Some(k) && i <= k < self@.len()
                    && declares_inductive(self@[k], name@) && forall|j: int|
                    0 <= j < k ==> !declares_inductive(#[trigger] self@[j], name@),
            decreases count - i,
        {
            assert(self@[i as int] == self.declarations@[i as int]@);
            if let Declaration::Inductive(declared, _) = &self.declarations[i] {
                if *declared == key {
                    return i;
                }
            }
            i = i + 1;
        }
    }

    /// The type of pointers to values of an inductive type.
    pub fn lookup_inductive_llvm_type(&self, name: &str) -> (llvm_type: PointerType<'ctx>)
        requires
            find_inductive(self@, name@) is Some,
        ensures
            pointer_type(llvm_type) == self@[find_inductive(
                self@,
                name@,
            )->0]->Inductive_1.llvm_type,
    {
        self.lookup_inductive(name).llvm_type
    }

    /// The first inductive type of this name.
    pub fn lookup_inductive(&self, name: &str) -> (inductive: &Inductive<'ctx>)
        requires
            find_inductive(self@, name@) is Some,
        ensures
            inductive@ == self@[find_inductive(self@, name@)->0]->Inductive_1,
    {
        let found: usize = self.inductive_position(name);
        match &self.declarations[found] {
            Declaration::Inductive(_, inductive) => inductive,
            Declaration::Constant { .. } => vstd::pervasive::unreached(),
        }
    }

    /// The first inductive type of this name, to be changed.
    pub fn lookup_inductive_mut(&mut self, name: &str) -> (inductive: &mut Inductive<'ctx>)
        requires
            find_inductive(old(self)@, name@) is Some,
        ensures
            (*inductive)@ == old(self)@[find_inductive(old(self)@, name@)->0]->Inductive_1,
            final(self)@ == old(self)@.update(
                find_inductive(old(self)@, name@)->0,
                Entry::Inductive(name@, (*final(inductive))@),
            ),
    {
        let found: usize = self.inductive_position(name);
        match &mut self.declarations[found] {
            Declaration::Inductive(_, inductive) => inductive,
            Declaration::Constant { .. } => vstd::pervasive::unreached(),
        }
    }

    /// The value of the first constant of this name.
    pub fn lookup_constant_value(&self, name: &str) -> (llvm_value: PointerValue<'ctx>)
        requires
            find_constant(self@, name@) is Some,
        ensures
            llvm_value == self@[find_constant(self@, name@)->0]->llvm_value,
    {
        proof {
            lemma_find_constant(self@, name@);
        }
        let key: String = name.to_owned();
        let count: usize = self.declarations.len();
        let mut i: usize = 0;
        loop
            invariant
                i < count == self.declarations@.len(),
                self@ == Seq::new(count as nat, |i: int| self.declarations@[i]@),
                key@ == name@,
                find_constant(self@, name@) matches Some(k) && i <= k < self@.len()
                    && declares_constant(self@[k], name@) && forall|j: int|
                    0 <= j < k ==> !declares_constant(#[trigger] self@[j], name@),
            decreases count - i,
        {
            assert(self@[i as int] == self.declarations@[i as int]@);
            if let Declaration::Constant { name: declared, llvm_value } = &self.declarations[i] {
                if *declared == key {
                    return *llvm_value;
                }
            }
            i = i + 1;
        }
    }

    /// Declares an inductive type that has no constructors yet.
    pub fn push_inductive(&mut self, name: String, llvm_type: PointerType<'ctx>)
        ensures
            final(self)@ == old(self)@.push(
                Entry::Inductive(
                    name@,
                    Family {
                        name: name@,
                        llvm_type: pointer_type(llvm_type),
                        constructors: Seq::empty(),
                    },
                ),
            ),
    {
        self.declarations.push(
            Declaration::Inductive(
                name.clone(),
                Inductive { name, llvm_type, constructors: Vec::new() },
            ),
        );
        proof {
            let declared = self.declarations@.last()->Inductive_1;
            assert(declared@.constructors =~= Seq::empty());
        }
    }

    /// Declares a constant.
    pub fn push_constant_value(&mut self, name: String, llvm_value: PointerValue<'ctx>)
        ensures
            final(self)@ == old(self)@.push(Entry::Constant { name: name@, llvm_value }),
    {
        self.declarations.push(Declaration::Constant { name, llvm_value })
    }

    /// Gives the first inductive type of this name one more constructor.
    pub fn add_constructor(&mut self, inductive_name: &str, constructors: Constructor<'ctx>)
        requires
            find_inductive(old(self)@, inductive_name@) is Some,
        ensures
            final(self)@ == with_constructor(old(self)@, inductive_name@, constructors@),
    {
        proof {
            lemma_find_inductive(self@, inductive_name@);
        }
        let inductive = self.lookup_inductive_mut(inductive_name);
        let ghost before = inductive@.constructors;
        inductive.constructors.push(constructors);
        assert(inductive@.constructors =~= before.push(constructors@));
    }
}

} // verus!
