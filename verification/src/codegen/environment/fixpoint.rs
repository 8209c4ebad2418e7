//! The fixpoints whose functions are being generated.
use inkwell::values::PointerValue;
use vstd::prelude::*;

use crate::codegen::shape::{binding, Binding};

verus! {

/// A fixpoint whose function is being generated.
#[derive(Debug)]
pub struct Fixpoint<'ctx> {
    pub name: String,
    /// Whether the function captures nothing.
    pub closed: bool,
    pub llvm_function: PointerValue<'ctx>,
}

/// What a fixpoint is whose function is being generated.
pub struct Recursion<'ctx> {
    pub name: Seq<char>,
    pub closed: bool,
    pub llvm_function: PointerValue<'ctx>,
}

impl<'ctx> View for Fixpoint<'ctx> {
    type V = Recursion<'ctx>;

    open spec fn view(&self) -> Recursion<'ctx> {
        Recursion {
            name: self.name@,
            closed: self.closed,
            llvm_function: self.llvm_function,
        }
    }
}

/// The fixpoints whose functions are being generated, innermost last.
#[derive(Debug)]
pub struct Environment<'ctx> {
    fixpoints: Vec<Fixpoint<'ctx>>,
}

impl<'ctx> View for Environment<'ctx> {
    type V = Seq<Recursion<'ctx>>;

    closed spec fn view(&self) -> Seq<Recursion<'ctx>> {
        Seq::new(self.fixpoints@.len(), |i: int| self.fixpoints@[i]@)
    }
}

/// The innermost fixpoint of this name.
pub open spec fn find_fixpoint<'ctx>(fixpoints: Seq<Recursion<'ctx>>, name: Seq<char>) -> Option<
    Recursion<'ctx>,
>
    decreases fixpoints.len(),
{
    if fixpoints.len() == 0 {
        None
    } else if fixpoints.last().name == name {
        Some(fixpoints.last())
    } else {
        find_fixpoint(fixpoints.drop_last(), name)
    }
}

/// What is known of the fixpoints.
pub open spec fn bindings_of(fixpoints: Seq<Recursion<'_>>) -> Seq<Binding> {
    Seq::new(
        fixpoints.len(),
        |i: int| Binding { name: fixpoints[i].name, closed: fixpoints[i].closed },
    )
}

/// The bindings hold what the fixpoints do.
pub proof fn lemma_bindings(fixpoints: Seq<Recursion<'_>>, name: Seq<char>)
    ensures
        binding(bindings_of(fixpoints), name) == (match find_fixpoint(fixpoints, name) {
            Some(found) => Some(found.closed),
            None => None,
        }),
    decreases fixpoints.len(),
{
    if fixpoints.len() > 0 {
        lemma_bindings(fixpoints.drop_last(), name);
        assert(bindings_of(fixpoints).drop_last() =~= bindings_of(fixpoints.drop_last()));
    }
}

impl<'ctx> Environment<'ctx> {
    /// No fixpoint is in scope.
    pub fn new() -> (environment: Environment<'ctx>)
        ensures
            environment@ == Seq::<Recursion<'ctx>>::empty(),
    {
        Environment { fixpoints: Vec::new() }
    }

    /// The function of a fixpoint is generated from now on.
    pub fn push(&mut self, fixpoint: Fixpoint<'ctx>)
        ensures
            final(self)@ == old(self)@.push(fixpoint@),
    {
        self.fixpoints.push(fixpoint);
    }

    /// The function of the innermost fixpoint is complete.
    pub fn pop(&mut self)
        requires
            old(self)@.len() > 0,
        ensures
            final(self)@ == old(self)@.drop_last(),
    {
        self.fixpoints.pop();
    }

    /// The innermost fixpoint of this name: whether it captures nothing, and its
    /// function.
    pub fn lookup(&self, name: &String) -> (found: Option<(bool, PointerValue<'ctx>)>)
        ensures
            found == (match find_fixpoint(self@, name@) {
                Some(fixpoint) => Some((fixpoint.closed, fixpoint.llvm_function)),
                None => None,
            }),
    {
        let mut i: usize = self.fixpoints.len();
        assert(self@.take(i as int) =~= self@);
        while i > 0
            invariant
                i <= self.fixpoints@.len() == self@.len(),
                forall|j: int| 0 <= j < self@.len() ==> self@[j] == #[trigger] self.fixpoints@[j]@,
                find_fixpoint(self@, name@) == find_fixpoint(self@.take(i as int), name@),
            decreases i,
        {
            i = i - 1;
            let ghost before = self@.take(i as int + 1);
            assert(before.last() == self.fixpoints@[i as int]@);
            assert(before.drop_last() =~= self@.take(i as int));
            if self.fixpoints[i].name == *name {
                return Some((self.fixpoints[i].closed, self.fixpoints[i].llvm_function));
            }
        }
        None
    }
}

} // verus!
