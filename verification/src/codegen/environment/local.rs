//! The values of the variables that are in scope.
use inkwell::values::PointerValue;
use vstd::prelude::*;

use crate::hir;
use crate::hir::ir::{debruijn_position, DeBruijnIndex};

verus! {

/// The values of the bound variables, innermost last.
#[derive(Debug)]
pub struct Environment<'ctx> {
    debruijn_values: Vec<PointerValue<'ctx>>,
}

impl<'ctx> View for Environment<'ctx> {
    type V = Seq<PointerValue<'ctx>>;

    closed spec fn view(&self) -> Seq<PointerValue<'ctx>> {
        self.debruijn_values@
    }
}

impl<'ctx> Clone for Environment<'ctx> {
    fn clone(&self) -> (copy: Environment<'ctx>)
        ensures
            copy@ == self@,
    {
        let mut debruijn_values: Vec<PointerValue<'ctx>> = Vec::new();
        let count: usize = self.debruijn_values.len();
        let mut i: usize = 0;
        while i < count
            invariant
                i <= count == self.debruijn_values@.len(),
                debruijn_values@ == self.debruijn_values@.take(i as int),
            decreases count - i,
        {
            debruijn_values.push(self.debruijn_values[i]);
            i = i + 1;
            assert(debruijn_values@ =~= self.debruijn_values@.take(i as int));
        }
        assert(debruijn_values@ =~= self.debruijn_values@);
        Environment { debruijn_values }
    }
}

impl<'ctx> Environment<'ctx> {
    /// No variable is in scope.
    pub fn new() -> (environment: Environment<'ctx>)
        ensures
            environment@ == Seq::<PointerValue<'ctx>>::empty(),
    {
        Environment { debruijn_values: Vec::new() }
    }

    /// Binds a variable, which gets index zero.
    pub fn push(&mut self, value: PointerValue<'ctx>)
        ensures
            final(self)@ == old(self)@.push(value),
    {
        self.debruijn_values.push(value)
    }

    /// Ends the scope of the variable with index zero.
    pub fn pop(&mut self)
        requires
            old(self)@.len() > 0,
        ensures
            final(self)@ == old(self)@.drop_last(),
    {
        self.debruijn_values.pop();
    }

    /// The value of a variable.
    pub fn lookup(&self, debruijn_index: DeBruijnIndex) -> (value: PointerValue<'ctx>)
        requires
            debruijn_index < self@.len(),
        ensures
            value == self@[debruijn_position(self@.len(), debruijn_index as nat)],
    {
        *hir::ir::debruijn_index_lookup(&self.debruijn_values, debruijn_index)
    }

    /// Changes the value of a variable.
    pub fn update(&mut self, debruijn_index: DeBruijnIndex, new_pointer: PointerValue<'ctx>)
        requires
            debruijn_index < old(self)@.len(),
        ensures
            final(self)@ == old(self)@.update(
                debruijn_position(old(self)@.len(), debruijn_index as nat),
                new_pointer,
            ),
    {
        *hir::ir::debruijn_index_lookup_mut(&mut self.debruijn_values, debruijn_index) =
        new_pointer;
    }
}

} // verus!
