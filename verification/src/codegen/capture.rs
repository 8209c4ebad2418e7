//! The variables that a lambda captures.
use vstd::prelude::*;

use crate::codegen::globals::{constructor_wf, field_counts, inductive_wf, lemma_inductive_shape};
use crate::codegen::shape::{
    bound_by_branch, can_capture, can_capture_branches, captured, captured_in_branches,
    inductive_fields, Shape,
};
use crate::codegen::Context;
use crate::hir::ir::{DeBruijnIndex, Term};

verus! {

/// If all branches can be looked into, each of them can.
pub proof fn lemma_can_capture_branch(
    shapes: Seq<Shape>,
    fields: Seq<nat>,
    branches: Seq<Term>,
    bound: nat,
    n: nat,
    i: int,
)
    requires
        can_capture_branches(shapes, fields, branches, bound, n),
        0 <= i < n <= branches.len(),
        i < fields.len(),
    ensures
        bound + bound_by_branch(fields[i]) <= usize::MAX,
        can_capture(shapes, branches[i], bound + bound_by_branch(fields[i])),
    decreases n,
{
    if i < n - 1 {
        lemma_can_capture_branch(shapes, fields, branches, bound, (n - 1) as nat, i);
    }
}

/// Branches that have no constructor capture nothing.
pub proof fn lemma_captured_surplus(
    shapes: Seq<Shape>,
    fields: Seq<nat>,
    branches: Seq<Term>,
    bound: nat,
    n: nat,
)
    requires
        fields.len() <= n <= branches.len(),
    ensures
        captured_in_branches(shapes, fields, branches, bound, n) == captured_in_branches(
            shapes,
            fields,
            branches,
            bound,
            fields.len(),
        ),
    decreases n,
{
    if n > fields.len() {
        lemma_captured_surplus(shapes, fields, branches, bound, (n - 1) as nat);
    }
}

impl<'ctx> Context<'ctx> {
    /// The variables that are captured where `term` stands under
    /// `max_bound_debruijn_index + 1` binders.
    pub(crate) fn free_variables_helper(
        &self,
        term: &Term,
        max_bound_debruijn_index: DeBruijnIndex,
    ) -> (indexes: Vec<DeBruijnIndex>)
        requires
            self.wf(),
            can_capture(self.shapes(), *term, max_bound_debruijn_index as nat),
        ensures
            indexes@ == captured(self.shapes(), *term, max_bound_debruijn_index as nat),
        decreases term,
    {
        match term {
            Term::DeBruijnIndex(debruijn_index) => {
                let mut indexes: Vec<DeBruijnIndex> = Vec::new();
                if *debruijn_index > max_bound_debruijn_index {
                    indexes.push(*debruijn_index - max_bound_debruijn_index - 1);
                }
                indexes
            },
            Term::Lambda { body, .. } => {
                self.free_variables_helper(body, max_bound_debruijn_index + 1)
            },
            Term::Application { function, argument } => {
                let mut indexes = self.free_variables_helper(function, max_bound_debruijn_index);
                let mut others = self.free_variables_helper(argument, max_bound_debruijn_index);
                indexes.append(&mut others);
                indexes
            },
            Term::Fixpoint { body, .. } => self.free_variables_helper(
                body,
                max_bound_debruijn_index,
            ),
            Term::Match { inductive_name, scrutinee, branches, .. } => {
                let ghost shapes = self.shapes();
                let ghost bound = max_bound_debruijn_index as nat;
                proof {
                    lemma_inductive_shape(self.calls(), self.declarations(), inductive_name@);
                }
                let inductive = self.global.lookup_inductive(inductive_name.as_str());
                let ghost fields = inductive_fields(shapes, inductive_name@)->0;
                assert(fields == field_counts(self.calls(), inductive@.constructors));
                let mut indexes = self.free_variables_helper(scrutinee, max_bound_debruijn_index);
                let ghost in_scrutinee = indexes@;
                assert(in_scrutinee + captured_in_branches(shapes, fields, branches@, bound, 0)
                    =~= in_scrutinee);
                let mut i: usize = 0;
                while i < inductive.constructors.len() && i < branches.len()
                    invariant
                        self.wf(),
                        shapes == self.shapes(),
                        bound == max_bound_debruijn_index,
                        fields == field_counts(self.calls(), inductive@.constructors),
                        inductive_wf(self.calls(), inductive@),
                        i <= inductive.constructors@.len(),
                        i <= branches@.len(),
                        can_capture_branches(shapes, fields, branches@, bound, branches@.len()),
                        indexes@ == in_scrutinee + captured_in_branches(
                            shapes,
                            fields,
                            branches@,
                            bound,
                            i as nat,
                        ),
                        *term matches Term::Match { branches: all, .. } && all == branches,
                    decreases branches@.len() - i,
                {
                    let constructor = &inductive.constructors[i];
                    assert(constructor_wf(self.calls(), inductive@.constructors[i as int]));
                    let count: usize = self.llvm.get_field_types(constructor.llvm_struct_type).len();
                    assert(fields[i as int] == count);
                    proof {
                        lemma_can_capture_branch(
                            shapes,
                            fields,
                            branches@,
                            bound,
                            branches@.len(),
                            i as int,
                        );
                    }
                    let mut captured_here = self.free_variables_helper(
                        &branches[i],
                        max_bound_debruijn_index + (count - 1),
                    );
                    let ghost before = captured_in_branches(
                        shapes,
                        fields,
                        branches@,
                        bound,
                        i as nat,
                    );
                    let ghost here = captured_here@;
                    indexes.append(&mut captured_here);
                    assert(in_scrutinee + before + here =~= in_scrutinee + (before + here));
                    i = i + 1;
                }
                proof {
                    if fields.len() <= branches@.len() {
                        lemma_captured_surplus(shapes, fields, branches@, bound, branches@.len());
                    }
                }
                indexes
            },
            _ => Vec::new(),
        }
    }

    /// The indexes, where a lambda stands, of the variables that it captures.
    pub fn free_variables(&self, term: &Term) -> (indexes: Vec<DeBruijnIndex>)
        requires
            self.wf(),
            *term matches Term::Lambda { body, .. } && can_capture(self.shapes(), *body, 0),
        ensures
            *term matches Term::Lambda { body, .. } && indexes@ == captured(
                self.shapes(),
                *body,
                0,
            ),
    {
        match term {
            Term::Lambda { body, .. } => self.free_variables_helper(body, 0),
            _ => vstd::pervasive::unreached(),
        }
    }
}

} // verus!
