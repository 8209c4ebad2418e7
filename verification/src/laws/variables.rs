//! The code of a term uses the values of its free variables, and of no others.
use inkwell::basic_block::BasicBlock;
use inkwell::values::{FunctionValue, PointerValue};
use vstd::prelude::*;

use crate::codegen::emission::{
    captured_values, case_at, cases_at, closure_calls, lambda_at, loaded_fields,
    scope_with_captures, term_at, with_fixpoint,
};
use crate::codegen::environment::fixpoint::Recursion;
use crate::codegen::environment::global::{find_inductive, lemma_find_inductive, Entry, Member};
use crate::codegen::globals::{field_counts, fields_of, lemma_inductive_shape, shapes_of};
use crate::codegen::shape::{
    bound_by_branch, captured, free_in, free_in_branches, inductive_fields, Shape,
};
use crate::hir::ir::{DeBruijnIndex, Term};
use crate::laws::law_captured_are_the_free_variables;
use crate::laws::determined::{constructors_laid_out, laid_out};
use crate::laws::flow::{
    law_code_keeps_to_itself, lemma_cases_flow, lemma_fields_loaded_flow, lemma_lambda_opened,
};
use crate::llvm::session::parameter_of;
use crate::llvm::trace::{
    block_at, extends, function_at, generic_pointer, lemma_body_extends, pointer_at, Trace,
};

verus! {

/// From call `at` on, as many fields are known of the constructors as `shapes` say.
pub open spec fn is_steady<'ctx>(
    shapes: Seq<Shape>,
    declarations: Seq<Entry<'ctx>>,
    t: Trace<'ctx>,
    at: int,
) -> bool {
    forall|k: int, name: Seq<char>|
        at <= k <= t.len() ==> #[trigger] inductive_fields(
            shapes_of(t.take(k), declarations),
            name,
        ) == inductive_fields(shapes, name)
}

/// The values of the variables that are free in the term are the same.
pub open spec fn agree_on_free<'ctx>(
    shapes: Seq<Shape>,
    term: Term,
    one: Seq<PointerValue<'ctx>>,
    other: Seq<PointerValue<'ctx>>,
) -> bool {
    &&& one.len() == other.len()
    &&& forall|index: nat|
        index < one.len() && #[trigger] free_in(shapes, term, index) ==> one[one.len() - 1 - index]
            == other[one.len() - 1 - index]
}

proof fn lemma_free_in_same(one: Seq<Shape>, other: Seq<Shape>, term: Term, index: nat)
    requires
        forall|name: Seq<char>| #[trigger]
            inductive_fields(one, name) == inductive_fields(other, name),
    ensures
        free_in(one, term, index) == free_in(other, term, index),
    decreases term, 0nat,
{
    match term {
        Term::Lambda { body, .. } => {
            lemma_free_in_same(one, other, *body, index + 1);
        },
        Term::Application { function, argument } => {
            lemma_free_in_same(one, other, *function, index);
            lemma_free_in_same(one, other, *argument, index);
        },
        Term::Fixpoint { body, .. } => {
            lemma_free_in_same(one, other, *body, index);
        },
        Term::Match { inductive_name, scrutinee, branches, .. } => {
            lemma_free_in_same(one, other, *scrutinee, index);
            assert(inductive_fields(one, inductive_name@) == inductive_fields(
                other,
                inductive_name@,
            ));
            if let Some(fields) = inductive_fields(one, inductive_name@) {
                lemma_free_in_branches_same(
                    one,
                    other,
                    fields,
                    branches@,
                    index,
                    branches@.len(),
                );
            }
        },
        _ => {},
    }
}

proof fn lemma_free_in_branches_same(
    one: Seq<Shape>,
    other: Seq<Shape>,
    fields: Seq<nat>,
    branches: Seq<Term>,
    index: nat,
    n: nat,
)
    requires
        forall|name: Seq<char>| #[trigger]
            inductive_fields(one, name) == inductive_fields(other, name),
    ensures
        free_in_branches(one, fields, branches, index, n) == free_in_branches(
            other,
            fields,
            branches,
            index,
            n,
        ),
    decreases branches, n,
{
    if 0 < n <= branches.len() {
        lemma_free_in_branches_same(one, other, fields, branches, index, (n - 1) as nat);
        if n <= fields.len() {
            lemma_free_in_same(
                one,
                other,
                branches[n - 1],
                index + bound_by_branch(fields[n - 1]),
            );
        }
    }
}

proof fn lemma_free_in_branch(
    shapes: Seq<Shape>,
    fields: Seq<nat>,
    branches: Seq<Term>,
    index: nat,
    n: nat,
    i: int,
)
    requires
        0 <= i < n <= branches.len(),
        n <= fields.len(),
        free_in(shapes, branches[i], index + bound_by_branch(fields[i])),
    ensures
        free_in_branches(shapes, fields, branches, index, n),
    decreases n,
{
    if i < n - 1 {
        lemma_free_in_branch(shapes, fields, branches, index, (n - 1) as nat, i);
    }
}

/// What has been laid out stays so.
pub proof fn lemma_steady<'ctx>(declarations: Seq<Entry<'ctx>>, t: Trace<'ctx>, at: int)
    requires
        0 <= at <= t.len(),
        constructors_laid_out(t.take(at), declarations),
    ensures
        is_steady(shapes_of(t.take(at), declarations), declarations, t, at),
{
    let shapes = shapes_of(t.take(at), declarations);
    assert forall|k: int, name: Seq<char>| at <= k <= t.len() implies #[trigger] inductive_fields(
        shapes_of(t.take(k), declarations),
        name,
    ) == inductive_fields(shapes, name) by {
        lemma_inductive_shape(t.take(k), declarations, name);
        lemma_inductive_shape(t.take(at), declarations, name);
        lemma_find_inductive(declarations, name);
        if let Some(i) = find_inductive(declarations, name) {
            let constructors = declarations[i]->Inductive_1.constructors;
            assert forall|j: int| 0 <= j < constructors.len() implies #[trigger] field_counts(
                t.take(k),
                constructors,
            )[j] == field_counts(t.take(at), constructors)[j] by {
                assert(laid_out(
                    t.take(at),
                    declarations[i]->Inductive_1.constructors[j],
                ));
                assert(extends(t.take(k), t.take(at)));
                lemma_body_extends(t.take(at), t.take(k), constructors[j].llvm_struct_type);
            }
            assert(field_counts(t.take(k), constructors) =~= field_counts(
                t.take(at),
                constructors,
            ));
        }
    }
}

proof fn lemma_copied_agree<'ctx>(
    t: Trace<'ctx>,
    at: int,
    one: Seq<PointerValue<'ctx>>,
    other: Seq<PointerValue<'ctx>>,
    indexes: Seq<DeBruijnIndex>,
    n: nat,
)
    requires
        n <= indexes.len(),
        one.len() == other.len(),
        forall|i: int| 0 <= i < indexes.len() ==> #[trigger] indexes[i] < one.len(),
    ensures
        scope_with_captures(t, at, one, indexes, n).len() == one.len(),
        scope_with_captures(t, at, other, indexes, n).len() == one.len(),
        forall|p: int|
            0 <= p < one.len() && one[p] == other[p] ==> #[trigger] scope_with_captures(
                t,
                at,
                one,
                indexes,
                n,
            )[p] == scope_with_captures(t, at, other, indexes, n)[p],
    decreases n,
{
    if n > 0 {
        lemma_copied_agree(t, at, one, other, indexes, (n - 1) as nat);
        assert(indexes[n - 1] < one.len());
    }
}

/// The code of a term depends on the values of its free variables alone.
pub proof fn law_only_free_variables_count<'ctx>(
    shapes: Seq<Shape>,
    declarations: Seq<Entry<'ctx>>,
    t: Trace<'ctx>,
    at: int,
    term: Term,
    one: Seq<PointerValue<'ctx>>,
    other: Seq<PointerValue<'ctx>>,
    fixpoints: Seq<Recursion<'ctx>>,
    function: FunctionValue<'ctx>,
    block: BasicBlock<'ctx>,
)
    requires
        0 <= at <= t.len(),
        is_steady(shapes, declarations, t, at),
        agree_on_free(shapes, term, one, other),
        term_at(declarations, t, at, term, one, fixpoints, function, block) is Some,
    ensures
        term_at(declarations, t, at, term, other, fixpoints, function, block) == term_at(
            declarations,
            t,
            at,
            term,
            one,
            fixpoints,
            function,
            block,
        ),
    decreases term, 0nat,
{
    match term {
        Term::DeBruijnIndex(index) => {
            assert(free_in(shapes, term, index as nat));
        },
        Term::Lambda { body, .. } => {
            assert forall|index: nat| index < one.len() && #[trigger] free_in(
                shapes,
                *body,
                index + 1,
            ) implies one[one.len() - 1 - index] == other[one.len() - 1 - index] by {
                assert(free_in(shapes, term, index));
            }
            lemma_lambda_only_free(
                shapes,
                declarations,
                t,
                at,
                *body,
                None,
                one,
                other,
                fixpoints,
                block,
            );
        },
        Term::Application { function: applied, argument } => {
            assert forall|index: nat| index < one.len() && #[trigger] free_in(
                shapes,
                *applied,
                index,
            ) implies one[one.len() - 1 - index] == other[one.len() - 1 - index] by {
                assert(free_in(shapes, term, index));
            }
            assert forall|index: nat| index < one.len() && #[trigger] free_in(
                shapes,
                *argument,
                index,
            ) implies one[one.len() - 1 - index] == other[one.len() - 1 - index] by {
                assert(free_in(shapes, term, index));
            }
            law_only_free_variables_count(
                shapes,
                declarations,
                t,
                at,
                *applied,
                one,
                other,
                fixpoints,
                function,
                block,
            );
            law_code_keeps_to_itself(
                declarations,
                t,
                at,
                *applied,
                one,
                fixpoints,
                function,
                block,
            );
            let closure = term_at(
                declarations,
                t,
                at,
                *applied,
                one,
                fixpoints,
                function,
                block,
            )->0;
            let from = closure.end + closure_calls(closure.value) + 4;
            law_only_free_variables_count(
                shapes,
                declarations,
                t,
                from,
                *argument,
                one,
                other,
                fixpoints,
                function,
                closure.block,
            );
        },
        Term::Match { inductive_name, scrutinee, branches, .. } => {
            let inductive = declarations[find_inductive(
                declarations,
                inductive_name@,
            )->0]->Inductive_1;
            assert forall|index: nat| index < one.len() && #[trigger] free_in(
                shapes,
                *scrutinee,
                index,
            ) implies one[one.len() - 1 - index] == other[one.len() - 1 - index] by {
                assert(free_in(shapes, term, index));
            }
            law_only_free_variables_count(
                shapes,
                declarations,
                t,
                at,
                *scrutinee,
                one,
                other,
                fixpoints,
                function,
                block,
            );
            law_code_keeps_to_itself(
                declarations,
                t,
                at,
                *scrutinee,
                one,
                fixpoints,
                function,
                block,
            );
            let matched = term_at(
                declarations,
                t,
                at,
                *scrutinee,
                one,
                fixpoints,
                function,
                block,
            )->0;
            let fields = field_counts(t, inductive.constructors);
            assert(inductive_fields(shapes, inductive_name@) == Some(fields)) by {
                assert(t.take(t.len() as int) =~= t);
                lemma_inductive_shape(t, declarations, inductive_name@);
                assert(inductive_fields(
                    shapes_of(t.take(t.len() as int), declarations),
                    inductive_name@,
                ) == inductive_fields(shapes, inductive_name@));
            }
            assert forall|index: nat| index < one.len() && #[trigger] free_in_branches(
                shapes,
                fields,
                branches@,
                index,
                branches@.len(),
            ) implies one[one.len() - 1 - index] == other[one.len() - 1 - index] by {
                assert(free_in(shapes, term, index));
            }
            lemma_cases_only_free(
                shapes,
                declarations,
                t,
                matched.end + 5,
                inductive.constructors,
                branches@,
                branches@.len(),
                one,
                other,
                fixpoints,
                function,
                matched.value,
                pointer_at(t, matched.end + 3),
                block_at(t, matched.end + 4),
            );
        },
        Term::Fixpoint { name, body, .. } => {
            assert forall|index: nat| index < one.len() && #[trigger] free_in(
                shapes,
                *body,
                index,
            ) implies one[one.len() - 1 - index] == other[one.len() - 1 - index] by {
                assert(free_in(shapes, term, index));
            }
            match *body {
                Term::Lambda { body: inner, .. } => {
                    assert forall|index: nat| index < one.len() && #[trigger] free_in(
                        shapes,
                        *inner,
                        index + 1,
                    ) implies one[one.len() - 1 - index] == other[one.len() - 1 - index] by {
                        assert(free_in(shapes, *body, index));
                    }
                    lemma_lambda_only_free(
                        shapes,
                        declarations,
                        t,
                        at,
                        *inner,
                        Some(name@),
                        one,
                        other,
                        fixpoints,
                        block,
                    );
                },
                _ => {
                    law_only_free_variables_count(
                        shapes,
                        declarations,
                        t,
                        at,
                        *body,
                        one,
                        other,
                        fixpoints,
                        function,
                        block,
                    );
                },
            }
        },
        _ => {},
    }
}

proof fn lemma_lambda_only_free<'ctx>(
    shapes: Seq<Shape>,
    declarations: Seq<Entry<'ctx>>,
    t: Trace<'ctx>,
    at: int,
    body: Term,
    own: Option<Seq<char>>,
    one: Seq<PointerValue<'ctx>>,
    other: Seq<PointerValue<'ctx>>,
    fixpoints: Seq<Recursion<'ctx>>,
    block: BasicBlock<'ctx>,
)
    requires
        0 <= at <= t.len(),
        is_steady(shapes, declarations, t, at),
        one.len() == other.len(),
        forall|index: nat|
            index < one.len() && #[trigger] free_in(shapes, body, index + 1) ==> one[one.len() - 1
                - index] == other[one.len() - 1 - index],
        lambda_at(declarations, t, at, body, own, one, fixpoints, block) is Some,
    ensures
        lambda_at(declarations, t, at, body, own, other, fixpoints, block) == lambda_at(
            declarations,
            t,
            at,
            body,
            own,
            one,
            fixpoints,
            block,
        ),
    decreases body, 1nat,
{
    let here = shapes_of(t.take(at), declarations);
    let indexes = captured(here, body, 0);
    let n = indexes.len() as int;
    let opened = at + 1 + 3 * n;
    let lambda = function_at(t, opened);
    let from = opened + 3 + 5 * n;
    law_captured_are_the_free_variables(here, body, 0);
    assert forall|i: int| 0 <= i < n implies #[trigger] captured_values(one, indexes)[i]
        == captured_values(other, indexes)[i] by {
        let index = indexes[i];
        assert(index < one.len());
        assert(indexes.contains(index));
        assert(free_in(here, body, (0 + 1 + index) as nat));
        lemma_free_in_same(here, shapes, body, (index + 1) as nat);
        let free = index as nat;
        assert(free_in(shapes, body, free + 1));
    }
    assert(captured_values(one, indexes) =~= captured_values(other, indexes));
    lemma_copied_agree(t, opened + 3, one, other, indexes, indexes.len());
    let inner_one = scope_with_captures(t, opened + 3, one, indexes, indexes.len()).push(
        parameter_of(lambda, 0),
    );
    let inner_other = scope_with_captures(t, opened + 3, other, indexes, indexes.len()).push(
        parameter_of(lambda, 0),
    );
    assert forall|index: nat| index < inner_one.len() && #[trigger] free_in(
        shapes,
        body,
        index,
    ) implies inner_one[inner_one.len() - 1 - index] == inner_other[inner_one.len() - 1
        - index] by {
        if index > 0 {
            let outer = (index - 1) as nat;
            assert(free_in(shapes, body, outer + 1));
            let p = one.len() - 1 - outer;
            assert(one[p] == other[p]);
            assert(scope_with_captures(t, opened + 3, one, indexes, indexes.len())[p]
                == scope_with_captures(t, opened + 3, other, indexes, indexes.len())[p]);
        }
    }
    lemma_lambda_opened(t, opened, pointer_at(t, at), n, generic_pointer(), "lambda"@);
    law_only_free_variables_count(
        shapes,
        declarations,
        t,
        from,
        body,
        inner_one,
        inner_other,
        with_fixpoint(fixpoints, own, n == 0, lambda),
        lambda,
        block_at(t, opened + 1),
    );
}

proof fn lemma_case_only_free<'ctx>(
    shapes: Seq<Shape>,
    declarations: Seq<Entry<'ctx>>,
    t: Trace<'ctx>,
    at: int,
    constructor: Member<'ctx>,
    i: int,
    branch: Term,
    one: Seq<PointerValue<'ctx>>,
    other: Seq<PointerValue<'ctx>>,
    fixpoints: Seq<Recursion<'ctx>>,
    function: FunctionValue<'ctx>,
    scrutinee: PointerValue<'ctx>,
    result: PointerValue<'ctx>,
    after: BasicBlock<'ctx>,
)
    requires
        0 <= at <= t.len(),
        is_steady(shapes, declarations, t, at),
        one.len() == other.len(),
        forall|index: nat|
            index < one.len() && #[trigger] free_in(
                shapes,
                branch,
                index + bound_by_branch(fields_of(t, constructor.llvm_struct_type).len()),
            ) ==> one[one.len() - 1 - index] == other[one.len() - 1 - index],
        case_at(
            declarations,
            t,
            at,
            constructor,
            i,
            branch,
            one,
            fixpoints,
            function,
            scrutinee,
            result,
            after,
        ) is Some,
    ensures
        case_at(
            declarations,
            t,
            at,
            constructor,
            i,
            branch,
            other,
            fixpoints,
            function,
            scrutinee,
            result,
            after,
        ) == case_at(
            declarations,
            t,
            at,
            constructor,
            i,
            branch,
            one,
            fixpoints,
            function,
            scrutinee,
            result,
            after,
        ),
    decreases branch, 1nat,
{
    let fields = bound_by_branch(fields_of(t, constructor.llvm_struct_type).len());
    let loaded = loaded_fields(t, at + 3, fields);
    let from = at + 3 + 2 * fields;
    let inner_one = one + loaded;
    let inner_other = other + loaded;
    assert forall|index: nat| index < inner_one.len() && #[trigger] free_in(
        shapes,
        branch,
        index,
    ) implies inner_one[inner_one.len() - 1 - index] == inner_other[inner_one.len() - 1
        - index] by {
        if index >= fields {
            let outer = (index - fields) as nat;
            assert(free_in(shapes, branch, outer + fields));
        }
    }
    lemma_fields_loaded_flow(t, at + 3, pointer_at(t, at + 2), fields as int);
    law_only_free_variables_count(
        shapes,
        declarations,
        t,
        from,
        branch,
        inner_one,
        inner_other,
        fixpoints,
        function,
        block_at(t, at),
    );
}

proof fn lemma_cases_only_free<'ctx>(
    shapes: Seq<Shape>,
    declarations: Seq<Entry<'ctx>>,
    t: Trace<'ctx>,
    at: int,
    constructors: Seq<Member<'ctx>>,
    branches: Seq<Term>,
    n: nat,
    one: Seq<PointerValue<'ctx>>,
    other: Seq<PointerValue<'ctx>>,
    fixpoints: Seq<Recursion<'ctx>>,
    function: FunctionValue<'ctx>,
    scrutinee: PointerValue<'ctx>,
    result: PointerValue<'ctx>,
    after: BasicBlock<'ctx>,
)
    requires
        0 <= at <= t.len(),
        is_steady(shapes, declarations, t, at),
        one.len() == other.len(),
        n <= branches.len() == constructors.len(),
        forall|index: nat|
            index < one.len() && #[trigger] free_in_branches(
                shapes,
                field_counts(t, constructors),
                branches,
                index,
                branches.len(),
            ) ==> one[one.len() - 1 - index] == other[one.len() - 1 - index],
        cases_at(
            declarations,
            t,
            at,
            constructors,
            branches,
            n,
            one,
            fixpoints,
            function,
            scrutinee,
            result,
            after,
        ) is Some,
    ensures
        cases_at(
            declarations,
            t,
            at,
            constructors,
            branches,
            n,
            other,
            fixpoints,
            function,
            scrutinee,
            result,
            after,
        ) == cases_at(
            declarations,
            t,
            at,
            constructors,
            branches,
            n,
            one,
            fixpoints,
            function,
            scrutinee,
            result,
            after,
        ),
    decreases branches, n,
{
    if n > 0 {
        let i = n - 1;
        lemma_cases_only_free(
            shapes,
            declarations,
            t,
            at,
            constructors,
            branches,
            i as nat,
            one,
            other,
            fixpoints,
            function,
            scrutinee,
            result,
            after,
        );
        lemma_cases_flow(
            declarations,
            t,
            at,
            constructors,
            branches,
            i as nat,
            one,
            fixpoints,
            function,
            scrutinee,
            result,
            after,
        );
        let before = cases_at(
            declarations,
            t,
            at,
            constructors,
            branches,
            i as nat,
            one,
            fixpoints,
            function,
            scrutinee,
            result,
            after,
        )->0;
        let fields = field_counts(t, constructors);
        assert forall|index: nat| index < one.len() && #[trigger] free_in(
            shapes,
            branches[i],
            index + bound_by_branch(fields_of(t, constructors[i].llvm_struct_type).len()),
        ) implies one[one.len() - 1 - index] == other[one.len() - 1 - index] by {
            assert(fields[i] == fields_of(t, constructors[i].llvm_struct_type).len());
            lemma_free_in_branch(shapes, fields, branches, index, branches.len(), i);
        }
        lemma_case_only_free(
            shapes,
            declarations,
            t,
            before.end,
            constructors[i],
            i,
            branches[i],
            one,
            other,
            fixpoints,
            function,
            scrutinee,
            result,
            after,
        );
    }
}

/// A variable that is not free in a term may have any value: the code is the same.
pub proof fn law_unused_variable_does_not_matter<'ctx>(
    declarations: Seq<Entry<'ctx>>,
    t: Trace<'ctx>,
    at: int,
    term: Term,
    scope: Seq<PointerValue<'ctx>>,
    index: nat,
    value: PointerValue<'ctx>,
    fixpoints: Seq<Recursion<'ctx>>,
    function: FunctionValue<'ctx>,
    block: BasicBlock<'ctx>,
)
    requires
        0 <= at <= t.len(),
        constructors_laid_out(t.take(at), declarations),
        index < scope.len(),
        !free_in(shapes_of(t.take(at), declarations), term, index),
        term_at(declarations, t, at, term, scope, fixpoints, function, block) is Some,
    ensures
        term_at(
            declarations,
            t,
            at,
            term,
            scope.update(scope.len() - 1 - index, value),
            fixpoints,
            function,
            block,
        ) == term_at(declarations, t, at, term, scope, fixpoints, function, block),
{
    lemma_steady(declarations, t, at);
    law_only_free_variables_count(
        shapes_of(t.take(at), declarations),
        declarations,
        t,
        at,
        term,
        scope,
        scope.update(scope.len() - 1 - index, value),
        fixpoints,
        function,
        block,
    );
}

} // verus!
