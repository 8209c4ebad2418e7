//! What has code can be compiled, as far as the machine can count.
use inkwell::basic_block::BasicBlock;
use inkwell::values::{FunctionValue, PointerValue};
use vstd::prelude::*;

use crate::codegen::data::{bare, constructor_fields, inductive_at};
use crate::codegen::emission::{
    case_at, cases_at, closure_calls, lambda_at, loaded_fields, scope_with_captures, term_at,
    with_fixpoint,
};
use crate::codegen::environment::fixpoint::{bindings_of, lemma_bindings, Recursion};
use crate::codegen::environment::global::{
    declares_inductive, find_constant, find_inductive, lemma_find_inductive, Entry, Member,
};
use crate::codegen::globals::{
    field_counts, fields_of, lemma_constant_shape, lemma_inductive_shape, shapes_of,
};
use crate::codegen::inductives::lemma_leaf_types;
use crate::codegen::search::{lemma_first, lemma_first_same};
use crate::codegen::shape::{
    bound_by_branch, branches_compilable, can_capture, can_capture_branches, captured,
    captured_in_branches, compilable, constant_shape, constructors_shapes, inductive_fields,
    inductive_laid_out, inductive_shape, inductive_shapes, leaf_count, with_binding,
    with_constructor_shape, Binding, Shape,
};
use crate::hir::ir::{Constructor, Inductive, Term};
use crate::laws::constructors::lemma_constructor_types_known;
use crate::laws::determined::constructors_laid_out;
use crate::laws::flow::{
    law_code_keeps_to_itself, lemma_cases_flow, lemma_fields_loaded_flow, lemma_lambda_opened,
};
use crate::laws::lambdas::lemma_copied_len;
use crate::laws::variables::{is_steady, lemma_steady};
use crate::llvm::session::parameter_of;
use crate::llvm::trace::{block_at, function_at, generic_pointer, pointer_at, struct_at, Trace};

verus! {

/// How many variables a term mentions and binds, at most.
pub open spec fn size(shapes: Seq<Shape>, term: Term) -> nat
    decreases term, 0nat,
{
    match term {
        Term::Lambda { body, .. } => 1 + size(shapes, *body),
        Term::Application { function, argument } => size(shapes, *function) + size(
            shapes,
            *argument,
        ),
        Term::Fixpoint { body, .. } => size(shapes, *body),
        Term::Match { inductive_name, scrutinee, branches, .. } => size(shapes, *scrutinee) + (
        match inductive_fields(shapes, inductive_name@) {
            Some(fields) => branches_size(shapes, fields, branches@, branches@.len()),
            None => 0,
        }),
        _ => 1,
    }
}

/// The same of the first `n` branches of a match.
pub open spec fn branches_size(
    shapes: Seq<Shape>,
    fields: Seq<nat>,
    branches: Seq<Term>,
    n: nat,
) -> nat
    decreases branches, n,
{
    if n == 0 || n > branches.len() {
        0
    } else {
        branches_size(shapes, fields, branches, (n - 1) as nat) + if n <= fields.len() {
            bound_by_branch(fields[n - 1]) + size(shapes, branches[n - 1])
        } else {
            0nat
        }
    }
}

proof fn lemma_captured_size(shapes: Seq<Shape>, term: Term, bound: nat)
    ensures
        captured(shapes, term, bound).len() <= size(shapes, term),
    decreases term, 0nat,
{
    match term {
        Term::Lambda { body, .. } => {
            lemma_captured_size(shapes, *body, bound + 1);
        },
        Term::Application { function, argument } => {
            lemma_captured_size(shapes, *function, bound);
            lemma_captured_size(shapes, *argument, bound);
        },
        Term::Fixpoint { body, .. } => {
            lemma_captured_size(shapes, *body, bound);
        },
        Term::Match { inductive_name, scrutinee, branches, .. } => {
            lemma_captured_size(shapes, *scrutinee, bound);
            if let Some(fields) = inductive_fields(shapes, inductive_name@) {
                lemma_captured_branches_size(shapes, fields, branches@, bound, branches@.len());
            }
        },
        _ => {},
    }
}

proof fn lemma_captured_branches_size(
    shapes: Seq<Shape>,
    fields: Seq<nat>,
    branches: Seq<Term>,
    bound: nat,
    n: nat,
)
    ensures
        captured_in_branches(shapes, fields, branches, bound, n).len() <= branches_size(
            shapes,
            fields,
            branches,
            n,
        ),
    decreases branches, n,
{
    if 0 < n <= branches.len() {
        lemma_captured_branches_size(shapes, fields, branches, bound, (n - 1) as nat);
        if n <= fields.len() {
            lemma_captured_size(
                shapes,
                branches[n - 1],
                bound + bound_by_branch(fields[n - 1]),
            );
        }
    }
}

/// What can be compiled can be searched for captured variables.
proof fn lemma_can_capture(
    shapes: Seq<Shape>,
    bindings: Seq<Binding>,
    depth: nat,
    term: Term,
    bound: nat,
)
    requires
        compilable(shapes, bindings, depth, term),
        bound + size(shapes, term) <= usize::MAX,
    ensures
        can_capture(shapes, term, bound),
    decreases term, 0nat,
{
    match term {
        Term::Lambda { body, .. } => {
            lemma_can_capture(shapes, bindings, depth + 1, *body, bound + 1);
        },
        Term::Application { function, argument } => {
            lemma_can_capture(shapes, bindings, depth, *function, bound);
            lemma_can_capture(shapes, bindings, depth, *argument, bound);
        },
        Term::Fixpoint { name, body, .. } => {
            lemma_can_capture(
                shapes,
                with_binding(shapes, bindings, name@, *body),
                depth,
                *body,
                bound,
            );
        },
        Term::Match { inductive_name, scrutinee, branches, .. } => {
            lemma_can_capture(shapes, bindings, depth, *scrutinee, bound);
            let fields = inductive_fields(shapes, inductive_name@)->0;
            lemma_can_capture_branches(
                shapes,
                bindings,
                depth,
                fields,
                branches@,
                branches@.len(),
                bound,
            );
        },
        _ => {},
    }
}

proof fn lemma_can_capture_branches(
    shapes: Seq<Shape>,
    bindings: Seq<Binding>,
    depth: nat,
    fields: Seq<nat>,
    branches: Seq<Term>,
    n: nat,
    bound: nat,
)
    requires
        n <= branches.len() == fields.len(),
        branches_compilable(shapes, bindings, depth, fields, branches, n),
        bound + branches_size(shapes, fields, branches, n) <= usize::MAX,
    ensures
        can_capture_branches(shapes, fields, branches, bound, n),
    decreases branches, n,
{
    if n > 0 {
        lemma_can_capture_branches(
            shapes,
            bindings,
            depth,
            fields,
            branches,
            (n - 1) as nat,
            bound,
        );
        lemma_can_capture(
            shapes,
            bindings,
            depth + bound_by_branch(fields[n - 1]),
            branches[n - 1],
            bound + bound_by_branch(fields[n - 1]),
        );
    }
}

proof fn lemma_captured_same(one: Seq<Shape>, other: Seq<Shape>, term: Term, bound: nat)
    requires
        forall|name: Seq<char>| #[trigger]
            inductive_fields(one, name) == inductive_fields(other, name),
    ensures
        captured(one, term, bound) == captured(other, term, bound),
    decreases term, 0nat,
{
    match term {
        Term::Lambda { body, .. } => {
            lemma_captured_same(one, other, *body, bound + 1);
        },
        Term::Application { function, argument } => {
            lemma_captured_same(one, other, *function, bound);
            lemma_captured_same(one, other, *argument, bound);
        },
        Term::Fixpoint { body, .. } => {
            lemma_captured_same(one, other, *body, bound);
        },
        Term::Match { inductive_name, scrutinee, branches, .. } => {
            lemma_captured_same(one, other, *scrutinee, bound);
            assert(inductive_fields(one, inductive_name@) == inductive_fields(
                other,
                inductive_name@,
            ));
            if let Some(fields) = inductive_fields(one, inductive_name@) {
                lemma_captured_branches_same(
                    one,
                    other,
                    fields,
                    branches@,
                    bound,
                    branches@.len(),
                );
            }
        },
        _ => {},
    }
}

proof fn lemma_captured_branches_same(
    one: Seq<Shape>,
    other: Seq<Shape>,
    fields: Seq<nat>,
    branches: Seq<Term>,
    bound: nat,
    n: nat,
)
    requires
        forall|name: Seq<char>| #[trigger]
            inductive_fields(one, name) == inductive_fields(other, name),
    ensures
        captured_in_branches(one, fields, branches, bound, n) == captured_in_branches(
            other,
            fields,
            branches,
            bound,
            n,
        ),
    decreases branches, n,
{
    if 0 < n <= branches.len() {
        lemma_captured_branches_same(one, other, fields, branches, bound, (n - 1) as nat);
        if n <= fields.len() {
            lemma_captured_same(
                one,
                other,
                branches[n - 1],
                bound + bound_by_branch(fields[n - 1]),
            );
        }
    }
}

/// All that is declared is known, and values of the known types can be looked at.
pub open spec fn is_known<'ctx>(shapes: Seq<Shape>, declarations: Seq<Entry<'ctx>>) -> bool {
    &&& forall|name: Seq<char>| #[trigger]
        constant_shape(shapes, name) is Some <==> find_constant(declarations, name) is Some
    &&& forall|name: Seq<char>| #[trigger]
        inductive_fields(shapes, name) is Some ==> inductive_laid_out(shapes, name)
}

/// A term that has code, where these variables and these fixpoints are in scope,
/// can be compiled there, unless it is too large to count.
pub proof fn law_what_has_code_can_be_compiled<'ctx>(
    shapes: Seq<Shape>,
    declarations: Seq<Entry<'ctx>>,
    t: Trace<'ctx>,
    at: int,
    term: Term,
    scope: Seq<PointerValue<'ctx>>,
    fixpoints: Seq<Recursion<'ctx>>,
    function: FunctionValue<'ctx>,
    block: BasicBlock<'ctx>,
)
    requires
        0 <= at <= t.len(),
        is_steady(shapes, declarations, t, at),
        is_known(shapes, declarations),
        size(shapes, term) <= u32::MAX,
        term_at(declarations, t, at, term, scope, fixpoints, function, block) is Some,
    ensures
        compilable(shapes, bindings_of(fixpoints), scope.len(), term),
    decreases term, 0nat,
{
    match term {
        Term::Lambda { body, .. } => {
            lemma_lambda_can_be_compiled(
                shapes,
                declarations,
                t,
                at,
                *body,
                None,
                scope,
                fixpoints,
                block,
            );
        },
        Term::Application { function: applied, argument } => {
            law_what_has_code_can_be_compiled(
                shapes,
                declarations,
                t,
                at,
                *applied,
                scope,
                fixpoints,
                function,
                block,
            );
            law_code_keeps_to_itself(
                declarations,
                t,
                at,
                *applied,
                scope,
                fixpoints,
                function,
                block,
            );
            let closure = term_at(
                declarations,
                t,
                at,
                *applied,
                scope,
                fixpoints,
                function,
                block,
            )->0;
            law_what_has_code_can_be_compiled(
                shapes,
                declarations,
                t,
                closure.end + closure_calls(closure.value) + 4,
                *argument,
                scope,
                fixpoints,
                function,
                closure.block,
            );
        },
        Term::Constant(name) => {
            lemma_bindings(fixpoints, name@);
            assert(constant_shape(shapes, name@) is Some <==> find_constant(
                declarations,
                name@,
            ) is Some);
        },
        Term::Constructor(name, _) => {
            lemma_known_fields(shapes, declarations, t, at, name@);
        },
        Term::Match { inductive_name, scrutinee, branches, .. } => {
            lemma_known_fields(shapes, declarations, t, at, inductive_name@);
            let inductive = declarations[find_inductive(
                declarations,
                inductive_name@,
            )->0]->Inductive_1;
            law_what_has_code_can_be_compiled(
                shapes,
                declarations,
                t,
                at,
                *scrutinee,
                scope,
                fixpoints,
                function,
                block,
            );
            law_code_keeps_to_itself(
                declarations,
                t,
                at,
                *scrutinee,
                scope,
                fixpoints,
                function,
                block,
            );
            let matched = term_at(
                declarations,
                t,
                at,
                *scrutinee,
                scope,
                fixpoints,
                function,
                block,
            )->0;
            lemma_cases_can_be_compiled(
                shapes,
                declarations,
                t,
                matched.end + 5,
                inductive.constructors,
                branches@,
                branches@.len(),
                scope,
                fixpoints,
                function,
                matched.value,
                pointer_at(t, matched.end + 3),
                block_at(t, matched.end + 4),
            );
        },
        Term::Fixpoint { name, body, .. } => match *body {
            Term::Lambda { body: inner, .. } => {
                assert(size(shapes, *body) == 1 + size(shapes, *inner));
                lemma_lambda_can_be_compiled(
                    shapes,
                    declarations,
                    t,
                    at,
                    *inner,
                    Some(name@),
                    scope,
                    fixpoints,
                    block,
                );
                assert(compilable(
                    shapes,
                    with_binding(shapes, bindings_of(fixpoints), name@, *body),
                    scope.len(),
                    *body,
                ));
            },
            _ => {
                law_what_has_code_can_be_compiled(
                    shapes,
                    declarations,
                    t,
                    at,
                    *body,
                    scope,
                    fixpoints,
                    function,
                    block,
                );
            },
        },
        _ => {},
    }
}

proof fn lemma_known_fields<'ctx>(
    shapes: Seq<Shape>,
    declarations: Seq<Entry<'ctx>>,
    t: Trace<'ctx>,
    at: int,
    name: Seq<char>,
)
    requires
        0 <= at <= t.len(),
        is_steady(shapes, declarations, t, at),
        find_inductive(declarations, name) is Some,
    ensures
        inductive_fields(shapes, name) == Some(
            field_counts(
                t,
                declarations[find_inductive(declarations, name)->0]->Inductive_1.constructors,
            ),
        ),
{
    assert(t.take(t.len() as int) =~= t);
    lemma_inductive_shape(t, declarations, name);
    assert(inductive_fields(shapes_of(t.take(t.len() as int), declarations), name)
        == inductive_fields(shapes, name));
}

proof fn lemma_lambda_can_be_compiled<'ctx>(
    shapes: Seq<Shape>,
    declarations: Seq<Entry<'ctx>>,
    t: Trace<'ctx>,
    at: int,
    body: Term,
    own: Option<Seq<char>>,
    scope: Seq<PointerValue<'ctx>>,
    fixpoints: Seq<Recursion<'ctx>>,
    block: BasicBlock<'ctx>,
)
    requires
        0 <= at <= t.len(),
        is_steady(shapes, declarations, t, at),
        is_known(shapes, declarations),
        1 + size(shapes, body) <= u32::MAX,
        lambda_at(declarations, t, at, body, own, scope, fixpoints, block) is Some,
    ensures
        ({
            let indexes = captured(shapes, body, 0);
            let bindings = bindings_of(fixpoints);
            let inner = match own {
                Some(name) => bindings.push(Binding { name, closed: indexes.len() == 0 }),
                None => bindings,
            };
            &&& can_capture(shapes, body, 0)
            &&& indexes.len() <= u32::MAX
            &&& forall|i: int| 0 <= i < indexes.len() ==> #[trigger] indexes[i] < scope.len()
            &&& compilable(shapes, inner, scope.len() + 1, body)
        }),
    decreases body, 1nat,
{
    let here = shapes_of(t.take(at), declarations);
    lemma_captured_same(here, shapes, body, 0);
    let indexes = captured(here, body, 0);
    let n = indexes.len() as int;
    let opened = at + 1 + 3 * n;
    let lambda = function_at(t, opened);
    let copied = scope_with_captures(t, opened + 3, scope, indexes, indexes.len());
    let inner_fixpoints = with_fixpoint(fixpoints, own, n == 0, lambda);
    let bindings = bindings_of(fixpoints);
    let inner = match own {
        Some(name) => bindings.push(Binding { name, closed: indexes.len() == 0 }),
        None => bindings,
    };
    lemma_captured_size(shapes, body, 0);
    lemma_lambda_opened(t, opened, pointer_at(t, at), n, generic_pointer(), "lambda"@);
    lemma_copied_len(t, opened + 3, scope, indexes, indexes.len());
    assert(bindings_of(inner_fixpoints) =~= inner);
    law_what_has_code_can_be_compiled(
        shapes,
        declarations,
        t,
        opened + 3 + 5 * n,
        body,
        copied.push(parameter_of(lambda, 0)),
        inner_fixpoints,
        lambda,
        block_at(t, opened + 1),
    );
    lemma_can_capture(shapes, inner, scope.len() + 1, body, 0);
}

proof fn lemma_cases_can_be_compiled<'ctx>(
    shapes: Seq<Shape>,
    declarations: Seq<Entry<'ctx>>,
    t: Trace<'ctx>,
    at: int,
    constructors: Seq<Member<'ctx>>,
    branches: Seq<Term>,
    n: nat,
    scope: Seq<PointerValue<'ctx>>,
    fixpoints: Seq<Recursion<'ctx>>,
    function: FunctionValue<'ctx>,
    scrutinee: PointerValue<'ctx>,
    result: PointerValue<'ctx>,
    after: BasicBlock<'ctx>,
)
    requires
        0 <= at <= t.len(),
        is_steady(shapes, declarations, t, at),
        is_known(shapes, declarations),
        n <= branches.len() == constructors.len(),
        branches_size(shapes, field_counts(t, constructors), branches, n) <= u32::MAX,
        cases_at(
            declarations,
            t,
            at,
            constructors,
            branches,
            n,
            scope,
            fixpoints,
            function,
            scrutinee,
            result,
            after,
        ) is Some,
    ensures
        branches_compilable(
            shapes,
            bindings_of(fixpoints),
            scope.len(),
            field_counts(t, constructors),
            branches,
            n,
        ),
    decreases branches, n,
{
    if n > 0 {
        let i = n - 1;
        lemma_cases_can_be_compiled(
            shapes,
            declarations,
            t,
            at,
            constructors,
            branches,
            i as nat,
            scope,
            fixpoints,
            function,
            scrutinee,
            result,
            after,
        );
        lemma_cases_flow(
            declarations,
            t,
            at,
            constructors,
            branches,
            i as nat,
            scope,
            fixpoints,
            function,
            scrutinee,
            result,
            after,
        );
        let start = cases_at(
            declarations,
            t,
            at,
            constructors,
            branches,
            i as nat,
            scope,
            fixpoints,
            function,
            scrutinee,
            result,
            after,
        )->0.end;
        let count = bound_by_branch(fields_of(t, constructors[i].llvm_struct_type).len());
        assert(case_at(
            declarations,
            t,
            start,
            constructors[i],
            i,
            branches[i],
            scope,
            fixpoints,
            function,
            scrutinee,
            result,
            after,
        ) is Some);
        lemma_fields_loaded_flow(t, start + 3, pointer_at(t, start + 2), count as int);
        law_what_has_code_can_be_compiled(
            shapes,
            declarations,
            t,
            start + 3 + 2 * count,
            branches[i],
            scope + loaded_fields(t, start + 3, count),
            fixpoints,
            function,
            block_at(t, start),
        );
    }
}

/// A term that has code where nothing but the declarations is in scope can be
/// compiled there, unless it is too large to count, or looks at a value of a type
/// that has none.
pub proof fn law_term_that_has_code_can_be_compiled<'ctx>(
    declarations: Seq<Entry<'ctx>>,
    t: Trace<'ctx>,
    at: int,
    term: Term,
    function: FunctionValue<'ctx>,
    block: BasicBlock<'ctx>,
)
    requires
        0 <= at <= t.len(),
        constructors_laid_out(t.take(at), declarations),
        forall|name: Seq<char>| #[trigger]
            inductive_fields(shapes_of(t.take(at), declarations), name) is Some
                ==> inductive_laid_out(shapes_of(t.take(at), declarations), name),
        size(shapes_of(t.take(at), declarations), term) <= u32::MAX,
        term_at(
            declarations,
            t,
            at,
            term,
            Seq::empty(),
            Seq::empty(),
            function,
            block,
        ) is Some,
    ensures
        compilable(shapes_of(t.take(at), declarations), Seq::empty(), 0, term),
{
    let shapes = shapes_of(t.take(at), declarations);
    lemma_steady(declarations, t, at);
    assert forall|name: Seq<char>| #[trigger] constant_shape(shapes, name) is Some
        <==> find_constant(declarations, name) is Some by {
        lemma_constant_shape(t.take(at), declarations, name);
    }
    law_what_has_code_can_be_compiled(
        shapes,
        declarations,
        t,
        at,
        term,
        Seq::empty(),
        Seq::empty(),
        function,
        block,
    );
    assert(bindings_of(Seq::<Recursion<'ctx>>::empty()) =~= Seq::empty());
}

proof fn lemma_leaf_count_same(one: Seq<Shape>, other: Seq<Shape>, constructor_type: Term)
    requires
        forall|name: Seq<char>| #[trigger]
            inductive_shape(one, name) is Some == inductive_shape(other, name) is Some,
    ensures
        leaf_count(one, constructor_type) == leaf_count(other, constructor_type),
    decreases constructor_type,
{
    match constructor_type {
        Term::DependentProduct { parameter_type, return_type, .. } => {
            lemma_leaf_count_same(one, other, *parameter_type);
            lemma_leaf_count_same(one, other, *return_type);
        },
        Term::Inductive(name) => {
            assert(inductive_shape(one, name@) is Some == inductive_shape(other, name@) is Some);
        },
        _ => {},
    }
}

/// One more constructor changes nothing in which types are declared.
proof fn lemma_same_names(shapes: Seq<Shape>, name: Seq<char>, count: nat, other: Seq<char>)
    requires
        inductive_shape(shapes, name) is Some,
    ensures
        inductive_shape(with_constructor_shape(shapes, name, count), other) == inductive_shape(
            shapes,
            other,
        ),
{
    let after = with_constructor_shape(shapes, name, count);
    let own = |shape: Shape|
        shape matches Shape::Inductive { name: declared, .. } && declared == name;
    let wanted = |shape: Shape|
        shape matches Shape::Inductive { name: declared, .. } && declared == other;
    lemma_first(shapes, own);
    let i = inductive_shape(shapes, name)->0;
    assert(own(shapes[i]));
    assert forall|j: int| 0 <= j < after.len() implies wanted(#[trigger] after[j]) == wanted(
        shapes[j],
    ) by {}
    lemma_first_same(after, wanted, shapes, wanted);
}

proof fn lemma_constructors_can_be_compiled(
    shapes: Seq<Shape>,
    name: Seq<char>,
    constructors: Seq<Constructor>,
    n: nat,
)
    requires
        inductive_shape(shapes, name) is Some,
        n <= constructors.len(),
        forall|i: int|
            0 <= i < n ==> (leaf_count(shapes, (#[trigger] constructors[i]).typ) matches Some(count)
                && count <= u32::MAX),
    ensures
        constructors_shapes(shapes, name, constructors, n) matches Some(after) && forall|
            other: Seq<char>,
        | #[trigger]
            inductive_shape(after, other) is Some == inductive_shape(shapes, other) is Some,
    decreases n,
{
    if n > 0 {
        lemma_constructors_can_be_compiled(shapes, name, constructors, (n - 1) as nat);
        let before = constructors_shapes(shapes, name, constructors, (n - 1) as nat)->0;
        assert(inductive_shape(before, name) is Some);
        let typ = constructors[n - 1].typ;
        lemma_leaf_count_same(before, shapes, typ);
        let count = leaf_count(before, typ)->0;
        assert forall|other: Seq<char>| #[trigger]
            inductive_shape(with_constructor_shape(before, name, count), other) is Some
                == inductive_shape(shapes, other) is Some by {
            lemma_same_names(before, name, count, other);
        }
    }
}

/// An inductive type that has code can be compiled, unless a constructor takes more
/// arguments than LLVM can count.
pub proof fn law_type_that_has_code_can_be_compiled<'ctx>(
    declarations: Seq<Entry<'ctx>>,
    t: Trace<'ctx>,
    at: int,
    inductive: Inductive,
)
    requires
        inductive_at(declarations, t, at, inductive) is Some,
        forall|i: int|
            0 <= i < inductive.constructors@.len() ==> constructor_fields(
                declarations.push(bare(inductive.name@, struct_at(t, at))),
                (#[trigger] inductive.constructors@[i]).typ,
            ).len() <= u32::MAX,
    ensures
        inductive_shapes(shapes_of(t.take(at), declarations), inductive) is Some,
{
    let name = inductive.name@;
    let constructors = inductive.constructors@;
    let shapes = shapes_of(t.take(at), declarations);
    let pushed = declarations.push(bare(name, struct_at(t, at)));
    let pushed_shapes = shapes.push(
        Shape::Inductive { name, fields: Seq::empty(), laid_out: false },
    );
    lemma_find_inductive(pushed, name);
    assert(declares_inductive(pushed[declarations.len() as int], name));
    let own = |shape: Shape|
        shape matches Shape::Inductive { name: declared, .. } && declared == name;
    lemma_first(pushed_shapes, own);
    assert(own(pushed_shapes[shapes.len() as int]));
    assert(inductive_shape(pushed_shapes, name) is Some);
    assert forall|i: int| 0 <= i < constructors.len() implies (leaf_count(
        pushed_shapes,
        (#[trigger] constructors[i]).typ,
    ) matches Some(count) && count <= u32::MAX) by {
        let typ = constructors[i].typ;
        lemma_constructor_types_known(
            pushed,
            t,
            at + 1,
            name,
            constructors,
            constructors.len(),
            i,
        );
        lemma_leaf_types(t.take(at), pushed, typ);
        let known = shapes_of(t.take(at), pushed);
        assert forall|other: Seq<char>| #[trigger]
            inductive_shape(known, other) is Some == inductive_shape(
                pushed_shapes,
                other,
            ) is Some by {
            let wanted = |shape: Shape|
                shape matches Shape::Inductive { name: declared, .. } && declared == other;
            assert forall|j: int| 0 <= j < known.len() implies wanted(#[trigger] known[j])
                == wanted(pushed_shapes[j]) by {
                if j < shapes.len() {
                    assert(known[j] == shapes[j]);
                }
            }
            lemma_first_same(known, wanted, pushed_shapes, wanted);
        }
        lemma_leaf_count_same(known, pushed_shapes, typ);
    }
    lemma_constructors_can_be_compiled(pushed_shapes, name, constructors, constructors.len());
}

} // verus!
