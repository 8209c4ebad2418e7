//! The code of a program does not depend on handles: a run in which LLVM gives out
//! other handles makes the same calls on these.
use inkwell::basic_block::BasicBlock;
use inkwell::types::StructType;
use inkwell::values::{FunctionValue, PointerValue};
use vstd::prelude::*;

use crate::codegen::data::{
    bare, capture_stored_at, constructor_at, constructor_fields, constructor_filled_at,
    constructor_function_at, constructor_name, constructor_type_at, constructors_at, inductive_at,
    largest, parameter_stored_at,
};
use crate::codegen::emission::{
    application_at, capture_loaded_at, capture_written_at, captured_values, captures_loaded_at,
    captures_type, case_at, case_closed_at, case_opened_at, cases_at, closure_at, closure_calls,
    closure_opened_at, closure_seen, closure_seen_at, curried_function_at, curried_signature,
    empty_closure_at, exit_with_failure_at, field_loaded_at, fields_loaded_at, lambda_at,
    lambda_closed_at, loaded_fields, main_at, main_block, main_calls, main_function,
    match_closed_at, match_opened_at, scope_with_captures, term_at, with_fixpoint, Cases,
};
use crate::codegen::environment::fixpoint::{find_fixpoint, Recursion};
use crate::codegen::environment::global::{
    find_constructors, find_inductive, lemma_find_constant, lemma_find_inductive, with_constructor,
    Entry, Member,
};
use crate::codegen::globals::{field_counts, fields_of, is_closure, shapes_of};
use crate::codegen::program::{declarations_at, program_at, with_constant};
use crate::codegen::shape::{bound_by_branch, captured};
use crate::hir::ir::{Constructor, DeBruijnIndex, Declaration, HIR, Inductive, Term};
use crate::laws::law_largest;
use crate::laws::determined::{
    constructors_laid_out, laid_out, law_declarations_code_is_determined,
    law_inductive_code_is_determined, law_program_code_is_determined, law_term_code_is_determined,
    lemma_laid_out_later, same_answers, same_calls,
};
use crate::laws::renaming::{
    group_renaming, lemma_body_renamed, lemma_constructor_fields_renamed,
    lemma_field_counts_renamed, lemma_find_fixpoint_renamed, lemma_find_renamed,
    lemma_last_block_renamed, lemma_leaf_types_renamed, lemma_parent_renamed, lemma_shapes_renamed,
    Renaming,
};
use crate::llvm::session::{address_of, parameter_of, struct_type, type_of};
use crate::llvm::trace::{
    block_at, extends, function_at, generic_pointer, int_at, last_block, lemma_last_block_extends,
    lemma_last_block_parent, made, parent, pointer_at, struct_at, Answer, Call, Operand, Request,
    Trace, Ty,
};

verus! {

broadcast use group_renaming;

proof fn lemma_curried_function_renamed<'ctx>(
    r: Renaming<'ctx>,
    t: Trace<'ctx>,
    at: int,
    result: Ty<'ctx>,
    name: Seq<char>,
)
    requires
        r.is_faithful(),
        curried_function_at(t, at, result, name),
    ensures
        curried_function_at(r.trace(t), at, r.ty(result), name),
        function_at(r.trace(t), at) == (r.function)(function_at(t, at)),
        block_at(r.trace(t), at + 1) == (r.block)(block_at(t, at + 1)),
{
    let parameters = seq![generic_pointer::<'ctx>(), generic_pointer()];
    assert(r.types(parameters) =~= parameters);
    assert(r.ty(curried_signature(result)) == curried_signature(r.ty(result)));
}

proof fn lemma_closure_at_renamed<'ctx>(
    r: Renaming<'ctx>,
    t: Trace<'ctx>,
    at: int,
    function: PointerValue<'ctx>,
    captures: PointerValue<'ctx>,
)
    requires
        r.is_faithful(),
        closure_at(t, at, function, captures),
    ensures
        closure_at(r.trace(t), at, (r.pointer)(function), (r.pointer)(captures)),
        pointer_at(r.trace(t), at) == (r.pointer)(pointer_at(t, at)),
{
    let fields = seq![type_of(function), type_of(captures)];
    assert(r.types(fields) =~= seq![
        type_of((r.pointer)(function)),
        type_of((r.pointer)(captures)),
    ]);
    assert(r.ty(Ty::Struct(fields)) == Ty::Struct(r.types(fields)));
}

proof fn lemma_empty_closure_renamed<'ctx>(
    r: Renaming<'ctx>,
    t: Trace<'ctx>,
    at: int,
    function: PointerValue<'ctx>,
    name: Seq<char>,
)
    requires
        r.is_faithful(),
        empty_closure_at(t, at, function, name),
    ensures
        empty_closure_at(r.trace(t), at, (r.pointer)(function), name),
        pointer_at(r.trace(t), at + 1) == (r.pointer)(pointer_at(t, at + 1)),
{
    lemma_closure_at_renamed(r, t, at + 1, function, pointer_at(t, at));
}

proof fn lemma_exit_renamed<'ctx>(r: Renaming<'ctx>, t: Trace<'ctx>, at: int)
    requires
        r.is_faithful(),
        exit_with_failure_at(t, at),
    ensures
        exit_with_failure_at(r.trace(t), at),
{
    assert(r.types(seq![Ty::<'ctx>::I32]) =~= seq![Ty::<'ctx>::I32]);
    let one: Operand<'ctx> = Operand::Int { bits: 32, value: 1 };
    assert(r.operands(seq![one]) =~= seq![one]);
}

proof fn lemma_capture_written_renamed<'ctx>(
    r: Renaming<'ctx>,
    t: Trace<'ctx>,
    at: int,
    captures: PointerValue<'ctx>,
    value: PointerValue<'ctx>,
    i: int,
)
    requires
        r.is_faithful(),
        capture_written_at(t, at, captures, value, i),
    ensures
        capture_written_at(r.trace(t), at, (r.pointer)(captures), (r.pointer)(value), i),
{
}

proof fn lemma_capture_loaded_renamed<'ctx>(
    r: Renaming<'ctx>,
    t: Trace<'ctx>,
    at: int,
    function: FunctionValue<'ctx>,
    captures: PointerValue<'ctx>,
    i: int,
)
    requires
        r.is_faithful(),
        capture_loaded_at(t, at, function, captures, i),
    ensures
        capture_loaded_at(r.trace(t), at, (r.function)(function), (r.pointer)(captures), i),
        pointer_at(r.trace(t), at + 3) == (r.pointer)(pointer_at(t, at + 3)),
{
}

/// Captured values are in scope under their new names.
proof fn lemma_scope_with_captures_renamed<'ctx>(
    r: Renaming<'ctx>,
    t: Trace<'ctx>,
    at: int,
    function: FunctionValue<'ctx>,
    captures: PointerValue<'ctx>,
    scope: Seq<PointerValue<'ctx>>,
    indexes: Seq<DeBruijnIndex>,
    n: nat,
)
    requires
        r.is_faithful(),
        n <= indexes.len(),
        forall|i: int| 0 <= i < indexes.len() ==> #[trigger] indexes[i] < scope.len(),
        captures_loaded_at(t, at, function, captures, n as int),
    ensures
        scope_with_captures(t, at, scope, indexes, n).len() == scope.len(),
        scope_with_captures(r.trace(t), at, r.scope(scope), indexes, n) == r.scope(
            scope_with_captures(t, at, scope, indexes, n),
        ),
    decreases n,
{
    if n > 0 {
        let before = (n - 1) as nat;
        lemma_scope_with_captures_renamed(
            r,
            t,
            at,
            function,
            captures,
            scope,
            indexes,
            before,
        );
        assert(capture_loaded_at(t, at + 5 * (n - 1), function, captures, n - 1));
        lemma_capture_loaded_renamed(r, t, at + 5 * (n - 1), function, captures, n - 1);
        assert(indexes[n - 1] < scope.len());
        assert(scope_with_captures(r.trace(t), at, r.scope(scope), indexes, n) =~= r.scope(
            scope_with_captures(t, at, scope, indexes, n),
        ));
    }
}

proof fn lemma_closure_seen_renamed<'ctx>(
    r: Renaming<'ctx>,
    t: Trace<'ctx>,
    at: int,
    value: PointerValue<'ctx>,
)
    requires
        r.is_faithful(),
        closure_seen_at(t, at, value),
    ensures
        closure_seen_at(r.trace(t), at, (r.pointer)(value)),
        closure_calls((r.pointer)(value)) == closure_calls(value),
        closure_seen(r.trace(t), at, (r.pointer)(value)) == (r.pointer)(
            closure_seen(t, at, value),
        ),
{
    assert(is_closure((r.pointer)(value)) == is_closure(value));
    assert(r.ty(Ty::Pointer(Box::new(captures_type(2)))) == Ty::<'ctx>::Pointer(
        Box::new(captures_type(2)),
    ));
}

proof fn lemma_closure_opened_renamed<'ctx>(
    r: Renaming<'ctx>,
    t: Trace<'ctx>,
    at: int,
    closure: PointerValue<'ctx>,
)
    requires
        r.is_faithful(),
        closure_opened_at(t, at, closure),
    ensures
        closure_opened_at(r.trace(t), at, (r.pointer)(closure)),
        pointer_at(r.trace(t), at + 1) == (r.pointer)(pointer_at(t, at + 1)),
        pointer_at(r.trace(t), at + 3) == (r.pointer)(pointer_at(t, at + 3)),
{
}

proof fn lemma_application_renamed<'ctx>(
    r: Renaming<'ctx>,
    t: Trace<'ctx>,
    at: int,
    function: PointerValue<'ctx>,
    captures: PointerValue<'ctx>,
    argument: PointerValue<'ctx>,
)
    requires
        r.is_faithful(),
        application_at(t, at, function, captures, argument),
    ensures
        application_at(
            r.trace(t),
            at,
            (r.pointer)(function),
            (r.pointer)(captures),
            (r.pointer)(argument),
        ),
        pointer_at(r.trace(t), at + 1) == (r.pointer)(pointer_at(t, at + 1)),
{
    let parameters = seq![type_of(argument), type_of(captures)];
    assert(r.types(parameters) =~= seq![
        type_of((r.pointer)(argument)),
        type_of((r.pointer)(captures)),
    ]);
    assert(r.ty(Ty::Function(Box::new(generic_pointer()), parameters)) == Ty::Function(
        Box::new(generic_pointer()),
        r.types(parameters),
    ));
    let arguments = seq![Operand::Pointer(argument), Operand::Pointer(captures)];
    assert(r.operands(arguments) =~= seq![
        Operand::Pointer((r.pointer)(argument)),
        Operand::Pointer((r.pointer)(captures)),
    ]);
}

proof fn lemma_fields_loaded_renamed<'ctx>(
    r: Renaming<'ctx>,
    t: Trace<'ctx>,
    at: int,
    pointer: PointerValue<'ctx>,
    n: nat,
)
    requires
        r.is_faithful(),
        fields_loaded_at(t, at, pointer, n as int),
    ensures
        fields_loaded_at(r.trace(t), at, (r.pointer)(pointer), n as int),
        loaded_fields(r.trace(t), at, n) == r.scope(loaded_fields(t, at, n)),
{
    let u = r.trace(t);
    assert forall|i: int| 0 <= i < n implies #[trigger] field_loaded_at(
        u,
        at + 2 * i,
        (r.pointer)(pointer),
        i + 1,
    ) && pointer_at(u, at + 2 * i + 1) == (r.pointer)(pointer_at(t, at + 2 * i + 1)) by {
        assert(field_loaded_at(t, at + 2 * i, pointer, i + 1));
    }
    assert forall|i: int| 0 <= i < n implies #[trigger] loaded_fields(u, at, n)[i] == r.scope(
        loaded_fields(t, at, n),
    )[i] by {
        assert(field_loaded_at(u, at + 2 * i, (r.pointer)(pointer), i + 1));
    }
    assert(loaded_fields(u, at, n) =~= r.scope(loaded_fields(t, at, n)));
}

proof fn lemma_match_opened_renamed<'ctx>(
    r: Renaming<'ctx>,
    t: Trace<'ctx>,
    at: int,
    function: FunctionValue<'ctx>,
    scrutinee: PointerValue<'ctx>,
    ty: Ty<'ctx>,
)
    requires
        r.is_faithful(),
        match_opened_at(t, at, function, scrutinee, ty),
    ensures
        match_opened_at(
            r.trace(t),
            at,
            (r.function)(function),
            (r.pointer)(scrutinee),
            r.ty(ty),
        ),
        int_at(r.trace(t), at + 2) == (r.integer)(int_at(t, at + 2)),
        pointer_at(r.trace(t), at + 3) == (r.pointer)(pointer_at(t, at + 3)),
        block_at(r.trace(t), at + 4) == (r.block)(block_at(t, at + 4)),
{
}

proof fn lemma_match_closed_renamed<'ctx>(
    r: Renaming<'ctx>,
    t: Trace<'ctx>,
    at: int,
    function: FunctionValue<'ctx>,
    before: BasicBlock<'ctx>,
    tag: int,
    cases: Seq<(Operand<'ctx>, BasicBlock<'ctx>)>,
    after: BasicBlock<'ctx>,
)
    requires
        r.is_faithful(),
        match_closed_at(t, at, function, before, tag, cases, after),
        int_at(r.trace(t), tag) == (r.integer)(int_at(t, tag)),
    ensures
        match_closed_at(
            r.trace(t),
            at,
            (r.function)(function),
            (r.block)(before),
            tag,
            r.cases(cases),
            (r.block)(after),
        ),
{
    lemma_exit_renamed(r, t, at + 2);
}

proof fn lemma_case_opened_renamed<'ctx>(
    r: Renaming<'ctx>,
    t: Trace<'ctx>,
    at: int,
    function: FunctionValue<'ctx>,
    scrutinee: PointerValue<'ctx>,
    structure: StructType<'ctx>,
    i: int,
)
    requires
        r.is_faithful(),
        case_opened_at(t, at, function, scrutinee, structure, i),
    ensures
        case_opened_at(
            r.trace(t),
            at,
            (r.function)(function),
            (r.pointer)(scrutinee),
            (r.structure)(structure),
            i,
        ),
        block_at(r.trace(t), at) == (r.block)(block_at(t, at)),
        pointer_at(r.trace(t), at + 2) == (r.pointer)(pointer_at(t, at + 2)),
{
}

proof fn lemma_case_closed_renamed<'ctx>(
    r: Renaming<'ctx>,
    t: Trace<'ctx>,
    at: int,
    value: PointerValue<'ctx>,
    result: PointerValue<'ctx>,
    after: BasicBlock<'ctx>,
)
    requires
        r.is_faithful(),
        case_closed_at(t, at, value, result, after),
    ensures
        case_closed_at(
            r.trace(t),
            at,
            (r.pointer)(value),
            (r.pointer)(result),
            (r.block)(after),
        ),
{
}

proof fn lemma_lambda_closed_renamed<'ctx>(
    r: Renaming<'ctx>,
    t: Trace<'ctx>,
    at: int,
    value: PointerValue<'ctx>,
    before: BasicBlock<'ctx>,
)
    requires
        r.is_faithful(),
        lambda_closed_at(t, at, value, before),
    ensures
        lambda_closed_at(r.trace(t), at, (r.pointer)(value), (r.block)(before)),
{
}

/// The calls for a term are the same on other handles.
pub proof fn law_term_code_on_other_handles<'ctx>(
    r: Renaming<'ctx>,
    declarations: Seq<Entry<'ctx>>,
    t: Trace<'ctx>,
    at: int,
    term: Term,
    scope: Seq<PointerValue<'ctx>>,
    fixpoints: Seq<Recursion<'ctx>>,
    function: FunctionValue<'ctx>,
    block: BasicBlock<'ctx>,
)
    requires
        r.is_faithful(),
        term_at(declarations, t, at, term, scope, fixpoints, function, block) is Some,
    ensures
        term_at(
            r.entries(declarations),
            r.trace(t),
            at,
            term,
            r.scope(scope),
            r.fixpoints(fixpoints),
            (r.function)(function),
            (r.block)(block),
        ) == Some(
            r.emission(
                term_at(declarations, t, at, term, scope, fixpoints, function, block)->0,
            ),
        ),
    decreases term, 0nat,
{
    let u = r.trace(t);
    match term {
        Term::DeBruijnIndex(_) => {},
        Term::Lambda { body, .. } => {
            lemma_lambda_renamed(
                r,
                declarations,
                t,
                at,
                *body,
                None,
                scope,
                fixpoints,
                block,
            );
        },
        Term::Application { function: applied, argument } => {
            let closure = term_at(
                declarations,
                t,
                at,
                *applied,
                scope,
                fixpoints,
                function,
                block,
            )->0;
            let opened = closure.end + closure_calls(closure.value);
            let given = term_at(
                declarations,
                t,
                opened + 4,
                *argument,
                scope,
                fixpoints,
                function,
                closure.block,
            )->0;
            law_term_code_on_other_handles(
                r,
                declarations,
                t,
                at,
                *applied,
                scope,
                fixpoints,
                function,
                block,
            );
            law_term_code_on_other_handles(
                r,
                declarations,
                t,
                opened + 4,
                *argument,
                scope,
                fixpoints,
                function,
                closure.block,
            );
            lemma_closure_seen_renamed(r, t, closure.end, closure.value);
            lemma_closure_opened_renamed(
                r,
                t,
                opened,
                closure_seen(t, closure.end, closure.value),
            );
            lemma_application_renamed(
                r,
                t,
                given.end,
                pointer_at(t, opened + 1),
                pointer_at(t, opened + 3),
                given.value,
            );
        },
        Term::Constant(name) => {
            lemma_find_fixpoint_renamed(r, fixpoints, name@);
            match find_fixpoint(fixpoints, name@) {
                Some(fixpoint) => {
                    lemma_empty_closure_renamed(
                        r,
                        t,
                        at,
                        fixpoint.llvm_function,
                        "temp_fixpoint_empty_captures_struct"@,
                    );
                },
                None => {
                    lemma_find_renamed(r, declarations, name@);
                    lemma_find_constant(declarations, name@);
                },
            }
        },
        Term::Constructor(name, index) => {
            lemma_find_renamed(r, declarations, name@);
            let constructors = find_constructors(declarations, name@)->0;
            lemma_empty_closure_renamed(
                r,
                t,
                at,
                constructors[index as int].llvm_function,
                "temp_constructor_empty_captures_struct"@,
            );
        },
        Term::Match { inductive_name, scrutinee, branches, .. } => {
            lemma_find_renamed(r, declarations, inductive_name@);
            lemma_find_inductive(declarations, inductive_name@);
            let inductive = declarations[find_inductive(
                declarations,
                inductive_name@,
            )->0]->Inductive_1;
            let matched = term_at(
                declarations,
                t,
                at,
                *scrutinee,
                scope,
                fixpoints,
                function,
                block,
            )->0;
            let opened = matched.end;
            let result = pointer_at(t, opened + 3);
            let after = block_at(t, opened + 4);
            let cases = cases_at(
                declarations,
                t,
                opened + 5,
                inductive.constructors,
                branches@,
                branches@.len(),
                scope,
                fixpoints,
                function,
                matched.value,
                result,
                after,
            )->0;
            law_term_code_on_other_handles(
                r,
                declarations,
                t,
                at,
                *scrutinee,
                scope,
                fixpoints,
                function,
                block,
            );
            lemma_match_opened_renamed(
                r,
                t,
                opened,
                function,
                matched.value,
                inductive.llvm_type,
            );
            lemma_cases_renamed(
                r,
                declarations,
                t,
                opened + 5,
                inductive.constructors,
                branches@,
                branches@.len(),
                scope,
                fixpoints,
                function,
                matched.value,
                result,
                after,
            );
            lemma_match_closed_renamed(
                r,
                t,
                cases.end,
                function,
                matched.block,
                opened + 2,
                cases.cases,
                after,
            );
        },
        Term::Fixpoint { name, body, .. } => match *body {
            Term::Lambda { body: inner, .. } => {
                lemma_lambda_renamed(
                    r,
                    declarations,
                    t,
                    at,
                    *inner,
                    Some(name@),
                    scope,
                    fixpoints,
                    block,
                );
            },
            _ => {
                law_term_code_on_other_handles(
                    r,
                    declarations,
                    t,
                    at,
                    *body,
                    scope,
                    fixpoints,
                    function,
                    block,
                );
            },
        },
        Term::Sort(_) | Term::DependentProduct { .. } | Term::Inductive(_) => {},
    }
}

proof fn lemma_lambda_renamed<'ctx>(
    r: Renaming<'ctx>,
    declarations: Seq<Entry<'ctx>>,
    t: Trace<'ctx>,
    at: int,
    body: Term,
    own: Option<Seq<char>>,
    scope: Seq<PointerValue<'ctx>>,
    fixpoints: Seq<Recursion<'ctx>>,
    block: BasicBlock<'ctx>,
)
    requires
        r.is_faithful(),
        lambda_at(declarations, t, at, body, own, scope, fixpoints, block) is Some,
    ensures
        lambda_at(
            r.entries(declarations),
            r.trace(t),
            at,
            body,
            own,
            r.scope(scope),
            r.fixpoints(fixpoints),
            (r.block)(block),
        ) == Some(
            r.emission(lambda_at(declarations, t, at, body, own, scope, fixpoints, block)->0),
        ),
    decreases body, 1nat,
{
    let u = r.trace(t);
    let indexes = captured(shapes_of(t.take(at), declarations), body, 0);
    let n = indexes.len() as int;
    let captures = pointer_at(t, at);
    let opened = at + 1 + 3 * n;
    let lambda = function_at(t, opened);
    let inner_scope = scope_with_captures(t, opened + 3, scope, indexes, indexes.len());
    let values = captured_values(scope, indexes);
    assert(u.take(at) =~= r.trace(t.take(at)));
    lemma_shapes_renamed(r, t.take(at), declarations);
    assert(made(
        u,
        at,
        Request::Malloc { ty: captures_type(indexes.len()), name: "captures_struct_pointer"@ },
    ));
    assert(pointer_at(u, at) == (r.pointer)(captures));
    assert(captured_values(r.scope(scope), indexes) =~= r.scope(values)) by {
        assert forall|i: int| 0 <= i < n implies #[trigger] captured_values(
            r.scope(scope),
            indexes,
        )[i] == r.scope(values)[i] by {
            assert(indexes[i] < scope.len());
        }
    }
    assert forall|i: int| 0 <= i < n implies #[trigger] capture_written_at(
        u,
        at + 1 + 3 * i,
        (r.pointer)(captures),
        r.scope(values)[i],
        i,
    ) by {
        assert(capture_written_at(t, at + 1 + 3 * i, captures, values[i], i));
        lemma_capture_written_renamed(r, t, at + 1 + 3 * i, captures, values[i], i);
    }
    lemma_curried_function_renamed(r, t, opened, generic_pointer(), "lambda"@);
    assert forall|i: int| 0 <= i < n implies #[trigger] capture_loaded_at(
        u,
        opened + 3 + 5 * i,
        (r.function)(lambda),
        (r.pointer)(captures),
        i,
    ) by {
        assert(capture_loaded_at(t, opened + 3 + 5 * i, lambda, captures, i));
        lemma_capture_loaded_renamed(r, t, opened + 3 + 5 * i, lambda, captures, i);
    }
    lemma_scope_with_captures_renamed(
        r,
        t,
        opened + 3,
        lambda,
        captures,
        scope,
        indexes,
        indexes.len(),
    );
    let inner_fixpoints = with_fixpoint(fixpoints, own, n == 0, lambda);
    let parameter = parameter_of(lambda, 0);
    assert(r.scope(inner_scope.push(parameter)) =~= r.scope(inner_scope).push(
        (r.pointer)(parameter),
    ));
    assert(r.fixpoints(inner_fixpoints) =~= with_fixpoint(
        r.fixpoints(fixpoints),
        own,
        n == 0,
        (r.function)(lambda),
    ));
    law_term_code_on_other_handles(
        r,
        declarations,
        t,
        opened + 3 + 5 * n,
        body,
        inner_scope.push(parameter),
        inner_fixpoints,
        lambda,
        block_at(t, opened + 1),
    );
    let inner = term_at(
        declarations,
        t,
        opened + 3 + 5 * n,
        body,
        inner_scope.push(parameter),
        inner_fixpoints,
        lambda,
        block_at(t, opened + 1),
    )->0;
    lemma_lambda_closed_renamed(r, t, inner.end, inner.value, block);
    lemma_closure_at_renamed(r, t, inner.end + 3, address_of(lambda), captures);
}

proof fn lemma_case_renamed<'ctx>(
    r: Renaming<'ctx>,
    declarations: Seq<Entry<'ctx>>,
    t: Trace<'ctx>,
    at: int,
    constructor: Member<'ctx>,
    i: int,
    branch: Term,
    scope: Seq<PointerValue<'ctx>>,
    fixpoints: Seq<Recursion<'ctx>>,
    function: FunctionValue<'ctx>,
    scrutinee: PointerValue<'ctx>,
    result: PointerValue<'ctx>,
    after: BasicBlock<'ctx>,
)
    requires
        r.is_faithful(),
        case_at(
            declarations,
            t,
            at,
            constructor,
            i,
            branch,
            scope,
            fixpoints,
            function,
            scrutinee,
            result,
            after,
        ) is Some,
    ensures
        case_at(
            r.entries(declarations),
            r.trace(t),
            at,
            r.member(constructor),
            i,
            branch,
            r.scope(scope),
            r.fixpoints(fixpoints),
            (r.function)(function),
            (r.pointer)(scrutinee),
            (r.pointer)(result),
            (r.block)(after),
        ) == case_at(
            declarations,
            t,
            at,
            constructor,
            i,
            branch,
            scope,
            fixpoints,
            function,
            scrutinee,
            result,
            after,
        ),
        block_at(r.trace(t), at) == (r.block)(block_at(t, at)),
    decreases branch, 1nat,
{
    let structure = constructor.llvm_struct_type;
    let fields = bound_by_branch(fields_of(t, structure).len());
    let loaded = loaded_fields(t, at + 3, fields);
    lemma_body_renamed(r, t, structure);
    lemma_case_opened_renamed(r, t, at, function, scrutinee, structure, i);
    lemma_fields_loaded_renamed(r, t, at + 3, pointer_at(t, at + 2), fields);
    assert(r.scope(scope + loaded) =~= r.scope(scope) + r.scope(loaded));
    law_term_code_on_other_handles(
        r,
        declarations,
        t,
        at + 3 + 2 * fields,
        branch,
        scope + loaded,
        fixpoints,
        function,
        block_at(t, at),
    );
    let inner = term_at(
        declarations,
        t,
        at + 3 + 2 * fields,
        branch,
        scope + loaded,
        fixpoints,
        function,
        block_at(t, at),
    )->0;
    lemma_case_closed_renamed(r, t, inner.end, inner.value, result, after);
}

proof fn lemma_cases_renamed<'ctx>(
    r: Renaming<'ctx>,
    declarations: Seq<Entry<'ctx>>,
    t: Trace<'ctx>,
    at: int,
    constructors: Seq<Member<'ctx>>,
    branches: Seq<Term>,
    n: nat,
    scope: Seq<PointerValue<'ctx>>,
    fixpoints: Seq<Recursion<'ctx>>,
    function: FunctionValue<'ctx>,
    scrutinee: PointerValue<'ctx>,
    result: PointerValue<'ctx>,
    after: BasicBlock<'ctx>,
)
    requires
        r.is_faithful(),
        n <= branches.len() == constructors.len(),
        cases_at(
            declarations,
            t,
            at,
            constructors,
            branches,
            n,
            scope,
            fixpoints,
            function,
            scrutinee,
            result,
            after,
        ) is Some,
    ensures
        ({
            let cases = cases_at(
                declarations,
                t,
                at,
                constructors,
                branches,
                n,
                scope,
                fixpoints,
                function,
                scrutinee,
                result,
                after,
            )->0;
            cases_at(
                r.entries(declarations),
                r.trace(t),
                at,
                r.members(constructors),
                branches,
                n,
                r.scope(scope),
                r.fixpoints(fixpoints),
                (r.function)(function),
                (r.pointer)(scrutinee),
                (r.pointer)(result),
                (r.block)(after),
            ) == Some(Cases { end: cases.end, cases: r.cases(cases.cases) })
        }),
    decreases branches, n,
{
    if n == 0 {
        assert(r.cases(Seq::empty()) =~= Seq::empty());
    } else {
        let i = n - 1;
        lemma_cases_renamed(
            r,
            declarations,
            t,
            at,
            constructors,
            branches,
            i as nat,
            scope,
            fixpoints,
            function,
            scrutinee,
            result,
            after,
        );
        let before = cases_at(
            declarations,
            t,
            at,
            constructors,
            branches,
            i as nat,
            scope,
            fixpoints,
            function,
            scrutinee,
            result,
            after,
        )->0;
        lemma_case_renamed(
            r,
            declarations,
            t,
            before.end,
            constructors[i],
            i,
            branches[i],
            scope,
            fixpoints,
            function,
            scrutinee,
            result,
            after,
        );
        assert(r.members(constructors)[i] == r.member(constructors[i]));
        let last = (
            Operand::Int { bits: 8, value: (i % 0x100) as nat },
            block_at(t, before.end),
        );
        assert(r.cases(before.cases.push(last)) =~= r.cases(before.cases).push(
            (r.operand(last.0), (r.block)(last.1)),
        ));
    }
}

proof fn lemma_parameter_stored_renamed<'ctx>(
    r: Renaming<'ctx>,
    t: Trace<'ctx>,
    at: int,
    function: FunctionValue<'ctx>,
    object: PointerValue<'ctx>,
    i: int,
    ty: Ty<'ctx>,
)
    requires
        r.is_faithful(),
        parameter_stored_at(t, at, function, object, i, ty),
    ensures
        parameter_stored_at(
            r.trace(t),
            at,
            (r.function)(function),
            (r.pointer)(object),
            i,
            r.ty(ty),
        ),
{
}

proof fn lemma_capture_stored_renamed<'ctx>(
    r: Renaming<'ctx>,
    t: Trace<'ctx>,
    at: int,
    function: FunctionValue<'ctx>,
    captures: nat,
    object: PointerValue<'ctx>,
    i: int,
    ty: Ty<'ctx>,
)
    requires
        r.is_faithful(),
        capture_stored_at(t, at, function, captures, object, i, ty),
    ensures
        capture_stored_at(
            r.trace(t),
            at,
            (r.function)(function),
            captures,
            (r.pointer)(object),
            i,
            r.ty(ty),
        ),
{
    assert(r.ty(Ty::Pointer(Box::new(captures_type(captures)))) == Ty::<'ctx>::Pointer(
        Box::new(captures_type(captures)),
    ));
}

proof fn lemma_filled_renamed<'ctx>(
    r: Renaming<'ctx>,
    t: Trace<'ctx>,
    at: int,
    function: FunctionValue<'ctx>,
    object: PointerValue<'ctx>,
    fields: Seq<Ty<'ctx>>,
)
    requires
        r.is_faithful(),
        constructor_filled_at(t, at, function, object, fields, fields.len() as int),
    ensures
        constructor_filled_at(
            r.trace(t),
            at,
            (r.function)(function),
            (r.pointer)(object),
            r.types(fields),
            fields.len() as int,
        ),
{
    let n = fields.len() as int;
    assert forall|i: int| 1 <= i < n && i < n - 1 implies #[trigger] capture_stored_at(
        r.trace(t),
        at + 6 * (i - 1),
        (r.function)(function),
        (n - 2) as nat,
        (r.pointer)(object),
        i,
        r.types(fields)[i],
    ) by {
        lemma_capture_stored_renamed(
            r,
            t,
            at + 6 * (i - 1),
            function,
            (n - 2) as nat,
            object,
            i,
            fields[i],
        );
    }
    if 1 < n {
        lemma_parameter_stored_renamed(
            r,
            t,
            at + 6 * (n - 2),
            function,
            object,
            n - 1,
            fields[n - 1],
        );
    }
}

proof fn lemma_constructor_renamed<'ctx>(
    r: Renaming<'ctx>,
    declarations: Seq<Entry<'ctx>>,
    t: Trace<'ctx>,
    at: int,
    inductive_name: Seq<char>,
    index: int,
    constructor: Constructor,
)
    requires
        r.is_faithful(),
        constructor_at(declarations, t, at, inductive_name, index, constructor) is Some,
    ensures
        constructor_at(
            r.entries(declarations),
            r.trace(t),
            at,
            inductive_name,
            index,
            constructor,
        ) == Some(
            r.declared(
                constructor_at(declarations, t, at, inductive_name, index, constructor)->0,
            ),
        ),
{
    let u = r.trace(t);
    let structure = struct_at(t, at);
    let fields = constructor_fields(declarations, constructor.typ);
    let name = constructor_name(inductive_name, constructor.name@);
    let after = constructor_at(declarations, t, at, inductive_name, index, constructor)->0;
    lemma_find_renamed(r, declarations, inductive_name);
    lemma_find_inductive(declarations, inductive_name);
    lemma_leaf_types_renamed(r, declarations, constructor.typ);
    lemma_constructor_fields_renamed(r, declarations, constructor.typ);
    lemma_body_renamed(r, t, structure);
    assert(struct_at(u, at) == (r.structure)(structure));
    assert(constructor_type_at(r.entries(declarations), u, at, name, constructor.typ));
    lemma_curried_function_renamed(
        r,
        t,
        at + 2,
        Ty::Pointer(Box::new(struct_type(structure))),
        name,
    );
    assert(made(
        u,
        at + 5,
        Request::Malloc {
            ty: struct_type((r.structure)(structure)),
            name: "constructor_struct"@,
        },
    ));
    lemma_filled_renamed(r, t, at + 8, function_at(t, at + 2), pointer_at(t, at + 5), fields);
    assert(constructor_function_at(
        u,
        at + 2,
        (index % 0x100) as nat,
        name,
        (r.structure)(structure),
        r.types(fields),
    ));
    let i = find_inductive(declarations, inductive_name)->0;
    let member = Member {
        name: constructor.name@,
        llvm_struct_type: structure,
        llvm_function: address_of(function_at(t, at + 2)),
    };
    let constructors = declarations[i]->Inductive_1.constructors;
    assert(r.members(constructors.push(member)) =~= r.members(constructors).push(
        r.member(member),
    ));
    assert(r.entries(after.declarations) =~= with_constructor(
        r.entries(declarations),
        inductive_name,
        r.member(member),
    ));
}

proof fn lemma_constructors_renamed<'ctx>(
    r: Renaming<'ctx>,
    declarations: Seq<Entry<'ctx>>,
    t: Trace<'ctx>,
    at: int,
    inductive_name: Seq<char>,
    constructors: Seq<Constructor>,
    n: nat,
)
    requires
        r.is_faithful(),
        constructors_at(declarations, t, at, inductive_name, constructors, n) is Some,
    ensures
        constructors_at(
            r.entries(declarations),
            r.trace(t),
            at,
            inductive_name,
            constructors,
            n,
        ) == Some(
            r.declared(
                constructors_at(declarations, t, at, inductive_name, constructors, n)->0,
            ),
        ),
    decreases n,
{
    if 0 < n <= constructors.len() {
        let before = constructors_at(
            declarations,
            t,
            at,
            inductive_name,
            constructors,
            (n - 1) as nat,
        )->0;
        lemma_constructors_renamed(
            r,
            declarations,
            t,
            at,
            inductive_name,
            constructors,
            (n - 1) as nat,
        );
        lemma_constructor_renamed(
            r,
            before.declarations,
            t,
            before.end,
            inductive_name,
            n - 1,
            constructors[n - 1],
        );
    }
}

/// The calls for an inductive type are the same on other handles.
pub proof fn law_inductive_code_on_other_handles<'ctx>(
    r: Renaming<'ctx>,
    declarations: Seq<Entry<'ctx>>,
    t: Trace<'ctx>,
    at: int,
    inductive: Inductive,
)
    requires
        r.is_faithful(),
        inductive_at(declarations, t, at, inductive) is Some,
    ensures
        inductive_at(r.entries(declarations), r.trace(t), at, inductive) == Some(
            r.declared(inductive_at(declarations, t, at, inductive)->0),
        ),
{
    let u = r.trace(t);
    let name = inductive.name@;
    let structure = struct_at(t, at);
    let pushed = declarations.push(bare(name, structure));
    let count = inductive.constructors@.len();
    let declared = constructors_at(
        pushed,
        t,
        at + 1,
        name,
        inductive.constructors@,
        count,
    )->0;
    assert(struct_at(u, at) == (r.structure)(structure));
    assert(r.entry(bare(name, structure)) == bare(name, (r.structure)(structure))) by {
        assert(r.members(Seq::empty()) =~= Seq::empty());
    }
    assert(r.entries(pushed) =~= r.entries(declarations).push(
        bare(name, (r.structure)(structure)),
    ));
    lemma_constructors_renamed(r, pushed, t, at + 1, name, inductive.constructors@, count);
    lemma_find_renamed(r, declared.declarations, name);
    lemma_body_renamed(r, t, structure);
    let constructors = find_constructors(declared.declarations, name)->0;
    lemma_field_counts_renamed(r, t, constructors);
    if constructors.len() > 0 {
        law_largest(field_counts(t, constructors), constructors.len());
        let chosen = largest(field_counts(t, constructors), constructors.len());
        let laid = constructors[chosen].llvm_struct_type;
        lemma_body_renamed(r, t, laid);
        assert(r.types(Seq::empty()) =~= Seq::<Ty<'ctx>>::empty());
        assert(fields_of(u, (r.structure)(laid)) == r.types(fields_of(t, laid)));
    }
}

/// A program's declarations are compiled by the same calls on other handles.
pub proof fn law_declarations_code_on_other_handles<'ctx>(
    r: Renaming<'ctx>,
    declarations: Seq<Entry<'ctx>>,
    t: Trace<'ctx>,
    at: int,
    main: FunctionValue<'ctx>,
    program: Seq<Declaration>,
    n: nat,
)
    requires
        r.is_faithful(),
        0 <= at <= t.len(),
        n <= program.len(),
        constructors_laid_out(t.take(at), declarations),
        last_block(t.take(at), main) is Some,
        declarations_at(declarations, t, at, main, program, n) is Some,
    ensures
        declarations_at(
            r.entries(declarations),
            r.trace(t),
            at,
            (r.function)(main),
            program,
            n,
        ) == Some(r.declared(declarations_at(declarations, t, at, main, program, n)->0)),
        ({
            let end = declarations_at(declarations, t, at, main, program, n)->0.end;
            at <= end <= t.len() && last_block(t.take(end), main) is Some
        }),
    decreases n,
{
    law_declarations_code_is_determined(declarations, t, t, at, main, program, n);
    let after = declarations_at(declarations, t, at, main, program, n)->0;
    assert(extends(t.take(after.end), t.take(at)));
    lemma_last_block_extends(t.take(at), t.take(after.end), main);
    if n > 0 {
        law_declarations_code_on_other_handles(
            r,
            declarations,
            t,
            at,
            main,
            program,
            (n - 1) as nat,
        );
        let before = declarations_at(declarations, t, at, main, program, (n - 1) as nat)->0;
        let from = before.end;
        let block = last_block(t.take(from), main)->0;
        lemma_last_block_parent(t.take(from), main);
        let function = parent(t.take(from), block)->0;
        assert(r.trace(t).take(from) =~= r.trace(t.take(from)));
        lemma_last_block_renamed(r, t.take(from), main);
        lemma_parent_renamed(r, t.take(from), block);
        match program[n - 1] {
            Declaration::Constant(term) => {
                law_term_code_on_other_handles(
                    r,
                    before.declarations,
                    t,
                    from + 1,
                    term,
                    Seq::empty(),
                    Seq::empty(),
                    function,
                    block,
                );
                assert(r.scope(Seq::empty()) =~= Seq::empty());
                assert(r.fixpoints(Seq::empty()) =~= Seq::empty());
                let compiled = term_at(
                    before.declarations,
                    t,
                    from + 1,
                    term,
                    Seq::empty(),
                    Seq::empty(),
                    function,
                    block,
                )->0;
                assert(r.entries(with_constant(before.declarations, term, compiled.value))
                    =~= with_constant(
                    r.entries(before.declarations),
                    term,
                    (r.pointer)(compiled.value),
                ));
            },
            Declaration::Inductive(inductive) => {
                law_inductive_code_on_other_handles(
                    r,
                    before.declarations,
                    t,
                    from + 1,
                    inductive,
                );
            },
        }
    }
}

/// A function under its new name.
pub open spec fn renamed_function<'ctx>(
    r: Renaming<'ctx>,
    function: Option<FunctionValue<'ctx>>,
) -> Option<FunctionValue<'ctx>> {
    match function {
        Some(function) => Some((r.function)(function)),
        None => None,
    }
}

proof fn lemma_main_renamed<'ctx>(
    r: Renaming<'ctx>,
    t: Trace<'ctx>,
    at: int,
    existing: Option<FunctionValue<'ctx>>,
)
    requires
        r.is_faithful(),
        main_at(t, at, existing),
        existing matches Some(main) ==> last_block(t.take(at), main) is Some,
    ensures
        main_at(r.trace(t), at, renamed_function(r, existing)),
        main_function(r.trace(t), at, renamed_function(r, existing)) == (r.function)(
            main_function(t, at, existing),
        ),
        0 <= at,
        at + main_calls(existing) <= t.len(),
        last_block(t.take(at + main_calls(existing)), main_function(t, at, existing)) is Some,
{
    let u = r.trace(t);
    match existing {
        Some(main) => {
            assert(u.take(at) =~= r.trace(t.take(at)));
            lemma_last_block_renamed(r, t.take(at), main);
            assert(extends(t.take(at + 1), t.take(at)));
            lemma_last_block_extends(t.take(at), t.take(at + 1), main);
        },
        None => {
            assert(r.types(Seq::empty()) =~= Seq::<Ty<'ctx>>::empty());
            let added = t.take(at + 2);
            assert(added.last() == t[at + 1]);
            assert(last_block(added, function_at(t, at)) is Some);
            assert(extends(t.take(at + 3), added));
            lemma_last_block_extends(added, t.take(at + 3), function_at(t, at));
        },
    }
}

/// The calls for a program are the same on other handles.
pub proof fn law_program_code_on_other_handles<'ctx>(
    r: Renaming<'ctx>,
    declarations: Seq<Entry<'ctx>>,
    t: Trace<'ctx>,
    at: int,
    existing: Option<FunctionValue<'ctx>>,
    hir: HIR,
)
    requires
        r.is_faithful(),
        constructors_laid_out(t.take(at), declarations),
        existing matches Some(main) ==> last_block(t.take(at), main) is Some,
        program_at(declarations, t, at, existing, hir) is Some,
    ensures
        program_at(
            r.entries(declarations),
            r.trace(t),
            at,
            renamed_function(r, existing),
            hir,
        ) == Some(r.declared(program_at(declarations, t, at, existing, hir)->0)),
{
    let entered = at + main_calls(existing);
    let main = main_function(t, at, existing);
    let count = hir.declarations@.len();
    lemma_main_renamed(r, t, at, existing);
    lemma_laid_out_later(t, at, entered, declarations);
    law_declarations_code_on_other_handles(
        r,
        declarations,
        t,
        entered,
        main,
        hir.declarations@,
        count,
    );
    let end = declarations_at(declarations, t, entered, main, hir.declarations@, count)->0.end;
    assert(r.trace(t).take(end) =~= r.trace(t.take(end)));
    lemma_last_block_renamed(r, t.take(end), main);
}

/// LLVM answers alike in both runs, as far as both go, but for the handles that it
/// gives out.
pub open spec fn answers_renamed<'ctx>(r: Renaming<'ctx>, t: Trace<'ctx>, u: Trace<'ctx>) -> bool {
    forall|i: int|
        #![trigger t[i]]
        #![trigger u[i]]
        0 <= i < t.len() && i < u.len() ==> u[i].answer == r.answer(t[i].answer)
}

/// The first `n` calls of both runs are the same, but for handles.
pub open spec fn calls_renamed<'ctx>(
    r: Renaming<'ctx>,
    t: Trace<'ctx>,
    u: Trace<'ctx>,
    n: int,
) -> bool {
    &&& 0 <= n <= t.len()
    &&& n <= u.len()
    &&& forall|i: int|
        #![trigger t[i]]
        #![trigger u[i]]
        0 <= i < n ==> u[i] == r.call(t[i])
}

proof fn lemma_same_as_renamed<'ctx>(r: Renaming<'ctx>, t: Trace<'ctx>, u: Trace<'ctx>, n: int)
    requires
        answers_renamed(r, t, u),
        calls_renamed(r, t, u, n),
    ensures
        same_answers(r.trace(t), u),
        same_calls(r.trace(t), u, n),
        r.trace(t).take(n) == r.trace(t.take(n)),
{
    assert forall|i: int| 0 <= i < t.len() && i < u.len() implies #[trigger] u[i].answer
        == r.trace(t)[i].answer by {
        assert(t[i] == t[i]);
    }
    assert forall|i: int| 0 <= i < n implies #[trigger] u[i] == r.trace(t)[i] by {
        assert(t[i] == t[i]);
    }
    assert(r.trace(t).take(n) =~= r.trace(t.take(n)));
}

proof fn lemma_calls_renamed<'ctx>(r: Renaming<'ctx>, t: Trace<'ctx>, u: Trace<'ctx>, n: int)
    requires
        same_calls(r.trace(t), u, n),
    ensures
        calls_renamed(r, t, u, n),
{
    assert forall|i: int| 0 <= i < n implies #[trigger] u[i] == r.call(t[i]) by {
        assert(r.trace(t)[i] == r.call(t[i]));
    }
}

proof fn lemma_laid_out_renamed<'ctx>(
    r: Renaming<'ctx>,
    t: Trace<'ctx>,
    declarations: Seq<Entry<'ctx>>,
)
    requires
        r.is_faithful(),
        constructors_laid_out(t, declarations),
    ensures
        constructors_laid_out(r.trace(t), r.entries(declarations)),
{
    let renamed = r.entries(declarations);
    assert forall|i: int, j: int|
        0 <= i < renamed.len() && renamed[i] is Inductive && 0 <= j
            < renamed[i]->Inductive_1.constructors.len() implies laid_out(
        r.trace(t),
        #[trigger] renamed[i]->Inductive_1.constructors[j],
    ) by {
        let constructor = declarations[i]->Inductive_1.constructors[j];
        assert(laid_out(t, constructor));
        lemma_body_renamed(r, t, constructor.llvm_struct_type);
    }
}

/// Two runs that compile the same term, in which LLVM answers alike but for the
/// handles that it gives out, make the same calls but for these handles.
pub proof fn law_term_code_up_to_handles<'ctx>(
    r: Renaming<'ctx>,
    declarations: Seq<Entry<'ctx>>,
    t: Trace<'ctx>,
    u: Trace<'ctx>,
    at: int,
    term: Term,
    scope: Seq<PointerValue<'ctx>>,
    fixpoints: Seq<Recursion<'ctx>>,
    function: FunctionValue<'ctx>,
    block: BasicBlock<'ctx>,
)
    requires
        r.is_faithful(),
        answers_renamed(r, t, u),
        calls_renamed(r, t, u, at),
        constructors_laid_out(t.take(at), declarations),
        term_at(declarations, t, at, term, scope, fixpoints, function, block) is Some,
        term_at(
            r.entries(declarations),
            u,
            at,
            term,
            r.scope(scope),
            r.fixpoints(fixpoints),
            (r.function)(function),
            (r.block)(block),
        ) is Some,
    ensures
        ({
            let compiled = term_at(
                declarations,
                t,
                at,
                term,
                scope,
                fixpoints,
                function,
                block,
            )->0;
            &&& calls_renamed(r, t, u, compiled.end)
            &&& term_at(
                r.entries(declarations),
                u,
                at,
                term,
                r.scope(scope),
                r.fixpoints(fixpoints),
                (r.function)(function),
                (r.block)(block),
            ) == Some(r.emission(compiled))
        }),
{
    let compiled = term_at(declarations, t, at, term, scope, fixpoints, function, block)->0;
    law_term_code_on_other_handles(
        r,
        declarations,
        t,
        at,
        term,
        scope,
        fixpoints,
        function,
        block,
    );
    lemma_same_as_renamed(r, t, u, at);
    lemma_laid_out_renamed(r, t.take(at), declarations);
    law_term_code_is_determined(
        r.entries(declarations),
        r.trace(t),
        u,
        at,
        term,
        r.scope(scope),
        r.fixpoints(fixpoints),
        (r.function)(function),
        (r.block)(block),
    );
    lemma_calls_renamed(r, t, u, compiled.end);
}

/// Two runs that compile the same inductive type, in which LLVM answers alike but
/// for the handles that it gives out, make the same calls but for these handles.
pub proof fn law_inductive_code_up_to_handles<'ctx>(
    r: Renaming<'ctx>,
    declarations: Seq<Entry<'ctx>>,
    t: Trace<'ctx>,
    u: Trace<'ctx>,
    at: int,
    inductive: Inductive,
)
    requires
        r.is_faithful(),
        answers_renamed(r, t, u),
        calls_renamed(r, t, u, at),
        constructors_laid_out(t.take(at), declarations),
        inductive_at(declarations, t, at, inductive) is Some,
        inductive_at(r.entries(declarations), u, at, inductive) is Some,
    ensures
        ({
            let compiled = inductive_at(declarations, t, at, inductive)->0;
            &&& calls_renamed(r, t, u, compiled.end)
            &&& inductive_at(r.entries(declarations), u, at, inductive) == Some(
                r.declared(compiled),
            )
        }),
{
    let compiled = inductive_at(declarations, t, at, inductive)->0;
    law_inductive_code_on_other_handles(r, declarations, t, at, inductive);
    lemma_same_as_renamed(r, t, u, at);
    lemma_laid_out_renamed(r, t.take(at), declarations);
    law_inductive_code_is_determined(r.entries(declarations), r.trace(t), u, at, inductive);
    lemma_calls_renamed(r, t, u, compiled.end);
}

/// Two runs that compile the same program, in which LLVM answers alike but for the
/// handles that it gives out, make the same calls but for these handles.
pub proof fn law_program_code_up_to_handles<'ctx>(
    r: Renaming<'ctx>,
    declarations: Seq<Entry<'ctx>>,
    t: Trace<'ctx>,
    u: Trace<'ctx>,
    at: int,
    existing: Option<FunctionValue<'ctx>>,
    hir: HIR,
)
    requires
        r.is_faithful(),
        answers_renamed(r, t, u),
        calls_renamed(r, t, u, at),
        constructors_laid_out(t.take(at), declarations),
        existing matches Some(main) ==> last_block(t.take(at), main) is Some,
        program_at(declarations, t, at, existing, hir) is Some,
        program_at(r.entries(declarations), u, at, renamed_function(r, existing), hir) is Some,
    ensures
        ({
            let compiled = program_at(declarations, t, at, existing, hir)->0;
            &&& calls_renamed(r, t, u, compiled.end)
            &&& program_at(r.entries(declarations), u, at, renamed_function(r, existing), hir)
                == Some(r.declared(compiled))
        }),
{
    let compiled = program_at(declarations, t, at, existing, hir)->0;
    law_program_code_on_other_handles(r, declarations, t, at, existing, hir);
    lemma_same_as_renamed(r, t, u, at);
    lemma_laid_out_renamed(r, t.take(at), declarations);
    law_program_code_is_determined(
        r.entries(declarations),
        r.trace(t),
        u,
        at,
        renamed_function(r, existing),
        hir,
    );
    lemma_calls_renamed(r, t, u, compiled.end);
}

/// Two runs that add the function where the program starts agree but for handles.
pub proof fn lemma_main_up_to_handles<'ctx>(
    r: Renaming<'ctx>,
    t: Trace<'ctx>,
    u: Trace<'ctx>,
    at: int,
)
    requires
        r.is_faithful(),
        answers_renamed(r, t, u),
        calls_renamed(r, t, u, at),
        main_at(t, at, None),
        main_at(u, at, None),
    ensures
        calls_renamed(r, t, u, at + main_calls(None)),
        main_function(u, at, None) == (r.function)(main_function(t, at, None)),
        main_block(u, at, None) == (r.block)(main_block(t, at, None)),
{
    assert(r.types(Seq::empty()) =~= Seq::<Ty<'ctx>>::empty());
    assert(u[at].answer == r.answer(t[at].answer));
    assert(u[at + 1].answer == r.answer(t[at + 1].answer));
    assert(u[at + 2].answer == r.answer(t[at + 2].answer));
    assert forall|i: int| at <= i < at + 3 implies #[trigger] u[i] == r.call(t[i]) by {}
}

/// The run is that of a new, empty module.
pub open spec fn starts_anew(t: Trace<'_>) -> bool {
    t.len() > 0 && t[0] == (Call {
        request: Request::CreateModule { name: "koi"@ },
        answer: Answer::Done,
    })
}

/// Two runs that compile the same program into new modules, and do nothing else, in
/// which LLVM answers alike but for the handles that it gives out, are the same but
/// for these handles.
pub proof fn law_same_program_in_new_modules<'ctx>(
    r: Renaming<'ctx>,
    t: Trace<'ctx>,
    u: Trace<'ctx>,
    hir: HIR,
)
    requires
        r.is_faithful(),
        answers_renamed(r, t, u),
        starts_anew(t),
        starts_anew(u),
        program_at(Seq::empty(), t, 1, None, hir) matches Some(compiled) && compiled.end
            == t.len(),
        program_at(Seq::empty(), u, 1, None, hir) matches Some(compiled) && compiled.end
            == u.len(),
    ensures
        u == r.trace(t),
{
    assert(r.entries(Seq::empty()) =~= Seq::empty());
    assert(calls_renamed(r, t, u, 1));
    law_program_code_up_to_handles(r, Seq::empty(), t, u, 1, None, hir);
    assert(u =~= r.trace(t));
}

} // verus!
