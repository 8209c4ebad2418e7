//! The code of a program depends on the program alone: two runs in which LLVM
//! answers alike make the same calls.
use inkwell::basic_block::BasicBlock;
use inkwell::types::StructType;
use inkwell::values::{FunctionValue, PointerValue};
use vstd::prelude::*;

use crate::codegen::Context;
use crate::codegen::data::{
    bare, capture_stored_at, constructor_at, constructor_fields, constructor_filled_at,
    constructors_at, filling_calls, inductive_at, largest,
};
use crate::codegen::emission::{
    capture_loaded_at, capture_written_at, captured_values, captures_loaded_at, captures_stored_at,
    case_at, cases_at, closure_calls, closure_seen, empty_closure_at, field_loaded_at,
    fields_loaded_at, lambda_at, loaded_fields, main_at, main_calls, main_function,
    scope_with_captures, term_at, with_fixpoint,
};
use crate::codegen::environment::fixpoint::{find_fixpoint, Recursion};
use crate::codegen::environment::global::{
    find_constructors, find_inductive, lemma_find_inductive, Entry, Member,
};
use crate::codegen::globals::{constructor_wf, declaration_wf, field_counts, fields_of, shapes_of};
use crate::codegen::program::{declarations_at, main_returned_at, program_at, with_constant};
use crate::codegen::shape::{bound_by_branch, captured};
use crate::hir::ir::{Constructor, DeBruijnIndex, Declaration, HIR, Inductive, Term};
use crate::laws::law_largest;
use crate::llvm::session::{parameter_of, printed, verification};
use crate::llvm::trace::{
    block_at, body, extends, function_at, last_block, lemma_body_extends, made, parent, pointer_at,
    struct_at, Request, Trace, Ty,
};

verus! {

/// LLVM answers alike in both runs, as far as both go.
pub open spec fn same_answers<'ctx>(t: Trace<'ctx>, u: Trace<'ctx>) -> bool {
    forall|i: int|
        #![trigger t[i]]
        #![trigger u[i]]
        0 <= i < t.len() && i < u.len() ==> t[i].answer == u[i].answer
}

/// The first `n` calls of both runs are the same.
pub open spec fn same_calls<'ctx>(t: Trace<'ctx>, u: Trace<'ctx>, n: int) -> bool {
    &&& 0 <= n <= t.len()
    &&& n <= u.len()
    &&& forall|i: int| #![trigger t[i]] #![trigger u[i]] 0 <= i < n ==> t[i] == u[i]
}

/// The structure of a constructor has been laid out.
pub open spec fn laid_out<'ctx>(t: Trace<'ctx>, constructor: Member<'ctx>) -> bool {
    body(t, constructor.llvm_struct_type) is Some
}

/// The constructors of the declared types have been laid out.
pub open spec fn constructors_laid_out<'ctx>(
    t: Trace<'ctx>,
    declarations: Seq<Entry<'ctx>>,
) -> bool {
    forall|i: int, j: int|
        0 <= i < declarations.len() && declarations[i] is Inductive && 0 <= j
            < declarations[i]->Inductive_1.constructors.len() ==> laid_out(
            t,
            #[trigger] declarations[i]->Inductive_1.constructors[j],
        )
}

/// The constructors that a context knows have been laid out.
pub proof fn law_context_is_laid_out<'ctx>(context: Context<'ctx>)
    requires
        context.wf(),
    ensures
        constructors_laid_out(context.calls(), context.declarations()),
{
    let declarations = context.declarations();
    assert forall|i: int, j: int|
        0 <= i < declarations.len() && declarations[i] is Inductive && 0 <= j
            < declarations[i]->Inductive_1.constructors.len() implies laid_out(
        context.calls(),
        #[trigger] declarations[i]->Inductive_1.constructors[j],
    ) by {
        assert(declaration_wf(context.calls(), declarations[i]));
        assert(constructor_wf(
            context.calls(),
            declarations[i]->Inductive_1.constructors[j],
        ));
    }
}

proof fn lemma_same_prefix<'ctx>(t: Trace<'ctx>, u: Trace<'ctx>, n: int)
    requires
        same_calls(t, u, n),
    ensures
        t.take(n) == u.take(n),
        extends(t, t.take(n)),
        extends(u, t.take(n)),
{
    assert(t.take(n) =~= u.take(n));
    assert forall|i: int| 0 <= i < n implies #[trigger] u[i] == t.take(n)[i] by {
        assert(t[i] == u[i]);
    }
}

pub proof fn lemma_laid_out_later<'ctx>(
    t: Trace<'ctx>,
    n: int,
    later: int,
    declarations: Seq<Entry<'ctx>>,
)
    requires
        0 <= n <= later <= t.len(),
        constructors_laid_out(t.take(n), declarations),
    ensures
        constructors_laid_out(t.take(later), declarations),
{
    assert forall|i: int, j: int|
        0 <= i < declarations.len() && declarations[i] is Inductive && 0 <= j
            < declarations[i]->Inductive_1.constructors.len() implies laid_out(
        t.take(later),
        #[trigger] declarations[i]->Inductive_1.constructors[j],
    ) by {
        lemma_body_extends(
            t.take(n),
            t.take(later),
            declarations[i]->Inductive_1.constructors[j].llvm_struct_type,
        );
    }
}

/// The captures of a closure are stored by the same calls.
proof fn lemma_captures_stored_same<'ctx>(
    t: Trace<'ctx>,
    u: Trace<'ctx>,
    at: int,
    captures: PointerValue<'ctx>,
    values: Seq<PointerValue<'ctx>>,
    n: int,
)
    requires
        same_answers(t, u),
        same_calls(t, u, at),
        0 <= n == values.len(),
        captures_stored_at(t, at, captures, values, n),
        captures_stored_at(u, at, captures, values, n),
    ensures
        same_calls(t, u, at + 3 * n),
{
    if n > 0 {
        assert(capture_written_at(t, at + 3 * (n - 1), captures, values[n - 1], n - 1));
        assert(capture_written_at(u, at + 3 * (n - 1), captures, values[n - 1], n - 1));
    }
    assert forall|k: int| at <= k < at + 3 * n implies t[k] == u[k] by {
        let i = (k - at) / 3;
        assert(0 <= i < n);
        assert(capture_written_at(t, at + 3 * i, captures, values[i], i));
        assert(capture_written_at(u, at + 3 * i, captures, values[i], i));
        assert(at + 3 * i <= k < at + 3 * i + 3);
    }
}

/// The captures of a closure are loaded by the same calls.
proof fn lemma_captures_loaded_same<'ctx>(
    t: Trace<'ctx>,
    u: Trace<'ctx>,
    at: int,
    function: FunctionValue<'ctx>,
    captures: PointerValue<'ctx>,
    n: int,
)
    requires
        same_answers(t, u),
        same_calls(t, u, at),
        0 <= n,
        captures_loaded_at(t, at, function, captures, n),
        captures_loaded_at(u, at, function, captures, n),
    ensures
        same_calls(t, u, at + 5 * n),
{
    if n > 0 {
        assert(capture_loaded_at(t, at + 5 * (n - 1), function, captures, n - 1));
        assert(capture_loaded_at(u, at + 5 * (n - 1), function, captures, n - 1));
    }
    assert forall|k: int| at <= k < at + 5 * n implies t[k] == u[k] by {
        let i = (k - at) / 5;
        assert(0 <= i < n);
        assert(capture_loaded_at(t, at + 5 * i, function, captures, i));
        assert(capture_loaded_at(u, at + 5 * i, function, captures, i));
        assert(at + 5 * i <= k < at + 5 * i + 5);
    }
}

proof fn lemma_scope_with_captures_same<'ctx>(
    t: Trace<'ctx>,
    u: Trace<'ctx>,
    at: int,
    scope: Seq<PointerValue<'ctx>>,
    indexes: Seq<DeBruijnIndex>,
    n: nat,
)
    requires
        same_calls(t, u, at + 5 * n),
        0 <= at,
    ensures
        scope_with_captures(t, at, scope, indexes, n) == scope_with_captures(
            u,
            at,
            scope,
            indexes,
            n,
        ),
    decreases n,
{
    if n > 0 {
        lemma_scope_with_captures_same(t, u, at, scope, indexes, (n - 1) as nat);
        assert(t[at + 5 * (n - 1) + 3] == u[at + 5 * (n - 1) + 3]);
    }
}

/// The fields of the scrutinee are loaded by the same calls.
proof fn lemma_fields_loaded_same<'ctx>(
    t: Trace<'ctx>,
    u: Trace<'ctx>,
    at: int,
    pointer: PointerValue<'ctx>,
    n: int,
)
    requires
        same_answers(t, u),
        same_calls(t, u, at),
        0 <= n,
        fields_loaded_at(t, at, pointer, n),
        fields_loaded_at(u, at, pointer, n),
    ensures
        same_calls(t, u, at + 2 * n),
        loaded_fields(t, at, n as nat) == loaded_fields(u, at, n as nat),
{
    if n > 0 {
        let last = n - 1;
        assert(field_loaded_at(t, at + 2 * last, pointer, last + 1));
        assert(field_loaded_at(u, at + 2 * last, pointer, last + 1));
    }
    assert forall|k: int| at <= k < at + 2 * n implies t[k] == u[k] by {
        let i = (k - at) / 2;
        assert(0 <= i < n);
        assert(field_loaded_at(t, at + 2 * i, pointer, i + 1));
        assert(field_loaded_at(u, at + 2 * i, pointer, i + 1));
        assert(k == at + 2 * i || k == at + 2 * i + 1);
    }
    assert(loaded_fields(t, at, n as nat) =~= loaded_fields(u, at, n as nat));
}

/// The calls for a term depend on the term, on what has been compiled before and
/// on the answers alone.
pub proof fn law_term_code_is_determined<'ctx>(
    declarations: Seq<Entry<'ctx>>,
    t: Trace<'ctx>,
    u: Trace<'ctx>,
    at: int,
    term: Term,
    scope: Seq<PointerValue<'ctx>>,
    fixpoints: Seq<Recursion<'ctx>>,
    function: FunctionValue<'ctx>,
    block: BasicBlock<'ctx>,
)
    requires
        same_answers(t, u),
        same_calls(t, u, at),
        constructors_laid_out(t.take(at), declarations),
        term_at(declarations, t, at, term, scope, fixpoints, function, block) is Some,
        term_at(declarations, u, at, term, scope, fixpoints, function, block) is Some,
    ensures
        term_at(declarations, t, at, term, scope, fixpoints, function, block) == term_at(
            declarations,
            u,
            at,
            term,
            scope,
            fixpoints,
            function,
            block,
        ),
        at <= term_at(declarations, t, at, term, scope, fixpoints, function, block)->0.end,
        same_calls(
            t,
            u,
            term_at(declarations, t, at, term, scope, fixpoints, function, block)->0.end,
        ),
    decreases term, 2nat,
{
    match term {
        Term::Lambda { body, .. } => {
            lemma_lambda_code_is_determined(
                declarations,
                t,
                u,
                at,
                *body,
                None,
                scope,
                fixpoints,
                block,
            );
        },
        Term::Application { .. } => {
            lemma_application_code_is_determined(
                declarations,
                t,
                u,
                at,
                term,
                scope,
                fixpoints,
                function,
                block,
            );
        },
        Term::Constant(name) => {
            if let Some(fixpoint) = find_fixpoint(fixpoints, name@) {
                lemma_empty_closure_same(
                    t,
                    u,
                    at,
                    fixpoint.llvm_function,
                    "temp_fixpoint_empty_captures_struct"@,
                );
            }
        },
        Term::Constructor(name, index) => {
            if let Some(constructors) = find_constructors(declarations, name@) {
                lemma_empty_closure_same(
                    t,
                    u,
                    at,
                    constructors[index as int].llvm_function,
                    "temp_constructor_empty_captures_struct"@,
                );
            }
        },
        Term::Match { .. } => {
            lemma_match_code_is_determined(
                declarations,
                t,
                u,
                at,
                term,
                scope,
                fixpoints,
                function,
                block,
            );
        },
        Term::Fixpoint { name, body, .. } => {
            match *body {
                Term::Lambda { body: inner, .. } => {
                    lemma_lambda_code_is_determined(
                        declarations,
                        t,
                        u,
                        at,
                        *inner,
                        Some(name@),
                        scope,
                        fixpoints,
                        block,
                    );
                },
                _ => {
                    law_term_code_is_determined(
                        declarations,
                        t,
                        u,
                        at,
                        *body,
                        scope,
                        fixpoints,
                        function,
                        block,
                    );
                },
            }
        },
        _ => {},
    }
}

proof fn lemma_empty_closure_same<'ctx>(
    t: Trace<'ctx>,
    u: Trace<'ctx>,
    at: int,
    function: PointerValue<'ctx>,
    name: Seq<char>,
)
    requires
        same_answers(t, u),
        same_calls(t, u, at),
        empty_closure_at(t, at, function, name),
        empty_closure_at(u, at, function, name),
    ensures
        same_calls(t, u, at + 6),
        pointer_at(t, at + 1) == pointer_at(u, at + 1),
{
    assert(t[at].answer == u[at].answer);
    assert(t[at + 1].answer == u[at + 1].answer);
    assert(t[at + 2].answer == u[at + 2].answer);
    assert(t[at + 4].answer == u[at + 4].answer);
    assert forall|k: int| at <= k < at + 6 implies t[k] == u[k] by {
        assert(t[k].answer == u[k].answer);
    }
}

proof fn lemma_lambda_code_is_determined<'ctx>(
    declarations: Seq<Entry<'ctx>>,
    t: Trace<'ctx>,
    u: Trace<'ctx>,
    at: int,
    body: Term,
    own: Option<Seq<char>>,
    scope: Seq<PointerValue<'ctx>>,
    fixpoints: Seq<Recursion<'ctx>>,
    block: BasicBlock<'ctx>,
)
    requires
        same_answers(t, u),
        same_calls(t, u, at),
        constructors_laid_out(t.take(at), declarations),
        lambda_at(declarations, t, at, body, own, scope, fixpoints, block) is Some,
        lambda_at(declarations, u, at, body, own, scope, fixpoints, block) is Some,
    ensures
        lambda_at(declarations, t, at, body, own, scope, fixpoints, block) == lambda_at(
            declarations,
            u,
            at,
            body,
            own,
            scope,
            fixpoints,
            block,
        ),
        at <= lambda_at(declarations, t, at, body, own, scope, fixpoints, block)->0.end,
        same_calls(
            t,
            u,
            lambda_at(declarations, t, at, body, own, scope, fixpoints, block)->0.end,
        ),
    decreases body, 3nat,
{
    lemma_same_prefix(t, u, at);
    let indexes = captured(shapes_of(t.take(at), declarations), body, 0);
    let n = indexes.len() as int;
    let captures = pointer_at(t, at);
    let opened = at + 1 + 3 * n;
    let lambda = function_at(t, opened);
    assert(t[at].answer == u[at].answer);
    assert(same_calls(t, u, at + 1));
    lemma_captures_stored_same(t, u, at + 1, captures, captured_values(scope, indexes), n);
    assert(t[opened].answer == u[opened].answer);
    assert(t[opened + 1].answer == u[opened + 1].answer);
    assert(t[opened + 2].answer == u[opened + 2].answer);
    assert(same_calls(t, u, opened + 3));
    lemma_captures_loaded_same(t, u, opened + 3, lambda, captures, n);
    lemma_scope_with_captures_same(t, u, opened + 3, scope, indexes, indexes.len());
    let inside = opened + 3 + 5 * n;
    lemma_laid_out_later(t, at, inside, declarations);
    let inner_scope = scope_with_captures(t, opened + 3, scope, indexes, indexes.len());
    let inner_fixpoints = with_fixpoint(fixpoints, own, n == 0, lambda);
    law_term_code_is_determined(
        declarations,
        t,
        u,
        inside,
        body,
        inner_scope.push(parameter_of(lambda, 0)),
        inner_fixpoints,
        lambda,
        block_at(t, opened + 1),
    );
    let end = term_at(
        declarations,
        t,
        inside,
        body,
        inner_scope.push(parameter_of(lambda, 0)),
        inner_fixpoints,
        lambda,
        block_at(t, opened + 1),
    )->0.end;
    assert forall|k: int| end <= k < end + 8 implies t[k] == u[k] by {
        assert(t[k].answer == u[k].answer);
        assert(t[end].answer == u[end].answer);
        assert(t[end + 3].answer == u[end + 3].answer);
        assert(t[end + 4].answer == u[end + 4].answer);
        assert(t[end + 6].answer == u[end + 6].answer);
    }
}

proof fn lemma_application_code_is_determined<'ctx>(
    declarations: Seq<Entry<'ctx>>,
    t: Trace<'ctx>,
    u: Trace<'ctx>,
    at: int,
    term: Term,
    scope: Seq<PointerValue<'ctx>>,
    fixpoints: Seq<Recursion<'ctx>>,
    function: FunctionValue<'ctx>,
    block: BasicBlock<'ctx>,
)
    requires
        term is Application,
        same_answers(t, u),
        same_calls(t, u, at),
        constructors_laid_out(t.take(at), declarations),
        term_at(declarations, t, at, term, scope, fixpoints, function, block) is Some,
        term_at(declarations, u, at, term, scope, fixpoints, function, block) is Some,
    ensures
        term_at(declarations, t, at, term, scope, fixpoints, function, block) == term_at(
            declarations,
            u,
            at,
            term,
            scope,
            fixpoints,
            function,
            block,
        ),
        at <= term_at(declarations, t, at, term, scope, fixpoints, function, block)->0.end,
        same_calls(
            t,
            u,
            term_at(declarations, t, at, term, scope, fixpoints, function, block)->0.end,
        ),
    decreases term, 1nat,
{
    if let Term::Application { function: applied, argument } = term {
        law_term_code_is_determined(
            declarations,
            t,
            u,
            at,
            *applied,
            scope,
            fixpoints,
            function,
            block,
        );
        let closure = term_at(
            declarations,
            t,
            at,
            *applied,
            scope,
            fixpoints,
            function,
            block,
        )->0;
        let opened = closure.end + closure_calls(closure.value);
        assert forall|k: int| closure.end <= k < opened implies t[k] == u[k] by {
            assert(t[k].answer == u[k].answer);
            assert(t[closure.end].answer == u[closure.end].answer);
        }
        assert(same_calls(t, u, opened));
        assert(closure_seen(t, closure.end, closure.value) == closure_seen(
            u,
            closure.end,
            closure.value,
        )) by {
            assert(opened > closure.end ==> t[opened - 1] == u[opened - 1]);
        }
        assert forall|k: int| opened <= k < opened + 4 implies t[k] == u[k] by {
            assert(t[k].answer == u[k].answer);
            assert(t[opened].answer == u[opened].answer);
            assert(t[opened + 2].answer == u[opened + 2].answer);
        }
        assert(t[opened + 1].answer == u[opened + 1].answer);
        assert(t[opened + 3].answer == u[opened + 3].answer);
        lemma_laid_out_later(t, at, opened + 4, declarations);
        law_term_code_is_determined(
            declarations,
            t,
            u,
            opened + 4,
            *argument,
            scope,
            fixpoints,
            function,
            closure.block,
        );
        let given = term_at(
            declarations,
            t,
            opened + 4,
            *argument,
            scope,
            fixpoints,
            function,
            closure.block,
        )->0;
        assert forall|k: int| given.end <= k < given.end + 2 implies t[k] == u[k] by {
            assert(t[k].answer == u[k].answer);
            assert(t[given.end].answer == u[given.end].answer);
        }
    }
}

proof fn lemma_match_code_is_determined<'ctx>(
    declarations: Seq<Entry<'ctx>>,
    t: Trace<'ctx>,
    u: Trace<'ctx>,
    at: int,
    term: Term,
    scope: Seq<PointerValue<'ctx>>,
    fixpoints: Seq<Recursion<'ctx>>,
    function: FunctionValue<'ctx>,
    block: BasicBlock<'ctx>,
)
    requires
        term is Match,
        same_answers(t, u),
        same_calls(t, u, at),
        constructors_laid_out(t.take(at), declarations),
        term_at(declarations, t, at, term, scope, fixpoints, function, block) is Some,
        term_at(declarations, u, at, term, scope, fixpoints, function, block) is Some,
    ensures
        term_at(declarations, t, at, term, scope, fixpoints, function, block) == term_at(
            declarations,
            u,
            at,
            term,
            scope,
            fixpoints,
            function,
            block,
        ),
        at <= term_at(declarations, t, at, term, scope, fixpoints, function, block)->0.end,
        same_calls(
            t,
            u,
            term_at(declarations, t, at, term, scope, fixpoints, function, block)->0.end,
        ),
    decreases term, 1nat,
{
    if let Term::Match { inductive_name, scrutinee, branches, .. } = term {
        law_term_code_is_determined(
            declarations,
            t,
            u,
            at,
            *scrutinee,
            scope,
            fixpoints,
            function,
            block,
        );
        let matched = term_at(
            declarations,
            t,
            at,
            *scrutinee,
            scope,
            fixpoints,
            function,
            block,
        )->0;
        let opened = matched.end;
        assert forall|k: int| opened <= k < opened + 5 implies t[k] == u[k] by {
            assert(t[opened].answer == u[opened].answer);
            assert(t[opened + 1].answer == u[opened + 1].answer);
        }
        assert(t[opened + 4].answer == u[opened + 4].answer);
        assert(same_calls(t, u, opened + 5));
        lemma_laid_out_later(t, at, opened + 5, declarations);
        lemma_find_inductive(declarations, inductive_name@);
        let i = find_inductive(declarations, inductive_name@)->0;
        let constructors = declarations[i]->Inductive_1.constructors;
        assert forall|j: int| 0 <= j < constructors.len() implies laid_out(
            t.take(opened + 5),
            #[trigger] constructors[j],
        ) by {
            assert(declarations[i]->Inductive_1.constructors[j] == constructors[j]);
        }
        lemma_cases_code_is_determined(
            declarations,
            t,
            u,
            opened + 5,
            constructors,
            branches@,
            branches@.len(),
            scope,
            fixpoints,
            function,
            matched.value,
            pointer_at(t, opened + 3),
            block_at(t, opened + 4),
        );
        let end = cases_at(
            declarations,
            t,
            opened + 5,
            constructors,
            branches@,
            branches@.len(),
            scope,
            fixpoints,
            function,
            matched.value,
            pointer_at(t, opened + 3),
            block_at(t, opened + 4),
        )->0.end;
        assert forall|k: int| end <= k < end + 8 implies t[k] == u[k] by {
            assert(t[k].answer == u[k].answer);
            assert(t[end].answer == u[end].answer);
            assert(t[end + 2].answer == u[end + 2].answer);
        }
    }
}

proof fn lemma_cases_code_is_determined<'ctx>(
    declarations: Seq<Entry<'ctx>>,
    t: Trace<'ctx>,
    u: Trace<'ctx>,
    at: int,
    constructors: Seq<Member<'ctx>>,
    branches: Seq<Term>,
    n: nat,
    scope: Seq<PointerValue<'ctx>>,
    fixpoints: Seq<Recursion<'ctx>>,
    function: FunctionValue<'ctx>,
    scrutinee: PointerValue<'ctx>,
    result: PointerValue<'ctx>,
    after: BasicBlock<'ctx>,
)
    requires
        same_answers(t, u),
        same_calls(t, u, at),
        constructors_laid_out(t.take(at), declarations),
        n <= branches.len() == constructors.len(),
        forall|j: int|
            0 <= j < constructors.len() ==> laid_out(t.take(at), #[trigger] constructors[j]),
        cases_at(
            declarations,
            t,
            at,
            constructors,
            branches,
            n,
            scope,
            fixpoints,
            function,
            scrutinee,
            result,
            after,
        ) is Some,
        cases_at(
            declarations,
            u,
            at,
            constructors,
            branches,
            n,
            scope,
            fixpoints,
            function,
            scrutinee,
            result,
            after,
        ) is Some,
    ensures
        cases_at(
            declarations,
            t,
            at,
            constructors,
            branches,
            n,
            scope,
            fixpoints,
            function,
            scrutinee,
            result,
            after,
        ) == cases_at(
            declarations,
            u,
            at,
            constructors,
            branches,
            n,
            scope,
            fixpoints,
            function,
            scrutinee,
            result,
            after,
        ),
        at <= cases_at(
            declarations,
            t,
            at,
            constructors,
            branches,
            n,
            scope,
            fixpoints,
            function,
            scrutinee,
            result,
            after,
        )->0.end,
        same_calls(
            t,
            u,
            cases_at(
                declarations,
                t,
                at,
                constructors,
                branches,
                n,
                scope,
                fixpoints,
                function,
                scrutinee,
                result,
                after,
            )->0.end,
        ),
    decreases branches, n,
{
    if n > 0 {
        let i = n - 1;
        lemma_cases_code_is_determined(
            declarations,
            t,
            u,
            at,
            constructors,
            branches,
            i as nat,
            scope,
            fixpoints,
            function,
            scrutinee,
            result,
            after,
        );
        let before = cases_at(
            declarations,
            t,
            at,
            constructors,
            branches,
            i as nat,
            scope,
            fixpoints,
            function,
            scrutinee,
            result,
            after,
        )->0;
        lemma_laid_out_later(t, at, before.end, declarations);
        lemma_body_extends(t.take(at), t.take(before.end), constructors[i].llvm_struct_type);
        lemma_case_code_is_determined(
            declarations,
            t,
            u,
            before.end,
            constructors[i],
            i,
            branches[i],
            scope,
            fixpoints,
            function,
            scrutinee,
            result,
            after,
        );
        assert(t[before.end].answer == u[before.end].answer);
    }
}

proof fn lemma_case_code_is_determined<'ctx>(
    declarations: Seq<Entry<'ctx>>,
    t: Trace<'ctx>,
    u: Trace<'ctx>,
    at: int,
    constructor: Member<'ctx>,
    i: int,
    branch: Term,
    scope: Seq<PointerValue<'ctx>>,
    fixpoints: Seq<Recursion<'ctx>>,
    function: FunctionValue<'ctx>,
    scrutinee: PointerValue<'ctx>,
    result: PointerValue<'ctx>,
    after: BasicBlock<'ctx>,
)
    requires
        same_answers(t, u),
        same_calls(t, u, at),
        constructors_laid_out(t.take(at), declarations),
        laid_out(t.take(at), constructor),
        case_at(
            declarations,
            t,
            at,
            constructor,
            i,
            branch,
            scope,
            fixpoints,
            function,
            scrutinee,
            result,
            after,
        ) is Some,
        case_at(
            declarations,
            u,
            at,
            constructor,
            i,
            branch,
            scope,
            fixpoints,
            function,
            scrutinee,
            result,
            after,
        ) is Some,
    ensures
        case_at(
            declarations,
            t,
            at,
            constructor,
            i,
            branch,
            scope,
            fixpoints,
            function,
            scrutinee,
            result,
            after,
        ) == case_at(
            declarations,
            u,
            at,
            constructor,
            i,
            branch,
            scope,
            fixpoints,
            function,
            scrutinee,
            result,
            after,
        ),
        at <= case_at(
            declarations,
            t,
            at,
            constructor,
            i,
            branch,
            scope,
            fixpoints,
            function,
            scrutinee,
            result,
            after,
        )->0,
        same_calls(
            t,
            u,
            case_at(
                declarations,
                t,
                at,
                constructor,
                i,
                branch,
                scope,
                fixpoints,
                function,
                scrutinee,
                result,
                after,
            )->0,
        ),
    decreases branch, 3nat,
{
    let structure = constructor.llvm_struct_type;
    lemma_same_prefix(t, u, at);
    lemma_body_extends(t.take(at), t, structure);
    lemma_body_extends(t.take(at), u, structure);
    let fields = bound_by_branch(fields_of(t, structure).len());
    assert(t[at].answer == u[at].answer);
    assert(t[at + 2].answer == u[at + 2].answer);
    assert(same_calls(t, u, at + 3));
    assert(fields_of(u, structure) == fields_of(t, structure));
    lemma_fields_loaded_same(t, u, at + 3, pointer_at(t, at + 2), fields as int);
    let inside = at + 3 + 2 * fields;
    let inner_scope = scope + loaded_fields(t, at + 3, fields);
    lemma_laid_out_later(t, at, inside, declarations);
    law_term_code_is_determined(
        declarations,
        t,
        u,
        inside,
        branch,
        inner_scope,
        fixpoints,
        function,
        block_at(t, at),
    );
    let end = term_at(
        declarations,
        t,
        inside,
        branch,
        inner_scope,
        fixpoints,
        function,
        block_at(t, at),
    )->0.end;
    assert forall|k: int| end <= k < end + 3 implies t[k] == u[k] by {
        assert(t[end].answer == u[end].answer);
        assert(t[k].answer == u[k].answer);
    }
}

/// A structure that was given fields is laid out.
proof fn lemma_body_set<'ctx>(
    t: Trace<'ctx>,
    k: int,
    n: int,
    structure: StructType<'ctx>,
    fields: Seq<Ty<'ctx>>,
)
    requires
        made(t, k, Request::SetBody { structure, fields }),
        k < n <= t.len(),
    ensures
        body(t.take(n), structure) is Some,
{
    let set = t.take(k + 1);
    assert(set.last() == t[k]);
    assert(body(set, structure) is Some);
    lemma_body_extends(set, t.take(n), structure);
}

/// The fields of constructors that have been laid out are the same in both runs.
proof fn lemma_field_counts_same<'ctx>(
    t: Trace<'ctx>,
    u: Trace<'ctx>,
    n: int,
    constructors: Seq<Member<'ctx>>,
)
    requires
        same_calls(t, u, n),
        forall|j: int|
            0 <= j < constructors.len() ==> laid_out(t.take(n), #[trigger] constructors[j]),
    ensures
        field_counts(t, constructors) == field_counts(u, constructors),
        forall|j: int|
            0 <= j < constructors.len() ==> fields_of(
                t,
                (#[trigger] constructors[j]).llvm_struct_type,
            ) == fields_of(u, constructors[j].llvm_struct_type),
{
    lemma_same_prefix(t, u, n);
    assert forall|j: int| 0 <= j < constructors.len() implies fields_of(
        t,
        (#[trigger] constructors[j]).llvm_struct_type,
    ) == fields_of(u, constructors[j].llvm_struct_type) by {
        lemma_body_extends(t.take(n), t, constructors[j].llvm_struct_type);
        lemma_body_extends(t.take(n), u, constructors[j].llvm_struct_type);
    }
    assert(field_counts(t, constructors) =~= field_counts(u, constructors));
}

/// The fields of a constructor are filled by the same calls.
proof fn lemma_filled_same<'ctx>(
    t: Trace<'ctx>,
    u: Trace<'ctx>,
    at: int,
    function: FunctionValue<'ctx>,
    object: PointerValue<'ctx>,
    fields: Seq<Ty<'ctx>>,
)
    requires
        same_answers(t, u),
        same_calls(t, u, at),
        constructor_filled_at(t, at, function, object, fields, fields.len() as int),
        constructor_filled_at(u, at, function, object, fields, fields.len() as int),
    ensures
        same_calls(t, u, at + filling_calls(fields.len(), fields.len() as int)),
{
    let n = fields.len() as int;
    if n > 1 {
        let captures = (n - 2) as nat;
        let last = at + 6 * (n - 2);
        assert forall|k: int| at <= k < last implies t[k] == u[k] by {
            let i = (k - at) / 6 + 1;
            assert(1 <= i < n - 1);
            let start = at + 6 * (i - 1);
            assert(capture_stored_at(
                t,
                at + 6 * (i - 1),
                function,
                captures,
                object,
                i,
                fields[i],
            ));
            assert(capture_stored_at(
                u,
                at + 6 * (i - 1),
                function,
                captures,
                object,
                i,
                fields[i],
            ));
            assert(t[start].answer == u[start].answer);
            assert(t[start + 1].answer == u[start + 1].answer);
            assert(t[start + 2].answer == u[start + 2].answer);
            assert(t[start + 3].answer == u[start + 3].answer);
            assert(t[start + 4].answer == u[start + 4].answer);
            assert(start <= k < start + 6);
        }
        assert forall|k: int| last <= k < last + 3 implies t[k] == u[k] by {
            assert(t[last].answer == u[last].answer);
            assert(t[last + 1].answer == u[last + 1].answer);
            assert(t[k].answer == u[k].answer);
        }
    }
}

/// The calls for a constructor depend on the constructor, on what has been
/// compiled before and on the answers alone.
proof fn lemma_constructor_code_is_determined<'ctx>(
    declarations: Seq<Entry<'ctx>>,
    t: Trace<'ctx>,
    u: Trace<'ctx>,
    at: int,
    inductive_name: Seq<char>,
    index: int,
    constructor: Constructor,
)
    requires
        same_answers(t, u),
        same_calls(t, u, at),
        constructors_laid_out(t.take(at), declarations),
        constructor_at(declarations, t, at, inductive_name, index, constructor) is Some,
        constructor_at(declarations, u, at, inductive_name, index, constructor) is Some,
    ensures
        constructor_at(declarations, t, at, inductive_name, index, constructor) == constructor_at(
            declarations,
            u,
            at,
            inductive_name,
            index,
            constructor,
        ),
        ({
            let after = constructor_at(
                declarations,
                t,
                at,
                inductive_name,
                index,
                constructor,
            )->0;
            at <= after.end && same_calls(t, u, after.end) && constructors_laid_out(
                t.take(after.end),
                after.declarations,
            )
        }),
{
    let after = constructor_at(declarations, t, at, inductive_name, index, constructor)->0;
    let structure = struct_at(t, at);
    let fields = constructor_fields(declarations, constructor.typ);
    let filled = at + 8;
    let ended = filled + filling_calls(fields.len(), fields.len() as int);
    assert forall|k: int| at <= k < filled implies t[k] == u[k] by {
        assert(t[at].answer == u[at].answer);
        assert(t[at + 2].answer == u[at + 2].answer);
        assert(t[at + 3].answer == u[at + 3].answer);
        assert(t[at + 5].answer == u[at + 5].answer);
        assert(t[at + 6].answer == u[at + 6].answer);
        assert(t[k].answer == u[k].answer);
    }
    assert(same_calls(t, u, filled));
    lemma_filled_same(t, u, filled, function_at(t, at + 2), pointer_at(t, at + 5), fields);
    assert(t[ended] == u[ended]) by {
        assert(t[ended].answer == u[ended].answer);
    }
    assert(after.end == ended + 1);
    lemma_laid_out_later(t, at, after.end, declarations);
    lemma_body_set(t, at + 1, after.end, structure, fields);
    lemma_find_inductive(declarations, inductive_name);
    let i = find_inductive(declarations, inductive_name)->0;
    assert forall|k: int, j: int|
        0 <= k < after.declarations.len() && after.declarations[k] is Inductive && 0 <= j
            < after.declarations[k]->Inductive_1.constructors.len() implies laid_out(
        t.take(after.end),
        #[trigger] after.declarations[k]->Inductive_1.constructors[j],
    ) by {
        if k != i || j < declarations[i]->Inductive_1.constructors.len() {
            assert(laid_out(
                t.take(after.end),
                declarations[k]->Inductive_1.constructors[j],
            ));
        }
    }
}

proof fn lemma_constructors_code_is_determined<'ctx>(
    declarations: Seq<Entry<'ctx>>,
    t: Trace<'ctx>,
    u: Trace<'ctx>,
    at: int,
    inductive_name: Seq<char>,
    constructors: Seq<Constructor>,
    n: nat,
)
    requires
        same_answers(t, u),
        same_calls(t, u, at),
        constructors_laid_out(t.take(at), declarations),
        n <= constructors.len(),
        constructors_at(declarations, t, at, inductive_name, constructors, n) is Some,
        constructors_at(declarations, u, at, inductive_name, constructors, n) is Some,
    ensures
        constructors_at(declarations, t, at, inductive_name, constructors, n) == constructors_at(
            declarations,
            u,
            at,
            inductive_name,
            constructors,
            n,
        ),
        ({
            let after = constructors_at(
                declarations,
                t,
                at,
                inductive_name,
                constructors,
                n,
            )->0;
            at <= after.end && same_calls(t, u, after.end) && constructors_laid_out(
                t.take(after.end),
                after.declarations,
            )
        }),
    decreases n,
{
    if n > 0 {
        lemma_constructors_code_is_determined(
            declarations,
            t,
            u,
            at,
            inductive_name,
            constructors,
            (n - 1) as nat,
        );
        let before = constructors_at(
            declarations,
            t,
            at,
            inductive_name,
            constructors,
            (n - 1) as nat,
        )->0;
        lemma_constructor_code_is_determined(
            before.declarations,
            t,
            u,
            before.end,
            inductive_name,
            n - 1,
            constructors[n - 1],
        );
    }
}

/// The calls for an inductive type depend on the type, on what has been compiled
/// before and on the answers alone.
pub proof fn law_inductive_code_is_determined<'ctx>(
    declarations: Seq<Entry<'ctx>>,
    t: Trace<'ctx>,
    u: Trace<'ctx>,
    at: int,
    inductive: Inductive,
)
    requires
        same_answers(t, u),
        same_calls(t, u, at),
        constructors_laid_out(t.take(at), declarations),
        inductive_at(declarations, t, at, inductive) is Some,
        inductive_at(declarations, u, at, inductive) is Some,
    ensures
        inductive_at(declarations, t, at, inductive) == inductive_at(
            declarations,
            u,
            at,
            inductive,
        ),
        ({
            let after = inductive_at(declarations, t, at, inductive)->0;
            at <= after.end && same_calls(t, u, after.end) && constructors_laid_out(
                t.take(after.end),
                after.declarations,
            )
        }),
{
    let name = inductive.name@;
    let structure = struct_at(t, at);
    let pushed = declarations.push(bare(name, structure));
    assert(t[at].answer == u[at].answer);
    assert(t[at] == u[at]);
    assert(same_calls(t, u, at + 1));
    lemma_laid_out_later(t, at, at + 1, declarations);
    assert forall|k: int, j: int|
        0 <= k < pushed.len() && pushed[k] is Inductive && 0 <= j
            < pushed[k]->Inductive_1.constructors.len() implies laid_out(
        t.take(at + 1),
        #[trigger] pushed[k]->Inductive_1.constructors[j],
    ) by {
        if k < declarations.len() {
            assert(laid_out(t.take(at + 1), declarations[k]->Inductive_1.constructors[j]));
        }
    }
    lemma_constructors_code_is_determined(
        pushed,
        t,
        u,
        at + 1,
        name,
        inductive.constructors@,
        inductive.constructors@.len(),
    );
    let declared = constructors_at(
        pushed,
        t,
        at + 1,
        name,
        inductive.constructors@,
        inductive.constructors@.len(),
    )->0;
    lemma_find_inductive(declared.declarations, name);
    let i = find_inductive(declared.declarations, name)->0;
    let constructors = declared.declarations[i]->Inductive_1.constructors;
    assert forall|j: int| 0 <= j < constructors.len() implies laid_out(
        t.take(declared.end),
        #[trigger] constructors[j],
    ) by {
        assert(declared.declarations[i]->Inductive_1.constructors[j] == constructors[j]);
    }
    lemma_field_counts_same(t, u, declared.end, constructors);
    if constructors.len() > 0 {
        law_largest(field_counts(t, constructors), constructors.len());
        let chosen = constructors[largest(field_counts(t, constructors), constructors.len())];
        assert(fields_of(t, chosen.llvm_struct_type) == fields_of(u, chosen.llvm_struct_type));
        assert(t[declared.end].answer == u[declared.end].answer);
        lemma_laid_out_later(t, declared.end, declared.end + 1, declared.declarations);
    }
}

/// The calls for the first `n` declarations of a program depend on these, on what
/// has been compiled before and on the answers alone.
pub proof fn law_declarations_code_is_determined<'ctx>(
    declarations: Seq<Entry<'ctx>>,
    t: Trace<'ctx>,
    u: Trace<'ctx>,
    at: int,
    main: FunctionValue<'ctx>,
    program: Seq<Declaration>,
    n: nat,
)
    requires
        same_answers(t, u),
        same_calls(t, u, at),
        constructors_laid_out(t.take(at), declarations),
        n <= program.len(),
        declarations_at(declarations, t, at, main, program, n) is Some,
        declarations_at(declarations, u, at, main, program, n) is Some,
    ensures
        declarations_at(declarations, t, at, main, program, n) == declarations_at(
            declarations,
            u,
            at,
            main,
            program,
            n,
        ),
        ({
            let after = declarations_at(declarations, t, at, main, program, n)->0;
            at <= after.end && same_calls(t, u, after.end) && constructors_laid_out(
                t.take(after.end),
                after.declarations,
            )
        }),
    decreases n,
{
    if n > 0 {
        law_declarations_code_is_determined(
            declarations,
            t,
            u,
            at,
            main,
            program,
            (n - 1) as nat,
        );
        let before = declarations_at(declarations, t, at, main, program, (n - 1) as nat)->0;
        let from = before.end;
        lemma_same_prefix(t, u, from);
        let block = last_block(t.take(from), main)->0;
        let function = parent(t.take(from), block)->0;
        assert(t[from].answer == u[from].answer);
        assert(t[from] == u[from]);
        assert(same_calls(t, u, from + 1));
        lemma_laid_out_later(t, from, from + 1, before.declarations);
        match program[n - 1] {
            Declaration::Constant(term) => {
                law_term_code_is_determined(
                    before.declarations,
                    t,
                    u,
                    from + 1,
                    term,
                    Seq::empty(),
                    Seq::empty(),
                    function,
                    block,
                );
                let compiled = term_at(
                    before.declarations,
                    t,
                    from + 1,
                    term,
                    Seq::empty(),
                    Seq::empty(),
                    function,
                    block,
                )->0;
                lemma_laid_out_later(t, from + 1, compiled.end, before.declarations);
                let after = with_constant(before.declarations, term, compiled.value);
                assert forall|k: int, j: int|
                    0 <= k < after.len() && after[k] is Inductive && 0 <= j
                        < after[k]->Inductive_1.constructors.len() implies laid_out(
                    t.take(compiled.end),
                    #[trigger] after[k]->Inductive_1.constructors[j],
                ) by {
                    assert(laid_out(
                        t.take(compiled.end),
                        before.declarations[k]->Inductive_1.constructors[j],
                    ));
                }
            },
            Declaration::Inductive(inductive) => {
                law_inductive_code_is_determined(
                    before.declarations,
                    t,
                    u,
                    from + 1,
                    inductive,
                );
            },
        }
    }
}

proof fn lemma_main_same<'ctx>(
    t: Trace<'ctx>,
    u: Trace<'ctx>,
    at: int,
    existing: Option<FunctionValue<'ctx>>,
)
    requires
        same_answers(t, u),
        same_calls(t, u, at),
        main_at(t, at, existing),
        main_at(u, at, existing),
    ensures
        same_calls(t, u, at + main_calls(existing)),
        main_function(t, at, existing) == main_function(u, at, existing),
{
    lemma_same_prefix(t, u, at);
    assert(t[at].answer == u[at].answer);
    if existing is None {
        assert(t[at + 1].answer == u[at + 1].answer);
        assert(t[at + 2].answer == u[at + 2].answer);
    }
    assert forall|k: int| at <= k < at + main_calls(existing) implies t[k] == u[k] by {}
}

proof fn lemma_main_returned_same<'ctx>(
    t: Trace<'ctx>,
    u: Trace<'ctx>,
    at: int,
    main: FunctionValue<'ctx>,
)
    requires
        same_answers(t, u),
        same_calls(t, u, at),
        main_returned_at(t, at, main),
        main_returned_at(u, at, main),
    ensures
        same_calls(t, u, at + 2),
{
    lemma_same_prefix(t, u, at);
    assert(t[at].answer == u[at].answer);
    assert(t[at + 1].answer == u[at + 1].answer);
}

/// The calls for a program depend on the program, on what has been compiled
/// before and on the answers alone.
pub proof fn law_program_code_is_determined<'ctx>(
    declarations: Seq<Entry<'ctx>>,
    t: Trace<'ctx>,
    u: Trace<'ctx>,
    at: int,
    existing: Option<FunctionValue<'ctx>>,
    hir: HIR,
)
    requires
        same_answers(t, u),
        same_calls(t, u, at),
        constructors_laid_out(t.take(at), declarations),
        program_at(declarations, t, at, existing, hir) is Some,
        program_at(declarations, u, at, existing, hir) is Some,
    ensures
        program_at(declarations, t, at, existing, hir) == program_at(
            declarations,
            u,
            at,
            existing,
            hir,
        ),
        same_calls(t, u, program_at(declarations, t, at, existing, hir)->0.end),
{
    let entered = at + main_calls(existing);
    lemma_main_same(t, u, at, existing);
    let main = main_function(t, at, existing);
    lemma_laid_out_later(t, at, entered, declarations);
    law_declarations_code_is_determined(
        declarations,
        t,
        u,
        entered,
        main,
        hir.declarations@,
        hir.declarations@.len(),
    );
    let end = declarations_at(
        declarations,
        t,
        entered,
        main,
        hir.declarations@,
        hir.declarations@.len(),
    )->0.end;
    lemma_main_returned_same(t, u, end, main);
}

/// LLVM writes down the text of a module, and comes to its verdict on it, by the
/// calls alone: those of two runs that make the same calls, and no other, agree.
pub proof fn law_same_calls_same_module<'ctx>(t: Trace<'ctx>, u: Trace<'ctx>)
    requires
        t.len() == u.len(),
        same_calls(t, u, t.len() as int),
    ensures
        printed(t) == printed(u),
        verification(t) == verification(u),
{
    assert(t =~= u);
}

} // verus!
