//! What the code of a lambda is for: a closure whose function finds the values of
//! its free variables again.
use inkwell::basic_block::BasicBlock;
use inkwell::values::{FunctionValue, PointerValue};
use vstd::prelude::*;

use crate::codegen::emission::{
    capture_loaded_at, capture_written_at, captured_values, captures_loaded_at, captures_stored_at,
    lambda_at, scope_with_captures, term_at, with_fixpoint, Emission,
};
use crate::codegen::environment::fixpoint::Recursion;
use crate::codegen::environment::global::Entry;
use crate::codegen::globals::shapes_of;
use crate::codegen::shape::{captured, free_in, Shape};
use crate::hir::ir::{DeBruijnIndex, Term};
use crate::laws::law_captured_are_the_free_variables;
use crate::laws::flow::{
    addresses, casts, field_holds, holds, is_added, is_appended, is_cast, is_cast_to, is_field,
    is_loaded, is_loaded_field, is_object, is_stored, keeps_to, law_code_keeps_to_itself,
    lemma_captures_loaded_flow, lemma_captures_stored_flow, lemma_closure_flow, lemma_keeps_join,
    lemma_lambda_opened, lemma_moves, lemma_object_is_left, lemma_place_is_left, lemma_same_place,
    lemma_stays, loads, places_differ, reserves, runs_on, stands, stays, stores,
};
use crate::laws::meaning::{is_closure_over, lemma_closure_holds};
use crate::llvm::session::{address_of, parameter_of, type_of};
use crate::llvm::trace::{
    block_at, function_at, generic_pointer, made, pointer_at, Answer, Operand, Request, Trace, Ty,
};

verus! {

/// The value is stored in a field of the captures, by the calls from `at` to
/// `left`; the function loads this field of the captures that it gets, by the calls
/// from `entered` to `from`, and stores what it loads in the place. Up to `end`,
/// neither the field nor the place holds anything else.
pub open spec fn is_carried<'ctx>(
    t: Trace<'ctx>,
    at: int,
    left: int,
    entered: int,
    from: int,
    end: int,
    captures: PointerValue<'ctx>,
    function: FunctionValue<'ctx>,
    value: PointerValue<'ctx>,
    place: PointerValue<'ctx>,
    field: int,
    stored: PointerValue<'ctx>,
    view: PointerValue<'ctx>,
    loaded: PointerValue<'ctx>,
) -> bool {
    &&& is_cast(t, at, left, value, stored)
    &&& field_holds(t, at, left, captures, field, Operand::Pointer(stored))
    &&& field_holds(t, at, end, captures, field, Operand::Pointer(stored))
    &&& is_cast_to(t, entered, from, parameter_of(function, 1), type_of(captures), view)
    &&& is_loaded_field(t, entered, from, view, field, loaded)
    &&& holds(t, entered, from, place, Operand::Pointer(loaded))
    &&& holds(t, at, end, place, Operand::Pointer(loaded))
}

/// What the variable is inside the function of a lambda: if it is free in the
/// lambda, a place that holds what it was where the lambda is; otherwise nothing
/// has changed.
pub open spec fn is_found_again<'ctx>(
    shapes: Seq<Shape>,
    t: Trace<'ctx>,
    at: int,
    left: int,
    entered: int,
    from: int,
    end: int,
    captures: PointerValue<'ctx>,
    function: FunctionValue<'ctx>,
    body: Term,
    scope: Seq<PointerValue<'ctx>>,
    inner_scope: Seq<PointerValue<'ctx>>,
    index: DeBruijnIndex,
) -> bool {
    let position = scope.len() - 1 - index;
    if free_in(shapes, body, (index + 1) as nat) {
        exists|
            field: int,
            stored: PointerValue<'ctx>,
            view: PointerValue<'ctx>,
            loaded: PointerValue<'ctx>,
        | #[trigger]
            is_carried(
                t,
                at,
                left,
                entered,
                from,
                end,
                captures,
                function,
                scope[position],
                inner_scope[position],
                field,
                stored,
                view,
                loaded,
            )
    } else {
        inner_scope[position] == scope[position]
    }
}

/// The fixpoints that are known inside the function: the lambda itself, if it has a
/// name of its own. It is closed if it has no free variable.
pub open spec fn knows_itself<'ctx>(
    shapes: Seq<Shape>,
    own: Option<Seq<char>>,
    body: Term,
    fixpoints: Seq<Recursion<'ctx>>,
    inner_fixpoints: Seq<Recursion<'ctx>>,
    function: FunctionValue<'ctx>,
) -> bool {
    match own {
        Some(name) => {
            &&& inner_fixpoints.len() == fixpoints.len() + 1
            &&& inner_fixpoints.drop_last() == fixpoints
            &&& inner_fixpoints.last().name == name
            &&& inner_fixpoints.last().llvm_function == address_of(function)
            &&& inner_fixpoints.last().closed <==> forall|index: DeBruijnIndex|
                !#[trigger] free_in(shapes, body, (index + 1) as nat)
        },
        None => inner_fixpoints == fixpoints,
    }
}

/// The calls from `at` to `result.end` make a closure over `function` and
/// `captures`. The code of the body goes into the function, from `from` to
/// `inner.end`; there the last variable is the function's argument, and the others
/// are found again. What the body gives is what the function returns, by call
/// `last`. Then the closure is made, where the lambda is.
pub open spec fn is_lambda<'ctx>(
    shapes: Seq<Shape>,
    t: Trace<'ctx>,
    at: int,
    left: int,
    entered: int,
    from: int,
    body: Term,
    scope: Seq<PointerValue<'ctx>>,
    inner_scope: Seq<PointerValue<'ctx>>,
    function: FunctionValue<'ctx>,
    entry: BasicBlock<'ctx>,
    captures: PointerValue<'ctx>,
    inner: Emission<'ctx>,
    returned: PointerValue<'ctx>,
    last: int,
    back: int,
    block: BasicBlock<'ctx>,
    result: Emission<'ctx>,
) -> bool {
    let end = result.end;
    &&& at <= left <= entered <= from <= inner.end <= last < back <= end <= t.len()
    &&& stays(t, at, left)
    &&& is_object(t, at, left, captures)
    &&& is_added(
        t,
        left,
        entered,
        Ty::Function(
            Box::new(generic_pointer()),
            seq![generic_pointer(), generic_pointer()],
        ),
        function,
    )
    &&& is_appended(t, left, entered, function, entry)
    &&& stands(t, entered, entry)
    &&& stays(t, entered, from)
    &&& inner_scope.len() == scope.len() + 1
    &&& inner_scope.last() == parameter_of(function, 0)
    &&& forall|index: DeBruijnIndex|
        index < scope.len() ==> #[trigger] is_found_again(
            shapes,
            t,
            at,
            left,
            entered,
            from,
            end,
            captures,
            function,
            body,
            scope,
            inner_scope,
            index,
        )
    &&& runs_on(t, at, from)
    &&& runs_on(t, inner.end, last)
    &&& stands(t, last, inner.block)
    &&& is_cast(t, inner.end, last, inner.value, returned)
    &&& t[last].request == (Request::Return { value: Operand::Pointer(returned) })
    &&& runs_on(t, last + 1, end)
    &&& stands(t, back, block)
    &&& stays(t, back, end)
    &&& is_closure_over(t, back, end, result.value, address_of(function), captures)
    &&& is_closure_over(t, at, end, result.value, address_of(function), captures)
    &&& result.block == block
}

/// Where a variable is once the captured values have been copied: where the last
/// copy was stored, if there is one.
proof fn lemma_copied_to<'ctx>(
    t: Trace<'ctx>,
    at: int,
    scope: Seq<PointerValue<'ctx>>,
    indexes: Seq<DeBruijnIndex>,
    n: nat,
    index: DeBruijnIndex,
) -> (i: int)
    requires
        n <= indexes.len(),
        forall|i: int| 0 <= i < n ==> #[trigger] indexes[i] < scope.len(),
        index < scope.len(),
    ensures
        scope_with_captures(t, at, scope, indexes, n).len() == scope.len(),
        if exists|j: int| 0 <= j < n && #[trigger] indexes[j] == index {
            &&& 0 <= i < n
            &&& indexes[i] == index
            &&& scope_with_captures(t, at, scope, indexes, n)[scope.len() - 1 - index]
                == pointer_at(t, at + 5 * i + 3)
        } else {
            scope_with_captures(t, at, scope, indexes, n)[scope.len() - 1 - index]
                == scope[scope.len() - 1 - index]
        },
    decreases n,
{
    if n == 0 {
        0
    } else {
        let before = lemma_copied_to(t, at, scope, indexes, (n - 1) as nat, index);
        assert(indexes[n - 1] < scope.len());
        if indexes[n - 1] == index {
            n - 1
        } else {
            if exists|j: int| 0 <= j < n && #[trigger] indexes[j] == index {
                let j = choose|j: int| 0 <= j < n && #[trigger] indexes[j] == index;
                assert(0 <= j < n - 1 && indexes[j] == index);
            }
            before
        }
    }
}

/// The field of the captures holds the value that was stored first, up to `hi`.
proof fn lemma_capture_held<'ctx>(
    t: Trace<'ctx>,
    at: int,
    hi: int,
    captures: PointerValue<'ctx>,
    values: Seq<PointerValue<'ctx>>,
    n: int,
    i: int,
)
    requires
        places_differ(t),
        0 <= at,
        at + 1 + 3 * n <= hi <= t.len(),
        t[at].request is Malloc,
        t[at].answer == Answer::Pointer(captures),
        0 <= i < n,
        captures_stored_at(t, at + 1, captures, values, n),
        keeps_to(t, at + 1 + 3 * n, hi, None),
    ensures
        is_cast(t, at, at + 1 + 3 * n, values[i], pointer_at(t, at + 3 * i + 2)),
        field_holds(
            t,
            at,
            hi,
            captures,
            i,
            Operand::Pointer(pointer_at(t, at + 3 * i + 2)),
        ),
{
    let left = at + 1 + 3 * n;
    let gep = at + 1 + 3 * i;
    let field = pointer_at(t, gep);
    let value = Operand::Pointer(pointer_at(t, gep + 1));
    lemma_captures_stored_flow(t, at, captures, values, n);
    assert(capture_written_at(t, gep, captures, values[i], i));
    assert(casts(t[gep + 1], values[i], pointer_at(t, gep + 1)));
    assert(addresses(t[gep], captures, i, field));
    assert(is_field(t, at, hi, captures, i, field));
    assert(stores(t[gep + 2], field, value));
    assert(is_stored(t, at, hi, field, value));
    assert forall|place: PointerValue<'ctx>, stored: Operand<'ctx>| #[trigger]
        is_field(t, at, hi, captures, i, place) && #[trigger] is_stored(
            t,
            at,
            hi,
            place,
            stored,
        ) implies stored == value by {
        let j = choose|j: int| at <= j < hi && addresses(#[trigger] t[j], captures, i, place);
        let k = choose|k: int| at <= k < hi && stores(#[trigger] t[k], place, stored);
        if k < left {
            let other = (k - at) / 3 - 1;
            assert(k > at);
            assert((k - at) % 3 == 0);
            assert(k == at + 3 * other + 3);
            assert(0 <= other < n);
            assert(capture_written_at(t, at + 1 + 3 * other, captures, values[other], other));
            lemma_same_place(t, j, k - 2);
        } else {
            lemma_object_is_left(t, left, hi, at, captures, j, i, place, k);
        }
    }
}

/// The place of a copied value holds what was loaded, among the calls from `lo` to
/// `hi`.
proof fn lemma_copy_held<'ctx>(
    t: Trace<'ctx>,
    lo: int,
    entered: int,
    hi: int,
    function: FunctionValue<'ctx>,
    captures: PointerValue<'ctx>,
    n: int,
    i: int,
)
    requires
        places_differ(t),
        0 <= lo <= entered,
        entered + 5 * n <= hi <= t.len(),
        0 <= i < n,
        captures_loaded_at(t, entered, function, captures, n),
        keeps_to(t, lo, entered, None),
        keeps_to(t, entered + 5 * n, hi, None),
    ensures
        holds(
            t,
            lo,
            hi,
            pointer_at(t, entered + 5 * i + 3),
            Operand::Pointer(pointer_at(t, entered + 5 * i + 2)),
        ),
{
    let from = entered + 5 * n;
    let start = entered + 5 * i;
    let place = pointer_at(t, start + 3);
    let value = Operand::Pointer(pointer_at(t, start + 2));
    lemma_captures_loaded_flow(t, entered, function, captures, n);
    assert(capture_loaded_at(t, start, function, captures, i));
    assert(reserves(t[start + 3], place));
    assert(stores(t[start + 4], place, value));
    assert forall|stored: Operand<'ctx>| #[trigger]
        is_stored(t, lo, hi, place, stored) implies stored == value by {
        let k = choose|k: int| lo <= k < hi && stores(#[trigger] t[k], place, stored);
        if k < entered {
            lemma_place_is_left(t, lo, entered, None, start + 3, place, k);
        } else if k < from {
            let other = (k - entered) / 5;
            assert(0 <= other < n);
            assert(k == entered + 5 * other + 4);
            assert(capture_loaded_at(t, entered + 5 * other, function, captures, other));
            lemma_same_place(t, k - 1, start + 3);
        } else {
            lemma_place_is_left(t, from, hi, None, start + 3, place, k);
        }
    }
}

pub proof fn lemma_copied_len<'ctx>(
    t: Trace<'ctx>,
    at: int,
    scope: Seq<PointerValue<'ctx>>,
    indexes: Seq<DeBruijnIndex>,
    n: nat,
)
    requires
        n <= indexes.len(),
        forall|i: int| 0 <= i < indexes.len() ==> #[trigger] indexes[i] < scope.len(),
    ensures
        scope_with_captures(t, at, scope, indexes, n).len() == scope.len(),
    decreases n,
{
    if n > 0 {
        lemma_copied_len(t, at, scope, indexes, (n - 1) as nat);
        assert(indexes[n - 1] < scope.len());
    }
}

/// A variable is found again inside the function.
proof fn lemma_found_again<'ctx>(
    shapes: Seq<Shape>,
    t: Trace<'ctx>,
    at: int,
    end: int,
    captures: PointerValue<'ctx>,
    lambda: FunctionValue<'ctx>,
    body: Term,
    scope: Seq<PointerValue<'ctx>>,
    index: DeBruijnIndex,
)
    requires
        places_differ(t),
        index < scope.len(),
        ({
            let indexes = captured(shapes, body, 0);
            let n = indexes.len() as int;
            let left = at + 1 + 3 * n;
            let entered = left + 3;
            &&& 0 <= at
            &&& entered + 5 * n <= end <= t.len()
            &&& t[at].request is Malloc
            &&& t[at].answer == Answer::Pointer(captures)
            &&& forall|i: int| 0 <= i < n ==> #[trigger] indexes[i] < scope.len()
            &&& captures_stored_at(t, at + 1, captures, captured_values(scope, indexes), n)
            &&& captures_loaded_at(t, entered, lambda, captures, n)
            &&& keeps_to(t, left, end, None)
            &&& keeps_to(t, at, entered, None)
            &&& keeps_to(t, entered + 5 * n, end, None)
        }),
    ensures
        ({
            let indexes = captured(shapes, body, 0);
            let n = indexes.len() as int;
            let left = at + 1 + 3 * n;
            let entered = left + 3;
            is_found_again(
                shapes,
                t,
                at,
                left,
                entered,
                entered + 5 * n,
                end,
                captures,
                lambda,
                body,
                scope,
                scope_with_captures(t, entered, scope, indexes, indexes.len()).push(
                    parameter_of(lambda, 0),
                ),
                index,
            )
        }),
{
    let indexes = captured(shapes, body, 0);
    let n = indexes.len() as int;
    let left = at + 1 + 3 * n;
    let entered = left + 3;
    let from = entered + 5 * n;
    let values = captured_values(scope, indexes);
    let copied = scope_with_captures(t, entered, scope, indexes, indexes.len());
    let inner_scope = copied.push(parameter_of(lambda, 0));
    let i = lemma_copied_to(t, entered, scope, indexes, indexes.len(), index);
    let position = scope.len() - 1 - index;
    law_captured_are_the_free_variables(shapes, body, 0);
    assert(indexes.contains(index) <==> free_in(shapes, body, (index + 1) as nat));
    assert(inner_scope[position] == copied[position]);
    if free_in(shapes, body, (index + 1) as nat) {
        assert(exists|j: int| 0 <= j < indexes.len() && #[trigger] indexes[j] == index);
        let start = entered + 5 * i;
        let stored = pointer_at(t, at + 3 * i + 2);
        let view = pointer_at(t, start);
        let loaded = pointer_at(t, start + 2);
        assert(values[i] == scope[position]);
        lemma_capture_held(t, at, left, captures, values, n, i);
        lemma_capture_held(t, at, end, captures, values, n, i);
        lemma_copy_held(t, entered, entered, from, lambda, captures, n, i);
        lemma_copy_held(t, at, entered, end, lambda, captures, n, i);
        assert(capture_loaded_at(t, start, lambda, captures, i));
        assert(casts(t[start], parameter_of(lambda, 1), view));
        assert(addresses(t[start + 1], view, i, pointer_at(t, start + 1)));
        assert(is_field(t, entered, from, view, i, pointer_at(t, start + 1)));
        assert(loads(t[start + 2], pointer_at(t, start + 1), loaded));
        assert(is_loaded(t, entered, from, pointer_at(t, start + 1), loaded));
        assert(is_carried(
            t,
            at,
            left,
            entered,
            from,
            end,
            captures,
            lambda,
            scope[position],
            inner_scope[position],
            i,
            stored,
            view,
            loaded,
        ));
    }
}

proof fn lemma_knows_itself<'ctx>(
    shapes: Seq<Shape>,
    own: Option<Seq<char>>,
    body: Term,
    fixpoints: Seq<Recursion<'ctx>>,
    lambda: FunctionValue<'ctx>,
)
    ensures
        knows_itself(
            shapes,
            own,
            body,
            fixpoints,
            with_fixpoint(fixpoints, own, captured(shapes, body, 0).len() == 0, lambda),
            lambda,
        ),
{
    let indexes = captured(shapes, body, 0);
    law_captured_are_the_free_variables(shapes, body, 0);
    if let Some(name) = own {
        let inner = with_fixpoint(fixpoints, own, indexes.len() == 0, lambda);
        assert(inner.drop_last() =~= fixpoints);
        if indexes.len() > 0 {
            assert(indexes.contains(indexes[0]));
            assert(free_in(shapes, body, (indexes[0] + 1) as nat));
        } else {
            assert forall|index: DeBruijnIndex| !#[trigger] free_in(
                shapes,
                body,
                (index + 1) as nat,
            ) by {
                assert(!indexes.contains(index));
            }
        }
    }
}

/// The term is a lambda with this body, or a fixpoint of one, which has a name of
/// its own.
pub open spec fn is_function(term: Term, own: Option<Seq<char>>, body: Term) -> bool {
    match term {
        Term::Lambda { body: inner, .. } => own is None && body == *inner,
        Term::Fixpoint { name, body: lambda, .. } => own == Some(name@) && (*lambda matches
            Term::Lambda { body: inner, .. } && body == *inner),
        _ => false,
    }
}

/// The value of a lambda is a closure over a function that gives what the body
/// gives, where the variable that the lambda binds is the function's argument, and
/// the free variables are what they were where the lambda is.
#[verifier::rlimit(40)]
pub proof fn law_lambda_is_a_closure<'ctx>(
    declarations: Seq<Entry<'ctx>>,
    t: Trace<'ctx>,
    at: int,
    term: Term,
    own: Option<Seq<char>>,
    body: Term,
    scope: Seq<PointerValue<'ctx>>,
    fixpoints: Seq<Recursion<'ctx>>,
    function: FunctionValue<'ctx>,
    block: BasicBlock<'ctx>,
)
    requires
        places_differ(t),
        is_function(term, own, body),
        term_at(declarations, t, at, term, scope, fixpoints, function, block) is Some,
    ensures
        ({
            let shapes = shapes_of(t.take(at), declarations);
            let result = term_at(
                declarations,
                t,
                at,
                term,
                scope,
                fixpoints,
                function,
                block,
            )->0;
            exists|
                left: int,
                entered: int,
                from: int,
                inner_scope: Seq<PointerValue<'ctx>>,
                inner_fixpoints: Seq<Recursion<'ctx>>,
                lambda: FunctionValue<'ctx>,
                entry: BasicBlock<'ctx>,
                captures: PointerValue<'ctx>,
                inner: Emission<'ctx>,
                returned: PointerValue<'ctx>,
                last: int,
                back: int,
            |
                knows_itself(shapes, own, body, fixpoints, inner_fixpoints, lambda)
                    && #[trigger] term_at(
                    declarations,
                    t,
                    from,
                    body,
                    inner_scope,
                    inner_fixpoints,
                    lambda,
                    entry,
                ) == Some(inner) && #[trigger] is_lambda(
                    shapes,
                    t,
                    at,
                    left,
                    entered,
                    from,
                    body,
                    scope,
                    inner_scope,
                    lambda,
                    entry,
                    captures,
                    inner,
                    returned,
                    last,
                    back,
                    block,
                    result,
                )
        }),
{
    let shapes = shapes_of(t.take(at), declarations);
    let result = term_at(declarations, t, at, term, scope, fixpoints, function, block)->0;
    assert(lambda_at(declarations, t, at, body, own, scope, fixpoints, block) == Some(result));
    let indexes = captured(shapes, body, 0);
    let n = indexes.len() as int;
    let captures = pointer_at(t, at);
    let left = at + 1 + 3 * n;
    let lambda = function_at(t, left);
    let entered = left + 3;
    let from = entered + 5 * n;
    let entry = block_at(t, left + 1);
    let copied = scope_with_captures(t, entered, scope, indexes, indexes.len());
    let inner_scope = copied.push(parameter_of(lambda, 0));
    let inner_fixpoints = with_fixpoint(fixpoints, own, n == 0, lambda);
    let inner = term_at(
        declarations,
        t,
        from,
        body,
        inner_scope,
        inner_fixpoints,
        lambda,
        entry,
    )->0;
    let last = inner.end + 1;
    let back = inner.end + 3;
    let end = result.end;
    let values = captured_values(scope, indexes);
    let returned = pointer_at(t, inner.end);
    law_captured_are_the_free_variables(shapes, body, 0);
    lemma_captures_stored_flow(t, at, captures, values, n);
    lemma_lambda_opened(t, left, captures, n, generic_pointer(), "lambda"@);
    lemma_captures_loaded_flow(t, entered, lambda, captures, n);
    lemma_moves(t, left + 2, entry);
    law_code_keeps_to_itself(
        declarations,
        t,
        from,
        body,
        inner_scope,
        inner_fixpoints,
        lambda,
        entry,
    );
    lemma_stays(t, inner.end, last);
    lemma_moves(t, inner.end + 2, block);
    lemma_closure_flow(t, back, address_of(lambda), captures);
    lemma_keeps_join(t, left, from, inner.end, None);
    lemma_keeps_join(t, left, inner.end, back, None);
    lemma_keeps_join(t, at, left, back, None);
    lemma_keeps_join(t, left, back, end, None);
    lemma_keeps_join(t, from, inner.end, back, None);
    lemma_keeps_join(t, from, back, end, None);
    lemma_keeps_join(t, at, left, entered, None);
    lemma_closure_holds(t, at, back, end, address_of(lambda), captures);
    lemma_closure_holds(t, back, back, end, address_of(lambda), captures);
    lemma_copied_len(t, entered, scope, indexes, indexes.len());
    assert forall|index: DeBruijnIndex| index < scope.len() implies #[trigger] is_found_again(
        shapes,
        t,
        at,
        left,
        entered,
        from,
        end,
        captures,
        lambda,
        body,
        scope,
        inner_scope,
        index,
    ) by {
        lemma_found_again(shapes, t, at, end, captures, lambda, body, scope, index);
    }
    lemma_knows_itself(shapes, own, body, fixpoints, lambda);
    assert(is_object(t, at, left, captures));
    assert(t[left].answer == Answer::Function(lambda));
    assert(t[left + 1].answer == Answer::Block(entry));
    assert(casts(t[inner.end], inner.value, returned));
    assert(is_lambda(
        shapes,
        t,
        at,
        left,
        entered,
        from,
        body,
        scope,
        inner_scope,
        lambda,
        entry,
        captures,
        inner,
        returned,
        last,
        back,
        block,
        result,
    ));
}

} // verus!
