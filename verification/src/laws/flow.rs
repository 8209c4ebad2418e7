//! What the requests of a run say of where values come from and where they go.
//!
//! Nothing here knows of terms: a value is a cast of another, is loaded from a
//! place, or is stored in one, because some call says so.
use inkwell::basic_block::BasicBlock;
use inkwell::values::{FunctionValue, PointerValue};
use vstd::prelude::*;

use crate::codegen::emission::{
    capture_loaded_at, capture_written_at, captured_values, captures_loaded_at, captures_stored_at,
    case_at, cases_at, closure_at, closure_calls, curried_function_at, empty_closure_at,
    field_loaded_at, fields_loaded_at, lambda_at, loaded_fields, scope_with_captures, term_at,
    with_fixpoint,
};
use crate::codegen::environment::fixpoint::{find_fixpoint, Recursion};
use crate::codegen::environment::global::{find_inductive, Entry, Member};
use crate::codegen::globals::{fields_of, shapes_of};
use crate::codegen::shape::{bound_by_branch, captured};
use crate::hir::ir::Term;
use crate::llvm::session::{address_of, parameter_of};
use crate::llvm::trace::{
    block_at, function_at, generic_pointer, made, pointer_at, position, Answer, Call, Operand,
    Request, Trace, Ty,
};

verus! {

/// The call stores the value in the place.
pub open spec fn stores<'ctx>(
    call: Call<'ctx>,
    place: PointerValue<'ctx>,
    value: Operand<'ctx>,
) -> bool {
    call.request == (Request::Store { pointer: place, value })
}

/// The call makes an object of this type.
pub open spec fn allocates<'ctx>(
    call: Call<'ctx>,
    ty: Ty<'ctx>,
    object: PointerValue<'ctx>,
) -> bool {
    call.answer == Answer::Pointer(object) && (call.request matches Request::Malloc { ty: of, .. }
        && of == ty)
}

/// The call makes a place on the stack.
pub open spec fn reserves<'ctx>(call: Call<'ctx>, place: PointerValue<'ctx>) -> bool {
    call.answer == Answer::Pointer(place) && call.request is Alloca
}

/// The call gives the place of a field of an object.
pub open spec fn addresses<'ctx>(
    call: Call<'ctx>,
    object: PointerValue<'ctx>,
    index: int,
    place: PointerValue<'ctx>,
) -> bool {
    call.answer == Answer::Pointer(place) && (call.request matches Request::StructGep {
        pointer,
        index: field,
        ..
    } && pointer == object && field == index)
}

/// The call loads the pointer from the place.
pub open spec fn loads<'ctx>(
    call: Call<'ctx>,
    place: PointerValue<'ctx>,
    pointer: PointerValue<'ctx>,
) -> bool {
    call.answer == Answer::Pointer(pointer) && (call.request matches Request::Load {
        pointer: from,
        ..
    } && from == place)
}

/// The call gives the pointer with another type.
pub open spec fn casts<'ctx>(
    call: Call<'ctx>,
    value: PointerValue<'ctx>,
    pointer: PointerValue<'ctx>,
) -> bool {
    call.answer == Answer::Pointer(pointer) && (call.request matches Request::Bitcast {
        value: from,
        ..
    } && from == value)
}

/// One of the calls from `lo` to `hi` makes the object.
pub open spec fn is_object<'ctx>(
    t: Trace<'ctx>,
    lo: int,
    hi: int,
    object: PointerValue<'ctx>,
) -> bool {
    exists|k: int|
        lo <= k < hi && (#[trigger] t[k]).request is Malloc && t[k].answer == Answer::Pointer(
            object,
        )
}

/// One of the calls from `lo` to `hi` stores the value in the place.
pub open spec fn is_stored<'ctx>(
    t: Trace<'ctx>,
    lo: int,
    hi: int,
    place: PointerValue<'ctx>,
    value: Operand<'ctx>,
) -> bool {
    exists|k: int| lo <= k < hi && stores(#[trigger] t[k], place, value)
}

/// One of the calls from `lo` to `hi` gives the place of the field.
pub open spec fn is_field<'ctx>(
    t: Trace<'ctx>,
    lo: int,
    hi: int,
    object: PointerValue<'ctx>,
    index: int,
    place: PointerValue<'ctx>,
) -> bool {
    exists|k: int| lo <= k < hi && addresses(#[trigger] t[k], object, index, place)
}

/// One of the calls from `lo` to `hi` loads the pointer from the place.
pub open spec fn is_loaded<'ctx>(
    t: Trace<'ctx>,
    lo: int,
    hi: int,
    place: PointerValue<'ctx>,
    pointer: PointerValue<'ctx>,
) -> bool {
    exists|k: int| lo <= k < hi && loads(#[trigger] t[k], place, pointer)
}

/// One of the calls from `lo` to `hi` casts the value to the pointer.
pub open spec fn is_cast<'ctx>(
    t: Trace<'ctx>,
    lo: int,
    hi: int,
    value: PointerValue<'ctx>,
    pointer: PointerValue<'ctx>,
) -> bool {
    exists|k: int| lo <= k < hi && casts(#[trigger] t[k], value, pointer)
}

/// One of the calls from `lo` to `hi` casts the value to the pointer, which has this
/// type.
pub open spec fn is_cast_to<'ctx>(
    t: Trace<'ctx>,
    lo: int,
    hi: int,
    value: PointerValue<'ctx>,
    ty: Ty<'ctx>,
    pointer: PointerValue<'ctx>,
) -> bool {
    exists|k: int|
        lo <= k < hi && casts(#[trigger] t[k], value, pointer) && t[k].request->Bitcast_ty == ty
}

/// One of the calls from `lo` to `hi` adds the function, with this signature.
pub open spec fn is_added<'ctx>(
    t: Trace<'ctx>,
    lo: int,
    hi: int,
    signature: Ty<'ctx>,
    function: FunctionValue<'ctx>,
) -> bool {
    exists|k: int|
        lo <= k < hi && (#[trigger] t[k]).answer == Answer::Function(function) && (t[k].request
            matches Request::AddFunction { signature: given, .. } && given == signature)
}

/// One of the calls from `lo` to `hi` adds the function, with this name and this
/// signature.
pub open spec fn is_added_as<'ctx>(
    t: Trace<'ctx>,
    lo: int,
    hi: int,
    name: Seq<char>,
    signature: Ty<'ctx>,
    function: FunctionValue<'ctx>,
) -> bool {
    exists|k: int|
        lo <= k < hi && (#[trigger] t[k]).answer == Answer::Function(function) && (t[k].request
            matches Request::AddFunction { name: given, signature: typed, .. } && given == name
            && typed == signature)
}

/// One of the calls from `lo` to `hi` appends the block to the function.
pub open spec fn is_appended<'ctx>(
    t: Trace<'ctx>,
    lo: int,
    hi: int,
    function: FunctionValue<'ctx>,
    block: BasicBlock<'ctx>,
) -> bool {
    exists|k: int|
        lo <= k < hi && (#[trigger] t[k]).answer == Answer::Block(block) && (t[k].request matches
            Request::AppendBlock { function: to, .. } && to == function)
}

/// The pointer is what the calls from `lo` to `hi` load from the field.
pub open spec fn is_loaded_field<'ctx>(
    t: Trace<'ctx>,
    lo: int,
    hi: int,
    object: PointerValue<'ctx>,
    index: int,
    pointer: PointerValue<'ctx>,
) -> bool {
    exists|place: PointerValue<'ctx>| #[trigger]
        is_field(t, lo, hi, object, index, place) && is_loaded(t, lo, hi, place, pointer)
}

/// The calls from `lo` to `hi` store the value in the place, and no other.
pub open spec fn holds<'ctx>(
    t: Trace<'ctx>,
    lo: int,
    hi: int,
    place: PointerValue<'ctx>,
    value: Operand<'ctx>,
) -> bool {
    &&& is_stored(t, lo, hi, place, value)
    &&& forall|stored: Operand<'ctx>| #[trigger]
        is_stored(t, lo, hi, place, stored) ==> stored == value
}

/// The calls from `lo` to `hi` store the value in the field, and no other.
pub open spec fn field_holds<'ctx>(
    t: Trace<'ctx>,
    lo: int,
    hi: int,
    object: PointerValue<'ctx>,
    index: int,
    value: Operand<'ctx>,
) -> bool {
    &&& exists|place: PointerValue<'ctx>| #[trigger]
        is_field(t, lo, hi, object, index, place) && is_stored(t, lo, hi, place, value)
    &&& forall|place: PointerValue<'ctx>, stored: Operand<'ctx>| #[trigger]
        is_field(t, lo, hi, object, index, place) && #[trigger] is_stored(
            t,
            lo,
            hi,
            place,
            stored,
        ) ==> stored == value
}

/// The call makes an object or a place.
pub open spec fn makes_place(call: Call<'_>) -> bool {
    call.request is Malloc || call.request is Alloca || call.request is StructGep
}

/// LLVM has a handle of its own for each object and each place.
pub open spec fn places_differ<'ctx>(t: Trace<'ctx>) -> bool {
    forall|i: int, j: int|
        0 <= i < j < t.len() && #[trigger] makes_place(t[i]) && #[trigger] makes_place(t[j])
            ==> t[i].answer != t[j].answer
}

/// Code goes into the block when call `k` is made.
pub open spec fn stands<'ctx>(t: Trace<'ctx>, k: int, block: BasicBlock<'ctx>) -> bool {
    position(t.take(k)) == Some(block)
}

/// The calls from `lo` to `hi` do not move to another block.
pub open spec fn stays<'ctx>(t: Trace<'ctx>, lo: int, hi: int) -> bool {
    forall|k: int| lo <= k < hi ==> !((#[trigger] t[k]).request is PositionAtEnd)
}

/// The call makes an instruction after which another one than the next may come.
pub open spec fn leaves(call: Call<'_>) -> bool {
    call.request is Return || call.request is Branch || call.request is Switch || call.request
        is Unreachable || call.request is Call
}

/// The code that the calls from `lo` to `hi` make runs on to what comes next.
pub open spec fn runs_on<'ctx>(t: Trace<'ctx>, lo: int, hi: int) -> bool {
    forall|k: int| lo <= k < hi ==> !leaves(#[trigger] t[k])
}

/// The place is on the stack, or in an object, that the calls from `lo` to `hi`
/// make.
pub open spec fn own_place<'ctx>(
    t: Trace<'ctx>,
    lo: int,
    hi: int,
    place: PointerValue<'ctx>,
) -> bool {
    ||| exists|k: int| lo <= k < hi && reserves(#[trigger] t[k], place)
    ||| exists|k: int|
        lo <= k < hi && (#[trigger] t[k]).request is StructGep && t[k].answer == Answer::Pointer(
            place,
        ) && is_object(t, lo, hi, t[k].request->StructGep_pointer)
}

/// The calls from `lo` to `hi` store only in places that they make themselves, or
/// in `result`.
pub open spec fn keeps_to<'ctx>(
    t: Trace<'ctx>,
    lo: int,
    hi: int,
    result: Option<PointerValue<'ctx>>,
) -> bool {
    forall|k: int|
        lo <= k < hi && (#[trigger] t[k]).request is Store ==> own_place(
            t,
            lo,
            hi,
            t[k].request->Store_pointer,
        ) || Some(t[k].request->Store_pointer) == result
}

pub proof fn lemma_same_place<'ctx>(t: Trace<'ctx>, i: int, j: int)
    requires
        places_differ(t),
        0 <= i < t.len(),
        0 <= j < t.len(),
        makes_place(t[i]),
        makes_place(t[j]),
        t[i].answer == t[j].answer,
    ensures
        i == j,
{
}

proof fn lemma_own_widen<'ctx>(
    t: Trace<'ctx>,
    a: int,
    b: int,
    lo: int,
    hi: int,
    place: PointerValue<'ctx>,
)
    requires
        lo <= a,
        b <= hi,
        own_place(t, a, b, place),
    ensures
        own_place(t, lo, hi, place),
{
    if exists|k: int| a <= k < b && reserves(#[trigger] t[k], place) {
        let k = choose|k: int| a <= k < b && reserves(#[trigger] t[k], place);
        assert(lo <= k < hi && reserves(t[k], place));
    } else {
        let k = choose|k: int|
            a <= k < b && (#[trigger] t[k]).request is StructGep && t[k].answer == Answer::Pointer(
                place,
            ) && is_object(t, a, b, t[k].request->StructGep_pointer);
        let object = t[k].request->StructGep_pointer;
        let m = choose|m: int|
            a <= m < b && (#[trigger] t[m]).request is Malloc && t[m].answer == Answer::Pointer(
                object,
            );
        assert(lo <= m < hi && t[m].request is Malloc);
        assert(is_object(t, lo, hi, object));
        assert(lo <= k < hi && t[k].request is StructGep);
    }
}

/// Calls one after the other store where each of them does.
pub proof fn lemma_keeps_join<'ctx>(
    t: Trace<'ctx>,
    a: int,
    b: int,
    c: int,
    result: Option<PointerValue<'ctx>>,
)
    requires
        a <= b <= c,
        keeps_to(t, a, b, result),
        keeps_to(t, b, c, result),
    ensures
        keeps_to(t, a, c, result),
{
    assert forall|k: int| a <= k < c && (#[trigger] t[k]).request is Store implies own_place(
        t,
        a,
        c,
        t[k].request->Store_pointer,
    ) || Some(t[k].request->Store_pointer) == result by {
        let place = t[k].request->Store_pointer;
        if k < b {
            if own_place(t, a, b, place) {
                lemma_own_widen(t, a, b, a, c, place);
            }
        } else {
            if own_place(t, b, c, place) {
                lemma_own_widen(t, b, c, a, c, place);
            }
        }
    }
}

/// Where the code stands is kept by calls that do not move.
pub proof fn lemma_stays<'ctx>(t: Trace<'ctx>, lo: int, hi: int)
    requires
        0 <= lo <= hi <= t.len(),
        stays(t, lo, hi),
    ensures
        position(t.take(hi)) == position(t.take(lo)),
    decreases hi - lo,
{
    if lo < hi {
        lemma_stays(t, lo, hi - 1);
        assert(t.take(hi).drop_last() =~= t.take(hi - 1));
        assert(t.take(hi).last() == t[hi - 1]);
    }
}

/// Where the code stands after a move.
pub proof fn lemma_moves<'ctx>(t: Trace<'ctx>, k: int, block: BasicBlock<'ctx>)
    requires
        made(t, k, Request::PositionAtEnd { block }),
    ensures
        stands(t, k + 1, block),
{
    assert(t.take(k + 1).last() == t[k]);
}

/// Nothing is stored in a place on the stack by calls that neither make it nor get
/// it as `result`.
pub proof fn lemma_place_is_left<'ctx>(
    t: Trace<'ctx>,
    lo: int,
    hi: int,
    result: Option<PointerValue<'ctx>>,
    made_at: int,
    place: PointerValue<'ctx>,
    k: int,
)
    requires
        places_differ(t),
        keeps_to(t, lo, hi, result),
        0 <= lo,
        hi <= t.len(),
        0 <= made_at < t.len(),
        !(lo <= made_at < hi),
        reserves(t[made_at], place),
        result != Some(place),
        lo <= k < hi,
    ensures
        t[k].request is Store ==> t[k].request->Store_pointer != place,
{
    if t[k].request is Store && t[k].request->Store_pointer == place {
        assert(own_place(t, lo, hi, place));
        if exists|j: int| lo <= j < hi && reserves(#[trigger] t[j], place) {
            let j = choose|j: int| lo <= j < hi && reserves(#[trigger] t[j], place);
            lemma_same_place(t, j, made_at);
        } else {
            let j = choose|j: int|
                lo <= j < hi && (#[trigger] t[j]).request is StructGep && t[j].answer
                    == Answer::Pointer(place) && is_object(
                    t,
                    lo,
                    hi,
                    t[j].request->StructGep_pointer,
                );
            lemma_same_place(t, j, made_at);
        }
    }
}

/// Nothing is stored in the fields of an object by calls that do not make it.
pub proof fn lemma_object_is_left<'ctx>(
    t: Trace<'ctx>,
    lo: int,
    hi: int,
    made_at: int,
    object: PointerValue<'ctx>,
    addressed: int,
    index: int,
    place: PointerValue<'ctx>,
    k: int,
)
    requires
        places_differ(t),
        keeps_to(t, lo, hi, None),
        0 <= lo,
        hi <= t.len(),
        0 <= made_at < t.len(),
        !(lo <= made_at < hi),
        t[made_at].request is Malloc,
        t[made_at].answer == Answer::Pointer(object),
        0 <= addressed < t.len(),
        addresses(t[addressed], object, index, place),
        lo <= k < hi,
    ensures
        t[k].request is Store ==> t[k].request->Store_pointer != place,
{
    if t[k].request is Store && t[k].request->Store_pointer == place {
        assert(own_place(t, lo, hi, place));
        if exists|j: int| lo <= j < hi && reserves(#[trigger] t[j], place) {
            let j = choose|j: int| lo <= j < hi && reserves(#[trigger] t[j], place);
            lemma_same_place(t, j, addressed);
        } else {
            let j = choose|j: int|
                lo <= j < hi && (#[trigger] t[j]).request is StructGep && t[j].answer
                    == Answer::Pointer(place) && is_object(
                    t,
                    lo,
                    hi,
                    t[j].request->StructGep_pointer,
                );
            lemma_same_place(t, j, addressed);
            let m = choose|m: int|
                lo <= m < hi && (#[trigger] t[m]).request is Malloc && t[m].answer
                    == Answer::Pointer(object);
            lemma_same_place(t, m, made_at);
        }
    }
}

pub proof fn lemma_closure_flow<'ctx>(
    t: Trace<'ctx>,
    at: int,
    function: PointerValue<'ctx>,
    captures: PointerValue<'ctx>,
)
    requires
        closure_at(t, at, function, captures),
    ensures
        keeps_to(t, at, at + 5, None),
        stays(t, at, at + 5),
{
    assert(is_object(t, at, at + 5, pointer_at(t, at))) by {
        assert(t[at].request is Malloc);
    }
    assert(own_place(t, at, at + 5, pointer_at(t, at + 1))) by {
        assert(t[at + 1].request is StructGep);
    }
    assert(own_place(t, at, at + 5, pointer_at(t, at + 3))) by {
        assert(t[at + 3].request is StructGep);
    }
}

pub proof fn lemma_empty_closure_flow<'ctx>(
    t: Trace<'ctx>,
    at: int,
    function: PointerValue<'ctx>,
    name: Seq<char>,
)
    requires
        empty_closure_at(t, at, function, name),
    ensures
        keeps_to(t, at, at + 6, None),
        stays(t, at, at + 6),
{
    lemma_closure_flow(t, at + 1, function, pointer_at(t, at));
    lemma_keeps_join(t, at, at + 1, at + 6, None);
}

pub proof fn lemma_captures_stored_flow<'ctx>(
    t: Trace<'ctx>,
    at: int,
    captures: PointerValue<'ctx>,
    values: Seq<PointerValue<'ctx>>,
    n: int,
)
    requires
        0 <= at < t.len(),
        0 <= n,
        t[at].request is Malloc,
        t[at].answer == Answer::Pointer(captures),
        captures_stored_at(t, at + 1, captures, values, n),
    ensures
        at + 1 + 3 * n <= t.len(),
        keeps_to(t, at, at + 1 + 3 * n, None),
        stays(t, at, at + 1 + 3 * n),
        runs_on(t, at, at + 1 + 3 * n),
        forall|k: int|
            at <= k < at + 1 + 3 * n && (#[trigger] t[k]).request is Store ==> (k - at) % 3 == 0,
{
    let end = at + 1 + 3 * n;
    if n > 0 {
        assert(capture_written_at(t, at + 1 + 3 * (n - 1), captures, values[n - 1], n - 1));
    }
    assert(is_object(t, at, end, captures));
    assert forall|k: int| at <= k < end implies !((#[trigger] t[k]).request is PositionAtEnd)
        && !leaves(t[k]) && (t[k].request is Store ==> (k - at) % 3 == 0 && own_place(
        t,
        at,
        end,
        t[k].request->Store_pointer,
    )) by {
        if k > at {
            let i = (k - at - 1) / 3;
            assert(0 <= i < n);
            assert(capture_written_at(t, at + 1 + 3 * i, captures, values[i], i));
            assert(at + 1 + 3 * i <= k < at + 1 + 3 * i + 3);
            let gep = at + 1 + 3 * i;
            assert(t[gep].request is StructGep);
        }
    }
}

pub proof fn lemma_captures_loaded_flow<'ctx>(
    t: Trace<'ctx>,
    at: int,
    function: FunctionValue<'ctx>,
    captures: PointerValue<'ctx>,
    n: int,
)
    requires
        0 <= at <= t.len(),
        0 <= n,
        captures_loaded_at(t, at, function, captures, n),
    ensures
        at + 5 * n <= t.len(),
        keeps_to(t, at, at + 5 * n, None),
        stays(t, at, at + 5 * n),
        runs_on(t, at, at + 5 * n),
        forall|k: int|
            at <= k < at + 5 * n && (#[trigger] t[k]).request is Store ==> (k - at) % 5 == 4,
{
    let end = at + 5 * n;
    if n > 0 {
        assert(capture_loaded_at(t, at + 5 * (n - 1), function, captures, n - 1));
    }
    assert forall|k: int| at <= k < end implies !((#[trigger] t[k]).request is PositionAtEnd)
        && !leaves(t[k]) && (t[k].request is Store ==> (k - at) % 5 == 4 && own_place(
        t,
        at,
        end,
        t[k].request->Store_pointer,
    )) by {
        let i = (k - at) / 5;
        assert(0 <= i < n);
        assert(capture_loaded_at(t, at + 5 * i, function, captures, i));
        assert(at + 5 * i <= k < at + 5 * i + 5);
        let place = at + 5 * i + 3;
        assert(reserves(t[place], pointer_at(t, place)));
    }
}

pub proof fn lemma_fields_loaded_flow<'ctx>(
    t: Trace<'ctx>,
    at: int,
    pointer: PointerValue<'ctx>,
    n: int,
)
    requires
        0 <= at <= t.len(),
        0 <= n,
        fields_loaded_at(t, at, pointer, n),
    ensures
        at + 2 * n <= t.len(),
        stays(t, at, at + 2 * n),
        runs_on(t, at, at + 2 * n),
        forall|k: int|
            at <= k < at + 2 * n ==> !((#[trigger] t[k]).request is Store),
{
    if n > 0 {
        let last = n - 1;
        assert(field_loaded_at(t, at + 2 * last, pointer, last + 1));
    }
    assert forall|k: int| at <= k < at + 2 * n implies !((#[trigger] t[k]).request is Store)
        && !(t[k].request is PositionAtEnd) && !leaves(t[k]) by {
        let i = (k - at) / 2;
        assert(0 <= i < n);
        assert(field_loaded_at(t, at + 2 * i, pointer, i + 1));
        assert(k == at + 2 * i || k == at + 2 * i + 1);
    }
}

/// The code of a term stores only in places that it makes itself: it leaves alone
/// what was there before. When it is done, code goes on in the block that is said.
pub proof fn law_code_keeps_to_itself<'ctx>(
    declarations: Seq<Entry<'ctx>>,
    t: Trace<'ctx>,
    at: int,
    term: Term,
    scope: Seq<PointerValue<'ctx>>,
    fixpoints: Seq<Recursion<'ctx>>,
    function: FunctionValue<'ctx>,
    block: BasicBlock<'ctx>,
)
    requires
        0 <= at <= t.len(),
        term_at(declarations, t, at, term, scope, fixpoints, function, block) is Some,
    ensures
        ({
            let compiled = term_at(
                declarations,
                t,
                at,
                term,
                scope,
                fixpoints,
                function,
                block,
            )->0;
            &&& at <= compiled.end <= t.len()
            &&& keeps_to(t, at, compiled.end, None)
            &&& stands(t, at, block) ==> stands(t, compiled.end, compiled.block)
        }),
    decreases term, 0nat,
{
    match term {
        Term::Lambda { body, .. } => {
            lemma_lambda_flow(
                declarations,
                t,
                at,
                *body,
                None,
                scope,
                fixpoints,
                block,
            );
        },
        Term::Application { function: applied, argument } => {
            let closure = term_at(
                declarations,
                t,
                at,
                *applied,
                scope,
                fixpoints,
                function,
                block,
            )->0;
            let opened = closure.end + closure_calls(closure.value);
            let given = term_at(
                declarations,
                t,
                opened + 4,
                *argument,
                scope,
                fixpoints,
                function,
                closure.block,
            )->0;
            law_code_keeps_to_itself(
                declarations,
                t,
                at,
                *applied,
                scope,
                fixpoints,
                function,
                block,
            );
            assert forall|k: int| closure.end <= k < opened + 4 implies !((
            #[trigger] t[k]).request is Store) && !(t[k].request is PositionAtEnd) by {}
            lemma_stays(t, closure.end, opened + 4);
            law_code_keeps_to_itself(
                declarations,
                t,
                opened + 4,
                *argument,
                scope,
                fixpoints,
                function,
                closure.block,
            );
            lemma_stays(t, given.end, given.end + 2);
            lemma_keeps_join(t, at, closure.end, opened + 4, None);
            lemma_keeps_join(t, at, opened + 4, given.end, None);
            lemma_keeps_join(t, at, given.end, given.end + 2, None);
        },
        Term::Constant(name) => {
            if let Some(fixpoint) = find_fixpoint(fixpoints, name@) {
                lemma_empty_closure_flow(
                    t,
                    at,
                    fixpoint.llvm_function,
                    "temp_fixpoint_empty_captures_struct"@,
                );
                lemma_stays(t, at, at + 6);
            }
        },
        Term::Constructor(_, _) => {
            let compiled = term_at(
                declarations,
                t,
                at,
                term,
                scope,
                fixpoints,
                function,
                block,
            )->0;
            assert(exists|held: PointerValue<'ctx>, name: Seq<char>| #[trigger]
                empty_closure_at(t, at, held, name));
            let (held, name) = choose|held: PointerValue<'ctx>, name: Seq<char>| #[trigger]
                empty_closure_at(t, at, held, name);
            lemma_empty_closure_flow(t, at, held, name);
            lemma_stays(t, at, at + 6);
        },
        Term::Match { inductive_name, scrutinee, branches, .. } => {
            let inductive = declarations[find_inductive(
                declarations,
                inductive_name@,
            )->0]->Inductive_1;
            let matched = term_at(
                declarations,
                t,
                at,
                *scrutinee,
                scope,
                fixpoints,
                function,
                block,
            )->0;
            let opened = matched.end;
            let result = pointer_at(t, opened + 3);
            let after = block_at(t, opened + 4);
            let cases = cases_at(
                declarations,
                t,
                opened + 5,
                inductive.constructors,
                branches@,
                branches@.len(),
                scope,
                fixpoints,
                function,
                matched.value,
                result,
                after,
            )->0;
            let end = cases.end + 8;
            law_code_keeps_to_itself(
                declarations,
                t,
                at,
                *scrutinee,
                scope,
                fixpoints,
                function,
                block,
            );
            lemma_cases_flow(
                declarations,
                t,
                opened + 5,
                inductive.constructors,
                branches@,
                branches@.len(),
                scope,
                fixpoints,
                function,
                matched.value,
                result,
                after,
            );
            lemma_keeps_join(t, at, opened, opened + 5, Some(result));
            lemma_keeps_join(t, at, opened + 5, cases.end, Some(result));
            lemma_keeps_join(t, at, cases.end, end, Some(result));
            assert(own_place(t, at, end, result)) by {
                assert(reserves(t[opened + 3], result));
            }
            lemma_moves(t, cases.end + 7, after);
        },
        Term::Fixpoint { name, body, .. } => match *body {
            Term::Lambda { body: inner, .. } => {
                lemma_lambda_flow(
                    declarations,
                    t,
                    at,
                    *inner,
                    Some(name@),
                    scope,
                    fixpoints,
                    block,
                );
            },
            _ => {
                law_code_keeps_to_itself(
                    declarations,
                    t,
                    at,
                    *body,
                    scope,
                    fixpoints,
                    function,
                    block,
                );
            },
        },
        _ => {},
    }
}

/// The code of a lambda's function stands in its first block when it starts.
pub proof fn lemma_lambda_opened<'ctx>(
    t: Trace<'ctx>,
    opened: int,
    captures: PointerValue<'ctx>,
    n: int,
    result: Ty<'ctx>,
    name: Seq<char>,
)
    requires
        0 <= n,
        curried_function_at(t, opened, result, name),
        captures_loaded_at(t, opened + 3, function_at(t, opened), captures, n),
    ensures
        opened + 3 + 5 * n <= t.len(),
        keeps_to(t, opened, opened + 3 + 5 * n, None),
        stands(t, opened + 3 + 5 * n, block_at(t, opened + 1)),
{
    lemma_moves(t, opened + 2, block_at(t, opened + 1));
    lemma_captures_loaded_flow(t, opened + 3, function_at(t, opened), captures, n);
    lemma_stays(t, opened + 3, opened + 3 + 5 * n);
    lemma_keeps_join(t, opened, opened + 3, opened + 3 + 5 * n, None);
}

pub proof fn lemma_lambda_flow<'ctx>(
    declarations: Seq<Entry<'ctx>>,
    t: Trace<'ctx>,
    at: int,
    body: Term,
    own: Option<Seq<char>>,
    scope: Seq<PointerValue<'ctx>>,
    fixpoints: Seq<Recursion<'ctx>>,
    block: BasicBlock<'ctx>,
)
    requires
        lambda_at(declarations, t, at, body, own, scope, fixpoints, block) is Some,
    ensures
        ({
            let compiled = lambda_at(
                declarations,
                t,
                at,
                body,
                own,
                scope,
                fixpoints,
                block,
            )->0;
            &&& at <= compiled.end <= t.len()
            &&& keeps_to(t, at, compiled.end, None)
            &&& stands(t, compiled.end, compiled.block)
        }),
    decreases body, 1nat,
{
    let indexes = captured(shapes_of(t.take(at), declarations), body, 0);
    let n = indexes.len() as int;
    let captures = pointer_at(t, at);
    let opened = at + 1 + 3 * n;
    let lambda = function_at(t, opened);
    let from = opened + 3 + 5 * n;
    let inner_scope = scope_with_captures(t, opened + 3, scope, indexes, indexes.len());
    let inner = term_at(
        declarations,
        t,
        from,
        body,
        inner_scope.push(parameter_of(lambda, 0)),
        with_fixpoint(fixpoints, own, n == 0, lambda),
        lambda,
        block_at(t, opened + 1),
    )->0;
    lemma_captures_stored_flow(t, at, captures, captured_values(scope, indexes), n);
    lemma_lambda_opened(t, opened, captures, n, generic_pointer(), "lambda"@);
    law_code_keeps_to_itself(
        declarations,
        t,
        from,
        body,
        inner_scope.push(parameter_of(lambda, 0)),
        with_fixpoint(fixpoints, own, n == 0, lambda),
        lambda,
        block_at(t, opened + 1),
    );
    lemma_moves(t, inner.end + 2, block);
    lemma_closure_flow(t, inner.end + 3, address_of(lambda), captures);
    lemma_stays(t, inner.end + 3, inner.end + 8);
    lemma_keeps_join(t, at, opened, from, None);
    lemma_keeps_join(t, at, from, inner.end, None);
    lemma_keeps_join(t, at, inner.end, inner.end + 3, None);
    lemma_keeps_join(t, at, inner.end + 3, inner.end + 8, None);
}

pub proof fn lemma_case_flow<'ctx>(
    declarations: Seq<Entry<'ctx>>,
    t: Trace<'ctx>,
    at: int,
    constructor: Member<'ctx>,
    i: int,
    branch: Term,
    scope: Seq<PointerValue<'ctx>>,
    fixpoints: Seq<Recursion<'ctx>>,
    function: FunctionValue<'ctx>,
    scrutinee: PointerValue<'ctx>,
    result: PointerValue<'ctx>,
    after: BasicBlock<'ctx>,
)
    requires
        case_at(
            declarations,
            t,
            at,
            constructor,
            i,
            branch,
            scope,
            fixpoints,
            function,
            scrutinee,
            result,
            after,
        ) is Some,
    ensures
        ({
            let end = case_at(
                declarations,
                t,
                at,
                constructor,
                i,
                branch,
                scope,
                fixpoints,
                function,
                scrutinee,
                result,
                after,
            )->0;
            &&& 0 <= at <= end <= t.len()
            &&& keeps_to(t, at, end, Some(result))
        }),
    decreases branch, 1nat,
{
    let structure = constructor.llvm_struct_type;
    let fields = bound_by_branch(fields_of(t, structure).len());
    let from = at + 3 + 2 * fields;
    let inner_scope = scope + loaded_fields(t, at + 3, fields);
    let inner = term_at(
        declarations,
        t,
        from,
        branch,
        inner_scope,
        fixpoints,
        function,
        block_at(t, at),
    )->0;
    lemma_fields_loaded_flow(t, at + 3, pointer_at(t, at + 2), fields as int);
    law_code_keeps_to_itself(
        declarations,
        t,
        from,
        branch,
        inner_scope,
        fixpoints,
        function,
        block_at(t, at),
    );
    lemma_keeps_join(t, at, at + 3, from, Some(result));
    lemma_keeps_join(t, at, from, inner.end, Some(result));
    lemma_keeps_join(t, at, inner.end, inner.end + 3, Some(result));
}

pub proof fn lemma_cases_flow<'ctx>(
    declarations: Seq<Entry<'ctx>>,
    t: Trace<'ctx>,
    at: int,
    constructors: Seq<Member<'ctx>>,
    branches: Seq<Term>,
    n: nat,
    scope: Seq<PointerValue<'ctx>>,
    fixpoints: Seq<Recursion<'ctx>>,
    function: FunctionValue<'ctx>,
    scrutinee: PointerValue<'ctx>,
    result: PointerValue<'ctx>,
    after: BasicBlock<'ctx>,
)
    requires
        0 <= at <= t.len(),
        cases_at(
            declarations,
            t,
            at,
            constructors,
            branches,
            n,
            scope,
            fixpoints,
            function,
            scrutinee,
            result,
            after,
        ) is Some,
    ensures
        ({
            let end = cases_at(
                declarations,
                t,
                at,
                constructors,
                branches,
                n,
                scope,
                fixpoints,
                function,
                scrutinee,
                result,
                after,
            )->0.end;
            &&& at <= end <= t.len()
            &&& keeps_to(t, at, end, Some(result))
        }),
    decreases branches, n,
{
    if 0 < n <= branches.len() {
        let i = n - 1;
        lemma_cases_flow(
            declarations,
            t,
            at,
            constructors,
            branches,
            i as nat,
            scope,
            fixpoints,
            function,
            scrutinee,
            result,
            after,
        );
        let before = cases_at(
            declarations,
            t,
            at,
            constructors,
            branches,
            i as nat,
            scope,
            fixpoints,
            function,
            scrutinee,
            result,
            after,
        )->0;
        lemma_case_flow(
            declarations,
            t,
            before.end,
            constructors[i],
            i,
            branches[i],
            scope,
            fixpoints,
            function,
            scrutinee,
            result,
            after,
        );
        let end = case_at(
            declarations,
            t,
            before.end,
            constructors[i],
            i,
            branches[i],
            scope,
            fixpoints,
            function,
            scrutinee,
            result,
            after,
        )->0;
        lemma_keeps_join(t, at, before.end, end, Some(result));
    }
}

} // verus!
