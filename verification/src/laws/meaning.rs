//! What the code of each form of term is for, in terms of the values that flow
//! through it.
//!
//! The laws speak of the parts of a term by what their code amounts to, and of the
//! rest by what the calls say of where values come from and where they go.
use inkwell::basic_block::BasicBlock;
use inkwell::values::{FunctionValue, PointerValue};
use vstd::prelude::*;

use crate::codegen::emission::{
    captures_type, closure_at, closure_calls, closure_seen, empty_closure_at, term_at, Emission,
};
use crate::codegen::environment::fixpoint::{find_fixpoint, Recursion};
use crate::codegen::environment::global::{
    declares_constant, find_constant, lemma_find_constant, Entry,
};
use crate::codegen::globals::is_closure;
use crate::hir::ir::Term;
use crate::laws::flow::{
    addresses, casts, field_holds, is_cast_to, is_field, is_loaded, is_loaded_field, is_object,
    is_stored, keeps_to, law_code_keeps_to_itself, lemma_object_is_left, lemma_same_place,
    lemma_stays, loads, places_differ, runs_on, stands, stays, stores,
};
use crate::llvm::session::type_of;
use crate::llvm::trace::{
    generic_pointer, pointee, pointer_at, Answer, Operand, Request, Target, Trace, Ty,
};

verus! {

/// The value of a variable is the one that was bound to it: the last one that was
/// bound has index zero.
pub proof fn law_variable_is_what_was_bound<'ctx>(
    declarations: Seq<Entry<'ctx>>,
    t: Trace<'ctx>,
    at: int,
    outer: Seq<PointerValue<'ctx>>,
    value: PointerValue<'ctx>,
    inner: Seq<PointerValue<'ctx>>,
    fixpoints: Seq<Recursion<'ctx>>,
    function: FunctionValue<'ctx>,
    block: BasicBlock<'ctx>,
)
    requires
        inner.len() <= usize::MAX,
    ensures
        term_at(
            declarations,
            t,
            at,
            Term::DeBruijnIndex(inner.len() as usize),
            outer.push(value) + inner,
            fixpoints,
            function,
            block,
        ) == Some(Emission { end: at, value, block }),
{
    let scope = outer.push(value) + inner;
    assert(scope[outer.len() as int] == value);
}

/// The type is that of pointers to a structure that starts with two pointers.
pub open spec fn points_to_closure(ty: Ty<'_>) -> bool {
    ty matches Ty::Pointer(inner) && (*inner matches Ty::Struct(fields) && fields.len() >= 2
        && fields[0] is Pointer && fields[1] is Pointer)
}

/// The value, seen as a closure: a pointer to a pointer is followed first, and what
/// is not known to be a closure is cast to one.
pub open spec fn seen_as_closure<'ctx>(
    t: Trace<'ctx>,
    lo: int,
    hi: int,
    value: PointerValue<'ctx>,
    closure: PointerValue<'ctx>,
) -> bool {
    let ty = Ty::Pointer(Box::new(Ty::Struct(seq![generic_pointer(), generic_pointer()])));
    if points_to_closure(type_of(value)) {
        closure == value
    } else if type_of(value) matches Ty::Pointer(inner) && *inner is Pointer {
        exists|held: PointerValue<'ctx>| #[trigger]
            is_loaded(t, lo, hi, value, held) && is_cast_to(t, lo, hi, held, ty, closure)
    } else {
        is_cast_to(t, lo, hi, value, ty, closure)
    }
}

/// From `closure.end` on, the calls open the closure before they go on to the
/// argument, whose code is from `from` to `given.end`; then they call the closure's
/// function with the argument and the closure's captures. `result` is what the call
/// gives, and the last that is done.
pub open spec fn closure_is_called<'ctx>(
    t: Trace<'ctx>,
    closure: Emission<'ctx>,
    from: int,
    given: Emission<'ctx>,
    result: Emission<'ctx>,
    opened: PointerValue<'ctx>,
    code: PointerValue<'ctx>,
    captures: PointerValue<'ctx>,
    target: PointerValue<'ctx>,
) -> bool {
    let call = result.end - 1;
    &&& closure.end <= from <= given.end <= call < t.len()
    &&& runs_on(t, closure.end, from)
    &&& stays(t, closure.end, from)
    &&& stands(t, from, closure.block)
    &&& seen_as_closure(t, closure.end, from, closure.value, opened)
    &&& is_loaded_field(t, closure.end, from, opened, 0, code)
    &&& is_loaded_field(t, closure.end, from, opened, 1, captures)
    &&& runs_on(t, given.end, call)
    &&& stays(t, given.end, call)
    &&& stands(t, call, given.block)
    &&& is_cast_to(
        t,
        given.end,
        call,
        code,
        Ty::Pointer(
            Box::new(
                Ty::Function(
                    Box::new(generic_pointer()),
                    seq![type_of(given.value), type_of(captures)],
                ),
            ),
        ),
        target,
    )
    &&& t[call].request matches Request::Call { target: called, arguments, .. } && called
        == Target::Pointer(target) && arguments == seq![
        Operand::Pointer(given.value),
        Operand::Pointer(captures),
    ]
    &&& t[call].answer == Answer::Pointer(result.value)
    &&& result.block == given.block
}

/// An application calls what field 0 of the closure holds, with the value of the
/// argument and with what field 1 of the closure holds, and has the value that the
/// call gives.
pub proof fn law_application_calls_its_closure<'ctx>(
    declarations: Seq<Entry<'ctx>>,
    t: Trace<'ctx>,
    at: int,
    term: Term,
    scope: Seq<PointerValue<'ctx>>,
    fixpoints: Seq<Recursion<'ctx>>,
    function: FunctionValue<'ctx>,
    block: BasicBlock<'ctx>,
)
    requires
        0 <= at <= t.len(),
        stands(t, at, block),
        term is Application,
        term_at(declarations, t, at, term, scope, fixpoints, function, block) is Some,
    ensures
        ({
            let result = term_at(
                declarations,
                t,
                at,
                term,
                scope,
                fixpoints,
                function,
                block,
            )->0;
            exists|
                closure: Emission<'ctx>,
                from: int,
                given: Emission<'ctx>,
                opened: PointerValue<'ctx>,
                code: PointerValue<'ctx>,
                captures: PointerValue<'ctx>,
                target: PointerValue<'ctx>,
            |
                term_at(
                    declarations,
                    t,
                    at,
                    *term->Application_function,
                    scope,
                    fixpoints,
                    function,
                    block,
                ) == Some(closure) && term_at(
                    declarations,
                    t,
                    from,
                    *term->argument,
                    scope,
                    fixpoints,
                    function,
                    closure.block,
                ) == Some(given) && #[trigger] closure_is_called(
                    t,
                    closure,
                    from,
                    given,
                    result,
                    opened,
                    code,
                    captures,
                    target,
                )
        }),
{
    let applied = *term->Application_function;
    let argument = *term->argument;
    let result = term_at(declarations, t, at, term, scope, fixpoints, function, block)->0;
    let closure = term_at(declarations, t, at, applied, scope, fixpoints, function, block)->0;
    let start = closure.end + closure_calls(closure.value);
    let from = start + 4;
    let given = term_at(
        declarations,
        t,
        from,
        argument,
        scope,
        fixpoints,
        function,
        closure.block,
    )->0;
    law_code_keeps_to_itself(
        declarations,
        t,
        at,
        applied,
        scope,
        fixpoints,
        function,
        block,
    );
    lemma_stays(t, closure.end, from);
    law_code_keeps_to_itself(
        declarations,
        t,
        from,
        argument,
        scope,
        fixpoints,
        function,
        closure.block,
    );
    lemma_stays(t, given.end, given.end + 1);
    let opened = closure_seen(t, closure.end, closure.value);
    let code = pointer_at(t, start + 1);
    let captures = pointer_at(t, start + 3);
    let target = pointer_at(t, given.end);
    assert(seen_as_closure(t, closure.end, from, closure.value, opened)) by {
        let pair = seq![generic_pointer::<'ctx>(), generic_pointer()];
        assert(captures_type::<'ctx>(2) == Ty::Struct(pair)) by {
            assert(Seq::new(2, |i: int| generic_pointer::<'ctx>()) =~= pair);
        }
        assert(is_closure(closure.value) == points_to_closure(type_of(closure.value)));
        if !is_closure(closure.value) {
            assert(casts(t[start - 1], t[start - 1].request->Bitcast_value, opened));
            if pointee(type_of(closure.value)) is Pointer {
                let held = pointer_at(t, closure.end);
                assert(loads(t[closure.end], closure.value, held));
                assert(is_loaded(t, closure.end, from, closure.value, held));
            }
        }
    }
    assert(addresses(t[start], opened, 0, pointer_at(t, start)));
    assert(is_field(t, closure.end, from, opened, 0, pointer_at(t, start)));
    assert(loads(t[start + 1], pointer_at(t, start), code));
    assert(addresses(t[start + 2], opened, 1, pointer_at(t, start + 2)));
    assert(is_field(t, closure.end, from, opened, 1, pointer_at(t, start + 2)));
    assert(loads(t[start + 3], pointer_at(t, start + 2), captures));
    assert(casts(t[given.end], code, target));
    assert(closure_is_called(
        t,
        closure,
        from,
        given,
        result,
        opened,
        code,
        captures,
        target,
    ));
}

/// The calls from `lo` to `hi` make a closure: an object whose field 0 holds the
/// code and whose field 1 holds the captures, and nothing else.
pub open spec fn is_closure_over<'ctx>(
    t: Trace<'ctx>,
    lo: int,
    hi: int,
    closure: PointerValue<'ctx>,
    code: PointerValue<'ctx>,
    captures: PointerValue<'ctx>,
) -> bool {
    &&& is_object(t, lo, hi, closure)
    &&& field_holds(t, lo, hi, closure, 0, Operand::Pointer(code))
    &&& field_holds(t, lo, hi, closure, 1, Operand::Pointer(captures))
}

proof fn lemma_closure_field_holds<'ctx>(
    t: Trace<'ctx>,
    lo: int,
    at: int,
    hi: int,
    code: PointerValue<'ctx>,
    captures: PointerValue<'ctx>,
    index: int,
    value: PointerValue<'ctx>,
)
    requires
        places_differ(t),
        0 <= lo <= at,
        at + 5 <= hi <= t.len(),
        closure_at(t, at, code, captures),
        keeps_to(t, lo, at, None),
        keeps_to(t, at + 5, hi, None),
        index == 0 && value == code || index == 1 && value == captures,
    ensures
        field_holds(t, lo, hi, pointer_at(t, at), index, Operand::Pointer(value)),
{
    let closure = pointer_at(t, at);
    let held = Operand::Pointer(value);
    let gep = at + 1 + 2 * index;
    let field = pointer_at(t, gep);
    assert(addresses(t[gep], closure, index, field));
    assert(is_field(t, lo, hi, closure, index, field));
    assert(stores(t[gep + 1], field, held));
    assert(is_stored(t, lo, hi, field, held));
    assert forall|place: PointerValue<'ctx>, stored: Operand<'ctx>| #[trigger]
        is_field(t, lo, hi, closure, index, place) && #[trigger] is_stored(
            t,
            lo,
            hi,
            place,
            stored,
        ) implies stored == held by {
        let j = choose|j: int| lo <= j < hi && addresses(#[trigger] t[j], closure, index, place);
        let k = choose|k: int| lo <= k < hi && stores(#[trigger] t[k], place, stored);
        if k < at {
            lemma_object_is_left(t, lo, at, at, closure, j, index, place, k);
        } else if k >= at + 5 {
            lemma_object_is_left(t, at + 5, hi, at, closure, j, index, place, k);
        } else {
            assert(k == at + 2 || k == at + 4);
            lemma_same_place(t, j, k - 1);
        }
    }
}

pub proof fn lemma_closure_holds<'ctx>(
    t: Trace<'ctx>,
    lo: int,
    at: int,
    hi: int,
    code: PointerValue<'ctx>,
    captures: PointerValue<'ctx>,
)
    requires
        places_differ(t),
        0 <= lo <= at,
        at + 5 <= hi <= t.len(),
        closure_at(t, at, code, captures),
        keeps_to(t, lo, at, None),
        keeps_to(t, at + 5, hi, None),
    ensures
        is_closure_over(t, lo, hi, pointer_at(t, at), code, captures),
{
    assert(t[at].request is Malloc);
    assert(is_object(t, lo, hi, pointer_at(t, at)));
    lemma_closure_field_holds(t, lo, at, hi, code, captures, 0, code);
    lemma_closure_field_holds(t, lo, at, hi, code, captures, 1, captures);
}

/// A closure without captured values over the code.
pub open spec fn is_bare_closure<'ctx>(
    t: Trace<'ctx>,
    at: int,
    result: Emission<'ctx>,
    block: BasicBlock<'ctx>,
    code: PointerValue<'ctx>,
) -> bool {
    &&& at <= result.end <= t.len()
    &&& runs_on(t, at, result.end)
    &&& stays(t, at, result.end)
    &&& result.block == block
    &&& exists|captures: PointerValue<'ctx>| #[trigger]
        is_closure_over(t, at, result.end, result.value, code, captures) && is_object(
            t,
            at,
            result.end,
            captures,
        )
}

pub proof fn lemma_bare_closure<'ctx>(
    t: Trace<'ctx>,
    at: int,
    code: PointerValue<'ctx>,
    name: Seq<char>,
    block: BasicBlock<'ctx>,
)
    requires
        places_differ(t),
        empty_closure_at(t, at, code, name),
    ensures
        is_bare_closure(
            t,
            at,
            Emission { end: at + 6, value: pointer_at(t, at + 1), block },
            block,
            code,
        ),
{
    let captures = pointer_at(t, at);
    lemma_closure_holds(t, at, at + 1, at + 6, code, captures);
    assert(t[at].request is Malloc);
    assert(is_object(t, at, at + 6, captures));
    let result = Emission { end: at + 6, value: pointer_at(t, at + 1), block };
    assert(runs_on(t, at, at + 6));
    assert(stays(t, at, at + 6));
    assert(is_closure_over(t, at, result.end, result.value, code, captures));
}

/// A name stands for the innermost fixpoint of this name whose function is being
/// generated: it is a closure over that function, which has no use for captures.
pub proof fn law_fixpoint_name_is_a_closure_over_its_function<'ctx>(
    declarations: Seq<Entry<'ctx>>,
    t: Trace<'ctx>,
    at: int,
    term: Term,
    scope: Seq<PointerValue<'ctx>>,
    outer: Seq<Recursion<'ctx>>,
    fixpoint: Recursion<'ctx>,
    inner: Seq<Recursion<'ctx>>,
    function: FunctionValue<'ctx>,
    block: BasicBlock<'ctx>,
)
    requires
        places_differ(t),
        term matches Term::Constant(name) && fixpoint.name == name@ && forall|i: int|
            0 <= i < inner.len() ==> (#[trigger] inner[i]).name != name@,
        term_at(
            declarations,
            t,
            at,
            term,
            scope,
            outer.push(fixpoint) + inner,
            function,
            block,
        ) is Some,
    ensures
        is_bare_closure(
            t,
            at,
            term_at(
                declarations,
                t,
                at,
                term,
                scope,
                outer.push(fixpoint) + inner,
                function,
                block,
            )->0,
            block,
            fixpoint.llvm_function,
        ),
        fixpoint.closed,
{
    let name = term->Constant_0@;
    lemma_find_innermost(outer, fixpoint, inner, name);
    lemma_bare_closure(
        t,
        at,
        fixpoint.llvm_function,
        "temp_fixpoint_empty_captures_struct"@,
        block,
    );
}

proof fn lemma_find_innermost<'ctx>(
    outer: Seq<Recursion<'ctx>>,
    fixpoint: Recursion<'ctx>,
    inner: Seq<Recursion<'ctx>>,
    name: Seq<char>,
)
    requires
        fixpoint.name == name,
        forall|i: int| 0 <= i < inner.len() ==> (#[trigger] inner[i]).name != name,
    ensures
        find_fixpoint(outer.push(fixpoint) + inner, name) == Some(fixpoint),
    decreases inner.len(),
{
    let all = outer.push(fixpoint) + inner;
    if inner.len() > 0 {
        assert(all.drop_last() =~= outer.push(fixpoint) + inner.drop_last());
        assert(all.last() == inner[inner.len() - 1]);
        lemma_find_innermost(outer, fixpoint, inner.drop_last(), name);
    } else {
        assert(all =~= outer.push(fixpoint));
    }
}

/// A name that no fixpoint has stands for the value of the first constant that was
/// declared with it, and takes no code.
pub proof fn law_constant_name_is_its_value<'ctx>(
    before: Seq<Entry<'ctx>>,
    value: PointerValue<'ctx>,
    later: Seq<Entry<'ctx>>,
    t: Trace<'ctx>,
    at: int,
    term: Term,
    scope: Seq<PointerValue<'ctx>>,
    fixpoints: Seq<Recursion<'ctx>>,
    function: FunctionValue<'ctx>,
    block: BasicBlock<'ctx>,
)
    requires
        term is Constant,
        forall|i: int|
            0 <= i < fixpoints.len() ==> (#[trigger] fixpoints[i]).name != term->Constant_0@,
        forall|i: int|
            0 <= i < before.len() ==> !((#[trigger] before[i]) matches Entry::Constant { name, .. }
                && name == term->Constant_0@),
    ensures
        term_at(
            before.push(Entry::Constant { name: term->Constant_0@, llvm_value: value }) + later,
            t,
            at,
            term,
            scope,
            fixpoints,
            function,
            block,
        ) == Some(Emission { end: at, value, block }),
{
    let name = term->Constant_0@;
    let all = before.push(Entry::Constant { name, llvm_value: value }) + later;
    lemma_find_nothing(fixpoints, name);
    lemma_find_constant(all, name);
    let here = before.len() as int;
    assert(declares_constant(all[here], name));
    assert forall|i: int| 0 <= i < here implies !declares_constant(#[trigger] all[i], name) by {
        assert(all[i] == before[i]);
    }
    assert(find_constant(all, name) == Some(here));
}

proof fn lemma_find_nothing<'ctx>(fixpoints: Seq<Recursion<'ctx>>, name: Seq<char>)
    requires
        forall|i: int| 0 <= i < fixpoints.len() ==> (#[trigger] fixpoints[i]).name != name,
    ensures
        find_fixpoint(fixpoints, name) is None,
    decreases fixpoints.len(),
{
    if fixpoints.len() > 0 {
        assert(fixpoints.last() == fixpoints[fixpoints.len() - 1]);
        lemma_find_nothing(fixpoints.drop_last(), name);
    }
}

/// A fixpoint whose body is no lambda has the code of its body.
pub proof fn law_fixpoint_of_a_value_is_the_value<'ctx>(
    declarations: Seq<Entry<'ctx>>,
    t: Trace<'ctx>,
    at: int,
    fixpoint: Term,
    scope: Seq<PointerValue<'ctx>>,
    fixpoints: Seq<Recursion<'ctx>>,
    function: FunctionValue<'ctx>,
    block: BasicBlock<'ctx>,
)
    requires
        fixpoint matches Term::Fixpoint { body, .. } && !(*body is Lambda),
    ensures
        term_at(declarations, t, at, fixpoint, scope, fixpoints, function, block) == term_at(
            declarations,
            t,
            at,
            *fixpoint->Fixpoint_body,
            scope,
            fixpoints,
            function,
            block,
        ),
{
}

} // verus!
