//! What the code of a match is for: it gives what the branch of the scrutinee's
//! constructor gives.
use inkwell::basic_block::BasicBlock;
use inkwell::types::StructType;
use inkwell::values::{FunctionValue, IntValue, PointerValue};
use vstd::prelude::*;

use crate::codegen::emission::{
    case_at, cases_at, field_loaded_at, loaded_fields, term_at, Emission,
};
use crate::codegen::environment::fixpoint::Recursion;
use crate::codegen::environment::global::{find_inductive, Entry, Family, Member};
use crate::codegen::globals::fields_of;
use crate::codegen::shape::bound_by_branch;
use crate::hir::ir::Term;
use crate::laws::flow::{
    addresses, casts, is_added_as, is_appended, is_cast, is_cast_to, is_field, is_loaded,
    is_loaded_field, law_code_keeps_to_itself, leaves, lemma_cases_flow, lemma_fields_loaded_flow,
    lemma_moves, lemma_place_is_left, lemma_stays, loads, places_differ, reserves, runs_on, stands,
    stays, stores,
};
use crate::llvm::session::struct_type;
use crate::llvm::trace::{
    block_at, body, function_at, int_at, pointer_at, Answer, Operand, Request, Target, Trace, Ty,
};

verus! {

/// The calls from `lo` to `hi` store nothing in the place.
pub open spec fn is_left_alone<'ctx>(
    t: Trace<'ctx>,
    lo: int,
    hi: int,
    place: PointerValue<'ctx>,
) -> bool {
    forall|k: int|
        lo <= k < hi && (#[trigger] t[k]).request is Store ==> t[k].request->Store_pointer != place
}

/// The calls from `lo` to `hi` are those for a branch. In its own block, `entry`,
/// the scrutinee is seen as the constructor's structure, and the fields after the
/// tag are loaded, one for each variable that the branch binds. Then comes the code
/// of the branch, from `from` to `inner.end`. What it gives is stored as the result
/// of the match, and nothing else is; code goes on in `after`.
pub open spec fn is_branch<'ctx>(
    t: Trace<'ctx>,
    lo: int,
    hi: int,
    function: FunctionValue<'ctx>,
    scrutinee: PointerValue<'ctx>,
    structure: StructType<'ctx>,
    result: PointerValue<'ctx>,
    after: BasicBlock<'ctx>,
    entry: BasicBlock<'ctx>,
    entered: int,
    view: PointerValue<'ctx>,
    fields: Seq<PointerValue<'ctx>>,
    from: int,
    inner: Emission<'ctx>,
    given: PointerValue<'ctx>,
) -> bool {
    let stored = hi - 2;
    &&& 0 <= lo <= entered <= from <= inner.end <= stored < hi <= t.len()
    &&& is_appended(t, lo, entered, function, entry)
    &&& runs_on(t, lo, from)
    &&& stands(t, entered, entry)
    &&& stays(t, entered, from)
    &&& is_cast_to(
        t,
        entered,
        from,
        scrutinee,
        Ty::Pointer(Box::new(struct_type(structure))),
        view,
    )
    &&& fields.len() == (match body(t, structure) {
        Some(laid_out) => if laid_out.len() > 0 {
            laid_out.len() - 1
        } else {
            0
        },
        None => 0,
    })
    &&& forall|j: int|
        0 <= j < fields.len() ==> is_loaded_field(
            t,
            entered,
            from,
            view,
            j + 1,
            #[trigger] fields[j],
        )
    &&& runs_on(t, inner.end, hi - 1)
    &&& stands(t, stored, inner.block)
    &&& is_cast(t, inner.end, stored, inner.value, given)
    &&& stores(t[stored], result, Operand::Pointer(given))
    &&& is_left_alone(t, lo, stored, result)
    &&& t[hi - 1].request == (Request::Branch { block: after })
    &&& stands(t, hi - 1, inner.block)
}

/// The calls from `lo` to `hi` are those for branch `i` of a match.
pub open spec fn gives_branch<'ctx>(
    declarations: Seq<Entry<'ctx>>,
    t: Trace<'ctx>,
    lo: int,
    hi: int,
    structure: StructType<'ctx>,
    branch: Term,
    scope: Seq<PointerValue<'ctx>>,
    fixpoints: Seq<Recursion<'ctx>>,
    function: FunctionValue<'ctx>,
    scrutinee: PointerValue<'ctx>,
    result: PointerValue<'ctx>,
    after: BasicBlock<'ctx>,
    entry: BasicBlock<'ctx>,
) -> bool {
    exists|
        entered: int,
        view: PointerValue<'ctx>,
        fields: Seq<PointerValue<'ctx>>,
        from: int,
        inner: Emission<'ctx>,
        given: PointerValue<'ctx>,
    |
        term_at(
            declarations,
            t,
            from,
            branch,
            scope + fields,
            fixpoints,
            function,
            entry,
        ) == Some(inner) && #[trigger] is_branch(
            t,
            lo,
            hi,
            function,
            scrutinee,
            structure,
            result,
            after,
            entry,
            entered,
            view,
            fields,
            from,
            inner,
            given,
        )
}

proof fn lemma_case_gives_branch<'ctx>(
    declarations: Seq<Entry<'ctx>>,
    t: Trace<'ctx>,
    at: int,
    constructor: Member<'ctx>,
    i: int,
    branch: Term,
    scope: Seq<PointerValue<'ctx>>,
    fixpoints: Seq<Recursion<'ctx>>,
    function: FunctionValue<'ctx>,
    scrutinee: PointerValue<'ctx>,
    result: PointerValue<'ctx>,
    after: BasicBlock<'ctx>,
    reserved: int,
)
    requires
        places_differ(t),
        0 <= reserved < at,
        case_at(
            declarations,
            t,
            at,
            constructor,
            i,
            branch,
            scope,
            fixpoints,
            function,
            scrutinee,
            result,
            after,
        ) is Some,
        reserves(t[reserved], result),
    ensures
        gives_branch(
            declarations,
            t,
            at,
            case_at(
                declarations,
                t,
                at,
                constructor,
                i,
                branch,
                scope,
                fixpoints,
                function,
                scrutinee,
                result,
                after,
            )->0,
            constructor.llvm_struct_type,
            branch,
            scope,
            fixpoints,
            function,
            scrutinee,
            result,
            after,
            block_at(t, at),
        ),
{
    let structure = constructor.llvm_struct_type;
    let count = bound_by_branch(fields_of(t, structure).len());
    let entry = block_at(t, at);
    let entered = at + 2;
    let view = pointer_at(t, at + 2);
    let fields = loaded_fields(t, at + 3, count);
    let from = at + 3 + 2 * count;
    let inner = term_at(
        declarations,
        t,
        from,
        branch,
        scope + fields,
        fixpoints,
        function,
        entry,
    )->0;
    let given = pointer_at(t, inner.end);
    let hi = inner.end + 3;
    lemma_moves(t, at + 1, entry);
    lemma_fields_loaded_flow(t, at + 3, view, count as int);
    lemma_stays(t, entered, from);
    law_code_keeps_to_itself(
        declarations,
        t,
        from,
        branch,
        scope + fields,
        fixpoints,
        function,
        entry,
    );
    lemma_stays(t, inner.end, inner.end + 1);
    lemma_stays(t, inner.end, inner.end + 2);
    assert(t[at].answer == Answer::Block(entry));
    assert(casts(t[at + 2], scrutinee, view));
    assert forall|j: int| 0 <= j < fields.len() implies is_loaded_field(
        t,
        entered,
        from,
        view,
        j + 1,
        #[trigger] fields[j],
    ) by {
        assert(field_loaded_at(t, at + 3 + 2 * j, view, j + 1));
        let place = pointer_at(t, at + 3 + 2 * j);
        assert(addresses(t[at + 3 + 2 * j], view, j + 1, place));
        assert(is_field(t, entered, from, view, j + 1, place));
        assert(loads(t[at + 3 + 2 * j + 1], place, fields[j]));
        assert(is_loaded(t, entered, from, place, fields[j]));
    }
    assert(casts(t[inner.end], inner.value, given));
    assert(is_left_alone(t, at, hi - 2, result)) by {
        assert forall|k: int| at <= k < hi - 2 && (#[trigger] t[k]).request is Store implies t[
        k].request->Store_pointer != result by {
            if from <= k < inner.end {
                lemma_place_is_left(t, from, inner.end, None, reserved, result, k);
            }
        }
    }
    assert(is_branch(
        t,
        at,
        hi,
        function,
        scrutinee,
        structure,
        result,
        after,
        entry,
        entered,
        view,
        fields,
        from,
        inner,
        given,
    ));
}

/// Branch `i` of the first `n` is where the branches before it end.
proof fn lemma_cases_parts<'ctx>(
    declarations: Seq<Entry<'ctx>>,
    t: Trace<'ctx>,
    at: int,
    constructors: Seq<Member<'ctx>>,
    branches: Seq<Term>,
    n: nat,
    scope: Seq<PointerValue<'ctx>>,
    fixpoints: Seq<Recursion<'ctx>>,
    function: FunctionValue<'ctx>,
    scrutinee: PointerValue<'ctx>,
    result: PointerValue<'ctx>,
    after: BasicBlock<'ctx>,
    i: int,
)
    requires
        0 <= i < n <= branches.len(),
        cases_at(
            declarations,
            t,
            at,
            constructors,
            branches,
            n,
            scope,
            fixpoints,
            function,
            scrutinee,
            result,
            after,
        ) is Some,
    ensures
        ({
            let all = cases_at(
                declarations,
                t,
                at,
                constructors,
                branches,
                n,
                scope,
                fixpoints,
                function,
                scrutinee,
                result,
                after,
            );
            let before = cases_at(
                declarations,
                t,
                at,
                constructors,
                branches,
                i as nat,
                scope,
                fixpoints,
                function,
                scrutinee,
                result,
                after,
            );
            let including = cases_at(
                declarations,
                t,
                at,
                constructors,
                branches,
                (i + 1) as nat,
                scope,
                fixpoints,
                function,
                scrutinee,
                result,
                after,
            );
            &&& before is Some
            &&& including is Some
            &&& case_at(
                declarations,
                t,
                before->0.end,
                constructors[i],
                i,
                branches[i],
                scope,
                fixpoints,
                function,
                scrutinee,
                result,
                after,
            ) == Some(including->0.end)
            &&& all->0.cases.len() == n
            &&& all->0.cases[i] == (
                Operand::Int { bits: 8, value: (i % 0x100) as nat },
                block_at(t, before->0.end),
            )
        }),
    decreases n,
{
    if i < n - 1 {
        lemma_cases_parts(
            declarations,
            t,
            at,
            constructors,
            branches,
            (n - 1) as nat,
            scope,
            fixpoints,
            function,
            scrutinee,
            result,
            after,
            i,
        );
    } else {
        lemma_cases_len(
            declarations,
            t,
            at,
            constructors,
            branches,
            n,
            scope,
            fixpoints,
            function,
            scrutinee,
            result,
            after,
        );
    }
}

proof fn lemma_cases_len<'ctx>(
    declarations: Seq<Entry<'ctx>>,
    t: Trace<'ctx>,
    at: int,
    constructors: Seq<Member<'ctx>>,
    branches: Seq<Term>,
    n: nat,
    scope: Seq<PointerValue<'ctx>>,
    fixpoints: Seq<Recursion<'ctx>>,
    function: FunctionValue<'ctx>,
    scrutinee: PointerValue<'ctx>,
    result: PointerValue<'ctx>,
    after: BasicBlock<'ctx>,
)
    requires
        n <= branches.len(),
        cases_at(
            declarations,
            t,
            at,
            constructors,
            branches,
            n,
            scope,
            fixpoints,
            function,
            scrutinee,
            result,
            after,
        ) is Some,
    ensures
        cases_at(
            declarations,
            t,
            at,
            constructors,
            branches,
            n,
            scope,
            fixpoints,
            function,
            scrutinee,
            result,
            after,
        )->0.cases.len() == n,
    decreases n,
{
    if n > 0 {
        lemma_cases_len(
            declarations,
            t,
            at,
            constructors,
            branches,
            (n - 1) as nat,
            scope,
            fixpoints,
            function,
            scrutinee,
            result,
            after,
        );
    }
}

/// The tag is loaded from field 0 of the scrutinee, seen as a value of the type, by
/// the calls from `lo` to `hi`.
pub open spec fn is_tag_of<'ctx>(
    t: Trace<'ctx>,
    lo: int,
    hi: int,
    scrutinee: PointerValue<'ctx>,
    ty: Ty<'ctx>,
    view: PointerValue<'ctx>,
    place: PointerValue<'ctx>,
    tag: IntValue<'ctx>,
) -> bool {
    &&& is_cast_to(t, lo, hi, scrutinee, ty, view)
    &&& is_field(t, lo, hi, view, 0, place)
    &&& exists|k: int|
        lo <= k < hi && (#[trigger] t[k]).answer == Answer::Int(tag) && (t[k].request matches
            Request::Load { pointer, .. } && pointer == place)
}

/// In the block, from call `exited` on, the program ends with an exit code that
/// tells of failure.
pub open spec fn gives_up<'ctx>(
    t: Trace<'ctx>,
    lo: int,
    exited: int,
    function: FunctionValue<'ctx>,
    block: BasicBlock<'ctx>,
    exit: FunctionValue<'ctx>,
) -> bool {
    &&& lo <= exited < t.len() - 1
    &&& is_appended(t, lo, exited, function, block)
    &&& stands(t, exited, block)
    &&& is_added_as(
        t,
        lo,
        exited,
        "exit"@,
        Ty::Function(Box::new(Ty::Void), seq![Ty::I32]),
        exit,
    )
    &&& t[exited].request matches Request::Call { target, arguments, .. } && target
        == Target::Function(exit) && arguments == seq![Operand::Int { bits: 32, value: 1 }]
    &&& stands(t, exited + 1, block)
    &&& t[exited + 1].request is Unreachable
}

/// The calls after the scrutinee's make a place for the result, on the stack, and a
/// block where code goes on. Then come the branches, the first from `starts[0]` to
/// `starts[1]`, and so on. By call `switched`, at the end of the scrutinee's code,
/// the tag of the scrutinee decides which of them is taken: that of its constructor.
pub open spec fn is_match<'ctx>(
    t: Trace<'ctx>,
    function: FunctionValue<'ctx>,
    inductive: Family<'ctx>,
    matched: Emission<'ctx>,
    result: Emission<'ctx>,
    view: PointerValue<'ctx>,
    place: PointerValue<'ctx>,
    tag: IntValue<'ctx>,
    starts: Seq<int>,
    entries: Seq<BasicBlock<'ctx>>,
    otherwise: BasicBlock<'ctx>,
    exited: int,
    exit: FunctionValue<'ctx>,
    switched: int,
) -> bool {
    let count = inductive.constructors.len() as int;
    let first = starts[0];
    let last = starts[count];
    &&& starts.len() == count + 1
    &&& entries.len() == count
    &&& 0 <= matched.end <= first <= last <= exited < switched < result.end <= t.len()
    &&& runs_on(t, matched.end, first)
    &&& stands(t, matched.end, matched.block)
    &&& stays(t, matched.end, first)
    &&& is_tag_of(
        t,
        matched.end,
        first,
        matched.value,
        inductive.llvm_type,
        view,
        place,
        tag,
    )
    &&& exists|k: int| matched.end <= k < first && reserves(#[trigger] t[k], result.value)
    &&& is_appended(t, matched.end, first, function, result.block)
    &&& gives_up(t, last, exited, function, otherwise, exit)
    &&& stands(t, switched, matched.block)
    &&& t[switched].request matches Request::Switch { value, otherwise: default, cases } && value
        == tag && default == otherwise && cases.len() == count && forall|i: int|
        0 <= i < count ==> #[trigger] cases[i] == (
            Operand::Int { bits: 8, value: (i % 0x100) as nat },
            entries[i],
        )
    &&& forall|k: int|
        last <= k < result.end && leaves(#[trigger] t[k]) ==> k == exited || k == exited + 1 || k
            == switched
    &&& is_left_alone(t, last, result.end, result.value)
    &&& stands(t, result.end, result.block)
}

/// A match switches on the tag of its scrutinee. The branch for tag `i`, whose
/// variables are the fields of the scrutinee, gives the value of the match: it is
/// stored in the place that is this value, and no other value is.
#[verifier::rlimit(40)]
pub proof fn law_match_gives_the_branch_taken<'ctx>(
    declarations: Seq<Entry<'ctx>>,
    t: Trace<'ctx>,
    at: int,
    term: Term,
    scope: Seq<PointerValue<'ctx>>,
    fixpoints: Seq<Recursion<'ctx>>,
    function: FunctionValue<'ctx>,
    block: BasicBlock<'ctx>,
)
    requires
        0 <= at <= t.len(),
        places_differ(t),
        stands(t, at, block),
        term is Match,
        term_at(declarations, t, at, term, scope, fixpoints, function, block) is Some,
    ensures
        ({
            let inductive = declarations[find_inductive(
                declarations,
                term->inductive_name@,
            )->0]->Inductive_1;
            let branches = term->branches@;
            let result = term_at(
                declarations,
                t,
                at,
                term,
                scope,
                fixpoints,
                function,
                block,
            )->0;
            exists|
                matched: Emission<'ctx>,
                view: PointerValue<'ctx>,
                place: PointerValue<'ctx>,
                tag: IntValue<'ctx>,
                starts: Seq<int>,
                entries: Seq<BasicBlock<'ctx>>,
                otherwise: BasicBlock<'ctx>,
                exited: int,
                exit: FunctionValue<'ctx>,
                switched: int,
            |
                {
                    &&& branches.len() == inductive.constructors.len()
                    &&& term_at(
                        declarations,
                        t,
                        at,
                        *term->scrutinee,
                        scope,
                        fixpoints,
                        function,
                        block,
                    ) == Some(matched)
                    &&& #[trigger] is_match(
                        t,
                        function,
                        inductive,
                        matched,
                        result,
                        view,
                        place,
                        tag,
                        starts,
                        entries,
                        otherwise,
                        exited,
                        exit,
                        switched,
                    )
                    &&& is_left_alone(t, at, starts[0], result.value)
                    &&& forall|i: int|
                        0 <= i < branches.len() ==> #[trigger] gives_branch(
                            declarations,
                            t,
                            starts[i],
                            starts[i + 1],
                            inductive.constructors[i].llvm_struct_type,
                            branches[i],
                            scope,
                            fixpoints,
                            function,
                            matched.value,
                            result.value,
                            result.block,
                            entries[i],
                        )
                }
        }),
{
    let inductive = declarations[find_inductive(
        declarations,
        term->inductive_name@,
    )->0]->Inductive_1;
    let constructors = inductive.constructors;
    let branches = term->branches@;
    let n = branches.len();
    let scrutinee = *term->scrutinee;
    let result = term_at(declarations, t, at, term, scope, fixpoints, function, block)->0;
    let matched = term_at(
        declarations,
        t,
        at,
        scrutinee,
        scope,
        fixpoints,
        function,
        block,
    )->0;
    let opened = matched.end;
    let first = opened + 5;
    let starts = Seq::new(
        n + 1,
        |i: int|
            cases_at(
                declarations,
                t,
                first,
                constructors,
                branches,
                i as nat,
                scope,
                fixpoints,
                function,
                matched.value,
                result.value,
                result.block,
            )->0.end,
    );
    let entries = Seq::new(n, |i: int| block_at(t, starts[i]));
    let cases = cases_at(
        declarations,
        t,
        first,
        constructors,
        branches,
        n,
        scope,
        fixpoints,
        function,
        matched.value,
        result.value,
        result.block,
    )->0;
    let last = cases.end;
    let view = pointer_at(t, opened);
    let place = pointer_at(t, opened + 1);
    let tag = int_at(t, opened + 2);
    let otherwise = block_at(t, last);
    let exited = last + 3;
    let exit = function_at(t, last + 2);
    let switched = last + 6;
    law_code_keeps_to_itself(
        declarations,
        t,
        at,
        scrutinee,
        scope,
        fixpoints,
        function,
        block,
    );
    lemma_cases_flow(
        declarations,
        t,
        first,
        constructors,
        branches,
        n,
        scope,
        fixpoints,
        function,
        matched.value,
        result.value,
        result.block,
    );
    assert(reserves(t[opened + 3], result.value));
    assert(casts(t[opened], matched.value, view));
    assert(addresses(t[opened + 1], view, 0, place));
    assert(t[opened + 2].answer == Answer::Int(tag));
    assert(t[opened + 4].answer == Answer::Block(result.block));
    assert(is_tag_of(
        t,
        opened,
        first,
        matched.value,
        inductive.llvm_type,
        view,
        place,
        tag,
    ));
    assert(starts[0] == first);
    assert(starts[n as int] == last);
    assert forall|i: int| 0 <= i < n implies #[trigger] gives_branch(
        declarations,
        t,
        starts[i],
        starts[i + 1],
        constructors[i].llvm_struct_type,
        branches[i],
        scope,
        fixpoints,
        function,
        matched.value,
        result.value,
        result.block,
        entries[i],
    ) && cases.cases[i] == (
        Operand::Int { bits: 8, value: (i % 0x100) as nat },
        entries[i],
    ) by {
        lemma_cases_parts(
            declarations,
            t,
            first,
            constructors,
            branches,
            n,
            scope,
            fixpoints,
            function,
            matched.value,
            result.value,
            result.block,
            i,
        );
        lemma_cases_flow(
            declarations,
            t,
            first,
            constructors,
            branches,
            i as nat,
            scope,
            fixpoints,
            function,
            matched.value,
            result.value,
            result.block,
        );
        lemma_case_gives_branch(
            declarations,
            t,
            starts[i],
            constructors[i],
            i,
            branches[i],
            scope,
            fixpoints,
            function,
            matched.value,
            result.value,
            result.block,
            opened + 3,
        );
    }
    lemma_cases_len(
        declarations,
        t,
        first,
        constructors,
        branches,
        n,
        scope,
        fixpoints,
        function,
        matched.value,
        result.value,
        result.block,
    );
    assert(is_left_alone(t, at, first, result.value)) by {
        assert forall|k: int| at <= k < first && (#[trigger] t[k]).request is Store implies t[
        k].request->Store_pointer != result.value by {
            if k < opened {
                lemma_place_is_left(t, at, opened, None, opened + 3, result.value, k);
            }
        }
    }
    lemma_moves(t, last + 1, otherwise);
    lemma_stays(t, last + 2, last + 3);
    lemma_stays(t, last + 2, last + 4);
    lemma_moves(t, last + 5, matched.block);
    lemma_moves(t, last + 7, result.block);
    assert(t[last].answer == Answer::Block(otherwise));
    assert(t[last + 2].answer == Answer::Function(exit));
    assert(gives_up(t, last, exited, function, otherwise, exit));
    assert forall|i: int| 0 <= i < n implies #[trigger] cases.cases[i] == (
        Operand::Int { bits: 8, value: (i % 0x100) as nat },
        entries[i],
    ) by {
        assert(gives_branch(
            declarations,
            t,
            starts[i],
            starts[i + 1],
            constructors[i].llvm_struct_type,
            branches[i],
            scope,
            fixpoints,
            function,
            matched.value,
            result.value,
            result.block,
            entries[i],
        ));
    }
    assert(is_match(
        t,
        function,
        inductive,
        matched,
        result,
        view,
        place,
        tag,
        starts,
        entries,
        otherwise,
        exited,
        exit,
        switched,
    ));
}

} // verus!
