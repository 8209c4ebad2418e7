//! A fixpoint that does not mention itself is its body.
use inkwell::basic_block::BasicBlock;
use inkwell::values::{FunctionValue, PointerValue};
use vstd::prelude::*;

use crate::codegen::emission::{
    case_at, cases_at, closure_calls, lambda_at, loaded_fields, main_at, main_block, main_calls,
    main_function, scope_with_captures, term_at, with_fixpoint,
};
use crate::codegen::environment::fixpoint::{find_fixpoint, Recursion};
use crate::codegen::environment::global::{find_inductive, Entry, Member};
use crate::codegen::globals::{fields_of, shapes_of};
use crate::codegen::program::{declarations_at, program_at};
use crate::codegen::shape::{bound_by_branch, captured};
use crate::hir::ir::{Declaration, HIR, Term};
use crate::laws::determined::{constructors_laid_out, lemma_laid_out_later};
use crate::laws::handles::{
    answers_renamed, calls_renamed, law_program_code_up_to_handles, law_same_program_in_new_modules,
    law_term_code_up_to_handles, lemma_main_up_to_handles, renamed_function, starts_anew,
};
use crate::laws::renaming::Renaming;
use crate::llvm::session::{address_of, parameter_of};
use crate::llvm::trace::{block_at, function_at, last_block, parent, pointer_at, Trace};

verus! {

/// The term mentions the fixpoint or constant of this name, and not an inner
/// fixpoint of the same name.
pub open spec fn mentions(term: Term, name: Seq<char>) -> bool
    decreases term, 0nat,
{
    match term {
        Term::Constant(mentioned) => mentioned@ == name,
        Term::Lambda { body, .. } => mentions(*body, name),
        Term::Application { function, argument } => mentions(*function, name) || mentions(
            *argument,
            name,
        ),
        Term::Match { scrutinee, branches, .. } => mentions(*scrutinee, name)
            || branches_mention(branches@, name, branches@.len()),
        Term::Fixpoint { name: own, body, .. } => !(own@ == name && *body is Lambda) && mentions(
            *body,
            name,
        ),
        _ => false,
    }
}

/// One of the first `n` branches of a match mentions the name.
pub open spec fn branches_mention(branches: Seq<Term>, name: Seq<char>, n: nat) -> bool
    decreases branches, n,
{
    0 < n <= branches.len() && (branches_mention(branches, name, (n - 1) as nat) || mentions(
        branches[n - 1],
        name,
    ))
}

/// All that the term mentions is found alike in both.
pub open spec fn agree<'ctx>(
    term: Term,
    one: Seq<Recursion<'ctx>>,
    other: Seq<Recursion<'ctx>>,
) -> bool {
    forall|name: Seq<char>| #[trigger]
        mentions(term, name) ==> find_fixpoint(one, name) == find_fixpoint(other, name)
}

proof fn lemma_find_push<'ctx>(
    fixpoints: Seq<Recursion<'ctx>>,
    pushed: Recursion<'ctx>,
    name: Seq<char>,
)
    ensures
        find_fixpoint(fixpoints.push(pushed), name) == if pushed.name == name {
            Some(pushed)
        } else {
            find_fixpoint(fixpoints, name)
        },
{
    assert(fixpoints.push(pushed).drop_last() =~= fixpoints);
}

/// The calls for a term depend on those fixpoints in scope only that it mentions.
pub proof fn law_only_mentioned_fixpoints_count<'ctx>(
    declarations: Seq<Entry<'ctx>>,
    t: Trace<'ctx>,
    at: int,
    term: Term,
    scope: Seq<PointerValue<'ctx>>,
    one: Seq<Recursion<'ctx>>,
    other: Seq<Recursion<'ctx>>,
    function: FunctionValue<'ctx>,
    block: BasicBlock<'ctx>,
)
    requires
        agree(term, one, other),
    ensures
        term_at(declarations, t, at, term, scope, one, function, block) == term_at(
            declarations,
            t,
            at,
            term,
            scope,
            other,
            function,
            block,
        ),
    decreases term, 0nat,
{
    match term {
        Term::Lambda { body, .. } => {
            assert forall|name: Seq<char>| #[trigger]
                mentions(*body, name) implies find_fixpoint(one, name) == find_fixpoint(
                other,
                name,
            ) by {
                assert(mentions(term, name));
            }
            lemma_lambda_agrees(declarations, t, at, *body, None, scope, one, other, block);
        },
        Term::Application { function: applied, argument } => {
            assert forall|name: Seq<char>| #[trigger]
                mentions(*applied, name) implies find_fixpoint(one, name) == find_fixpoint(
                other,
                name,
            ) by {
                assert(mentions(term, name));
            }
            assert forall|name: Seq<char>| #[trigger]
                mentions(*argument, name) implies find_fixpoint(one, name) == find_fixpoint(
                other,
                name,
            ) by {
                assert(mentions(term, name));
            }
            law_only_mentioned_fixpoints_count(
                declarations,
                t,
                at,
                *applied,
                scope,
                one,
                other,
                function,
                block,
            );
            if let Some(closure) = term_at(
                declarations,
                t,
                at,
                *applied,
                scope,
                one,
                function,
                block,
            ) {
                let opened = closure.end + closure_calls(closure.value);
                law_only_mentioned_fixpoints_count(
                    declarations,
                    t,
                    opened + 4,
                    *argument,
                    scope,
                    one,
                    other,
                    function,
                    closure.block,
                );
            }
        },
        Term::Constant(name) => {
            assert(mentions(term, name@));
        },
        Term::Match { inductive_name, scrutinee, branches, .. } => {
            assert forall|name: Seq<char>| #[trigger]
                mentions(*scrutinee, name) implies find_fixpoint(one, name) == find_fixpoint(
                other,
                name,
            ) by {
                assert(mentions(term, name));
            }
            assert forall|name: Seq<char>| #[trigger]
                branches_mention(branches@, name, branches@.len()) implies find_fixpoint(one, name)
                == find_fixpoint(other, name) by {
                assert(mentions(term, name));
            }
            law_only_mentioned_fixpoints_count(
                declarations,
                t,
                at,
                *scrutinee,
                scope,
                one,
                other,
                function,
                block,
            );
            if let (Some(i), Some(matched)) = (
                find_inductive(declarations, inductive_name@),
                term_at(declarations, t, at, *scrutinee, scope, one, function, block),
            ) {
                lemma_cases_agree(
                    declarations,
                    t,
                    matched.end + 5,
                    declarations[i]->Inductive_1.constructors,
                    branches@,
                    branches@.len(),
                    scope,
                    one,
                    other,
                    function,
                    matched.value,
                    pointer_at(t, matched.end + 3),
                    block_at(t, matched.end + 4),
                );
            }
        },
        Term::Fixpoint { name: own, body, .. } => {
            match *body {
                Term::Lambda { body: inner, .. } => {
                    assert forall|name: Seq<char>| #[trigger]
                        mentions(*inner, name) && name != own@ implies find_fixpoint(one, name)
                        == find_fixpoint(other, name) by {
                        assert(mentions(*body, name));
                        assert(mentions(term, name));
                    }
                    lemma_lambda_agrees(
                        declarations,
                        t,
                        at,
                        *inner,
                        Some(own@),
                        scope,
                        one,
                        other,
                        block,
                    );
                },
                _ => {
                    assert forall|name: Seq<char>| #[trigger]
                        mentions(*body, name) implies find_fixpoint(one, name) == find_fixpoint(
                        other,
                        name,
                    ) by {
                        assert(mentions(term, name));
                    }
                    law_only_mentioned_fixpoints_count(
                        declarations,
                        t,
                        at,
                        *body,
                        scope,
                        one,
                        other,
                        function,
                        block,
                    );
                },
            }
        },
        _ => {},
    }
}

proof fn lemma_lambda_agrees<'ctx>(
    declarations: Seq<Entry<'ctx>>,
    t: Trace<'ctx>,
    at: int,
    body: Term,
    own: Option<Seq<char>>,
    scope: Seq<PointerValue<'ctx>>,
    one: Seq<Recursion<'ctx>>,
    other: Seq<Recursion<'ctx>>,
    block: BasicBlock<'ctx>,
)
    requires
        forall|name: Seq<char>| #[trigger]
            mentions(body, name) && own != Some(name) ==> find_fixpoint(one, name)
                == find_fixpoint(other, name),
    ensures
        lambda_at(declarations, t, at, body, own, scope, one, block) == lambda_at(
            declarations,
            t,
            at,
            body,
            own,
            scope,
            other,
            block,
        ),
    decreases body, 1nat,
{
    let indexes = captured(shapes_of(t.take(at), declarations), body, 0);
    let n = indexes.len() as int;
    let opened = at + 1 + 3 * n;
    let lambda = function_at(t, opened);
    let inner_scope = scope_with_captures(t, opened + 3, scope, indexes, indexes.len());
    let inner_one = with_fixpoint(one, own, n == 0, lambda);
    let inner_other = with_fixpoint(other, own, n == 0, lambda);
    assert forall|name: Seq<char>| #[trigger] mentions(body, name) implies find_fixpoint(
        inner_one,
        name,
    ) == find_fixpoint(inner_other, name) by {
        if let Some(own_name) = own {
            let pushed = Recursion {
                name: own_name,
                closed: n == 0,
                llvm_function: address_of(lambda),
            };
            lemma_find_push(one, pushed, name);
            lemma_find_push(other, pushed, name);
        }
    }
    law_only_mentioned_fixpoints_count(
        declarations,
        t,
        opened + 3 + 5 * n,
        body,
        inner_scope.push(parameter_of(lambda, 0)),
        inner_one,
        inner_other,
        lambda,
        block_at(t, opened + 1),
    );
}

proof fn lemma_cases_agree<'ctx>(
    declarations: Seq<Entry<'ctx>>,
    t: Trace<'ctx>,
    at: int,
    constructors: Seq<Member<'ctx>>,
    branches: Seq<Term>,
    n: nat,
    scope: Seq<PointerValue<'ctx>>,
    one: Seq<Recursion<'ctx>>,
    other: Seq<Recursion<'ctx>>,
    function: FunctionValue<'ctx>,
    scrutinee: PointerValue<'ctx>,
    result: PointerValue<'ctx>,
    after: BasicBlock<'ctx>,
)
    requires
        n <= branches.len(),
        forall|name: Seq<char>| #[trigger]
            branches_mention(branches, name, n) ==> find_fixpoint(one, name) == find_fixpoint(
                other,
                name,
            ),
    ensures
        cases_at(
            declarations,
            t,
            at,
            constructors,
            branches,
            n,
            scope,
            one,
            function,
            scrutinee,
            result,
            after,
        ) == cases_at(
            declarations,
            t,
            at,
            constructors,
            branches,
            n,
            scope,
            other,
            function,
            scrutinee,
            result,
            after,
        ),
    decreases branches, n,
{
    if n > 0 {
        let i = n - 1;
        assert forall|name: Seq<char>| #[trigger]
            branches_mention(branches, name, i as nat) implies find_fixpoint(one, name)
            == find_fixpoint(other, name) by {
            assert(branches_mention(branches, name, n));
        }
        assert forall|name: Seq<char>| #[trigger] mentions(
            branches[i],
            name,
        ) implies find_fixpoint(one, name) == find_fixpoint(other, name) by {
            assert(branches_mention(branches, name, n));
        }
        lemma_cases_agree(
            declarations,
            t,
            at,
            constructors,
            branches,
            i as nat,
            scope,
            one,
            other,
            function,
            scrutinee,
            result,
            after,
        );
        if let Some(before) = cases_at(
            declarations,
            t,
            at,
            constructors,
            branches,
            i as nat,
            scope,
            one,
            function,
            scrutinee,
            result,
            after,
        ) {
            let from = before.end;
            let fields = bound_by_branch(fields_of(t, constructors[i].llvm_struct_type).len());
            law_only_mentioned_fixpoints_count(
                declarations,
                t,
                from + 3 + 2 * fields,
                branches[i],
                scope + loaded_fields(t, from + 3, fields),
                one,
                other,
                function,
                block_at(t, from),
            );
            assert(case_at(
                declarations,
                t,
                from,
                constructors[i],
                i,
                branches[i],
                scope,
                one,
                function,
                scrutinee,
                result,
                after,
            ) == case_at(
                declarations,
                t,
                from,
                constructors[i],
                i,
                branches[i],
                scope,
                other,
                function,
                scrutinee,
                result,
                after,
            ));
        }
    }
}

/// The calls for a fixpoint that does not mention itself are those for its body.
pub proof fn law_fixpoint_is_its_body<'ctx>(
    declarations: Seq<Entry<'ctx>>,
    t: Trace<'ctx>,
    at: int,
    fixpoint: Term,
    scope: Seq<PointerValue<'ctx>>,
    fixpoints: Seq<Recursion<'ctx>>,
    function: FunctionValue<'ctx>,
    block: BasicBlock<'ctx>,
)
    requires
        fixpoint matches Term::Fixpoint { name, body, .. } && !mentions(*body, name@),
    ensures
        term_at(declarations, t, at, fixpoint, scope, fixpoints, function, block) == term_at(
            declarations,
            t,
            at,
            *fixpoint->Fixpoint_body,
            scope,
            fixpoints,
            function,
            block,
        ),
{
    if let Term::Fixpoint { name, body, .. } = fixpoint {
        if let Term::Lambda { body: inner, .. } = *body {
            let indexes = captured(shapes_of(t.take(at), declarations), *inner, 0);
            let n = indexes.len() as int;
            let opened = at + 1 + 3 * n;
            let lambda = function_at(t, opened);
            let inner_scope = scope_with_captures(t, opened + 3, scope, indexes, indexes.len());
            let pushed = Recursion {
                name: name@,
                closed: n == 0,
                llvm_function: address_of(lambda),
            };
            assert(!mentions(*inner, name@));
            assert forall|mentioned: Seq<char>| #[trigger]
                mentions(*inner, mentioned) implies find_fixpoint(fixpoints.push(pushed), mentioned)
                == find_fixpoint(fixpoints, mentioned) by {
                lemma_find_push(fixpoints, pushed, mentioned);
            }
            law_only_mentioned_fixpoints_count(
                declarations,
                t,
                opened + 3 + 5 * n,
                *inner,
                inner_scope.push(parameter_of(lambda, 0)),
                fixpoints.push(pushed),
                fixpoints,
                lambda,
                block_at(t, opened + 1),
            );
            assert(with_fixpoint(fixpoints, Some(name@), n == 0, lambda) == fixpoints.push(pushed));
            assert(lambda_at(
                declarations,
                t,
                at,
                *inner,
                Some(name@),
                scope,
                fixpoints,
                block,
            ) == lambda_at(declarations, t, at, *inner, None, scope, fixpoints, block));
        }
    }
}

/// A run that compiles a fixpoint that does not mention itself, and one that
/// compiles its body instead, make the same calls but for handles, if LLVM answers
/// alike but for these.
pub proof fn law_fixpoint_gives_the_calls_of_its_body<'ctx>(
    r: Renaming<'ctx>,
    declarations: Seq<Entry<'ctx>>,
    t: Trace<'ctx>,
    u: Trace<'ctx>,
    at: int,
    fixpoint: Term,
    scope: Seq<PointerValue<'ctx>>,
    fixpoints: Seq<Recursion<'ctx>>,
    function: FunctionValue<'ctx>,
    block: BasicBlock<'ctx>,
)
    requires
        r.is_faithful(),
        answers_renamed(r, t, u),
        calls_renamed(r, t, u, at),
        constructors_laid_out(t.take(at), declarations),
        fixpoint matches Term::Fixpoint { name, body, .. } && !mentions(*body, name@),
        term_at(declarations, t, at, fixpoint, scope, fixpoints, function, block) is Some,
        term_at(
            r.entries(declarations),
            u,
            at,
            *fixpoint->Fixpoint_body,
            r.scope(scope),
            r.fixpoints(fixpoints),
            (r.function)(function),
            (r.block)(block),
        ) is Some,
    ensures
        ({
            let compiled = term_at(
                declarations,
                t,
                at,
                fixpoint,
                scope,
                fixpoints,
                function,
                block,
            )->0;
            &&& calls_renamed(r, t, u, compiled.end)
            &&& term_at(
                r.entries(declarations),
                u,
                at,
                *fixpoint->Fixpoint_body,
                r.scope(scope),
                r.fixpoints(fixpoints),
                (r.function)(function),
                (r.block)(block),
            ) == Some(r.emission(compiled))
        }),
{
    law_fixpoint_is_its_body(
        declarations,
        t,
        at,
        fixpoint,
        scope,
        fixpoints,
        function,
        block,
    );
    law_term_code_up_to_handles(
        r,
        declarations,
        t,
        u,
        at,
        *fixpoint->Fixpoint_body,
        scope,
        fixpoints,
        function,
        block,
    );
}

/// The program whose only declaration is this term.
pub open spec fn consists_of(hir: HIR, term: Term) -> bool {
    hir.declarations@ == seq![Declaration::Constant(term)]
}

/// The calls for a program that consists of a fixpoint that does not mention itself
/// are those for the program that consists of its body.
pub proof fn law_fixpoint_program_is_that_of_its_body<'ctx>(
    declarations: Seq<Entry<'ctx>>,
    t: Trace<'ctx>,
    at: int,
    existing: Option<FunctionValue<'ctx>>,
    fixpoint: Term,
    one: HIR,
    other: HIR,
)
    requires
        fixpoint matches Term::Fixpoint { name, body, .. } && !mentions(*body, name@),
        consists_of(one, fixpoint),
        consists_of(other, *fixpoint->Fixpoint_body),
    ensures
        match (
            program_at(declarations, t, at, existing, one),
            program_at(declarations, t, at, existing, other),
        ) {
            (Some(compiled), Some(without)) => compiled.end == without.end,
            (None, None) => true,
            _ => false,
        },
{
    let main = main_function(t, at, existing);
    let from = at + main_calls(existing);
    let block = last_block(t.take(from), main)->0;
    law_fixpoint_is_its_body(
        declarations,
        t,
        from + 1,
        fixpoint,
        Seq::empty(),
        Seq::empty(),
        parent(t.take(from), block)->0,
        block,
    );
    reveal_with_fuel(declarations_at, 2);
    assert(one.declarations@[0] == Declaration::Constant(fixpoint));
    assert(other.declarations@[0] == Declaration::Constant(*fixpoint->Fixpoint_body));
}

/// A run that compiles a program that consists of a fixpoint that does not mention
/// itself, and one that compiles its body instead, make the same calls but for
/// handles, if LLVM answers alike but for these.
pub proof fn law_fixpoint_program_up_to_handles<'ctx>(
    r: Renaming<'ctx>,
    declarations: Seq<Entry<'ctx>>,
    t: Trace<'ctx>,
    u: Trace<'ctx>,
    at: int,
    existing: Option<FunctionValue<'ctx>>,
    fixpoint: Term,
    one: HIR,
    other: HIR,
)
    requires
        r.is_faithful(),
        answers_renamed(r, t, u),
        calls_renamed(r, t, u, at),
        constructors_laid_out(t.take(at), declarations),
        existing matches Some(main) ==> last_block(t.take(at), main) is Some,
        fixpoint matches Term::Fixpoint { name, body, .. } && !mentions(*body, name@),
        consists_of(one, fixpoint),
        consists_of(other, *fixpoint->Fixpoint_body),
        program_at(declarations, t, at, existing, one) is Some,
        program_at(r.entries(declarations), u, at, renamed_function(r, existing), other) is Some,
    ensures
        ({
            let compiled = program_at(declarations, t, at, existing, one)->0;
            &&& calls_renamed(r, t, u, compiled.end)
            &&& program_at(
                r.entries(declarations),
                u,
                at,
                renamed_function(r, existing),
                other,
            )->0.end == compiled.end
        }),
{
    law_fixpoint_program_is_that_of_its_body(
        declarations,
        t,
        at,
        existing,
        fixpoint,
        one,
        other,
    );
    law_program_code_up_to_handles(r, declarations, t, u, at, existing, other);
}

/// A run that compiles a program that consists of a fixpoint that does not mention
/// itself into a new module, and one that compiles its body instead, are the same
/// but for handles, if LLVM answers alike but for these.
pub proof fn law_fixpoint_in_new_modules<'ctx>(
    r: Renaming<'ctx>,
    t: Trace<'ctx>,
    u: Trace<'ctx>,
    fixpoint: Term,
    one: HIR,
    other: HIR,
)
    requires
        r.is_faithful(),
        answers_renamed(r, t, u),
        starts_anew(t),
        starts_anew(u),
        fixpoint matches Term::Fixpoint { name, body, .. } && !mentions(*body, name@),
        consists_of(one, fixpoint),
        consists_of(other, *fixpoint->Fixpoint_body),
        program_at(Seq::empty(), t, 1, None, one) matches Some(compiled) && compiled.end
            == t.len(),
        program_at(Seq::empty(), u, 1, None, other) matches Some(compiled) && compiled.end
            == u.len(),
    ensures
        u == r.trace(t),
{
    law_fixpoint_program_is_that_of_its_body(
        Seq::empty(),
        t,
        1,
        None,
        fixpoint,
        one,
        other,
    );
    law_same_program_in_new_modules(r, t, u, other);
}

/// A run that compiles a fixpoint that does not mention itself as a term of its
/// own, and one that compiles its body instead, after the same declarations, are
/// the same but for handles, if LLVM answers alike but for these.
pub proof fn law_fixpoint_term_up_to_handles<'ctx>(
    r: Renaming<'ctx>,
    declarations: Seq<Entry<'ctx>>,
    t: Trace<'ctx>,
    u: Trace<'ctx>,
    at: int,
    fixpoint: Term,
)
    requires
        r.is_faithful(),
        answers_renamed(r, t, u),
        calls_renamed(r, t, u, at),
        constructors_laid_out(t.take(at), declarations),
        fixpoint matches Term::Fixpoint { name, body, .. } && !mentions(*body, name@),
        main_at(t, at, None),
        main_at(u, at, None),
        term_at(
            declarations,
            t,
            at + main_calls(None),
            fixpoint,
            Seq::empty(),
            Seq::empty(),
            main_function(t, at, None),
            main_block(t, at, None),
        ) matches Some(compiled) && compiled.end == t.len(),
        term_at(
            r.entries(declarations),
            u,
            at + main_calls(None),
            *fixpoint->Fixpoint_body,
            Seq::empty(),
            Seq::empty(),
            main_function(u, at, None),
            main_block(u, at, None),
        ) matches Some(compiled) && compiled.end == u.len(),
    ensures
        u == r.trace(t),
{
    lemma_main_up_to_handles(r, t, u, at);
    lemma_laid_out_later(t, at, at + main_calls(None), declarations);
    assert(r.scope(Seq::empty()) =~= Seq::empty());
    assert(r.fixpoints(Seq::empty()) =~= Seq::empty());
    law_fixpoint_gives_the_calls_of_its_body(
        r,
        declarations,
        t,
        u,
        at + main_calls(None),
        fixpoint,
        Seq::empty(),
        Seq::empty(),
        main_function(t, at, None),
        main_block(t, at, None),
    );
    assert(u =~= r.trace(t));
}

} // verus!
