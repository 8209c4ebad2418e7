//! What holds of the library as a whole.
pub mod constructors;
pub mod determined;
pub mod fixpoints;
pub mod flow;
pub mod handles;
pub mod lambdas;
pub mod limits;
pub mod matches;
pub mod meaning;
pub mod programs;
pub mod renaming;
pub mod variables;

use inkwell::basic_block::BasicBlock;
use inkwell::values::{FunctionValue, PointerValue};
use vstd::prelude::*;

use crate::codegen::data::{
    capture_stored_at, constructor_at, constructor_fields, constructor_filled_at, inductive_at,
    largest,
};
use crate::codegen::emission::{
    capture_loaded_at, capture_written_at, captured_values, captures_loaded_at, captures_stored_at,
    cases_at, closure_at, closure_opened_at, field_loaded_at, fields_loaded_at, loaded_fields,
    scope_with_captures,
};
use crate::codegen::environment::fixpoint::Recursion;
use crate::codegen::environment::global::{
    declares_constant, declares_inductive, find_constant, find_constructors, find_inductive,
    lemma_find_inductive, Entry, Family, Member,
};
use crate::codegen::globals::{field_counts, fields_of};
use crate::codegen::program::declarations_at;
use crate::codegen::search::lemma_first_push;
use crate::codegen::shape::{
    bound_by_branch, captured, captured_in_branches, constructors_shapes, free_in, free_in_branches,
    inductive_fields, inductive_laid_out, inductive_shape, inductive_shapes, program_shapes, Shape,
};
use crate::codegen::Context;
use crate::hir::ir::{debruijn_position, Constructor, DeBruijnIndex, Declaration, Inductive, Term};
use crate::llvm::session::{parameter_of, type_of};
use crate::llvm::trace::{body, pointer_at, struct_at, Operand, Request, Trace, Ty};

verus! {

/// The first declaration of a name stays the one that is found.
pub proof fn law_first_declaration_wins(
    declarations: Seq<Entry<'_>>,
    later: Entry<'_>,
    name: Seq<char>,
)
    ensures
        find_inductive(declarations, name) is Some ==> find_inductive(
            declarations.push(later),
            name,
        ) == find_inductive(declarations, name),
        find_constant(declarations, name) is Some ==> find_constant(declarations.push(later), name)
            == find_constant(declarations, name),
{
    lemma_first_push(
        declarations,
        later,
        |declaration: Entry<'_>| declares_inductive(declaration, name),
    );
    lemma_first_push(
        declarations,
        later,
        |declaration: Entry<'_>| declares_constant(declaration, name),
    );
}

/// A declaration of a new name is found.
pub proof fn law_new_declaration_is_found(
    declarations: Seq<Entry<'_>>,
    later: Entry<'_>,
    name: Seq<char>,
)
    ensures
        find_inductive(declarations, name) is None && declares_inductive(later, name)
            ==> find_inductive(declarations.push(later), name) == Some(declarations.len() as int),
        find_constant(declarations, name) is None && declares_constant(later, name)
            ==> find_constant(declarations.push(later), name) == Some(declarations.len() as int),
{
    lemma_first_push(
        declarations,
        later,
        |declaration: Entry<'_>| declares_inductive(declaration, name),
    );
    lemma_first_push(
        declarations,
        later,
        |declaration: Entry<'_>| declares_constant(declaration, name),
    );
}

/// A variable that is bound has index zero, the others move up by one, and they
/// move back when its scope ends.
pub proof fn law_binding_shifts<T>(scope: Seq<T>, value: T)
    ensures
        scope.push(value)[debruijn_position(scope.push(value).len(), 0)] == value,
        forall|index: nat|
            index < scope.len() ==> scope.push(value)[debruijn_position(
                scope.push(value).len(),
                index + 1,
            )] == #[trigger] scope[debruijn_position(scope.len(), index)],
        scope.push(value).drop_last() == scope,
{
    assert(scope.push(value).drop_last() =~= scope);
}

/// An update changes the value of its variable, and of no other.
pub proof fn law_update_changes_one<T>(scope: Seq<T>, index: nat, value: T)
    requires
        index < scope.len(),
    ensures
        ({
            let after = scope.update(debruijn_position(scope.len(), index), value);
            &&& after.len() == scope.len()
            &&& after[debruijn_position(after.len(), index)] == value
            &&& forall|other: nat|
                other < scope.len() && other != index ==> #[trigger] after[debruijn_position(
                    after.len(),
                    other,
                )] == scope[debruijn_position(scope.len(), other)]
        }),
{
}

/// The captured copies leave the other variables as they are.
pub proof fn law_capture_keeps_others<'ctx>(
    t: Trace<'ctx>,
    at: int,
    scope: Seq<PointerValue<'ctx>>,
    indexes: Seq<DeBruijnIndex>,
    n: nat,
    other: DeBruijnIndex,
)
    requires
        n <= indexes.len(),
        forall|i: int| 0 <= i < n ==> #[trigger] indexes[i] < scope.len() && indexes[i] != other,
        other < scope.len(),
    ensures
        scope_with_captures(t, at, scope, indexes, n).len() == scope.len(),
        scope_with_captures(t, at, scope, indexes, n)[debruijn_position(
            scope.len(),
            other as nat,
        )] == scope[debruijn_position(scope.len(), other as nat)],
    decreases n,
{
    if n > 0 {
        law_capture_keeps_others(t, at, scope, indexes, (n - 1) as nat, other);
        assert(indexes[n - 1] != other);
    }
}

/// Captured value `i` is stored in field `i` of the captures, where the closure's
/// function finds it again: it loads this field, of a structure of the same type,
/// from the captures that it gets.
pub proof fn law_captures_are_found_again<'ctx>(
    t: Trace<'ctx>,
    stored: int,
    loaded: int,
    function: FunctionValue<'ctx>,
    captures: PointerValue<'ctx>,
    scope: Seq<PointerValue<'ctx>>,
    indexes: Seq<DeBruijnIndex>,
    i: int,
)
    requires
        0 <= i < indexes.len(),
        captures_stored_at(
            t,
            stored,
            captures,
            captured_values(scope, indexes),
            indexes.len() as int,
        ),
        captures_loaded_at(t, loaded, function, captures, indexes.len() as int),
    ensures
        t[stored + 3 * i].request matches Request::StructGep { pointer, index, .. } && pointer
            == captures && index == i,
        t[stored + 3 * i + 1].request matches Request::Bitcast { value, .. } && value
            == scope[debruijn_position(scope.len(), indexes[i] as nat)],
        t[stored + 3 * i + 2].request == (Request::Store {
            pointer: pointer_at(t, stored + 3 * i),
            value: Operand::Pointer(pointer_at(t, stored + 3 * i + 1)),
        }),
        t[loaded + 5 * i].request matches Request::Bitcast { value, ty, .. } && value
            == parameter_of(function, 1) && ty == type_of(captures),
        t[loaded + 5 * i + 1].request matches Request::StructGep { pointer, index, .. } && pointer
            == pointer_at(t, loaded + 5 * i) && index == i,
        t[loaded + 5 * i + 2].request matches Request::Load { pointer, .. } && pointer
            == pointer_at(t, loaded + 5 * i + 1),
{
    assert(capture_written_at(
        t,
        stored + 3 * i,
        captures,
        captured_values(scope, indexes)[i],
        i,
    ));
    assert(capture_loaded_at(t, loaded + 5 * i, function, captures, i));
}

/// A match switches on one tag for each of its branches, in order.
pub proof fn law_match_covers_constructors<'ctx>(
    declarations: Seq<Entry<'ctx>>,
    t: Trace<'ctx>,
    at: int,
    constructors: Seq<Member<'ctx>>,
    branches: Seq<Term>,
    n: nat,
    scope: Seq<PointerValue<'ctx>>,
    fixpoints: Seq<Recursion<'ctx>>,
    function: FunctionValue<'ctx>,
    scrutinee: PointerValue<'ctx>,
    result: PointerValue<'ctx>,
    after: BasicBlock<'ctx>,
)
    requires
        n <= branches.len(),
    ensures
        cases_at(
            declarations,
            t,
            at,
            constructors,
            branches,
            n,
            scope,
            fixpoints,
            function,
            scrutinee,
            result,
            after,
        ) matches Some(cases) ==> {
            &&& cases.cases.len() == n
            &&& forall|i: int|
                0 <= i < n ==> (#[trigger] cases.cases[i]).0 == (Operand::Int {
                    bits: 8,
                    value: (i % 0x100) as nat,
                })
        },
    decreases n,
{
    if n > 0 {
        law_match_covers_constructors(
            declarations,
            t,
            at,
            constructors,
            branches,
            (n - 1) as nat,
            scope,
            fixpoints,
            function,
            scrutinee,
            result,
            after,
        );
    }
}

/// The function of constructor `i` stores the tag on which a match switches to
/// branch `i`.
pub proof fn law_constructor_meets_its_branch<'ctx>(
    declarations: Seq<Entry<'ctx>>,
    t: Trace<'ctx>,
    at: int,
    inductive_name: Seq<char>,
    i: int,
    constructor: Constructor,
    later: Seq<Entry<'ctx>>,
    matched: int,
    constructors: Seq<Member<'ctx>>,
    branches: Seq<Term>,
    scope: Seq<PointerValue<'ctx>>,
    fixpoints: Seq<Recursion<'ctx>>,
    function: FunctionValue<'ctx>,
    scrutinee: PointerValue<'ctx>,
    result: PointerValue<'ctx>,
    after: BasicBlock<'ctx>,
)
    requires
        0 <= i < branches.len(),
        constructor_at(declarations, t, at, inductive_name, i, constructor) is Some,
        cases_at(
            later,
            t,
            matched,
            constructors,
            branches,
            branches.len(),
            scope,
            fixpoints,
            function,
            scrutinee,
            result,
            after,
        ) is Some,
    ensures
        t[at + 7].request matches Request::Store { value: tag, .. } && tag == cases_at(
            later,
            t,
            matched,
            constructors,
            branches,
            branches.len(),
            scope,
            fixpoints,
            function,
            scrutinee,
            result,
            after,
        )->0.cases[i].0,
{
    law_match_covers_constructors(
        later,
        t,
        matched,
        constructors,
        branches,
        branches.len(),
        scope,
        fixpoints,
        function,
        scrutinee,
        result,
        after,
    );
}

/// The functions of two of the first 256 constructors of a type store different
/// tags.
pub proof fn law_tags_differ<'ctx>(
    t: Trace<'ctx>,
    inductive_name: Seq<char>,
    declarations: Seq<Entry<'ctx>>,
    at: int,
    i: int,
    constructor: Constructor,
    later: Seq<Entry<'ctx>>,
    then: int,
    j: int,
    other: Constructor,
)
    requires
        0 <= i < 0x100,
        0 <= j < 0x100,
        i != j,
        constructor_at(declarations, t, at, inductive_name, i, constructor) is Some,
        constructor_at(later, t, then, inductive_name, j, other) is Some,
    ensures
        t[at + 7].request is Store,
        t[then + 7].request is Store,
        t[at + 7].request->Store_value != t[then + 7].request->Store_value,
{
}

/// The constructor whose fields an inductive type gets has as many as any other,
/// and more than those after it.
pub proof fn law_largest(numbers: Seq<nat>, n: nat)
    requires
        0 < n <= numbers.len(),
    ensures
        0 <= largest(numbers, n) < n,
        forall|i: int| 0 <= i < n ==> #[trigger] numbers[i] <= numbers[largest(numbers, n)],
        forall|i: int|
            largest(numbers, n) < i < n ==> #[trigger] numbers[i] < numbers[largest(numbers, n)],
    decreases n,
{
    if n > 1 {
        law_largest(numbers, (n - 1) as nat);
    }
}

/// A program can be compiled in two parts: first some declarations, then the
/// rest.
pub proof fn law_programs_compose(
    shapes: Seq<Shape>,
    first: Seq<Declaration>,
    rest: Seq<Declaration>,
    n: nat,
)
    requires
        n <= rest.len(),
    ensures
        program_shapes(shapes, first + rest, first.len() + n) == (match program_shapes(
            shapes,
            first,
            first.len(),
        ) {
            Some(between) => program_shapes(between, rest, n),
            None => None,
        }),
    decreases n,
{
    if n == 0 {
        lemma_program_prefix(shapes, first, rest, first.len());
    } else {
        law_programs_compose(shapes, first, rest, (n - 1) as nat);
        assert((first + rest)[first.len() + n - 1] == rest[n - 1]);
    }
}

proof fn lemma_program_prefix(
    shapes: Seq<Shape>,
    first: Seq<Declaration>,
    rest: Seq<Declaration>,
    n: nat,
)
    requires
        n <= first.len(),
    ensures
        program_shapes(shapes, first + rest, n) == program_shapes(shapes, first, n),
    decreases n,
{
    if n > 0 {
        lemma_program_prefix(shapes, first, rest, (n - 1) as nat);
        assert((first + rest)[n - 1] == first[n - 1]);
    }
}

/// The calls for a program are those for its first declarations, followed by
/// those for the rest.
pub proof fn law_code_composes<'ctx>(
    declarations: Seq<Entry<'ctx>>,
    t: Trace<'ctx>,
    at: int,
    main: FunctionValue<'ctx>,
    first: Seq<Declaration>,
    rest: Seq<Declaration>,
    n: nat,
)
    requires
        n <= rest.len(),
    ensures
        declarations_at(declarations, t, at, main, first + rest, first.len() + n) == (
        match declarations_at(declarations, t, at, main, first, first.len()) {
            Some(between) => declarations_at(
                between.declarations,
                t,
                between.end,
                main,
                rest,
                n,
            ),
            None => None,
        }),
    decreases n,
{
    if n == 0 {
        lemma_code_prefix(declarations, t, at, main, first, rest, first.len());
    } else {
        law_code_composes(declarations, t, at, main, first, rest, (n - 1) as nat);
        assert((first + rest)[first.len() + n - 1] == rest[n - 1]);
    }
}

proof fn lemma_code_prefix<'ctx>(
    declarations: Seq<Entry<'ctx>>,
    t: Trace<'ctx>,
    at: int,
    main: FunctionValue<'ctx>,
    first: Seq<Declaration>,
    rest: Seq<Declaration>,
    n: nat,
)
    requires
        n <= first.len(),
    ensures
        declarations_at(declarations, t, at, main, first + rest, n) == declarations_at(
            declarations,
            t,
            at,
            main,
            first,
            n,
        ),
    decreases n,
{
    if n > 0 {
        lemma_code_prefix(declarations, t, at, main, first, rest, (n - 1) as nat);
        assert((first + rest)[n - 1] == first[n - 1]);
    }
}

/// One more binder around a term takes the variable with index zero out of what
/// is captured, and lowers the other indexes by one.
pub proof fn law_binder_shifts_captures(shapes: Seq<Shape>, term: Term, bound: nat)
    ensures
        captured(shapes, term, bound + 1) == lowered(captured(shapes, term, bound)),
    decreases term, 0nat,
{
    match term {
        Term::DeBruijnIndex(index) => {
            if index > bound {
                lemma_lowered_one((index - bound - 1) as usize);
            } else {
                lemma_lowered_none();
            }
        },
        Term::Lambda { body, .. } => {
            law_binder_shifts_captures(shapes, *body, bound + 1);
        },
        Term::Application { function, argument } => {
            law_binder_shifts_captures(shapes, *function, bound);
            law_binder_shifts_captures(shapes, *argument, bound);
            lemma_lowered_add(
                captured(shapes, *function, bound),
                captured(shapes, *argument, bound),
            );
        },
        Term::Fixpoint { body, .. } => {
            law_binder_shifts_captures(shapes, *body, bound);
        },
        Term::Match { inductive_name, scrutinee, branches, .. } => {
            law_binder_shifts_captures(shapes, *scrutinee, bound);
            if let Some(fields) = inductive_fields(shapes, inductive_name@) {
                lemma_binder_shifts_branches(shapes, fields, branches@, bound, branches@.len());
                lemma_lowered_add(
                    captured(shapes, *scrutinee, bound),
                    captured_in_branches(shapes, fields, branches@, bound, branches@.len()),
                );
            }
        },
        _ => {
            lemma_lowered_none();
        },
    }
}

/// The indexes other than zero, each lowered by one.
pub open spec fn lowered(indexes: Seq<DeBruijnIndex>) -> Seq<DeBruijnIndex>
    decreases indexes.len(),
{
    if indexes.len() == 0 {
        Seq::empty()
    } else {
        let before = lowered(indexes.drop_last());
        if indexes.last() == 0 {
            before
        } else {
            before.push((indexes.last() - 1) as usize)
        }
    }
}

proof fn lemma_lowered_none()
    ensures
        lowered(Seq::empty()) == Seq::<DeBruijnIndex>::empty(),
{
}

proof fn lemma_lowered_one(index: DeBruijnIndex)
    ensures
        lowered(seq![index]) == if index == 0 {
            Seq::<DeBruijnIndex>::empty()
        } else {
            seq![(index - 1) as usize]
        },
{
    reveal_with_fuel(lowered, 2);
    assert(seq![index].drop_last() =~= Seq::<DeBruijnIndex>::empty());
    assert(Seq::<DeBruijnIndex>::empty().push((index - 1) as usize) =~= seq![(index - 1) as usize]);
}

proof fn lemma_lowered_add(a: Seq<DeBruijnIndex>, b: Seq<DeBruijnIndex>)
    ensures
        lowered(a + b) == lowered(a) + lowered(b),
    decreases b.len(),
{
    if b.len() == 0 {
        assert(a + b =~= a);
        assert(lowered(a) + lowered(b) =~= lowered(a));
    } else {
        lemma_lowered_add(a, b.drop_last());
        assert((a + b).drop_last() =~= a + b.drop_last());
        assert(lowered(a + b) =~= lowered(a) + lowered(b));
    }
}

proof fn lemma_binder_shifts_branches(
    shapes: Seq<Shape>,
    fields: Seq<nat>,
    branches: Seq<Term>,
    bound: nat,
    n: nat,
)
    ensures
        captured_in_branches(shapes, fields, branches, bound + 1, n) == lowered(
            captured_in_branches(shapes, fields, branches, bound, n),
        ),
    decreases branches, n,
{
    if n == 0 || n > branches.len() {
        lemma_lowered_none();
    } else {
        lemma_binder_shifts_branches(shapes, fields, branches, bound, (n - 1) as nat);
        if n <= fields.len() {
            let binders = bound_by_branch(fields[n - 1]);
            law_binder_shifts_captures(shapes, branches[n - 1], bound + binders);
            lemma_lowered_add(
                captured_in_branches(shapes, fields, branches, bound, (n - 1) as nat),
                captured(shapes, branches[n - 1], bound + binders),
            );
            assert(bound + 1 + binders == bound + binders + 1);
        }
    }
}

/// A closure holds its function in field 0 and the captured values in field 1,
/// where an application looks for them.
pub proof fn law_closure_is_found_again<'ctx>(
    t: Trace<'ctx>,
    stored: int,
    opened: int,
    function: PointerValue<'ctx>,
    captures: PointerValue<'ctx>,
)
    requires
        closure_at(t, stored, function, captures),
        closure_opened_at(t, opened, pointer_at(t, stored)),
    ensures
        t[stored + 1].request matches Request::StructGep { pointer, index, .. } && pointer
            == pointer_at(t, stored) && index == 0,
        t[stored + 2].request == (Request::Store {
            pointer: pointer_at(t, stored + 1),
            value: Operand::Pointer(function),
        }),
        t[opened].request matches Request::StructGep { pointer, index, .. } && pointer
            == pointer_at(t, stored) && index == 0,
        t[opened + 1].request matches Request::Load { pointer, .. } && pointer == pointer_at(
            t,
            opened,
        ),
        t[stored + 3].request matches Request::StructGep { pointer, index, .. } && pointer
            == pointer_at(t, stored) && index == 1,
        t[stored + 4].request == (Request::Store {
            pointer: pointer_at(t, stored + 3),
            value: Operand::Pointer(captures),
        }),
        t[opened + 2].request matches Request::StructGep { pointer, index, .. } && pointer
            == pointer_at(t, stored) && index == 1,
        t[opened + 3].request matches Request::Load { pointer, .. } && pointer == pointer_at(
            t,
            opened + 2,
        ),
{
}

/// Argument `i` of a constructor is stored in field `i` of its structure: the last
/// one is its function's own parameter, another one is loaded from field `i - 1` of
/// the captures that the function gets. A match on the constructor loads this field
/// for the variable that stands for the argument.
pub proof fn law_fields_are_found_again<'ctx>(
    t: Trace<'ctx>,
    filled: int,
    loaded: int,
    function: FunctionValue<'ctx>,
    object: PointerValue<'ctx>,
    fields: Seq<Ty<'ctx>>,
    pointer: PointerValue<'ctx>,
    i: int,
)
    requires
        1 <= i < fields.len(),
        constructor_filled_at(t, filled, function, object, fields, fields.len() as int),
        fields_loaded_at(t, loaded, pointer, fields.len() - 1),
    ensures
        ({
            let from = filled + 6 * (i - 1);
            let last = i == fields.len() - 1;
            let stored = if last {
                from + 1
            } else {
                from + 4
            };
            &&& t[from].request matches Request::StructGep { pointer: target, index, .. } && target
                == object && index == i
            &&& t[stored].request matches Request::Bitcast { value, ty, .. } && value == (if last {
                parameter_of(function, 0)
            } else {
                pointer_at(t, from + 3)
            }) && ty == fields[i]
            &&& t[stored + 1].request == (Request::Store {
                pointer: pointer_at(t, from),
                value: Operand::Pointer(pointer_at(t, stored)),
            })
            &&& !last ==> t[from + 1].request is Bitcast && t[from + 1].request->Bitcast_value
                == parameter_of(function, 1) && t[from + 2].request is StructGep && t[from
                + 2].request->StructGep_pointer == pointer_at(t, from + 1) && t[from
                + 2].request->index == i - 1 && t[from + 3].request is Load && t[from
                + 3].request->Load_pointer == pointer_at(t, from + 2)
        }),
        t[loaded + 2 * (i - 1)].request matches Request::StructGep { pointer: read, index, .. }
            && read == pointer && index == i,
        t[loaded + 2 * (i - 1) + 1].request matches Request::Load { pointer: read, .. } && read
            == pointer_at(t, loaded + 2 * (i - 1)),
        loaded_fields(t, loaded, (fields.len() - 1) as nat)[i - 1] == pointer_at(
            t,
            loaded + 2 * (i - 1) + 1,
        ),
{
    if i < fields.len() - 1 {
        assert(capture_stored_at(
            t,
            filled + 6 * (i - 1),
            function,
            (fields.len() - 2) as nat,
            object,
            i,
            fields[i],
        ));
    }
    let j = i - 1;
    assert(field_loaded_at(t, loaded + 2 * j, pointer, j + 1));
}

/// The structure of an inductive type has as many fields as that of any of its
/// constructors.
pub proof fn law_inductive_holds_any_constructor<'ctx>(
    declarations: Seq<Entry<'ctx>>,
    t: Trace<'ctx>,
    at: int,
    inductive: Inductive,
    j: int,
)
    requires
        inductive_at(declarations, t, at, inductive) matches Some(after) && (find_constructors(
            after.declarations,
            inductive.name@,
        ) matches Some(constructors) && 0 <= j < constructors.len()),
    ensures
        ({
            let after = inductive_at(declarations, t, at, inductive)->0;
            let constructors = find_constructors(after.declarations, inductive.name@)->0;
            t[after.end - 1].request matches Request::SetBody { structure, fields } && structure
                == struct_at(t, at) && fields_of(t, constructors[j].llvm_struct_type).len()
                <= fields.len()
        }),
{
    let after = inductive_at(declarations, t, at, inductive)->0;
    let constructors = find_constructors(after.declarations, inductive.name@)->0;
    let counts = field_counts(t, constructors);
    law_largest(counts, constructors.len());
    assert(counts[j] <= counts[largest(counts, constructors.len())]);
}

/// An inductive type of a new name has the constructors that it is declared with,
/// in order, and a match on it has a branch for each of them, if there are any.
/// What was declared before stays as it was.
pub proof fn law_new_inductive(shapes: Seq<Shape>, inductive: Inductive)
    requires
        inductive_shape(shapes, inductive.name@) is None,
        inductive_shapes(shapes, inductive) is Some,
    ensures
        ({
            let after = inductive_shapes(shapes, inductive)->0;
            let count = inductive.constructors@.len();
            &&& after.len() == shapes.len() + 1
            &&& after.take(shapes.len() as int) == shapes
            &&& inductive_fields(after, inductive.name@) matches Some(fields) && fields.len()
                == count
            &&& inductive_laid_out(after, inductive.name@) == (count > 0)
        }),
{
    let name = inductive.name@;
    let i = shapes.len() as int;
    let pushed = shapes.push(Shape::Inductive { name, fields: Seq::empty(), laid_out: false });
    let count = inductive.constructors@.len();
    lemma_new_constructors(shapes, name, inductive.constructors@, count);
    let declared = constructors_shapes(pushed, name, inductive.constructors@, count)->0;
    let after = inductive_shapes(shapes, inductive)->0;
    let wanted = |shape: Shape|
        shape matches Shape::Inductive { name: declared, .. } && declared == name;
    assert(after.drop_last() =~= shapes);
    assert(after =~= shapes.push(after.last()));
    lemma_first_push(shapes, after.last(), wanted);
    assert(after.take(i) =~= shapes);
}

proof fn lemma_new_constructors(
    shapes: Seq<Shape>,
    name: Seq<char>,
    constructors: Seq<Constructor>,
    n: nat,
)
    requires
        inductive_shape(shapes, name) is None,
        n <= constructors.len(),
        constructors_shapes(
            shapes.push(Shape::Inductive { name, fields: Seq::empty(), laid_out: false }),
            name,
            constructors,
            n,
        ) is Some,
    ensures
        ({
            let after = constructors_shapes(
                shapes.push(Shape::Inductive { name, fields: Seq::empty(), laid_out: false }),
                name,
                constructors,
                n,
            )->0;
            &&& after.len() == shapes.len() + 1
            &&& after.drop_last() == shapes
            &&& inductive_shape(after, name) == Some(shapes.len() as int)
            &&& after.last() matches Shape::Inductive { name: declared, fields, laid_out }
                && declared == name && fields.len() == n && !laid_out
        }),
    decreases n,
{
    let pushed = shapes.push(Shape::Inductive { name, fields: Seq::empty(), laid_out: false });
    let wanted = |shape: Shape|
        shape matches Shape::Inductive { name: declared, .. } && declared == name;
    if n == 0 {
        lemma_first_push(shapes, pushed.last(), wanted);
        assert(pushed.drop_last() =~= shapes);
    } else {
        lemma_new_constructors(shapes, name, constructors, (n - 1) as nat);
        let after = constructors_shapes(pushed, name, constructors, n)->0;
        assert(after.drop_last() =~= shapes);
        assert(after =~= shapes.push(after.last()));
        lemma_first_push(shapes, after.last(), wanted);
    }
}

/// What a lambda captures are its free variables, all of them and no others.
pub proof fn law_captured_are_the_free_variables(shapes: Seq<Shape>, body: Term, bound: nat)
    ensures
        forall|index: DeBruijnIndex| #[trigger]
            captured(shapes, body, bound).contains(index) <==> free_in(
                shapes,
                body,
                (bound + 1 + index) as nat,
            ),
    decreases body, 0nat,
{
    let all = captured(shapes, body, bound);
    match body {
        Term::DeBruijnIndex(occurring) => {
            assert forall|index: DeBruijnIndex| #[trigger] all.contains(index) <==> free_in(
                shapes,
                body,
                (bound + 1 + index) as nat,
            ) by {
                if occurring == bound + 1 + index {
                    assert(all[0] == index);
                }
            }
        },
        Term::Lambda { body: inner, .. } => {
            law_captured_are_the_free_variables(shapes, *inner, bound + 1);
            assert forall|index: DeBruijnIndex| #[trigger] all.contains(index) <==> free_in(
                shapes,
                body,
                (bound + 1 + index) as nat,
            ) by {
                assert(captured(shapes, *inner, bound + 1).contains(index) <==> free_in(
                    shapes,
                    *inner,
                    (bound + 1 + 1 + index) as nat,
                ));
                assert((bound + 1 + 1 + index) as nat == (bound + 1 + index) as nat + 1);
            }
        },
        Term::Application { function, argument } => {
            law_captured_are_the_free_variables(shapes, *function, bound);
            law_captured_are_the_free_variables(shapes, *argument, bound);
            let first = captured(shapes, *function, bound);
            let second = captured(shapes, *argument, bound);
            lemma_contains_add(first, second);
            assert forall|index: DeBruijnIndex| #[trigger] all.contains(index) <==> free_in(
                shapes,
                body,
                (bound + 1 + index) as nat,
            ) by {
                assert((first + second).contains(index) <==> first.contains(index)
                    || second.contains(index));
            }
        },
        Term::Fixpoint { body: inner, .. } => {
            law_captured_are_the_free_variables(shapes, *inner, bound);
            assert forall|index: DeBruijnIndex| #[trigger] all.contains(index) <==> free_in(
                shapes,
                body,
                (bound + 1 + index) as nat,
            ) by {
                assert(captured(shapes, *inner, bound).contains(index) <==> free_in(
                    shapes,
                    *inner,
                    (bound + 1 + index) as nat,
                ));
            }
        },
        Term::Match { inductive_name, scrutinee, branches, .. } => {
            law_captured_are_the_free_variables(shapes, *scrutinee, bound);
            if let Some(fields) = inductive_fields(shapes, inductive_name@) {
                let first = captured(shapes, *scrutinee, bound);
                let second = captured_in_branches(
                    shapes,
                    fields,
                    branches@,
                    bound,
                    branches@.len(),
                );
                lemma_captured_in_branches(shapes, fields, branches@, bound, branches@.len());
                lemma_contains_add(first, second);
                assert forall|index: DeBruijnIndex| #[trigger] all.contains(index) <==> free_in(
                    shapes,
                    body,
                    (bound + 1 + index) as nat,
                ) by {
                    assert((first + second).contains(index) <==> first.contains(index)
                        || second.contains(index));
                }
            } else {
                assert forall|index: DeBruijnIndex| #[trigger] all.contains(index) <==> free_in(
                    shapes,
                    body,
                    (bound + 1 + index) as nat,
                ) by {
                    assert(captured(shapes, *scrutinee, bound).contains(index) <==> free_in(
                        shapes,
                        *scrutinee,
                        (bound + 1 + index) as nat,
                    ));
                }
            }
        },
        _ => {},
    }
}

proof fn lemma_contains_add(a: Seq<DeBruijnIndex>, b: Seq<DeBruijnIndex>)
    ensures
        forall|index: DeBruijnIndex| #[trigger]
            (a + b).contains(index) <==> a.contains(index) || b.contains(index),
{
    assert forall|index: DeBruijnIndex| a.contains(index) || b.contains(
        index,
    ) implies #[trigger] (a + b).contains(index) by {
        if a.contains(index) {
            let i = a.index_of(index);
            assert((a + b)[i] == index);
        } else {
            let i = b.index_of(index);
            assert((a + b)[a.len() + i] == index);
        }
    }
}

proof fn lemma_captured_in_branches(
    shapes: Seq<Shape>,
    fields: Seq<nat>,
    branches: Seq<Term>,
    bound: nat,
    n: nat,
)
    ensures
        forall|index: DeBruijnIndex| #[trigger]
            captured_in_branches(shapes, fields, branches, bound, n).contains(index)
                <==> free_in_branches(shapes, fields, branches, (bound + 1 + index) as nat, n),
    decreases branches, n,
{
    if 0 < n <= branches.len() {
        lemma_captured_in_branches(shapes, fields, branches, bound, (n - 1) as nat);
        if n <= fields.len() {
            let binders = bound_by_branch(fields[n - 1]);
            let before = captured_in_branches(shapes, fields, branches, bound, (n - 1) as nat);
            let here = captured(shapes, branches[n - 1], bound + binders);
            law_captured_are_the_free_variables(shapes, branches[n - 1], bound + binders);
            lemma_contains_add(before, here);
            assert forall|index: DeBruijnIndex| #[trigger]
                captured_in_branches(shapes, fields, branches, bound, n).contains(index)
                    <==> free_in_branches(
                    shapes,
                    fields,
                    branches,
                    (bound + 1 + index) as nat,
                    n,
                ) by {
                assert((before + here).contains(index) <==> before.contains(index)
                    || here.contains(index));
                assert((bound + binders + 1 + index) as nat == (bound + 1 + index) as nat
                    + binders);
            }
        } else {
            assert forall|index: DeBruijnIndex| #[trigger]
                captured_in_branches(shapes, fields, branches, bound, n).contains(index)
                    <==> free_in_branches(
                    shapes,
                    fields,
                    branches,
                    (bound + 1 + index) as nat,
                    n,
                ) by {
                assert(captured_in_branches(shapes, fields, branches, bound, (n - 1) as nat).contains(
                    index,
                ) <==> free_in_branches(
                    shapes,
                    fields,
                    branches,
                    (bound + 1 + index) as nat,
                    (n - 1) as nat,
                ));
            }
        }
    }
}

/// What is written to the inductive type that a name finds is what the name finds
/// afterwards, and every other declaration stays as it was.
pub proof fn law_write_is_read_back<'ctx>(
    declarations: Seq<Entry<'ctx>>,
    name: Seq<char>,
    written: Family<'ctx>,
)
    requires
        find_inductive(declarations, name) is Some,
    ensures
        ({
            let i = find_inductive(declarations, name)->0;
            let after = declarations.update(i, Entry::Inductive(name, written));
            &&& find_inductive(after, name) == Some(i)
            &&& after[i]->Inductive_1 == written
            &&& after.len() == declarations.len()
            &&& forall|j: int|
                0 <= j < declarations.len() && j != i ==> #[trigger] after[j] == declarations[j]
        }),
{
    let i = find_inductive(declarations, name)->0;
    let after = declarations.update(i, Entry::Inductive(name, written));
    lemma_find_inductive(declarations, name);
    lemma_find_inductive(after, name);
    assert(declares_inductive(after[i], name));
    if let Some(j) = find_inductive(after, name) {
        if j < i {
            assert(after[j] == declarations[j]);
        }
    }
}

/// No two calls add the same function: each lambda and each constructor has a
/// function of its own.
pub proof fn law_functions_differ<'ctx>(context: Context<'ctx>, i: int, j: int)
    requires
        context.wf(),
        0 <= i < context.calls().len(),
        0 <= j < context.calls().len(),
        i != j,
        context.calls()[i].request is AddFunction,
        context.calls()[j].request is AddFunction,
    ensures
        context.calls()[i].answer != context.calls()[j].answer,
{
    if i < j {
        assert(context.calls()[i].answer != context.calls()[j].answer);
    } else {
        assert(context.calls()[j].answer != context.calls()[i].answer);
    }
}

/// No two calls make the same structure: each inductive type and each constructor
/// has a structure of its own.
pub proof fn law_structures_differ<'ctx>(context: Context<'ctx>, i: int, j: int)
    requires
        context.wf(),
        0 <= i < context.calls().len(),
        0 <= j < context.calls().len(),
        i != j,
        context.calls()[i].request is OpaqueStruct,
        context.calls()[j].request is OpaqueStruct,
    ensures
        context.calls()[i].answer != context.calls()[j].answer,
{
    if i < j {
        assert(context.calls()[i].answer != context.calls()[j].answer);
    } else {
        assert(context.calls()[j].answer != context.calls()[i].answer);
    }
}

/// Once an inductive type is compiled, its structure has the fields of the largest
/// constructor, if there is one.
pub proof fn law_inductive_has_its_fields<'ctx>(
    declarations: Seq<Entry<'ctx>>,
    t: Trace<'ctx>,
    at: int,
    inductive: Inductive,
)
    requires
        inductive_at(declarations, t, at, inductive) matches Some(after) && (find_constructors(
            after.declarations,
            inductive.name@,
        ) matches Some(constructors) && constructors.len() > 0),
    ensures
        ({
            let after = inductive_at(declarations, t, at, inductive)->0;
            let constructors = find_constructors(after.declarations, inductive.name@)->0;
            let chosen = largest(field_counts(t, constructors), constructors.len());
            body(t, struct_at(t, at)) == Some(
                fields_of(t, constructors[chosen].llvm_struct_type),
            )
        }),
{
}

/// Once a constructor is compiled, its structure has a tag and what the constructor
/// takes as fields.
pub proof fn law_constructor_has_its_fields<'ctx>(
    declarations: Seq<Entry<'ctx>>,
    t: Trace<'ctx>,
    at: int,
    inductive_name: Seq<char>,
    index: int,
    constructor: Constructor,
)
    requires
        constructor_at(declarations, t, at, inductive_name, index, constructor) is Some,
    ensures
        body(t, struct_at(t, at)) == Some(constructor_fields(declarations, constructor.typ)),
{
}

} // verus!
