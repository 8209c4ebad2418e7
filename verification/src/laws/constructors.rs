//! What the code of an inductive type is for: each constructor has a function that
//! makes a value with the constructor's tag and arguments.
use inkwell::basic_block::BasicBlock;
use inkwell::types::StructType;
use inkwell::values::{FunctionValue, PointerValue};
use vstd::prelude::*;

use crate::codegen::data::{
    bare, capture_stored_at, constructor_at, constructor_fields, constructor_filled_at,
    constructor_function_at, constructor_name, constructors_at, filling_calls, inductive_at,
    largest, leaf_types, parameter_stored_at,
};
use crate::codegen::emission::term_at;
use crate::codegen::environment::fixpoint::Recursion;
use crate::codegen::environment::global::{
    declares_inductive, find_constructors, find_inductive, lemma_find_inductive, with_constructor,
    Entry, Member,
};
use crate::codegen::globals::{field_counts, fields_of};
use crate::codegen::inductives::lemma_leaf_types;
use crate::hir::ir::{Constructor, Inductive, Term};
use crate::laws::law_largest;
use crate::laws::flow::{
    addresses, allocates, casts, field_holds, is_added_as, is_appended, is_cast, is_cast_to,
    is_field, is_loaded, is_loaded_field, is_stored, leaves, lemma_moves, lemma_same_place,
    lemma_stays, loads, places_differ, runs_on, stands, stays, stores,
};
use crate::laws::meaning::{is_bare_closure, lemma_bare_closure};
use crate::llvm::session::{address_of, parameter_of, struct_type};
use crate::llvm::trace::{
    block_at, body, function_at, generic_pointer, made, pointer_at, struct_at, Answer, Operand,
    Request, Trace, Ty,
};

verus! {

/// One of the calls from `lo` to `hi` makes the structure, with this name.
pub open spec fn is_structure<'ctx>(
    t: Trace<'ctx>,
    lo: int,
    hi: int,
    name: Seq<char>,
    structure: StructType<'ctx>,
) -> bool {
    exists|k: int|
        lo <= k < hi && (#[trigger] t[k]).answer == Answer::Struct(structure) && (t[k].request
            matches Request::OpaqueStruct { name: given } && given == name)
}

/// Argument `i` of `count`: the last one is what the function of the constructor is
/// called with, and the others are in the captures that it gets.
pub open spec fn is_argument<'ctx>(
    t: Trace<'ctx>,
    lo: int,
    hi: int,
    function: FunctionValue<'ctx>,
    count: int,
    i: int,
    argument: PointerValue<'ctx>,
) -> bool {
    if i == count {
        argument == parameter_of(function, 0)
    } else {
        exists|view: PointerValue<'ctx>| #[trigger]
            is_cast(t, lo, hi, parameter_of(function, 1), view) && is_loaded_field(
                t,
                lo,
                hi,
                view,
                i - 1,
                argument,
            )
    }
}

/// Field `i` of the object holds argument `i` of `count`, with this type, and
/// nothing else.
pub open spec fn holds_argument<'ctx>(
    t: Trace<'ctx>,
    lo: int,
    hi: int,
    function: FunctionValue<'ctx>,
    object: PointerValue<'ctx>,
    count: int,
    i: int,
    ty: Ty<'ctx>,
) -> bool {
    exists|argument: PointerValue<'ctx>, value: PointerValue<'ctx>|
        #[trigger] is_argument(t, lo, hi, function, count, i, argument) && is_cast_to(
            t,
            lo,
            hi,
            argument,
            ty,
            value,
        ) && #[trigger] field_holds(t, lo, hi, object, i, Operand::Pointer(value))
}

/// The calls from `lo` to `hi` make a function that takes the last argument of the
/// constructor, and the others as captures. From `entered` on they make its code: it
/// allocates an object, stores the tag in its field 0 and argument `i` in its field
/// `i`, and nothing else, and returns this object.
pub open spec fn makes_values<'ctx>(
    t: Trace<'ctx>,
    lo: int,
    hi: int,
    name: Seq<char>,
    structure: StructType<'ctx>,
    fields: Seq<Ty<'ctx>>,
    tag: nat,
    function: FunctionValue<'ctx>,
    entry: BasicBlock<'ctx>,
    entered: int,
    object: PointerValue<'ctx>,
) -> bool {
    &&& 0 <= lo <= entered < hi <= t.len()
    &&& is_structure(t, lo, entered, name, structure)
    &&& body(t, structure) == Some(fields)
    &&& is_added_as(
        t,
        lo,
        entered,
        name,
        Ty::Function(
            Box::new(Ty::Pointer(Box::new(struct_type(structure)))),
            seq![generic_pointer(), generic_pointer()],
        ),
        function,
    )
    &&& is_appended(t, lo, entered, function, entry)
    &&& stands(t, entered, entry)
    &&& stays(t, entered, hi)
    &&& runs_on(t, lo, hi - 1)
    &&& exists|k: int|
        entered <= k < hi && allocates(#[trigger] t[k], struct_type(structure), object)
    &&& field_holds(t, entered, hi, object, 0, Operand::Int { bits: 8, value: tag })
    &&& forall|i: int|
        1 <= i < fields.len() ==> #[trigger] holds_argument(
            t,
            entered,
            hi,
            function,
            object,
            fields.len() - 1,
            i,
            fields[i],
        )
    &&& t[hi - 1].request == (Request::Return { value: Operand::Pointer(object) })
}

/// The place where field `i` of a constructor's structure is filled.
spec fn filled_at(at: int, i: int) -> int {
    at + 6 * (i - 1)
}

/// What is stored in field `i`.
spec fn filler<'ctx>(t: Trace<'ctx>, at: int, count: int, i: int) -> PointerValue<'ctx> {
    if i == count {
        pointer_at(t, filled_at(at, i) + 1)
    } else {
        pointer_at(t, filled_at(at, i) + 4)
    }
}

/// A call that fills the fields runs on, and stores nothing, or fills field `i`.
proof fn lemma_filling<'ctx>(
    t: Trace<'ctx>,
    at: int,
    function: FunctionValue<'ctx>,
    object: PointerValue<'ctx>,
    fields: Seq<Ty<'ctx>>,
    k: int,
) -> (i: int)
    requires
        constructor_filled_at(t, at, function, object, fields, fields.len() as int),
        at <= k < at + filling_calls(fields.len(), fields.len() as int),
    ensures
        0 <= k < t.len(),
        !leaves(t[k]),
        !(t[k].request is PositionAtEnd),
        1 <= i < fields.len(),
        t[k].request is Store ==> {
            &&& 0 <= filled_at(at, i) < t.len()
            &&& addresses(t[filled_at(at, i)], object, i, t[k].request->Store_pointer)
            &&& t[k].request->Store_value == Operand::Pointer(filler(t, at, fields.len() - 1, i))
        },
{
    let count = fields.len() - 1;
    let q = (k - at) / 6;
    if q + 1 < count {
        let i = q + 1;
        assert(capture_stored_at(
            t,
            at + 6 * (i - 1),
            function,
            (fields.len() - 2) as nat,
            object,
            i,
            fields[i],
        ));
        assert(at + 6 * (i - 1) <= k < at + 6 * (i - 1) + 6);
        i
    } else {
        assert(at + 6 * (count - 1) <= k < at + 6 * (count - 1) + 3);
        assert(parameter_stored_at(
            t,
            at + 6 * (fields.len() - 2),
            function,
            object,
            count,
            fields[count],
        ));
        count
    }
}

/// Where field `i` is filled, and with what.
proof fn lemma_filler<'ctx>(
    t: Trace<'ctx>,
    lo: int,
    at: int,
    hi: int,
    function: FunctionValue<'ctx>,
    object: PointerValue<'ctx>,
    fields: Seq<Ty<'ctx>>,
    i: int,
) -> (argument: PointerValue<'ctx>)
    requires
        constructor_filled_at(t, at, function, object, fields, fields.len() as int),
        1 <= i < fields.len(),
        lo <= at,
        at + filling_calls(fields.len(), fields.len() as int) <= hi,
    ensures
        ({
            let place = pointer_at(t, filled_at(at, i));
            let value = filler(t, at, fields.len() - 1, i);
            &&& is_field(t, lo, hi, object, i, place)
            &&& is_stored(t, lo, hi, place, Operand::Pointer(value))
            &&& is_cast_to(t, lo, hi, argument, fields[i], value)
            &&& is_argument(t, lo, hi, function, fields.len() - 1, i, argument)
        }),
{
    let count = fields.len() - 1;
    let start = filled_at(at, i);
    let place = pointer_at(t, start);
    let value = filler(t, at, count, i);
    if i == count {
        assert(parameter_stored_at(
            t,
            at + 6 * (fields.len() - 2),
            function,
            object,
            count,
            fields[count],
        ));
        assert(addresses(t[start], object, i, place));
        assert(casts(t[start + 1], parameter_of(function, 0), value));
        assert(stores(t[start + 2], place, Operand::Pointer(value)));
        parameter_of(function, 0)
    } else {
        assert(capture_stored_at(
            t,
            at + 6 * (i - 1),
            function,
            (fields.len() - 2) as nat,
            object,
            i,
            fields[i],
        ));
        let view = pointer_at(t, start + 1);
        let argument = pointer_at(t, start + 3);
        assert(addresses(t[start], object, i, place));
        assert(casts(t[start + 1], parameter_of(function, 1), view));
        assert(is_cast(t, lo, hi, parameter_of(function, 1), view));
        assert(addresses(t[start + 2], view, i - 1, pointer_at(t, start + 2)));
        assert(is_field(t, lo, hi, view, i - 1, pointer_at(t, start + 2)));
        assert(loads(t[start + 3], pointer_at(t, start + 2), argument));
        assert(is_loaded(t, lo, hi, pointer_at(t, start + 2), argument));
        assert(casts(t[start + 4], argument, value));
        assert(stores(t[start + 5], place, Operand::Pointer(value)));
        argument
    }
}

/// Field `index` of the object holds what was stored in it first.
proof fn lemma_object_field_holds<'ctx>(
    t: Trace<'ctx>,
    at: int,
    hi: int,
    function: FunctionValue<'ctx>,
    object: PointerValue<'ctx>,
    fields: Seq<Ty<'ctx>>,
    tag: nat,
    index: int,
    value: Operand<'ctx>,
)
    requires
        places_differ(t),
        0 <= at,
        hi <= t.len(),
        t[at].request is Malloc,
        made(t, at + 1, t[at + 1].request),
        addresses(t[at + 1], object, 0, pointer_at(t, at + 1)),
        stores(t[at + 2], pointer_at(t, at + 1), Operand::Int { bits: 8, value: tag }),
        constructor_filled_at(t, at + 3, function, object, fields, fields.len() as int),
        hi == at + 3 + filling_calls(fields.len(), fields.len() as int) + 1,
        t[hi - 1].request is Return,
        index == 0 && value == (Operand::Int { bits: 8, value: tag }) || 1 <= index
            < fields.len() && value == Operand::Pointer(
            filler(t, at + 3, fields.len() - 1, index),
        ),
    ensures
        field_holds(t, at, hi, object, index, value),
{
    let count = fields.len() - 1;
    if index == 0 {
        assert(is_field(t, at, hi, object, 0, pointer_at(t, at + 1)));
        assert(is_stored(t, at, hi, pointer_at(t, at + 1), value));
    } else {
        let argument = lemma_filler(t, at, at + 3, hi, function, object, fields, index);
    }
    assert forall|place: PointerValue<'ctx>, stored: Operand<'ctx>| #[trigger]
        is_field(t, at, hi, object, index, place) && #[trigger] is_stored(
            t,
            at,
            hi,
            place,
            stored,
        ) implies stored == value by {
        let j = choose|j: int| at <= j < hi && addresses(#[trigger] t[j], object, index, place);
        let k = choose|k: int| at <= k < hi && stores(#[trigger] t[k], place, stored);
        if k == at + 2 {
            lemma_same_place(t, j, at + 1);
        } else if at + 3 <= k < hi - 1 {
            let i = lemma_filling(t, at + 3, function, object, fields, k);
            lemma_same_place(t, j, filled_at(at + 3, i));
        }
    }
}

/// A constructor has a function that makes a value with its tag and its arguments,
/// and returns it. The function and the structure are the constructor's from then
/// on.
pub proof fn law_constructor_function_makes_values<'ctx>(
    declarations: Seq<Entry<'ctx>>,
    t: Trace<'ctx>,
    at: int,
    inductive_name: Seq<char>,
    index: int,
    constructor: Constructor,
)
    requires
        places_differ(t),
        constructor_at(declarations, t, at, inductive_name, index, constructor) is Some,
    ensures
        ({
            let after = constructor_at(declarations, t, at, inductive_name, index, constructor)->0;
            let before = find_constructors(declarations, inductive_name)->0;
            exists|
                structure: StructType<'ctx>,
                function: FunctionValue<'ctx>,
                entry: BasicBlock<'ctx>,
                entered: int,
                object: PointerValue<'ctx>,
            |
                #[trigger] makes_values(
                    t,
                    at,
                    after.end,
                    inductive_name + "_"@ + constructor.name@,
                    structure,
                    constructor_fields(declarations, constructor.typ),
                    (index % 0x100) as nat,
                    function,
                    entry,
                    entered,
                    object,
                ) && find_constructors(after.declarations, inductive_name) == Some(
                    before.push(
                        Member {
                            name: constructor.name@,
                            llvm_struct_type: structure,
                            llvm_function: address_of(function),
                        },
                    ),
                )
        }),
{
    let after = constructor_at(declarations, t, at, inductive_name, index, constructor)->0;
    let name = constructor_name(inductive_name, constructor.name@);
    let structure = struct_at(t, at);
    let fields = constructor_fields(declarations, constructor.typ);
    let tag = (index % 0x100) as nat;
    let begun = at + 2;
    let function = function_at(t, begun);
    let entry = block_at(t, begun + 1);
    let entered = begun + 3;
    let object = pointer_at(t, begun + 3);
    let hi = after.end;
    let filled = begun + 6;
    assert(constructor_function_at(t, begun, tag, name, structure, fields));
    lemma_moves(t, begun + 2, entry);
    assert(hi == filled + filling_calls(fields.len(), fields.len() as int) + 1);
    assert forall|k: int| at <= k < hi - 1 implies !leaves(#[trigger] t[k]) by {
        if k >= filled {
            let i = lemma_filling(t, filled, function, object, fields, k);
        }
    }
    assert forall|k: int| entered <= k < hi implies !((#[trigger] t[k]).request
        is PositionAtEnd) by {
        if filled <= k < hi - 1 {
            let i = lemma_filling(t, filled, function, object, fields, k);
        }
    }
    assert(t[at].answer == Answer::Struct(structure));
    assert(t[begun].answer == Answer::Function(function));
    assert(t[begun + 1].answer == Answer::Block(entry));
    assert(allocates(t[entered], struct_type(structure), object));
    lemma_object_field_holds(
        t,
        entered,
        hi,
        function,
        object,
        fields,
        tag,
        0,
        Operand::Int { bits: 8, value: tag },
    );
    assert forall|i: int| 1 <= i < fields.len() implies #[trigger] holds_argument(
        t,
        entered,
        hi,
        function,
        object,
        fields.len() - 1,
        i,
        fields[i],
    ) by {
        let argument = lemma_filler(t, entered, filled, hi, function, object, fields, i);
        let value = filler(t, filled, fields.len() - 1, i);
        lemma_object_field_holds(
            t,
            entered,
            hi,
            function,
            object,
            fields,
            tag,
            i,
            Operand::Pointer(value),
        );
        assert(is_argument(t, entered, hi, function, fields.len() - 1, i, argument));
    }
    assert(makes_values(
        t,
        at,
        hi,
        name,
        structure,
        fields,
        tag,
        function,
        entry,
        entered,
        object,
    ));
    lemma_constructor_found(
        declarations,
        inductive_name,
        Member {
            name: constructor.name@,
            llvm_struct_type: structure,
            llvm_function: address_of(function),
        },
    );
}

/// A constructor that is added is found last.
proof fn lemma_constructor_found<'ctx>(
    declarations: Seq<Entry<'ctx>>,
    name: Seq<char>,
    member: Member<'ctx>,
)
    requires
        find_inductive(declarations, name) is Some,
    ensures
        find_inductive(with_constructor(declarations, name, member), name) == find_inductive(
            declarations,
            name,
        ),
        find_constructors(with_constructor(declarations, name, member), name) == Some(
            find_constructors(declarations, name)->0.push(member),
        ),
{
    let after = with_constructor(declarations, name, member);
    lemma_find_inductive(declarations, name);
    lemma_find_inductive(after, name);
    let i = find_inductive(declarations, name)->0;
    assert(declares_inductive(after[i], name));
    assert forall|j: int| 0 <= j < i implies !declares_inductive(#[trigger] after[j], name) by {
        assert(after[j] == declarations[j]);
    }
}

/// The constructors that have been compiled are found in order: constructor `i` of
/// the first `n` is where the ones before it end.
proof fn lemma_constructors_parts<'ctx>(
    declarations: Seq<Entry<'ctx>>,
    t: Trace<'ctx>,
    at: int,
    name: Seq<char>,
    constructors: Seq<Constructor>,
    n: nat,
    i: int,
)
    requires
        find_inductive(declarations, name) is Some,
        0 <= i < n <= constructors.len(),
        constructors_at(declarations, t, at, name, constructors, n) is Some,
    ensures
        ({
            let all = constructors_at(declarations, t, at, name, constructors, n)->0;
            let before = constructors_at(declarations, t, at, name, constructors, i as nat);
            let including = constructors_at(
                declarations,
                t,
                at,
                name,
                constructors,
                (i + 1) as nat,
            );
            let old = find_constructors(declarations, name)->0;
            let found = find_constructors(all.declarations, name)->0;
            &&& before is Some
            &&& including is Some
            &&& constructor_at(
                before->0.declarations,
                t,
                before->0.end,
                name,
                i,
                constructors[i],
            ) == including
            &&& find_inductive(all.declarations, name) == find_inductive(declarations, name)
            &&& find_inductive(before->0.declarations, name) == find_inductive(declarations, name)
            &&& found.len() == old.len() + n
            &&& find_constructors(before->0.declarations, name)->0.len() == old.len() + i
            &&& found[old.len() + i] == find_constructors(
                including->0.declarations,
                name,
            )->0.last()
            &&& at <= before->0.end <= including->0.end <= all.end
        }),
    decreases n,
{
    let before = constructors_at(declarations, t, at, name, constructors, (n - 1) as nat)->0;
    lemma_constructors_found(declarations, t, at, name, constructors, (n - 1) as nat);
    lemma_constructors_found(declarations, t, at, name, constructors, n);
    lemma_constructor_adds(before.declarations, t, before.end, name, n - 1, constructors[n - 1]);
    if i < n - 1 {
        lemma_constructors_parts(declarations, t, at, name, constructors, (n - 1) as nat, i);
    }
}

proof fn lemma_constructor_adds<'ctx>(
    declarations: Seq<Entry<'ctx>>,
    t: Trace<'ctx>,
    at: int,
    name: Seq<char>,
    index: int,
    constructor: Constructor,
)
    requires
        constructor_at(declarations, t, at, name, index, constructor) is Some,
    ensures
        ({
            let after = constructor_at(declarations, t, at, name, index, constructor)->0;
            let old = find_constructors(declarations, name)->0;
            let found = find_constructors(after.declarations, name)->0;
            &&& at <= after.end
            &&& find_inductive(after.declarations, name) == find_inductive(declarations, name)
            &&& found.len() == old.len() + 1
            &&& found.drop_last() == old
        }),
{
    let structure = struct_at(t, at);
    let member = Member {
        name: constructor.name@,
        llvm_struct_type: structure,
        llvm_function: address_of(function_at(t, at + 2)),
    };
    lemma_constructor_found(declarations, name, member);
    let old = find_constructors(declarations, name)->0;
    assert(old.push(member).drop_last() =~= old);
}

proof fn lemma_constructors_found<'ctx>(
    declarations: Seq<Entry<'ctx>>,
    t: Trace<'ctx>,
    at: int,
    name: Seq<char>,
    constructors: Seq<Constructor>,
    n: nat,
)
    requires
        find_inductive(declarations, name) is Some,
        n <= constructors.len(),
        constructors_at(declarations, t, at, name, constructors, n) is Some,
    ensures
        ({
            let after = constructors_at(declarations, t, at, name, constructors, n)->0;
            &&& at <= after.end
            &&& find_inductive(after.declarations, name) == find_inductive(declarations, name)
            &&& find_constructors(after.declarations, name)->0.len() == find_constructors(
                declarations,
                name,
            )->0.len() + n
        }),
    decreases n,
{
    if n > 0 {
        let before = constructors_at(declarations, t, at, name, constructors, (n - 1) as nat)->0;
        lemma_constructors_found(declarations, t, at, name, constructors, (n - 1) as nat);
        lemma_constructor_adds(
            before.declarations,
            t,
            before.end,
            name,
            n - 1,
            constructors[n - 1],
        );
    }
}

/// One more constructor changes no type.
proof fn lemma_same_leaf_types<'ctx>(
    declarations: Seq<Entry<'ctx>>,
    name: Seq<char>,
    member: Member<'ctx>,
    constructor_type: Term,
)
    requires
        find_inductive(declarations, name) is Some,
    ensures
        leaf_types(with_constructor(declarations, name, member), constructor_type) == leaf_types(
            declarations,
            constructor_type,
        ),
    decreases constructor_type,
{
    match constructor_type {
        Term::DependentProduct { parameter_type, return_type, .. } => {
            lemma_same_leaf_types(declarations, name, member, *parameter_type);
            lemma_same_leaf_types(declarations, name, member, *return_type);
        },
        Term::Inductive(mentioned) => {
            let after = with_constructor(declarations, name, member);
            lemma_find_inductive(declarations, name);
            lemma_find_inductive(declarations, mentioned@);
            lemma_find_inductive(after, mentioned@);
            let i = find_inductive(declarations, name)->0;
            assert forall|j: int| 0 <= j < declarations.len() implies declares_inductive(
                #[trigger] after[j],
                mentioned@,
            ) == declares_inductive(declarations[j], mentioned@) by {}
            match (
                find_inductive(declarations, mentioned@),
                find_inductive(after, mentioned@),
            ) {
                (Some(a), Some(b)) => {
                    assert(declares_inductive(after[a], mentioned@));
                    assert(declares_inductive(declarations[b], mentioned@));
                },
                (Some(a), None) => {
                    assert(declares_inductive(after[a], mentioned@));
                },
                (None, Some(b)) => {
                    assert(declares_inductive(declarations[b], mentioned@));
                },
                (None, None) => {},
            }
        },
        _ => {},
    }
}

proof fn lemma_constructors_same_types<'ctx>(
    declarations: Seq<Entry<'ctx>>,
    t: Trace<'ctx>,
    at: int,
    name: Seq<char>,
    constructors: Seq<Constructor>,
    n: nat,
    constructor_type: Term,
)
    requires
        find_inductive(declarations, name) is Some,
        n <= constructors.len(),
        constructors_at(declarations, t, at, name, constructors, n) is Some,
    ensures
        leaf_types(
            constructors_at(declarations, t, at, name, constructors, n)->0.declarations,
            constructor_type,
        ) == leaf_types(declarations, constructor_type),
    decreases n,
{
    if n > 0 {
        let before = constructors_at(declarations, t, at, name, constructors, (n - 1) as nat)->0;
        lemma_constructors_same_types(
            declarations,
            t,
            at,
            name,
            constructors,
            (n - 1) as nat,
            constructor_type,
        );
        lemma_same_leaf_types(
            before.declarations,
            name,
            Member {
                name: constructors[n - 1].name@,
                llvm_struct_type: struct_at(t, before.end),
                llvm_function: address_of(function_at(t, before.end + 2)),
            },
            constructor_type,
        );
    }
}

/// The types that a constructor with code is declared with are known.
pub proof fn lemma_constructor_types_known<'ctx>(
    declarations: Seq<Entry<'ctx>>,
    t: Trace<'ctx>,
    at: int,
    name: Seq<char>,
    constructors: Seq<Constructor>,
    n: nat,
    i: int,
)
    requires
        find_inductive(declarations, name) is Some,
        0 <= i < n <= constructors.len(),
        constructors_at(declarations, t, at, name, constructors, n) is Some,
    ensures
        leaf_types(declarations, constructors[i].typ) is Some,
{
    lemma_constructors_parts(declarations, t, at, name, constructors, n, i);
    lemma_constructors_same_types(
        declarations,
        t,
        at,
        name,
        constructors,
        i as nat,
        constructors[i].typ,
    );
}

/// The calls from `at` to `end` make constructor `i` of the type, which has this
/// structure and this function in `declarations`.
pub open spec fn is_constructor<'ctx>(
    declarations: Seq<Entry<'ctx>>,
    t: Trace<'ctx>,
    at: int,
    end: int,
    inductive: Inductive,
    i: int,
    structure: StructType<'ctx>,
    function: FunctionValue<'ctx>,
    lo: int,
    hi: int,
    entry: BasicBlock<'ctx>,
    entered: int,
    object: PointerValue<'ctx>,
) -> bool {
    let constructor = inductive.constructors@[i];
    &&& at <= lo
    &&& hi <= end
    &&& makes_values(
        t,
        lo,
        hi,
        inductive.name@ + "_"@ + constructor.name@,
        structure,
        constructor_fields(declarations, constructor.typ),
        (i % 0x100) as nat,
        function,
        entry,
        entered,
        object,
    )
    &&& find_constructors(declarations, inductive.name@) matches Some(constructors)
        && constructors.len() == inductive.constructors@.len() && constructors[i] == (Member {
        name: constructor.name@,
        llvm_struct_type: structure,
        llvm_function: address_of(function),
    })
}

/// An inductive type of a new name has, for each constructor that it is declared
/// with, in order, a function of its own: named after the constructor, it makes
/// values with the constructor's place as the tag.
pub proof fn law_inductive_has_its_constructors<'ctx>(
    declarations: Seq<Entry<'ctx>>,
    t: Trace<'ctx>,
    at: int,
    inductive: Inductive,
    i: int,
)
    requires
        places_differ(t),
        find_inductive(declarations, inductive.name@) is None,
        inductive_at(declarations, t, at, inductive) is Some,
        0 <= i < inductive.constructors@.len(),
    ensures
        ({
            let after = inductive_at(declarations, t, at, inductive)->0;
            exists|
                structure: StructType<'ctx>,
                function: FunctionValue<'ctx>,
                lo: int,
                hi: int,
                entry: BasicBlock<'ctx>,
                entered: int,
                object: PointerValue<'ctx>,
            | #[trigger]
                is_constructor(
                    after.declarations,
                    t,
                    at,
                    after.end,
                    inductive,
                    i,
                    structure,
                    function,
                    lo,
                    hi,
                    entry,
                    entered,
                    object,
                )
        }),
{
    let name = inductive.name@;
    let constructors = inductive.constructors@;
    let count = constructors.len();
    let after = inductive_at(declarations, t, at, inductive)->0;
    let pushed = declarations.push(bare(name, struct_at(t, at)));
    lemma_new_is_found(declarations, name, struct_at(t, at));
    let all = constructors_at(pushed, t, at + 1, name, constructors, count)->0;
    lemma_constructors_parts(pushed, t, at + 1, name, constructors, count, i);
    let before = constructors_at(pushed, t, at + 1, name, constructors, i as nat)->0;
    let including = constructors_at(pushed, t, at + 1, name, constructors, (i + 1) as nat)->0;
    let typ = constructors[i].typ;
    lemma_constructors_same_types(pushed, t, at + 1, name, constructors, i as nat, typ);
    lemma_constructors_same_types(pushed, t, at + 1, name, constructors, count, typ);
    law_constructor_function_makes_values(
        before.declarations,
        t,
        before.end,
        name,
        i,
        constructors[i],
    );
    let fields = constructor_fields(before.declarations, typ);
    let label = name + "_"@ + constructors[i].name@;
    let tag = (i % 0x100) as nat;
    let old = find_constructors(before.declarations, name)->0;
    let (structure, function, entry, entered, object) = choose|
        structure: StructType<'ctx>,
        function: FunctionValue<'ctx>,
        entry: BasicBlock<'ctx>,
        entered: int,
        object: PointerValue<'ctx>,
    |
        #[trigger] makes_values(
            t,
            before.end,
            including.end,
            label,
            structure,
            fields,
            tag,
            function,
            entry,
            entered,
            object,
        ) && find_constructors(including.declarations, name) == Some(
            old.push(
                Member {
                    name: constructors[i].name@,
                    llvm_struct_type: structure,
                    llvm_function: address_of(function),
                },
            ),
        );
    assert(find_constructors(pushed, name)->0.len() == 0);
    assert(is_constructor(
        after.declarations,
        t,
        at,
        after.end,
        inductive,
        i,
        structure,
        function,
        before.end,
        including.end,
        entry,
        entered,
        object,
    ));
}

/// A new inductive type is found, without constructors.
proof fn lemma_new_is_found<'ctx>(
    declarations: Seq<Entry<'ctx>>,
    name: Seq<char>,
    structure: StructType<'ctx>,
)
    requires
        find_inductive(declarations, name) is None,
    ensures
        find_inductive(declarations.push(bare(name, structure)), name) == Some(
            declarations.len() as int,
        ),
        find_constructors(declarations.push(bare(name, structure)), name) == Some(
            Seq::<Member<'ctx>>::empty(),
        ),
{
    let pushed = declarations.push(bare(name, structure));
    lemma_find_inductive(declarations, name);
    lemma_find_inductive(pushed, name);
    assert(declares_inductive(pushed[declarations.len() as int], name));
    assert forall|j: int| 0 <= j < declarations.len() implies !declares_inductive(
        #[trigger] pushed[j],
        name,
    ) by {
        assert(pushed[j] == declarations[j]);
    }
}

/// What is declared later does not change which constructors a name has.
proof fn lemma_still_found<'ctx>(
    declarations: Seq<Entry<'ctx>>,
    later: Seq<Entry<'ctx>>,
    name: Seq<char>,
)
    requires
        find_inductive(declarations, name) is Some,
        declarations.is_prefix_of(later),
    ensures
        find_inductive(later, name) == find_inductive(declarations, name),
        find_constructors(later, name) == find_constructors(declarations, name),
{
    lemma_find_inductive(declarations, name);
    lemma_find_inductive(later, name);
    let i = find_inductive(declarations, name)->0;
    assert forall|j: int| 0 <= j < declarations.len() implies #[trigger] later[j]
        == declarations[j] by {}
    assert(declares_inductive(later[i], name));
}

/// A mention of constructor `i` of a type is a closure over the function that was
/// made for constructor `i` of the type's declaration.
pub proof fn law_constructor_name_is_its_function<'ctx>(
    declarations: Seq<Entry<'ctx>>,
    t: Trace<'ctx>,
    at: int,
    inductive: Inductive,
    later: Seq<Entry<'ctx>>,
    mentioned: int,
    term: Term,
    scope: Seq<PointerValue<'ctx>>,
    fixpoints: Seq<Recursion<'ctx>>,
    function: FunctionValue<'ctx>,
    block: BasicBlock<'ctx>,
)
    requires
        places_differ(t),
        find_inductive(declarations, inductive.name@) is None,
        inductive_at(declarations, t, at, inductive) matches Some(after)
            && after.declarations.is_prefix_of(later),
        term matches Term::Constructor(name, _) && name@ == inductive.name@,
        term_at(later, t, mentioned, term, scope, fixpoints, function, block) is Some,
    ensures
        ({
            let after = inductive_at(declarations, t, at, inductive)->0;
            let result = term_at(
                later,
                t,
                mentioned,
                term,
                scope,
                fixpoints,
                function,
                block,
            )->0;
            exists|
                structure: StructType<'ctx>,
                made_for: FunctionValue<'ctx>,
                lo: int,
                hi: int,
                entry: BasicBlock<'ctx>,
                entered: int,
                object: PointerValue<'ctx>,
            | #[trigger]
                is_constructor(
                    after.declarations,
                    t,
                    at,
                    after.end,
                    inductive,
                    term->Constructor_1 as int,
                    structure,
                    made_for,
                    lo,
                    hi,
                    entry,
                    entered,
                    object,
                ) && is_bare_closure(t, mentioned, result, block, address_of(made_for))
        }),
{
    let name = inductive.name@;
    let i = term->Constructor_1 as int;
    let after = inductive_at(declarations, t, at, inductive)->0;
    let result = term_at(later, t, mentioned, term, scope, fixpoints, function, block)->0;
    lemma_still_found(after.declarations, later, name);
    lemma_inductive_count(declarations, t, at, inductive);
    law_inductive_has_its_constructors(declarations, t, at, inductive, i);
    let (structure, made_for, lo, hi, entry, entered, object) = choose|
        structure: StructType<'ctx>,
        made_for: FunctionValue<'ctx>,
        lo: int,
        hi: int,
        entry: BasicBlock<'ctx>,
        entered: int,
        object: PointerValue<'ctx>,
    | #[trigger]
        is_constructor(
            after.declarations,
            t,
            at,
            after.end,
            inductive,
            i,
            structure,
            made_for,
            lo,
            hi,
            entry,
            entered,
            object,
        );
    lemma_bare_closure(
        t,
        mentioned,
        address_of(made_for),
        "temp_constructor_empty_captures_struct"@,
        block,
    );
}

proof fn lemma_inductive_count<'ctx>(
    declarations: Seq<Entry<'ctx>>,
    t: Trace<'ctx>,
    at: int,
    inductive: Inductive,
)
    requires
        find_inductive(declarations, inductive.name@) is None,
        inductive_at(declarations, t, at, inductive) is Some,
    ensures
        find_constructors(
            inductive_at(declarations, t, at, inductive)->0.declarations,
            inductive.name@,
        ) matches Some(found) && found.len() == inductive.constructors@.len(),
{
    let name = inductive.name@;
    lemma_new_is_found(declarations, name, struct_at(t, at));
    lemma_constructors_found(
        declarations.push(bare(name, struct_at(t, at))),
        t,
        at + 1,
        name,
        inductive.constructors@,
        inductive.constructors@.len(),
    );
}

/// A constructor takes one argument for each type that it is declared with, in
/// order; what it gives is not an argument.
pub proof fn law_constructor_fields_are_its_arguments<'ctx>(
    declarations: Seq<Entry<'ctx>>,
    constructor_type: Term,
)
    requires
        leaf_types(declarations, constructor_type) is Some,
    ensures
        match constructor_type {
            Term::DependentProduct { parameter_type, return_type, .. } => {
                let rest = constructor_fields(declarations, *return_type);
                let fields = constructor_fields(declarations, constructor_type);
                match *parameter_type {
                    Term::Inductive(name) => fields == seq![
                        rest[0],
                        declarations[find_inductive(
                            declarations,
                            name@,
                        )->0]->Inductive_1.llvm_type,
                    ] + rest.skip(1),
                    Term::DeBruijnIndex(_) => fields == seq![rest[0], generic_pointer()]
                        + rest.skip(1),
                    _ => fields.len() > rest.len(),
                }
            },
            _ => constructor_fields(declarations, constructor_type) == seq![Ty::<'ctx>::I8],
        },
{
    lemma_leaf_types(Seq::empty(), declarations, constructor_type);
    if let Term::DependentProduct { parameter_type, return_type, .. } = constructor_type {
        lemma_leaf_types(Seq::empty(), declarations, *parameter_type);
        lemma_leaf_types(Seq::empty(), declarations, *return_type);
        let rest = constructor_fields(declarations, *return_type);
        let fields = constructor_fields(declarations, constructor_type);
        match *parameter_type {
            Term::Inductive(name) => {
                let ty = declarations[find_inductive(
                    declarations,
                    name@,
                )->0]->Inductive_1.llvm_type;
                assert(fields =~= seq![rest[0], ty] + rest.skip(1));
            },
            Term::DeBruijnIndex(_) => {
                assert(fields =~= seq![rest[0], generic_pointer()] + rest.skip(1));
            },
            _ => {},
        }
    } else {
        assert(constructor_fields(declarations, constructor_type) =~= seq![Ty::<'ctx>::I8]);
    }
}

/// Constructor `i` takes as much room as any other, and more than those after it.
pub open spec fn is_largest<'ctx>(
    declarations: Seq<Entry<'ctx>>,
    constructors: Seq<Constructor>,
    i: int,
) -> bool {
    &&& 0 <= i < constructors.len()
    &&& forall|j: int|
        0 <= j < constructors.len() ==> constructor_fields(
            declarations,
            (#[trigger] constructors[j]).typ,
        ).len() <= constructor_fields(declarations, constructors[i].typ).len()
    &&& forall|j: int|
        i < j < constructors.len() ==> constructor_fields(
            declarations,
            (#[trigger] constructors[j]).typ,
        ).len() < constructor_fields(declarations, constructors[i].typ).len()
}

/// The structure of a type has the fields of the largest constructor, and the type
/// is that of pointers to it.
pub open spec fn is_type<'ctx>(
    declarations: Seq<Entry<'ctx>>,
    t: Trace<'ctx>,
    at: int,
    end: int,
    inductive: Inductive,
    structure: StructType<'ctx>,
    largest: int,
) -> bool {
    let name = inductive.name@;
    let constructors = inductive.constructors@;
    &&& is_structure(t, at, end, name, structure)
    &&& find_inductive(declarations, name) matches Some(i)
        && declarations[i]->Inductive_1.llvm_type == Ty::Pointer(Box::new(struct_type(structure)))
    &&& constructors.len() > 0 ==> is_largest(declarations, constructors, largest) && body(
        t,
        structure,
    ) == Some(constructor_fields(declarations, constructors[largest].typ))
}

proof fn lemma_fields_of_constructor<'ctx>(
    declarations: Seq<Entry<'ctx>>,
    t: Trace<'ctx>,
    at: int,
    inductive: Inductive,
    j: int,
)
    requires
        places_differ(t),
        find_inductive(declarations, inductive.name@) is None,
        inductive_at(declarations, t, at, inductive) is Some,
        0 <= j < inductive.constructors@.len(),
    ensures
        ({
            let after = inductive_at(declarations, t, at, inductive)->0.declarations;
            let found = find_constructors(after, inductive.name@)->0;
            fields_of(t, found[j].llvm_struct_type) == constructor_fields(
                after,
                inductive.constructors@[j].typ,
            )
        }),
{
    law_inductive_has_its_constructors(declarations, t, at, inductive, j);
}

/// What was declared before an inductive type stays as it was; the type is new, and
/// its values are pointers to a structure that any constructor's values fit in.
pub proof fn law_inductive_has_its_type<'ctx>(
    declarations: Seq<Entry<'ctx>>,
    t: Trace<'ctx>,
    at: int,
    inductive: Inductive,
)
    requires
        places_differ(t),
        find_inductive(declarations, inductive.name@) is None,
        inductive_at(declarations, t, at, inductive) is Some,
    ensures
        ({
            let after = inductive_at(declarations, t, at, inductive)->0;
            &&& declarations.is_prefix_of(after.declarations)
            &&& after.declarations.len() == declarations.len() + 1
            &&& exists|structure: StructType<'ctx>, largest: int| #[trigger]
                is_type(after.declarations, t, at, after.end, inductive, structure, largest)
        }),
{
    let name = inductive.name@;
    let constructors = inductive.constructors@;
    let count = constructors.len();
    let after = inductive_at(declarations, t, at, inductive)->0;
    let structure = struct_at(t, at);
    let pushed = declarations.push(bare(name, structure));
    lemma_new_is_found(declarations, name, structure);
    lemma_constructors_found(pushed, t, at + 1, name, constructors, count);
    lemma_only_new_changes(pushed, t, at + 1, name, constructors, count);
    lemma_inductive_count(declarations, t, at, inductive);
    let found = find_constructors(after.declarations, name)->0;
    let counts = field_counts(t, found);
    let chosen = largest(counts, count);
    assert(t[at].answer == Answer::Struct(structure));
    assert(is_structure(t, at, after.end, name, structure));
    if count > 0 {
        law_largest(counts, count);
        assert forall|j: int| 0 <= j < count implies constructor_fields(
            after.declarations,
            (#[trigger] constructors[j]).typ,
        ).len() == counts[j] by {
            lemma_fields_of_constructor(declarations, t, at, inductive, j);
        }
        lemma_fields_of_constructor(declarations, t, at, inductive, chosen);
        assert(is_largest(after.declarations, constructors, chosen));
    }
    assert(is_type(after.declarations, t, at, after.end, inductive, structure, chosen));
}

/// Only the type that gets constructors changes.
proof fn lemma_only_new_changes<'ctx>(
    declarations: Seq<Entry<'ctx>>,
    t: Trace<'ctx>,
    at: int,
    name: Seq<char>,
    constructors: Seq<Constructor>,
    n: nat,
)
    requires
        find_inductive(declarations, name) is Some,
        n <= constructors.len(),
        constructors_at(declarations, t, at, name, constructors, n) is Some,
    ensures
        ({
            let after = constructors_at(declarations, t, at, name, constructors, n)->0.declarations;
            let i = find_inductive(declarations, name)->0;
            &&& after.len() == declarations.len()
            &&& find_inductive(after, name) == Some(i)
            &&& forall|j: int|
                0 <= j < after.len() && j != i ==> #[trigger] after[j] == declarations[j]
            &&& after[i] is Inductive && after[i]->Inductive_1.llvm_type
                == declarations[i]->Inductive_1.llvm_type
        }),
    decreases n,
{
    lemma_find_inductive(declarations, name);
    if n > 0 {
        let before = constructors_at(declarations, t, at, name, constructors, (n - 1) as nat)->0;
        lemma_only_new_changes(declarations, t, at, name, constructors, (n - 1) as nat);
        lemma_find_inductive(before.declarations, name);
        lemma_constructor_adds(
            before.declarations,
            t,
            before.end,
            name,
            n - 1,
            constructors[n - 1],
        );
    }
}

/// Among the calls from `lo` to `hi`, code is left only by returning, from a block
/// that one of them has appended.
pub open spec fn returns_from_own_blocks<'ctx>(t: Trace<'ctx>, lo: int, hi: int) -> bool {
    forall|k: int|
        lo <= k < hi && leaves(#[trigger] t[k]) ==> t[k].request is Return && exists|
            function: FunctionValue<'ctx>,
            block: BasicBlock<'ctx>,
        | #[trigger] is_appended(t, lo, k, function, block) && stands(t, k, block)
}

proof fn lemma_constructors_return<'ctx>(
    declarations: Seq<Entry<'ctx>>,
    t: Trace<'ctx>,
    at: int,
    name: Seq<char>,
    constructors: Seq<Constructor>,
    n: nat,
    lo: int,
)
    requires
        places_differ(t),
        find_inductive(declarations, name) is Some,
        n <= constructors.len(),
        constructors_at(declarations, t, at, name, constructors, n) is Some,
        lo <= at,
        returns_from_own_blocks(t, lo, at),
    ensures
        returns_from_own_blocks(
            t,
            lo,
            constructors_at(declarations, t, at, name, constructors, n)->0.end,
        ),
    decreases n,
{
    if n > 0 {
        lemma_constructors_return(
            declarations,
            t,
            at,
            name,
            constructors,
            (n - 1) as nat,
            lo,
        );
        lemma_constructors_found(declarations, t, at, name, constructors, (n - 1) as nat);
        let before = constructors_at(declarations, t, at, name, constructors, (n - 1) as nat)->0;
        let after = constructors_at(declarations, t, at, name, constructors, n)->0;
        law_constructor_function_makes_values(
            before.declarations,
            t,
            before.end,
            name,
            n - 1,
            constructors[n - 1],
        );
        let label = name + "_"@ + constructors[n - 1].name@;
        let fields = constructor_fields(before.declarations, constructors[n - 1].typ);
        let tag = ((n - 1) % 0x100) as nat;
        let (structure, function, entry, entered, object) = choose|
            structure: StructType<'ctx>,
            function: FunctionValue<'ctx>,
            entry: BasicBlock<'ctx>,
            entered: int,
            object: PointerValue<'ctx>,
        | #[trigger]
            makes_values(
                t,
                before.end,
                after.end,
                label,
                structure,
                fields,
                tag,
                function,
                entry,
                entered,
                object,
            );
        let last = after.end - 1;
        assert(is_appended(t, lo, last, function, entry)) by {
            let j = choose|j: int|
                before.end <= j < entered && (#[trigger] t[j]).answer == Answer::Block(entry) && (
                t[j].request matches Request::AppendBlock { function: to, .. } && to == function);
            assert(lo <= j < last && t[j].answer == Answer::Block(entry));
        }
        lemma_stays(t, entered, last);
        assert(stands(t, last, entry));
        assert forall|k: int| lo <= k < after.end && leaves(#[trigger] t[k]) implies t[k].request
            is Return && exists|function: FunctionValue<'ctx>, block: BasicBlock<'ctx>| #[trigger]
            is_appended(t, lo, k, function, block) && stands(t, k, block) by {}
    }
}

/// The code of an inductive type is in functions of its own: it neither ends nor
/// goes on in code that was there before.
pub proof fn law_inductive_code_is_its_own<'ctx>(
    declarations: Seq<Entry<'ctx>>,
    t: Trace<'ctx>,
    at: int,
    inductive: Inductive,
)
    requires
        places_differ(t),
        inductive_at(declarations, t, at, inductive) is Some,
    ensures
        returns_from_own_blocks(t, at, inductive_at(declarations, t, at, inductive)->0.end),
{
    let name = inductive.name@;
    let structure = struct_at(t, at);
    let pushed = declarations.push(bare(name, structure));
    lemma_find_inductive(pushed, name);
    assert(declares_inductive(pushed[declarations.len() as int], name));
    lemma_constructors_return(
        pushed,
        t,
        at + 1,
        name,
        inductive.constructors@,
        inductive.constructors@.len(),
        at,
    );
}

} // verus!
