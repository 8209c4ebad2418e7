//! The calls that lay out an inductive type and make its constructors.
use inkwell::types::StructType;
use inkwell::values::{FunctionValue, PointerValue};
use vstd::prelude::*;

use crate::codegen::emission::{captures_type, curried_function_at};
use crate::codegen::environment::global::{
    find_constructors, find_inductive, with_constructor, Entry, Family, Member,
};
use crate::codegen::globals::{field_counts, fields_of};
use crate::hir::ir::{Constructor, Inductive, Term};
use crate::llvm::session::{address_of, parameter_of, struct_type};
use crate::llvm::trace::{
    body, function_at, generic_pointer, made, pointer_at, struct_at, Operand, Request, Trace, Ty,
};
use crate::text::numbered;

verus! {

/// What the calls for a declaration amount to.
pub struct Declared<'ctx> {
    /// The first call that is not part of them.
    pub end: int,
    /// The declarations that have been compiled afterwards.
    pub declarations: Seq<Entry<'ctx>>,
}

/// The name of a constructor's structure and function.
pub open spec fn constructor_name(inductive: Seq<char>, constructor: Seq<char>) -> Seq<char> {
    inductive + "_"@ + constructor
}

/// The types that a constructor's type names, the result included.
pub open spec fn leaf_types<'ctx>(
    declarations: Seq<Entry<'ctx>>,
    constructor_type: Term,
) -> Option<Seq<Ty<'ctx>>>
    decreases constructor_type,
{
    match constructor_type {
        Term::DependentProduct { parameter_type, return_type, .. } => match (
            leaf_types(declarations, *parameter_type),
            leaf_types(declarations, *return_type),
        ) {
            (Some(parameters), Some(results)) => Some(parameters + results),
            _ => None,
        },
        Term::Inductive(name) => match find_inductive(declarations, name@) {
            Some(i) => Some(seq![declarations[i]->Inductive_1.llvm_type]),
            None => None,
        },
        Term::DeBruijnIndex(_) => Some(seq![generic_pointer()]),
        _ => None,
    }
}

/// The fields of a constructor's structure: a tag, and what the constructor takes.
pub open spec fn constructor_fields<'ctx>(
    declarations: Seq<Entry<'ctx>>,
    constructor_type: Term,
) -> Seq<Ty<'ctx>> {
    seq![Ty::I8] + leaf_types(declarations, constructor_type)->0.drop_last()
}

/// The structure of a constructor is made, and has these fields.
pub open spec fn constructor_type_at<'ctx>(
    declarations: Seq<Entry<'ctx>>,
    t: Trace<'ctx>,
    at: int,
    name: Seq<char>,
    constructor_type: Term,
) -> bool {
    &&& made(t, at, Request::OpaqueStruct { name })
    &&& made(
        t,
        at + 1,
        Request::SetBody {
            structure: struct_at(t, at),
            fields: constructor_fields(declarations, constructor_type),
        },
    )
    &&& body(t, struct_at(t, at)) == Some(constructor_fields(declarations, constructor_type))
}

/// A constructor's last argument, its function's own parameter, is stored.
pub open spec fn parameter_stored_at<'ctx>(
    t: Trace<'ctx>,
    at: int,
    function: FunctionValue<'ctx>,
    object: PointerValue<'ctx>,
    i: int,
    ty: Ty<'ctx>,
) -> bool {
    &&& made(
        t,
        at,
        Request::StructGep {
            pointer: object,
            index: i as nat,
            name: numbered("field_"@, i as nat, ""@),
        },
    )
    &&& made(
        t,
        at + 1,
        Request::Bitcast {
            value: parameter_of(function, 0),
            ty,
            name: "parameter_pointer_cast"@,
        },
    )
    &&& made(
        t,
        at + 2,
        Request::Store {
            pointer: pointer_at(t, at),
            value: Operand::Pointer(pointer_at(t, at + 1)),
        },
    )
}

/// Another argument of a constructor, one of the `captures` that its function
/// gets, is stored.
pub open spec fn capture_stored_at<'ctx>(
    t: Trace<'ctx>,
    at: int,
    function: FunctionValue<'ctx>,
    captures: nat,
    object: PointerValue<'ctx>,
    i: int,
    ty: Ty<'ctx>,
) -> bool {
    &&& made(
        t,
        at,
        Request::StructGep {
            pointer: object,
            index: i as nat,
            name: numbered("field_"@, i as nat, ""@),
        },
    )
    &&& made(
        t,
        at + 1,
        Request::Bitcast {
            value: parameter_of(function, 1),
            ty: Ty::Pointer(Box::new(captures_type(captures))),
            name: "casted_captures_struct_pointer"@,
        },
    )
    &&& made(
        t,
        at + 2,
        Request::StructGep {
            pointer: pointer_at(t, at + 1),
            index: (i - 1) as nat,
            name: numbered("environment_field_"@, i as nat, "_address"@),
        },
    )
    &&& made(
        t,
        at + 3,
        Request::Load {
            pointer: pointer_at(t, at + 2),
            name: numbered("environment_field_"@, i as nat, ""@),
        },
    )
    &&& made(
        t,
        at + 4,
        Request::Bitcast {
            value: pointer_at(t, at + 3),
            ty,
            name: "capture_field_pointer_cast"@,
        },
    )
    &&& made(
        t,
        at + 5,
        Request::Store {
            pointer: pointer_at(t, at),
            value: Operand::Pointer(pointer_at(t, at + 4)),
        },
    )
    &&& t[at + 3].answer is Pointer
}

/// The fields of a constructor's structure are filled, up to field `n`.
pub open spec fn constructor_filled_at<'ctx>(
    t: Trace<'ctx>,
    at: int,
    function: FunctionValue<'ctx>,
    object: PointerValue<'ctx>,
    fields: Seq<Ty<'ctx>>,
    n: int,
) -> bool {
    &&& forall|i: int|
        1 <= i < n && i < fields.len() - 1 ==> #[trigger] capture_stored_at(
            t,
            at + 6 * (i - 1),
            function,
            (fields.len() - 2) as nat,
            object,
            i,
            fields[i],
        )
    &&& 1 < fields.len() == n ==> parameter_stored_at(
        t,
        at + 6 * (n - 2),
        function,
        object,
        n - 1,
        fields[n - 1],
    )
}

/// How many calls fill the fields of a constructor's structure before field `n`.
pub open spec fn filling_calls(fields: nat, n: int) -> int {
    if n <= 1 {
        0
    } else if n < fields {
        6 * (n - 1)
    } else {
        6 * (n - 2) + 3
    }
}

/// How many calls make the function of a constructor.
pub open spec fn constructor_function_calls(fields: nat) -> int {
    filling_calls(fields, fields as int) + 7
}

/// The function of a constructor is made: it allocates the structure, stores the
/// tag and the fields, and returns the structure.
pub open spec fn constructor_function_at<'ctx>(
    t: Trace<'ctx>,
    at: int,
    tag: nat,
    name: Seq<char>,
    structure: StructType<'ctx>,
    fields: Seq<Ty<'ctx>>,
) -> bool {
    let object = pointer_at(t, at + 3);
    &&& curried_function_at(t, at, Ty::Pointer(Box::new(struct_type(structure))), name)
    &&& made(
        t,
        at + 3,
        Request::Malloc { ty: struct_type(structure), name: "constructor_struct"@ },
    )
    &&& made(
        t,
        at + 4,
        Request::StructGep { pointer: object, index: 0, name: "constructor_tag"@ },
    )
    &&& made(
        t,
        at + 5,
        Request::Store {
            pointer: pointer_at(t, at + 4),
            value: Operand::Int { bits: 8, value: tag },
        },
    )
    &&& constructor_filled_at(
        t,
        at + 6,
        function_at(t, at),
        object,
        fields,
        fields.len() as int,
    )
    &&& made(
        t,
        at + constructor_function_calls(fields.len()) - 1,
        Request::Return { value: Operand::Pointer(object) },
    )
}

/// The calls for a constructor of an inductive type, from call `at` on.
pub open spec fn constructor_at<'ctx>(
    declarations: Seq<Entry<'ctx>>,
    t: Trace<'ctx>,
    at: int,
    inductive_name: Seq<char>,
    index: int,
    constructor: Constructor,
) -> Option<Declared<'ctx>> {
    let name = constructor_name(inductive_name, constructor.name@);
    let structure = struct_at(t, at);
    let fields = constructor_fields(declarations, constructor.typ);
    if find_inductive(declarations, inductive_name) is Some && leaf_types(
        declarations,
        constructor.typ,
    ) is Some && constructor_type_at(declarations, t, at, name, constructor.typ)
        && constructor_function_at(
        t,
        at + 2,
        (index % 0x100) as nat,
        name,
        structure,
        fields,
    ) {
        Some(
            Declared {
                end: at + 2 + constructor_function_calls(fields.len()),
                declarations: with_constructor(
                    declarations,
                    inductive_name,
                    Member {
                        name: constructor.name@,
                        llvm_struct_type: structure,
                        llvm_function: address_of(function_at(t, at + 2)),
                    },
                ),
            },
        )
    } else {
        None
    }
}

/// The calls for the first `n` constructors of an inductive type.
pub open spec fn constructors_at<'ctx>(
    declarations: Seq<Entry<'ctx>>,
    t: Trace<'ctx>,
    at: int,
    inductive_name: Seq<char>,
    constructors: Seq<Constructor>,
    n: nat,
) -> Option<Declared<'ctx>>
    decreases n,
{
    if n == 0 || n > constructors.len() {
        Some(Declared { end: at, declarations })
    } else {
        match constructors_at(
            declarations,
            t,
            at,
            inductive_name,
            constructors,
            (n - 1) as nat,
        ) {
            Some(before) => constructor_at(
                before.declarations,
                t,
                before.end,
                inductive_name,
                n - 1,
                constructors[n - 1],
            ),
            None => None,
        }
    }
}

/// Which of the first `n` numbers is the largest; the last one, if there are
/// several.
pub open spec fn largest(numbers: Seq<nat>, n: nat) -> int
    decreases n,
{
    if n <= 1 {
        0
    } else {
        let before = largest(numbers, (n - 1) as nat);
        if numbers[before] <= numbers[n - 1] {
            n - 1
        } else {
            before
        }
    }
}

/// The inductive type without constructors.
pub open spec fn bare<'ctx>(name: Seq<char>, structure: StructType<'ctx>) -> Entry<'ctx> {
    Entry::Inductive(
        name,
        Family {
            name,
            llvm_type: Ty::Pointer(Box::new(struct_type(structure))),
            constructors: Seq::empty(),
        },
    )
}

/// The calls for an inductive type, from call `at` on: what they amount to, or
/// `None` if these are not its calls. Its structure gets the fields of the largest
/// constructor, if there is one.
pub open spec fn inductive_at<'ctx>(
    declarations: Seq<Entry<'ctx>>,
    t: Trace<'ctx>,
    at: int,
    inductive: Inductive,
) -> Option<Declared<'ctx>> {
    let name = inductive.name@;
    let structure = struct_at(t, at);
    match constructors_at(
        declarations.push(bare(name, structure)),
        t,
        at + 1,
        name,
        inductive.constructors@,
        inductive.constructors@.len(),
    ) {
        Some(declared) => match find_constructors(declared.declarations, name) {
            Some(constructors) => {
                let chosen = constructors[largest(
                    field_counts(t, constructors),
                    constructors.len(),
                )].llvm_struct_type;
                if !made(t, at, Request::OpaqueStruct { name }) {
                    None
                } else if constructors.len() == 0 {
                    Some(declared)
                } else if made(
                    t,
                    declared.end,
                    Request::SetBody { structure, fields: fields_of(t, chosen) },
                ) && body(t, structure) == Some(fields_of(t, chosen)) {
                    Some(Declared { end: declared.end + 1, ..declared })
                } else {
                    None
                }
            },
            None => None,
        },
        None => None,
    }
}

} // verus!
