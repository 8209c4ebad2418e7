//! The calls that each part of a program stands for.
//!
//! Each function reads, from call `at` of a trace on, the calls that code
//! generation makes for one part of a program, and says what they amount to. What
//! LLVM answered to a call is taken from the trace.
use inkwell::basic_block::BasicBlock;
use inkwell::types::StructType;
use inkwell::values::{FunctionValue, PointerValue};
use vstd::prelude::*;

use crate::codegen::environment::fixpoint::{find_fixpoint, Recursion};
use crate::codegen::environment::global::{
    find_constant, find_constructors, find_inductive, Entry, Member,
};
use crate::codegen::globals::{fields_of, is_closure, shapes_of};
use crate::codegen::shape::{bound_by_branch, captured};
use crate::hir::ir::{debruijn_position, DeBruijnIndex, Term};
use crate::llvm::session::{address_of, parameter_of, struct_type, type_of};
use crate::llvm::trace::{
    block_at, function_at, generic_pointer, int_at, last_block, made, pointee, pointer_at, Operand,
    Request, Target, Trace, Ty,
};
use crate::text::numbered;

verus! {

/// What the calls for a term amount to.
pub struct Emission<'ctx> {
    /// The first call that is not part of them.
    pub end: int,
    /// The pointer that is the value of the term.
    pub value: PointerValue<'ctx>,
    /// The block where code goes on.
    pub block: BasicBlock<'ctx>,
}

/// The type of a function that takes an argument and captured values.
pub open spec fn curried_signature<'ctx>(result: Ty<'ctx>) -> Ty<'ctx> {
    Ty::Function(Box::new(result), seq![generic_pointer(), generic_pointer()])
}

/// A function that takes an argument and captured values is added, and code goes
/// on in its first block.
pub open spec fn curried_function_at<'ctx>(
    t: Trace<'ctx>,
    at: int,
    result: Ty<'ctx>,
    name: Seq<char>,
) -> bool {
    &&& made(
        t,
        at,
        Request::AddFunction { name, signature: curried_signature(result), external: false },
    )
    &&& made(t, at + 1, Request::AppendBlock { function: function_at(t, at), name: "entry"@ })
    &&& made(t, at + 2, Request::PositionAtEnd { block: block_at(t, at + 1) })
}

/// The function where the program starts is added, and code goes on in its first
/// block.
pub open spec fn main_added_at<'ctx>(t: Trace<'ctx>, at: int) -> bool {
    &&& made(
        t,
        at,
        Request::AddFunction {
            name: "main"@,
            signature: Ty::Function(Box::new(Ty::I32), Seq::empty()),
            external: false,
        },
    )
    &&& made(t, at + 1, Request::AppendBlock { function: function_at(t, at), name: "entry"@ })
    &&& made(t, at + 2, Request::PositionAtEnd { block: block_at(t, at + 1) })
}

/// How code gets into the function where the program starts, `existing` if there
/// is one: it goes on in its last block. Otherwise the function is added.
pub open spec fn main_at<'ctx>(
    t: Trace<'ctx>,
    at: int,
    existing: Option<FunctionValue<'ctx>>,
) -> bool {
    match existing {
        Some(main) => made(
            t,
            at,
            Request::PositionAtEnd { block: last_block(t.take(at), main)->0 },
        ),
        None => main_added_at(t, at),
    }
}

/// How many calls that takes.
pub open spec fn main_calls(existing: Option<FunctionValue<'_>>) -> int {
    match existing {
        Some(_) => 1,
        None => 3,
    }
}

/// The function where the program starts.
pub open spec fn main_function<'ctx>(
    t: Trace<'ctx>,
    at: int,
    existing: Option<FunctionValue<'ctx>>,
) -> FunctionValue<'ctx> {
    match existing {
        Some(main) => main,
        None => function_at(t, at),
    }
}

/// The block of this function where code goes on.
pub open spec fn main_block<'ctx>(
    t: Trace<'ctx>,
    at: int,
    existing: Option<FunctionValue<'ctx>>,
) -> BasicBlock<'ctx> {
    match existing {
        Some(main) => last_block(t.take(at), main)->0,
        None => block_at(t, at + 1),
    }
}

/// A closure is allocated that holds a function and its captured values.
pub open spec fn closure_at<'ctx>(
    t: Trace<'ctx>,
    at: int,
    function: PointerValue<'ctx>,
    captures: PointerValue<'ctx>,
) -> bool {
    &&& made(
        t,
        at,
        Request::Malloc {
            ty: Ty::Struct(seq![type_of(function), type_of(captures)]),
            name: "lambda_struct_pointer"@,
        },
    )
    &&& made(
        t,
        at + 1,
        Request::StructGep {
            pointer: pointer_at(t, at),
            index: 0,
            name: "lambda_struct_function_pointer_field_address"@,
        },
    )
    &&& made(
        t,
        at + 2,
        Request::Store { pointer: pointer_at(t, at + 1), value: Operand::Pointer(function) },
    )
    &&& made(
        t,
        at + 3,
        Request::StructGep {
            pointer: pointer_at(t, at),
            index: 1,
            name: "lambda_struct_captures_field_address"@,
        },
    )
    &&& made(
        t,
        at + 4,
        Request::Store { pointer: pointer_at(t, at + 3), value: Operand::Pointer(captures) },
    )
}

/// The program ends with an exit code that tells of failure.
pub open spec fn exit_with_failure_at<'ctx>(t: Trace<'ctx>, at: int) -> bool {
    &&& made(
        t,
        at,
        Request::AddFunction {
            name: "exit"@,
            signature: Ty::Function(Box::new(Ty::Void), seq![Ty::I32]),
            external: true,
        },
    )
    &&& made(
        t,
        at + 1,
        Request::Call {
            target: Target::Function(function_at(t, at)),
            arguments: seq![Operand::Int { bits: 32, value: 1 }],
            name: "exit_function_call"@,
        },
    )
    &&& made(t, at + 2, Request::Unreachable)
}

/// The structure of `n` captured values.
pub open spec fn captures_type<'ctx>(n: nat) -> Ty<'ctx> {
    Ty::Struct(Seq::new(n, |i: int| generic_pointer()))
}

/// The values of the captured variables.
pub open spec fn captured_values<'ctx>(
    scope: Seq<PointerValue<'ctx>>,
    indexes: Seq<DeBruijnIndex>,
) -> Seq<PointerValue<'ctx>> {
    Seq::new(
        indexes.len(),
        |i: int| scope[debruijn_position(scope.len(), indexes[i] as nat)],
    )
}

/// Captured value `i` is stored, as a generic pointer.
pub open spec fn capture_written_at<'ctx>(
    t: Trace<'ctx>,
    at: int,
    captures: PointerValue<'ctx>,
    value: PointerValue<'ctx>,
    i: int,
) -> bool {
    &&& made(
        t,
        at,
        Request::StructGep {
            pointer: captures,
            index: i as nat,
            name: numbered("captures_struct_field_"@, i as nat, "_address"@),
        },
    )
    &&& made(
        t,
        at + 1,
        Request::Bitcast {
            value,
            ty: generic_pointer(),
            name: numbered("captures_struct_field_"@, i as nat, ""@),
        },
    )
    &&& made(
        t,
        at + 2,
        Request::Store {
            pointer: pointer_at(t, at),
            value: Operand::Pointer(pointer_at(t, at + 1)),
        },
    )
}

/// The first `n` captured values are stored.
pub open spec fn captures_stored_at<'ctx>(
    t: Trace<'ctx>,
    at: int,
    captures: PointerValue<'ctx>,
    values: Seq<PointerValue<'ctx>>,
    n: int,
) -> bool {
    forall|i: int|
        0 <= i < n ==> #[trigger] capture_written_at(t, at + 3 * i, captures, values[i], i)
}

/// Captured value `i` is copied to the stack of the closure's function.
pub open spec fn capture_loaded_at<'ctx>(
    t: Trace<'ctx>,
    at: int,
    function: FunctionValue<'ctx>,
    captures: PointerValue<'ctx>,
    i: int,
) -> bool {
    &&& made(
        t,
        at,
        Request::Bitcast {
            value: parameter_of(function, 1),
            ty: type_of(captures),
            name: "casted_captures_struct_pointer"@,
        },
    )
    &&& made(
        t,
        at + 1,
        Request::StructGep {
            pointer: pointer_at(t, at),
            index: i as nat,
            name: numbered("captures_struct_debruijn_value_"@, i as nat, "_address"@),
        },
    )
    &&& made(
        t,
        at + 2,
        Request::Load {
            pointer: pointer_at(t, at + 1),
            name: numbered("captures_struct_debruijn_value_"@, i as nat, ""@),
        },
    )
    &&& made(
        t,
        at + 3,
        Request::Alloca {
            ty: type_of(pointer_at(t, at + 2)),
            name: numbered("debruijn_value_"@, i as nat, ""@),
        },
    )
    &&& made(
        t,
        at + 4,
        Request::Store {
            pointer: pointer_at(t, at + 3),
            value: Operand::Pointer(pointer_at(t, at + 2)),
        },
    )
    &&& t[at + 2].answer is Pointer
}

/// The first `n` captured values are copied to the stack.
pub open spec fn captures_loaded_at<'ctx>(
    t: Trace<'ctx>,
    at: int,
    function: FunctionValue<'ctx>,
    captures: PointerValue<'ctx>,
    n: int,
) -> bool {
    forall|i: int|
        0 <= i < n ==> #[trigger] capture_loaded_at(t, at + 5 * i, function, captures, i)
}

/// The variables in scope once the first `n` captured values have been copied to
/// the stack.
pub open spec fn scope_with_captures<'ctx>(
    t: Trace<'ctx>,
    at: int,
    scope: Seq<PointerValue<'ctx>>,
    indexes: Seq<DeBruijnIndex>,
    n: nat,
) -> Seq<PointerValue<'ctx>>
    decreases n,
{
    if n == 0 {
        scope
    } else {
        scope_with_captures(t, at, scope, indexes, (n - 1) as nat).update(
            debruijn_position(scope.len(), indexes[n - 1] as nat),
            pointer_at(t, at + 5 * (n - 1) + 3),
        )
    }
}

/// How many calls it takes to see a value as a closure. A pointer to a pointer,
/// such as the place of a captured value or of the result of a match, is followed
/// first.
pub open spec fn closure_calls(value: PointerValue<'_>) -> int {
    if is_closure(value) {
        0
    } else if pointee(type_of(value)) is Pointer {
        2
    } else {
        1
    }
}

/// A pointer is cast to the type of closures of which nothing else is known.
pub open spec fn closure_casted_at<'ctx>(
    t: Trace<'ctx>,
    at: int,
    value: PointerValue<'ctx>,
) -> bool {
    made(
        t,
        at,
        Request::Bitcast {
            value,
            ty: Ty::Pointer(Box::new(captures_type(2))),
            name: "application_closure_pointer_cast"@,
        },
    )
}

/// The calls by which a value is seen as a closure.
pub open spec fn closure_seen_at<'ctx>(t: Trace<'ctx>, at: int, value: PointerValue<'ctx>) -> bool {
    if is_closure(value) {
        true
    } else if pointee(type_of(value)) is Pointer {
        made(t, at, Request::Load { pointer: value, name: "application_closure_pointer"@ })
            && t[at].answer is Pointer && closure_casted_at(t, at + 1, pointer_at(t, at))
    } else {
        closure_casted_at(t, at, value)
    }
}

/// The value seen as a closure.
pub open spec fn closure_seen<'ctx>(t: Trace<'ctx>, at: int, value: PointerValue<'ctx>) ->
    PointerValue<'ctx> {
    if is_closure(value) {
        value
    } else {
        pointer_at(t, at + closure_calls(value) - 1)
    }
}

/// The calls by which a function is taken out of a closure.
pub open spec fn closure_opened_at<'ctx>(
    t: Trace<'ctx>,
    at: int,
    closure: PointerValue<'ctx>,
) -> bool {
    &&& made(
        t,
        at,
        Request::StructGep {
            pointer: closure,
            index: 0,
            name: "application_function_pointer_pointer"@,
        },
    )
    &&& made(
        t,
        at + 1,
        Request::Load { pointer: pointer_at(t, at), name: "application_function_pointer"@ },
    )
    &&& made(
        t,
        at + 2,
        Request::StructGep {
            pointer: closure,
            index: 1,
            name: "application_captures_struct_pointer_pointer"@,
        },
    )
    &&& made(
        t,
        at + 3,
        Request::Load {
            pointer: pointer_at(t, at + 2),
            name: "application_captures_struct_pointer"@,
        },
    )
    &&& t[at + 1].answer is Pointer
    &&& t[at + 3].answer is Pointer
}

/// A function is called with an argument and captured values.
pub open spec fn application_at<'ctx>(
    t: Trace<'ctx>,
    at: int,
    function: PointerValue<'ctx>,
    captures: PointerValue<'ctx>,
    argument: PointerValue<'ctx>,
) -> bool {
    &&& made(
        t,
        at,
        Request::Bitcast {
            value: function,
            ty: Ty::Pointer(
                Box::new(
                    Ty::Function(
                        Box::new(generic_pointer()),
                        seq![type_of(argument), type_of(captures)],
                    ),
                ),
            ),
            name: "application_function_pointer_cast"@,
        },
    )
    &&& made(
        t,
        at + 1,
        Request::Call {
            target: Target::Pointer(pointer_at(t, at)),
            arguments: seq![Operand::Pointer(argument), Operand::Pointer(captures)],
            name: "call"@,
        },
    )
    &&& t[at + 1].answer is Pointer
}

/// The `n` fields after the tag are loaded.
pub open spec fn fields_loaded_at<'ctx>(
    t: Trace<'ctx>,
    at: int,
    pointer: PointerValue<'ctx>,
    n: int,
) -> bool {
    forall|i: int| 0 <= i < n ==> #[trigger] field_loaded_at(t, at + 2 * i, pointer, i + 1)
}

/// Field `i` is loaded.
pub open spec fn field_loaded_at<'ctx>(
    t: Trace<'ctx>,
    at: int,
    pointer: PointerValue<'ctx>,
    i: int,
) -> bool {
    &&& made(
        t,
        at,
        Request::StructGep {
            pointer,
            index: i as nat,
            name: numbered("constructor_field_"@, i as nat, "_address"@),
        },
    )
    &&& made(
        t,
        at + 1,
        Request::Load {
            pointer: pointer_at(t, at),
            name: numbered("constructor_field_"@, i as nat, ""@),
        },
    )
    &&& t[at + 1].answer is Pointer
}

/// The values of the `n` fields after the tag.
pub open spec fn loaded_fields<'ctx>(t: Trace<'ctx>, at: int, n: nat) -> Seq<PointerValue<'ctx>> {
    Seq::new(n, |i: int| pointer_at(t, at + 2 * i + 1))
}

/// The tag of the scrutinee is loaded, a place for the result is made, and the
/// block where code goes on after the match is appended.
pub open spec fn match_opened_at<'ctx>(
    t: Trace<'ctx>,
    at: int,
    function: FunctionValue<'ctx>,
    scrutinee: PointerValue<'ctx>,
    ty: Ty<'ctx>,
) -> bool {
    &&& made(
        t,
        at,
        Request::Bitcast {
            value: scrutinee,
            ty,
            name: "cast_scrutinee_to_inductive_llvm_type"@,
        },
    )
    &&& made(
        t,
        at + 1,
        Request::StructGep {
            pointer: pointer_at(t, at),
            index: 0,
            name: "address_of_inductive_tag"@,
        },
    )
    &&& made(t, at + 2, Request::Load { pointer: pointer_at(t, at + 1), name: "inductive_tag"@ })
    &&& made(
        t,
        at + 3,
        Request::Alloca { ty: generic_pointer(), name: "match_expression_value"@ },
    )
    &&& made(t, at + 4, Request::AppendBlock { function, name: "switch_post_dominator"@ })
    &&& t[at + 2].answer is Int
}

/// A branch starts: its block is appended, and the scrutinee is seen as a value of
/// the branch's constructor.
pub open spec fn case_opened_at<'ctx>(
    t: Trace<'ctx>,
    at: int,
    function: FunctionValue<'ctx>,
    scrutinee: PointerValue<'ctx>,
    structure: StructType<'ctx>,
    i: int,
) -> bool {
    &&& made(
        t,
        at,
        Request::AppendBlock { function, name: numbered("switch_"@, i as nat, "_case"@) },
    )
    &&& made(t, at + 1, Request::PositionAtEnd { block: block_at(t, at) })
    &&& made(
        t,
        at + 2,
        Request::Bitcast {
            value: scrutinee,
            ty: Ty::Pointer(Box::new(struct_type(structure))),
            name: "cast_to_inductive_variant_type"@,
        },
    )
}

/// A branch ends: its value is stored as the result of the match.
pub open spec fn case_closed_at<'ctx>(
    t: Trace<'ctx>,
    at: int,
    value: PointerValue<'ctx>,
    result: PointerValue<'ctx>,
    after: BasicBlock<'ctx>,
) -> bool {
    &&& made(
        t,
        at,
        Request::Bitcast { value, ty: generic_pointer(), name: "case_expression_value_cast"@ },
    )
    &&& made(
        t,
        at + 1,
        Request::Store { pointer: result, value: Operand::Pointer(pointer_at(t, at)) },
    )
    &&& made(t, at + 2, Request::Branch { block: after })
}

/// The branches are tied together: a switch on the tag, whose default fails.
pub open spec fn match_closed_at<'ctx>(
    t: Trace<'ctx>,
    at: int,
    function: FunctionValue<'ctx>,
    before: BasicBlock<'ctx>,
    tag: int,
    cases: Seq<(Operand<'ctx>, BasicBlock<'ctx>)>,
    after: BasicBlock<'ctx>,
) -> bool {
    &&& made(t, at, Request::AppendBlock { function, name: "switch_default_case"@ })
    &&& made(t, at + 1, Request::PositionAtEnd { block: block_at(t, at) })
    &&& exit_with_failure_at(t, at + 2)
    &&& made(t, at + 5, Request::PositionAtEnd { block: before })
    &&& made(
        t,
        at + 6,
        Request::Switch { value: int_at(t, tag), otherwise: block_at(t, at), cases },
    )
    &&& made(t, at + 7, Request::PositionAtEnd { block: after })
}

/// A closure's function returns, and code goes on where the closure is made.
pub open spec fn lambda_closed_at<'ctx>(
    t: Trace<'ctx>,
    at: int,
    value: PointerValue<'ctx>,
    before: BasicBlock<'ctx>,
) -> bool {
    &&& made(
        t,
        at,
        Request::Bitcast { value, ty: generic_pointer(), name: "return_i8_pointer"@ },
    )
    &&& made(t, at + 1, Request::Return { value: Operand::Pointer(pointer_at(t, at)) })
    &&& made(t, at + 2, Request::PositionAtEnd { block: before })
}

/// The fixpoints whose functions are being generated inside this function: it is
/// that of a fixpoint if it has a name of its own.
pub open spec fn with_fixpoint<'ctx>(
    fixpoints: Seq<Recursion<'ctx>>,
    own: Option<Seq<char>>,
    closed: bool,
    function: FunctionValue<'ctx>,
) -> Seq<Recursion<'ctx>> {
    match own {
        Some(name) => fixpoints.push(
            Recursion { name, closed, llvm_function: address_of(function) },
        ),
        None => fixpoints,
    }
}

/// A closure without captured values is made for a function.
pub open spec fn empty_closure_at<'ctx>(
    t: Trace<'ctx>,
    at: int,
    function: PointerValue<'ctx>,
    name: Seq<char>,
) -> bool {
    &&& made(t, at, Request::Malloc { ty: captures_type(0), name })
    &&& closure_at(t, at + 1, function, pointer_at(t, at))
}

/// The calls for `term`, from call `at` on: what they amount to, or `None` if
/// these are not its calls. `declarations` have been compiled before, the
/// functions of `fixpoints` are being generated, the variables have the values in
/// `scope`, and code goes into `block` of `function`.
pub open spec fn term_at<'ctx>(
    declarations: Seq<Entry<'ctx>>,
    t: Trace<'ctx>,
    at: int,
    term: Term,
    scope: Seq<PointerValue<'ctx>>,
    fixpoints: Seq<Recursion<'ctx>>,
    function: FunctionValue<'ctx>,
    block: BasicBlock<'ctx>,
) -> Option<Emission<'ctx>>
    decreases term, 0nat,
{
    match term {
        Term::DeBruijnIndex(index) => if index < scope.len() {
            Some(
                Emission {
                    end: at,
                    value: scope[debruijn_position(scope.len(), index as nat)],
                    block,
                },
            )
        } else {
            None
        },
        Term::Lambda { body, .. } => lambda_at(
            declarations,
            t,
            at,
            *body,
            None,
            scope,
            fixpoints,
            block,
        ),
        Term::Application { function: applied, argument } => match term_at(
            declarations,
            t,
            at,
            *applied,
            scope,
            fixpoints,
            function,
            block,
        ) {
            Some(closure) => {
                let opened = closure.end + closure_calls(closure.value);
                match term_at(
                    declarations,
                    t,
                    opened + 4,
                    *argument,
                    scope,
                    fixpoints,
                    function,
                    closure.block,
                ) {
                    Some(given) => if closure_seen_at(t, closure.end, closure.value)
                        && closure_opened_at(
                        t,
                        opened,
                        closure_seen(t, closure.end, closure.value),
                    ) && application_at(
                        t,
                        given.end,
                        pointer_at(t, opened + 1),
                        pointer_at(t, opened + 3),
                        given.value,
                    ) {
                        Some(
                            Emission {
                                end: given.end + 2,
                                value: pointer_at(t, given.end + 1),
                                block: given.block,
                            },
                        )
                    } else {
                        None
                    },
                    None => None,
                }
            },
            None => None,
        },
        Term::Constant(name) => match find_fixpoint(fixpoints, name@) {
            Some(fixpoint) => if fixpoint.closed && empty_closure_at(
                t,
                at,
                fixpoint.llvm_function,
                "temp_fixpoint_empty_captures_struct"@,
            ) {
                Some(Emission { end: at + 6, value: pointer_at(t, at + 1), block })
            } else {
                None
            },
            None => match find_constant(declarations, name@) {
                Some(i) => Some(Emission { end: at, value: declarations[i]->llvm_value, block }),
                None => None,
            },
        },
        Term::Constructor(name, index) => match find_constructors(declarations, name@) {
            Some(constructors) => if index < constructors.len() && empty_closure_at(
                t,
                at,
                constructors[index as int].llvm_function,
                "temp_constructor_empty_captures_struct"@,
            ) {
                Some(Emission { end: at + 6, value: pointer_at(t, at + 1), block })
            } else {
                None
            },
            None => None,
        },
        Term::Match { inductive_name, scrutinee, branches, .. } => match (
            find_inductive(declarations, inductive_name@),
            term_at(declarations, t, at, *scrutinee, scope, fixpoints, function, block),
        ) {
            (Some(i), Some(matched)) => {
                let inductive = declarations[i]->Inductive_1;
                let opened = matched.end;
                let result = pointer_at(t, opened + 3);
                let after = block_at(t, opened + 4);
                match cases_at(
                    declarations,
                    t,
                    opened + 5,
                    inductive.constructors,
                    branches@,
                    branches@.len(),
                    scope,
                    fixpoints,
                    function,
                    matched.value,
                    result,
                    after,
                ) {
                    Some(cases) => if inductive.constructors.len() == branches@.len()
                        && match_opened_at(
                        t,
                        opened,
                        function,
                        matched.value,
                        inductive.llvm_type,
                    ) && match_closed_at(
                        t,
                        cases.end,
                        function,
                        matched.block,
                        opened + 2,
                        cases.cases,
                        after,
                    ) {
                        Some(Emission { end: cases.end + 8, value: result, block: after })
                    } else {
                        None
                    },
                    None => None,
                }
            },
            _ => None,
        },
        Term::Fixpoint { name, body, .. } => match *body {
            Term::Lambda { body: inner, .. } => lambda_at(
                declarations,
                t,
                at,
                *inner,
                Some(name@),
                scope,
                fixpoints,
                block,
            ),
            _ => term_at(declarations, t, at, *body, scope, fixpoints, function, block),
        },
        Term::Sort(_) | Term::DependentProduct { .. } | Term::Inductive(_) => None,
    }
}

/// The calls for a lambda with this body, from call `at` on. It is the body of a
/// fixpoint if it has a name of its own.
pub open spec fn lambda_at<'ctx>(
    declarations: Seq<Entry<'ctx>>,
    t: Trace<'ctx>,
    at: int,
    body: Term,
    own: Option<Seq<char>>,
    scope: Seq<PointerValue<'ctx>>,
    fixpoints: Seq<Recursion<'ctx>>,
    block: BasicBlock<'ctx>,
) -> Option<Emission<'ctx>>
    decreases body, 1nat,
{
    let indexes = captured(shapes_of(t.take(at), declarations), body, 0);
    let n = indexes.len() as int;
    let captures = pointer_at(t, at);
    let opened = at + 1 + 3 * n;
    let lambda = function_at(t, opened);
    let inner_scope = scope_with_captures(t, opened + 3, scope, indexes, indexes.len());
    let lambda_opened = {
        &&& made(
            t,
            at,
            Request::Malloc {
                ty: captures_type(indexes.len()),
                name: "captures_struct_pointer"@,
            },
        )
        &&& forall|i: int| 0 <= i < n ==> #[trigger] indexes[i] < scope.len()
        &&& captures_stored_at(t, at + 1, captures, captured_values(scope, indexes), n)
        &&& curried_function_at(t, opened, generic_pointer(), "lambda"@)
        &&& captures_loaded_at(t, opened + 3, lambda, captures, n)
    };
    match term_at(
        declarations,
        t,
        opened + 3 + 5 * n,
        body,
        inner_scope.push(parameter_of(lambda, 0)),
        with_fixpoint(fixpoints, own, n == 0, lambda),
        lambda,
        block_at(t, opened + 1),
    ) {
        Some(inner) => if lambda_opened && lambda_closed_at(t, inner.end, inner.value, block)
            && closure_at(t, inner.end + 3, address_of(lambda), captures) {
            Some(
                Emission { end: inner.end + 8, value: pointer_at(t, inner.end + 3), block },
            )
        } else {
            None
        },
        None => None,
    }
}

/// The calls for branch `i` of a match, from call `at` on: the first call that is
/// not part of them. The fields of the scrutinee are in scope in the branch.
pub open spec fn case_at<'ctx>(
    declarations: Seq<Entry<'ctx>>,
    t: Trace<'ctx>,
    at: int,
    constructor: Member<'ctx>,
    i: int,
    branch: Term,
    scope: Seq<PointerValue<'ctx>>,
    fixpoints: Seq<Recursion<'ctx>>,
    function: FunctionValue<'ctx>,
    scrutinee: PointerValue<'ctx>,
    result: PointerValue<'ctx>,
    after: BasicBlock<'ctx>,
) -> Option<int>
    decreases branch, 1nat,
{
    let structure = constructor.llvm_struct_type;
    let fields = bound_by_branch(fields_of(t, structure).len());
    match term_at(
        declarations,
        t,
        at + 3 + 2 * fields,
        branch,
        scope + loaded_fields(t, at + 3, fields),
        fixpoints,
        function,
        block_at(t, at),
    ) {
        Some(inner) => if case_opened_at(t, at, function, scrutinee, structure, i)
            && fields_loaded_at(t, at + 3, pointer_at(t, at + 2), fields as int) && case_closed_at(
            t,
            inner.end,
            inner.value,
            result,
            after,
        ) {
            Some(inner.end + 3)
        } else {
            None
        },
        None => None,
    }
}

/// What the calls for the branches of a match amount to.
pub struct Cases<'ctx> {
    /// The first call that is not part of them.
    pub end: int,
    /// The tags, and the blocks where the branches start.
    pub cases: Seq<(Operand<'ctx>, BasicBlock<'ctx>)>,
}

/// The calls for the first `n` branches of a match, from call `at` on.
pub open spec fn cases_at<'ctx>(
    declarations: Seq<Entry<'ctx>>,
    t: Trace<'ctx>,
    at: int,
    constructors: Seq<Member<'ctx>>,
    branches: Seq<Term>,
    n: nat,
    scope: Seq<PointerValue<'ctx>>,
    fixpoints: Seq<Recursion<'ctx>>,
    function: FunctionValue<'ctx>,
    scrutinee: PointerValue<'ctx>,
    result: PointerValue<'ctx>,
    after: BasicBlock<'ctx>,
) -> Option<Cases<'ctx>>
    decreases branches, n,
{
    if n == 0 || n > branches.len() {
        Some(Cases { end: at, cases: Seq::empty() })
    } else {
        let i = n - 1;
        match cases_at(
            declarations,
            t,
            at,
            constructors,
            branches,
            i as nat,
            scope,
            fixpoints,
            function,
            scrutinee,
            result,
            after,
        ) {
            Some(before) => match case_at(
                declarations,
                t,
                before.end,
                constructors[i],
                i,
                branches[i],
                scope,
                fixpoints,
                function,
                scrutinee,
                result,
                after,
            ) {
                Some(end) => Some(
                    Cases {
                        end,
                        cases: before.cases.push(
                            (
                                Operand::Int { bits: 8, value: (i % 0x100) as nat },
                                block_at(t, before.end),
                            ),
                        ),
                    },
                ),
                None => None,
            },
            None => None,
        }
    }
}

} // verus!
