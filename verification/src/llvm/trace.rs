//! The calls made on LLVM, and what can be read off them.
use inkwell::basic_block::BasicBlock;
use inkwell::types::StructType;
use inkwell::values::{FunctionValue, IntValue, PointerValue};
use vstd::prelude::*;

use crate::llvm::session::{address_of, parameter_of, type_of};

verus! {

/// The type of an LLVM value. Structures that have a name are told apart by
/// identity, all other types by what they are made of.
pub enum Ty<'ctx> {
    I8,
    I32,
    Void,
    Pointer(Box<Ty<'ctx>>),
    Struct(Seq<Ty<'ctx>>),
    Named(StructType<'ctx>),
    Function(Box<Ty<'ctx>>, Seq<Ty<'ctx>>),
}

/// An operand of an instruction.
pub enum Operand<'ctx> {
    Pointer(PointerValue<'ctx>),
    /// An integer constant.
    Int { bits: nat, value: nat },
}

/// What a call instruction calls.
pub enum Target<'ctx> {
    Pointer(PointerValue<'ctx>),
    Function(FunctionValue<'ctx>),
}

/// Something asked of LLVM that changes the module or the place where
/// instructions are inserted.
#[allow(inconsistent_fields)]
pub enum Request<'ctx> {
    CreateModule { name: Seq<char> },
    OpaqueStruct { name: Seq<char> },
    SetBody { structure: StructType<'ctx>, fields: Seq<Ty<'ctx>> },
    AddFunction { name: Seq<char>, signature: Ty<'ctx>, external: bool },
    AppendBlock { function: FunctionValue<'ctx>, name: Seq<char> },
    PositionAtEnd { block: BasicBlock<'ctx> },
    Malloc { ty: Ty<'ctx>, name: Seq<char> },
    StructGep { pointer: PointerValue<'ctx>, index: nat, name: Seq<char> },
    Store { pointer: PointerValue<'ctx>, value: Operand<'ctx> },
    Load { pointer: PointerValue<'ctx>, name: Seq<char> },
    Alloca { ty: Ty<'ctx>, name: Seq<char> },
    Bitcast { value: PointerValue<'ctx>, ty: Ty<'ctx>, name: Seq<char> },
    Return { value: Operand<'ctx> },
    Call { target: Target<'ctx>, arguments: Seq<Operand<'ctx>>, name: Seq<char> },
    Branch { block: BasicBlock<'ctx> },
    Switch {
        value: IntValue<'ctx>,
        otherwise: BasicBlock<'ctx>,
        cases: Seq<(Operand<'ctx>, BasicBlock<'ctx>)>,
    },
    Unreachable,
}

/// What LLVM gave back.
pub enum Answer<'ctx> {
    Pointer(PointerValue<'ctx>),
    Int(IntValue<'ctx>),
    Function(FunctionValue<'ctx>),
    Block(BasicBlock<'ctx>),
    Struct(StructType<'ctx>),
    Done,
}

pub struct Call<'ctx> {
    pub request: Request<'ctx>,
    pub answer: Answer<'ctx>,
}

/// The calls made so far, first to last.
pub type Trace<'ctx> = Seq<Call<'ctx>>;

/// The pointer answered by call `k`.
pub open spec fn pointer_at<'ctx>(t: Trace<'ctx>, k: int) -> PointerValue<'ctx> {
    t[k].answer->Pointer_0
}

/// The integer answered by call `k`.
pub open spec fn int_at<'ctx>(t: Trace<'ctx>, k: int) -> IntValue<'ctx> {
    t[k].answer->Int_0
}

/// The function answered by call `k`.
pub open spec fn function_at<'ctx>(t: Trace<'ctx>, k: int) -> FunctionValue<'ctx> {
    t[k].answer->Function_0
}

/// The block answered by call `k`.
pub open spec fn block_at<'ctx>(t: Trace<'ctx>, k: int) -> BasicBlock<'ctx> {
    t[k].answer->Block_0
}

/// The structure type answered by call `k`.
pub open spec fn struct_at<'ctx>(t: Trace<'ctx>, k: int) -> StructType<'ctx> {
    t[k].answer->Struct_0
}

/// The answer is of the kind that the request asks for. What is loaded, and what a
/// function gives, may be of several kinds.
pub open spec fn fits<'ctx>(request: Request<'ctx>, answer: Answer<'ctx>) -> bool {
    match request {
        Request::OpaqueStruct { .. } => answer is Struct,
        Request::AddFunction { .. } => answer is Function,
        Request::AppendBlock { .. } => answer is Block,
        Request::Malloc { .. } | Request::StructGep { .. } | Request::Alloca { .. }
        | Request::Bitcast { .. } => answer is Pointer,
        Request::Load { .. } | Request::Call { .. } => true,
        _ => answer is Done,
    }
}

/// Call `k` is this request, and was answered in kind.
pub open spec fn made<'ctx>(t: Trace<'ctx>, k: int, request: Request<'ctx>) -> bool {
    0 <= k < t.len() && t[k].request == request && fits(request, t[k].answer)
}

/// `later` starts with all the calls of `t`.
pub open spec fn extends<'ctx>(later: Trace<'ctx>, t: Trace<'ctx>) -> bool {
    &&& t.len() <= later.len()
    &&& forall|i: int| #![trigger later[i]] #![trigger t[i]] 0 <= i < t.len() ==> later[i] == t[i]
}

/// The generic pointer type, `i8*`.
pub open spec fn generic_pointer<'ctx>() -> Ty<'ctx> {
    Ty::Pointer(Box::new(Ty::I8))
}

/// What a pointer type points to.
pub open spec fn pointee<'ctx>(ty: Ty<'ctx>) -> Ty<'ctx> {
    match ty {
        Ty::Pointer(inner) => *inner,
        _ => Ty::Void,
    }
}

/// The types of the parameters in a signature.
pub open spec fn parameter_types<'ctx>(signature: Ty<'ctx>) -> Seq<Ty<'ctx>> {
    match signature {
        Ty::Function(_, parameters) => parameters,
        _ => Seq::empty(),
    }
}

/// The type of the result in a signature.
pub open spec fn result_type<'ctx>(signature: Ty<'ctx>) -> Ty<'ctx> {
    match signature {
        Ty::Function(result, _) => *result,
        _ => Ty::Void,
    }
}

/// The type of an operand.
pub open spec fn operand_type<'ctx>(operand: Operand<'ctx>) -> Ty<'ctx> {
    match operand {
        Operand::Pointer(pointer) => type_of(pointer),
        Operand::Int { bits, .. } => if bits == 8 {
            Ty::I8
        } else {
            Ty::I32
        },
    }
}

/// The block at whose end instructions are inserted.
pub open spec fn position<'ctx>(t: Trace<'ctx>) -> Option<BasicBlock<'ctx>>
    decreases t.len(),
{
    if t.len() == 0 {
        None
    } else {
        match t.last().request {
            Request::PositionAtEnd { block } => Some(block),
            _ => position(t.drop_last()),
        }
    }
}

/// The function to which `block` was appended.
pub open spec fn parent<'ctx>(t: Trace<'ctx>, block: BasicBlock<'ctx>) -> Option<
    FunctionValue<'ctx>,
>
    decreases t.len(),
{
    if t.len() == 0 {
        None
    } else {
        match parent(t.drop_last(), block) {
            Some(function) => Some(function),
            None => match t.last().request {
                Request::AppendBlock { function, .. } => if t.last().answer == Answer::Block(
                    block,
                ) {
                    Some(function)
                } else {
                    None
                },
                _ => None,
            },
        }
    }
}

/// The block that was appended to `function` last.
pub open spec fn last_block<'ctx>(t: Trace<'ctx>, function: FunctionValue<'ctx>) -> Option<
    BasicBlock<'ctx>,
>
    decreases t.len(),
{
    if t.len() == 0 {
        None
    } else {
        match (t.last().request, t.last().answer) {
            (
                Request::AppendBlock { function: appended_to, .. },
                Answer::Block(block),
            ) => if appended_to == function {
                Some(block)
            } else {
                last_block(t.drop_last(), function)
            },
            _ => last_block(t.drop_last(), function),
        }
    }
}

/// The fields that were given to a named structure.
pub open spec fn body<'ctx>(t: Trace<'ctx>, structure: StructType<'ctx>) -> Option<Seq<Ty<'ctx>>>
    decreases t.len(),
{
    if t.len() == 0 {
        None
    } else {
        match body(t.drop_last(), structure) {
            Some(fields) => Some(fields),
            None => match t.last().request {
                Request::SetBody { structure: target, fields } => if target == structure {
                    Some(fields)
                } else {
                    None
                },
                _ => None,
            },
        }
    }
}

/// The fields of a structure type, if they are known.
pub open spec fn layout<'ctx>(t: Trace<'ctx>, ty: Ty<'ctx>) -> Option<Seq<Ty<'ctx>>> {
    match ty {
        Ty::Struct(fields) => Some(fields),
        Ty::Named(structure) => body(t, structure),
        _ => None,
    }
}

/// Instructions can be inserted: the builder stands in a block of a function.
pub open spec fn ready<'ctx>(t: Trace<'ctx>) -> bool {
    position(t) matches Some(block) && parent(t, block) is Some
}

/// The named structure was made by one of the calls.
pub open spec fn made_here<'ctx>(t: Trace<'ctx>, structure: StructType<'ctx>) -> bool {
    exists|i: int|
        0 <= i < t.len() && (#[trigger] t[i]).request is OpaqueStruct && t[i].answer
            == Answer::Struct(structure)
}

/// The function was added by one of the calls.
pub open spec fn added_here<'ctx>(t: Trace<'ctx>, function: FunctionValue<'ctx>) -> bool {
    exists|i: int|
        0 <= i < t.len() && (#[trigger] t[i]).request is AddFunction && t[i].answer
            == Answer::Function(function)
}

/// The pointer belongs to what the calls have made: one of them answered it, or it
/// is the address or a parameter of a function that was added.
#[verifier::opaque]
pub open spec fn pointer_here<'ctx>(t: Trace<'ctx>, pointer: PointerValue<'ctx>) -> bool {
    ||| exists|i: int| 0 <= i < t.len() && (#[trigger] t[i]).answer == Answer::Pointer(pointer)
    ||| exists|function: FunctionValue<'ctx>| #[trigger]
        added_here(t, function) && pointer == address_of(function)
    ||| exists|function: FunctionValue<'ctx>, i: nat|
        #![trigger parameter_of(function, i)]
        added_here(t, function) && pointer == parameter_of(function, i)
}

/// The call loads this eight-bit integer.
pub open spec fn loads_byte<'ctx>(call: Call<'ctx>, value: IntValue<'ctx>) -> bool {
    call.answer == Answer::Int(value) && (call.request matches Request::Load { pointer, .. }
        && pointee(type_of(pointer)) is I8)
}

/// The eight-bit integer was loaded by one of the calls.
pub open spec fn byte_here<'ctx>(t: Trace<'ctx>, value: IntValue<'ctx>) -> bool {
    exists|i: int| 0 <= i < t.len() && loads_byte(#[trigger] t[i], value)
}

/// All structures with a name in the type were made by the calls.
pub open spec fn type_here<'ctx>(t: Trace<'ctx>, ty: Ty<'ctx>) -> bool
    decreases ty,
{
    match ty {
        Ty::I8 | Ty::I32 | Ty::Void => true,
        Ty::Pointer(inner) => type_here(t, *inner),
        Ty::Struct(fields) => forall|i: int|
            0 <= i < fields.len() ==> type_here(t, #[trigger] fields[i]),
        Ty::Named(structure) => made_here(t, structure),
        Ty::Function(result, parameters) => type_here(t, *result) && forall|i: int|
            0 <= i < parameters.len() ==> type_here(t, #[trigger] parameters[i]),
    }
}

/// All structures with a name in the types were made by the calls.
pub open spec fn types_here<'ctx>(t: Trace<'ctx>, types: Seq<Ty<'ctx>>) -> bool {
    forall|i: int| 0 <= i < types.len() ==> type_here(t, #[trigger] types[i])
}

/// No call has answered the function, and it has no block.
pub open spec fn is_new<'ctx>(t: Trace<'ctx>, function: FunctionValue<'ctx>) -> bool {
    &&& last_block(t, function) is None
    &&& forall|i: int| 0 <= i < t.len() ==> (#[trigger] t[i]).answer != Answer::Function(function)
}

/// No function was added twice.
pub open spec fn functions_differ<'ctx>(t: Trace<'ctx>) -> bool {
    forall|i: int, j: int|
        0 <= i < j < t.len() && (#[trigger] t[i]).request is AddFunction && (
        #[trigger] t[j]).request is AddFunction ==> t[i].answer != t[j].answer
}

/// No structure was made twice.
pub open spec fn structures_differ<'ctx>(t: Trace<'ctx>) -> bool {
    forall|i: int, j: int|
        0 <= i < j < t.len() && (#[trigger] t[i]).request is OpaqueStruct && (
        #[trigger] t[j]).request is OpaqueStruct ==> t[i].answer != t[j].answer
}

/// Blocks were appended only to functions that were added by the calls.
pub open spec fn blocks_here<'ctx>(t: Trace<'ctx>) -> bool {
    forall|i: int|
        0 <= i < t.len() && (#[trigger] t[i]).request is AppendBlock ==> added_here(
            t,
            t[i].request->AppendBlock_function,
        )
}

/// No function was added and no structure was made twice, and blocks were appended
/// only to functions that were added here.
pub open spec fn orderly<'ctx>(t: Trace<'ctx>) -> bool {
    &&& functions_differ(t)
    &&& structures_differ(t)
    &&& blocks_here(t)
}

/// No structure was given fields.
pub open spec fn same_bodies<'ctx>(t: Trace<'ctx>, later: Trace<'ctx>) -> bool {
    forall|structure: StructType<'ctx>| #[trigger] body(later, structure) == body(t, structure)
}

/// No structure that had been made was given fields.
pub open spec fn keeps_bodies<'ctx>(t: Trace<'ctx>, later: Trace<'ctx>) -> bool {
    forall|structure: StructType<'ctx>|
        made_here(t, structure) ==> #[trigger] body(later, structure) == body(t, structure)
}

/// A scalar: a value that fits in a field.
pub open spec fn is_scalar<'ctx>(ty: Ty<'ctx>) -> bool {
    ty is I8 || ty is I32 || ty is Pointer
}

pub broadcast proof fn lemma_position_push<'ctx>(t: Trace<'ctx>, call: Call<'ctx>)
    ensures
        #[trigger] position(t.push(call)) == (match call.request {
            Request::PositionAtEnd { block } => Some(block),
            _ => position(t),
        }),
{
    assert(t.push(call).drop_last() =~= t);
}

pub broadcast proof fn lemma_parent_push<'ctx>(
    t: Trace<'ctx>,
    call: Call<'ctx>,
    block: BasicBlock<'ctx>,
)
    ensures
        #[trigger] parent(t.push(call), block) == (match parent(t, block) {
            Some(function) => Some(function),
            None => match call.request {
                Request::AppendBlock { function, .. } => if call.answer == Answer::Block(block) {
                    Some(function)
                } else {
                    None
                },
                _ => None,
            },
        }),
{
    assert(t.push(call).drop_last() =~= t);
}

pub broadcast proof fn lemma_last_block_push<'ctx>(
    t: Trace<'ctx>,
    call: Call<'ctx>,
    function: FunctionValue<'ctx>,
)
    ensures
        #[trigger] last_block(t.push(call), function) == (match (call.request, call.answer) {
            (
                Request::AppendBlock { function: appended_to, .. },
                Answer::Block(block),
            ) => if appended_to == function {
                Some(block)
            } else {
                last_block(t, function)
            },
            _ => last_block(t, function),
        }),
{
    assert(t.push(call).drop_last() =~= t);
}

pub broadcast proof fn lemma_body_push<'ctx>(
    t: Trace<'ctx>,
    call: Call<'ctx>,
    structure: StructType<'ctx>,
)
    ensures
        #[trigger] body(t.push(call), structure) == (match body(t, structure) {
            Some(fields) => Some(fields),
            None => match call.request {
                Request::SetBody { structure: target, fields } => if target == structure {
                    Some(fields)
                } else {
                    None
                },
                _ => None,
            },
        }),
{
    assert(t.push(call).drop_last() =~= t);
}

/// Calls are orderly if each is when it is made.
pub broadcast proof fn lemma_orderly_push<'ctx>(t: Trace<'ctx>, call: Call<'ctx>)
    requires
        orderly(t),
        call.request is AddFunction ==> call.answer is Function && is_new(
            t,
            call.answer->Function_0,
        ),
        call.request is OpaqueStruct ==> call.answer is Struct && !made_here(
            t,
            call.answer->Struct_0,
        ),
        call.request is AppendBlock ==> added_here(t, call.request->AppendBlock_function),
    ensures
        #[trigger] orderly(t.push(call)),
{
    let u = t.push(call);
    assert forall|i: int, j: int|
        0 <= i < j < u.len() && (#[trigger] u[i]).request is AddFunction && (
        #[trigger] u[j]).request is AddFunction implies u[i].answer != u[j].answer by {
        assert(u[i] == t[i]);
        if j < t.len() {
            assert(u[j] == t[j]);
        }
    }
    assert forall|i: int, j: int|
        0 <= i < j < u.len() && (#[trigger] u[i]).request is OpaqueStruct && (
        #[trigger] u[j]).request is OpaqueStruct implies u[i].answer != u[j].answer by {
        assert(u[i] == t[i]);
        if j < t.len() {
            assert(u[j] == t[j]);
        } else if u[i].answer == u[j].answer {
            assert(made_here(t, call.answer->Struct_0));
        }
    }
    assert forall|i: int|
        0 <= i < u.len() && (#[trigger] u[i]).request is AppendBlock implies added_here(
        u,
        u[i].request->AppendBlock_function,
    ) by {
        if i < t.len() {
            assert(u[i] == t[i]);
        }
        lemma_added_here_push(t, call, u[i].request->AppendBlock_function);
    }
}

/// A function that is added here was added, and stays so.
pub broadcast proof fn lemma_added_here_push<'ctx>(
    t: Trace<'ctx>,
    call: Call<'ctx>,
    function: FunctionValue<'ctx>,
)
    requires
        added_here(t, function) || (call.request is AddFunction && call.answer == Answer::Function(
            function,
        )),
    ensures
        #[trigger] added_here(t.push(call), function),
{
    let u = t.push(call);
    if added_here(t, function) {
        let i = choose|i: int|
            0 <= i < t.len() && (#[trigger] t[i]).request is AddFunction && t[i].answer
                == Answer::Function(function);
        assert(u[i] == t[i]);
    } else {
        assert(u[t.len() as int] == call);
    }
}

/// A pointer that was answered here belongs here, and stays so.
pub broadcast proof fn lemma_pointer_here_push<'ctx>(
    t: Trace<'ctx>,
    call: Call<'ctx>,
    pointer: PointerValue<'ctx>,
)
    requires
        pointer_here(t, pointer) || call.answer == Answer::Pointer(pointer),
    ensures
        #[trigger] pointer_here(t.push(call), pointer),
{
    let u = t.push(call);
    if pointer_here(t, pointer) {
        lemma_pointer_here_extends(t, u, pointer);
    } else {
        reveal(pointer_here);
        assert(u[t.len() as int] == call);
    }
}

/// An integer that was loaded here stays so.
pub broadcast proof fn lemma_byte_here_push<'ctx>(
    t: Trace<'ctx>,
    call: Call<'ctx>,
    value: IntValue<'ctx>,
)
    requires
        byte_here(t, value) || loads_byte(call, value),
    ensures
        #[trigger] byte_here(t.push(call), value),
{
    let u = t.push(call);
    if byte_here(t, value) {
        let i = choose|i: int|
            0 <= i < t.len() && loads_byte(#[trigger] t[i], value);
        assert(u[i] == t[i]);
    } else {
        assert(u[t.len() as int] == call);
    }
}

/// The parameters and the address of a function that was added here belong here.
pub proof fn lemma_function_here<'ctx>(t: Trace<'ctx>, function: FunctionValue<'ctx>)
    requires
        added_here(t, function),
    ensures
        pointer_here(t, address_of(function)),
        forall|i: nat| pointer_here(t, #[trigger] parameter_of(function, i)),
{
    reveal(pointer_here);
}

/// A function that was added here stays so.
pub proof fn lemma_added_here_extends<'ctx>(
    t: Trace<'ctx>,
    later: Trace<'ctx>,
    function: FunctionValue<'ctx>,
)
    requires
        extends(later, t),
        added_here(t, function),
    ensures
        added_here(later, function),
{
    let i = choose|i: int|
        0 <= i < t.len() && (#[trigger] t[i]).request is AddFunction && t[i].answer
            == Answer::Function(function);
    assert(later[i] == t[i]);
}

/// A pointer that belongs here stays so.
pub proof fn lemma_pointer_here_extends<'ctx>(
    t: Trace<'ctx>,
    later: Trace<'ctx>,
    pointer: PointerValue<'ctx>,
)
    requires
        extends(later, t),
        pointer_here(t, pointer),
    ensures
        pointer_here(later, pointer),
{
    reveal(pointer_here);
    if exists|i: int| 0 <= i < t.len() && (#[trigger] t[i]).answer == Answer::Pointer(pointer) {
        let i = choose|i: int|
            0 <= i < t.len() && (#[trigger] t[i]).answer == Answer::Pointer(pointer);
        assert(later[i] == t[i]);
    } else if exists|function: FunctionValue<'ctx>| #[trigger]
        added_here(t, function) && pointer == address_of(function) {
        let function = choose|function: FunctionValue<'ctx>| #[trigger]
            added_here(t, function) && pointer == address_of(function);
        lemma_added_here_extends(t, later, function);
    } else {
        let (function, i) = choose|function: FunctionValue<'ctx>, i: nat|
            #![trigger parameter_of(function, i)]
            added_here(t, function) && pointer == parameter_of(function, i);
        lemma_added_here_extends(t, later, function);
    }
}

/// An integer that was loaded here stays so.
pub proof fn lemma_byte_here_extends<'ctx>(
    t: Trace<'ctx>,
    later: Trace<'ctx>,
    value: IntValue<'ctx>,
)
    requires
        extends(later, t),
        byte_here(t, value),
    ensures
        byte_here(later, value),
{
    let i = choose|i: int| 0 <= i < t.len() && loads_byte(#[trigger] t[i], value);
    assert(later[i] == t[i]);
}

/// A type whose structures were made here stays so.
pub proof fn lemma_type_here_extends<'ctx>(
    t: Trace<'ctx>,
    later: Trace<'ctx>,
    ty: Ty<'ctx>,
)
    requires
        extends(later, t),
        type_here(t, ty),
    ensures
        type_here(later, ty),
    decreases ty,
{
    match ty {
        Ty::Pointer(inner) => {
            lemma_type_here_extends(t, later, *inner);
        },
        Ty::Struct(fields) => {
            assert forall|i: int| 0 <= i < fields.len() implies type_here(
                later,
                #[trigger] fields[i],
            ) by {
                lemma_type_here_extends(t, later, fields[i]);
            }
        },
        Ty::Named(structure) => {
            lemma_made_here_extends(t, later, structure);
        },
        Ty::Function(result, parameters) => {
            lemma_type_here_extends(t, later, *result);
            assert forall|i: int| 0 <= i < parameters.len() implies type_here(
                later,
                #[trigger] parameters[i],
            ) by {
                lemma_type_here_extends(t, later, parameters[i]);
            }
        },
        _ => {},
    }
}

pub broadcast proof fn lemma_type_here_push<'ctx>(t: Trace<'ctx>, call: Call<'ctx>, ty: Ty<'ctx>)
    requires
        type_here(t, ty),
    ensures
        #[trigger] type_here(t.push(call), ty),
{
    lemma_type_here_extends(t, t.push(call), ty);
}

pub broadcast proof fn lemma_type_here_pointer<'ctx>(t: Trace<'ctx>, inner: Ty<'ctx>)
    ensures
        #[trigger] type_here(t, Ty::Pointer(Box::new(inner))) == type_here(t, inner),
{
}

pub broadcast proof fn lemma_type_here_pointee<'ctx>(t: Trace<'ctx>, ty: Ty<'ctx>)
    requires
        type_here(t, ty),
    ensures
        #[trigger] type_here(t, pointee(ty)),
{
}

pub broadcast proof fn lemma_type_here_struct<'ctx>(t: Trace<'ctx>, fields: Seq<Ty<'ctx>>)
    ensures
        #[trigger] type_here(t, Ty::Struct(fields)) <==> types_here(t, fields),
{
    let ty = Ty::Struct(fields);
    if type_here(t, ty) {
        assert forall|i: int| 0 <= i < fields.len() implies type_here(t, #[trigger] fields[i]) by {
            assert(ty->Struct_0[i] == fields[i]);
        }
    }
    if types_here(t, fields) {
        assert forall|i: int| 0 <= i < ty->Struct_0.len() implies type_here(
            t,
            #[trigger] ty->Struct_0[i],
        ) by {
            assert(type_here(t, fields[i]));
        }
    }
}

pub broadcast proof fn lemma_type_here_function<'ctx>(
    t: Trace<'ctx>,
    result: Ty<'ctx>,
    parameters: Seq<Ty<'ctx>>,
)
    ensures
        #[trigger] type_here(t, Ty::Function(Box::new(result), parameters)) <==> type_here(
            t,
            result,
        ) && types_here(t, parameters),
{
    let ty = Ty::Function(Box::new(result), parameters);
    if type_here(t, ty) {
        assert forall|i: int| 0 <= i < parameters.len() implies type_here(
            t,
            #[trigger] parameters[i],
        ) by {
            assert(ty->Function_1[i] == parameters[i]);
        }
    }
    if types_here(t, parameters) {
        assert forall|i: int| 0 <= i < ty->Function_1.len() implies type_here(
            t,
            #[trigger] ty->Function_1[i],
        ) by {
            assert(type_here(t, parameters[i]));
        }
    }
}

pub broadcast group group_here {
    lemma_added_here_push,
    lemma_pointer_here_push,
    lemma_byte_here_push,
    lemma_type_here_push,
    lemma_type_here_pointer,
    lemma_type_here_pointee,
    lemma_type_here_struct,
    lemma_type_here_function,
}

pub broadcast group group_trace_push {
    lemma_orderly_push,
    lemma_position_push,
    lemma_parent_push,
    lemma_last_block_push,
    lemma_body_push,
}

pub proof fn lemma_extends_trans<'ctx>(a: Trace<'ctx>, b: Trace<'ctx>, c: Trace<'ctx>)
    requires
        extends(c, b),
        extends(b, a),
    ensures
        extends(c, a),
{
    assert forall|i: int| 0 <= i < a.len() implies c[i] == a[i] by {
        assert(b[i] == a[i]);
    }
}

/// What is known of a block stays known.
pub proof fn lemma_parent_extends<'ctx>(
    t: Trace<'ctx>,
    later: Trace<'ctx>,
    block: BasicBlock<'ctx>,
)
    requires
        extends(later, t),
        parent(t, block) is Some,
    ensures
        parent(later, block) == parent(t, block),
    decreases later.len(),
{
    if later.len() == t.len() {
        assert(later =~= t);
    } else {
        lemma_parent_extends(t, later.drop_last(), block);
    }
}

/// What is known of a structure stays known.
pub proof fn lemma_body_extends<'ctx>(
    t: Trace<'ctx>,
    later: Trace<'ctx>,
    structure: StructType<'ctx>,
)
    requires
        extends(later, t),
        body(t, structure) is Some,
    ensures
        body(later, structure) == body(t, structure),
    decreases later.len(),
{
    if later.len() == t.len() {
        assert(later =~= t);
    } else {
        lemma_body_extends(t, later.drop_last(), structure);
    }
}

/// A function that has a block keeps having one.
pub proof fn lemma_last_block_extends<'ctx>(
    t: Trace<'ctx>,
    later: Trace<'ctx>,
    function: FunctionValue<'ctx>,
)
    requires
        extends(later, t),
        last_block(t, function) is Some,
    ensures
        last_block(later, function) is Some,
    decreases later.len(),
{
    if later.len() == t.len() {
        assert(later =~= t);
    } else {
        lemma_last_block_extends(t, later.drop_last(), function);
    }
}

/// The last block of a function is a block of some function.
pub proof fn lemma_last_block_parent<'ctx>(t: Trace<'ctx>, function: FunctionValue<'ctx>)
    requires
        last_block(t, function) is Some,
    ensures
        parent(t, last_block(t, function)->0) is Some,
    decreases t.len(),
{
    if last_block(t.drop_last(), function) is Some {
        lemma_last_block_parent(t.drop_last(), function);
    }
}

/// A structure that was made stays made.
pub proof fn lemma_made_here_extends<'ctx>(
    t: Trace<'ctx>,
    later: Trace<'ctx>,
    structure: StructType<'ctx>,
)
    requires
        extends(later, t),
        made_here(t, structure),
    ensures
        made_here(later, structure),
{
    let i = choose|i: int|
        0 <= i < t.len() && (#[trigger] t[i]).request is OpaqueStruct && t[i].answer
            == Answer::Struct(structure);
    assert(later[i] == t[i]);
}

/// A structure keeps its fields from any one moment to a later one.
pub proof fn lemma_keeps_bodies_trans<'ctx>(a: Trace<'ctx>, b: Trace<'ctx>, c: Trace<'ctx>)
    requires
        extends(b, a),
        keeps_bodies(a, b),
        keeps_bodies(b, c),
    ensures
        keeps_bodies(a, c),
{
    assert forall|structure: StructType<'ctx>| made_here(a, structure) implies #[trigger] body(
        c,
        structure,
    ) == body(a, structure) by {
        lemma_made_here_extends(a, b, structure);
        assert(body(b, structure) == body(a, structure));
    }
}

/// A block that was appended here is that of a function that was added here.
pub proof fn lemma_parent_added<'ctx>(t: Trace<'ctx>, block: BasicBlock<'ctx>)
    requires
        blocks_here(t),
        parent(t, block) is Some,
    ensures
        added_here(t, parent(t, block)->0),
{
    let i = lemma_parent_call(t, block);
    assert(t[i].request is AppendBlock);
}

proof fn lemma_parent_call<'ctx>(t: Trace<'ctx>, block: BasicBlock<'ctx>) -> (i: int)
    requires
        parent(t, block) is Some,
    ensures
        0 <= i < t.len(),
        t[i].request is AppendBlock,
        t[i].request->AppendBlock_function == parent(t, block)->0,
    decreases t.len(),
{
    if parent(t.drop_last(), block) is Some {
        let i = lemma_parent_call(t.drop_last(), block);
        assert(t.drop_last()[i] == t[i]);
        i
    } else {
        t.len() - 1
    }
}

} // verus!
