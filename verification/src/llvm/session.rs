//! The inkwell handles of one module under construction, and the calls made
//! through them.
//!
//! Each method of [`Llvm`] makes one inkwell call. Those that change the module
//! or the builder say so in terms of [`calls`], the record of what was asked and
//! answered. They take only handles that belong to this module: what is done
//! through another one, in the same context or not, does not change it.
use inkwell::basic_block::BasicBlock;
use inkwell::builder::Builder;
use inkwell::context::Context as InkwellContext;
use inkwell::module::{Linkage, Module};
use inkwell::types::{AnyTypeEnum, BasicTypeEnum, FunctionType, IntType, PointerType, StructType};
use inkwell::values::{
    BasicMetadataValueEnum, BasicValueEnum, CallableValue, FunctionValue, IntValue, PointerValue,
};
use inkwell::AddressSpace;
use vstd::prelude::*;

use crate::llvm::trace::{
    added_here, body, byte_here, is_new, is_scalar, last_block, layout, made_here, operand_type,
    parameter_types, parent, pointee, pointer_here, position, ready, result_type, type_here, Answer,
    Call, Operand, Request, Target, Trace, Ty,
};

verus! {

/// inkwell's `Context`.
#[verifier::external_type_specification]
#[verifier::external_body]
pub struct ExContext(InkwellContext);

/// inkwell's `Builder`.
#[verifier::external_type_specification]
#[verifier::external_body]
pub struct ExBuilder<'ctx>(inkwell::builder::Builder<'ctx>);

/// inkwell's `Module`.
#[verifier::external_type_specification]
#[verifier::external_body]
pub struct ExModule<'ctx>(inkwell::module::Module<'ctx>);

/// inkwell's `BasicBlock`.
#[verifier::external_type_specification]
#[verifier::external_body]
pub struct ExBasicBlock<'ctx>(inkwell::basic_block::BasicBlock<'ctx>);

/// inkwell's `PointerValue`.
#[verifier::external_type_specification]
#[verifier::external_body]
pub struct ExPointerValue<'ctx>(inkwell::values::PointerValue<'ctx>);

/// inkwell's `IntValue`.
#[verifier::external_type_specification]
#[verifier::external_body]
pub struct ExIntValue<'ctx>(inkwell::values::IntValue<'ctx>);

/// inkwell's `FunctionValue`.
#[verifier::external_type_specification]
#[verifier::external_body]
pub struct ExFunctionValue<'ctx>(inkwell::values::FunctionValue<'ctx>);

/// inkwell's `IntType`.
#[verifier::external_type_specification]
#[verifier::external_body]
pub struct ExIntType<'ctx>(inkwell::types::IntType<'ctx>);

/// inkwell's `PointerType`.
#[verifier::external_type_specification]
#[verifier::external_body]
pub struct ExPointerType<'ctx>(inkwell::types::PointerType<'ctx>);

/// inkwell's `StructType`.
#[verifier::external_type_specification]
#[verifier::external_body]
pub struct ExStructType<'ctx>(inkwell::types::StructType<'ctx>);

/// inkwell's `FunctionType`.
#[verifier::external_type_specification]
#[verifier::external_body]
pub struct ExFunctionType<'ctx>(inkwell::types::FunctionType<'ctx>);

/// inkwell's `BasicTypeEnum`.
#[verifier::external_type_specification]
#[verifier::external_body]
pub struct ExBasicTypeEnum<'ctx>(inkwell::types::BasicTypeEnum<'ctx>);

/// A module under construction, with the builder that fills it and the context
/// that owns both.
pub struct Llvm<'ctx> {
    context: &'ctx InkwellContext,
    builder: Builder<'ctx>,
    module: Module<'ctx>,
}

/// A value that an instruction takes or gives.
pub enum Value<'ctx> {
    Pointer(PointerValue<'ctx>),
    Int(IntValue<'ctx>),
}

/// What a pointer points to.
pub enum Pointee<'ctx> {
    Pointer(PointerType<'ctx>),
    Struct(StructType<'ctx>),
    Other,
}

/// A value that can be called.
pub enum Callee<'ctx> {
    Pointer(PointerValue<'ctx>),
    Function(FunctionValue<'ctx>),
}

/// The calls made so far through the handles of `llvm`.
pub uninterp spec fn calls(llvm: Llvm<'_>) -> Seq<Call<'_>>;

/// What looking up a function of the module by its name gives.
pub uninterp spec fn function_named(llvm: Llvm<'_>, name: Seq<char>) -> Option<FunctionValue<'_>>;

/// What LLVM's verifier says of the module that these calls have made: nothing, or
/// what is wrong with it.
pub uninterp spec fn verification(calls: Seq<Call<'_>>) -> Result<(), Seq<char>>;

/// The text of the module that these calls have made. The handle of a structure
/// stands for its name too, which LLVM lengthens where another structure of the
/// context has it: the same program may give another text beside another module.
pub uninterp spec fn printed(calls: Seq<Call<'_>>) -> Seq<char>;

/// The type of a pointer.
pub uninterp spec fn type_of(pointer: PointerValue<'_>) -> Ty<'_>;

/// The width and the value of an integer constant, or `None` for an integer that is
/// not one.
pub uninterp spec fn constant_of(value: IntValue<'_>) -> Option<(nat, nat)>;

/// The signature of a function.
pub uninterp spec fn signature_of(function: FunctionValue<'_>) -> Ty<'_>;

/// The parameter of a function at a position.
pub uninterp spec fn parameter_of(function: FunctionValue<'_>, position: nat) -> PointerValue<'_>;

/// The address of a function.
pub uninterp spec fn address_of(function: FunctionValue<'_>) -> PointerValue<'_>;

/// The type that an `IntType` stands for.
pub uninterp spec fn int_type(ty: IntType<'_>) -> Ty<'_>;

/// The type that a `PointerType` stands for.
pub uninterp spec fn pointer_type(ty: PointerType<'_>) -> Ty<'_>;

/// The type that a `StructType` stands for.
pub uninterp spec fn struct_type(ty: StructType<'_>) -> Ty<'_>;

/// The type that a `FunctionType` stands for.
pub uninterp spec fn function_type(ty: FunctionType<'_>) -> Ty<'_>;

/// The type that a `BasicTypeEnum` stands for.
pub uninterp spec fn basic_type(ty: BasicTypeEnum<'_>) -> Ty<'_>;

/// The types that a list of `BasicTypeEnum` stands for.
pub open spec fn basic_types<'ctx>(types: Seq<BasicTypeEnum<'ctx>>) -> Seq<Ty<'ctx>> {
    Seq::new(types.len(), |i: int| basic_type(types[i]))
}

/// A name as LLVM reads it: it ends before the first NUL.
pub open spec fn c_name(name: Seq<char>) -> Seq<char>
    decreases name.len(),
{
    if name.len() == 0 || name[0] == '\0' {
        Seq::empty()
    } else {
        seq![name[0]] + c_name(name.skip(1))
    }
}

/// A name is read up to the first NUL.
pub proof fn lemma_c_name_at(name: Seq<char>, i: int)
    requires
        0 <= i < name.len(),
        forall|j: int| 0 <= j <= i ==> #[trigger] name[j] != '\0',
    ensures
        i < c_name(name).len(),
        c_name(name)[i] == name[i],
    decreases name.len(),
{
    if i > 0 {
        lemma_c_name_at(name.skip(1), i - 1);
    }
}

/// No function was added or renamed.
pub open spec fn same_functions<'ctx>(before: Llvm<'ctx>, after: Llvm<'ctx>) -> bool {
    forall|name: Seq<char>| #[trigger]
        function_named(after, name) == function_named(before, name)
}

/// Every function keeps its name, and a name that was free is taken only if it
/// starts with `stem`.
pub open spec fn added_functions<'ctx>(
    before: Llvm<'ctx>,
    after: Llvm<'ctx>,
    stem: Seq<char>,
) -> bool {
    forall|name: Seq<char>| #[trigger]
        function_named(after, name) == function_named(before, name) || (function_named(
            before,
            name,
        ) is None && stem.is_prefix_of(name))
}

/// Every function keeps its name, and a name that was free is taken by no other
/// function than this one.
pub open spec fn added_function<'ctx>(
    before: Llvm<'ctx>,
    after: Llvm<'ctx>,
    function: FunctionValue<'ctx>,
) -> bool {
    forall|name: Seq<char>| #[trigger]
        function_named(after, name) == function_named(before, name) || (function_named(
            before,
            name,
        ) is None && function_named(after, name) == Some(function))
}

impl<'ctx> Value<'ctx> {
    pub open spec fn operand(self) -> Operand<'ctx> {
        match self {
            Value::Pointer(pointer) => Operand::Pointer(pointer),
            Value::Int(integer) => Operand::Int {
                bits: (constant_of(integer)->0).0,
                value: (constant_of(integer)->0).1,
            },
        }
    }

    /// The value belongs to what the calls have made, or is a constant.
    pub open spec fn is_here(self, t: Trace<'ctx>) -> bool {
        match self {
            Value::Pointer(pointer) => pointer_here(t, pointer),
            Value::Int(integer) => constant_of(integer) is Some,
        }
    }

    pub open spec fn answer(self) -> Answer<'ctx> {
        match self {
            Value::Pointer(pointer) => Answer::Pointer(pointer),
            Value::Int(integer) => Answer::Int(integer),
        }
    }
}

impl<'ctx> Callee<'ctx> {
    pub open spec fn target(self) -> Target<'ctx> {
        match self {
            Callee::Pointer(pointer) => Target::Pointer(pointer),
            Callee::Function(function) => Target::Function(function),
        }
    }

    /// The value belongs to what the calls have made.
    pub open spec fn is_here(self, t: Trace<'ctx>) -> bool {
        match self {
            Callee::Pointer(pointer) => pointer_here(t, pointer),
            Callee::Function(function) => added_here(t, function),
        }
    }

    /// The signature that a call of this value has.
    pub open spec fn signature(self) -> Ty<'ctx> {
        match self {
            Callee::Pointer(pointer) => pointee(type_of(pointer)),
            Callee::Function(function) => signature_of(function),
        }
    }
}

/// The operands that a list of values stands for.
pub open spec fn operands<'ctx>(values: Seq<Value<'ctx>>) -> Seq<Operand<'ctx>> {
    Seq::new(values.len(), |i: int| values[i].operand())
}

/// The integer is an eight-bit constant.
pub open spec fn is_byte(value: IntValue<'_>) -> bool {
    constant_of(value) matches Some(constant) && constant.0 == 8
}

/// The cases of a switch.
pub open spec fn switch_cases<'ctx>(cases: Seq<(IntValue<'ctx>, BasicBlock<'ctx>)>) -> Seq<
    (Operand<'ctx>, BasicBlock<'ctx>),
> {
    Seq::new(cases.len(), |i: int| (Value::Int(cases[i].0).operand(), cases[i].1))
}

/// Types.
impl<'ctx> Llvm<'ctx> {
    /// inkwell's `Context::i8_type`: the type of eight-bit integers.
    #[verifier::external_body]
    pub(crate) fn i8_type(&self) -> (ty: IntType<'ctx>)
        ensures
            int_type(ty) == Ty::<'ctx>::I8,
    {
        self.context.i8_type()
    }

    /// inkwell's `Context::i32_type`: the type of 32-bit integers.
    #[verifier::external_body]
    pub(crate) fn i32_type(&self) -> (ty: IntType<'ctx>)
        ensures
            int_type(ty) == Ty::<'ctx>::I32,
    {
        self.context.i32_type()
    }

    /// inkwell's `Context::struct_type`: the structure without a name that has
    /// these fields. LLVM counts fields with 32 bits.
    #[verifier::external_body]
    pub(crate) fn struct_type(&self, fields: &Vec<BasicTypeEnum<'ctx>>) -> (ty: StructType<'ctx>)
        requires
            fields@.len() <= u32::MAX,
        ensures
            struct_type(ty) == Ty::Struct(basic_types(fields@)),
    {
        self.context.struct_type(fields.as_slice(), false)
    }

    /// inkwell's `VoidType::fn_type`: the signature of functions that take these
    /// integers and give nothing back.
    #[verifier::external_body]
    pub(crate) fn void_fn_type(&self, parameter: IntType<'ctx>) -> (ty: FunctionType<'ctx>)
        ensures
            function_type(ty) == Ty::Function(Box::new(Ty::Void), seq![int_type(parameter)]),
    {
        self.context.void_type().fn_type(&[parameter.into()], false)
    }
}

/// inkwell's `IntType::fn_type`, for no parameters: the signature of functions
/// that take nothing and give this integer.
#[verifier::external_body]
pub(crate) fn int_fn_type<'ctx>(ty: IntType<'ctx>) -> (signature: FunctionType<'ctx>)
    ensures
        function_type(signature) == Ty::Function(Box::new(int_type(ty)), Seq::empty()),
{
    ty.fn_type(&[], false)
}

/// inkwell's `PointerType::fn_type`: the signature of functions that take these
/// two pointers and give this one.
#[verifier::external_body]
pub(crate) fn pointer_fn_type<'ctx>(
    ty: PointerType<'ctx>,
    first: PointerType<'ctx>,
    second: PointerType<'ctx>,
) -> (signature: FunctionType<'ctx>)
    ensures
        function_type(signature) == Ty::Function(
            Box::new(pointer_type(ty)),
            seq![pointer_type(first), pointer_type(second)],
        ),
{
    ty.fn_type(&[first.into(), second.into()], false)
}

/// inkwell's `IntType::ptr_type`: pointers to this integer type.
#[verifier::external_body]
pub(crate) fn int_ptr_type<'ctx>(ty: IntType<'ctx>) -> (pointer: PointerType<'ctx>)
    ensures
        pointer_type(pointer) == Ty::Pointer(Box::new(int_type(ty))),
{
    ty.ptr_type(AddressSpace::default())
}

/// inkwell's `StructType::ptr_type`: pointers to this structure.
#[verifier::external_body]
pub(crate) fn struct_ptr_type<'ctx>(ty: StructType<'ctx>) -> (pointer: PointerType<'ctx>)
    ensures
        pointer_type(pointer) == Ty::Pointer(Box::new(struct_type(ty))),
{
    ty.ptr_type(AddressSpace::default())
}

/// inkwell's `FunctionType::ptr_type`: pointers to functions of this signature.
#[verifier::external_body]
pub(crate) fn fn_ptr_type<'ctx>(ty: FunctionType<'ctx>) -> (pointer: PointerType<'ctx>)
    ensures
        pointer_type(pointer) == Ty::Pointer(Box::new(function_type(ty))),
{
    ty.ptr_type(AddressSpace::default())
}

/// inkwell's `BasicTypeEnum::from` of an `IntType`: the same type.
#[verifier::external_body]
pub(crate) fn int_as_basic<'ctx>(ty: IntType<'ctx>) -> (basic: BasicTypeEnum<'ctx>)
    ensures
        basic_type(basic) == int_type(ty),
{
    BasicTypeEnum::from(ty)
}

/// inkwell's `BasicTypeEnum::from` of a `PointerType`: the same type.
#[verifier::external_body]
pub(crate) fn pointer_as_basic<'ctx>(ty: PointerType<'ctx>) -> (basic: BasicTypeEnum<'ctx>)
    ensures
        basic_type(basic) == pointer_type(ty),
{
    BasicTypeEnum::from(ty)
}

/// inkwell's `PointerType::get_element_type`: what pointers of this type point to,
/// where that is a pointer or a structure.
#[verifier::external_body]
pub(crate) fn element_type<'ctx>(ty: PointerType<'ctx>) -> (element: Pointee<'ctx>)
    ensures
        match element {
            Pointee::Pointer(inner) => pointee(pointer_type(ty)) == pointer_type(inner)
                && pointer_type(inner) is Pointer,
            Pointee::Struct(inner) => pointee(pointer_type(ty)) == struct_type(inner) && (
            struct_type(inner) is Struct || struct_type(inner) is Named),
            Pointee::Other => !(pointee(pointer_type(ty)) is Pointer || pointee(
                pointer_type(ty),
            ) is Struct || pointee(pointer_type(ty)) is Named),
        },
{
    match ty.get_element_type() {
        AnyTypeEnum::PointerType(inner) => Pointee::Pointer(inner),
        AnyTypeEnum::StructType(inner) => Pointee::Struct(inner),
        _ => Pointee::Other,
    }
}

/// inkwell's `BasicTypeEnum::is_pointer_type`: whether this is a type of pointers.
#[verifier::external_body]
pub(crate) fn is_pointer_type<'ctx>(ty: BasicTypeEnum<'ctx>) -> (pointer: bool)
    ensures
        pointer == (basic_type(ty) is Pointer),
{
    ty.is_pointer_type()
}

/// inkwell's `PointerValue::get_type`: the type of a pointer.
#[verifier::external_body]
pub(crate) fn get_type<'ctx>(pointer: PointerValue<'ctx>) -> (ty: PointerType<'ctx>)
    ensures
        pointer_type(ty) == type_of(pointer),
        pointer_type(ty) is Pointer,
{
    pointer.get_type()
}

/// inkwell's `IntType::const_int`: the constant of this type whose bits are the
/// low bits of `value`.
#[verifier::external_body]
pub(crate) fn const_int<'ctx>(ty: IntType<'ctx>, value: u64) -> (constant: IntValue<'ctx>)
    ensures
        int_type(ty) is I8 ==> constant_of(constant) == Some((8nat, (value % 0x100) as nat)),
        int_type(ty) is I32 ==> constant_of(constant) == Some(
            (32nat, (value % 0x1_0000_0000) as nat),
        ),
{
    ty.const_int(value, false)
}

/// inkwell's `FunctionValue::get_nth_param`, of a parameter that is a pointer: the
/// parameter, which has the type that the signature gives it.
#[verifier::external_body]
pub(crate) fn get_nth_param<'ctx>(function: FunctionValue<'ctx>, position: u32) -> (parameter:
    PointerValue<'ctx>)
    requires
        position < parameter_types(signature_of(function)).len(),
        parameter_types(signature_of(function))[position as int] is Pointer,
    ensures
        parameter == parameter_of(function, position as nat),
        type_of(parameter) == parameter_types(signature_of(function))[position as int],
{
    function.get_nth_param(position).unwrap().into_pointer_value()
}

/// inkwell's `FunctionValue::as_global_value` and `GlobalValue::as_pointer_value`:
/// the address of a function.
#[verifier::external_body]
pub(crate) fn function_address<'ctx>(function: FunctionValue<'ctx>) -> (pointer: PointerValue<'ctx>)
    ensures
        pointer == address_of(function),
        type_of(pointer) == Ty::Pointer(Box::new(signature_of(function))),
{
    function.as_global_value().as_pointer_value()
}

/// inkwell's `FunctionValue::verify`, which reports a function that is not well
/// formed on the standard error stream. The verdict is dropped.
#[verifier::external_body]
pub(crate) fn verify_function<'ctx>(function: FunctionValue<'ctx>)
{
    function.verify(true);
}

/// The module and its functions.
impl<'ctx> Llvm<'ctx> {
    /// inkwell's `Context::create_builder` and `Context::create_module`: a builder
    /// that stands nowhere, and a module that holds no function.
    #[verifier::external_body]
    pub(crate) fn create(context: &'ctx InkwellContext, name: &str) -> (llvm: Self)
        ensures
            calls(llvm) == seq![
                Call { request: Request::CreateModule { name: name@ }, answer: Answer::Done },
            ],
            forall|function: Seq<char>| #[trigger] function_named(llvm, function) is None,
    {
        Llvm { context, builder: context.create_builder(), module: context.create_module(name) }
    }

    pub closed spec fn module_handle(&self) -> Module<'ctx> {
        self.module
    }

    /// The module, which is not built any further.
    pub(crate) fn into_module(self) -> (module: Module<'ctx>)
        ensures
            module == self.module_handle(),
    {
        self.module
    }

    /// inkwell's `Module::verify`: LLVM's verdict on the module, which
    /// `verification` names.
    #[verifier::external_body]
    pub(crate) fn verify(&self) -> (verdict: Result<(), String>)
        ensures
            match verdict {
                Ok(_) => verification(calls(*self)) == Ok::<(), Seq<char>>(()),
                Err(message) => verification(calls(*self)) == Err::<(), Seq<char>>(message@),
            },
    {
        self.module.verify().map_err(|message| message.to_string())
    }

    /// inkwell's `Module::print_to_string`: the module as LLVM writes it down,
    /// which `printed` names.
    #[verifier::external_body]
    pub(crate) fn print_to_string(&self) -> (text: String)
        ensures
            text@ == printed(calls(*self)),
    {
        self.module.print_to_string().to_string()
    }

    /// inkwell's `Module::get_function`: the function that has this name, if there
    /// is one.
    #[verifier::external_body]
    pub(crate) fn get_function(&self, name: &str) -> (function: Option<FunctionValue<'ctx>>)
        ensures
            function == function_named(*self, name@),
    {
        self.module.get_function(name)
    }

    /// inkwell's `Module::add_function`, with the default linkage: a new function of
    /// this signature, which no earlier call has answered. It is found under its
    /// name if no other function was; otherwise LLVM lengthens the name.
    #[verifier::external_body]
    pub(crate) fn add_function(&mut self, name: &str, signature: FunctionType<'ctx>) -> (
        function: FunctionValue<'ctx>)
        requires
            type_here(calls(*old(self)), function_type(signature)),
        ensures
            calls(*final(self)) == calls(*old(self)).push(
                Call {
                    request: Request::AddFunction {
                        name: name@,
                        signature: function_type(signature),
                        external: false,
                    },
                    answer: Answer::Function(function),
                },
            ),
            is_new(calls(*old(self)), function),
            signature_of(function) == function_type(signature),
            name@.len() > 0 && name@[0] != '\0' && function_named(*old(self), name@) is None
                ==> function_named(*final(self), name@) == Some(function),
            added_functions(*old(self), *final(self), c_name(name@)),
            added_function(*old(self), *final(self), function),
    {
        self.module.add_function(name, signature, None)
    }

    /// inkwell's `Module::add_function`, with external linkage: a new function of
    /// this signature, which no earlier call has answered. It is found under its
    /// name if no other function was; otherwise LLVM lengthens the name.
    #[verifier::external_body]
    pub(crate) fn add_external_function(&mut self, name: &str, signature: FunctionType<'ctx>) -> (
        function: FunctionValue<'ctx>)
        requires
            type_here(calls(*old(self)), function_type(signature)),
        ensures
            calls(*final(self)) == calls(*old(self)).push(
                Call {
                    request: Request::AddFunction {
                        name: name@,
                        signature: function_type(signature),
                        external: true,
                    },
                    answer: Answer::Function(function),
                },
            ),
            is_new(calls(*old(self)), function),
            signature_of(function) == function_type(signature),
            name@.len() > 0 && name@[0] != '\0' && function_named(*old(self), name@) is None
                ==> function_named(*final(self), name@) == Some(function),
            added_functions(*old(self), *final(self), c_name(name@)),
            added_function(*old(self), *final(self), function),
    {
        self.module.add_function(name, signature, Some(Linkage::External))
    }

    /// inkwell's `Context::opaque_struct_type`: a new structure without fields,
    /// unlike all others.
    #[verifier::external_body]
    pub(crate) fn opaque_struct_type(&mut self, name: &str) -> (structure: StructType<'ctx>)
        ensures
            calls(*final(self)) == calls(*old(self)).push(
                Call {
                    request: Request::OpaqueStruct { name: name@ },
                    answer: Answer::Struct(structure),
                },
            ),
            struct_type(structure) == Ty::Named(structure),
            !made_here(calls(*old(self)), structure),
            body(calls(*old(self)), structure) is None,
            same_functions(*old(self), *final(self)),
    {
        self.context.opaque_struct_type(name)
    }

    /// inkwell's `StructType::set_body`, of a structure that has no fields yet:
    /// from now on it has these. LLVM counts fields with 32 bits.
    #[verifier::external_body]
    pub(crate) fn set_body(
        &mut self,
        structure: StructType<'ctx>,
        fields: &Vec<BasicTypeEnum<'ctx>>,
    )
        requires
            made_here(calls(*old(self)), structure),
            body(calls(*old(self)), structure) is None,
            fields@.len() <= u32::MAX,
            forall|i: int|
                0 <= i < fields@.len() ==> type_here(
                    calls(*old(self)),
                    basic_type(#[trigger] fields@[i]),
                ),
        ensures
            calls(*final(self)) == calls(*old(self)).push(
                Call {
                    request: Request::SetBody { structure, fields: basic_types(fields@) },
                    answer: Answer::Done,
                },
            ),
            same_functions(*old(self), *final(self)),
    {
        structure.set_body(fields.as_slice(), false);
    }

    /// inkwell's `StructType::get_field_types`: the fields of the structure. One
    /// that was made here has those that it was given here, or none.
    #[verifier::external_body]
    pub(crate) fn get_field_types(&self, structure: StructType<'ctx>) -> (fields: Vec<
        BasicTypeEnum<'ctx>,
    >)
        ensures
            layout(calls(*self), struct_type(structure)) matches Some(known) ==> basic_types(
                fields@,
            ) == known,
            layout(calls(*self), struct_type(structure)) is None && (struct_type(structure)
                matches Ty::Named(named) && made_here(calls(*self), named)) ==> fields@.len() == 0,
    {
        structure.get_field_types()
    }

    /// inkwell's `Context::append_basic_block`: a new block at the end of a
    /// function, which no earlier call has appended.
    #[verifier::external_body]
    pub(crate) fn append_basic_block(
        &mut self,
        function: FunctionValue<'ctx>,
        name: &str,
    ) -> (block: BasicBlock<'ctx>)
        requires
            added_here(calls(*old(self)), function),
        ensures
            calls(*final(self)) == calls(*old(self)).push(
                Call {
                    request: Request::AppendBlock { function, name: name@ },
                    answer: Answer::Block(block),
                },
            ),
            parent(calls(*old(self)), block) is None,
            same_functions(*old(self), *final(self)),
    {
        self.context.append_basic_block(function, name)
    }

    /// inkwell's `FunctionValue::get_last_basic_block`, of a function that was
    /// given a block here: the one that was appended last.
    #[verifier::external_body]
    pub(crate) fn get_last_basic_block(&self, function: FunctionValue<'ctx>) -> (block: BasicBlock<
        'ctx,
    >)
        requires
            last_block(calls(*self), function) is Some,
        ensures
            last_block(calls(*self), function) == Some(block),
    {
        function.get_last_basic_block().unwrap()
    }

    /// inkwell's `BasicBlock::get_parent`, of a block that was appended here: the
    /// function that it was appended to.
    #[verifier::external_body]
    pub(crate) fn get_parent(&self, block: BasicBlock<'ctx>) -> (function: FunctionValue<'ctx>)
        requires
            parent(calls(*self), block) is Some,
        ensures
            parent(calls(*self), block) == Some(function),
    {
        block.get_parent().unwrap()
    }
}

/// The builder.
impl<'ctx> Llvm<'ctx> {
    /// inkwell's `Builder::position_at_end`: what is built from now on goes to the
    /// end of this block.
    #[verifier::external_body]
    pub(crate) fn position_at_end(&mut self, block: BasicBlock<'ctx>)
        requires
            parent(calls(*old(self)), block) is Some,
        ensures
            calls(*final(self)) == calls(*old(self)).push(
                Call { request: Request::PositionAtEnd { block }, answer: Answer::Done },
            ),
            same_functions(*old(self), *final(self)),
    {
        self.builder.position_at_end(block);
    }

    /// inkwell's `Builder::get_insert_block`, of a builder that was positioned: the
    /// block where it stands.
    #[verifier::external_body]
    pub(crate) fn get_insert_block(&self) -> (block: BasicBlock<'ctx>)
        requires
            position(calls(*self)) is Some,
        ensures
            position(calls(*self)) == Some(block),
    {
        self.builder.get_insert_block().unwrap()
    }

    /// inkwell's `Builder::build_malloc`, of a structure whose fields are known: a
    /// pointer to it. LLVM declares `malloc` in the module.
    #[verifier::external_body]
    pub(crate) fn build_malloc(&mut self, ty: StructType<'ctx>, name: &str) -> (pointer:
        PointerValue<'ctx>)
        requires
            ready(calls(*old(self))),
            layout(calls(*old(self)), struct_type(ty)) matches Some(fields) && forall|i: int|
                0 <= i < fields.len() ==> is_scalar(#[trigger] fields[i]),
            type_here(calls(*old(self)), struct_type(ty)),
        ensures
            calls(*final(self)) == calls(*old(self)).push(
                Call {
                    request: Request::Malloc { ty: struct_type(ty), name: name@ },
                    answer: Answer::Pointer(pointer),
                },
            ),
            type_of(pointer) == Ty::Pointer(Box::new(struct_type(ty))),
            added_functions(*old(self), *final(self), "malloc"@),
    {
        self.builder.build_malloc(ty, name).unwrap()
    }

    /// inkwell's `Builder::build_struct_gep`, of a structure that has the field:
    /// the address of the field.
    #[verifier::external_body]
    pub(crate) fn build_struct_gep(
        &mut self,
        pointer: PointerValue<'ctx>,
        index: u32,
        name: &str,
    ) -> (field: PointerValue<'ctx>)
        requires
            ready(calls(*old(self))),
            layout(calls(*old(self)), pointee(type_of(pointer))) matches Some(fields) && index
                < fields.len(),
            pointer_here(calls(*old(self)), pointer),
        ensures
            calls(*final(self)) == calls(*old(self)).push(
                Call {
                    request: Request::StructGep { pointer, index: index as nat, name: name@ },
                    answer: Answer::Pointer(field),
                },
            ),
            type_of(field) == Ty::Pointer(
                Box::new(layout(calls(*old(self)), pointee(type_of(pointer)))->0[index as int]),
            ),
            same_functions(*old(self), *final(self)),
    {
        self.builder.build_struct_gep(pointer, index, name).unwrap()
    }

    /// inkwell's `Builder::build_store`: an instruction that stores the value.
    #[verifier::external_body]
    pub(crate) fn build_store(&mut self, pointer: PointerValue<'ctx>, value: Value<'ctx>)
        requires
            ready(calls(*old(self))),
            pointer_here(calls(*old(self)), pointer),
            value.is_here(calls(*old(self))),
            pointee(type_of(pointer)) == operand_type(value.operand()),
        ensures
            calls(*final(self)) == calls(*old(self)).push(
                Call {
                    request: Request::Store { pointer, value: value.operand() },
                    answer: Answer::Done,
                },
            ),
            same_functions(*old(self), *final(self)),
    {
        match value {
            Value::Pointer(value) => self.builder.build_store(pointer, value),
            Value::Int(value) => self.builder.build_store(pointer, value),
        };
    }

    /// inkwell's `Builder::build_load`, of a pointer or an integer: a value of the
    /// type pointed to.
    #[verifier::external_body]
    pub(crate) fn build_load(&mut self, pointer: PointerValue<'ctx>, name: &str) -> (value: Value<
        'ctx,
    >)
        requires
            ready(calls(*old(self))),
            is_scalar(pointee(type_of(pointer))),
            pointer_here(calls(*old(self)), pointer),
        ensures
            calls(*final(self)) == calls(*old(self)).push(
                Call {
                    request: Request::Load { pointer, name: name@ },
                    answer: value.answer(),
                },
            ),
            value is Pointer <==> pointee(type_of(pointer)) is Pointer,
            value is Pointer ==> type_of(value->Pointer_0) == pointee(type_of(pointer)),
            same_functions(*old(self), *final(self)),
    {
        match self.builder.build_load(pointer, name) {
            BasicValueEnum::PointerValue(value) => Value::Pointer(value),
            value => Value::Int(value.into_int_value()),
        }
    }

    /// inkwell's `Builder::build_alloca`: a pointer to a place for a pointer.
    #[verifier::external_body]
    pub(crate) fn build_alloca(&mut self, ty: PointerType<'ctx>, name: &str) -> (pointer:
        PointerValue<'ctx>)
        requires
            ready(calls(*old(self))),
            type_here(calls(*old(self)), pointer_type(ty)),
        ensures
            calls(*final(self)) == calls(*old(self)).push(
                Call {
                    request: Request::Alloca { ty: pointer_type(ty), name: name@ },
                    answer: Answer::Pointer(pointer),
                },
            ),
            type_of(pointer) == Ty::Pointer(Box::new(pointer_type(ty))),
            same_functions(*old(self), *final(self)),
    {
        self.builder.build_alloca(ty, name)
    }

    /// inkwell's `Builder::build_bitcast`, from a pointer to a pointer: the pointer
    /// with this type.
    #[verifier::external_body]
    pub(crate) fn build_bitcast(
        &mut self,
        value: PointerValue<'ctx>,
        ty: PointerType<'ctx>,
        name: &str,
    ) -> (pointer: PointerValue<'ctx>)
        requires
            ready(calls(*old(self))),
            pointer_here(calls(*old(self)), value),
            type_here(calls(*old(self)), pointer_type(ty)),
        ensures
            calls(*final(self)) == calls(*old(self)).push(
                Call {
                    request: Request::Bitcast { value, ty: pointer_type(ty), name: name@ },
                    answer: Answer::Pointer(pointer),
                },
            ),
            type_of(pointer) == pointer_type(ty),
            same_functions(*old(self), *final(self)),
    {
        self.builder.build_bitcast(value, ty, name).into_pointer_value()
    }

    /// inkwell's `Builder::build_return`: an instruction that returns the value.
    #[verifier::external_body]
    pub(crate) fn build_return(&mut self, value: Value<'ctx>)
        requires
            ready(calls(*old(self))),
            value.is_here(calls(*old(self))),
        ensures
            calls(*final(self)) == calls(*old(self)).push(
                Call { request: Request::Return { value: value.operand() }, answer: Answer::Done },
            ),
            same_functions(*old(self), *final(self)),
    {
        match value {
            Value::Pointer(value) => self.builder.build_return(Some(&value)),
            Value::Int(value) => self.builder.build_return(Some(&value)),
        };
    }

    /// inkwell's `Builder::build_call`, of a function that takes these arguments:
    /// what it gives, if that is a pointer.
    #[verifier::external_body]
    pub(crate) fn build_call(
        &mut self,
        callee: Callee<'ctx>,
        arguments: &Vec<Value<'ctx>>,
        name: &str,
    ) -> (result: Option<PointerValue<'ctx>>)
        requires
            ready(calls(*old(self))),
            callee.signature() is Function,
            parameter_types(callee.signature()).len() == arguments@.len(),
            forall|i: int|
                0 <= i < arguments@.len() ==> operand_type(#[trigger] arguments@[i].operand())
                    == parameter_types(callee.signature())[i],
            callee.is_here(calls(*old(self))),
            forall|i: int|
                0 <= i < arguments@.len() ==> (#[trigger] arguments@[i]).is_here(
                    calls(*old(self)),
                ),
        ensures
            calls(*final(self)) == calls(*old(self)).push(
                Call {
                    request: Request::Call {
                        target: callee.target(),
                        arguments: operands(arguments@),
                        name: name@,
                    },
                    answer: match result {
                        Some(pointer) => Answer::Pointer(pointer),
                        None => Answer::Done,
                    },
                },
            ),
            result is Some <==> result_type(callee.signature()) is Pointer,
            result is Some ==> type_of(result->0) == result_type(callee.signature()),
            same_functions(*old(self), *final(self)),
    {
        let callee = match callee {
            Callee::Pointer(pointer) => CallableValue::try_from(pointer).unwrap(),
            Callee::Function(function) => CallableValue::from(function),
        };
        let arguments: Vec<BasicMetadataValueEnum<'ctx>> = arguments.iter().map(|argument| match argument {
            Value::Pointer(value) => (*value).into(),
            Value::Int(value) => (*value).into(),
        }).collect();
        match self.builder.build_call(callee, &arguments, name).try_as_basic_value().left() {
            Some(BasicValueEnum::PointerValue(pointer)) => Some(pointer),
            _ => None,
        }
    }

    /// inkwell's `Builder::build_unconditional_branch`: an instruction that goes on
    /// in this block.
    #[verifier::external_body]
    pub(crate) fn build_unconditional_branch(&mut self, block: BasicBlock<'ctx>)
        requires
            ready(calls(*old(self))),
            parent(calls(*old(self)), block) is Some,
        ensures
            calls(*final(self)) == calls(*old(self)).push(
                Call { request: Request::Branch { block }, answer: Answer::Done },
            ),
            same_functions(*old(self), *final(self)),
    {
        self.builder.build_unconditional_branch(block);
    }

    /// inkwell's `Builder::build_switch`, on an eight-bit integer: an instruction that
    /// goes on in the block of the case that the value meets, or in `otherwise`.
    #[verifier::external_body]
    pub(crate) fn build_switch(
        &mut self,
        value: IntValue<'ctx>,
        otherwise: BasicBlock<'ctx>,
        cases: &Vec<(IntValue<'ctx>, BasicBlock<'ctx>)>,
    )
        requires
            ready(calls(*old(self))),
            byte_here(calls(*old(self)), value),
            parent(calls(*old(self)), otherwise) is Some,
            forall|i: int|
                0 <= i < cases@.len() ==> is_byte((#[trigger] cases@[i]).0) && parent(
                    calls(*old(self)),
                    cases@[i].1,
                ) is Some,
        ensures
            calls(*final(self)) == calls(*old(self)).push(
                Call {
                    request: Request::Switch { value, otherwise, cases: switch_cases(cases@) },
                    answer: Answer::Done,
                },
            ),
            same_functions(*old(self), *final(self)),
    {
        self.builder.build_switch(value, otherwise, cases.as_slice());
    }

    /// inkwell's `Builder::build_unreachable`: an instruction that is never reached.
    #[verifier::external_body]
    pub(crate) fn build_unreachable(&mut self)
        requires
            ready(calls(*old(self))),
        ensures
            calls(*final(self)) == calls(*old(self)).push(
                Call { request: Request::Unreachable, answer: Answer::Done },
            ),
            same_functions(*old(self), *final(self)),
    {
        self.builder.build_unreachable();
    }
}

} // verus!
