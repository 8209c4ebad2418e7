//! Two runs that differ in the handles that LLVM gives out.
//!
//! LLVM's handles tell nothing but what they are handles of. What one run makes of
//! the handles of LLVM's answers, another makes of other handles in the same way.
use inkwell::basic_block::BasicBlock;
use inkwell::types::StructType;
use inkwell::values::{FunctionValue, IntValue, PointerValue};
use vstd::prelude::*;

use crate::codegen::data::{constructor_fields, leaf_types, Declared};
use crate::codegen::emission::{captures_type, Emission};
use crate::codegen::environment::fixpoint::{find_fixpoint, Recursion};
use crate::codegen::environment::global::{
    declares_constant, declares_inductive, find_constant, find_constructors, find_inductive,
    lemma_find_constant, lemma_find_inductive, Entry, Family, Member,
};
use crate::codegen::globals::{field_counts, is_closure, shape_of, shapes_of};
use crate::codegen::inductives::lemma_leaf_types;
use crate::codegen::search::lemma_first_same;
use crate::hir::ir::Term;
use crate::llvm::session::{address_of, parameter_of, struct_type, type_of};
use crate::llvm::trace::{
    body, generic_pointer, last_block, made, parent, pointee, Answer, Call, Operand, Request,
    Target, Trace, Ty,
};

verus! {

/// What the handles of one run are in another.
pub struct Renaming<'ctx> {
    pub pointer: spec_fn(PointerValue<'ctx>) -> PointerValue<'ctx>,
    pub integer: spec_fn(IntValue<'ctx>) -> IntValue<'ctx>,
    pub function: spec_fn(FunctionValue<'ctx>) -> FunctionValue<'ctx>,
    pub block: spec_fn(BasicBlock<'ctx>) -> BasicBlock<'ctx>,
    pub structure: spec_fn(StructType<'ctx>) -> StructType<'ctx>,
}

impl<'ctx> Renaming<'ctx> {
    pub open spec fn ty(self, ty: Ty<'ctx>) -> Ty<'ctx>
        decreases ty,
    {
        match ty {
            Ty::I8 => Ty::I8,
            Ty::I32 => Ty::I32,
            Ty::Void => Ty::Void,
            Ty::Pointer(inner) => Ty::Pointer(Box::new(self.ty(*inner))),
            Ty::Struct(fields) => Ty::Struct(
                Seq::new(
                    fields.len(),
                    |i: int|
                        if 0 <= i < fields.len() {
                            self.ty(fields[i])
                        } else {
                            Ty::Void
                        },
                ),
            ),
            Ty::Named(structure) => Ty::Named((self.structure)(structure)),
            Ty::Function(result, parameters) => Ty::Function(
                Box::new(self.ty(*result)),
                Seq::new(
                    parameters.len(),
                    |i: int|
                        if 0 <= i < parameters.len() {
                            self.ty(parameters[i])
                        } else {
                            Ty::Void
                        },
                ),
            ),
        }
    }

    pub open spec fn types(self, types: Seq<Ty<'ctx>>) -> Seq<Ty<'ctx>> {
        Seq::new(types.len(), |i: int| self.ty(types[i]))
    }

    pub open spec fn operand(self, operand: Operand<'ctx>) -> Operand<'ctx> {
        match operand {
            Operand::Pointer(pointer) => Operand::Pointer((self.pointer)(pointer)),
            Operand::Int { bits, value } => Operand::Int { bits, value },
        }
    }

    pub open spec fn operands(self, operands: Seq<Operand<'ctx>>) -> Seq<Operand<'ctx>> {
        Seq::new(operands.len(), |i: int| self.operand(operands[i]))
    }

    pub open spec fn target(self, target: Target<'ctx>) -> Target<'ctx> {
        match target {
            Target::Pointer(pointer) => Target::Pointer((self.pointer)(pointer)),
            Target::Function(function) => Target::Function((self.function)(function)),
        }
    }

    pub open spec fn cases(self, cases: Seq<(Operand<'ctx>, BasicBlock<'ctx>)>) -> Seq<
        (Operand<'ctx>, BasicBlock<'ctx>),
    > {
        Seq::new(cases.len(), |i: int| (self.operand(cases[i].0), (self.block)(cases[i].1)))
    }

    pub open spec fn request(self, request: Request<'ctx>) -> Request<'ctx> {
        match request {
            Request::CreateModule { name } => Request::CreateModule { name },
            Request::OpaqueStruct { name } => Request::OpaqueStruct { name },
            Request::SetBody { structure, fields } => Request::SetBody {
                structure: (self.structure)(structure),
                fields: self.types(fields),
            },
            Request::AddFunction { name, signature, external } => Request::AddFunction {
                name,
                signature: self.ty(signature),
                external,
            },
            Request::AppendBlock { function, name } => Request::AppendBlock {
                function: (self.function)(function),
                name,
            },
            Request::PositionAtEnd { block } => Request::PositionAtEnd {
                block: (self.block)(block),
            },
            Request::Malloc { ty, name } => Request::Malloc { ty: self.ty(ty), name },
            Request::StructGep { pointer, index, name } => Request::StructGep {
                pointer: (self.pointer)(pointer),
                index,
                name,
            },
            Request::Store { pointer, value } => Request::Store {
                pointer: (self.pointer)(pointer),
                value: self.operand(value),
            },
            Request::Load { pointer, name } => Request::Load {
                pointer: (self.pointer)(pointer),
                name,
            },
            Request::Alloca { ty, name } => Request::Alloca { ty: self.ty(ty), name },
            Request::Bitcast { value, ty, name } => Request::Bitcast {
                value: (self.pointer)(value),
                ty: self.ty(ty),
                name,
            },
            Request::Return { value } => Request::Return { value: self.operand(value) },
            Request::Call { target, arguments, name } => Request::Call {
                target: self.target(target),
                arguments: self.operands(arguments),
                name,
            },
            Request::Branch { block } => Request::Branch { block: (self.block)(block) },
            Request::Switch { value, otherwise, cases } => Request::Switch {
                value: (self.integer)(value),
                otherwise: (self.block)(otherwise),
                cases: self.cases(cases),
            },
            Request::Unreachable => Request::Unreachable,
        }
    }

    pub open spec fn answer(self, answer: Answer<'ctx>) -> Answer<'ctx> {
        match answer {
            Answer::Pointer(pointer) => Answer::Pointer((self.pointer)(pointer)),
            Answer::Int(integer) => Answer::Int((self.integer)(integer)),
            Answer::Function(function) => Answer::Function((self.function)(function)),
            Answer::Block(block) => Answer::Block((self.block)(block)),
            Answer::Struct(structure) => Answer::Struct((self.structure)(structure)),
            Answer::Done => Answer::Done,
        }
    }

    pub open spec fn call(self, call: Call<'ctx>) -> Call<'ctx> {
        Call { request: self.request(call.request), answer: self.answer(call.answer) }
    }

    pub open spec fn trace(self, t: Trace<'ctx>) -> Trace<'ctx> {
        Seq::new(t.len(), |i: int| self.call(t[i]))
    }

    pub open spec fn scope(self, scope: Seq<PointerValue<'ctx>>) -> Seq<PointerValue<'ctx>> {
        Seq::new(scope.len(), |i: int| (self.pointer)(scope[i]))
    }

    pub open spec fn member(self, member: Member<'ctx>) -> Member<'ctx> {
        Member {
            name: member.name,
            llvm_struct_type: (self.structure)(member.llvm_struct_type),
            llvm_function: (self.pointer)(member.llvm_function),
        }
    }

    pub open spec fn members(self, members: Seq<Member<'ctx>>) -> Seq<Member<'ctx>> {
        Seq::new(members.len(), |i: int| self.member(members[i]))
    }

    pub open spec fn entry(self, entry: Entry<'ctx>) -> Entry<'ctx> {
        match entry {
            Entry::Constant { name, llvm_value } => Entry::Constant {
                name,
                llvm_value: (self.pointer)(llvm_value),
            },
            Entry::Inductive(name, inductive) => Entry::Inductive(
                name,
                Family {
                    name: inductive.name,
                    llvm_type: self.ty(inductive.llvm_type),
                    constructors: self.members(inductive.constructors),
                },
            ),
        }
    }

    pub open spec fn entries(self, entries: Seq<Entry<'ctx>>) -> Seq<Entry<'ctx>> {
        Seq::new(entries.len(), |i: int| self.entry(entries[i]))
    }

    pub open spec fn recursion(self, recursion: Recursion<'ctx>) -> Recursion<'ctx> {
        Recursion {
            name: recursion.name,
            closed: recursion.closed,
            llvm_function: (self.pointer)(recursion.llvm_function),
        }
    }

    pub open spec fn fixpoints(self, fixpoints: Seq<Recursion<'ctx>>) -> Seq<Recursion<'ctx>> {
        Seq::new(fixpoints.len(), |i: int| self.recursion(fixpoints[i]))
    }

    pub open spec fn emission(self, emission: Emission<'ctx>) -> Emission<'ctx> {
        Emission {
            end: emission.end,
            value: (self.pointer)(emission.value),
            block: (self.block)(emission.block),
        }
    }

    pub open spec fn declared(self, declared: Declared<'ctx>) -> Declared<'ctx> {
        Declared { end: declared.end, declarations: self.entries(declared.declarations) }
    }

    /// Different handles stay different.
    #[verifier::opaque]
    pub open spec fn is_one_to_one(self) -> bool {
        &&& forall|a: PointerValue<'ctx>, b: PointerValue<'ctx>|
            #[trigger] (self.pointer)(a) == #[trigger] (self.pointer)(b) ==> a == b
        &&& forall|a: IntValue<'ctx>, b: IntValue<'ctx>|
            #[trigger] (self.integer)(a) == #[trigger] (self.integer)(b) ==> a == b
        &&& forall|a: FunctionValue<'ctx>, b: FunctionValue<'ctx>|
            #[trigger] (self.function)(a) == #[trigger] (self.function)(b) ==> a == b
        &&& forall|a: BasicBlock<'ctx>, b: BasicBlock<'ctx>|
            #[trigger] (self.block)(a) == #[trigger] (self.block)(b) ==> a == b
        &&& forall|a: StructType<'ctx>, b: StructType<'ctx>|
            #[trigger] (self.structure)(a) == #[trigger] (self.structure)(b) ==> a == b
    }

    /// The renaming is one to one, and keeps types, parameters and addresses. The one
    /// that swaps the handles of two modules of the same make, and keeps all others,
    /// is such.
    pub open spec fn is_faithful(self) -> bool {
        &&& self.is_one_to_one()
        &&& forall|pointer: PointerValue<'ctx>|
            type_of(#[trigger] (self.pointer)(pointer)) == self.ty(type_of(pointer))
        &&& forall|structure: StructType<'ctx>|
            struct_type(#[trigger] (self.structure)(structure)) == self.ty(struct_type(structure))
        &&& forall|function: FunctionValue<'ctx>|
            address_of(#[trigger] (self.function)(function)) == (self.pointer)(
                address_of(function),
            )
        &&& forall|function: FunctionValue<'ctx>, i: nat| #[trigger]
            parameter_of((self.function)(function), i) == (self.pointer)(
                parameter_of(function, i),
            )
    }
}

pub broadcast proof fn lemma_ty_pointer<'ctx>(r: Renaming<'ctx>, inner: Ty<'ctx>)
    ensures
        #[trigger] r.ty(Ty::Pointer(Box::new(inner))) == Ty::Pointer(Box::new(r.ty(inner))),
{
}

pub broadcast proof fn lemma_ty_struct<'ctx>(r: Renaming<'ctx>, fields: Seq<Ty<'ctx>>)
    ensures
        #[trigger] r.ty(Ty::Struct(fields)) == Ty::Struct(r.types(fields)),
{
    assert(r.ty(Ty::Struct(fields))->Struct_0 =~= r.types(fields));
}

pub broadcast proof fn lemma_ty_function<'ctx>(
    r: Renaming<'ctx>,
    result: Ty<'ctx>,
    parameters: Seq<Ty<'ctx>>,
)
    ensures
        #[trigger] r.ty(Ty::Function(Box::new(result), parameters)) == Ty::Function(
            Box::new(r.ty(result)),
            r.types(parameters),
        ),
{
    assert(r.ty(Ty::Function(Box::new(result), parameters))->Function_1 =~= r.types(parameters));
}

pub broadcast proof fn lemma_ty_kind<'ctx>(r: Renaming<'ctx>, ty: Ty<'ctx>)
    ensures
        #![trigger r.ty(ty)]
        r.ty(ty) is Pointer <==> ty is Pointer,
        r.ty(ty) is Struct <==> ty is Struct,
        r.ty(ty) is Named <==> ty is Named,
        r.ty(ty) is Function <==> ty is Function,
        r.ty(ty) is I8 <==> ty is I8,
        pointee(r.ty(ty)) == r.ty(pointee(ty)),
{
}

pub broadcast proof fn lemma_ty_captures<'ctx>(r: Renaming<'ctx>, n: nat)
    ensures
        #[trigger] r.ty(captures_type(n)) == captures_type::<'ctx>(n),
{
    broadcast use {lemma_ty_pointer, lemma_ty_struct};

    let fields = Seq::new(n, |i: int| generic_pointer::<'ctx>());
    assert(r.ty(Ty::I8) == Ty::<'ctx>::I8);
    assert(r.ty(generic_pointer::<'ctx>()) == generic_pointer::<'ctx>());
    assert(r.types(fields) =~= fields);
}

pub broadcast proof fn lemma_ty_generic<'ctx>(r: Renaming<'ctx>)
    ensures
        #[trigger] r.ty(generic_pointer()) == generic_pointer::<'ctx>(),
{
    lemma_ty_pointer(r, Ty::I8);
    assert(r.ty(Ty::I8) == Ty::<'ctx>::I8);
}

pub broadcast proof fn lemma_closure_renamed<'ctx>(r: Renaming<'ctx>, value: PointerValue<'ctx>)
    requires
        r.is_faithful(),
    ensures
        is_closure(#[trigger] (r.pointer)(value)) == is_closure(value),
{
    broadcast use {lemma_ty_pointer, lemma_ty_struct, lemma_ty_kind};

    let ty = type_of(value);
    if let Ty::Pointer(inner) = ty {
        if let Ty::Struct(fields) = *inner {
            assert(r.ty(*inner) == Ty::Struct(r.types(fields)));
            if fields.len() >= 2 {
                assert(r.types(fields)[0] == r.ty(fields[0]));
                assert(r.types(fields)[1] == r.ty(fields[1]));
            }
        }
    }
}

/// A call is renamed.
pub broadcast proof fn lemma_made_renamed<'ctx>(
    r: Renaming<'ctx>,
    t: Trace<'ctx>,
    k: int,
    request: Request<'ctx>,
)
    requires
        #[trigger] made(t, k, request),
    ensures
        made(#[trigger] r.trace(t), k, r.request(request)),
        r.trace(t)[k] == r.call(t[k]),
{
}

pub broadcast group group_renaming {
    lemma_ty_pointer,
    lemma_ty_struct,
    lemma_ty_function,
    lemma_ty_kind,
    lemma_ty_captures,
    lemma_ty_generic,
    lemma_closure_renamed,
    lemma_made_renamed,
}

/// The fields of a structure are renamed with the calls that gave them.
pub proof fn lemma_body_renamed<'ctx>(
    r: Renaming<'ctx>,
    t: Trace<'ctx>,
    structure: StructType<'ctx>,
)
    requires
        r.is_faithful(),
    ensures
        body(r.trace(t), (r.structure)(structure)) == (match body(t, structure) {
            Some(fields) => Some(r.types(fields)),
            None => None,
        }),
    decreases t.len(),
{
    reveal(Renaming::is_one_to_one);
    if t.len() > 0 {
        let u = r.trace(t);
        lemma_body_renamed(r, t.drop_last(), structure);
        assert(u.drop_last() =~= r.trace(t.drop_last()));
        assert(u.last() == r.call(t.last()));
    }
}

/// The last block of a function is renamed with the call that appended it.
pub proof fn lemma_last_block_renamed<'ctx>(
    r: Renaming<'ctx>,
    t: Trace<'ctx>,
    function: FunctionValue<'ctx>,
)
    requires
        r.is_faithful(),
    ensures
        last_block(r.trace(t), (r.function)(function)) == (match last_block(t, function) {
            Some(block) => Some((r.block)(block)),
            None => None,
        }),
    decreases t.len(),
{
    reveal(Renaming::is_one_to_one);
    if t.len() > 0 {
        let u = r.trace(t);
        lemma_last_block_renamed(r, t.drop_last(), function);
        assert(u.drop_last() =~= r.trace(t.drop_last()));
        assert(u.last() == r.call(t.last()));
    }
}

/// The function of a block is renamed with the call that appended the block.
pub proof fn lemma_parent_renamed<'ctx>(r: Renaming<'ctx>, t: Trace<'ctx>, block: BasicBlock<'ctx>)
    requires
        r.is_faithful(),
    ensures
        parent(r.trace(t), (r.block)(block)) == (match parent(t, block) {
            Some(function) => Some((r.function)(function)),
            None => None,
        }),
    decreases t.len(),
{
    reveal(Renaming::is_one_to_one);
    if t.len() > 0 {
        let u = r.trace(t);
        lemma_parent_renamed(r, t.drop_last(), block);
        assert(u.drop_last() =~= r.trace(t.drop_last()));
        assert(u.last() == r.call(t.last()));
    }
}

/// What is known of the declarations does not depend on handles.
pub proof fn lemma_shapes_renamed<'ctx>(
    r: Renaming<'ctx>,
    t: Trace<'ctx>,
    declarations: Seq<Entry<'ctx>>,
)
    requires
        r.is_faithful(),
    ensures
        shapes_of(r.trace(t), r.entries(declarations)) == shapes_of(t, declarations),
{
    broadcast use group_renaming;

    assert forall|i: int| 0 <= i < declarations.len() implies shape_of(
        r.trace(t),
        r.entries(declarations)[i],
    ) == #[trigger] shape_of(t, declarations[i]) by {
        if let Entry::Inductive(_, inductive) = declarations[i] {
            lemma_field_counts_renamed(r, t, inductive.constructors);
            if let Ty::Named(structure) = pointee(inductive.llvm_type) {
                lemma_body_renamed(r, t, structure);
                assert(r.ty(Ty::Named(structure)) == Ty::Named((r.structure)(structure)));
            }
        }
    }
    assert(shapes_of(r.trace(t), r.entries(declarations)) =~= shapes_of(t, declarations));
}

pub proof fn lemma_field_counts_renamed<'ctx>(
    r: Renaming<'ctx>,
    t: Trace<'ctx>,
    constructors: Seq<Member<'ctx>>,
)
    requires
        r.is_faithful(),
    ensures
        field_counts(r.trace(t), r.members(constructors)) == field_counts(t, constructors),
{
    assert forall|i: int| 0 <= i < constructors.len() implies #[trigger] field_counts(
        r.trace(t),
        r.members(constructors),
    )[i] == field_counts(t, constructors)[i] by {
        lemma_body_renamed(r, t, constructors[i].llvm_struct_type);
    }
    assert(field_counts(r.trace(t), r.members(constructors)) =~= field_counts(t, constructors));
}

/// Names find the same declarations.
pub proof fn lemma_find_renamed<'ctx>(
    r: Renaming<'ctx>,
    declarations: Seq<Entry<'ctx>>,
    name: Seq<char>,
)
    ensures
        find_inductive(r.entries(declarations), name) == find_inductive(declarations, name),
        find_constant(r.entries(declarations), name) == find_constant(declarations, name),
        find_constructors(r.entries(declarations), name) == (match find_constructors(
            declarations,
            name,
        ) {
            Some(constructors) => Some(r.members(constructors)),
            None => None,
        }),
{
    let renamed = r.entries(declarations);
    let inductive = |entry: Entry<'_>| declares_inductive(entry, name);
    let constant = |entry: Entry<'_>| declares_constant(entry, name);
    assert forall|i: int| 0 <= i < renamed.len() implies inductive(#[trigger] renamed[i])
        == inductive(declarations[i]) by {}
    lemma_first_same(renamed, inductive, declarations, inductive);
    assert forall|i: int| 0 <= i < renamed.len() implies constant(#[trigger] renamed[i])
        == constant(declarations[i]) by {}
    lemma_first_same(renamed, constant, declarations, constant);
    lemma_find_inductive(declarations, name);
    lemma_find_constant(declarations, name);
}

/// Names find the same fixpoints.
pub proof fn lemma_find_fixpoint_renamed<'ctx>(
    r: Renaming<'ctx>,
    fixpoints: Seq<Recursion<'ctx>>,
    name: Seq<char>,
)
    ensures
        find_fixpoint(r.fixpoints(fixpoints), name) == (match find_fixpoint(fixpoints, name) {
            Some(found) => Some(r.recursion(found)),
            None => None,
        }),
    decreases fixpoints.len(),
{
    if fixpoints.len() > 0 {
        lemma_find_fixpoint_renamed(r, fixpoints.drop_last(), name);
        assert(r.fixpoints(fixpoints).drop_last() =~= r.fixpoints(fixpoints.drop_last()));
    }
}

/// A constructor's type names the renamed types.
pub proof fn lemma_leaf_types_renamed<'ctx>(
    r: Renaming<'ctx>,
    declarations: Seq<Entry<'ctx>>,
    constructor_type: Term,
)
    ensures
        leaf_types(r.entries(declarations), constructor_type) == (match leaf_types(
            declarations,
            constructor_type,
        ) {
            Some(types) => Some(r.types(types)),
            None => None,
        }),
    decreases constructor_type,
{
    broadcast use group_renaming;

    match constructor_type {
        Term::DependentProduct { parameter_type, return_type, .. } => {
            lemma_leaf_types_renamed(r, declarations, *parameter_type);
            lemma_leaf_types_renamed(r, declarations, *return_type);
            if let (Some(a), Some(b)) = (
                leaf_types(declarations, *parameter_type),
                leaf_types(declarations, *return_type),
            ) {
                assert(r.types(a + b) =~= r.types(a) + r.types(b));
            }
        },
        Term::Inductive(name) => {
            lemma_find_renamed(r, declarations, name@);
            lemma_find_inductive(declarations, name@);
            if let Some(i) = find_inductive(declarations, name@) {
                let ty = declarations[i]->Inductive_1.llvm_type;
                assert(r.types(seq![ty]) =~= seq![r.ty(ty)]);
            }
        },
        Term::DeBruijnIndex(_) => {
            assert(r.types(seq![generic_pointer::<'ctx>()]) =~= seq![generic_pointer::<'ctx>()]);
        },
        _ => {},
    }
}

/// The fields of a constructor's structure are the renamed ones.
pub proof fn lemma_constructor_fields_renamed<'ctx>(
    r: Renaming<'ctx>,
    declarations: Seq<Entry<'ctx>>,
    constructor_type: Term,
)
    requires
        leaf_types(declarations, constructor_type) is Some,
    ensures
        constructor_fields(r.entries(declarations), constructor_type) == r.types(
            constructor_fields(declarations, constructor_type),
        ),
{
    lemma_leaf_types_renamed(r, declarations, constructor_type);
    lemma_leaf_types(Seq::empty(), declarations, constructor_type);
    assert(r.ty(Ty::I8) == Ty::<'ctx>::I8);
    assert(constructor_fields(r.entries(declarations), constructor_type) =~= r.types(
        constructor_fields(declarations, constructor_type),
    ));
}

} // verus!
