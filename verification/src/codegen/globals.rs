//! What is known of the compiled declarations.
use inkwell::types::StructType;
use inkwell::values::PointerValue;
use vstd::prelude::*;

use crate::codegen::environment::fixpoint::{find_fixpoint, Recursion};
use crate::codegen::environment::global::{
    declares_constant, declares_inductive, find_constant, find_inductive, lemma_find_constant,
    lemma_find_inductive, Entry, Family, Member,
};
use crate::codegen::search::{first, lemma_first_same};
use crate::codegen::shape::{
    constant_shape, inductive_fields, inductive_laid_out, inductive_shape, Shape,
};
use crate::llvm::session::{struct_type, type_of};
use crate::llvm::trace::{
    body, extends, group_here, keeps_bodies, layout, lemma_body_extends, lemma_made_here_extends,
    lemma_pointer_here_extends, lemma_type_here_extends, made_here, pointee, pointer_here,
    same_bodies, type_here, Trace, Ty,
};

verus! {

broadcast use group_here;

/// The type of closures: a pointer to a structure whose first two fields are
/// pointers, to the code and to the captured values.
pub open spec fn is_closure_type(ty: Ty<'_>) -> bool {
    ty matches Ty::Pointer(closure) && *closure matches Ty::Struct(fields) && 2 <= fields.len()
        && fields[0] is Pointer && fields[1] is Pointer
}

/// The value is a closure.
pub open spec fn is_closure(value: PointerValue<'_>) -> bool {
    is_closure_type(type_of(value))
}

/// The structures in the type are known; if it is a type of pointers to a structure
/// that has a name, the structure starts with a tag once it has fields.
pub open spec fn type_wf<'ctx>(t: Trace<'ctx>, ty: Ty<'ctx>) -> bool {
    &&& type_here(t, ty)
    &&& pointee(ty) matches Ty::Named(structure) ==> made_here(t, structure) && (body(t, structure)
        matches Some(fields) ==> 1 <= fields.len() && fields[0] is I8)
}

/// The value belongs here, and its type is known.
pub open spec fn value_wf<'ctx>(t: Trace<'ctx>, value: PointerValue<'ctx>) -> bool {
    &&& pointer_here(t, value)
    &&& type_wf(t, type_of(value))
}

/// The values belong here, and their types are known.
pub open spec fn scope_wf<'ctx>(t: Trace<'ctx>, scope: Seq<PointerValue<'ctx>>) -> bool {
    forall|i: int| 0 <= i < scope.len() ==> value_wf(t, #[trigger] scope[i])
}

/// The functions of the fixpoints belong here, and their types are known.
pub open spec fn fixpoints_wf<'ctx>(t: Trace<'ctx>, fixpoints: Seq<Recursion<'ctx>>) -> bool {
    forall|i: int|
        0 <= i < fixpoints.len() ==> value_wf(t, (#[trigger] fixpoints[i]).llvm_function)
}

/// The function of a fixpoint that is found is known.
pub proof fn lemma_fixpoint_wf<'ctx>(
    t: Trace<'ctx>,
    fixpoints: Seq<Recursion<'ctx>>,
    name: Seq<char>,
)
    requires
        fixpoints_wf(t, fixpoints),
    ensures
        find_fixpoint(fixpoints, name) matches Some(found) ==> value_wf(t, found.llvm_function),
    decreases fixpoints.len(),
{
    if fixpoints.len() > 0 {
        let before = fixpoints.drop_last();
        assert forall|i: int| 0 <= i < before.len() implies value_wf(
            t,
            (#[trigger] before[i]).llvm_function,
        ) by {
            assert(before[i] == fixpoints[i]);
        }
        lemma_fixpoint_wf(t, before, name);
        assert(value_wf(t, fixpoints[fixpoints.len() - 1].llvm_function));
    }
}

/// Where no structure was given fields, fixpoints that are known stay so.
pub proof fn lemma_fixpoints_same_bodies<'ctx>(
    t: Trace<'ctx>,
    later: Trace<'ctx>,
    fixpoints: Seq<Recursion<'ctx>>,
)
    requires
        extends(later, t),
        same_bodies(t, later),
        fixpoints_wf(t, fixpoints),
    ensures
        fixpoints_wf(later, fixpoints),
{
    assert forall|i: int| 0 <= i < fixpoints.len() implies value_wf(
        later,
        (#[trigger] fixpoints[i]).llvm_function,
    ) by {
        lemma_value_extends(t, later, fixpoints[i].llvm_function);
    }
}

/// The fields of a named structure.
pub open spec fn fields_of<'ctx>(t: Trace<'ctx>, structure: StructType<'ctx>) -> Seq<Ty<'ctx>> {
    match body(t, structure) {
        Some(fields) => fields,
        None => Seq::empty(),
    }
}

/// The numbers of fields of constructors.
pub open spec fn field_counts<'ctx>(
    t: Trace<'ctx>,
    constructors: Seq<Member<'ctx>>,
) -> Seq<nat> {
    Seq::new(constructors.len(), |i: int| fields_of(t, constructors[i].llvm_struct_type).len())
}

pub open spec fn shape_of<'ctx>(t: Trace<'ctx>, declaration: Entry<'ctx>) -> Shape {
    match declaration {
        Entry::Constant { name, .. } => Shape::Constant { name },
        Entry::Inductive(name, inductive) => Shape::Inductive {
            name,
            fields: field_counts(t, inductive.constructors),
            laid_out: layout(t, pointee(inductive.llvm_type)) is Some,
        },
    }
}

pub open spec fn shapes_of<'ctx>(
    t: Trace<'ctx>,
    declarations: Seq<Entry<'ctx>>,
) -> Seq<Shape> {
    Seq::new(declarations.len(), |i: int| shape_of(t, declarations[i]))
}

/// The structure of a constructor starts with a tag, pointers follow; the
/// constructor's function is a function.
pub open spec fn constructor_wf<'ctx>(t: Trace<'ctx>, constructor: Member<'ctx>) -> bool {
    &&& struct_type(constructor.llvm_struct_type) == Ty::Named(constructor.llvm_struct_type)
    &&& made_here(t, constructor.llvm_struct_type)
    &&& fields_wf(t, constructor.llvm_struct_type)
    &&& fields_typed(t, fields_of(t, constructor.llvm_struct_type))
    &&& value_wf(t, constructor.llvm_function)
}

/// The types of the fields are known.
pub open spec fn fields_typed<'ctx>(t: Trace<'ctx>, fields: Seq<Ty<'ctx>>) -> bool {
    forall|i: int| 0 <= i < fields.len() ==> type_wf(t, #[trigger] fields[i])
}

/// A tag, then pointers.
pub open spec fn fields_wf<'ctx>(t: Trace<'ctx>, structure: StructType<'ctx>) -> bool {
    body(t, structure) matches Some(fields) && {
        &&& 1 <= fields.len() <= u32::MAX
        &&& fields[0] is I8
        &&& forall|i: int| 1 <= i < fields.len() ==> #[trigger] fields[i] is Pointer
    }
}

/// The constructors of an inductive type are in order, and so is its own
/// structure, once it has fields.
pub open spec fn inductive_wf<'ctx>(t: Trace<'ctx>, inductive: Family<'ctx>) -> bool {
    &&& pointee(inductive.llvm_type) matches Ty::Named(structure) && made_here(t, structure) && (
    body(t, structure) is Some ==> fields_wf(t, structure))
    &&& forall|i: int|
        0 <= i < inductive.constructors.len() ==> constructor_wf(
            t,
            #[trigger] inductive.constructors[i],
        )
}

pub open spec fn declaration_wf<'ctx>(t: Trace<'ctx>, declaration: Entry<'ctx>) -> bool {
    match declaration {
        Entry::Constant { llvm_value, .. } => value_wf(t, llvm_value),
        Entry::Inductive(_, inductive) => inductive_wf(t, inductive),
    }
}

pub open spec fn declarations_wf<'ctx>(
    t: Trace<'ctx>,
    declarations: Seq<Entry<'ctx>>,
) -> bool {
    forall|i: int| 0 <= i < declarations.len() ==> declaration_wf(t, #[trigger] declarations[i])
}

pub proof fn lemma_fields_extends<'ctx>(
    t: Trace<'ctx>,
    later: Trace<'ctx>,
    structure: StructType<'ctx>,
)
    requires
        extends(later, t),
        fields_wf(t, structure),
    ensures
        fields_wf(later, structure),
        body(later, structure) == body(t, structure),
        fields_of(later, structure) == fields_of(t, structure),
{
    lemma_body_extends(t, later, structure);
}

/// A type that is known stays known.
pub proof fn lemma_type_extends<'ctx>(t: Trace<'ctx>, later: Trace<'ctx>, ty: Ty<'ctx>)
    requires
        extends(later, t),
        keeps_bodies(t, later),
        type_wf(t, ty),
    ensures
        type_wf(later, ty),
{
    lemma_type_here_extends(t, later, ty);
    if let Ty::Named(structure) = pointee(ty) {
        lemma_made_here_extends(t, later, structure);
        assert(body(later, structure) == body(t, structure));
    }
}

/// A value that is known stays known.
pub proof fn lemma_value_extends<'ctx>(
    t: Trace<'ctx>,
    later: Trace<'ctx>,
    value: PointerValue<'ctx>,
)
    requires
        extends(later, t),
        keeps_bodies(t, later),
        value_wf(t, value),
    ensures
        value_wf(later, value),
{
    lemma_type_extends(t, later, type_of(value));
    lemma_pointer_here_extends(t, later, value);
}

/// Where no structure was given fields, values that are known stay so.
pub proof fn lemma_scope_same_bodies<'ctx>(
    t: Trace<'ctx>,
    later: Trace<'ctx>,
    scope: Seq<PointerValue<'ctx>>,
)
    requires
        extends(later, t),
        same_bodies(t, later),
        scope_wf(t, scope),
    ensures
        scope_wf(later, scope),
{
    assert forall|i: int| 0 <= i < scope.len() implies value_wf(later, #[trigger] scope[i]) by {
        lemma_value_extends(t, later, scope[i]);
    }
}

/// What is known of a declaration does not change.
pub proof fn lemma_declaration_extends<'ctx>(
    t: Trace<'ctx>,
    later: Trace<'ctx>,
    declaration: Entry<'ctx>,
)
    requires
        extends(later, t),
        keeps_bodies(t, later),
        declaration_wf(t, declaration),
    ensures
        declaration_wf(later, declaration),
        shape_of(later, declaration) == shape_of(t, declaration),
{
    if let Entry::Constant { llvm_value, .. } = declaration {
        lemma_value_extends(t, later, llvm_value);
    }
    if let Entry::Inductive(_, inductive) = declaration {
        let structure = pointee(inductive.llvm_type)->Named_0;
        lemma_made_here_extends(t, later, structure);
        assert(body(later, structure) == body(t, structure));
        assert forall|i: int| 0 <= i < inductive.constructors.len() implies constructor_wf(
            later,
            #[trigger] inductive.constructors[i],
        ) && fields_of(later, inductive.constructors[i].llvm_struct_type) == fields_of(
            t,
            inductive.constructors[i].llvm_struct_type,
        ) by {
            let structure = inductive.constructors[i].llvm_struct_type;
            assert(constructor_wf(t, inductive.constructors[i]));
            lemma_fields_extends(t, later, structure);
            lemma_value_extends(t, later, inductive.constructors[i].llvm_function);
            lemma_made_here_extends(t, later, structure);
            assert forall|j: int| 0 <= j < fields_of(later, structure).len() implies type_wf(
                later,
                #[trigger] fields_of(later, structure)[j],
            ) by {
                lemma_type_extends(t, later, fields_of(t, structure)[j]);
            }
        }
        assert(field_counts(later, inductive.constructors) =~= field_counts(
            t,
            inductive.constructors,
        ));
    }
}

/// What is known of the declarations does not change.
pub proof fn lemma_declarations_extends<'ctx>(
    t: Trace<'ctx>,
    later: Trace<'ctx>,
    declarations: Seq<Entry<'ctx>>,
)
    requires
        extends(later, t),
        keeps_bodies(t, later),
        declarations_wf(t, declarations),
    ensures
        declarations_wf(later, declarations),
        shapes_of(later, declarations) == shapes_of(t, declarations),
{
    assert forall|i: int| 0 <= i < declarations.len() implies declaration_wf(
        later,
        #[trigger] declarations[i],
    ) && shape_of(later, declarations[i]) == shape_of(t, declarations[i]) by {
        lemma_declaration_extends(t, later, declarations[i]);
    }
    assert(shapes_of(later, declarations) =~= shapes_of(t, declarations));
}

/// Where no structure was given fields, what is known of the declarations does
/// not change.
pub proof fn lemma_declarations_same_bodies<'ctx>(
    t: Trace<'ctx>,
    later: Trace<'ctx>,
    declarations: Seq<Entry<'ctx>>,
)
    requires
        extends(later, t),
        same_bodies(t, later),
        declarations_wf(t, declarations),
    ensures
        declarations_wf(later, declarations),
        shapes_of(later, declarations) == shapes_of(t, declarations),
{
    lemma_declarations_extends(t, later, declarations);
}

/// The shapes hold what the declarations do about an inductive type.
pub proof fn lemma_inductive_shape<'ctx>(
    t: Trace<'ctx>,
    declarations: Seq<Entry<'ctx>>,
    name: Seq<char>,
)
    ensures
        inductive_fields(shapes_of(t, declarations), name) is Some <==> find_inductive(
            declarations,
            name,
        ) is Some,
        find_inductive(declarations, name) matches Some(i) ==> {
            &&& 0 <= i < declarations.len()
            &&& declarations[i] is Inductive
            &&& inductive_fields(shapes_of(t, declarations), name) == Some(
                field_counts(t, declarations[i]->Inductive_1.constructors),
            )
            &&& inductive_shape(shapes_of(t, declarations), name) == Some(i)
            &&& inductive_laid_out(shapes_of(t, declarations), name) == (layout(
                t,
                pointee(declarations[i]->Inductive_1.llvm_type),
            ) is Some)
        },
{
    let wanted = |declaration: Entry<'_>| declares_inductive(declaration, name);
    let wanted_shape = |shape: Shape|
        shape matches Shape::Inductive { name: declared, .. } && declared == name;
    let shapes = shapes_of(t, declarations);
    assert forall|i: int| 0 <= i < declarations.len() implies wanted(#[trigger] declarations[i])
        == wanted_shape(shapes[i]) by {}
    lemma_first_same(declarations, wanted, shapes, wanted_shape);
    lemma_find_inductive(declarations, name);
}

/// The shapes hold what the declarations do about a constant.
pub proof fn lemma_constant_shape<'ctx>(
    t: Trace<'ctx>,
    declarations: Seq<Entry<'ctx>>,
    name: Seq<char>,
)
    ensures
        constant_shape(shapes_of(t, declarations), name) == find_constant(declarations, name),
        find_constant(declarations, name) matches Some(i) ==> 0 <= i < declarations.len()
            && declarations[i] is Constant,
{
    let wanted = |declaration: Entry<'_>| declares_constant(declaration, name);
    let wanted_shape = |shape: Shape|
        shape matches Shape::Constant { name: declared } && declared == name;
    let shapes = shapes_of(t, declarations);
    assert forall|i: int| 0 <= i < declarations.len() implies wanted(#[trigger] declarations[i])
        == wanted_shape(shapes[i]) by {}
    lemma_first_same(declarations, wanted, shapes, wanted_shape);
    lemma_find_constant(declarations, name);
}

} // verus!
