//! Code for inductive types.
use inkwell::types::{BasicTypeEnum, PointerType, StructType};
use inkwell::values::{FunctionValue, PointerValue};
use vstd::prelude::*;

use crate::codegen::data::{
    bare, capture_stored_at, constructor_at, constructor_fields, constructor_filled_at,
    constructor_function_at, constructor_function_calls, constructor_name, constructor_type_at,
    constructors_at, filling_calls, inductive_at, largest, leaf_types, parameter_stored_at,
    Declared,
};
use crate::codegen::environment::global;
use crate::codegen::environment::global::{
    declares_inductive, find_inductive, lemma_find_inductive, Entry, Member,
};
use crate::codegen::globals::{
    constructor_wf, declaration_wf, declarations_wf, field_counts, fields_of, fields_typed,
    fields_wf, lemma_declarations_extends, lemma_fields_extends, lemma_inductive_shape,
    lemma_type_extends, shape_of, shapes_of, type_wf, value_wf,
};
use crate::codegen::shape::{
    constructors_shapes, inductive_shape, inductive_shapes, leaf_count, with_constructor_shape,
    Shape,
};
use crate::codegen::Context;
use crate::hir::ir;
use crate::hir::ir::Term;
use crate::llvm::session::{
    address_of, basic_type, basic_types, c_name, const_int, element_type, function_address,
    get_nth_param, get_type, int_as_basic, lemma_c_name_at, parameter_of, pointer_as_basic,
    pointer_type, signature_of, struct_ptr_type, struct_type, type_of, verify_function, Pointee,
    Value,
};
use crate::llvm::trace::{
    added_here, body, extends, function_at, generic_pointer, group_here, group_trace_push,
    keeps_bodies, last_block, lemma_added_here_extends, lemma_body_extends, lemma_extends_trans,
    lemma_function_here, lemma_keeps_bodies_trans, lemma_last_block_extends,
    lemma_made_here_extends, lemma_pointer_here_extends, lemma_type_here_extends, made_here,
    orderly, pointee, pointer_here, ready, same_bodies, struct_at, type_here, Trace, Ty,
};
use crate::text::numbered_name;

verus! {

broadcast use {group_here, group_trace_push};

/// The shapes tell how many types a constructor's type names.
pub proof fn lemma_leaf_types<'ctx>(
    t: Trace<'ctx>,
    declarations: Seq<Entry<'ctx>>,
    constructor_type: Term,
)
    ensures
        match leaf_count(shapes_of(t, declarations), constructor_type) {
            Some(count) => leaf_types(declarations, constructor_type) matches Some(types)
                && types.len() == count && count >= 1,
            None => leaf_types(declarations, constructor_type) is None,
        },
    decreases constructor_type,
{
    match constructor_type {
        Term::DependentProduct { parameter_type, return_type, .. } => {
            lemma_leaf_types(t, declarations, *parameter_type);
            lemma_leaf_types(t, declarations, *return_type);
        },
        Term::Inductive(name) => {
            lemma_inductive_shape(t, declarations, name@);
        },
        _ => {},
    }
}

/// What a constructor's type names are pointers whose types are known.
pub proof fn lemma_leaf_types_wf<'ctx>(
    t: Trace<'ctx>,
    declarations: Seq<Entry<'ctx>>,
    constructor_type: Term,
)
    requires
        declarations_wf(t, declarations),
    ensures
        leaf_types(declarations, constructor_type) matches Some(types) ==> forall|i: int|
            0 <= i < types.len() ==> #[trigger] types[i] is Pointer && type_wf(t, types[i]),
    decreases constructor_type,
{
    match constructor_type {
        Term::DependentProduct { parameter_type, return_type, .. } => {
            lemma_leaf_types_wf(t, declarations, *parameter_type);
            lemma_leaf_types_wf(t, declarations, *return_type);
        },
        Term::Inductive(name) => {
            lemma_find_inductive(declarations, name@);
            if let Some(i) = find_inductive(declarations, name@) {
                assert(declaration_wf(t, declarations[i]));
            }
        },
        _ => {},
    }
}

impl<'ctx> Context<'ctx> {
    /// The name of a constructor's structure and function.
    pub fn constructor_llvm_name(inductive_name: &str, constructor_name: &str) -> (name: String)
        ensures
            name@ == crate::codegen::data::constructor_name(inductive_name@, constructor_name@),
    {
        let mut name = inductive_name.to_owned();
        name.append("_");
        name.append(constructor_name);
        name
    }

    /// Appends what a constructor's type names to the types in `accumulator`.
    fn codegen_constructor_type_helper(
        &self,
        constructor_type: &Term,
        accumulator: &mut Vec<BasicTypeEnum<'ctx>>,
    )
        requires
            leaf_types(self.declarations(), *constructor_type) is Some,
        ensures
            basic_types(final(accumulator)@) == basic_types(old(accumulator)@) + leaf_types(
                self.declarations(),
                *constructor_type,
            )->0,
        decreases *constructor_type,
    {
        match constructor_type {
            Term::DependentProduct { parameter_type, return_type, .. } => {
                let ghost before = basic_types(accumulator@);
                self.codegen_constructor_type_helper(parameter_type, accumulator);
                self.codegen_constructor_type_helper(return_type, accumulator);
                assert(basic_types(accumulator@) =~= before + (leaf_types(
                    self.declarations(),
                    **parameter_type,
                )->0 + leaf_types(self.declarations(), **return_type)->0));
            },
            Term::Inductive(name) => {
                let ghost before = accumulator@;
                let llvm_type = self.global.lookup_inductive_llvm_type(name.as_str());
                accumulator.push(pointer_as_basic(llvm_type));
                assert(basic_types(accumulator@) =~= basic_types(before).push(
                    pointer_type(llvm_type),
                ));
            },
            Term::DeBruijnIndex(_) => {
                let ghost before = accumulator@;
                accumulator.push(pointer_as_basic(self.llvm_pointer_type()));
                assert(basic_types(accumulator@) =~= basic_types(before).push(generic_pointer()));
            },
            _ => vstd::pervasive::unreached(),
        }
    }

    /// The structure of a constructor: a tag, and what the constructor takes.
    fn codegen_constructor_type(
        &mut self,
        constructor_llvm_name: &str,
        constructor_type: &Term,
    ) -> (structure: StructType<'ctx>)
        requires
            old(self).wf(),
            leaf_count(old(self).shapes(), *constructor_type) matches Some(count) && count
                <= u32::MAX,
        ensures
            extends(final(self).calls(), old(self).calls()),
            keeps_bodies(old(self).calls(), final(self).calls()),
            final(self).declarations() == old(self).declarations(),
            final(self).entry_point() == old(self).entry_point(),
            final(self).next() == old(self).next() + 2,
            !made_here(old(self).calls(), structure),
            made_here(final(self).calls(), structure),
            struct_type(structure) == Ty::Named(structure),
            orderly(final(self).calls()),
            fields_wf(final(self).calls(), structure),
            fields_typed(final(self).calls(), fields_of(final(self).calls(), structure)),
            body(final(self).calls(), structure) == Some(
                constructor_fields(old(self).declarations(), *constructor_type),
            ),
            fields_of(final(self).calls(), structure).len() == leaf_count(
                old(self).shapes(),
                *constructor_type,
            )->0,
            forall|h: Trace<'ctx>| #[trigger]
                extends(h, final(self).calls()) ==> constructor_type_at(
                    old(self).declarations(),
                    h,
                    old(self).next(),
                    constructor_llvm_name@,
                    *constructor_type,
                ) && struct_at(h, old(self).next()) == structure,
    {
        proof {
            lemma_leaf_types(self.calls(), self.declarations(), *constructor_type);
            lemma_leaf_types_wf(self.calls(), self.declarations(), *constructor_type);
        }
        let ghost types = leaf_types(self.declarations(), *constructor_type)->0;
        let structure = self.llvm.opaque_struct_type(constructor_llvm_name);
        let mut field_types: Vec<BasicTypeEnum<'ctx>> = Vec::new();
        field_types.push(int_as_basic(self.llvm.i8_type()));
        assert(basic_types(field_types@) =~= seq![Ty::I8]);
        self.codegen_constructor_type_helper(constructor_type, &mut field_types);
        let ghost all = field_types@;
        assert(basic_types(all) == seq![Ty::I8] + types);
        field_types.pop();
        proof {
            assert(basic_types(field_types@) =~= basic_types(all).drop_last());
            assert(basic_types(field_types@) =~= constructor_fields(
                self.declarations(),
                *constructor_type,
            ));
            assert(made_here(self.calls(), structure)) by {
                assert(self.calls()[old(self).next()].request is OpaqueStruct);
            }
            let fields = constructor_fields(self.declarations(), *constructor_type);
            assert forall|i: int| 1 <= i < fields.len() implies #[trigger] fields[i] is Pointer
                && type_wf(old(self).calls(), fields[i]) by {
                assert(fields[i] == types[i - 1]);
            }
        }
        proof {
            let fields = basic_types(field_types@);
            assert forall|i: int| 0 <= i < field_types@.len() implies type_here(
                self.calls(),
                basic_type(#[trigger] field_types@[i]),
            ) by {
                assert(basic_type(field_types@[i]) == fields[i]);
                if i > 0 {
                    assert(type_wf(old(self).calls(), fields[i]));
                }
            }
        }
        let ghost calls_1 = self.calls();
        self.llvm.set_body(structure, &field_types);
        proof {
            lemma_made_here_extends(calls_1, self.calls(), structure);
            let fields = constructor_fields(self.declarations(), *constructor_type);
            assert forall|i: int| 0 <= i < fields.len() implies type_wf(
                self.calls(),
                #[trigger] fields[i],
            ) by {
                if i > 0 {
                    lemma_type_extends(old(self).calls(), self.calls(), fields[i]);
                }
            }
            let calls_2 = self.calls();
            assert forall|h: Trace<'ctx>| #[trigger] extends(h, calls_2) implies body(h, structure)
                == Some(fields) by {
                lemma_body_extends(calls_2, h, structure);
            }
        }
        structure
    }

    /// Stores a constructor's last argument, its function's own parameter.
    fn store_parameter(
        &mut self,
        function: FunctionValue<'ctx>,
        object: PointerValue<'ctx>,
        structure: StructType<'ctx>,
        i: usize,
    )
        requires
            ready(old(self).calls()),
            signature_of(function) matches Ty::Function(_, parameters) && parameters == seq![
                generic_pointer::<'ctx>(),
                generic_pointer::<'ctx>(),
            ],
            added_here(old(self).calls(), function),
            pointer_here(old(self).calls(), object),
            type_of(object) == Ty::Pointer(Box::new(Ty::Named(structure))),
            fields_wf(old(self).calls(), structure),
            fields_typed(old(self).calls(), fields_of(old(self).calls(), structure)),
            1 <= i < fields_of(old(self).calls(), structure).len(),
        ensures
            final(self).continues(old(self)),
            final(self).entry_point() == old(self).entry_point(),
            final(self).next() == old(self).next() + 3,
            ready(final(self).calls()),
            parameter_stored_at(
                final(self).calls(),
                old(self).next(),
                function,
                object,
                i as int,
                fields_of(old(self).calls(), structure)[i as int],
            ),
    {
        let ghost parameter = parameter_of(function, 0);
        proof {
            lemma_function_here(self.calls(), function);
            assert(type_wf(self.calls(), fields_of(self.calls(), structure)[i as int]));
            assert(pointer_here(self.calls(), parameter));
        }
        let name = numbered_name("field_", i, "");
        let field = self.llvm.build_struct_gep(object, i as u32, name.as_str());
        let field_type = self.field_type(field);
        let casted = self.llvm.build_bitcast(
            get_nth_param(function, 0),
            field_type,
            "parameter_pointer_cast",
        );
        self.llvm.build_store(field, Value::Pointer(casted));
    }

    /// Stores another argument of a constructor, one of the captured values that
    /// its function gets.
    fn store_capture(
        &mut self,
        function: FunctionValue<'ctx>,
        object: PointerValue<'ctx>,
        structure: StructType<'ctx>,
        i: usize,
        count: usize,
    )
        requires
            ready(old(self).calls()),
            signature_of(function) matches Ty::Function(_, parameters) && parameters == seq![
                generic_pointer::<'ctx>(),
                generic_pointer::<'ctx>(),
            ],
            added_here(old(self).calls(), function),
            pointer_here(old(self).calls(), object),
            type_of(object) == Ty::Pointer(Box::new(Ty::Named(structure))),
            fields_wf(old(self).calls(), structure),
            fields_typed(old(self).calls(), fields_of(old(self).calls(), structure)),
            1 <= i < count - 1,
            count == fields_of(old(self).calls(), structure).len(),
        ensures
            final(self).continues(old(self)),
            final(self).entry_point() == old(self).entry_point(),
            final(self).next() == old(self).next() + 6,
            ready(final(self).calls()),
            capture_stored_at(
                final(self).calls(),
                old(self).next(),
                function,
                (count - 2) as nat,
                object,
                i as int,
                fields_of(old(self).calls(), structure)[i as int],
            ),
    {
        let ghost parameter = parameter_of(function, 1);
        proof {
            lemma_function_here(self.calls(), function);
            assert(type_wf(self.calls(), fields_of(self.calls(), structure)[i as int]));
            assert(pointer_here(self.calls(), parameter));
        }
        let name = numbered_name("field_", i, "");
        let field = self.llvm.build_struct_gep(object, i as u32, name.as_str());
        let captures = self.llvm.build_bitcast(
            get_nth_param(function, 1),
            struct_ptr_type(self.captures_struct_type(count - 2)),
            "casted_captures_struct_pointer",
        );
        let address_name = numbered_name("environment_field_", i, "_address");
        let address = self.llvm.build_struct_gep(captures, (i - 1) as u32, address_name.as_str());
        let capture_name = numbered_name("environment_field_", i, "");
        let capture = self.load_pointer(address, capture_name.as_str());
        let field_type = self.field_type(field);
        let casted = self.llvm.build_bitcast(
            capture,
            field_type,
            "capture_field_pointer_cast",
        );
        self.llvm.build_store(field, Value::Pointer(casted));
    }

    /// The type of the values that a field holds, whose address this is.
    fn field_type(&self, field: PointerValue<'ctx>) -> (ty: PointerType<'ctx>)
        requires
            pointee(type_of(field)) is Pointer,
        ensures
            pointer_type(ty) == pointee(type_of(field)),
    {
        match element_type(get_type(field)) {
            Pointee::Pointer(ty) => ty,
            _ => vstd::pervasive::unreached(),
        }
    }

    /// Stores the arguments of a constructor in its structure.
    fn fill_constructor(
        &mut self,
        function: FunctionValue<'ctx>,
        object: PointerValue<'ctx>,
        structure: StructType<'ctx>,
    )
        requires
            ready(old(self).calls()),
            signature_of(function) matches Ty::Function(_, parameters) && parameters == seq![
                generic_pointer::<'ctx>(),
                generic_pointer::<'ctx>(),
            ],
            added_here(old(self).calls(), function),
            pointer_here(old(self).calls(), object),
            type_of(object) == Ty::Pointer(Box::new(Ty::Named(structure))),
            struct_type(structure) == Ty::Named(structure),
            fields_wf(old(self).calls(), structure),
            fields_typed(old(self).calls(), fields_of(old(self).calls(), structure)),
        ensures
            final(self).continues(old(self)),
            final(self).entry_point() == old(self).entry_point(),
            final(self).next() == old(self).next() + filling_calls(
                fields_of(old(self).calls(), structure).len(),
                fields_of(old(self).calls(), structure).len() as int,
            ),
            ready(final(self).calls()),
            forall|h: Trace<'ctx>| #[trigger]
                extends(h, final(self).calls()) ==> constructor_filled_at(
                    h,
                    old(self).next(),
                    function,
                    object,
                    fields_of(old(self).calls(), structure),
                    fields_of(old(self).calls(), structure).len() as int,
                ),
    {
        let ghost at = self.next();
        let ghost calls_0 = self.calls();
        let ghost fields = fields_of(calls_0, structure);
        let count = self.llvm.get_field_types(structure).len();
        let mut i: usize = 1;
        while i < count
            invariant
                at == old(self).next(),
                calls_0 == old(self).calls(),
                fields == fields_of(calls_0, structure),
                1 <= i <= count == fields.len() <= u32::MAX,
                signature_of(function) matches Ty::Function(_, parameters) && parameters == seq![
                    generic_pointer::<'ctx>(),
                    generic_pointer::<'ctx>(),
                ],
                added_here(calls_0, function),
                pointer_here(calls_0, object),
                type_of(object) == Ty::Pointer(Box::new(Ty::Named(structure))),
                fields_wf(calls_0, structure),
                fields_typed(calls_0, fields),
                self.continues(old(self)),
                self.entry_point() == old(self).entry_point(),
                self.next() == at + filling_calls(fields.len(), i as int),
                ready(self.calls()),
                constructor_filled_at(self.calls(), at, function, object, fields, i as int),
            decreases count - i,
        {
            let ghost calls_1 = self.calls();
            proof {
                lemma_fields_extends(calls_0, calls_1, structure);
                lemma_fields_typed_same_bodies(calls_0, calls_1, fields);
                lemma_added_here_extends(calls_0, calls_1, function);
                lemma_pointer_here_extends(calls_0, calls_1, object);
            }
            if i == count - 1 {
                self.store_parameter(function, object, structure, i);
            } else {
                self.store_capture(function, object, structure, i, count);
            }
            i = i + 1;
            proof {
                lemma_filled_extends(
                    calls_1,
                    self.calls(),
                    at,
                    function,
                    object,
                    fields,
                    (i - 1) as int,
                );
            }
        }
        proof {
            let calls_2 = self.calls();
            assert forall|h: Trace<'ctx>| #[trigger] extends(
                h,
                calls_2,
            ) implies constructor_filled_at(h, at, function, object, fields, count as int) by {
                lemma_filled_extends(calls_2, h, at, function, object, fields, count as int);
            }
        }
    }

    /// The function of a constructor: it allocates the structure, and stores the
    /// tag and the fields.
    fn codegen_constructor_function(
        &mut self,
        constructor_index: u8,
        constructor_llvm_name: &str,
        constructor_llvm_struct_type: StructType<'ctx>,
    ) -> (pointer: PointerValue<'ctx>)
        requires
            struct_type(constructor_llvm_struct_type) == Ty::Named(constructor_llvm_struct_type),
            made_here(old(self).calls(), constructor_llvm_struct_type),
            fields_wf(old(self).calls(), constructor_llvm_struct_type),
            fields_typed(
                old(self).calls(),
                fields_of(old(self).calls(), constructor_llvm_struct_type),
            ),
        ensures
            final(self).proceeds(old(self)),
            !c_name(constructor_llvm_name@).is_prefix_of("main"@) ==> final(self).entry_point()
                == old(self).entry_point(),
            final(self).entry_point() == old(self).entry_point() || (old(
                self,
            ).entry_point() is None && (final(self).entry_point() matches Some(main) && last_block(
                final(self).calls(),
                main,
            ) is Some)),
            final(self).next() == old(self).next() + constructor_function_calls(
                fields_of(old(self).calls(), constructor_llvm_struct_type).len(),
            ),
            pointer_here(final(self).calls(), pointer),
            type_here(final(self).calls(), type_of(pointer)),
            pointee(type_of(pointer)) is Function,
            forall|h: Trace<'ctx>| #[trigger]
                extends(h, final(self).calls()) ==> constructor_function_at(
                    h,
                    old(self).next(),
                    constructor_index as nat,
                    constructor_llvm_name@,
                    constructor_llvm_struct_type,
                    fields_of(old(self).calls(), constructor_llvm_struct_type),
                ) && pointer == address_of(function_at(h, old(self).next())),
    {
        let ghost at = self.next();
        let ghost calls_0 = self.calls();
        let ghost fields = fields_of(calls_0, constructor_llvm_struct_type);
        let function = self.initialize_curried_llvm_function(
            struct_ptr_type(constructor_llvm_struct_type),
            constructor_llvm_name,
        );
        let ghost calls_1 = self.calls();
        proof {
            lemma_fields_extends(calls_0, calls_1, constructor_llvm_struct_type);
            lemma_made_here_extends(calls_0, calls_1, constructor_llvm_struct_type);
        }
        let object = self.allocate(constructor_llvm_struct_type, "constructor_struct");
        let tag_pointer = self.llvm.build_struct_gep(object, 0, "constructor_tag");
        let tag = const_int(self.llvm.i8_type(), constructor_index as u64);
        self.llvm.build_store(tag_pointer, Value::Int(tag));
        let ghost calls_2 = self.calls();
        proof {
            lemma_fields_extends(calls_1, calls_2, constructor_llvm_struct_type);
            lemma_extends_trans(calls_0, calls_1, calls_2);
            lemma_fields_typed_same_bodies(calls_0, calls_2, fields);
        }
        proof {
            lemma_added_here_extends(calls_1, calls_2, function);
        }
        self.fill_constructor(function, object, constructor_llvm_struct_type);
        let ghost calls_3 = self.calls();
        proof {
            lemma_pointer_here_extends(calls_2, calls_3, object);
            lemma_added_here_extends(calls_2, calls_3, function);
        }
        self.llvm.build_return(Value::Pointer(object));
        verify_function(function);
        let pointer = function_address(function);
        proof {
            let calls_4 = self.calls();
            lemma_made_here_extends(calls_0, calls_4, constructor_llvm_struct_type);
            lemma_function_here(calls_4, function);
            lemma_extends_trans(calls_0, calls_1, calls_2);
            lemma_extends_trans(calls_0, calls_2, calls_3);
            lemma_extends_trans(calls_0, calls_3, calls_4);
            lemma_extends_trans(calls_1, calls_2, calls_3);
            lemma_extends_trans(calls_1, calls_3, calls_4);
            lemma_last_block_extends(calls_1, calls_4, function);
            assert forall|h: Trace<'ctx>| #[trigger] extends(
                h,
                calls_4,
            ) implies constructor_function_at(
                h,
                at,
                constructor_index as nat,
                constructor_llvm_name@,
                constructor_llvm_struct_type,
                fields,
            ) && pointer == address_of(function_at(h, at)) by {
                lemma_extends_trans(calls_3, calls_4, h);
                lemma_extends_trans(calls_2, calls_3, h);
                lemma_extends_trans(calls_1, calls_2, h);
            }
        }
        pointer
    }

    /// Adds a constructor to the inductive type.
    fn codegen_constructor(
        &mut self,
        inductive_name: &str,
        constructor_index: u8,
        constructor: &ir::Constructor,
    )
        requires
            old(self).wf(),
            inductive_shape(old(self).shapes(), inductive_name@) is Some,
            leaf_count(old(self).shapes(), constructor.typ) matches Some(count) && count
                <= u32::MAX,
        ensures
            extends(final(self).calls(), old(self).calls()),
            keeps_bodies(old(self).calls(), final(self).calls()),
            final(self).wf(),
            final(self).shapes() == with_constructor_shape(
                old(self).shapes(),
                inductive_name@,
                leaf_count(old(self).shapes(), constructor.typ)->0,
            ),
            old(self).entry_point() is Some || !inductive_name@.contains('\0') ==> final(self).entry_point()
                == old(self).entry_point(),
            forall|h: Trace<'ctx>, index: int| #[trigger]
                extends(h, final(self).calls()) && index % 0x100 == constructor_index
                    ==> #[trigger] constructor_at(
                    old(self).declarations(),
                    h,
                    old(self).next(),
                    inductive_name@,
                    index,
                    *constructor,
                ) == Some(
                    Declared { end: final(self).next(), declarations: final(self).declarations() },
                ),
    {
        let ghost at = self.next();
        let ghost calls_0 = self.calls();
        let ghost declarations = self.declarations();
        let ghost shapes = self.shapes();
        let ghost count = leaf_count(shapes, constructor.typ)->0;
        let ghost fields = constructor_fields(declarations, constructor.typ);
        let constructor_llvm_name = Context::constructor_llvm_name(
            inductive_name,
            constructor.name.as_str(),
        );
        let constructor_llvm_type = self.codegen_constructor_type(
            constructor_llvm_name.as_str(),
            &constructor.typ,
        );
        let ghost calls_1 = self.calls();
        let llvm_function = self.codegen_constructor_function(
            constructor_index,
            constructor_llvm_name.as_str(),
            constructor_llvm_type,
        );
        let ghost calls_2 = self.calls();
        let added = global::Constructor {
            name: constructor.name.clone(),
            llvm_struct_type: constructor_llvm_type,
            llvm_function,
        };
        proof {
            lemma_inductive_shape(calls_0, declarations, inductive_name@);
            lemma_find_inductive(declarations, inductive_name@);
        }
        let ghost member = added@;
        self.global.add_constructor(inductive_name, added);
        proof {
            lemma_extends_trans(calls_0, calls_1, calls_2);
            lemma_keeps_bodies_trans(calls_0, calls_1, calls_2);
            lemma_declarations_extends(calls_0, calls_2, declarations);
            lemma_fields_extends(calls_1, calls_2, constructor_llvm_type);
            lemma_made_here_extends(calls_1, calls_2, constructor_llvm_type);
            assert(fields_of(calls_2, constructor_llvm_type) == fields);
            assert forall|j: int| 0 <= j < fields.len() implies type_wf(
                calls_2,
                #[trigger] fields[j],
            ) by {
                lemma_type_extends(calls_1, calls_2, fields[j]);
            }
            assert(value_wf(calls_2, llvm_function));
            if let Some(main) = old(self).entry_point() {
                lemma_last_block_extends(calls_0, calls_2, main);
            }
            let i = find_inductive(declarations, inductive_name@)->0;
            assert(declaration_wf(calls_2, declarations[i]));
            let before = declarations[i]->Inductive_1.constructors;
            assert(field_counts(calls_2, before.push(member)) =~= field_counts(
                calls_2,
                before,
            ).push(count));
            assert(shapes_of(calls_2, self.declarations()) =~= with_constructor_shape(
                shapes,
                inductive_name@,
                count,
            ));
            assert forall|j: int| 0 <= j < self.declarations().len() implies declaration_wf(
                calls_2,
                #[trigger] self.declarations()[j],
            ) by {
                assert(declaration_wf(calls_2, declarations[j]));
            }
            lemma_leaf_types(calls_0, declarations, constructor.typ);
            if !inductive_name@.contains('\0') {
                lemma_c_name_constructor(inductive_name@, constructor.name@);
            }
            assert forall|h: Trace<'ctx>, index: int| #[trigger]
                extends(h, calls_2) && index % 0x100
                    == constructor_index implies #[trigger] constructor_at(
                declarations,
                h,
                at,
                inductive_name@,
                index,
                *constructor,
            ) == Some(Declared { end: self.next(), declarations: self.declarations() }) by {
                lemma_extends_trans(calls_1, calls_2, h);
            }
        }
    }

    /// Code for an inductive type: its structure, and the structures and functions
    /// of its constructors.
    pub fn codegen_inductive(&mut self, inductive: &ir::Inductive)
        requires
            old(self).wf(),
            inductive_shapes(old(self).shapes(), *inductive) is Some,
        ensures
            extends(final(self).calls(), old(self).calls()),
            final(self).wf(),
            final(self).shapes() == inductive_shapes(old(self).shapes(), *inductive)->0,
            old(self).entry_point() is Some || !inductive.name@.contains('\0') ==> final(self).entry_point()
                == old(self).entry_point(),
            forall|h: Trace<'ctx>| #[trigger]
                extends(h, final(self).calls()) ==> inductive_at(
                    old(self).declarations(),
                    h,
                    old(self).next(),
                    *inductive,
                ) == Some(
                    Declared { end: final(self).next(), declarations: final(self).declarations() },
                ),
    {
        let ghost at = self.next();
        let ghost name = inductive.name@;
        let ghost calls_0 = self.calls();
        let ghost declarations_0 = self.declarations();
        let ghost shapes_0 = self.shapes();
        let ghost position_0 = declarations_0.len() as int;
        let structure = self.llvm.opaque_struct_type(inductive.name.as_str());
        self.global.push_inductive(inductive.name.clone(), struct_ptr_type(structure));
        let ghost calls_1 = self.calls();
        let ghost declarations_1 = self.declarations();
        let ghost shapes_1 = self.shapes();
        proof {
            assert(declarations_1 == declarations_0.push(bare(name, structure)));
            assert(keeps_bodies(calls_0, calls_1));
            lemma_declarations_extends(calls_0, calls_1, declarations_0);
            if let Some(main) = self.entry_point() {
                lemma_last_block_extends(calls_0, calls_1, main);
            }
            assert(made_here(calls_1, structure)) by {
                assert(calls_1[at].request is OpaqueStruct);
            }
            assert forall|j: int| 0 <= j < declarations_1.len() implies declaration_wf(
                calls_1,
                #[trigger] declarations_1[j],
            ) by {
                if j < position_0 {
                    assert(declaration_wf(calls_1, declarations_0[j]));
                }
            }
            assert(field_counts(calls_1, Seq::empty()) =~= Seq::empty());
            assert(shapes_1 =~= shapes_0.push(
                Shape::Inductive { name, fields: Seq::empty(), laid_out: false },
            ));
        }
        let count = inductive.constructors.len();
        let mut i: usize = 0;
        while i < count
            invariant
                0 <= i <= count == inductive.constructors@.len(),
                at == old(self).next(),
                name == inductive.name@,
                extends(self.calls(), calls_1),
                keeps_bodies(calls_1, self.calls()),
                self.wf(),
                body(self.calls(), structure) is None,
                made_here(calls_1, structure),
                inductive_shape(self.shapes(), name) is Some,
                constructors_shapes(
                    shapes_1,
                    name,
                    inductive.constructors@,
                    count as nat,
                ) is Some,
                constructors_shapes(shapes_1, name, inductive.constructors@, i as nat) == Some(
                    self.shapes(),
                ),
                old(self).entry_point() is Some || !name.contains('\0') ==> self.entry_point()
                    == old(self).entry_point(),
                self.declarations().len() == position_0 + 1,
                declares_inductive(self.declarations()[position_0], name),
                self.declarations()[position_0]->Inductive_1.llvm_type == Ty::Pointer(
                    Box::new(Ty::Named(structure)),
                ),
                forall|j: int|
                    0 <= j < position_0 ==> (#[trigger] self.declarations()[j]
                        matches Entry::Inductive(_, other) ==> other.llvm_type != Ty::Pointer(
                        Box::new(Ty::Named(structure)),
                    )),
                forall|h: Trace<'ctx>| #[trigger]
                    extends(h, self.calls()) ==> constructors_at(
                        declarations_1,
                        h,
                        at + 1,
                        name,
                        inductive.constructors@,
                        i as nat,
                    ) == Some(Declared { end: self.next(), declarations: self.declarations() }),
            decreases count - i,
        {
            let ghost calls_2 = self.calls();
            let ghost shapes_2 = self.shapes();
            let ghost declarations_2 = self.declarations();
            proof {
                lemma_constructors_shapes_some(
                    shapes_1,
                    name,
                    inductive.constructors@,
                    (i + 1) as nat,
                    count as nat,
                );
                lemma_made_here_extends(calls_1, calls_2, structure);
                lemma_find_inductive(declarations_2, name);
            }
            let constructor = &inductive.constructors[i];
            self.codegen_constructor(inductive.name.as_str(), truncated(i), constructor);
            proof {
                let calls_3 = self.calls();
                lemma_extends_trans(calls_1, calls_2, calls_3);
                lemma_keeps_bodies_trans(calls_1, calls_2, calls_3);
                assert(body(calls_3, structure) == body(calls_2, structure));
                assert(extends(calls_3, calls_3));
                assert(constructor_at(
                    declarations_2,
                    calls_3,
                    calls_2.len() as int,
                    name,
                    i as int,
                    *constructor,
                ) == Some(Declared { end: self.next(), declarations: self.declarations() }));
                lemma_find_inductive(self.declarations(), name);
                lemma_inductive_shape(calls_3, self.declarations(), name);
                assert forall|h: Trace<'ctx>| #[trigger] extends(
                    h,
                    calls_3,
                ) implies constructors_at(
                    declarations_1,
                    h,
                    at + 1,
                    name,
                    inductive.constructors@,
                    (i + 1) as nat,
                ) == Some(Declared { end: self.next(), declarations: self.declarations() }) by {
                    lemma_extends_trans(calls_2, calls_3, h);
                }
            }
            i = i + 1;
        }
        let ghost calls_2 = self.calls();
        let ghost shapes_2 = self.shapes();
        let ghost declarations_2 = self.declarations();
        let ghost k = find_inductive(declarations_2, name)->0;
        let ghost constructors = declarations_2[k]->Inductive_1.constructors;
        proof {
            lemma_find_inductive(declarations_2, name);
            lemma_inductive_shape(calls_2, declarations_2, name);
            lemma_extends_trans(calls_0, calls_1, calls_2);
        }
        let chosen = self.largest_constructor(inductive.name.as_str());
        if let Some(constructor_type) = chosen {
            let ghost fields = fields_of(calls_2, constructor_type);
            let field_types = self.llvm.get_field_types(constructor_type);
            proof {
                lemma_made_here_extends(calls_1, calls_2, structure);
                assert forall|i: int| 0 <= i < field_types@.len() implies type_here(
                    calls_2,
                    basic_type(#[trigger] field_types@[i]),
                ) by {
                    assert(basic_types(field_types@)[i] == fields[i]);
                    assert(type_wf(calls_2, fields[i]));
                }
            }
            self.llvm.set_body(structure, &field_types);
            proof {
                let calls_3 = self.calls();
                lemma_extends_trans(calls_0, calls_2, calls_3);
                lemma_laid_out(calls_2, calls_3, declarations_2, position_0, structure);
                if let Some(main) = self.entry_point() {
                    lemma_last_block_extends(calls_2, calls_3, main);
                }
                assert forall|h: Trace<'ctx>| #[trigger] extends(h, calls_3) implies inductive_at(
                    declarations_0,
                    h,
                    at,
                    *inductive,
                ) == Some(Declared { end: self.next(), declarations: self.declarations() }) by {
                    lemma_extends_trans(calls_2, calls_3, h);
                    lemma_extends_trans(calls_1, calls_2, h);
                    assert(struct_at(h, at) == structure);
                    lemma_field_counts_extends(calls_2, h, constructors);
                    lemma_fields_extends(calls_2, h, constructor_type);
                    lemma_body_extends(calls_3, h, structure);
                }
            }
        } else {
            proof {
                assert forall|h: Trace<'ctx>| #[trigger] extends(h, calls_2) implies inductive_at(
                    declarations_0,
                    h,
                    at,
                    *inductive,
                ) == Some(Declared { end: self.next(), declarations: self.declarations() }) by {
                    lemma_extends_trans(calls_1, calls_2, h);
                    assert(struct_at(h, at) == structure);
                }
            }
        }
    }

    /// The structure of the largest constructor of an inductive type.
    fn largest_constructor(&self, inductive_name: &str) -> (structure: Option<StructType<'ctx>>)
        requires
            self.wf(),
            self.find_constructors(inductive_name@) is Some,
        ensures
            ({
                let constructors = self.find_constructors(inductive_name@)->0;
                structure == if constructors.len() == 0 {
                    None
                } else {
                    Some(
                        constructors[largest(
                            field_counts(self.calls(), constructors),
                            constructors.len(),
                        )].llvm_struct_type,
                    )
                }
            }),
            structure matches Some(chosen) ==> fields_wf(self.calls(), chosen) && struct_type(chosen)
                == Ty::Named(chosen) && fields_typed(self.calls(), fields_of(self.calls(), chosen)),
    {
        let ghost constructors = self.find_constructors(inductive_name@)->0;
        let ghost counts = field_counts(self.calls(), constructors);
        proof {
            lemma_find_inductive(self.declarations(), inductive_name@);
            assert(declaration_wf(
                self.calls(),
                self.declarations()[find_inductive(self.declarations(), inductive_name@)->0],
            ));
        }
        let inductive = self.global.lookup_inductive(inductive_name);
        assert(inductive@.constructors == constructors);
        let count = inductive.constructors.len();
        if count == 0 {
            return None;
        }
        assert(constructor_wf(self.calls(), constructors[0]));
        let mut chosen: StructType<'ctx> = inductive.constructors[0].llvm_struct_type;
        let mut chosen_fields: usize = self.llvm.get_field_types(chosen).len();
        let mut i: usize = 1;
        while i < count
            invariant
                1 <= i <= count == constructors.len() == inductive.constructors@.len(),
                inductive@.constructors == constructors,
                counts == field_counts(self.calls(), constructors),
                forall|j: int|
                    0 <= j < constructors.len() ==> constructor_wf(
                        self.calls(),
                        #[trigger] constructors[j],
                    ),
                0 <= largest(counts, i as nat) < i,
                chosen == constructors[largest(counts, i as nat)].llvm_struct_type,
                chosen_fields == counts[largest(counts, i as nat)],
            decreases count - i,
        {
            assert(constructor_wf(self.calls(), constructors[i as int]));
            let structure = inductive.constructors[i].llvm_struct_type;
            let fields = self.llvm.get_field_types(structure).len();
            assert(fields == counts[i as int]);
            if chosen_fields <= fields {
                chosen = structure;
                chosen_fields = fields;
            }
            i = i + 1;
        }
        assert(constructor_wf(self.calls(), constructors[largest(counts, count as nat)]));
        Some(chosen)
    }
}

/// The low byte of a number.
fn truncated(n: usize) -> (byte: u8)
    ensures
        byte == n as int % 0x100,
{
    (n % 0x100) as u8
}

/// The counts of fields do not change.
pub proof fn lemma_field_counts_extends<'ctx>(
    t: Trace<'ctx>,
    later: Trace<'ctx>,
    constructors: Seq<Member<'ctx>>,
)
    requires
        extends(later, t),
        forall|i: int| 0 <= i < constructors.len() ==> constructor_wf(t, #[trigger] constructors[i]),
    ensures
        field_counts(later, constructors) == field_counts(t, constructors),
{
    assert forall|i: int| 0 <= i < constructors.len() implies fields_of(
        later,
        (#[trigger] constructors[i]).llvm_struct_type,
    ) == fields_of(t, constructors[i].llvm_struct_type) by {
        lemma_fields_extends(t, later, constructors[i].llvm_struct_type);
    }
    assert(field_counts(later, constructors) =~= field_counts(t, constructors));
}

/// Structures can be laid out for the first constructors if they can for more of
/// them.
pub proof fn lemma_constructors_shapes_some(
    shapes: Seq<Shape>,
    name: Seq<char>,
    constructors: Seq<ir::Constructor>,
    n: nat,
    more: nat,
)
    requires
        n <= more <= constructors.len(),
        constructors_shapes(shapes, name, constructors, more) is Some,
    ensures
        constructors_shapes(shapes, name, constructors, n) is Some,
    decreases more,
{
    if n < more {
        lemma_constructors_shapes_some(shapes, name, constructors, n, (more - 1) as nat);
    }
}

/// A constructor's name has an underscore in it, even for LLVM.
pub proof fn lemma_c_name_constructor(inductive: Seq<char>, constructor: Seq<char>)
    requires
        !inductive.contains('\0'),
    ensures
        !c_name(constructor_name(inductive, constructor)).is_prefix_of("main"@),
{
    reveal_strlit("_");
    reveal_strlit("main");
    let name = constructor_name(inductive, constructor);
    lemma_c_name_at(name, inductive.len() as int);
}

/// Where no structure was given fields, fields whose types are known stay so.
proof fn lemma_fields_typed_same_bodies<'ctx>(
    t: Trace<'ctx>,
    later: Trace<'ctx>,
    fields: Seq<Ty<'ctx>>,
)
    requires
        extends(later, t),
        same_bodies(t, later),
        fields_typed(t, fields),
    ensures
        fields_typed(later, fields),
{
    assert forall|i: int| 0 <= i < fields.len() implies type_wf(later, #[trigger] fields[i]) by {
        lemma_type_extends(t, later, fields[i]);
    }
}

/// A type stays known when a structure gets its fields.
proof fn lemma_type_laid_out<'ctx>(
    t: Trace<'ctx>,
    later: Trace<'ctx>,
    structure: StructType<'ctx>,
    ty: Ty<'ctx>,
)
    requires
        extends(later, t),
        forall|other: StructType<'ctx>|
            other != structure ==> #[trigger] body(later, other) == body(t, other),
        fields_wf(later, structure),
        type_wf(t, ty),
    ensures
        type_wf(later, ty),
{
    lemma_type_here_extends(t, later, ty);
    if let Ty::Named(named) = pointee(ty) {
        lemma_made_here_extends(t, later, named);
        assert(named != structure ==> body(later, named) == body(t, named));
    }
}

/// Giving the structure of an inductive type its fields changes what is known of
/// this type only.
pub proof fn lemma_laid_out<'ctx>(
    t: Trace<'ctx>,
    later: Trace<'ctx>,
    declarations: Seq<Entry<'ctx>>,
    i: int,
    structure: StructType<'ctx>,
)
    requires
        extends(later, t),
        declarations_wf(t, declarations),
        0 <= i < declarations.len(),
        declarations[i] is Inductive,
        declarations[i]->Inductive_1.llvm_type == Ty::Pointer(Box::new(Ty::Named(structure))),
        forall|other: StructType<'ctx>|
            other != structure ==> #[trigger] body(later, other) == body(t, other),
        body(t, structure) is None,
        fields_wf(later, structure),
        forall|j: int|
            0 <= j < declarations.len() && j != i ==> (#[trigger] declarations[j] matches Entry::Inductive(_, inductive)
                ==> inductive.llvm_type != declarations[i]->Inductive_1.llvm_type),
    ensures
        declarations_wf(later, declarations),
        shapes_of(later, declarations) == shapes_of(t, declarations).update(
            i,
            Shape::Inductive {
                name: declarations[i]->Inductive_0,
                fields: shapes_of(t, declarations)[i]->fields,
                laid_out: true,
            },
        ),
{
    assert forall|j: int| 0 <= j < declarations.len() implies declaration_wf(
        later,
        #[trigger] declarations[j],
    ) && shape_of(later, declarations[j]) == shapes_of(t, declarations).update(
        i,
        Shape::Inductive {
            name: declarations[i]->Inductive_0,
            fields: shapes_of(t, declarations)[i]->fields,
            laid_out: true,
        },
    )[j] by {
        assert(declaration_wf(t, declarations[j]));
        if let Entry::Constant { llvm_value, .. } = declarations[j] {
            lemma_type_laid_out(t, later, structure, type_of(llvm_value));
            lemma_pointer_here_extends(t, later, llvm_value);
        }
        if let Entry::Inductive(_, inductive) = declarations[j] {
            lemma_field_counts_extends(t, later, inductive.constructors);
            lemma_made_here_extends(t, later, pointee(inductive.llvm_type)->Named_0);
            assert forall|m: int| 0 <= m < inductive.constructors.len() implies constructor_wf(
                later,
                #[trigger] inductive.constructors[m],
            ) by {
                let known = inductive.constructors[m].llvm_struct_type;
                assert(constructor_wf(t, inductive.constructors[m]));
                lemma_fields_extends(t, later, known);
                lemma_made_here_extends(t, later, known);
                lemma_pointer_here_extends(t, later, inductive.constructors[m].llvm_function);
                lemma_type_laid_out(
                    t,
                    later,
                    structure,
                    type_of(inductive.constructors[m].llvm_function),
                );
                assert forall|k: int| 0 <= k < fields_of(later, known).len() implies type_wf(
                    later,
                    #[trigger] fields_of(later, known)[k],
                ) by {
                    lemma_type_laid_out(t, later, structure, fields_of(t, known)[k]);
                }
            }
        }
    }
    assert(shapes_of(later, declarations) =~= shapes_of(t, declarations).update(
        i,
        Shape::Inductive {
            name: declarations[i]->Inductive_0,
            fields: shapes_of(t, declarations)[i]->fields,
            laid_out: true,
        },
    ));
}

/// Fields that were filled stay filled.
pub proof fn lemma_filled_extends<'ctx>(
    t: Trace<'ctx>,
    later: Trace<'ctx>,
    at: int,
    function: FunctionValue<'ctx>,
    object: PointerValue<'ctx>,
    fields: Seq<Ty<'ctx>>,
    n: int,
)
    requires
        extends(later, t),
        0 <= at,
        t.len() >= at + filling_calls(fields.len(), n),
        constructor_filled_at(t, at, function, object, fields, n),
    ensures
        constructor_filled_at(later, at, function, object, fields, n),
{
    assert forall|i: int| 1 <= i < n && i < fields.len() - 1 implies #[trigger] capture_stored_at(
        later,
        at + 6 * (i - 1),
        function,
        (fields.len() - 2) as nat,
        object,
        i,
        fields[i],
    ) by {
        assert(capture_stored_at(
            t,
            at + 6 * (i - 1),
            function,
            (fields.len() - 2) as nat,
            object,
            i,
            fields[i],
        ));
    }
}

} // verus!
