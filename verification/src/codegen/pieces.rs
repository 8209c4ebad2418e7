//! Pieces of code that are generated in more than one place.
use inkwell::types::{BasicTypeEnum, PointerType, StructType};
use inkwell::values::{FunctionValue, PointerValue};
use vstd::prelude::*;

use crate::codegen::emission::{
    closure_at, curried_function_at, curried_signature, empty_closure_at, exit_with_failure_at,
    main_at, main_block, main_calls, main_function,
};
use crate::codegen::globals::{is_closure, lemma_declarations_same_bodies, value_wf};
use crate::codegen::Context;
use crate::llvm::session::{
    basic_types, c_name, const_int, get_type, int_fn_type, int_ptr_type, lemma_c_name_at, operands,
    pointer_as_basic, pointer_fn_type, pointer_type, signature_of, struct_type, type_of, Callee,
    Value,
};
use crate::llvm::trace::{
    added_here, block_at, extends, function_at, generic_pointer, group_here, group_trace_push,
    is_new, is_scalar, last_block, layout, lemma_extends_trans, lemma_last_block_parent, made,
    parent, pointer_at, pointer_here, position, ready, type_here, Answer, Call, Operand, Request,
    Trace, Ty,
};

verus! {

broadcast use {group_here, group_trace_push};

impl<'ctx> Context<'ctx> {
    /// Code goes on in the last block of the function where the program starts,
    /// which is added if there is none.
    pub(crate) fn codegen_main(&mut self)
        requires
            old(self).wf(),
        ensures
            final(self).proceeds(old(self)),
            final(self).wf(),
            final(self).shapes() == old(self).shapes(),
            final(self).next() == old(self).next() + main_calls(old(self).entry_point()),
            forall|h: Trace<'ctx>| #[trigger]
                extends(h, final(self).calls()) ==> main_at(
                    h,
                    old(self).next(),
                    old(self).entry_point(),
                ) && final(self).entry_point() == Some(
                    main_function(h, old(self).next(), old(self).entry_point()),
                ) && final(self).block() == main_block(
                    h,
                    old(self).next(),
                    old(self).entry_point(),
                ),
            ready(final(self).calls()),
            old(self).entry_point() is None ==> is_new(
                old(self).calls(),
                final(self).entry_point()->0,
            ) && final(self).entry_point() == Some(final(self).function()),
    {
        let ghost calls_0 = self.calls();
        match self.llvm.get_function("main") {
            Some(main) => {
                proof {
                    lemma_last_block_parent(self.calls(), main);
                }
                let block = self.llvm.get_last_basic_block(main);
                self.llvm.position_at_end(block);
                proof {
                    self.lemma_continues(old(self));
                    let calls_1 = self.calls();
                    assert forall|h: Trace<'ctx>| #[trigger] extends(h, calls_1) implies h.take(
                        calls_0.len() as int,
                    ) == calls_0 && made(
                        h,
                        calls_0.len() as int,
                        Request::PositionAtEnd { block },
                    ) by {
                        assert(h.take(calls_0.len() as int) =~= calls_0);
                    }
                }
            },
            None => {
                proof {
                    reveal_strlit("main");
                }
                let signature = int_fn_type(self.llvm.i32_type());
                let llvm_main_function = self.llvm.add_function("main", signature);
                let entry = self.llvm.append_basic_block(llvm_main_function, "entry");
                self.llvm.position_at_end(entry);
                proof {
                    lemma_declarations_same_bodies(
                        calls_0,
                        self.calls(),
                        self.declarations(),
                    );
                }
            },
        }
    }

    /// The type of pointers to anything.
    pub(crate) fn llvm_pointer_type(&self) -> (ty: PointerType<'ctx>)
        ensures
            pointer_type(ty) == generic_pointer::<'ctx>(),
    {
        int_ptr_type(self.llvm.i8_type())
    }

    /// A function that takes an argument and captured values, with an empty first
    /// block in which code goes on.
    pub(crate) fn initialize_curried_llvm_function(
        &mut self,
        return_type: PointerType<'ctx>,
        name: &str,
    ) -> (function: FunctionValue<'ctx>)
        requires
            type_here(old(self).calls(), pointer_type(return_type)),
        ensures
            final(self).proceeds(old(self)),
            final(self).entry_point() == old(self).entry_point() || (old(
                self,
            ).entry_point() is None && final(self).entry_point() == Some(function)),
            last_block(final(self).calls(), function) is Some,
            is_new(old(self).calls(), function),
            added_here(final(self).calls(), function),
            final(self).next() == old(self).next() + 3,
            forall|h: Trace<'ctx>| #[trigger]
                extends(h, final(self).calls()) ==> curried_function_at(
                    h,
                    old(self).next(),
                    pointer_type(return_type),
                    name@,
                ) && function_at(h, old(self).next()) == function,
            signature_of(function) == curried_signature(pointer_type(return_type)),
            !c_name(name@).is_prefix_of("main"@) ==> final(self).entry_point() == old(
                self,
            ).entry_point(),
            ready(final(self).calls()),
            position(final(self).calls()) == Some(
                block_at(final(self).calls(), old(self).next() + 1),
            ),
            parent(
                final(self).calls(),
                block_at(final(self).calls(), old(self).next() + 1),
            ) == Some(function),
    {
        let pointer = self.llvm_pointer_type();
        let signature = pointer_fn_type(return_type, pointer, pointer);
        let function = self.llvm.add_function(name, signature);
        let entry = self.llvm.append_basic_block(function, "entry");
        self.llvm.position_at_end(entry);
        function
    }

    /// A closure that holds a function and its captured values.
    pub(crate) fn function_to_lambda_struct(
        &mut self,
        llvm_lambda_function_ptr: PointerValue<'ctx>,
        llvm_captures_struct_ptr: PointerValue<'ctx>,
    ) -> (closure: PointerValue<'ctx>)
        requires
            ready(old(self).calls()),
            pointer_here(old(self).calls(), llvm_lambda_function_ptr),
            type_here(old(self).calls(), type_of(llvm_lambda_function_ptr)),
            pointer_here(old(self).calls(), llvm_captures_struct_ptr),
            type_here(old(self).calls(), type_of(llvm_captures_struct_ptr)),
        ensures
            final(self).continues(old(self)),
            final(self).next() == old(self).next() + 5,
            forall|h: Trace<'ctx>| #[trigger]
                extends(h, final(self).calls()) ==> closure_at(
                    h,
                    old(self).next(),
                    llvm_lambda_function_ptr,
                    llvm_captures_struct_ptr,
                ) && pointer_at(h, old(self).next()) == closure,
            type_of(closure) == Ty::Pointer(
                Box::new(
                    Ty::Struct(
                        seq![type_of(llvm_lambda_function_ptr), type_of(llvm_captures_struct_ptr)],
                    ),
                ),
            ),
            is_closure(closure),
            value_wf(final(self).calls(), closure),
            ready(final(self).calls()),
            position(final(self).calls()) == position(old(self).calls()),
    {
        let function_type = pointer_as_basic(get_type(llvm_lambda_function_ptr));
        let captures_type = pointer_as_basic(get_type(llvm_captures_struct_ptr));
        let mut fields: Vec<BasicTypeEnum<'ctx>> = Vec::new();
        fields.push(function_type);
        fields.push(captures_type);
        assert(basic_types(fields@) =~= seq![
            type_of(llvm_lambda_function_ptr),
            type_of(llvm_captures_struct_ptr),
        ]);
        let structure = self.llvm.struct_type(&fields);
        let closure = self.allocate(structure, "lambda_struct_pointer");
        let function_field = self.llvm.build_struct_gep(
            closure,
            0,
            "lambda_struct_function_pointer_field_address",
        );
        self.llvm.build_store(function_field, Value::Pointer(llvm_lambda_function_ptr));
        let captures_field = self.llvm.build_struct_gep(
            closure,
            1,
            "lambda_struct_captures_field_address",
        );
        self.llvm.build_store(captures_field, Value::Pointer(llvm_captures_struct_ptr));
        closure
    }

    /// Allocates a structure on the heap.
    pub(crate) fn allocate(&mut self, ty: StructType<'ctx>, name: &str) -> (pointer: PointerValue<
        'ctx,
    >)
        requires
            ready(old(self).calls()),
            type_here(old(self).calls(), struct_type(ty)),
            layout(old(self).calls(), struct_type(ty)) matches Some(fields) && forall|i: int|
                0 <= i < fields.len() ==> is_scalar(#[trigger] fields[i]),
        ensures
            final(self).continues(old(self)),
            final(self).calls() == old(self).calls().push(
                Call {
                    request: Request::Malloc { ty: struct_type(ty), name: name@ },
                    answer: Answer::Pointer(pointer),
                },
            ),
            type_of(pointer) == Ty::Pointer(Box::new(struct_type(ty))),
            pointer_here(final(self).calls(), pointer),
    {
        proof {
            reveal_strlit("main");
            reveal_strlit("malloc");
        }
        self.llvm.build_malloc(ty, name)
    }

    /// A closure without captured values.
    pub(crate) fn empty_closure(&mut self, function: PointerValue<'ctx>, name: &str) -> (closure:
        PointerValue<'ctx>)
        requires
            ready(old(self).calls()),
            pointer_here(old(self).calls(), function),
            type_here(old(self).calls(), type_of(function)),
        ensures
            final(self).continues(old(self)),
            final(self).next() == old(self).next() + 6,
            ready(final(self).calls()),
            position(final(self).calls()) == position(old(self).calls()),
            is_closure(closure),
            value_wf(final(self).calls(), closure),
            forall|h: Trace<'ctx>| #[trigger]
                extends(h, final(self).calls()) ==> empty_closure_at(
                    h,
                    old(self).next(),
                    function,
                    name@,
                ) && pointer_at(h, old(self).next() + 1) == closure,
    {
        let ghost calls_0 = self.calls();
        let empty = self.captures_struct_type(0);
        let captures = self.allocate(empty, name);
        let ghost calls_1 = self.calls();
        let closure = self.function_to_lambda_struct(function, captures);
        proof {
            let calls_2 = self.calls();
            lemma_extends_trans(calls_0, calls_1, calls_2);
            assert forall|h: Trace<'ctx>| #[trigger] extends(h, calls_2) implies empty_closure_at(
                h,
                old(self).next(),
                function,
                name@,
            ) && pointer_at(h, old(self).next() + 1) == closure by {
                lemma_extends_trans(calls_1, calls_2, h);
            }
        }
        closure
    }

    /// The program ends with an exit code that tells of failure.
    pub(crate) fn codegen_exit_with_failure(&mut self)
        requires
            ready(old(self).calls()),
        ensures
            final(self).continues(old(self)),
            final(self).next() == old(self).next() + 3,
            forall|h: Trace<'ctx>| #[trigger]
                extends(h, final(self).calls()) ==> exit_with_failure_at(
                    h,
                    old(self).next(),
                ),
            position(final(self).calls()) == position(old(self).calls()),
    {
        proof {
            reveal_strlit("main");
            reveal_strlit("exit");
            assert(c_name("exit"@).is_prefix_of("main"@) ==> false) by {
                lemma_c_name_at("exit"@, 0);
            }
        }
        let llvm_int_type = self.llvm.i32_type();
        let signature = self.llvm.void_fn_type(llvm_int_type);
        let exit = self.llvm.add_external_function("exit", signature);
        let code = const_int(llvm_int_type, 1);
        let mut arguments: Vec<Value<'ctx>> = Vec::new();
        arguments.push(Value::Int(code));
        assert(operands(arguments@) =~= seq![Operand::Int { bits: 32, value: 1 }]);
        self.llvm.build_call(Callee::Function(exit), &arguments, "exit_function_call");
        self.llvm.build_unreachable();
    }
}

} // verus!
