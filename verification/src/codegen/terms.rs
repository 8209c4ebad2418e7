//! Code for terms.
use inkwell::basic_block::BasicBlock;
use inkwell::types::{BasicTypeEnum, StructType};
use inkwell::values::{FunctionValue, IntValue, PointerValue};
use vstd::prelude::*;

use crate::codegen::emission::{
    application_at, capture_loaded_at, capture_written_at, captured_values, captures_loaded_at,
    captures_stored_at, captures_type, case_at, case_closed_at, case_opened_at, cases_at,
    closure_calls, closure_opened_at, closure_seen, closure_seen_at, curried_function_at,
    curried_signature, field_loaded_at, fields_loaded_at, lambda_at, lambda_closed_at,
    loaded_fields, match_closed_at, match_opened_at, scope_with_captures, term_at, with_fixpoint,
    Cases, Emission,
};
use crate::codegen::environment::fixpoint;
use crate::codegen::environment::fixpoint::{bindings_of, lemma_bindings, Fixpoint};
use crate::codegen::environment::global::{find_constant, find_inductive, lemma_find_inductive};
use crate::codegen::environment::local;
use crate::codegen::globals::{
    constructor_wf, declaration_wf, field_counts, fields_of, fields_typed, fields_wf, fixpoints_wf,
    is_closure, lemma_constant_shape, lemma_fields_extends, lemma_fixpoint_wf,
    lemma_fixpoints_same_bodies, lemma_inductive_shape, lemma_scope_same_bodies, lemma_type_extends,
    scope_wf, value_wf,
};
use crate::codegen::shape::{
    bound_by_branch, branches_compilable, captured, compilable, lemma_branch_compilable,
    with_binding,
};
use crate::codegen::Context;
use crate::hir::ir::{debruijn_position, DeBruijnIndex, Term};
use crate::llvm::session::{
    basic_type, basic_types, const_int, element_type, fn_ptr_type, function_address, get_nth_param,
    get_type, is_byte, is_pointer_type, lemma_c_name_at, operands, pointer_as_basic,
    pointer_fn_type, signature_of, struct_ptr_type, struct_type, switch_cases, type_of,
    verify_function, Callee, Pointee, Value,
};
use crate::llvm::trace::{
    added_here, block_at, byte_here, extends, function_at, generic_pointer, group_here,
    group_trace_push, lemma_added_here_extends, lemma_byte_here_extends, lemma_extends_trans,
    lemma_function_here, lemma_made_here_extends, lemma_parent_added, lemma_parent_extends,
    lemma_pointer_here_extends, lemma_type_here_extends, parent, pointee, pointer_at, pointer_here,
    position, ready, type_here, Answer, Call, Operand, Request, Trace, Ty,
};
use crate::text::numbered_name;

verus! {

broadcast use {group_here, group_trace_push};

impl<'ctx> Context<'ctx> {
    /// Stores the values of the captured variables.
    fn store_captures(
        &mut self,
        captures: PointerValue<'ctx>,
        indexes: &Vec<DeBruijnIndex>,
        local: &local::Environment<'ctx>,
    )
        requires
            ready(old(self).calls()),
            type_of(captures) == Ty::Pointer(Box::new(captures_type(indexes@.len()))),
            indexes@.len() <= u32::MAX,
            pointer_here(old(self).calls(), captures),
            scope_wf(old(self).calls(), local@),
            forall|i: int| 0 <= i < indexes@.len() ==> #[trigger] indexes@[i] < local@.len(),
        ensures
            final(self).continues(old(self)),
            final(self).next() == old(self).next() + 3 * indexes@.len(),
            ready(final(self).calls()),
            position(final(self).calls()) == position(old(self).calls()),
            forall|h: Trace<'ctx>| #[trigger]
                extends(h, final(self).calls()) ==> captures_stored_at(
                    h,
                    old(self).next(),
                    captures,
                    captured_values(local@, indexes@),
                    indexes@.len() as int,
                ),
    {
        let ghost at = self.next();
        let ghost values = captured_values(local@, indexes@);
        let mut i: usize = 0;
        while i < indexes.len()
            invariant
                at == old(self).next(),
                values == captured_values(local@, indexes@),
                0 <= i <= indexes@.len() <= u32::MAX,
                type_of(captures) == Ty::Pointer(Box::new(captures_type(indexes@.len()))),
                pointer_here(self.calls(), captures),
                scope_wf(old(self).calls(), local@),
                forall|i: int| 0 <= i < indexes@.len() ==> #[trigger] indexes@[i] < local@.len(),
                self.continues(old(self)),
                self.next() == at + 3 * i,
                ready(self.calls()),
                position(self.calls()) == position(old(self).calls()),
                forall|h: Trace<'ctx>| #[trigger]
                    extends(h, self.calls()) ==> captures_stored_at(
                        h,
                        at,
                        captures,
                        values,
                        i as int,
                    ),
            decreases indexes@.len() - i,
        {
            let ghost before = self.calls();
            let name = numbered_name("captures_struct_field_", i, "_address");
            let field = self.llvm.build_struct_gep(captures, i as u32, name.as_str());
            let value = local.lookup(indexes[i]);
            proof {
                let position = debruijn_position(local@.len(), indexes@[i as int] as nat);
                assert(value_wf(old(self).calls(), local@[position]));
                lemma_extends_trans(old(self).calls(), before, self.calls());
                lemma_pointer_here_extends(old(self).calls(), self.calls(), value);
            }
            let name = numbered_name("captures_struct_field_", i, "");
            let casted = self.llvm.build_bitcast(value, self.llvm_pointer_type(), name.as_str());
            self.llvm.build_store(field, Value::Pointer(casted));
            proof {
                let after = self.calls();
                assert(values[i as int] == value);
                assert forall|h: Trace<'ctx>| #[trigger] extends(
                    h,
                    after,
                ) implies captures_stored_at(h, at, captures, values, i + 1) by {
                    lemma_extends_trans(before, after, h);
                    assert(capture_written_at(h, at + 3 * i, captures, values[i as int], i as int));
                }
            }
            i = i + 1;
        }
    }

    /// Copies the captured values to the stack of the function that is being
    /// generated, where the variables find them.
    fn load_captures(
        &mut self,
        function: FunctionValue<'ctx>,
        captures: PointerValue<'ctx>,
        indexes: &Vec<DeBruijnIndex>,
        local: &mut local::Environment<'ctx>,
    )
        requires
            ready(old(self).calls()),
            signature_of(function) == curried_signature(generic_pointer()),
            type_of(captures) == Ty::Pointer(Box::new(captures_type(indexes@.len()))),
            indexes@.len() <= u32::MAX,
            added_here(old(self).calls(), function),
            pointer_here(old(self).calls(), captures),
            scope_wf(old(self).calls(), old(local)@),
            forall|i: int| 0 <= i < indexes@.len() ==> #[trigger] indexes@[i] < old(local)@.len(),
        ensures
            final(self).continues(old(self)),
            final(self).next() == old(self).next() + 5 * indexes@.len(),
            ready(final(self).calls()),
            position(final(self).calls()) == position(old(self).calls()),
            final(local)@.len() == old(local)@.len(),
            scope_wf(final(self).calls(), final(local)@),
            forall|h: Trace<'ctx>| #[trigger]
                extends(h, final(self).calls()) ==> captures_loaded_at(
                    h,
                    old(self).next(),
                    function,
                    captures,
                    indexes@.len() as int,
                ) && final(local)@ == scope_with_captures(
                    h,
                    old(self).next(),
                    old(local)@,
                    indexes@,
                    indexes@.len(),
                ),
    {
        let ghost at = self.next();
        let ghost scope = local@;
        let mut i: usize = 0;
        while i < indexes.len()
            invariant
                at == old(self).next(),
                scope == old(local)@,
                0 <= i <= indexes@.len() <= u32::MAX,
                signature_of(function) == curried_signature(generic_pointer()),
                type_of(captures) == Ty::Pointer(Box::new(captures_type(indexes@.len()))),
                forall|i: int| 0 <= i < indexes@.len() ==> #[trigger] indexes@[i] < scope.len(),
                self.continues(old(self)),
                self.next() == at + 5 * i,
                ready(self.calls()),
                position(self.calls()) == position(old(self).calls()),
                added_here(self.calls(), function),
                pointer_here(self.calls(), captures),
                local@.len() == scope.len(),
                scope_wf(self.calls(), local@),
                forall|h: Trace<'ctx>| #[trigger]
                    extends(h, self.calls()) ==> captures_loaded_at(
                        h,
                        at,
                        function,
                        captures,
                        i as int,
                    ) && local@ == scope_with_captures(h, at, scope, indexes@, i as nat),
            decreases indexes@.len() - i,
        {
            let ghost before = self.calls();
            let ghost scope_before = local@;
            let parameter = get_nth_param(function, 1);
            proof {
                lemma_function_here(before, function);
            }
            let casted = self.llvm.build_bitcast(
                parameter,
                get_type(captures),
                "casted_captures_struct_pointer",
            );
            let name = numbered_name("captures_struct_debruijn_value_", i, "_address");
            let address = self.llvm.build_struct_gep(casted, i as u32, name.as_str());
            let name = numbered_name("captures_struct_debruijn_value_", i, "");
            let value = self.load_pointer(address, name.as_str());
            let name = numbered_name("debruijn_value_", i, "");
            let place = self.llvm.build_alloca(get_type(value), name.as_str());
            self.llvm.build_store(place, Value::Pointer(value));
            local.update(indexes[i], place);
            proof {
                let after = self.calls();
                lemma_scope_same_bodies(before, after, scope_before);
                assert(value_wf(after, place));
                assert forall|j: int| 0 <= j < local@.len() implies value_wf(
                    after,
                    #[trigger] local@[j],
                ) by {
                    assert(local@[j] == place || local@[j] == scope_before[j]);
                    assert(value_wf(after, scope_before[j]));
                }
                assert forall|h: Trace<'ctx>| #[trigger] extends(h, after) implies
                    captures_loaded_at(h, at, function, captures, i + 1) && local@
                    == scope_with_captures(h, at, scope, indexes@, (i + 1) as nat) by {
                    lemma_extends_trans(before, after, h);
                    assert(capture_loaded_at(h, at + 5 * i, function, captures, i as int));
                }
            }
            i = i + 1;
        }
    }

    /// The structure type of `n` captured values.
    pub(crate) fn captures_struct_type(&self, n: usize) -> (ty: StructType<'ctx>)
        requires
            n <= u32::MAX,
        ensures
            struct_type(ty) == captures_type::<'ctx>(n as nat),
    {
        let pointer = pointer_as_basic(self.llvm_pointer_type());
        let mut fields: Vec<BasicTypeEnum<'ctx>> = Vec::new();
        let mut i: usize = 0;
        while i < n
            invariant
                0 <= i <= n,
                fields@.len() == i,
                basic_type(pointer) == generic_pointer::<'ctx>(),
                forall|j: int| 0 <= j < i ==> #[trigger] fields@[j] == pointer,
            decreases n - i,
        {
            fields.push(pointer);
            i = i + 1;
        }
        assert(basic_types(fields@) =~= Seq::new(n as nat, |i: int| generic_pointer::<'ctx>()));
        self.llvm.struct_type(&fields)
    }

    /// Code for a lambda: a function, and a closure that holds it with what it
    /// captures. The lambda is the body of a fixpoint if it has a name of its own.
    #[verifier::rlimit(60)]
    fn codegen_lambda(
        &mut self,
        term: &Term,
        own: Option<&String>,
        local: &local::Environment<'ctx>,
        fixpoints: &mut fixpoint::Environment<'ctx>,
    ) -> (value: PointerValue<'ctx>)
        requires
            *term is Lambda,
            old(self).wf(),
            ready(old(self).calls()),
            scope_wf(old(self).calls(), local@),
            fixpoints_wf(old(self).calls(), old(fixpoints)@),
            compilable(
                old(self).shapes(),
                match own {
                    Some(name) => with_binding(
                        old(self).shapes(),
                        bindings_of(old(fixpoints)@),
                        name@,
                        *term,
                    ),
                    None => bindings_of(old(fixpoints)@),
                },
                local@.len(),
                *term,
            ),
        ensures
            final(fixpoints)@ == old(fixpoints)@,
            final(self).continues(old(self)),
            final(self).wf(),
            final(self).shapes() == old(self).shapes(),
            ready(final(self).calls()),
            final(self).function() == old(self).function(),
            value_wf(final(self).calls(), value),
            forall|h: Trace<'ctx>| #[trigger]
                extends(h, final(self).calls()) ==> lambda_at(
                    old(self).declarations(),
                    h,
                    old(self).next(),
                    *term->Lambda_body,
                    match own {
                        Some(name) => Some(name@),
                        None => None,
                    },
                    local@,
                    old(fixpoints)@,
                    old(self).block(),
                ) == Some(
                    Emission { end: final(self).next(), value, block: final(self).block() },
                ),
        decreases *term, 0nat,
    {
        let ghost shapes = self.shapes();
        let ghost scope = local@;
        let ghost bound = fixpoints@;
        let ghost own_name = match own {
            Some(name) => Some(name@),
            None => None,
        };
        let ghost calls_0 = self.calls();
        let ghost at = self.next();
        let body = match term {
            Term::Lambda { body, .. } => body,
            _ => vstd::pervasive::unreached(),
        };
        let free_debruijn_indexes = self.free_variables(term);
        let ghost indexes = free_debruijn_indexes@;
        let ghost n = indexes.len() as int;
        assert(indexes == captured(shapes, **body, 0));
        let captures_struct_type = self.captures_struct_type(free_debruijn_indexes.len());
        let captures = self.allocate(captures_struct_type, "captures_struct_pointer");
        let ghost calls_1 = self.calls();
        self.store_captures(captures, &free_debruijn_indexes, local);
        let ghost calls_2 = self.calls();
        let ghost before_function = *self;
        let previous_block = self.llvm.get_insert_block();
        let function = self.initialize_lambda();
        let ghost calls_3 = self.calls();
        let mut inner_local = local.clone();
        proof {
            lemma_extends_trans(calls_0, calls_1, calls_2);
            lemma_extends_trans(calls_0, calls_2, calls_3);
            lemma_scope_same_bodies(calls_0, calls_3, scope);
            lemma_pointer_here_extends(calls_1, calls_2, captures);
            lemma_pointer_here_extends(calls_2, calls_3, captures);
        }
        self.load_captures(function, captures, &free_debruijn_indexes, &mut inner_local);
        let ghost calls_4 = self.calls();
        let ghost inner_scope = inner_local@;
        proof {
            lemma_added_here_extends(calls_3, calls_4, function);
            lemma_pointer_here_extends(calls_3, calls_4, captures);
            lemma_function_here(calls_4, function);
        }
        let parameter = get_nth_param(function, 0);
        inner_local.push(parameter);
        let function_pointer = function_address(function);
        if let Some(name) = own {
            fixpoints.push(
                Fixpoint {
                    name: name.clone(),
                    closed: free_debruijn_indexes.len() == 0,
                    llvm_function: function_pointer,
                },
            );
        }
        let ghost inner_bound = fixpoints@;
        proof {
            lemma_extends_trans(calls_0, calls_3, calls_4);
            self.lemma_continues(old(self));
            lemma_parent_extends(calls_3, calls_4, self.block());
            assert(inner_bound == with_fixpoint(bound, own_name, n == 0, function));
            if let Some(name) = own {
                assert(bindings_of(inner_bound) =~= with_binding(
                    shapes,
                    bindings_of(bound),
                    name@,
                    *term,
                ));
            }
            assert forall|i: int| 0 <= i < inner_local@.len() implies value_wf(
                calls_4,
                #[trigger] inner_local@[i],
            ) by {
                if i < inner_scope.len() {
                    assert(value_wf(calls_4, inner_scope[i]));
                }
            }
            lemma_fixpoints_same_bodies(calls_0, calls_4, bound);
            assert forall|i: int| 0 <= i < inner_bound.len() implies value_wf(
                calls_4,
                (#[trigger] inner_bound[i]).llvm_function,
            ) by {
                if i < bound.len() {
                    assert(inner_bound[i] == bound[i]);
                } else {
                    assert(value_wf(calls_4, function_pointer));
                }
            }
        }
        let ghost before_body = *self;
        let ghost body_scope = inner_local@;
        let return_value = self.codegen_term_helper(body, &mut inner_local, fixpoints);
        let ghost calls_5 = self.calls();
        if own.is_some() {
            fixpoints.pop();
        }
        assert(fixpoints@ =~= bound);
        let returned = self.llvm.build_bitcast(
            return_value,
            self.llvm_pointer_type(),
            "return_i8_pointer",
        );
        self.llvm.build_return(Value::Pointer(returned));
        verify_function(function);
        proof {
            lemma_extends_trans(calls_0, calls_4, calls_5);
            lemma_parent_extends(calls_0, calls_5, previous_block);
            lemma_pointer_here_extends(calls_4, calls_5, captures);
            lemma_pointer_here_extends(calls_4, calls_5, function_pointer);
        }
        self.llvm.position_at_end(previous_block);
        let ghost calls_6 = self.calls();
        proof {
            lemma_extends_trans(calls_0, calls_4, calls_5);
            lemma_extends_trans(calls_0, calls_5, calls_6);
            lemma_parent_extends(calls_0, calls_6, previous_block);
        }
        let closure = self.function_to_lambda_struct(function_pointer, captures);
        proof {
            let calls_7 = self.calls();
            lemma_extends_trans(calls_0, calls_6, calls_7);
            self.lemma_continues(old(self));
            lemma_parent_extends(calls_0, calls_7, previous_block);
            assert forall|h: Trace<'ctx>| #[trigger] extends(h, calls_7) implies lambda_at(
                self.declarations(),
                h,
                at,
                **body,
                own_name,
                scope,
                bound,
                old(self).block(),
            ) == Some(Emission { end: self.next(), value: closure, block: self.block() }) by {
                lemma_extends_trans(calls_6, calls_7, h);
                lemma_extends_trans(calls_5, calls_6, h);
                lemma_extends_trans(calls_4, calls_5, h);
                lemma_extends_trans(calls_3, calls_4, h);
                lemma_extends_trans(calls_2, calls_3, h);
                lemma_extends_trans(calls_1, calls_2, h);
                lemma_extends_trans(calls_0, calls_1, h);
                assert(h.take(at) =~= calls_0);
                let opened = at + 1 + 3 * n;
                assert(function_at(h, opened) == function);
                assert(pointer_at(h, at) == captures);
                assert(inner_scope == scope_with_captures(
                    h,
                    opened + 3,
                    scope,
                    indexes,
                    indexes.len(),
                ));
                assert(block_at(h, opened + 1) == before_body.block());
                assert(lambda_closed_at(h, calls_5.len() as int, return_value, previous_block));
            }
        }
        closure
    }

    /// The function of a lambda.
    fn initialize_lambda(&mut self) -> (function: FunctionValue<'ctx>)
        ensures
            final(self).continues(old(self)),
            final(self).next() == old(self).next() + 3,
            forall|h: Trace<'ctx>| #[trigger]
                extends(h, final(self).calls()) ==> curried_function_at(
                    h,
                    old(self).next(),
                    generic_pointer(),
                    "lambda"@,
                ) && function_at(h, old(self).next()) == function && block_at(
                    h,
                    old(self).next() + 1,
                ) == final(self).block(),
            signature_of(function) == curried_signature(generic_pointer()),
            added_here(final(self).calls(), function),
            ready(final(self).calls()),
            final(self).function() == function,
    {
        proof {
            reveal_strlit("main");
            reveal_strlit("lambda");
            lemma_c_name_at("lambda"@, 0);
        }
        let function = self.initialize_curried_llvm_function(self.llvm_pointer_type(), "lambda");
        proof {
            let calls_1 = self.calls();
            assert forall|h: Trace<'ctx>| #[trigger] extends(h, calls_1) implies block_at(
                h,
                old(self).next() + 1,
            ) == self.block() by {}
        }
        function
    }

    /// The value is a closure.
    fn is_closure(&self, value: PointerValue<'ctx>) -> (closure: bool)
        requires
            value_wf(self.calls(), value),
        ensures
            closure == is_closure(value),
    {
        match element_type(get_type(value)) {
            Pointee::Struct(structure) => {
                let fields = self.llvm.get_field_types(structure);
                let ghost types = basic_types(fields@);
                assert(types.len() == fields@.len());
                fields.len() >= 2 && is_pointer_type(fields[0]) && is_pointer_type(fields[1])
            },
            _ => false,
        }
    }

    /// A value seen as a closure.
    fn codegen_closure_pointer(&mut self, value: PointerValue<'ctx>) -> (closure: PointerValue<
        'ctx,
    >)
        requires
            ready(old(self).calls()),
            value_wf(old(self).calls(), value),
        ensures
            final(self).continues(old(self)),
            final(self).next() == old(self).next() + closure_calls(value),
            ready(final(self).calls()),
            position(final(self).calls()) == position(old(self).calls()),
            is_closure(closure),
            value_wf(final(self).calls(), closure),
            forall|h: Trace<'ctx>| #[trigger]
                extends(h, final(self).calls()) ==> closure_seen_at(h, old(self).next(), value)
                    && closure_seen(h, old(self).next(), value) == closure,
    {
        if self.is_closure(value) {
            return value;
        }
        let pointer = match element_type(get_type(value)) {
            Pointee::Pointer(_) => self.load_pointer(value, "application_closure_pointer"),
            _ => value,
        };
        let closure_type = struct_ptr_type(self.captures_struct_type(2));
        self.llvm.build_bitcast(pointer, closure_type, "application_closure_pointer_cast")
    }

    /// Code for an application: the function is taken out of the closure and
    /// called.
    fn codegen_application(
        &mut self,
        term: &Term,
        local: &mut local::Environment<'ctx>,
        fixpoints: &mut fixpoint::Environment<'ctx>,
    ) -> (value: PointerValue<'ctx>)
        requires
            *term is Application,
            old(self).can_generate(*term, old(local)@, old(fixpoints)@),
        ensures
            final(local)@ == old(local)@,
            final(fixpoints)@ == old(fixpoints)@,
            final(self).generated(old(self), *term, old(local)@, old(fixpoints)@, value),
        decreases *term, 0nat,
    {
        let (function, argument) = match term {
            Term::Application { function, argument } => (function, argument),
            _ => vstd::pervasive::unreached(),
        };
        let ghost scope = local@;
        let ghost bound = fixpoints@;
        let ghost calls_0 = self.calls();
        let function_value = self.codegen_term_helper(function, local, fixpoints);
        let ghost calls_1 = self.calls();
        let closure = self.codegen_closure_pointer(function_value);
        let ghost calls_2 = self.calls();
        let function_field = self.llvm.build_struct_gep(
            closure,
            0,
            "application_function_pointer_pointer",
        );
        let function_pointer = self.load_pointer(function_field, "application_function_pointer");
        let captures_field = self.llvm.build_struct_gep(
            closure,
            1,
            "application_captures_struct_pointer_pointer",
        );
        let captures = self.load_pointer(captures_field, "application_captures_struct_pointer");
        let ghost calls_3 = self.calls();
        proof {
            lemma_extends_trans(calls_0, calls_1, calls_2);
            lemma_extends_trans(calls_0, calls_2, calls_3);
            lemma_extends_trans(calls_1, calls_2, calls_3);
            self.lemma_continues(old(self));
            lemma_scope_same_bodies(calls_0, calls_3, scope);
            lemma_fixpoints_same_bodies(calls_0, calls_3, bound);
            lemma_parent_extends(calls_1, calls_3, self.block());
            assert(pointer_here(calls_3, function_pointer));
            assert(pointer_here(calls_3, captures));
            assert(type_here(calls_3, type_of(captures)));
        }
        let ghost before_argument = *self;
        let argument_value = self.codegen_term_helper(argument, local, fixpoints);
        let ghost calls_4 = self.calls();
        proof {
            lemma_pointer_here_extends(calls_3, calls_4, function_pointer);
            lemma_pointer_here_extends(calls_3, calls_4, captures);
            lemma_type_here_extends(calls_3, calls_4, type_of(captures));
        }
        let signature = pointer_fn_type(
            self.llvm_pointer_type(),
            get_type(argument_value),
            get_type(captures),
        );
        let casted = self.llvm.build_bitcast(
            function_pointer,
            fn_ptr_type(signature),
            "application_function_pointer_cast",
        );
        let mut arguments: Vec<Value<'ctx>> = Vec::new();
        arguments.push(Value::Pointer(argument_value));
        arguments.push(Value::Pointer(captures));
        assert(operands(arguments@) =~= seq![
            Operand::Pointer(argument_value),
            Operand::Pointer(captures),
        ]);
        let called = self.llvm.build_call(Callee::Pointer(casted), &arguments, "call");
        let value = match called {
            Some(value) => value,
            None => vstd::pervasive::unreached(),
        };
        proof {
            let calls_5 = self.calls();
            lemma_extends_trans(calls_0, calls_3, calls_4);
            lemma_extends_trans(calls_0, calls_4, calls_5);
            self.lemma_continues(old(self));
            assert forall|h: Trace<'ctx>| #[trigger] extends(h, calls_5) implies term_at(
                self.declarations(),
                h,
                old(self).next(),
                *term,
                scope,
                bound,
                old(self).function(),
                old(self).block(),
            ) == Some(Emission { end: self.next(), value, block: self.block() }) by {
                lemma_extends_trans(calls_4, calls_5, h);
                lemma_extends_trans(calls_3, calls_4, h);
                lemma_extends_trans(calls_2, calls_3, h);
                lemma_extends_trans(calls_1, calls_2, h);
                assert(closure_opened_at(h, calls_2.len() as int, closure));
                assert(application_at(
                    h,
                    calls_4.len() as int,
                    function_pointer,
                    captures,
                    argument_value,
                ));
            }
        }
        value
    }

    /// Loads a pointer.
    pub(crate) fn load_pointer(&mut self, pointer: PointerValue<'ctx>, name: &str) -> (value:
        PointerValue<'ctx>)
        requires
            ready(old(self).calls()),
            pointer_here(old(self).calls(), pointer),
            pointee(type_of(pointer)) is Pointer,
        ensures
            final(self).continues(old(self)),
            final(self).calls() == old(self).calls().push(
                Call {
                    request: Request::Load { pointer, name: name@ },
                    answer: Answer::Pointer(value),
                },
            ),
            type_of(value) == pointee(type_of(pointer)),
            pointer_here(final(self).calls(), value),
    {
        match self.llvm.build_load(pointer, name) {
            Value::Pointer(value) => value,
            Value::Int(_) => vstd::pervasive::unreached(),
        }
    }

    /// Code for a constructor: a closure that holds its function.
    fn codegen_constructor_term(
        &mut self,
        term: &Term,
        local: &local::Environment<'ctx>,
        fixpoints: &fixpoint::Environment<'ctx>,
    ) -> (value: PointerValue<'ctx>)
        requires
            *term is Constructor,
            old(self).can_generate(*term, local@, fixpoints@),
        ensures
            final(self).generated(old(self), *term, local@, fixpoints@, value),
    {
        let (inductive_name, branch_index) = match term {
            Term::Constructor(inductive_name, branch_index) => (inductive_name, branch_index),
            _ => vstd::pervasive::unreached(),
        };
        proof {
            lemma_inductive_shape(self.calls(), self.declarations(), inductive_name@);
        }
        let inductive = self.global.lookup_inductive(inductive_name.as_str());
        let constructor_function = inductive.constructors[*branch_index].llvm_function;
        proof {
            lemma_find_inductive(self.declarations(), inductive_name@);
            let k = find_inductive(self.declarations(), inductive_name@)->0;
            assert(declaration_wf(self.calls(), self.declarations()[k]));
            assert(constructor_wf(
                self.calls(),
                self.declarations()[k]->Inductive_1.constructors[*branch_index as int],
            ));
        }
        let closure = self.empty_closure(
            constructor_function,
            "temp_constructor_empty_captures_struct",
        );
        proof {
            self.lemma_continues(old(self));
            lemma_parent_extends(old(self).calls(), self.calls(), old(self).block());
        }
        closure
    }

    /// Code for a constant: its value. A fixpoint whose own function is being
    /// generated is a closure that holds this function.
    fn codegen_constant_term(
        &mut self,
        term: &Term,
        local: &local::Environment<'ctx>,
        fixpoints: &fixpoint::Environment<'ctx>,
    ) -> (value: PointerValue<'ctx>)
        requires
            *term is Constant,
            old(self).can_generate(*term, local@, fixpoints@),
        ensures
            final(self).generated(old(self), *term, local@, fixpoints@, value),
    {
        let name = match term {
            Term::Constant(name) => name,
            _ => vstd::pervasive::unreached(),
        };
        proof {
            lemma_bindings(fixpoints@, name@);
            lemma_fixpoint_wf(self.calls(), fixpoints@, name@);
            lemma_constant_shape(self.calls(), self.declarations(), name@);
        }
        match fixpoints.lookup(name) {
            Some((_, function)) => {
                let closure = self.empty_closure(function, "temp_fixpoint_empty_captures_struct");
                proof {
                    self.lemma_continues(old(self));
                    lemma_parent_extends(old(self).calls(), self.calls(), old(self).block());
                }
                closure
            },
            None => {
                let value = self.global.lookup_constant_value(name.as_str());
                proof {
                    let i = find_constant(
                        self.declarations(),
                        name@,
                    )->0;
                    assert(declaration_wf(self.calls(), self.declarations()[i]));
                }
                value
            },
        }
    }

    /// Loads the fields of a value of a constructor, after the tag: they are the
    /// variables of a branch.
    fn load_fields(
        &mut self,
        pointer: PointerValue<'ctx>,
        structure: StructType<'ctx>,
        count: usize,
        local: &mut local::Environment<'ctx>,
    )
        requires
            ready(old(self).calls()),
            type_of(pointer) == Ty::Pointer(Box::new(Ty::Named(structure))),
            fields_wf(old(self).calls(), structure),
            fields_typed(old(self).calls(), fields_of(old(self).calls(), structure)),
            count == fields_of(old(self).calls(), structure).len(),
            pointer_here(old(self).calls(), pointer),
            scope_wf(old(self).calls(), old(local)@),
        ensures
            final(self).continues(old(self)),
            final(self).next() == old(self).next() + 2 * (count - 1),
            ready(final(self).calls()),
            position(final(self).calls()) == position(old(self).calls()),
            final(local)@.len() == old(local)@.len() + count - 1,
            final(local)@.take(old(local)@.len() as int) == old(local)@,
            scope_wf(final(self).calls(), final(local)@),
            forall|h: Trace<'ctx>| #[trigger]
                extends(h, final(self).calls()) ==> fields_loaded_at(
                    h,
                    old(self).next(),
                    pointer,
                    count - 1,
                ) && final(local)@ == old(local)@ + loaded_fields(
                    h,
                    old(self).next(),
                    (count - 1) as nat,
                ),
    {
        let ghost at = self.next();
        let ghost scope = local@;
        let ghost calls_0 = self.calls();
        let ghost fields = fields_of(calls_0, structure);
        let mut i: usize = 1;
        while i < count
            invariant
                at == old(self).next(),
                scope == old(local)@,
                calls_0 == old(self).calls(),
                1 <= i <= count <= u32::MAX,
                type_of(pointer) == Ty::Pointer(Box::new(Ty::Named(structure))),
                fields_wf(calls_0, structure),
                fields == fields_of(calls_0, structure),
                fields_typed(calls_0, fields),
                count == fields.len(),
                self.continues(old(self)),
                self.next() == at + 2 * (i - 1),
                ready(self.calls()),
                position(self.calls()) == position(calls_0),
                pointer_here(self.calls(), pointer),
                scope_wf(self.calls(), local@),
                fields_loaded_at(self.calls(), at, pointer, i - 1),
                local@ == scope + loaded_fields(self.calls(), at, (i - 1) as nat),
            decreases count - i,
        {
            let ghost calls_1 = self.calls();
            let ghost before = local@;
            let ghost loaded = loaded_fields(calls_1, at, (i - 1) as nat);
            proof {
                lemma_fields_extends(calls_0, self.calls(), structure);
                lemma_type_extends(calls_0, self.calls(), fields[i as int]);
            }
            let address_name = numbered_name("constructor_field_", i, "_address");
            let field = self.llvm.build_struct_gep(pointer, i as u32, address_name.as_str());
            let name = numbered_name("constructor_field_", i, "");
            let value = self.load_pointer(field, name.as_str());
            local.push(value);
            proof {
                let calls_2 = self.calls();
                lemma_type_extends(calls_0, calls_2, fields[i as int]);
                lemma_scope_same_bodies(calls_1, calls_2, before);
                assert forall|j: int| 0 <= j < local@.len() implies value_wf(
                    calls_2,
                    #[trigger] local@[j],
                ) by {
                    if j < before.len() {
                        assert(value_wf(calls_2, before[j]));
                    }
                }
                assert(loaded_fields(self.calls(), at, i as nat) =~= loaded.push(value));
                assert forall|j: int| 0 <= j < i implies #[trigger] field_loaded_at(
                    self.calls(),
                    at + 2 * j,
                    pointer,
                    j + 1,
                ) by {
                    if j < i - 1 {
                        assert(field_loaded_at(calls_1, at + 2 * j, pointer, j + 1));
                    }
                }
            }
            i = i + 1;
        }
        proof {
            let calls_1 = self.calls();
            assert(local@.take(scope.len() as int) =~= scope);
            assert forall|h: Trace<'ctx>| #[trigger] extends(h, calls_1) implies fields_loaded_at(
                h,
                at,
                pointer,
                count - 1,
            ) && local@ == scope + loaded_fields(h, at, (count - 1) as nat) by {
                assert forall|i: int| 0 <= i < count - 1 implies #[trigger] field_loaded_at(
                    h,
                    at + 2 * i,
                    pointer,
                    i + 1,
                ) by {
                    assert(field_loaded_at(calls_1, at + 2 * i, pointer, i + 1));
                }
                assert(loaded_fields(h, at, (count - 1) as nat) =~= loaded_fields(
                    calls_1,
                    at,
                    (count - 1) as nat,
                ));
            }
        }
    }

    /// Code for a branch of a match: the block where it starts.
    fn codegen_case(
        &mut self,
        inductive_name: &str,
        i: usize,
        branch: &Term,
        scrutinee: PointerValue<'ctx>,
        result: PointerValue<'ctx>,
        after: BasicBlock<'ctx>,
        local: &mut local::Environment<'ctx>,
        fixpoints: &mut fixpoint::Environment<'ctx>,
    ) -> (block: BasicBlock<'ctx>)
        requires
            old(self).wf(),
            ready(old(self).calls()),
            scope_wf(old(self).calls(), old(local)@),
            fixpoints_wf(old(self).calls(), old(fixpoints)@),
            pointer_here(old(self).calls(), scrutinee),
            pointer_here(old(self).calls(), result),
            type_of(result) == Ty::Pointer(Box::new(generic_pointer())),
            parent(old(self).calls(), after) is Some,
            old(self).find_constructors(inductive_name@) matches Some(constructors) && i
                < constructors.len() && compilable(
                old(self).shapes(),
                bindings_of(old(fixpoints)@),
                old(local)@.len() + bound_by_branch(
                    fields_of(old(self).calls(), constructors[i as int].llvm_struct_type).len(),
                ),
                *branch,
            ),
        ensures
            final(local)@ == old(local)@,
            final(fixpoints)@ == old(fixpoints)@,
            final(self).continues(old(self)),
            final(self).wf(),
            final(self).shapes() == old(self).shapes(),
            ready(final(self).calls()),
            final(self).function() == old(self).function(),
            forall|h: Trace<'ctx>| #[trigger]
                extends(h, final(self).calls()) ==> case_at(
                    old(self).declarations(),
                    h,
                    old(self).next(),
                    old(self).find_constructors(inductive_name@)->0[i as int],
                    i as int,
                    *branch,
                    old(local)@,
                    old(fixpoints)@,
                    old(self).function(),
                    scrutinee,
                    result,
                    after,
                ) == Some(final(self).next()) && block_at(h, old(self).next()) == block,
            parent(final(self).calls(), block) is Some,
        decreases *branch, 2nat,
    {
        let ghost at = self.next();
        let ghost scope = local@;
        let ghost bound = fixpoints@;
        let ghost calls_0 = self.calls();
        let ghost constructor = self.find_constructors(inductive_name@)->0[i as int];
        proof {
            lemma_find_inductive(self.declarations(), inductive_name@);
            assert(constructor_wf(calls_0, constructor));
        }
        let structure = self.global.lookup_inductive(
            inductive_name,
        ).constructors[i].llvm_struct_type;
        assert(structure == constructor.llvm_struct_type);
        let function = self.llvm.get_parent(self.llvm.get_insert_block());
        proof {
            lemma_parent_added(calls_0, self.block());
        }
        let block_name = numbered_name("switch_", i, "_case");
        let block = self.llvm.append_basic_block(function, block_name.as_str());
        self.llvm.position_at_end(block);
        proof {
            lemma_pointer_here_extends(calls_0, self.calls(), scrutinee);
            lemma_made_here_extends(calls_0, self.calls(), structure);
        }
        let casted = self.llvm.build_bitcast(
            scrutinee,
            struct_ptr_type(structure),
            "cast_to_inductive_variant_type",
        );
        let ghost calls_1 = self.calls();
        proof {
            self.lemma_continues(old(self));
            lemma_find_inductive(self.declarations(), inductive_name@);
            assert(constructor_wf(calls_1, constructor));
            lemma_fields_extends(calls_0, calls_1, structure);
            lemma_scope_same_bodies(calls_0, calls_1, scope);
        }
        let count = self.llvm.get_field_types(structure).len();
        self.load_fields(casted, structure, count, local);
        let ghost calls_2 = self.calls();
        let ghost inner_scope = local@;
        proof {
            lemma_extends_trans(calls_0, calls_1, calls_2);
            self.lemma_continues(old(self));
            lemma_fixpoints_same_bodies(calls_0, calls_2, bound);
            lemma_parent_extends(calls_1, calls_2, block);
        }
        let ghost before_branch = *self;
        let value = self.codegen_term_helper(branch, local, fixpoints);
        let ghost calls_3 = self.calls();
        let mut j: usize = 1;
        while j < count
            invariant
                1 <= j <= count,
                inner_scope.len() == scope.len() + count - 1,
                local@ == inner_scope.take(inner_scope.len() - (j - 1)),
            decreases count - j,
        {
            local.pop();
            j = j + 1;
            assert(local@ =~= inner_scope.take(inner_scope.len() - (j - 1)));
        }
        proof {
            lemma_extends_trans(calls_0, calls_2, calls_3);
            lemma_pointer_here_extends(calls_0, calls_3, result);
            lemma_parent_extends(calls_0, calls_3, after);
        }
        let casted_value = self.llvm.build_bitcast(
            value,
            self.llvm_pointer_type(),
            "case_expression_value_cast",
        );
        self.llvm.build_store(result, Value::Pointer(casted_value));
        self.llvm.build_unconditional_branch(after);
        proof {
            let calls_4 = self.calls();
            lemma_extends_trans(calls_0, calls_2, calls_3);
            lemma_extends_trans(calls_0, calls_3, calls_4);
            lemma_extends_trans(calls_1, calls_2, calls_3);
            lemma_extends_trans(calls_1, calls_3, calls_4);
            lemma_parent_extends(calls_1, calls_4, block);
            self.lemma_continues(old(self));
            assert forall|h: Trace<'ctx>| #[trigger] extends(h, calls_4) implies case_at(
                self.declarations(),
                h,
                at,
                constructor,
                i as int,
                *branch,
                scope,
                bound,
                function,
                scrutinee,
                result,
                after,
            ) == Some(self.next()) && block_at(h, at) == block by {
                lemma_extends_trans(calls_3, calls_4, h);
                lemma_extends_trans(calls_2, calls_3, h);
                lemma_extends_trans(calls_1, calls_2, h);
                lemma_extends_trans(calls_0, calls_1, h);
                lemma_fields_extends(calls_0, h, structure);
                assert(case_opened_at(h, at, function, scrutinee, structure, i as int));
                assert(case_closed_at(h, calls_3.len() as int, value, result, after));
            }
        }
        block
    }

    /// Code for a match: a switch on the tag of the scrutinee.
    #[verifier::rlimit(60)]
    fn codegen_match(
        &mut self,
        term: &Term,
        local: &mut local::Environment<'ctx>,
        fixpoints: &mut fixpoint::Environment<'ctx>,
    ) -> (value: PointerValue<'ctx>)
        requires
            *term is Match,
            old(self).can_generate(*term, old(local)@, old(fixpoints)@),
        ensures
            final(local)@ == old(local)@,
            final(fixpoints)@ == old(fixpoints)@,
            final(self).generated(old(self), *term, old(local)@, old(fixpoints)@, value),
        decreases *term, 0nat,
    {
        let (inductive_name, scrutinee, branches) = match term {
            Term::Match { inductive_name, scrutinee, branches, .. } => (
                inductive_name,
                scrutinee,
                branches,
            ),
            _ => vstd::pervasive::unreached(),
        };
        let ghost scope = local@;
        let ghost bound = fixpoints@;
        let ghost shapes = self.shapes();
        let ghost calls_0 = self.calls();
        let ghost function_0 = self.function();
        let ghost declarations = self.declarations();
        let ghost constructors = self.find_constructors(inductive_name@)->0;
        let ghost fields = field_counts(calls_0, constructors);
        let ghost inductive = declarations[find_inductive(
            declarations,
            inductive_name@,
        )->0]->Inductive_1;
        proof {
            lemma_inductive_shape(calls_0, declarations, inductive_name@);
            lemma_find_inductive(declarations, inductive_name@);
            assert(declaration_wf(
                calls_0,
                declarations[find_inductive(declarations, inductive_name@)->0],
            ));
        }
        let scrutinee_value = self.codegen_term_helper(scrutinee, local, fixpoints);
        let ghost calls_1 = self.calls();
        let ghost block_1 = self.block();
        let ghost structure = pointee(inductive.llvm_type)->Named_0;
        proof {
            lemma_fields_extends(calls_0, calls_1, structure);
            lemma_made_here_extends(calls_0, calls_1, structure);
        }
        let inductive_type = self.global.lookup_inductive(inductive_name.as_str()).llvm_type;
        let casted_scrutinee = self.llvm.build_bitcast(
            scrutinee_value,
            inductive_type,
            "cast_scrutinee_to_inductive_llvm_type",
        );
        let tag_address = self.llvm.build_struct_gep(
            casted_scrutinee,
            0,
            "address_of_inductive_tag",
        );
        let tag = match self.llvm.build_load(tag_address, "inductive_tag") {
            Value::Int(tag) => tag,
            Value::Pointer(_) => vstd::pervasive::unreached(),
        };
        let result = self.llvm.build_alloca(self.llvm_pointer_type(), "match_expression_value");
        let current_block = self.llvm.get_insert_block();
        let function = self.llvm.get_parent(current_block);
        proof {
            self.lemma_continues(old(self));
            lemma_parent_added(self.calls(), current_block);
        }
        let after = self.llvm.append_basic_block(function, "switch_post_dominator");
        let ghost calls_2 = self.calls();
        proof {
            lemma_extends_trans(calls_0, calls_1, calls_2);
            self.lemma_continues(old(self));
            lemma_pointer_here_extends(calls_1, calls_2, scrutinee_value);
            assert(pointer_here(calls_2, result));
            assert(byte_here(calls_2, tag));
            assert(match_opened_at(
                calls_2,
                calls_1.len() as int,
                function,
                scrutinee_value,
                inductive.llvm_type,
            ));
        }
        let mut cases: Vec<(IntValue<'ctx>, BasicBlock<'ctx>)> = Vec::new();
        assert(switch_cases(cases@) =~= Seq::empty());
        let count = branches.len();
        let mut i: usize = 0;
        while i < count
            invariant
                0 <= i <= count == branches@.len() == fields.len() == constructors.len(),
                decreases_to!(*term => *branches),
                self.continues(old(self)),
                calls_0 == old(self).calls(),
                declarations == old(self).declarations(),
                old(self).wf(),
                self.wf(),
                shapes == old(self).shapes(),
                self.shapes() == shapes,
                scope == old(local)@,
                local@ == scope,
                bound == old(fixpoints)@,
                fixpoints@ == bound,
                scope_wf(calls_0, scope),
                fixpoints_wf(calls_0, bound),
                self.find_constructors(inductive_name@) == Some(constructors),
                fields == field_counts(calls_0, constructors),
                ready(self.calls()),
                self.function() == function,
                pointer_here(calls_2, scrutinee_value),
                pointer_here(calls_2, result),
                type_of(result) == Ty::Pointer(Box::new(generic_pointer())),
                parent(calls_2, after) is Some,
                forall|j: int|
                    0 <= j < cases@.len() ==> is_byte((#[trigger] cases@[j]).0)
                        && parent(self.calls(), cases@[j].1) is Some,
                extends(self.calls(), calls_2),
                extends(calls_2, calls_0),
                branches_compilable(
                    shapes,
                    bindings_of(bound),
                    scope.len(),
                    fields,
                    branches@,
                    count as nat,
                ),
                forall|h: Trace<'ctx>| #[trigger]
                    extends(h, self.calls()) ==> cases_at(
                        declarations,
                        h,
                        calls_2.len() as int,
                        constructors,
                        branches@,
                        i as nat,
                        scope,
                        bound,
                        function,
                        scrutinee_value,
                        result,
                        after,
                    ) == Some(Cases { end: self.next(), cases: switch_cases(cases@) }),
            decreases count - i,
        {
            let ghost calls_3 = self.calls();
            let ghost cases_before = cases@;
            proof {
                lemma_branch_compilable(
                    shapes,
                    bindings_of(bound),
                    scope.len(),
                    fields,
                    branches@,
                    count as nat,
                    i as int,
                );
                lemma_scope_same_bodies(calls_0, calls_3, scope);
                lemma_fixpoints_same_bodies(calls_0, calls_3, bound);
                lemma_pointer_here_extends(calls_2, calls_3, scrutinee_value);
                lemma_pointer_here_extends(calls_2, calls_3, result);
                lemma_parent_extends(calls_2, calls_3, after);
                lemma_inductive_shape(calls_3, declarations, inductive_name@);
                lemma_inductive_shape(calls_0, declarations, inductive_name@);
                assert(fields[i as int] == fields_of(
                    calls_3,
                    constructors[i as int].llvm_struct_type,
                ).len());
            }
            let block = self.codegen_case(
                inductive_name.as_str(),
                i,
                &branches[i],
                scrutinee_value,
                result,
                after,
                local,
                fixpoints,
            );
            let tag_value = const_int(self.llvm.i8_type(), i as u64);
            cases.push((tag_value, block));
            proof {
                let calls_4 = self.calls();
                lemma_extends_trans(calls_0, calls_3, calls_4);
                lemma_extends_trans(calls_2, calls_3, calls_4);
                assert forall|j: int| 0 <= j < cases@.len() implies is_byte(
                    (#[trigger] cases@[j]).0,
                ) && parent(calls_4, cases@[j].1) is Some by {
                    if j < cases_before.len() {
                        assert(cases@[j] == cases_before[j]);
                        lemma_parent_extends(calls_3, calls_4, cases@[j].1);
                    }
                }
                assert(switch_cases(cases@) =~= switch_cases(cases_before).push(
                    (Operand::Int { bits: 8, value: (i as int % 0x100) as nat }, block),
                ));
                assert forall|h: Trace<'ctx>| #[trigger] extends(h, calls_4) implies cases_at(
                    declarations,
                    h,
                    calls_2.len() as int,
                    constructors,
                    branches@,
                    (i + 1) as nat,
                    scope,
                    bound,
                    function,
                    scrutinee_value,
                    result,
                    after,
                ) == Some(Cases { end: self.next(), cases: switch_cases(cases@) }) by {
                    lemma_extends_trans(calls_3, calls_4, h);
                }
            }
            i = i + 1;
        }
        let ghost calls_3 = self.calls();
        let default_function = self.llvm.get_parent(self.llvm.get_insert_block());
        proof {
            lemma_parent_added(calls_3, self.block());
        }
        let default_block = self.llvm.append_basic_block(default_function, "switch_default_case");
        self.llvm.position_at_end(default_block);
        let ghost calls_4 = self.calls();
        self.codegen_exit_with_failure();
        let ghost calls_5 = self.calls();
        proof {
            lemma_extends_trans(calls_2, calls_3, calls_4);
            lemma_extends_trans(calls_2, calls_4, calls_5);
            lemma_extends_trans(calls_1, calls_2, calls_5);
            lemma_parent_extends(calls_1, calls_5, current_block);
            lemma_parent_extends(calls_2, calls_5, after);
            lemma_extends_trans(calls_3, calls_4, calls_5);
            lemma_parent_extends(calls_4, calls_5, default_block);
            lemma_byte_here_extends(calls_2, calls_5, tag);
        }
        self.llvm.position_at_end(current_block);
        proof {
            let calls_6 = self.calls();
            lemma_extends_trans(calls_3, calls_5, calls_6);
            assert forall|j: int| 0 <= j < cases@.len() implies is_byte(
                (#[trigger] cases@[j]).0,
            ) && parent(calls_6, cases@[j].1) is Some by {
                lemma_parent_extends(calls_3, calls_6, cases@[j].1);
            }
        }
        self.llvm.build_switch(tag, default_block, &cases);
        self.llvm.position_at_end(after);
        proof {
            let calls_6 = self.calls();
            lemma_extends_trans(calls_2, calls_5, calls_6);
            lemma_extends_trans(calls_0, calls_2, calls_6);
            self.lemma_continues(old(self));
            lemma_pointer_here_extends(calls_2, calls_6, result);
            assert(value_wf(calls_6, result));
            assert forall|h: Trace<'ctx>| #[trigger] extends(h, calls_6) implies term_at(
                declarations,
                h,
                old(self).next(),
                *term,
                scope,
                bound,
                function_0,
                old(self).block(),
            ) == Some(Emission { end: self.next(), value: result, block: self.block() }) by {
                lemma_extends_trans(calls_5, calls_6, h);
                lemma_extends_trans(calls_4, calls_5, h);
                lemma_extends_trans(calls_3, calls_4, h);
                lemma_extends_trans(calls_2, calls_3, h);
                lemma_extends_trans(calls_1, calls_2, h);
                assert(match_opened_at(
                    h,
                    calls_1.len() as int,
                    function,
                    scrutinee_value,
                    inductive.llvm_type,
                ));
                assert(match_closed_at(
                    h,
                    calls_3.len() as int,
                    function,
                    current_block,
                    calls_1.len() as int + 2,
                    switch_cases(cases@),
                    after,
                ));
            }
        }
        result
    }

    /// Code for a term: the pointer that is its value. The variables have the same
    /// values afterwards.
    pub(crate) fn codegen_term_helper(
        &mut self,
        term: &Term,
        local: &mut local::Environment<'ctx>,
        fixpoints: &mut fixpoint::Environment<'ctx>,
    ) -> (value: PointerValue<'ctx>)
        requires
            old(self).can_generate(*term, old(local)@, old(fixpoints)@),
        ensures
            final(local)@ == old(local)@,
            final(fixpoints)@ == old(fixpoints)@,
            final(self).generated(old(self), *term, old(local)@, old(fixpoints)@, value),
        decreases *term, 1nat,
    {
        match term {
            Term::DeBruijnIndex(debruijn_index) => local.lookup(*debruijn_index),
            Term::Lambda { .. } => self.codegen_lambda(term, None, local, fixpoints),
            Term::Application { .. } => self.codegen_application(term, local, fixpoints),
            Term::Constant(_) => self.codegen_constant_term(term, local, fixpoints),
            Term::Constructor(_, _) => self.codegen_constructor_term(term, local, fixpoints),
            Term::Match { .. } => self.codegen_match(term, local, fixpoints),
            Term::Fixpoint { name, body, .. } => match &**body {
                Term::Lambda { .. } => self.codegen_lambda(body, Some(name), local, fixpoints),
                _ => self.codegen_term_helper(body, local, fixpoints),
            },
            _ => vstd::pervasive::unreached(),
        }
    }
}

} // verus!
