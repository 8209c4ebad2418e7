//! Code for whole programs.
use inkwell::values::{FunctionValue, PointerValue};
use vstd::prelude::*;

use crate::codegen::data::{inductive_at, Declared};
use crate::codegen::emission::{main_at, main_block, main_calls, main_function, term_at, Emission};
use crate::codegen::environment::fixpoint;
use crate::codegen::environment::fixpoint::bindings_of;
use crate::codegen::environment::global::Entry;
use crate::codegen::environment::local;
use crate::codegen::globals::{declaration_wf, shapes_of};
use crate::codegen::shape::{
    compilable, constant_name, declaration_shapes, lemma_program_shapes_some, program_shapes,
};
use crate::codegen::Context;
use crate::hir::ir::{Declaration, HIR, Name, Term};
use crate::llvm::session::{const_int, Value};
use crate::llvm::trace::{
    extends, group_here, group_trace_push, is_new, last_block, lemma_extends_trans,
    lemma_last_block_parent, made, parent, ready, Operand, Request, Trace,
};

verus! {

broadcast use {group_here, group_trace_push};

/// The declarations that have been compiled once `term` has: its value can be
/// found if it has a name.
pub open spec fn with_constant<'ctx>(
    declarations: Seq<Entry<'ctx>>,
    term: Term,
    llvm_value: PointerValue<'ctx>,
) -> Seq<Entry<'ctx>> {
    match constant_name(term) {
        Some(name) => declarations.push(Entry::Constant { name, llvm_value }),
        None => declarations,
    }
}

/// The calls for a declaration, from call `at` on: code goes into the last block
/// of `main`.
pub open spec fn declaration_at<'ctx>(
    declarations: Seq<Entry<'ctx>>,
    t: Trace<'ctx>,
    at: int,
    main: FunctionValue<'ctx>,
    declaration: Declaration,
) -> Option<Declared<'ctx>> {
    let block = last_block(t.take(at), main)->0;
    if !made(t, at, Request::PositionAtEnd { block }) {
        None
    } else {
        match declaration {
            Declaration::Constant(term) => match term_at(
                declarations,
                t,
                at + 1,
                term,
                Seq::empty(),
                Seq::empty(),
                parent(t.take(at), block)->0,
                block,
            ) {
                Some(compiled) => Some(
                    Declared {
                        end: compiled.end,
                        declarations: with_constant(declarations, term, compiled.value),
                    },
                ),
                None => None,
            },
            Declaration::Inductive(inductive) => inductive_at(declarations, t, at + 1, inductive),
        }
    }
}

/// The calls for the first `n` declarations of a program.
pub open spec fn declarations_at<'ctx>(
    declarations: Seq<Entry<'ctx>>,
    t: Trace<'ctx>,
    at: int,
    main: FunctionValue<'ctx>,
    program: Seq<Declaration>,
    n: nat,
) -> Option<Declared<'ctx>>
    decreases n,
{
    if n == 0 || n > program.len() {
        Some(Declared { end: at, declarations })
    } else {
        match declarations_at(declarations, t, at, main, program, (n - 1) as nat) {
            Some(before) => declaration_at(
                before.declarations,
                t,
                before.end,
                main,
                program[n - 1],
            ),
            None => None,
        }
    }
}

/// `main` returns zero, at the end of its last block.
pub open spec fn main_returned_at<'ctx>(
    t: Trace<'ctx>,
    at: int,
    main: FunctionValue<'ctx>,
) -> bool {
    &&& made(t, at, Request::PositionAtEnd { block: last_block(t.take(at), main)->0 })
    &&& made(t, at + 1, Request::Return { value: Operand::Int { bits: 32, value: 0 } })
}

/// The calls for a program, from call `at` on: `main` is added if there is none,
/// the declarations are compiled in order, and `main` returns zero.
pub open spec fn program_at<'ctx>(
    declarations: Seq<Entry<'ctx>>,
    t: Trace<'ctx>,
    at: int,
    existing: Option<FunctionValue<'ctx>>,
    hir: HIR,
) -> Option<Declared<'ctx>> {
    let main = main_function(t, at, existing);
    match declarations_at(
        declarations,
        t,
        at + main_calls(existing),
        main,
        hir.declarations@,
        hir.declarations@.len(),
    ) {
        Some(compiled) => if main_at(t, at, existing) && main_returned_at(t, compiled.end, main) {
            Some(Declared { end: compiled.end + 2, ..compiled })
        } else {
            None
        },
        None => None,
    }
}

impl<'ctx> Context<'ctx> {
    /// Code for a program.
    ///
    /// The result is what LLVM says of the module that was generated.
    pub fn codegen_hir(&mut self, hir: &HIR) -> (verdict: Result<(), String>)
        requires
            old(self).wf(),
            program_shapes(
                old(self).shapes(),
                hir.declarations@,
                hir.declarations@.len(),
            ) is Some,
        ensures
            extends(final(self).calls(), old(self).calls()),
            final(self).wf(),
            program_shapes(old(self).shapes(), hir.declarations@, hir.declarations@.len()) == Some(
                final(self).shapes(),
            ),
            final(self).entry_point() == Some(
                main_function(final(self).calls(), old(self).next(), old(self).entry_point()),
            ),
            old(self).entry_point() is None ==> is_new(
                old(self).calls(),
                final(self).entry_point()->0,
            ),
            forall|h: Trace<'ctx>| #[trigger]
                extends(h, final(self).calls()) ==> program_at(
                    old(self).declarations(),
                    h,
                    old(self).next(),
                    old(self).entry_point(),
                    *hir,
                ) == Some(
                    Declared { end: final(self).next(), declarations: final(self).declarations() },
                ),
            match verdict {
                Ok(_) => final(self).verdict() == Ok::<(), Seq<char>>(()),
                Err(message) => final(self).verdict() == Err::<(), Seq<char>>(message@),
            },
    {
        let ghost at = self.next();
        let ghost existing = self.entry_point();
        let ghost calls_0 = self.calls();
        let ghost declarations_0 = self.declarations();
        self.codegen_main();
        let ghost calls_1 = self.calls();
        assert(extends(calls_1, calls_1));
        let ghost main = self.entry_point()->0;
        self.codegen_declarations(&hir.declarations);
        let ghost calls_2 = self.calls();
        let ghost before_return = *self;
        self.codegen_main_return();
        proof {
            let calls_3 = self.calls();
            lemma_extends_trans(calls_0, calls_1, calls_2);
            lemma_extends_trans(calls_0, calls_2, calls_3);
            lemma_extends_trans(calls_1, calls_2, calls_3);
            self.lemma_continues(&before_return);
            assert forall|h: Trace<'ctx>| #[trigger] extends(h, calls_3) implies program_at(
                declarations_0,
                h,
                at,
                existing,
                *hir,
            ) == Some(Declared { end: self.next(), declarations: self.declarations() })
                && main_function(h, at, existing) == main by {
                lemma_extends_trans(calls_2, calls_3, h);
                lemma_extends_trans(calls_1, calls_2, h);
                assert(main_function(h, at, existing) == main);
            }
            assert(extends(calls_3, calls_3));
        }
        self.llvm.verify()
    }

    /// `main` returns zero.
    fn codegen_main_return(&mut self)
        requires
            old(self).wf(),
            old(self).entry_point() is Some,
        ensures
            final(self).continues(old(self)),
            final(self).next() == old(self).next() + 2,
            forall|h: Trace<'ctx>| #[trigger]
                extends(h, final(self).calls()) ==> main_returned_at(
                    h,
                    old(self).next(),
                    old(self).entry_point()->0,
                ),
    {
        let ghost calls_0 = self.calls();
        self.position_in_main();
        let ghost calls_1 = self.calls();
        self.llvm.build_return(Value::Int(const_int(self.llvm.i32_type(), 0)));
        proof {
            let calls_2 = self.calls();
            lemma_extends_trans(calls_0, calls_1, calls_2);
            assert forall|h: Trace<'ctx>| #[trigger] extends(h, calls_2) implies main_returned_at(
                h,
                old(self).next(),
                old(self).entry_point()->0,
            ) by {
                lemma_extends_trans(calls_1, calls_2, h);
                lemma_extends_trans(calls_0, calls_1, h);
                assert(h.take(calls_0.len() as int) =~= calls_0);
            }
        }
    }

    /// Code for declarations, one after the other.
    fn codegen_declarations(&mut self, declarations: &Vec<Declaration>)
        requires
            old(self).wf(),
            old(self).entry_point() is Some,
            program_shapes(old(self).shapes(), declarations@, declarations@.len()) is Some,
        ensures
            extends(final(self).calls(), old(self).calls()),
            final(self).wf(),
            program_shapes(old(self).shapes(), declarations@, declarations@.len()) == Some(
                final(self).shapes(),
            ),
            final(self).entry_point() == old(self).entry_point(),
            forall|h: Trace<'ctx>| #[trigger]
                extends(h, final(self).calls()) ==> declarations_at(
                    old(self).declarations(),
                    h,
                    old(self).next(),
                    old(self).entry_point()->0,
                    declarations@,
                    declarations@.len(),
                ) == Some(
                    Declared { end: final(self).next(), declarations: final(self).declarations() },
                ),
    {
        let ghost at = self.next();
        let ghost calls_1 = self.calls();
        let ghost declarations_0 = self.declarations();
        let ghost shapes_0 = self.shapes();
        let ghost main = self.entry_point()->0;
        let count = declarations.len();
        let mut i: usize = 0;
        while i < count
            invariant
                0 <= i <= count == declarations@.len(),
                extends(self.calls(), calls_1),
                self.wf(),
                self.entry_point() == Some(main),
                program_shapes(shapes_0, declarations@, count as nat) is Some,
                program_shapes(shapes_0, declarations@, i as nat) == Some(self.shapes()),
                forall|h: Trace<'ctx>| #[trigger]
                    extends(h, self.calls()) ==> declarations_at(
                        declarations_0,
                        h,
                        at,
                        main,
                        declarations@,
                        i as nat,
                    ) == Some(Declared { end: self.next(), declarations: self.declarations() }),
            decreases count - i,
        {
            let ghost calls_2 = self.calls();
            proof {
                lemma_program_shapes_some(shapes_0, declarations@, (i + 1) as nat, count as nat);
            }
            self.codegen_declaration(&declarations[i]);
            proof {
                let calls_3 = self.calls();
                lemma_extends_trans(calls_1, calls_2, calls_3);
                assert forall|h: Trace<'ctx>| #[trigger] extends(
                    h,
                    calls_3,
                ) implies declarations_at(
                    declarations_0,
                    h,
                    at,
                    main,
                    declarations@,
                    (i + 1) as nat,
                ) == Some(Declared { end: self.next(), declarations: self.declarations() }) by {
                    lemma_extends_trans(calls_2, calls_3, h);
                }
            }
            i = i + 1;
        }
    }

    /// Code goes on in the last block of `main`.
    fn position_in_main(&mut self)
        requires
            old(self).wf(),
            old(self).entry_point() is Some,
        ensures
            final(self).continues(old(self)),
            final(self).next() == old(self).next() + 1,
            ready(final(self).calls()),
            final(self).block() == last_block(old(self).calls(), old(self).entry_point()->0)->0,
            final(self).function() == parent(old(self).calls(), final(self).block())->0,
            forall|h: Trace<'ctx>| #[trigger]
                extends(h, final(self).calls()) ==> made(
                    h,
                    old(self).next(),
                    Request::PositionAtEnd { block: final(self).block() },
                ),
    {
        let main = match self.llvm.get_function("main") {
            Some(main) => main,
            None => vstd::pervasive::unreached(),
        };
        proof {
            lemma_last_block_parent(self.calls(), main);
        }
        let block = self.llvm.get_last_basic_block(main);
        self.llvm.position_at_end(block);
    }

    /// Code for a declaration, in the last block of `main`.
    fn codegen_declaration(&mut self, declaration: &Declaration)
        requires
            old(self).wf(),
            old(self).entry_point() is Some,
            declaration_shapes(old(self).shapes(), *declaration) is Some,
        ensures
            extends(final(self).calls(), old(self).calls()),
            final(self).wf(),
            declaration_shapes(old(self).shapes(), *declaration) == Some(final(self).shapes()),
            final(self).entry_point() == old(self).entry_point(),
            forall|h: Trace<'ctx>| #[trigger]
                extends(h, final(self).calls()) ==> declaration_at(
                    old(self).declarations(),
                    h,
                    old(self).next(),
                    old(self).entry_point()->0,
                    *declaration,
                ) == Some(
                    Declared { end: final(self).next(), declarations: final(self).declarations() },
                ),
    {
        let ghost at = self.next();
        let ghost main = self.entry_point()->0;
        let ghost calls_0 = self.calls();
        let ghost declarations_0 = self.declarations();
        let ghost shapes_0 = self.shapes();
        self.position_in_main();
        let ghost calls_1 = self.calls();
        proof {
            self.lemma_continues(old(self));
        }
        match declaration {
            Declaration::Constant(term) => {
                let mut local = local::Environment::new();
                let mut fixpoints = fixpoint::Environment::new();
                assert(bindings_of(fixpoints@) =~= Seq::empty());
                let llvm_value = self.codegen_term_helper(term, &mut local, &mut fixpoints);
                let ghost calls_2 = self.calls();
                match term {
                    Term::Lambda { name: Name::Named(name), .. } => {
                        self.global.push_constant_value(name.clone(), llvm_value);
                    },
                    Term::Fixpoint { name, .. } => {
                        self.global.push_constant_value(name.clone(), llvm_value);
                    },
                    _ => {},
                }
                proof {
                    lemma_extends_trans(calls_0, calls_1, calls_2);
                    assert(self.declarations() == with_constant(
                        declarations_0,
                        *term,
                        llvm_value,
                    ));
                    assert forall|j: int| 0 <= j < self.declarations().len() implies declaration_wf(
                        calls_2,
                        #[trigger] self.declarations()[j],
                    ) by {
                        if j < declarations_0.len() {
                            assert(declaration_wf(calls_2, declarations_0[j]));
                        }
                    }
                    assert(declaration_shapes(shapes_0, *declaration)->0 =~= shapes_of(
                        calls_2,
                        self.declarations(),
                    ));
                }
            },
            Declaration::Inductive(inductive) => {
                self.codegen_inductive(inductive);
                proof {
                    lemma_extends_trans(calls_0, calls_1, self.calls());
                }
            },
        }
        proof {
            let calls_2 = self.calls();
            assert forall|h: Trace<'ctx>| #[trigger] extends(h, calls_2) implies declaration_at(
                declarations_0,
                h,
                at,
                main,
                *declaration,
            ) == Some(Declared { end: self.next(), declarations: self.declarations() }) by {
                lemma_extends_trans(calls_1, calls_2, h);
                lemma_extends_trans(calls_0, calls_1, h);
                assert(h.take(at) =~= calls_0);
            }
        }
    }

    /// Code for a term, in `main`, which is added if there is none: the pointer
    /// that is its value.
    pub fn codegen_term(&mut self, term: &Term) -> (value: PointerValue<'ctx>)
        requires
            old(self).wf(),
            compilable(old(self).shapes(), Seq::empty(), 0, *term),
        ensures
            extends(final(self).calls(), old(self).calls()),
            final(self).declarations() == old(self).declarations(),
            final(self).wf(),
            final(self).shapes() == old(self).shapes(),
            ready(final(self).calls()),
            final(self).entry_point() == Some(
                main_function(final(self).calls(), old(self).next(), old(self).entry_point()),
            ),
            forall|h: Trace<'ctx>| #[trigger]
                extends(h, final(self).calls()) ==> main_at(
                    h,
                    old(self).next(),
                    old(self).entry_point(),
                ) && term_at(
                    old(self).declarations(),
                    h,
                    old(self).next() + main_calls(old(self).entry_point()),
                    *term,
                    Seq::empty(),
                    Seq::empty(),
                    final(self).function(),
                    main_block(h, old(self).next(), old(self).entry_point()),
                ) == Some(
                    Emission { end: final(self).next(), value, block: final(self).block() },
                ),
            old(self).entry_point() is None ==> final(self).entry_point() == Some(
                final(self).function(),
            ) && is_new(old(self).calls(), final(self).function()),
    {
        let ghost at = self.next();
        let ghost existing = self.entry_point();
        let ghost calls_0 = self.calls();
        self.codegen_main();
        let ghost calls_1 = self.calls();
        let ghost block_1 = self.block();
        let ghost main = self.entry_point()->0;
        let mut local = local::Environment::new();
        let mut fixpoints = fixpoint::Environment::new();
        assert(bindings_of(fixpoints@) =~= Seq::empty());
        let value = self.codegen_term_helper(term, &mut local, &mut fixpoints);
        proof {
            let calls_2 = self.calls();
            lemma_extends_trans(calls_0, calls_1, calls_2);
            assert forall|h: Trace<'ctx>| #[trigger] extends(h, calls_2) implies main_at(
                h,
                at,
                existing,
            ) && main_block(h, at, existing) == block_1 && main_function(h, at, existing)
                == main by {
                lemma_extends_trans(calls_1, calls_2, h);
            }
            assert(extends(calls_2, calls_2));
        }
        value
    }
}

} // verus!
