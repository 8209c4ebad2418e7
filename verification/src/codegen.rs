//! The code generator.
use inkwell::basic_block::BasicBlock;
use inkwell::context::Context as InkwellContext;
use inkwell::module::Module;
use inkwell::values::{FunctionValue, PointerValue};
use vstd::prelude::*;

use crate::codegen::emission::{term_at, Emission};
use crate::codegen::environment::fixpoint::{bindings_of, Recursion};
use crate::codegen::environment::global::{find_constructors, Entry, Member};
use crate::codegen::globals::{
    declarations_wf, fixpoints_wf, lemma_declarations_same_bodies, scope_wf, shapes_of, value_wf,
};
use crate::codegen::shape::{compilable, Shape};
use crate::hir::ir::Term;
use crate::llvm::session::{calls, function_named, printed, verification, Llvm};
use crate::llvm::trace::{
    extends, last_block, lemma_last_block_extends, orderly, parent, position, ready, same_bodies,
    Answer, Call, Request, Trace,
};

pub mod capture;
pub mod compilable;
pub mod data;
pub mod emission;
pub mod environment;
pub mod globals;
pub mod inductives;
pub mod pieces;
pub mod program;
pub mod search;
pub mod shape;
pub mod terms;

verus! {

/// A module under construction, and what has been compiled into it.
pub struct Context<'ctx> {
    llvm: Llvm<'ctx>,
    global: environment::global::Environment<'ctx>,
}

impl<'ctx> Context<'ctx> {
    /// The calls made on LLVM.
    pub closed spec fn calls(&self) -> Trace<'ctx> {
        calls(self.llvm)
    }

    /// The number of the next call.
    pub open spec fn next(&self) -> int {
        self.calls().len() as int
    }

    /// The declarations that have been compiled.
    pub closed spec fn declarations(&self) -> Seq<Entry<'ctx>> {
        self.global@
    }

    /// The function where the program starts.
    pub closed spec fn entry_point(&self) -> Option<FunctionValue<'ctx>> {
        function_named(self.llvm, "main"@)
    }

    /// What LLVM says of the module when asked to verify it.
    pub open spec fn verdict(&self) -> Result<(), Seq<char>> {
        verification(self.calls())
    }

    /// The text of the module.
    pub open spec fn text(&self) -> Seq<char> {
        printed(self.calls())
    }

    /// The module.
    pub closed spec fn module_handle(&self) -> Module<'ctx> {
        self.llvm.module_handle()
    }

    /// What is known of the declarations.
    pub open spec fn shapes(&self) -> Seq<Shape> {
        shapes_of(self.calls(), self.declarations())
    }

    /// What the environment holds agrees with what LLVM was asked for; the function
    /// where the program starts has a block, if there is such a function; no
    /// function was added and no structure was made twice; and blocks were appended
    /// only to functions that were added here.
    pub open spec fn wf(&self) -> bool {
        &&& declarations_wf(self.calls(), self.declarations())
        &&& self.entry_point() matches Some(main) ==> last_block(self.calls(), main) is Some
        &&& orderly(self.calls())
    }

    /// The constructors of the inductive type that `name` stands for.
    pub open spec fn find_constructors(&self, name: Seq<char>) -> Option<Seq<Member<'ctx>>> {
        find_constructors(self.declarations(), name)
    }

    /// Calls were added; the declarations and the structures are as they were.
    pub open spec fn proceeds(&self, before: &Self) -> bool {
        &&& extends(self.calls(), before.calls())
        &&& same_bodies(before.calls(), self.calls())
        &&& self.declarations() == before.declarations()
        &&& orderly(before.calls()) ==> orderly(self.calls())
    }

    /// Calls were added; the declarations, the structures and the function where
    /// the program starts are as they were.
    pub open spec fn continues(&self, before: &Self) -> bool {
        &&& self.proceeds(before)
        &&& self.entry_point() == before.entry_point()
    }

    /// The block at whose end code goes on.
    pub open spec fn block(&self) -> BasicBlock<'ctx> {
        position(self.calls())->0
    }

    /// The function that holds this block.
    pub open spec fn function(&self) -> FunctionValue<'ctx> {
        parent(self.calls(), self.block())->0
    }

    /// Code can be generated for the term here, where the variables have the values
    /// in `scope` and the functions of `fixpoints` are being generated.
    pub open spec fn can_generate(
        &self,
        term: Term,
        scope: Seq<PointerValue<'ctx>>,
        fixpoints: Seq<Recursion<'ctx>>,
    ) -> bool {
        &&& self.wf()
        &&& ready(self.calls())
        &&& scope_wf(self.calls(), scope)
        &&& fixpoints_wf(self.calls(), fixpoints)
        &&& compilable(self.shapes(), bindings_of(fixpoints), scope.len(), term)
    }

    /// Exactly the code of `term` was generated since `before`, whatever is called
    /// later on, and `value` is its value.
    pub open spec fn generated(
        &self,
        before: &Self,
        term: Term,
        scope: Seq<PointerValue<'ctx>>,
        fixpoints: Seq<Recursion<'ctx>>,
        value: PointerValue<'ctx>,
    ) -> bool {
        &&& self.continues(before)
        &&& self.wf()
        &&& self.shapes() == before.shapes()
        &&& ready(self.calls())
        &&& self.function() == before.function()
        &&& value_wf(self.calls(), value)
        &&& forall|h: Trace<'ctx>| #[trigger]
            extends(h, self.calls()) ==> term_at(
                before.declarations(),
                h,
                before.next(),
                term,
                scope,
                fixpoints,
                before.function(),
                before.block(),
            ) == Some(Emission { end: self.next(), value, block: self.block() })
    }

    /// A context that continues a well-formed one is well formed, and knows the
    /// same.
    pub proof fn lemma_continues(&self, before: &Self)
        requires
            before.wf(),
            self.continues(before),
        ensures
            self.wf(),
            self.shapes() == before.shapes(),
    {
        lemma_declarations_same_bodies(before.calls(), self.calls(), self.declarations());
        if let Some(main) = self.entry_point() {
            lemma_last_block_extends(before.calls(), self.calls(), main);
        }
    }

    /// A context for a new, empty module.
    pub fn build(inkwell_context: &'ctx InkwellContext) -> (context: Context<'ctx>)
        ensures
            context.wf(),
            context.calls() == seq![
                Call { request: Request::CreateModule { name: "koi"@ }, answer: Answer::Done },
            ],
            context.declarations() == Seq::<Entry<'ctx>>::empty(),
            context.shapes() == Seq::<Shape>::empty(),
            context.entry_point() is None,
    {
        Context {
            llvm: Llvm::create(inkwell_context, "koi"),
            global: environment::global::Environment::new(),
        }
    }

    /// The module, which nothing is compiled into any more.
    pub fn into_module(self) -> (module: Module<'ctx>)
        ensures
            module == self.module_handle(),
    {
        self.llvm.into_module()
    }

    /// The text of the module, in LLVM's own language.
    pub fn llvm_ir(&self) -> (text: String)
        ensures
            text@ == self.text(),
    {
        self.llvm.print_to_string()
    }
}

} // verus!
