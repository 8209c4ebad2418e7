//! What the code of a program is for: its declarations are compiled one after the
//! other, in `main`, and those that have a name can be mentioned by it.
use inkwell::basic_block::BasicBlock;
use inkwell::values::{FunctionValue, PointerValue};
use vstd::prelude::*;

use crate::codegen::data::{inductive_at, Declared};
use crate::codegen::emission::{main_at, main_block, main_calls, main_function, term_at};
use crate::codegen::environment::global::Entry;
use crate::codegen::program::{declaration_at, declarations_at, program_at, with_constant};
use crate::hir::ir::{Declaration, HIR, Name, Term};
use crate::laws::flow::{is_added_as, is_appended, lemma_moves, runs_on, stands};
use crate::llvm::trace::{block_at, last_block, parent, Answer, Operand, Request, Trace, Ty};

verus! {

/// The term is declared under this name.
pub open spec fn is_named(term: Term, name: Seq<char>) -> bool {
    match term {
        Term::Lambda { name: Name::Named(given), .. } => given@ == name,
        Term::Fixpoint { name: given, .. } => given@ == name,
        _ => false,
    }
}

/// What is declared after a term: what was before, and the value of the term under
/// its name, if it has one.
pub open spec fn is_declared<'ctx>(
    before: Seq<Entry<'ctx>>,
    term: Term,
    value: PointerValue<'ctx>,
    after: Seq<Entry<'ctx>>,
) -> bool {
    &&& before.is_prefix_of(after)
    &&& forall|name: Seq<char>| #[trigger]
        is_named(term, name) ==> after.len() == before.len() + 1 && after.last()
            == (Entry::Constant { name, llvm_value: value })
    &&& (forall|name: Seq<char>| !#[trigger] is_named(term, name)) ==> after == before
}

/// The calls from `lo` to `hi` are those for a declaration, whose code starts in the
/// last block of `main`.
pub open spec fn is_declaration<'ctx>(
    before: Seq<Entry<'ctx>>,
    t: Trace<'ctx>,
    lo: int,
    hi: int,
    main: FunctionValue<'ctx>,
    declaration: Declaration,
    after: Seq<Entry<'ctx>>,
) -> bool {
    match declaration {
        Declaration::Constant(term) => {
            let block = last_block(t.take(lo), main)->0;
            stands(t, lo + 1, block) && (term_at(
                before,
                t,
                lo + 1,
                term,
                Seq::empty(),
                Seq::empty(),
                parent(t.take(lo), block)->0,
                block,
            ) matches Some(compiled) && compiled.end == hi && is_declared(
                before,
                term,
                compiled.value,
                after,
            ))
        },
        Declaration::Inductive(inductive) => inductive_at(before, t, lo + 1, inductive) == Some(
            Declared { end: hi, declarations: after },
        ),
    }
}

/// The declarations of a program are compiled in order: declaration `i` knows the
/// ones before it, and code for it starts where theirs ends.
pub open spec fn is_compiled<'ctx>(
    t: Trace<'ctx>,
    main: FunctionValue<'ctx>,
    program: Seq<Declaration>,
    starts: Seq<int>,
    known: Seq<Seq<Entry<'ctx>>>,
) -> bool {
    &&& starts.len() == program.len() + 1
    &&& known.len() == program.len() + 1
    &&& forall|i: int|
        0 <= i < program.len() ==> #[trigger] is_declaration(
            known[i],
            t,
            starts[i],
            starts[i + 1],
            main,
            program[i],
            known[i + 1],
        )
}

proof fn lemma_declared<'ctx>(
    before: Seq<Entry<'ctx>>,
    t: Trace<'ctx>,
    at: int,
    main: FunctionValue<'ctx>,
    declaration: Declaration,
)
    requires
        declaration_at(before, t, at, main, declaration) is Some,
    ensures
        ({
            let after = declaration_at(before, t, at, main, declaration)->0;
            is_declaration(before, t, at, after.end, main, declaration, after.declarations)
        }),
{
    let after = declaration_at(before, t, at, main, declaration)->0;
    let block = last_block(t.take(at), main)->0;
    lemma_moves(t, at, block);
    if let Declaration::Constant(term) = declaration {
        let function = parent(t.take(at), block)->0;
        let compiled = term_at(
            before,
            t,
            at + 1,
            term,
            Seq::empty(),
            Seq::empty(),
            function,
            block,
        )->0;
        assert(after.declarations == with_constant(before, term, compiled.value));
        match term {
            Term::Lambda { name: Name::Named(name), .. } => {
                assert(is_named(term, name@));
            },
            Term::Fixpoint { name, .. } => {
                assert(is_named(term, name@));
            },
            _ => {},
        }
        assert(is_declared(before, term, compiled.value, after.declarations));
    }
}

proof fn lemma_compiled<'ctx>(
    declarations: Seq<Entry<'ctx>>,
    t: Trace<'ctx>,
    at: int,
    main: FunctionValue<'ctx>,
    program: Seq<Declaration>,
    n: nat,
    i: int,
)
    requires
        0 <= i < n <= program.len(),
        declarations_at(declarations, t, at, main, program, n) is Some,
    ensures
        ({
            let before = declarations_at(declarations, t, at, main, program, i as nat);
            let after = declarations_at(declarations, t, at, main, program, (i + 1) as nat);
            &&& before is Some
            &&& after is Some
            &&& is_declaration(
                before->0.declarations,
                t,
                before->0.end,
                after->0.end,
                main,
                program[i],
                after->0.declarations,
            )
        }),
    decreases n,
{
    if i < n - 1 {
        lemma_compiled(declarations, t, at, main, program, (n - 1) as nat, i);
    } else {
        let before = declarations_at(declarations, t, at, main, program, i as nat)->0;
        lemma_declared(before.declarations, t, before.end, main, program[i]);
    }
}

/// A program compiles its declarations in order, in `main`, and then returns zero.
/// `main` takes nothing and gives a 32-bit integer; it is added if there is none.
pub proof fn law_program_compiles_its_declarations<'ctx>(
    declarations: Seq<Entry<'ctx>>,
    t: Trace<'ctx>,
    at: int,
    existing: Option<FunctionValue<'ctx>>,
    hir: HIR,
)
    requires
        program_at(declarations, t, at, existing, hir) is Some,
    ensures
        ({
            let program = hir.declarations@;
            let compiled = program_at(declarations, t, at, existing, hir)->0;
            exists|
                main: FunctionValue<'ctx>,
                starts: Seq<int>,
                known: Seq<Seq<Entry<'ctx>>>,
            |
                {
                    &&& #[trigger] is_compiled(t, main, program, starts, known)
                    &&& known[0] == declarations
                    &&& known[program.len() as int] == compiled.declarations
                    &&& runs_on(t, at, starts[0])
                    &&& match existing {
                        Some(function) => main == function,
                        None => is_added_as(
                            t,
                            at,
                            starts[0],
                            "main"@,
                            Ty::Function(Box::new(Ty::I32), Seq::empty()),
                            main,
                        ) && exists|entry: BasicBlock<'ctx>| #[trigger]
                            is_appended(t, at, starts[0], main, entry),
                    }
                    &&& compiled.end == starts[program.len() as int] + 2
                    &&& stands(
                        t,
                        compiled.end - 1,
                        last_block(t.take(compiled.end - 2), main)->0,
                    )
                    &&& t[compiled.end - 1].request == (Request::Return {
                        value: Operand::Int { bits: 32, value: 0 },
                    })
                }
        }),
{
    let program = hir.declarations@;
    let n = program.len();
    let compiled = program_at(declarations, t, at, existing, hir)->0;
    let main = main_function(t, at, existing);
    let entered = at + main_calls(existing);
    let starts = Seq::new(
        n + 1,
        |i: int| declarations_at(declarations, t, entered, main, program, i as nat)->0.end,
    );
    let known = Seq::new(
        n + 1,
        |i: int|
            declarations_at(declarations, t, entered, main, program, i as nat)->0.declarations,
    );
    assert forall|i: int| 0 <= i < n implies #[trigger] is_declaration(
        known[i],
        t,
        starts[i],
        starts[i + 1],
        main,
        program[i],
        known[i + 1],
    ) by {
        lemma_compiled(declarations, t, entered, main, program, n, i);
    }
    assert(is_compiled(t, main, program, starts, known));
    let end = starts[n as int];
    lemma_moves(t, end, last_block(t.take(end), main)->0);
    if existing is None {
        assert(t[at].answer == Answer::Function(main));
        assert(t[at + 1].answer == Answer::Block(block_at(t, at + 1)));
        assert(is_appended(t, at, starts[0], main, block_at(t, at + 1)));
    }
}

/// Code that is not part of another declaration goes into `main`: into its last
/// block, or, if there is no `main`, into the first block of a new one.
pub proof fn law_code_goes_into_main<'ctx>(
    t: Trace<'ctx>,
    at: int,
    existing: Option<FunctionValue<'ctx>>,
)
    requires
        main_at(t, at, existing),
    ensures
        ({
            let begun = at + main_calls(existing);
            let main = main_function(t, at, existing);
            let block = main_block(t, at, existing);
            &&& at <= begun <= t.len()
            &&& runs_on(t, at, begun)
            &&& stands(t, begun, block)
            &&& match existing {
                Some(function) => main == function && last_block(t.take(at), main)->0 == block,
                None => is_added_as(
                    t,
                    at,
                    begun,
                    "main"@,
                    Ty::Function(Box::new(Ty::I32), Seq::empty()),
                    main,
                ) && is_appended(t, at, begun, main, block) && last_block(t.take(begun), main)
                    == Some(block),
            }
        }),
{
    let begun = at + main_calls(existing);
    let main = main_function(t, at, existing);
    let block = main_block(t, at, existing);
    lemma_moves(t, begun - 1, block);
    if existing is None {
        assert(t[at].answer == Answer::Function(main));
        assert(t[at + 1].answer == Answer::Block(block));
        let appended = t.take(at + 2);
        assert(appended.last() == t[at + 1]);
        assert(last_block(appended, main) == Some(block));
        assert(t.take(begun).drop_last() =~= appended);
        assert(t.take(begun).last() == t[at + 2]);
    }
}

} // verus!
