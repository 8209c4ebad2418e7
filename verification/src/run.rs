//! How a module is built and run by the tools of the system.
use vstd::prelude::*;

use crate::text::{decimal, decimal_text};

verus! {

/// The files and commands by which a module is built and run.
pub struct Plan {
    /// The directory of the files.
    pub directory: String,
    /// The file that holds the text of the module.
    pub llvm_ir_file: String,
    /// The compiler.
    pub compiler: String,
    /// The arguments of the compiler.
    pub arguments: Vec<String>,
    /// The command that runs the program.
    pub program: String,
}

/// The file of the program that the thread of this number builds.
pub open spec fn program_file(thread: nat) -> Seq<char> {
    "tests/codegen"@ + "/test_"@ + decimal(thread)
}

fn joined(a: &str, b: &str) -> (text: String)
    ensures
        text@ == a@ + b@,
{
    let mut text = a.to_owned();
    text.append(b);
    text
}

impl Plan {
    /// The compiler reads the file that holds the text of the module, which is in the
    /// directory, and makes the program that is run.
    pub open spec fn is_coherent(&self) -> bool {
        &&& self.arguments@.len() > 1
        &&& self.arguments@[0]@ == self.llvm_ir_file@
        &&& (self.directory@ + "/"@).is_prefix_of(self.llvm_ir_file@)
        &&& exists|output: Seq<char>|
            self.arguments@[1]@ == "-o"@ + output && self.program@ == #[trigger] ("./"@ + output)
    }

    /// The plan for the thread of this number: its files are its own.
    pub fn new(thread: u64) -> (plan: Plan)
        ensures
            plan.directory@ == "tests/codegen"@,
            plan.llvm_ir_file@ == program_file(thread as nat) + ".ll"@,
            plan.compiler@ == "clang"@,
            plan.arguments@.len() == 3,
            plan.arguments@[0]@ == program_file(thread as nat) + ".ll"@,
            plan.arguments@[1]@ == "-o"@ + program_file(thread as nat),
            plan.arguments@[2]@ == "-Wno-override-module"@,
            plan.program@ == "./"@ + program_file(thread as nat),
            plan.is_coherent(),
    {
        let directory = "tests/codegen".to_owned();
        let stem = joined(directory.as_str(), "/test_");
        let digits = decimal_text(thread);
        let file = joined(stem.as_str(), digits.as_str());
        let mut arguments: Vec<String> = Vec::new();
        arguments.push(joined(file.as_str(), ".ll"));
        arguments.push(joined("-o", file.as_str()));
        arguments.push("-Wno-override-module".to_owned());
        proof {
            reveal_strlit("tests/codegen");
            reveal_strlit("/");
            reveal_strlit("/test_");
            let whole = program_file(thread as nat) + ".ll"@;
            assert(("tests/codegen"@ + "/"@).is_prefix_of(whole)) by {
                assert(whole.take(("tests/codegen"@ + "/"@).len() as int) =~= "tests/codegen"@
                    + "/"@);
            }
        }
        Plan {
            directory,
            llvm_ir_file: joined(file.as_str(), ".ll"),
            compiler: "clang".to_owned(),
            arguments,
            program: joined("./", file.as_str()),
        }
    }
}

/// A command went well: it succeeded, and it had nothing to say.
pub fn went_well(success: bool, stdout: &Vec<u8>, stderr: &Vec<u8>) -> (well: bool)
    ensures
        well == (success && stdout@.len() == 0 && stderr@.len() == 0),
{
    success && stdout.len() == 0 && stderr.len() == 0
}

/// What is to be done next with a module.
pub enum Step {
    /// Its text is to be compiled.
    Compile,
    /// The program that came out is to be run.
    Run,
    /// All went well.
    Done,
    /// Something did not go well.
    Failed,
}

/// What comes after a step that has been taken.
pub open spec fn step_after(step: Step, well: bool) -> Step {
    if step is Done || step is Failed {
        step
    } else if !well {
        Step::Failed
    } else if step is Compile {
        Step::Run
    } else {
        Step::Done
    }
}

/// A program is run exactly if it was compiled well, and all is done exactly if it
/// was both compiled and run well. Otherwise it has failed, and stays so.
pub proof fn law_all_steps_must_go_well(compiled: bool, ran: bool, later: bool)
    ensures
        step_after(Step::Compile, compiled) is Run <==> compiled,
        step_after(Step::Compile, compiled) is Failed <==> !compiled,
        step_after(step_after(Step::Compile, compiled), ran) is Done <==> compiled && ran,
        step_after(step_after(Step::Compile, compiled), ran) is Failed <==> !(compiled && ran),
        step_after(step_after(step_after(Step::Compile, compiled), ran), later) == step_after(
            step_after(Step::Compile, compiled),
            ran,
        ),
{
}

/// What is to be done once the step at hand has been taken: a program is run only
/// if it was compiled well.
pub fn next_step(step: Step, well: bool) -> (next: Step)
    ensures
        next == (match step {
            Step::Compile => if well {
                Step::Run
            } else {
                Step::Failed
            },
            Step::Run => if well {
                Step::Done
            } else {
                Step::Failed
            },
            Step::Done => Step::Done,
            Step::Failed => Step::Failed,
        }),
        next == step_after(step, well),
{
    match step {
        Step::Compile if well => Step::Run,
        Step::Run if well => Step::Done,
        Step::Done => Step::Done,
        _ => Step::Failed,
    }
}

/// The files of two threads differ.
pub proof fn law_files_differ(a: nat, b: nat)
    requires
        a != b,
    ensures
        program_file(a) != program_file(b),
{
    lemma_decimal_differs(a, b);
    let stem = "tests/codegen"@ + "/test_"@;
    if program_file(a) == program_file(b) {
        assert(program_file(a).skip(stem.len() as int) =~= decimal(a));
        assert(program_file(b).skip(stem.len() as int) =~= decimal(b));
    }
}

/// Different numbers have different digits.
proof fn lemma_decimal_differs(a: nat, b: nat)
    requires
        a != b,
    ensures
        decimal(a) != decimal(b),
    decreases a + b,
{
    reveal_with_fuel(decimal, 2);
    lemma_decimal_nonempty(a / 10);
    lemma_decimal_nonempty(b / 10);
    if a >= 10 && b >= 10 && a / 10 != b / 10 {
        lemma_decimal_differs(a / 10, b / 10);
    }
    if decimal(a) == decimal(b) {
        assert(decimal(a).last() == decimal(b).last());
        if a >= 10 && b >= 10 {
            assert(decimal(a).drop_last() =~= decimal(a / 10));
            assert(decimal(b).drop_last() =~= decimal(b / 10));
        }
    }
}

proof fn lemma_decimal_nonempty(n: nat)
    ensures
        decimal(n).len() >= 1,
    decreases n,
{
    if n >= 10 {
        lemma_decimal_nonempty(n / 10);
    }
}

} // verus!
