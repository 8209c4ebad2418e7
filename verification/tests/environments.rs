//! The environments, the intermediate representation and the names.
use inkwell::context::Context as InkwellContext;
use inkwell::AddressSpace;
use koi::codegen::environment::{fixpoint, global, local};
use koi::hir::ir::{debruijn_index_lookup, debruijn_index_lookup_mut};
use koi::run::{next_step, went_well, Plan, Step};
use koi::text::numbered_name;

#[test]
fn bound_variables() {
    let context = InkwellContext::create();
    let a = context.i8_type().ptr_type(AddressSpace::default()).const_null();
    let b = context.i16_type().ptr_type(AddressSpace::default()).const_null();
    let c = context.i32_type().ptr_type(AddressSpace::default()).const_null();
    assert_ne!(a, b);

    let mut environment = local::Environment::new();
    environment.push(a);
    environment.push(b);
    assert_eq!(environment.lookup(0), b);
    assert_eq!(environment.lookup(1), a);

    environment.push(c);
    assert_eq!(environment.lookup(0), c);
    assert_eq!(environment.lookup(1), b);
    assert_eq!(environment.lookup(2), a);

    environment.update(2, c);
    assert_eq!(environment.lookup(0), c);
    assert_eq!(environment.lookup(1), b);
    assert_eq!(environment.lookup(2), c);

    let copy = environment.clone();
    environment.pop();
    assert_eq!(environment.lookup(0), b);
    assert_eq!(environment.lookup(1), c);
    assert_eq!(copy.lookup(0), c);
}

#[test]
fn declared_constants() {
    let context = InkwellContext::create();
    let a = context.i8_type().ptr_type(AddressSpace::default()).const_null();
    let b = context.i16_type().ptr_type(AddressSpace::default()).const_null();
    let mut environment = global::Environment::new();
    environment.push_constant_value("a".to_string(), a);
    environment.push_constant_value("b".to_string(), b);
    environment.push_constant_value("a".to_string(), b);
    assert_eq!(environment.lookup_constant_value("a"), a);
    assert_eq!(environment.lookup_constant_value("b"), b);
}

#[test]
fn declared_types() {
    let context = InkwellContext::create();
    let first = context.opaque_struct_type("first");
    let second = context.opaque_struct_type("second");
    let function = context.i8_type().ptr_type(AddressSpace::default()).const_null();
    let mut environment = global::Environment::new();
    // A constant is no type, whatever its name.
    environment.push_constant_value("T".to_string(), function);
    environment.push_inductive("T".to_string(), first.ptr_type(AddressSpace::default()));
    environment.push_inductive("T".to_string(), second.ptr_type(AddressSpace::default()));
    environment.add_constructor(
        "T",
        global::Constructor {
            name: "c".to_string(),
            llvm_struct_type: second,
            llvm_function: function,
        },
    );
    assert_eq!(
        environment.lookup_inductive_llvm_type("T"),
        first.ptr_type(AddressSpace::default())
    );
    environment.lookup_inductive_mut("T").constructors[0].name = "d".to_string();
    let inductive = environment.lookup_inductive("T");
    assert_eq!(inductive.name, "T");
    assert_eq!(inductive.constructors.len(), 1);
    assert_eq!(inductive.constructors[0].name, "d");
    assert_eq!(inductive.constructors[0].llvm_struct_type, second);
}

#[test]
fn debruijn_indexes() {
    let mut values = vec!['a', 'b', 'c'];
    assert_eq!(*debruijn_index_lookup(&values, 0), 'c');
    assert_eq!(*debruijn_index_lookup(&values, 2), 'a');
    *debruijn_index_lookup_mut(&mut values, 1) = 'x';
    assert_eq!(values, vec!['a', 'x', 'c']);
}

#[test]
fn numbered_names() {
    assert_eq!(numbered_name("switch_", 0, "_case"), "switch_0_case");
    assert_eq!(numbered_name("field_", 1234567890, ""), "field_1234567890");
    assert_eq!(
        numbered_name("", usize::MAX, ""),
        format!("{}", usize::MAX)
    );
}

#[test]
fn run_plan() {
    let plan = Plan::new(17);
    assert_eq!(plan.directory, "tests/codegen");
    assert_eq!(plan.llvm_ir_file, "tests/codegen/test_17.ll");
    assert_eq!(plan.compiler, "clang");
    assert_eq!(
        plan.arguments,
        vec!["tests/codegen/test_17.ll", "-otests/codegen/test_17", "-Wno-override-module"]
    );
    assert_eq!(plan.program, "./tests/codegen/test_17");
    assert_ne!(Plan::new(1).program, Plan::new(11).program);
}

#[test]
fn silent_success() {
    assert!(went_well(true, &vec![], &vec![]));
    assert!(!went_well(false, &vec![], &vec![]));
    assert!(!went_well(true, &vec![1], &vec![]));
    assert!(!went_well(true, &vec![], &vec![1]));
}

#[test]
fn steps_of_a_run() {
    assert!(matches!(next_step(Step::Compile, true), Step::Run));
    assert!(matches!(next_step(Step::Compile, false), Step::Failed));
    assert!(matches!(next_step(Step::Run, true), Step::Done));
    assert!(matches!(next_step(Step::Run, false), Step::Failed));
    assert!(matches!(next_step(Step::Done, false), Step::Done));
    assert!(matches!(next_step(Step::Failed, true), Step::Failed));
}

#[test]
fn innermost_fixpoint_is_found() {
    let context = InkwellContext::create();
    let a = context.i8_type().ptr_type(AddressSpace::default()).const_null();
    let b = context.i16_type().ptr_type(AddressSpace::default()).const_null();
    let mut environment = fixpoint::Environment::new();
    let bound = |name: &str, closed: bool, llvm_function| fixpoint::Fixpoint {
        name: name.to_string(),
        closed,
        llvm_function,
    };
    assert_eq!(environment.lookup(&"f".to_string()), None);
    environment.push(bound("f", true, a));
    environment.push(bound("g", true, a));
    environment.push(bound("f", false, b));
    assert_eq!(environment.lookup(&"f".to_string()), Some((false, b)));
    assert_eq!(environment.lookup(&"g".to_string()), Some((true, a)));
    environment.pop();
    assert_eq!(environment.lookup(&"f".to_string()), Some((true, a)));
}
