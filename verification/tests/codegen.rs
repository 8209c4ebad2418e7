//! Programs that are compiled, and what LLVM has to show for it.
use inkwell::context::Context as InkwellContext;
use inkwell::module::Module;
use inkwell::types::BasicType;
use inkwell::values::InstructionOpcode;
use inkwell::AddressSpace;
use koi::codegen::Context;
use koi::hir::ir::{Constructor, DeBruijnIndex, Declaration, Inductive, Name, Sort, Term, HIR};

fn inductive_type(name: &str) -> Term {
    Term::Inductive(name.to_string())
}

fn product(parameter_type: Term, return_type: Term) -> Term {
    Term::DependentProduct {
        parameter_name: Name::Anonymous,
        parameter_type: Box::new(parameter_type),
        return_type: Box::new(return_type),
    }
}

fn constructor(name: &str, typ: Term) -> Constructor {
    Constructor { name: name.to_string(), typ }
}

fn inductive(name: &str, constructors: Vec<Constructor>) -> Inductive {
    Inductive { name: name.to_string(), typ: Term::Sort(Sort::Type(0)), constructors }
}

fn lambda(name: Name, body: Term) -> Term {
    Term::Lambda {
        name,
        parameter_name: Name::Anonymous,
        parameter_type: Box::new(inductive_type("Nat")),
        body: Box::new(body),
    }
}

fn named(name: &str) -> Name {
    Name::Named(name.to_string())
}

fn apply(function: Term, argument: Term) -> Term {
    Term::Application { function: Box::new(function), argument: Box::new(argument) }
}

fn match_on(inductive_name: &str, scrutinee: Term, branches: Vec<Term>) -> Term {
    Term::Match {
        inductive_name: inductive_name.to_string(),
        return_type: Box::new(inductive_type(inductive_name)),
        scrutinee: Box::new(scrutinee),
        branches,
    }
}

fn fixpoint(name: &str, body: Term) -> Term {
    Term::Fixpoint {
        name: name.to_string(),
        expression_type: Box::new(product(inductive_type("Nat"), inductive_type("Nat"))),
        body: Box::new(body),
    }
}

fn constant(name: &str) -> Term {
    Term::Constant(name.to_string())
}

fn variable(index: DeBruijnIndex) -> Term {
    Term::DeBruijnIndex(index)
}

fn unit() -> Inductive {
    inductive("Unit", vec![])
}

fn natural() -> Inductive {
    inductive(
        "Nat",
        vec![
            constructor("zero", inductive_type("Nat")),
            constructor("successor", product(inductive_type("Nat"), inductive_type("Nat"))),
        ],
    )
}

fn list() -> Inductive {
    inductive(
        "List",
        vec![
            constructor("nil", inductive_type("List")),
            constructor(
                "cons",
                product(
                    Term::DeBruijnIndex(0),
                    product(inductive_type("List"), inductive_type("List")),
                ),
            ),
        ],
    )
}

fn vector() -> Inductive {
    inductive(
        "Vector",
        vec![
            constructor("nil", inductive_type("Vector")),
            constructor(
                "cons",
                product(
                    Term::DeBruijnIndex(0),
                    product(
                        inductive_type("Nat"),
                        product(inductive_type("Vector"), inductive_type("Vector")),
                    ),
                ),
            ),
        ],
    )
}

fn zero() -> Term {
    Term::Constructor("Nat".to_string(), 0)
}

fn successor() -> Term {
    Term::Constructor("Nat".to_string(), 1)
}

fn with_nat(terms: Vec<Term>) -> HIR {
    let mut declarations = vec![Declaration::Inductive(natural())];
    declarations.extend(terms.into_iter().map(Declaration::Constant));
    HIR { declarations }
}

fn test_hir_with_context<'ctx>(
    hir: &HIR,
    inkwell_context: &'ctx InkwellContext,
) -> Context<'ctx> {
    let mut context = Context::build(inkwell_context);
    assert!(context.can_compile(hir));
    assert_eq!(context.codegen_hir(hir), Ok(()));
    context
}

fn test_hir(hir: &HIR) {
    let inkwell_context = InkwellContext::create();
    test_hir_with_context(hir, &inkwell_context);
}

fn test_inductive<'ctx>(
    inductive: Inductive,
    inkwell_context: &'ctx InkwellContext,
) -> Context<'ctx> {
    test_hir_with_context(
        &HIR { declarations: vec![Declaration::Inductive(inductive)] },
        inkwell_context,
    )
}

fn can_compile_hir(hir: &HIR) -> bool {
    let inkwell_context = InkwellContext::create();
    let context = Context::build(&inkwell_context);
    context.can_compile(hir)
}

fn can_compile_term(term: &Term) -> bool {
    let inkwell_context = InkwellContext::create();
    let context = Context::build(&inkwell_context);
    context.can_compile_term(term)
}

fn can_compile_inductive(inductive: &Inductive) -> bool {
    let inkwell_context = InkwellContext::create();
    let context = Context::build(&inkwell_context);
    context.can_compile_inductive(inductive)
}

fn opcodes(module: &Module, function: &str, block: usize) -> Vec<InstructionOpcode> {
    let blocks = module.get_function(function).unwrap().get_basic_blocks();
    let mut found = vec![];
    let mut instruction = blocks[block].get_first_instruction();
    while let Some(current) = instruction {
        found.push(current.get_opcode());
        instruction = current.get_next_instruction();
    }
    found
}

#[test]
fn unit_type() {
    let inkwell_context = InkwellContext::create();
    let context = test_inductive(unit(), &inkwell_context);
    let module = context.into_module();

    let unit_llvm_struct = module.get_struct_type(&unit().name).unwrap();
    assert_eq!(unit_llvm_struct.get_field_types().len(), 0);
}

#[test]
fn nat_type() {
    let inductive_nat = natural();
    let inkwell_context = InkwellContext::create();
    let context = test_inductive(natural(), &inkwell_context);
    let module = context.into_module();

    let nat_llvm_struct = module.get_struct_type(&inductive_nat.name).unwrap();
    let nat_field_types = nat_llvm_struct.get_field_types();
    assert_eq!(nat_field_types.len(), 2);

    let nat_zero_llvm_struct = module
        .get_struct_type(&Context::constructor_llvm_name(
            &inductive_nat.name,
            &inductive_nat.constructors.get(0).unwrap().name,
        ))
        .unwrap();
    let zero_field_types = nat_zero_llvm_struct.get_field_types();
    assert_eq!(zero_field_types.len(), 1);
    assert_eq!(zero_field_types[0], inkwell_context.i8_type().as_basic_type_enum());

    let nat_successor_llvm_struct = module
        .get_struct_type(&Context::constructor_llvm_name(
            &inductive_nat.name,
            &inductive_nat.constructors.get(1).unwrap().name,
        ))
        .unwrap();
    let successor_field_types = nat_successor_llvm_struct.get_field_types();
    assert_eq!(successor_field_types.len(), 2);
    assert_eq!(successor_field_types, nat_field_types);
    assert_eq!(successor_field_types[0], inkwell_context.i8_type().as_basic_type_enum());
    assert_eq!(
        successor_field_types[1],
        nat_llvm_struct.ptr_type(AddressSpace::default()).as_basic_type_enum()
    );
}

#[test]
fn nat_add() {
    test_hir(&with_nat(vec![fixpoint(
        "nat_add",
        lambda(
            Name::Anonymous,
            lambda(
                Name::Anonymous,
                match_on(
                    "Nat",
                    variable(1),
                    vec![
                        variable(0),
                        apply(
                            successor(),
                            apply(apply(constant("nat_add"), variable(0)), variable(1)),
                        ),
                    ],
                ),
            ),
        ),
    )]));
}

#[test]
fn nat_identity() {
    test_hir(&with_nat(vec![lambda(named("nat_identity"), Term::DeBruijnIndex(0))]));
}

#[test]
fn nat_match_identity() {
    test_hir(&with_nat(vec![lambda(
        named("nat_match_identity"),
        match_on(
            "Nat",
            Term::DeBruijnIndex(0),
            vec![zero(), apply(successor(), Term::DeBruijnIndex(0))],
        ),
    )]));
}

#[test]
fn nat_match_simple() {
    test_hir(&with_nat(vec![lambda(
        named("nat_match_simple"),
        match_on("Nat", Term::DeBruijnIndex(0), vec![zero(), zero()]),
    )]));
}

#[test]
fn nat_zero() {
    test_hir(&with_nat(vec![zero()]));
}

#[test]
fn nat_one() {
    test_hir(&with_nat(vec![apply(successor(), zero())]));
}

#[test]
fn nat_left() {
    let inkwell_context = InkwellContext::create();
    let context = test_hir_with_context(
        &with_nat(vec![lambda(
            named("nat_left"),
            lambda(Name::Anonymous, Term::DeBruijnIndex(1)),
        )]),
        &inkwell_context,
    );

    let module = context.into_module();
    let inner_lambda = module.get_function("lambda.1").unwrap();
    assert_eq!(inner_lambda.get_basic_blocks().len(), 1);
    let first_instruction =
        inner_lambda.get_basic_blocks()[0].get_first_instruction().unwrap();
    assert_eq!(first_instruction.get_opcode(), InstructionOpcode::BitCast);
    let next_instruction = first_instruction.get_next_instruction().unwrap();
    assert_eq!(next_instruction.get_opcode(), InstructionOpcode::GetElementPtr);
    let next_instruction = next_instruction.get_next_instruction().unwrap();
    assert_eq!(next_instruction.get_opcode(), InstructionOpcode::Load);
    let next_instruction = next_instruction.get_next_instruction().unwrap();
    assert_eq!(next_instruction.get_opcode(), InstructionOpcode::Alloca);
    let next_instruction = next_instruction.get_next_instruction().unwrap();
    assert_eq!(next_instruction.get_opcode(), InstructionOpcode::Store);
    let next_instruction = next_instruction.get_next_instruction().unwrap();
    assert_eq!(next_instruction.get_opcode(), InstructionOpcode::BitCast);
    let next_instruction = next_instruction.get_next_instruction().unwrap();
    assert_eq!(next_instruction.get_opcode(), InstructionOpcode::Return);
}

#[test]
fn list_type() {
    let list_inductive = list();
    let inkwell_context = InkwellContext::create();
    let context = test_inductive(list(), &inkwell_context);
    let module = context.into_module();

    let list_llvm_struct = module.get_struct_type(&list_inductive.name).unwrap();
    assert_eq!(3, list_llvm_struct.get_field_types().len());

    let list_nil_llvm_struct = module
        .get_struct_type(&Context::constructor_llvm_name(
            &list_inductive.name,
            &list_inductive.constructors.get(0).unwrap().name,
        ))
        .unwrap();
    assert_eq!(1, list_nil_llvm_struct.get_field_types().len());
    assert_eq!(
        list_nil_llvm_struct.get_field_types()[0],
        inkwell_context.i8_type().as_basic_type_enum()
    );

    let list_cons_llvm_struct = module
        .get_struct_type(&Context::constructor_llvm_name(
            &list_inductive.name,
            &list_inductive.constructors.get(1).unwrap().name,
        ))
        .unwrap();
    assert_eq!(3, list_cons_llvm_struct.get_field_types().len());
    assert_eq!(
        list_cons_llvm_struct.get_field_types()[0],
        inkwell_context.i8_type().as_basic_type_enum()
    );
    assert_eq!(
        list_cons_llvm_struct.get_field_types()[1],
        inkwell_context.i8_type().ptr_type(AddressSpace::default()).as_basic_type_enum()
    );
    assert_eq!(
        list_cons_llvm_struct.get_field_types()[2],
        list_llvm_struct.ptr_type(AddressSpace::default()).as_basic_type_enum()
    );
}

#[test]
fn list_append() {
    let append = fixpoint(
        "list_append",
        lambda(
            Name::Anonymous,
            lambda(
                Name::Anonymous,
                lambda(
                    Name::Anonymous,
                    match_on(
                        "List",
                        variable(1),
                        vec![
                            variable(0),
                            apply(
                                apply(Term::Constructor("List".to_string(), 1), variable(1)),
                                apply(
                                    apply(
                                        apply(constant("list_append"), variable(4)),
                                        variable(0),
                                    ),
                                    variable(2),
                                ),
                            ),
                        ],
                    ),
                ),
            ),
        ),
    );
    test_hir(&HIR {
        declarations: vec![Declaration::Inductive(list()), Declaration::Constant(append)],
    });
}

#[test]
fn vector_type() {
    let vector_hir = HIR {
        declarations: vec![Declaration::Inductive(natural()), Declaration::Inductive(vector())],
    };
    let inkwell_context = InkwellContext::create();
    let context = test_hir_with_context(&vector_hir, &inkwell_context);
    let module = context.into_module();

    let vector_inductive = match &vector_hir.declarations[1] {
        Declaration::Inductive(inductive) => inductive,
        _ => unreachable!(),
    };

    let vector_llvm_struct = module.get_struct_type(&vector_inductive.name).unwrap();
    assert_eq!(4, vector_llvm_struct.get_field_types().len());

    let vector_nil_llvm_struct = module
        .get_struct_type(&Context::constructor_llvm_name(
            &vector_inductive.name,
            &vector_inductive.constructors.get(0).unwrap().name,
        ))
        .unwrap();
    assert_eq!(1, vector_nil_llvm_struct.get_field_types().len());
    assert_eq!(
        vector_nil_llvm_struct.get_field_types()[0],
        inkwell_context.i8_type().as_basic_type_enum()
    );

    let vector_cons_llvm_struct = module
        .get_struct_type(&Context::constructor_llvm_name(
            &vector_inductive.name,
            &vector_inductive.constructors.get(1).unwrap().name,
        ))
        .unwrap();
    assert_eq!(4, vector_cons_llvm_struct.get_field_types().len());
    assert_eq!(
        vector_cons_llvm_struct.get_field_types()[0],
        inkwell_context.i8_type().as_basic_type_enum()
    );
    assert_eq!(
        vector_cons_llvm_struct.get_field_types()[1],
        inkwell_context.i8_type().ptr_type(AddressSpace::default()).as_basic_type_enum()
    );
    assert_eq!(
        vector_cons_llvm_struct.get_field_types()[2],
        module
            .get_struct_type(match &vector_hir.declarations[0] {
                Declaration::Inductive(inductive) => &inductive.name,
                _ => unreachable!(),
            })
            .unwrap()
            .ptr_type(AddressSpace::default())
            .as_basic_type_enum()
    );
}

#[test]
fn vector_append() {
    let append = fixpoint(
        "vector_append",
        lambda(
            Name::Anonymous,
            lambda(
                Name::Anonymous,
                lambda(
                    Name::Anonymous,
                    match_on(
                        "Vector",
                        variable(1),
                        vec![
                            variable(0),
                            apply(
                                apply(
                                    apply(
                                        Term::Constructor("Vector".to_string(), 1),
                                        variable(2),
                                    ),
                                    variable(1),
                                ),
                                apply(
                                    apply(
                                        apply(constant("vector_append"), variable(5)),
                                        variable(0),
                                    ),
                                    variable(3),
                                ),
                            ),
                        ],
                    ),
                ),
            ),
        ),
    );
    test_hir(&HIR {
        declarations: vec![
            Declaration::Inductive(natural()),
            Declaration::Inductive(vector()),
            Declaration::Constant(append),
        ],
    });
}

fn test_free_variables_one_lambda(
    context: &Context,
    debruijn_index: DeBruijnIndex,
    expected_indexes: Vec<DeBruijnIndex>,
) {
    assert_eq!(
        context.free_variables(&Term::Lambda {
            name: Name::Anonymous,
            parameter_name: Name::Anonymous,
            parameter_type: Box::new(inductive_type("Unit")),
            body: Box::new(Term::DeBruijnIndex(debruijn_index)),
        }),
        expected_indexes
    );
}

fn test_free_variables_two_lambdas(
    context: &Context,
    debruijn_index: DeBruijnIndex,
    expected_indexes: Vec<DeBruijnIndex>,
) {
    assert_eq!(
        context.free_variables(&Term::Lambda {
            name: Name::Anonymous,
            parameter_name: Name::Anonymous,
            parameter_type: Box::new(inductive_type("Unit")),
            body: Box::new(Term::Lambda {
                name: Name::Anonymous,
                parameter_name: Name::Anonymous,
                parameter_type: Box::new(inductive_type("Unit")),
                body: Box::new(Term::DeBruijnIndex(debruijn_index)),
            }),
        }),
        expected_indexes
    );
}

#[test]
fn free_variables() {
    let inkwell_context = InkwellContext::create();
    let mut context = Context::build(&inkwell_context);

    assert_eq!(
        context.codegen_hir(&HIR { declarations: vec![Declaration::Inductive(unit())] }),
        Ok(())
    );

    test_free_variables_one_lambda(&context, 0, vec![]);
    test_free_variables_one_lambda(&context, 1, vec![0]);
    test_free_variables_one_lambda(&context, 2, vec![1]);

    test_free_variables_two_lambdas(&context, 0, vec![]);
    test_free_variables_two_lambdas(&context, 1, vec![]);
    test_free_variables_two_lambdas(&context, 2, vec![0]);
    test_free_variables_two_lambdas(&context, 3, vec![1]);
}

#[test]
fn free_variables_of_applications() {
    let inkwell_context = InkwellContext::create();
    let context = test_inductive(unit(), &inkwell_context);
    let free = |body: Term| {
        let term = Term::Lambda {
            name: Name::Anonymous,
            parameter_name: Name::Anonymous,
            parameter_type: Box::new(inductive_type("Unit")),
            body: Box::new(body),
        };
        assert!(context.can_find_free_variables(&term));
        context.free_variables(&term)
    };
    assert_eq!(free(apply(Term::DeBruijnIndex(1), Term::DeBruijnIndex(0))), vec![0]);
    assert_eq!(free(apply(Term::DeBruijnIndex(0), Term::DeBruijnIndex(3))), vec![2]);
    assert_eq!(free(apply(Term::DeBruijnIndex(2), Term::DeBruijnIndex(1))), vec![1, 0]);
    assert_eq!(
        free(fixpoint("f", lambda(Name::Anonymous, Term::DeBruijnIndex(2)))),
        vec![0]
    );
}

#[test]
fn free_variables_of_branches() {
    let inkwell_context = InkwellContext::create();
    let context = test_inductive(natural(), &inkwell_context);

    // A branch binds one variable for each field after the tag.
    let term = lambda(
        Name::Anonymous,
        match_on(
            "Nat",
            Term::DeBruijnIndex(0),
            vec![Term::DeBruijnIndex(3), Term::DeBruijnIndex(3)],
        ),
    );
    assert_eq!(context.free_variables(&term), vec![2, 1]);
    let term = lambda(
        Name::Anonymous,
        match_on(
            "Nat",
            Term::DeBruijnIndex(0),
            vec![Term::DeBruijnIndex(0), Term::DeBruijnIndex(2)],
        ),
    );
    assert_eq!(context.free_variables(&term), vec![0]);

    // The scrutinee comes first, and applications are looked into.
    let term = lambda(
        Name::Anonymous,
        match_on(
            "Nat",
            Term::DeBruijnIndex(7),
            vec![zero(), apply(Term::DeBruijnIndex(9), Term::DeBruijnIndex(8))],
        ),
    );
    assert_eq!(context.free_variables(&term), vec![6, 7, 6]);

    // Only lambdas that mention known types have free variables to be found.
    assert!(context.can_find_free_variables(&term));
    assert!(!context.can_find_free_variables(&Term::DeBruijnIndex(0)));
    assert!(!context.can_find_free_variables(&lambda(
        Name::Anonymous,
        match_on("List", Term::DeBruijnIndex(0), vec![])
    )));
}

#[test]
fn one_more_binder_lowers_the_captured_indexes() {
    let inkwell_context = InkwellContext::create();
    let context = test_inductive(natural(), &inkwell_context);
    let branches = |term: fn(Term) -> Term| {
        term(match_on(
            "Nat",
            Term::DeBruijnIndex(0),
            vec![Term::DeBruijnIndex(2), Term::DeBruijnIndex(5)],
        ))
    };
    let once = branches(|term| lambda(Name::Anonymous, term));
    let twice = branches(|term| lambda(Name::Anonymous, lambda(Name::Anonymous, term)));
    assert_eq!(context.free_variables(&once), vec![1, 3]);
    assert_eq!(context.free_variables(&twice), vec![0, 2]);
}

#[test]
fn empty_program() {
    let inkwell_context = InkwellContext::create();
    let context = test_hir_with_context(&HIR { declarations: vec![] }, &inkwell_context);
    let ir = context.llvm_ir();
    let module = context.into_module();
    assert_eq!(module.get_name().to_str(), Ok("koi"));
    assert_eq!(module.get_function("main").unwrap().count_basic_blocks(), 1);
    assert_eq!(opcodes(&module, "main", 0), vec![InstructionOpcode::Return]);
    assert!(ir.contains("define i32 @main()"));
    assert!(ir.contains("ret i32 0"));
    assert_eq!(ir, module.print_to_string().to_string());
}

#[test]
fn lambda_code() {
    let inkwell_context = InkwellContext::create();
    let context = test_hir_with_context(
        &with_nat(vec![lambda(named("identity"), Term::DeBruijnIndex(0))]),
        &inkwell_context,
    );
    let ir = context.llvm_ir();
    let module = context.into_module();
    assert!(ir.contains("define i8* @lambda(i8* %0, i8* %1)"));
    // The captures, then the closure with its two fields.
    assert_eq!(
        opcodes(&module, "main", 0)
            .into_iter()
            .filter(|opcode| *opcode == InstructionOpcode::Store)
            .count(),
        2
    );
    assert!(ir.contains("%lambda_struct_function_pointer_field_address"));
    assert!(ir.contains("store i8* (i8*, i8*)* @lambda"));
}

#[test]
fn captured_variable_is_stored_and_found_again() {
    let inkwell_context = InkwellContext::create();
    let context = test_hir_with_context(
        &with_nat(vec![lambda(
            named("left"),
            lambda(Name::Anonymous, Term::DeBruijnIndex(1)),
        )]),
        &inkwell_context,
    );
    let ir = context.llvm_ir();
    // The outer lambda stores its parameter in field 0, the inner one loads it.
    assert!(ir.contains(
        "%captures_struct_field_0_address = getelementptr inbounds { i8* }, { i8* }* \
         %captures_struct_pointer, i32 0, i32 0"
    ));
    assert!(ir.contains("store i8* %0, i8** %captures_struct_field_0_address"));
    assert!(ir.contains(
        "%captures_struct_debruijn_value_0_address = getelementptr inbounds { i8* }, { i8* }* \
         %casted_captures_struct_pointer, i32 0, i32 0"
    ));
    assert!(ir.contains(
        "%captures_struct_debruijn_value_0 = load i8*, i8** \
         %captures_struct_debruijn_value_0_address"
    ));
    assert!(ir.contains("%debruijn_value_0 = alloca i8*"));
}

#[test]
fn application_code() {
    let inkwell_context = InkwellContext::create();
    let context = test_hir_with_context(
        &with_nat(vec![apply(successor(), zero())]),
        &inkwell_context,
    );
    let ir = context.llvm_ir();
    assert!(ir.contains("%application_function_pointer = load"));
    assert!(ir.contains("%application_captures_struct_pointer = load"));
    assert!(ir.contains("%call = call i8* %application_function_pointer_cast("));
}

#[test]
fn match_code() {
    let inkwell_context = InkwellContext::create();
    let context = test_hir_with_context(
        &with_nat(vec![lambda(
            named("predecessor"),
            match_on("Nat", Term::DeBruijnIndex(0), vec![zero(), Term::DeBruijnIndex(0)]),
        )]),
        &inkwell_context,
    );
    let ir = context.llvm_ir();
    let module = context.into_module();
    assert!(ir.contains("switch i8 %inductive_tag, label %switch_default_case ["));
    assert!(ir.contains("i8 0, label %switch_0_case"));
    assert!(ir.contains("i8 1, label %switch_1_case"));
    assert!(ir.contains("%constructor_field_1 = load %Nat*, %Nat** %constructor_field_1_address"));
    assert!(ir.contains("call void @exit(i32 1)"));
    assert!(ir.contains("unreachable"));
    let blocks = module.get_function("lambda").unwrap().get_basic_blocks();
    assert_eq!(
        blocks
            .iter()
            .map(|block| block.get_name().to_str().unwrap().to_string())
            .collect::<Vec<_>>(),
        vec![
            "entry",
            "switch_post_dominator",
            "switch_0_case",
            "switch_1_case",
            "switch_default_case"
        ]
    );
}

#[test]
fn constructors_store_their_tags() {
    let inkwell_context = InkwellContext::create();
    let context = test_inductive(natural(), &inkwell_context);
    let ir = context.llvm_ir();
    assert!(ir.contains("define %Nat_zero* @Nat_zero(i8* %0, i8* %1)"));
    assert!(ir.contains("define %Nat_successor* @Nat_successor(i8* %0, i8* %1)"));
    assert!(ir.contains("store i8 0, i8* %constructor_tag"));
    assert!(ir.contains("store i8 1, i8* %constructor_tag"));
    assert!(ir.contains("%parameter_pointer_cast = bitcast i8* %0 to %Nat*"));
}

#[test]
fn tags_wrap_around() {
    let constructors =
        (0..257).map(|i| constructor(&format!("c{}", i), inductive_type("Big"))).collect();
    let inkwell_context = InkwellContext::create();
    let context = test_inductive(inductive("Big", constructors), &inkwell_context);
    let ir = context.llvm_ir();
    let body_of = |name: &str| {
        let start = ir.find(&format!("@Big_{}(", name)).unwrap();
        ir[start..].split("}\n").next().unwrap().to_string()
    };
    assert!(body_of("c0").contains("store i8 0,"));
    assert!(body_of("c1").contains("store i8 1,"));
    assert!(body_of("c255").contains("store i8 -1,"));
    assert!(body_of("c256").contains("store i8 0,"));
}

#[test]
fn curried_constructor_code() {
    let inkwell_context = InkwellContext::create();
    let context = test_inductive(list(), &inkwell_context);
    let ir = context.llvm_ir();
    let module = context.into_module();
    assert_eq!(
        opcodes(&module, "List_cons", 0)
            .into_iter()
            .filter(|opcode| *opcode == InstructionOpcode::Store)
            .count(),
        3
    );
    assert!(ir.contains("%casted_captures_struct_pointer = bitcast i8* %1 to { i8* }*"));
    assert!(ir.contains("%environment_field_1_address = getelementptr inbounds { i8* }, { i8* }*"));
    assert!(ir.contains("%environment_field_1 = load i8*, i8** %environment_field_1_address"));
    assert!(ir.contains("store i8* %environment_field_1, i8** %field_1"));
    assert!(ir.contains("%parameter_pointer_cast = bitcast i8* %0 to %List*"));
}

#[test]
fn largest_constructor_is_the_last_of_the_largest() {
    let inkwell_context = InkwellContext::create();
    let two = inductive(
        "Either",
        vec![
            constructor("left", product(inductive_type("Nat"), inductive_type("Either"))),
            constructor("right", product(inductive_type("Either"), inductive_type("Either"))),
            constructor("neither", inductive_type("Either")),
        ],
    );
    let context = test_hir_with_context(
        &HIR {
            declarations: vec![Declaration::Inductive(natural()), Declaration::Inductive(two)],
        },
        &inkwell_context,
    );
    let module = context.into_module();
    let either = module.get_struct_type("Either").unwrap();
    let right = module.get_struct_type("Either_right").unwrap();
    let left = module.get_struct_type("Either_left").unwrap();
    assert_eq!(either.get_field_types(), right.get_field_types());
    assert_ne!(either.get_field_types(), left.get_field_types());
}

#[test]
fn redeclared_type_adds_to_the_first() {
    let again = inductive(
        "Nat",
        vec![constructor("other", product(inductive_type("Nat"), inductive_type("Nat")))],
    );
    let hir = HIR {
        declarations: vec![
            Declaration::Inductive(natural()),
            Declaration::Inductive(again),
            Declaration::Constant(Term::Constructor("Nat".to_string(), 2)),
        ],
    };
    let inkwell_context = InkwellContext::create();
    let context = test_hir_with_context(&hir, &inkwell_context);
    assert!(context.llvm_ir().contains("@Nat_other"));
    assert_eq!(context.into_module().get_struct_type("Nat.0").unwrap().count_fields(), 2);
}

#[test]
fn codegen_inductive_alone() {
    let inkwell_context = InkwellContext::create();
    let mut context = Context::build(&inkwell_context);
    assert!(context.can_compile_inductive(&natural()));
    context.codegen_inductive(&natural());
    let ir = context.llvm_ir();
    assert!(!ir.contains("@main"));
    assert!(ir.contains("@Nat_successor"));
    assert!(ir.contains("declare noalias i8* @malloc(i32)"));
    // The program may follow.
    let hir = HIR { declarations: vec![Declaration::Constant(zero())] };
    assert!(context.can_compile(&hir));
    assert_eq!(context.codegen_hir(&hir), Ok(()));
}

#[test]
fn codegen_term_alone() {
    let term = lambda(Name::Anonymous, Term::DeBruijnIndex(0));
    let inkwell_context = InkwellContext::create();
    let mut context = Context::build(&inkwell_context);
    assert!(context.can_compile_term(&term));
    let value = context.codegen_term(&term);
    assert_eq!(value.get_name().to_str(), Ok("lambda_struct_pointer"));
    let closure = value.get_type().get_element_type().into_struct_type();
    assert_eq!(closure.count_fields(), 2);
    let module = context.into_module();
    assert!(module.get_function("main").is_some());
    // Nothing ends `main` yet.
    assert!(module.verify().is_err());
}

#[test]
fn main_is_generated_once() {
    let inkwell_context = InkwellContext::create();
    let mut context = Context::build(&inkwell_context);
    assert_eq!(context.codegen_hir(&with_nat(vec![])), Ok(()));
    assert!(context.can_compile_term(&zero()));
    let value = context.codegen_term(&zero());
    assert_eq!(value.get_name().to_str(), Ok("lambda_struct_pointer"));
    let ir = context.llvm_ir();
    assert_eq!(ir.matches("define i32 @main").count(), 1);
    assert!(!ir.contains("@main.1"));
    // What was declared before can still be mentioned.
    assert!(context.can_compile(&HIR { declarations: vec![Declaration::Constant(successor())] }));
    assert!(!context.can_compile_term(&Term::Constructor("Nat".to_string(), 2)));
}

#[test]
fn a_term_goes_on_in_the_same_main() {
    let inkwell_context = InkwellContext::create();
    let mut context = Context::build(&inkwell_context);
    context.codegen_term(&lambda(Name::Anonymous, Term::DeBruijnIndex(0)));
    context.codegen_term(&lambda(Name::Anonymous, Term::DeBruijnIndex(0)));
    assert_eq!(context.codegen_hir(&HIR { declarations: vec![] }), Ok(()));
    let module = context.into_module();
    assert_eq!(module.get_function("main").unwrap().count_basic_blocks(), 1);
    assert_ne!(module.get_function("lambda"), module.get_function("lambda.1"));
    assert!(module.get_function("lambda.1").is_some());
}

#[test]
fn first_constant_of_a_name_is_used() {
    let hir = with_nat(vec![
        lambda(named("f"), Term::DeBruijnIndex(0)),
        lambda(named("f"), zero()),
        apply(Term::Constant("f".to_string()), zero()),
    ]);
    let inkwell_context = InkwellContext::create();
    let context = test_hir_with_context(&hir, &inkwell_context);
    let ir = context.llvm_ir();
    // The closure of the first `f` is opened, not that of the second.
    let opened = ir
        .lines()
        .find(|line| line.contains("%application_function_pointer_pointer = "))
        .unwrap();
    assert!(opened.ends_with("%lambda_struct_pointer, i32 0, i32 0"));
}

#[test]
fn fixpoint_is_a_constant() {
    let fixpoint = Term::Fixpoint {
        name: "loop".to_string(),
        expression_type: Box::new(inductive_type("Nat")),
        body: Box::new(lambda(Name::Anonymous, Term::DeBruijnIndex(0))),
    };
    test_hir(&with_nat(vec![fixpoint, apply(Term::Constant("loop".to_string()), zero())]));
}

#[test]
fn module_that_llvm_refuses() {
    // A match in `main` leaves code to be put into the last block that it made,
    // and none into the block where it should go on.
    let hir = with_nat(vec![match_on(
        "Nat",
        apply(successor(), zero()),
        vec![zero(), Term::DeBruijnIndex(0)],
    )]);
    assert!(can_compile_hir(&hir));
    let inkwell_context = InkwellContext::create();
    let mut context = Context::build(&inkwell_context);
    let verdict = context.codegen_hir(&hir);
    assert!(context.llvm_ir().contains("unreachable\n  ret i32 0"));
    assert_eq!(
        verdict.unwrap_err(),
        context.into_module().verify().unwrap_err().to_string()
    );
}

#[test]
fn exact_constructor_name() {
    assert_eq!(Context::constructor_llvm_name("Nat", "zero"), "Nat_zero");
    assert_eq!(Context::constructor_llvm_name("", ""), "_");
}

#[test]
fn same_program_same_code() {
    let build = || {
        let inkwell_context = InkwellContext::create();
        let context = test_hir_with_context(
            &with_nat(vec![
                lambda(named("left"), lambda(Name::Anonymous, Term::DeBruijnIndex(1))),
                apply(Term::Constant("left".to_string()), zero()),
            ]),
            &inkwell_context,
        );
        context.llvm_ir()
    };
    assert_eq!(build(), build());
}

#[test]
fn programs_that_cannot_be_compiled() {
    // A variable that is not bound.
    assert!(!can_compile_term(&Term::DeBruijnIndex(0)));
    assert!(!can_compile_term(&lambda(Name::Anonymous, Term::DeBruijnIndex(1))));
    // A constant, a type or a constructor that is not declared.
    assert!(!can_compile_term(&Term::Constant("f".to_string())));
    assert!(!can_compile_term(&zero()));
    assert!(!can_compile_hir(&with_nat(vec![Term::Constructor("Nat".to_string(), 2)])));
    assert!(!can_compile_inductive(&inductive(
        "A",
        vec![constructor("a", product(inductive_type("B"), inductive_type("A")))],
    )));
    // A type where a value is expected, and the reverse.
    assert!(!can_compile_term(&Term::Sort(Sort::Prop)));
    assert!(!can_compile_hir(&with_nat(vec![inductive_type("Nat")])));
    assert!(!can_compile_hir(&with_nat(vec![product(
        inductive_type("Nat"),
        inductive_type("Nat")
    )])));
    assert!(!can_compile_inductive(&inductive(
        "A",
        vec![constructor("a", Term::Constant("A".to_string()))],
    )));
    // A fixpoint that captures a variable cannot mention itself.
    assert!(!can_compile_term(&lambda(
        Name::Anonymous,
        fixpoint("f", lambda(Name::Anonymous, apply(constant("f"), variable(1)))),
    )));
    // A fixpoint cannot mention itself outside a function.
    assert!(!can_compile_term(&fixpoint("f", constant("f"))));
    // A branch for each constructor.
    assert!(!can_compile_hir(&with_nat(vec![lambda(
        Name::Anonymous,
        match_on("Nat", Term::DeBruijnIndex(0), vec![zero()])
    )])));
    // Values of a type without constructors cannot be looked at.
    let mut hir = with_nat(vec![lambda(
        Name::Anonymous,
        match_on("Unit", Term::DeBruijnIndex(0), vec![]),
    )]);
    hir.declarations.insert(0, Declaration::Inductive(unit()));
    assert!(!can_compile_hir(&hir));
    // A constant that has no name cannot be used later.
    assert!(!can_compile_hir(&with_nat(vec![
        lambda(Name::Anonymous, Term::DeBruijnIndex(0)),
        Term::Constant("f".to_string()),
    ])));
}

#[test]
fn programs_that_can_be_compiled() {
    assert!(can_compile_hir(&HIR { declarations: vec![] }));
    assert!(can_compile_term(&lambda(Name::Anonymous, Term::DeBruijnIndex(0))));
    assert!(can_compile_inductive(&unit()));
    assert!(can_compile_inductive(&list()));
    // What an application gives, and a variable, can be applied.
    assert!(can_compile_hir(&with_nat(vec![apply(apply(successor(), zero()), zero())])));
    assert!(can_compile_hir(&with_nat(vec![lambda(
        Name::Anonymous,
        apply(Term::DeBruijnIndex(0), zero())
    )])));
    // A fixpoint mentions itself; one that captures a variable does not.
    assert!(can_compile_term(&fixpoint("f", lambda(Name::Anonymous, constant("f")))));
    assert!(can_compile_term(&lambda(
        Name::Anonymous,
        fixpoint("f", lambda(Name::Anonymous, variable(1))),
    )));
    assert!(can_compile_hir(&with_nat(vec![
        lambda(named("f"), Term::DeBruijnIndex(0)),
        apply(Term::Constant("f".to_string()), zero()),
    ])));
}

#[test]
fn applied_results_are_closures() {
    let inkwell_context = InkwellContext::create();
    let context = test_hir_with_context(
        &with_nat(vec![
            apply(apply(successor(), zero()), zero()),
            lambda(Name::Anonymous, lambda(Name::Anonymous, apply(variable(1), variable(0)))),
        ]),
        &inkwell_context,
    );
    let ir = context.llvm_ir();
    assert!(ir.contains("%application_closure_pointer_cast = bitcast i8* %call to { i8*, i8* }*"));
    // A captured variable is the place of its value, which is followed.
    assert!(ir.contains("%application_closure_pointer = load i8*, i8** %debruijn_value_0"));
}

#[test]
fn variables_are_what_they_were_after_a_lambda() {
    let inkwell_context = InkwellContext::create();
    let context = test_hir_with_context(
        &with_nat(vec![lambda(
            Name::Anonymous,
            apply(lambda(Name::Anonymous, variable(1)), variable(0)),
        )]),
        &inkwell_context,
    );
    let ir = context.llvm_ir();
    // The outer function hands its own parameter to the inner one.
    assert!(ir.contains("%call = call i8* %application_function_pointer_cast(i8* %0,"));
    assert!(!ir.contains("%call = call i8* %application_function_pointer_cast(i8** "));
}

#[test]
fn fixpoint_mentions_its_own_function() {
    let inkwell_context = InkwellContext::create();
    let context = test_hir_with_context(
        &with_nat(vec![fixpoint(
            "f",
            lambda(Name::Anonymous, apply(constant("f"), variable(0))),
        )]),
        &inkwell_context,
    );
    let ir = context.llvm_ir();
    let function = ir[ir.find("define i8* @lambda(").unwrap()..].split("}\n").next().unwrap();
    assert!(function.contains("%temp_fixpoint_empty_captures_struct"));
    assert!(function.contains("store i8* (i8*, i8*)* @lambda,"));
}

#[test]
fn fixpoint_without_recursion_is_its_body() {
    let ir = |term: Term| {
        let inkwell_context = InkwellContext::create();
        let context = test_hir_with_context(&with_nat(vec![term]), &inkwell_context);
        context.llvm_ir()
    };
    let body = lambda(Name::Anonymous, lambda(Name::Anonymous, variable(1)));
    assert_eq!(ir(fixpoint("f", body.clone())), ir(body));
}

#[test]
fn structures_of_a_program_differ() {
    let inkwell_context = InkwellContext::create();
    let context = test_hir_with_context(
        &HIR {
            declarations: vec![Declaration::Inductive(natural()), Declaration::Inductive(list())],
        },
        &inkwell_context,
    );
    let module = context.into_module();
    let mut structures = vec![];
    for inductive in [natural(), list()] {
        structures.push(module.get_struct_type(&inductive.name).unwrap());
        for constructor in &inductive.constructors {
            let name = Context::constructor_llvm_name(&inductive.name, &constructor.name);
            structures.push(module.get_struct_type(&name).unwrap());
        }
    }
    assert_eq!(structures.len(), 6);
    for i in 0..structures.len() {
        for j in 0..i {
            assert_ne!(structures[i], structures[j]);
        }
    }
}

#[test]
fn modules_side_by_side_have_the_same_code() {
    let inkwell_context = InkwellContext::create();
    let left = || lambda(named("left"), lambda(Name::Anonymous, variable(1)));
    let program = with_nat(vec![left(), apply(constant("left"), zero())]);
    let other = with_nat(vec![fixpoint("unused", left()), apply(constant("left"), zero())]);
    assert!(!can_compile_hir(&other));
    let other = with_nat(vec![fixpoint("left", left()), apply(constant("left"), zero())]);
    let first = test_hir_with_context(&program, &inkwell_context).into_module();
    for hir in [&program, &other] {
        let second = test_hir_with_context(hir, &inkwell_context).into_module();
        let names = |module: &Module| {
            let mut found = vec![];
            let mut function = module.get_first_function();
            while let Some(current) = function {
                found.push(current.get_name().to_str().unwrap().to_string());
                function = current.get_next_function();
            }
            found
        };
        assert_eq!(names(&first), names(&second));
        for name in names(&first) {
            let blocks = first.get_function(&name).unwrap().count_basic_blocks();
            assert_eq!(blocks, second.get_function(&name).unwrap().count_basic_blocks());
            for block in 0..blocks as usize {
                assert_eq!(opcodes(&first, &name, block), opcodes(&second, &name, block));
            }
        }
        assert_ne!(first.get_function("main"), second.get_function("main"));
    }
}
