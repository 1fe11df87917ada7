//! Compilations of programs that `cairo_lang_sierra` parses and resolves.

use cairo_lang_sierra::ids::ConcreteLibfuncId;
use cairo_lang_sierra::ids::ConcreteTypeId;
use cairo_lang_sierra::program::Program;
use cairo_lang_sierra::program_registry::ProgramRegistry;
use cairo_lang_sierra::program_registry::ProgramRegistryError;
use cairo_lang_sierra::ProgramParser;
use cairo_lang_sierra_type_size::get_type_size_map;
use cairo_lang_sierra_type_size::TypeSizeMap;
use num_bigint::BigInt;
use sierra_to_casm::casm::Cell;
use sierra_to_casm::casm::CellOrConst;
use sierra_to_casm::casm::Instruction;
use sierra_to_casm::casm::InstructionKind;
use sierra_to_casm::casm::Operand;
use sierra_to_casm::casm::Register;
use sierra_to_casm::compiler::compile;
use sierra_to_casm::compiler::CompilationError;
use sierra_to_casm::compiler::SierraToCasmConfig;
use sierra_to_casm::compiler::StatementKindDebugInfo;
use sierra_to_casm::environment::Environment;
use sierra_to_casm::ids::BranchTarget;
use sierra_to_casm::ids::LibfuncId;
use sierra_to_casm::ids::StatementIdx;
use sierra_to_casm::ids::TypeId;
use sierra_to_casm::ids::VarId;
use sierra_to_casm::invocations::BranchChanges;
use sierra_to_casm::invocations::CompiledInvocation;
use sierra_to_casm::invocations::InvocationCompiler;
use sierra_to_casm::invocations::InvocationError;
use sierra_to_casm::invocations::OutputReferenceValue;
use sierra_to_casm::invocations::ProgramInfo;
use sierra_to_casm::metadata::ApChangeInfo;
use sierra_to_casm::metadata::GasInfo;
use sierra_to_casm::metadata::Metadata;
use sierra_to_casm::program::ConcreteLibfunc;
use sierra_to_casm::program::ConcreteType;
use sierra_to_casm::program::ConstAsBox;
use sierra_to_casm::program::GenericArg;
use sierra_to_casm::program::Invocation;
use sierra_to_casm::program::SierraApChange;
use sierra_to_casm::program::Statement;
use sierra_to_casm::references::ApChange;
use sierra_to_casm::references::CellExpression;
use sierra_to_casm::references::ReferenceExpression;
use sierra_to_casm::references::ReferenceValue;
use sierra_to_casm::relocations::Relocation;
use sierra_to_casm::relocations::RelocationEntry;
use sierra_to_casm::sierra::resolve_program;
use sierra_to_casm::sierra::Registry;

fn libfunc_id(name: &str) -> LibfuncId {
    LibfuncId(ConcreteLibfuncId::from_string(name).id)
}

fn type_id(name: &str) -> TypeId {
    TypeId(ConcreteTypeId::from_string(name).id)
}

fn ap(offset: i16) -> Cell {
    Cell { register: Register::AP, offset }
}

fn store_immediate(value: i64) -> Instruction {
    Instruction {
        body: InstructionKind::AssertEq { a: ap(0), b: Operand::Immediate(BigInt::from(value)) },
        inc_ap: true,
        hints: vec![],
    }
}

/// An emitter for constants of 5 and for stores of them.
struct FeltCompiler;

impl InvocationCompiler for FeltCompiler {
    fn compile_invocation(
        &self,
        program_info: ProgramInfo<'_>,
        invocation: &Invocation,
        libfunc: &ConcreteLibfunc,
        _statement_idx: StatementIdx,
        refs: &Vec<ReferenceValue>,
        environment: Environment,
    ) -> Result<CompiledInvocation, InvocationError> {
        let felt = type_id("felt252");
        assert_eq!(program_info.type_sizes.get(&ConcreteTypeId::new(felt.0)), Some(&1));
        let (instructions, cell, ap_change) = if invocation.libfunc_id == libfunc_id("five") {
            assert!(refs.is_empty() && libfunc.param_types.is_empty());
            (vec![], CellExpression::Immediate(BigInt::from(5)), 0)
        } else if invocation.libfunc_id == libfunc_id("store") {
            assert_eq!(libfunc.param_types, vec![felt]);
            assert_eq!(refs[0].expression.cells, vec![CellExpression::Immediate(BigInt::from(5))]);
            (vec![store_immediate(5)], CellExpression::Deref(ap(-1)), 1)
        } else {
            return Err(InvocationError::NotImplemented);
        };
        Ok(CompiledInvocation {
            instructions,
            relocations: vec![],
            results: vec![BranchChanges {
                refs: vec![OutputReferenceValue {
                    expression: ReferenceExpression { cells: vec![cell] },
                    ty: felt,
                }],
                ap_change: ApChange::Known(ap_change),
                gas_change: 0,
            }],
            environment,
        })
    }
}

fn metadata() -> Metadata {
    Metadata {
        ap_change_info: ApChangeInfo { function_ap_change: vec![] },
        gas_info: GasInfo { variable_values: vec![], function_costs: vec![] },
    }
}

fn config() -> SierraToCasmConfig {
    SierraToCasmConfig { gas_usage_check: false, max_bytecode_size: 1000 }
}

/// The registry of a program.
fn registry(program: &Program) -> Registry {
    Registry { inner: ProgramRegistry::new(program).unwrap() }
}

/// The sizes of the types of a program.
fn type_sizes(program: &Program) -> TypeSizeMap {
    get_type_size_map(program, &registry(program).inner).unwrap()
}

const FIVE: &str = "
    type felt252 = felt252;

    libfunc five = felt252_const<5>;
    libfunc store = store_temp<felt252>;

    five() -> (x);
    store(x) -> (y);
    return(y);

    main@0() -> (felt252);
";

#[test]
fn compiles_a_parsed_program() {
    let program = ProgramParser::new().parse(FIVE).unwrap();
    let compiled = compile(&program, &metadata(), config(), &registry(&program), &type_sizes(&program), &FeltCompiler).unwrap();
    assert_eq!(
        compiled.instructions,
        vec![store_immediate(5), Instruction::new(InstructionKind::Ret, false)]
    );
    let records = &compiled.debug_info.sierra_statement_info;
    let offsets: Vec<usize> = records.iter().map(|r| r.code_offset).collect();
    assert_eq!(offsets, vec![0, 2, 3, 3]);
    match &records[2].additional_kind_info {
        StatementKindDebugInfo::Return(info) => {
            assert_eq!(info.ref_values.len(), 1);
            assert_eq!(info.ref_values[0].expression.cells, vec![CellExpression::Deref(ap(-1))]);
            assert_eq!(info.ref_values[0].ty, type_id("felt252"));
            assert_eq!(info.ref_values[0].introduction_point, StatementIdx(1));
        }
        other => panic!("the record of a return is expected, not {other:?}"),
    }
}

#[test]
fn resolves_a_parsed_program() {
    let program = ProgramParser::new().parse(FIVE).unwrap();
    let resolved = resolve_program(&program, &registry(&program));
    let sizes = type_sizes(&program);
    let x = VarId(cairo_lang_sierra::ids::VarId::from_string("x").id);
    let y = VarId(cairo_lang_sierra::ids::VarId::from_string("y").id);
    assert_eq!(resolved.statements.len(), 3);
    match &resolved.statements[1] {
        Statement::Invocation(invocation) => {
            assert_eq!(invocation.libfunc_id, libfunc_id("store"));
            assert_eq!(invocation.args, vec![x]);
            assert_eq!(invocation.branches.len(), 1);
            assert_eq!(invocation.branches[0].target, BranchTarget::Fallthrough);
            assert_eq!(invocation.branches[0].results, vec![y]);
        }
        other => panic!("an invocation is expected, not {other:?}"),
    }
    assert_eq!(resolved.statements[2], Statement::Return(vec![y]));
    assert_eq!(resolved.funcs.len(), 1);
    assert_eq!(resolved.funcs[0].entry_point, StatementIdx(0));
    assert_eq!(resolved.funcs[0].ret_types, vec![type_id("felt252")]);
    assert!(resolved.funcs[0].params.is_empty());
    assert_eq!(resolved.type_declarations.len(), 1);
    assert_eq!(resolved.type_declarations[0].id, type_id("felt252"));
    assert_eq!(resolved.type_declarations[0].ty, ConcreteType::Other);
    assert_eq!(resolved.libfunc_declarations.len(), 2);
    let store = &resolved.libfunc_declarations[1];
    assert_eq!(store.id, libfunc_id("store"));
    assert_eq!(store.libfunc.param_types, vec![type_id("felt252")]);
    assert_eq!(store.libfunc.branch_signatures.len(), 1);
    assert_eq!(store.libfunc.branch_signatures[0].vars, vec![type_id("felt252")]);
    assert_eq!(
        store.libfunc.branch_signatures[0].ap_change,
        SierraApChange::Known { new_vars_only: true }
    );
    assert_eq!(store.libfunc.fallthrough, Some(0));
    assert_eq!(store.libfunc.const_as_box, None);
    assert_eq!(sizes.get(&ConcreteTypeId::new(type_id("felt252").0)), Some(&1));
    assert_eq!(sizes.len(), 1);
}

const CONSTS: &str = "
    type felt252 = felt252;
    type c7 = Const<felt252, 7>;
    type c11 = Const<felt252, 11>;
    type c13 = Const<felt252, 13>;
    type BoxFelt = Box<felt252>;
    type Pair = Struct<ut@Pair, felt252, felt252>;
    type cpair = Const<Pair, c11, c7>;
    type BoxPair = Box<Pair>;
    type Choice = Enum<ut@Choice, felt252, Pair, felt252>;
    type cchoice = Const<Choice, 2, c13>;
    type BoxChoice = Box<Choice>;

    libfunc box7 = const_as_box<c7, 0>;
    libfunc box11 = const_as_box<c11, 0>;
    libfunc box13 = const_as_box<c13, 1>;
    libfunc boxpair = const_as_box<cpair, 1>;
    libfunc boxchoice = const_as_box<cchoice, 2>;

    return();

    main@0() -> ();
";

fn big(values: &[i64]) -> Vec<BigInt> {
    values.iter().map(|v| BigInt::from(*v)).collect()
}

#[test]
fn lays_out_the_constants_of_a_parsed_program() {
    let program = ProgramParser::new().parse(CONSTS).unwrap();
    let compiled = compile(&program, &metadata(), config(), &registry(&program), &type_sizes(&program), &FeltCompiler).unwrap();
    let consts = &compiled.consts_info;
    assert_eq!(consts.segments.len(), 3);
    let first = consts.segments.get(&0).unwrap();
    let second = consts.segments.get(&1).unwrap();
    let third = consts.segments.get(&2).unwrap();
    assert_eq!(first.values, big(&[7, 11]));
    assert_eq!(second.values, big(&[13, 11, 7]));
    // The third variant of three is selected by 1; the enum takes three
    // cells, its variant one, so that one zero lies between.
    assert_eq!(third.values, big(&[1, 0, 13]));
    assert_eq!(first.segment_offset, 0);
    assert_eq!(second.segment_offset, 3);
    assert_eq!(third.segment_offset, 7);
    assert_eq!(consts.total_segments_size, 11);
    assert_eq!(second.const_offset.get(&type_id("c13").0), Some(&0));
    assert_eq!(second.const_offset.get(&type_id("cpair").0), Some(&1));
    assert_eq!(compiled.instructions.len(), 1);
}

#[test]
fn resolves_the_types_of_a_parsed_program() {
    let program = ProgramParser::new().parse(CONSTS).unwrap();
    let resolved = resolve_program(&program, &registry(&program));
    let sizes = type_sizes(&program);
    assert_eq!(sizes.get(&ConcreteTypeId::new(type_id("Choice").0)), Some(&3));
    let declared = |name: &str| {
        resolved.type_declarations.iter().find(|d| d.id == type_id(name)).unwrap().ty.clone()
    };
    assert_eq!(
        declared("c7"),
        ConcreteType::Const {
            inner_ty: type_id("felt252"),
            inner_data: vec![GenericArg::Value(BigInt::from(7))],
        }
    );
    assert_eq!(declared("Pair"), ConcreteType::Struct);
    assert_eq!(
        declared("cpair"),
        ConcreteType::Const {
            inner_ty: type_id("Pair"),
            inner_data: vec![GenericArg::Type(type_id("c11")), GenericArg::Type(type_id("c7"))],
        }
    );
    assert_eq!(
        declared("Choice"),
        ConcreteType::Enum {
            variants: vec![type_id("felt252"), type_id("Pair"), type_id("felt252")],
        }
    );
    assert_eq!(declared("BoxFelt"), ConcreteType::Other);
    let box13 = &resolved.libfunc_declarations[2];
    assert_eq!(
        box13.libfunc.const_as_box,
        Some(ConstAsBox { const_type: type_id("c13"), segment_id: 1 })
    );
    assert!(box13.libfunc.param_types.is_empty());
}

#[test]
fn reports_what_the_registry_does_not_know() {
    let program = ProgramParser::new().parse(FIVE).unwrap();
    let other = ProgramParser::new()
        .parse(
            "type felt252 = felt252; libfunc five = felt252_const<5>; five() -> (x); return(x); \
             main@0() -> (felt252);",
        )
        .unwrap();
    let resolved = resolve_program(&program, &registry(&other));
    assert_eq!(resolved.statements.len(), 3);
    assert_eq!(resolved.libfunc_declarations.len(), 1);
    assert_eq!(resolved.libfunc_declarations[0].id, libfunc_id("five"));
    let result = compile(
        &program,
        &metadata(),
        config(),
        &registry(&other),
        &type_sizes(&program),
        &FeltCompiler,
    );
    let expected = ProgramRegistryError::MissingLibfunc(ConcreteLibfuncId::from_string("store"));
    assert_eq!(result, Err(Box::new(CompilationError::ProgramRegistryError(Box::new(expected)))));
}

#[test]
fn reports_what_the_emitter_refuses() {
    let program = ProgramParser::new()
        .parse(
            "type felt252 = felt252; libfunc one = felt252_const<1>; one() -> (x); return(x); \
             main@0() -> (felt252);",
        )
        .unwrap();
    let result = compile(&program, &metadata(), config(), &registry(&program), &type_sizes(&program), &FeltCompiler);
    assert_eq!(
        result,
        Err(Box::new(CompilationError::InvocationError {
            statement_idx: StatementIdx(0),
            error: InvocationError::NotImplemented,
        }))
    );
}

const BRANCHES: &str = "
    type felt252 = felt252;
    type NonZeroFelt = NonZero<felt252>;

    libfunc is_zero = felt252_is_zero;
    libfunc align = branch_align;
    libfunc forget = drop<NonZeroFelt>;
    libfunc five = felt252_const<5>;
    libfunc store = store_temp<felt252>;
    libfunc revoke = revoke_ap_tracking;

    is_zero(x) { fallthrough() NonZero(y) };
    align() -> ();
    five() -> (r);
    store(r) -> (r);
    return(r);
    NonZero:
    align() -> ();
    forget(y) -> ();
    five() -> (r);
    store(r) -> (r);
    return(r);

    main@0(x: felt252) -> (felt252);
";

fn fp(offset: i16) -> Cell {
    Cell { register: Register::FP, offset }
}

fn jump_if_not_zero(offset: i64) -> Instruction {
    Instruction {
        body: InstructionKind::Jnz {
            jump_offset: CellOrConst::Immediate(BigInt::from(offset)),
            condition: fp(-3),
        },
        inc_ap: false,
        hints: vec![],
    }
}

/// An emitter for the library functions of `BRANCHES`.
struct BranchCompiler;

impl InvocationCompiler for BranchCompiler {
    fn compile_invocation(
        &self,
        program_info: ProgramInfo<'_>,
        invocation: &Invocation,
        libfunc: &ConcreteLibfunc,
        statement_idx: StatementIdx,
        refs: &Vec<ReferenceValue>,
        environment: Environment,
    ) -> Result<CompiledInvocation, InvocationError> {
        let no_changes = BranchChanges { refs: vec![], ap_change: ApChange::Known(0), gas_change: 0 };
        if invocation.libfunc_id == libfunc_id("is_zero") {
            let BranchTarget::Statement(target) = invocation.branches[1].target else {
                return Err(InvocationError::NotImplemented);
            };
            let non_zero = OutputReferenceValue {
                expression: refs[0].expression.clone(),
                ty: type_id("NonZeroFelt"),
            };
            Ok(CompiledInvocation {
                instructions: vec![jump_if_not_zero(0)],
                relocations: vec![RelocationEntry {
                    instruction_idx: 0,
                    relocation: Relocation::RelativeStatementId(target),
                }],
                results: vec![no_changes.clone(), BranchChanges { refs: vec![non_zero], ..no_changes }],
                environment,
            })
        } else if libfunc.branch_signatures[0].vars.is_empty() {
            let results = vec![no_changes];
            Ok(CompiledInvocation { instructions: vec![], relocations: vec![], results, environment })
        } else {
            let inner = FeltCompiler;
            inner.compile_invocation(program_info, invocation, libfunc, statement_idx, refs, environment)
        }
    }
}

#[test]
fn resolves_the_branches_of_a_parsed_program() {
    let program = ProgramParser::new().parse(BRANCHES).unwrap();
    let resolved = resolve_program(&program, &registry(&program));
    let x = VarId(cairo_lang_sierra::ids::VarId::from_string("x").id);
    let y = VarId(cairo_lang_sierra::ids::VarId::from_string("y").id);
    match &resolved.statements[0] {
        Statement::Invocation(invocation) => {
            assert_eq!(invocation.args, vec![x]);
            assert_eq!(invocation.branches.len(), 2);
            assert_eq!(invocation.branches[0].target, BranchTarget::Fallthrough);
            assert!(invocation.branches[0].results.is_empty());
            assert_eq!(invocation.branches[1].target, BranchTarget::Statement(StatementIdx(5)));
            assert_eq!(invocation.branches[1].results, vec![y]);
        }
        other => panic!("an invocation is expected, not {other:?}"),
    }
    assert_eq!(resolved.funcs[0].params.len(), 1);
    assert_eq!(resolved.funcs[0].params[0].id, x);
    assert_eq!(resolved.funcs[0].params[0].ty, type_id("felt252"));
    let declared = |name: &str| {
        resolved.libfunc_declarations.iter().find(|d| d.id == libfunc_id(name)).unwrap().libfunc.clone()
    };
    let is_zero = declared("is_zero");
    assert_eq!(is_zero.param_types, vec![type_id("felt252")]);
    assert_eq!(is_zero.branch_signatures.len(), 2);
    assert!(is_zero.branch_signatures[0].vars.is_empty());
    assert_eq!(is_zero.branch_signatures[1].vars, vec![type_id("NonZeroFelt")]);
    assert_eq!(is_zero.fallthrough, Some(0));
    assert_eq!(declared("align").branch_signatures[0].ap_change, SierraApChange::BranchAlign);
    assert_eq!(declared("revoke").branch_signatures[0].ap_change, SierraApChange::Unknown);
    assert_eq!(
        declared("forget").branch_signatures[0].ap_change,
        SierraApChange::Known { new_vars_only: true }
    );
}

#[test]
fn compiles_the_branches_of_a_parsed_program() {
    let program = ProgramParser::new().parse(BRANCHES).unwrap();
    let compiled = compile(&program, &metadata(), config(), &registry(&program), &type_sizes(&program), &BranchCompiler).unwrap();
    let ret = || Instruction::new(InstructionKind::Ret, false);
    // The jump leads from the offset 0 to the offset 5 that is recorded for
    // the statement 5.
    assert_eq!(
        compiled.instructions,
        vec![jump_if_not_zero(5), store_immediate(5), ret(), store_immediate(5), ret()]
    );
    let offsets: Vec<usize> =
        compiled.debug_info.sierra_statement_info.iter().map(|r| r.code_offset).collect();
    assert_eq!(offsets, vec![2, 2, 2, 4, 5, 5, 5, 5, 7, 8, 8]);
    match &compiled.debug_info.sierra_statement_info[0].additional_kind_info {
        StatementKindDebugInfo::Invoke(info) => {
            assert_eq!(info.ref_values.len(), 1);
            assert_eq!(info.ref_values[0].expression.cells, vec![CellExpression::Deref(fp(-3))]);
            assert_eq!(info.result_branch_changes.len(), 2);
        }
        other => panic!("the record of an invocation is expected, not {other:?}"),
    }
    assert!(compiled.can_assemble());
    assert_eq!(compiled.assemble().bytecode.len(), 8);
}
