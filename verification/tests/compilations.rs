//! Whole compilations of small hand-written programs.

use cairo_lang_sierra::ids::ConcreteTypeId;
use cairo_lang_sierra_type_size::TypeSizeMap;
use num_bigint::BigInt;
use sierra_to_casm::annotations::AnnotationError;
use sierra_to_casm::casm::Cell;
use sierra_to_casm::casm::Instruction;
use sierra_to_casm::casm::InstructionKind;
use sierra_to_casm::casm::Operand;
use sierra_to_casm::casm::Register;
use sierra_to_casm::compiler::compile_program;
use sierra_to_casm::compiler::CairoProgram;
use sierra_to_casm::compiler::CompilationError;
use sierra_to_casm::compiler::CompilationState;
use sierra_to_casm::compiler::SierraToCasmConfig;
use sierra_to_casm::compiler::StatementKindDebugInfo;
use sierra_to_casm::consts::extract_const_value;
use sierra_to_casm::consts::ConstsInfo;
use sierra_to_casm::environment::Environment;
use sierra_to_casm::ids::BranchTarget;
use sierra_to_casm::ids::FunctionId;
use sierra_to_casm::ids::LibfuncId;
use sierra_to_casm::ids::StatementIdx;
use sierra_to_casm::ids::TypeId;
use sierra_to_casm::ids::VarId;
use sierra_to_casm::invocations::BranchChanges;
use sierra_to_casm::invocations::CompiledInvocation;
use sierra_to_casm::invocations::InvocationCompiler;
use sierra_to_casm::invocations::InvocationError;
use sierra_to_casm::invocations::OutputReferenceValue;
use sierra_to_casm::invocations::ProgramInfo;
use sierra_to_casm::metadata::ApChangeInfo;
use sierra_to_casm::metadata::GasInfo;
use sierra_to_casm::metadata::Metadata;
use sierra_to_casm::program::BranchInfo;
use sierra_to_casm::program::BranchSignature;
use sierra_to_casm::program::ConcreteLibfunc;
use sierra_to_casm::program::ConcreteType;
use sierra_to_casm::program::ConstAsBox;
use sierra_to_casm::program::Function;
use sierra_to_casm::program::GenericArg;
use sierra_to_casm::program::Invocation;
use sierra_to_casm::program::LibfuncDeclaration;
use sierra_to_casm::program::ResolvedProgram;
use sierra_to_casm::program::SierraApChange;
use sierra_to_casm::program::Statement;
use sierra_to_casm::program::TypeDeclaration;
use sierra_to_casm::references::ApChange;
use sierra_to_casm::references::CellExpression;
use sierra_to_casm::references::ReferenceExpression;
use sierra_to_casm::references::ReferenceValue;
use sierra_to_casm::references::ReferencesError;

const FELT: TypeId = TypeId(1);

/// An emitter that gives, for the library function with the number `n`,
/// the code that `code` holds at `n`.
struct TableCompiler {
    code: Vec<CompiledInvocation>,
}

impl InvocationCompiler for TableCompiler {
    fn compile_invocation(
        &self,
        _program_info: ProgramInfo<'_>,
        invocation: &Invocation,
        _libfunc: &ConcreteLibfunc,
        _statement_idx: StatementIdx,
        _refs: &Vec<ReferenceValue>,
        environment: Environment,
    ) -> Result<CompiledInvocation, InvocationError> {
        match self.code.get(invocation.libfunc_id.0 as usize) {
            Some(code) => Ok(CompiledInvocation { environment, ..code.clone() }),
            None => Err(InvocationError::NotImplemented),
        }
    }
}

fn environment() -> Environment {
    Environment::new(sierra_to_casm::environment::GasWallet::Disabled)
}

fn metadata() -> Metadata {
    Metadata {
        ap_change_info: ApChangeInfo { function_ap_change: vec![] },
        gas_info: GasInfo { variable_values: vec![], function_costs: vec![] },
    }
}

fn config(max_bytecode_size: usize) -> SierraToCasmConfig {
    SierraToCasmConfig { gas_usage_check: false, max_bytecode_size }
}

fn felt_sizes() -> TypeSizeMap {
    let mut sizes = TypeSizeMap::default();
    sizes.insert(ConcreteTypeId::new(FELT.0), 1);
    sizes
}

fn main_function(ret_types: Vec<TypeId>) -> Function {
    Function { id: FunctionId(0), params: vec![], ret_types, entry_point: StatementIdx(0) }
}

fn ap(offset: i16) -> Cell {
    Cell { register: Register::AP, offset }
}

/// `[ap + 0] = value, ap++`: two words.
fn store_immediate(value: i64) -> Instruction {
    Instruction {
        body: InstructionKind::AssertEq { a: ap(0), b: Operand::Immediate(BigInt::from(value)) },
        inc_ap: true,
        hints: vec![],
    }
}

/// `[ap + 0] = [ap - 1], ap++`: one word.
fn copy_top() -> Instruction {
    Instruction {
        body: InstructionKind::AssertEq { a: ap(0), b: Operand::Deref(ap(-1)) },
        inc_ap: true,
        hints: vec![],
    }
}

fn stack_output(offset: i16) -> OutputReferenceValue {
    OutputReferenceValue {
        expression: ReferenceExpression { cells: vec![CellExpression::Deref(ap(offset))] },
        ty: FELT,
    }
}

fn simple_libfunc(n_outputs: usize) -> ConcreteLibfunc {
    ConcreteLibfunc {
        param_types: vec![],
        branch_signatures: vec![BranchSignature {
            vars: vec![FELT; n_outputs],
            ap_change: SierraApChange::Known { new_vars_only: true },
        }],
        fallthrough: Some(0),
        const_as_box: None,
    }
}

fn fallthrough(results: Vec<VarId>) -> BranchInfo {
    BranchInfo { target: BranchTarget::Fallthrough, results }
}

fn code_offsets(program: &CairoProgram) -> Vec<usize> {
    program.debug_info.sierra_statement_info.iter().map(|record| record.code_offset).collect()
}

fn instruction_indices(program: &CairoProgram) -> Vec<usize> {
    program.debug_info.sierra_statement_info.iter().map(|record| record.instruction_idx).collect()
}

#[test]
fn empty_return() {
    let program = ResolvedProgram {
        type_declarations: vec![],
        libfunc_declarations: vec![],
        statements: vec![Statement::Return(vec![])],
        funcs: vec![main_function(vec![])],
    };
    let compiler = TableCompiler { code: vec![] };
    let compiled =
        compile_program(&program, &metadata(), config(100), &felt_sizes(), &compiler).unwrap();
    assert_eq!(compiled.instructions, vec![Instruction::new(InstructionKind::Ret, false)]);
    assert_eq!(code_offsets(&compiled), vec![1, 1]);
    assert_eq!(instruction_indices(&compiled), vec![1, 1]);
    let records = &compiled.debug_info.sierra_statement_info;
    assert!(matches!(records[0].additional_kind_info, StatementKindDebugInfo::Return(_)));
    assert_eq!(records[1].additional_kind_info, StatementKindDebugInfo::EndMarker);
    assert_eq!(compiled.consts_info.segments.len(), 0);
    assert_eq!(compiled.consts_info.total_segments_size, 0);
}

#[test]
fn single_invoke_no_branching() {
    let program = ResolvedProgram {
        type_declarations: vec![],
        libfunc_declarations: vec![LibfuncDeclaration { id: LibfuncId(0), libfunc: simple_libfunc(0) }],
        statements: vec![
            Statement::Invocation(Invocation {
                libfunc_id: LibfuncId(0),
                args: vec![],
                branches: vec![fallthrough(vec![])],
            }),
            Statement::Return(vec![]),
        ],
        funcs: vec![main_function(vec![])],
    };
    let compiler = TableCompiler {
        code: vec![CompiledInvocation {
            instructions: vec![store_immediate(5), copy_top()],
            relocations: vec![],
            results: vec![BranchChanges { refs: vec![], ap_change: ApChange::Known(2), gas_change: 0 }],
            environment: environment(),
        }],
    };
    let compiled =
        compile_program(&program, &metadata(), config(100), &felt_sizes(), &compiler).unwrap();
    assert_eq!(code_offsets(&compiled), vec![3, 4, 4]);
    assert_eq!(instruction_indices(&compiled), vec![2, 3, 3]);
    assert_eq!(
        compiled.instructions,
        vec![store_immediate(5), copy_top(), Instruction::new(InstructionKind::Ret, false)]
    );
    let records = &compiled.debug_info.sierra_statement_info;
    assert!(matches!(records[0].additional_kind_info, StatementKindDebugInfo::Invoke(_)));
    assert!(matches!(records[1].additional_kind_info, StatementKindDebugInfo::Return(_)));
}

fn const_felt(id: u64, value: i64) -> TypeDeclaration {
    TypeDeclaration {
        id: TypeId(id),
        ty: ConcreteType::Const { inner_ty: FELT, inner_data: vec![GenericArg::Value(BigInt::from(value))] },
    }
}

fn as_box(id: u64, const_type: u64, segment_id: u32) -> LibfuncDeclaration {
    LibfuncDeclaration {
        id: LibfuncId(id),
        libfunc: ConcreteLibfunc {
            const_as_box: Some(ConstAsBox { const_type: TypeId(const_type), segment_id }),
            ..simple_libfunc(1)
        },
    }
}

fn const_program(segments: [u32; 3]) -> ResolvedProgram {
    ResolvedProgram {
        type_declarations: vec![
            TypeDeclaration { id: FELT, ty: ConcreteType::Other },
            const_felt(7, 7),
            const_felt(11, 11),
            const_felt(13, 13),
        ],
        libfunc_declarations: vec![
            as_box(0, 7, segments[0]),
            as_box(1, 11, segments[1]),
            as_box(2, 13, segments[2]),
        ],
        statements: vec![Statement::Return(vec![])],
        funcs: vec![main_function(vec![])],
    }
}

fn big(values: &[i64]) -> Vec<BigInt> {
    values.iter().map(|v| BigInt::from(*v)).collect()
}

#[test]
fn const_segment_layout() {
    let program = const_program([0, 0, 1]);
    let compiler = TableCompiler { code: vec![] };
    let compiled =
        compile_program(&program, &metadata(), config(100), &felt_sizes(), &compiler).unwrap();
    let consts = &compiled.consts_info;
    assert_eq!(consts.segments.len(), 2);
    let first = consts.segments.get(&0).unwrap();
    let second = consts.segments.get(&1).unwrap();
    assert_eq!(first.values, big(&[7, 11]));
    assert_eq!(second.values, big(&[13]));
    assert_eq!(first.segment_offset, 0);
    assert_eq!(second.segment_offset, 3);
    assert_eq!(consts.total_segments_size, 5);
    assert_eq!(first.const_offset.get(&7), Some(&0));
    assert_eq!(first.const_offset.get(&11), Some(&1));
    assert_eq!(second.const_offset.get(&13), Some(&0));
    assert_eq!(consts.segments.keys().copied().collect::<Vec<u32>>(), vec![0, 1]);
}

#[test]
fn out_of_order_segments() {
    let program = const_program([0, 0, 2]);
    let compiler = TableCompiler { code: vec![] };
    let result = compile_program(&program, &metadata(), config(100), &felt_sizes(), &compiler);
    assert_eq!(result, Err(Box::new(CompilationError::ConstSegmentsOutOfOrder)));
}

#[test]
fn dangling_reference() {
    let program = ResolvedProgram {
        type_declarations: vec![],
        libfunc_declarations: vec![LibfuncDeclaration { id: LibfuncId(0), libfunc: simple_libfunc(2) }],
        statements: vec![
            Statement::Invocation(Invocation {
                libfunc_id: LibfuncId(0),
                args: vec![],
                branches: vec![fallthrough(vec![VarId(0), VarId(1)])],
            }),
            Statement::Return(vec![VarId(1)]),
        ],
        funcs: vec![main_function(vec![FELT])],
    };
    let compiler = TableCompiler {
        code: vec![CompiledInvocation {
            instructions: vec![store_immediate(1), store_immediate(2)],
            relocations: vec![],
            results: vec![BranchChanges {
                refs: vec![stack_output(-2), stack_output(-1)],
                ap_change: ApChange::Known(2),
                gas_change: 0,
            }],
            environment: environment(),
        }],
    };
    let result = compile_program(&program, &metadata(), config(100), &felt_sizes(), &compiler);
    assert_eq!(
        result,
        Err(Box::new(CompilationError::DanglingReferences {
            statement_idx: StatementIdx(1),
            var_id: VarId(0),
        }))
    );
}

fn two_branch_libfunc() -> ConcreteLibfunc {
    let branch = BranchSignature { vars: vec![], ap_change: SierraApChange::Known { new_vars_only: true } };
    ConcreteLibfunc {
        param_types: vec![],
        branch_signatures: vec![branch.clone(), branch],
        fallthrough: Some(0),
        const_as_box: None,
    }
}

fn branch_align_libfunc() -> ConcreteLibfunc {
    ConcreteLibfunc {
        param_types: vec![],
        branch_signatures: vec![BranchSignature { vars: vec![], ap_change: SierraApChange::BranchAlign }],
        fallthrough: Some(0),
        const_as_box: None,
    }
}

fn no_changes() -> BranchChanges {
    BranchChanges { refs: vec![], ap_change: ApChange::Known(0), gas_change: 0 }
}

fn no_code(n_branches: usize) -> CompiledInvocation {
    CompiledInvocation {
        instructions: vec![],
        relocations: vec![],
        results: vec![no_changes(); n_branches],
        environment: environment(),
    }
}

fn invoke(libfunc: u64, branches: Vec<BranchInfo>) -> Statement {
    Statement::Invocation(Invocation { libfunc_id: LibfuncId(libfunc), args: vec![], branches })
}

fn jump(target: usize) -> BranchInfo {
    BranchInfo { target: BranchTarget::Statement(StatementIdx(target)), results: vec![] }
}

#[test]
fn branching_without_align() {
    let program = ResolvedProgram {
        type_declarations: vec![],
        libfunc_declarations: vec![
            LibfuncDeclaration { id: LibfuncId(0), libfunc: two_branch_libfunc() },
            LibfuncDeclaration { id: LibfuncId(1), libfunc: simple_libfunc(0) },
        ],
        statements: vec![
            invoke(0, vec![fallthrough(vec![]), jump(2)]),
            invoke(1, vec![fallthrough(vec![])]),
            Statement::Return(vec![]),
        ],
        funcs: vec![main_function(vec![])],
    };
    let compiler = TableCompiler { code: vec![no_code(2), no_code(1)] };
    let result = compile_program(&program, &metadata(), config(100), &felt_sizes(), &compiler);
    assert_eq!(
        result,
        Err(Box::new(CompilationError::ExpectedBranchAlign {
            source_statement_idx: StatementIdx(0),
            destination_statement_idx: StatementIdx(1),
        }))
    );
}

#[test]
fn branching_with_align() {
    let program = ResolvedProgram {
        type_declarations: vec![],
        libfunc_declarations: vec![
            LibfuncDeclaration { id: LibfuncId(0), libfunc: two_branch_libfunc() },
            LibfuncDeclaration { id: LibfuncId(1), libfunc: branch_align_libfunc() },
        ],
        statements: vec![
            invoke(0, vec![fallthrough(vec![]), jump(3)]),
            invoke(1, vec![fallthrough(vec![])]),
            Statement::Return(vec![]),
            invoke(1, vec![fallthrough(vec![])]),
            Statement::Return(vec![]),
        ],
        funcs: vec![main_function(vec![])],
    };
    let compiler = TableCompiler { code: vec![no_code(2), no_code(1)] };
    let compiled =
        compile_program(&program, &metadata(), config(100), &felt_sizes(), &compiler).unwrap();
    assert_eq!(code_offsets(&compiled), vec![0, 0, 1, 1, 2, 2]);
    assert_eq!(instruction_indices(&compiled), vec![0, 0, 1, 1, 2, 2]);
}

#[test]
fn budget_overflow() {
    let program = ResolvedProgram {
        type_declarations: vec![],
        libfunc_declarations: vec![LibfuncDeclaration { id: LibfuncId(0), libfunc: simple_libfunc(0) }],
        statements: vec![invoke(0, vec![fallthrough(vec![])]), Statement::Return(vec![])],
        funcs: vec![main_function(vec![])],
    };
    let compiler = TableCompiler {
        code: vec![CompiledInvocation {
            instructions: vec![store_immediate(1), store_immediate(2)],
            ..no_code(1)
        }],
    };
    let result = compile_program(&program, &metadata(), config(3), &felt_sizes(), &compiler);
    assert_eq!(result, Err(Box::new(CompilationError::CodeSizeLimitExceeded)));
    let fits = compile_program(&program, &metadata(), config(5), &felt_sizes(), &compiler);
    assert_eq!(code_offsets(&fits.unwrap()), vec![4, 5, 5]);
}

#[test]
fn budget_counts_the_constants() {
    let program = const_program([0, 0, 1]);
    let compiler = TableCompiler { code: vec![] };
    let tight = compile_program(&program, &metadata(), config(6), &felt_sizes(), &compiler);
    assert_eq!(tight.unwrap().consts_info.total_segments_size, 5);
    let short = compile_program(&program, &metadata(), config(5), &felt_sizes(), &compiler);
    assert_eq!(short, Err(Box::new(CompilationError::CodeSizeLimitExceeded)));
}

#[test]
fn enum_const_emission() {
    let triple = TypeId(2);
    let enum_type = TypeId(3);
    let program = ResolvedProgram {
        type_declarations: vec![
            TypeDeclaration { id: FELT, ty: ConcreteType::Other },
            TypeDeclaration { id: triple, ty: ConcreteType::Other },
            TypeDeclaration { id: enum_type, ty: ConcreteType::Enum { variants: vec![triple, FELT, triple] } },
            const_felt(4, 42),
            TypeDeclaration {
                id: TypeId(5),
                ty: ConcreteType::Const {
                    inner_ty: enum_type,
                    inner_data: vec![GenericArg::Value(BigInt::from(1)), GenericArg::Type(TypeId(4))],
                },
            },
        ],
        libfunc_declarations: vec![],
        statements: vec![],
        funcs: vec![],
    };
    let mut sizes = felt_sizes();
    sizes.insert(ConcreteTypeId::new(triple.0), 3);
    sizes.insert(ConcreteTypeId::new(enum_type.0), 4);
    let words = extract_const_value(&program, &sizes, TypeId(5)).unwrap();
    assert_eq!(words, big(&[3, 0, 0, 42]));
    let consts = ConstsInfo::new(&program, &sizes, &vec![], 10).unwrap();
    assert_eq!(consts.total_segments_size, 0);
}

/// A program of one invocation that produces the variable 0, and the
/// return of `returned`.
fn produce_and_return(returned: Vec<VarId>) -> ResolvedProgram {
    ResolvedProgram {
        type_declarations: vec![],
        libfunc_declarations: vec![LibfuncDeclaration { id: LibfuncId(0), libfunc: simple_libfunc(1) }],
        statements: vec![
            Statement::Invocation(Invocation {
                libfunc_id: LibfuncId(0),
                args: vec![],
                branches: vec![fallthrough(vec![VarId(0)])],
            }),
            Statement::Return(returned),
        ],
        funcs: vec![main_function(vec![FELT])],
    }
}

fn producing(outputs: Vec<OutputReferenceValue>) -> TableCompiler {
    TableCompiler {
        code: vec![CompiledInvocation {
            instructions: vec![store_immediate(1)],
            relocations: vec![],
            results: vec![BranchChanges { refs: outputs, ap_change: ApChange::Known(1), gas_change: 0 }],
            environment: environment(),
        }],
    }
}

fn compile_one(program: &ResolvedProgram, compiler: &TableCompiler) -> Result<CairoProgram, Box<CompilationError>> {
    compile_program(program, &metadata(), config(100), &felt_sizes(), compiler)
}

#[test]
fn return_of_the_top_of_the_stack() {
    let compiled =
        compile_one(&produce_and_return(vec![VarId(0)]), &producing(vec![stack_output(-1)])).unwrap();
    assert_eq!(code_offsets(&compiled), vec![2, 3, 3]);
    match &compiled.debug_info.sierra_statement_info[1].additional_kind_info {
        StatementKindDebugInfo::Return(info) => assert_eq!(
            info.ref_values,
            vec![ReferenceValue {
                expression: ReferenceExpression { cells: vec![CellExpression::Deref(ap(-1))] },
                ty: FELT,
                introduction_point: StatementIdx(0),
            }]
        ),
        other => panic!("the record of a return is expected, not {other:?}"),
    }
}

#[test]
fn return_arguments_not_on_stack() {
    let result = compile_one(&produce_and_return(vec![VarId(0)]), &producing(vec![stack_output(-2)]));
    assert_eq!(
        result,
        Err(Box::new(CompilationError::ReturnArgumentsNotOnStack { statement_idx: StatementIdx(1) }))
    );
}

#[test]
fn return_of_a_variable_that_is_not_bound() {
    let result = compile_one(&produce_and_return(vec![VarId(5)]), &producing(vec![stack_output(-1)]));
    assert_eq!(
        result,
        Err(Box::new(CompilationError::AnnotationError(AnnotationError::MissingReferenceError {
            statement_idx: StatementIdx(1),
            var_id: VarId(5),
        })))
    );
}

#[test]
fn reference_of_the_wrong_size() {
    let wide = OutputReferenceValue {
        expression: ReferenceExpression {
            cells: vec![CellExpression::Deref(ap(-2)), CellExpression::Deref(ap(-1))],
        },
        ty: FELT,
    };
    let result = compile_one(&produce_and_return(vec![VarId(0)]), &producing(vec![wide]));
    assert_eq!(
        result,
        Err(Box::new(CompilationError::ReferencesError {
            statement_idx: StatementIdx(1),
            error: ReferencesError::InvalidReferenceSize,
        }))
    );
}

#[test]
fn invocation_of_another_shape_than_its_libfunc() {
    let mut program = produce_and_return(vec![VarId(0)]);
    program.libfunc_declarations[0].libfunc = simple_libfunc(2);
    let result = compile_one(&program, &producing(vec![stack_output(-1)]));
    let mismatch = CompilationError::LibfuncInvocationMismatch { statement_idx: StatementIdx(0) };
    assert_eq!(result, Err(Box::new(mismatch)));
    // The emitter gives the references of two outputs for one result.
    let result = compile_one(
        &produce_and_return(vec![VarId(0)]),
        &producing(vec![stack_output(-2), stack_output(-1)]),
    );
    let mismatch = CompilationError::LibfuncInvocationMismatch { statement_idx: StatementIdx(0) };
    assert_eq!(result, Err(Box::new(mismatch)));
}

#[test]
fn return_of_the_wrong_type() {
    let mut program = produce_and_return(vec![VarId(0)]);
    program.funcs[0].ret_types = vec![];
    let result = compile_one(&program, &producing(vec![stack_output(-1)]));
    assert_eq!(
        result,
        Err(Box::new(CompilationError::AnnotationError(AnnotationError::ReferencesError {
            statement_idx: StatementIdx(1),
            error: ReferencesError::InvalidReferenceTypeForArgument,
        })))
    );
}

#[test]
fn statement_that_no_path_reaches() {
    let mut program = produce_and_return(vec![VarId(0)]);
    program.statements.push(Statement::Return(vec![]));
    let result = compile_one(&program, &producing(vec![stack_output(-1)]));
    assert_eq!(
        result,
        Err(Box::new(CompilationError::AnnotationError(
            AnnotationError::MissingAnnotationsForStatement(StatementIdx(2))
        )))
    );
}

#[test]
fn compiling_twice_gives_the_same() {
    let program = const_program([0, 0, 1]);
    let compiler = TableCompiler { code: vec![] };
    let first = compile_one(&program, &compiler).unwrap();
    let second = compile_one(&program, &compiler).unwrap();
    assert_eq!(first, second);
    assert_eq!(first.assemble(), second.assemble());
    let program = produce_and_return(vec![VarId(0)]);
    let compiler = producing(vec![stack_output(-1)]);
    assert_eq!(compile_one(&program, &compiler), compile_one(&program, &compiler));
}

#[test]
fn assembled_size_is_within_the_budget() {
    let program = const_program([0, 0, 1]);
    let compiler = TableCompiler { code: vec![] };
    let compiled = compile_program(&program, &metadata(), config(6), &felt_sizes(), &compiler).unwrap();
    assert!(compiled.can_assemble());
    assert_eq!(compiled.assemble().bytecode.len(), 6);
}

#[test]
fn a_pass_step_by_step() {
    let program = produce_and_return(vec![VarId(0)]);
    let sizes = felt_sizes();
    let code = producing(vec![stack_output(-1)]).code.remove(0);
    let mut state = CompilationState::new(&program, &metadata(), false, &sizes).unwrap();
    assert_eq!(state.program_annotations.len(), 2);
    let Statement::Invocation(invocation) = &program.statements[0] else {
        panic!("the first statement is an invocation");
    };
    let (annotations, refs, libfunc) =
        state.prepare_invocation(StatementIdx(0), invocation, &program, &sizes).unwrap();
    assert!(refs.is_empty() && annotations.refs.is_empty());
    assert_eq!(libfunc, &program.libfunc_declarations[0].libfunc);
    state.apply_invocation(StatementIdx(0), invocation, annotations, refs, code, &program).unwrap();
    assert_eq!(state.program_offset, 2);
    assert_eq!(state.instructions, vec![store_immediate(1)]);
    assert_eq!(state.sierra_statement_info.len(), 1);
    let (reached, _) =
        state.program_annotations.get_annotations_after_take_args(StatementIdx(1), &vec![]).unwrap();
    assert_eq!(reached.refs.len(), 1);
    assert_eq!(reached.refs[0].0, VarId(0));
    assert_eq!(reached.environment.ap_tracking, ApChange::Known(1));
    state.compile_return(StatementIdx(1), &vec![VarId(0)], &program, &sizes).unwrap();
    assert_eq!(state.program_offset, 3);
    let finished = state.finish(&program, &sizes, config(100)).unwrap();
    let at_once = compile_one(&program, &producing(vec![stack_output(-1)])).unwrap();
    assert_eq!(finished, at_once);
}

#[test]
fn a_pass_statement_by_statement() {
    let program = produce_and_return(vec![VarId(0)]);
    let sizes = felt_sizes();
    let compiler = producing(vec![stack_output(-1)]);
    let mut state = CompilationState::new(&program, &metadata(), false, &sizes).unwrap();
    assert_eq!(state.compile_statement(0, &program, &metadata(), config(100), &sizes, &compiler), Ok(()));
    assert_eq!(state.program_offset, 2);
    assert_eq!(state.sierra_statement_info.len(), 1);
    assert_eq!(state.compile_statement(1, &program, &metadata(), config(100), &sizes, &compiler), Ok(()));
    assert_eq!(state.program_offset, 3);
    assert_eq!(state.sierra_statement_info.len(), 2);
    let finished = state.finish(&program, &sizes, config(100)).unwrap();
    assert_eq!(finished, compile_one(&program, &compiler).unwrap());
}

#[test]
fn a_statement_behind_code_that_is_out_of_its_bounds() {
    let program = produce_and_return(vec![VarId(0)]);
    let sizes = felt_sizes();
    let compiler = producing(vec![stack_output(-1)]);
    let mut state = CompilationState::new(&program, &metadata(), false, &sizes).unwrap();
    assert_eq!(state.compile_statement(0, &program, &metadata(), config(1), &sizes, &compiler), Ok(()));
    assert_eq!(
        state.compile_statement(1, &program, &metadata(), config(1), &sizes, &compiler),
        Err(CompilationError::CodeSizeLimitExceeded)
    );
    let mut state = CompilationState::new(&program, &metadata(), false, &sizes).unwrap();
    let refused = TableCompiler { code: vec![] };
    assert!(matches!(
        state.compile_statement(0, &program, &metadata(), config(100), &sizes, &refused),
        Err(CompilationError::InvocationError { statement_idx: StatementIdx(0), .. })
    ));
}

#[test]
fn a_variable_is_taken_once() {
    let taking = ConcreteLibfunc { param_types: vec![FELT], ..simple_libfunc(0) };
    let program = ResolvedProgram {
        type_declarations: vec![],
        libfunc_declarations: vec![
            LibfuncDeclaration { id: LibfuncId(0), libfunc: simple_libfunc(1) },
            LibfuncDeclaration { id: LibfuncId(1), libfunc: taking },
        ],
        statements: vec![
            Statement::Invocation(Invocation {
                libfunc_id: LibfuncId(0),
                args: vec![],
                branches: vec![fallthrough(vec![VarId(0)])],
            }),
            Statement::Invocation(Invocation {
                libfunc_id: LibfuncId(1),
                args: vec![VarId(0)],
                branches: vec![fallthrough(vec![])],
            }),
            Statement::Return(vec![VarId(0)]),
        ],
        funcs: vec![main_function(vec![FELT])],
    };
    let mut compiler = producing(vec![stack_output(-1)]);
    compiler.code.push(no_code(1));
    assert_eq!(
        compile_one(&program, &compiler),
        Err(Box::new(CompilationError::AnnotationError(AnnotationError::MissingReferenceError {
            statement_idx: StatementIdx(2),
            var_id: VarId(0),
        })))
    );
}

