//! The parts of the compiler, one by one.

use cairo_lang_casm::hints::CoreHint;
use cairo_lang_casm::hints::CoreHintBase;
use cairo_lang_casm::hints::Hint;
use cairo_lang_sierra::ids::ConcreteLibfuncId;
use cairo_lang_sierra::ids::ConcreteTypeId;
use cairo_lang_sierra::program_registry::ProgramRegistryError;
use cairo_lang_sierra_type_size::TypeSizeMap;
use num_bigint::BigInt;
use sierra_to_casm::annotations::branch_annotations;
use sierra_to_casm::annotations::AnnotationError;
use sierra_to_casm::annotations::ProgramAnnotations;
use sierra_to_casm::annotations::StatementAnnotations;
use sierra_to_casm::assembler::AssembledCairoProgram;
use sierra_to_casm::casm::BinOp;
use sierra_to_casm::casm::Cell;
use sierra_to_casm::casm::CellOrConst;
use sierra_to_casm::casm::Instruction;
use sierra_to_casm::casm::InstructionKind;
use sierra_to_casm::casm::Operand;
use sierra_to_casm::casm::Operation;
use sierra_to_casm::casm::Register;
use sierra_to_casm::compiler::check_basic_structure;
use sierra_to_casm::compiler::compile_program;
use sierra_to_casm::compiler::is_branch_align;
use sierra_to_casm::compiler::CairoProgram;
use sierra_to_casm::compiler::CairoProgramDebugInfo;
use sierra_to_casm::compiler::CompilationError;
use sierra_to_casm::compiler::SierraToCasmConfig;
use sierra_to_casm::consts::extract_const_value;
use sierra_to_casm::consts::extract_const_value_into;
use sierra_to_casm::consts::get_variant_selector;
use sierra_to_casm::consts::ConstsInfo;
use sierra_to_casm::environment::Environment;
use sierra_to_casm::environment::EnvironmentError;
use sierra_to_casm::environment::FrameState;
use sierra_to_casm::environment::GasWallet;
use sierra_to_casm::ids::BranchTarget;
use sierra_to_casm::ids::FunctionId;
use sierra_to_casm::ids::LibfuncId;
use sierra_to_casm::ids::StatementIdx;
use sierra_to_casm::ids::TypeId;
use sierra_to_casm::ids::VarId;
use sierra_to_casm::invocations::check_references_on_stack;
use sierra_to_casm::invocations::BranchChanges;
use sierra_to_casm::invocations::CompiledInvocation;
use sierra_to_casm::invocations::InvocationCompiler;
use sierra_to_casm::invocations::InvocationError;
use sierra_to_casm::invocations::OutputReferenceValue;
use sierra_to_casm::invocations::ProgramInfo;
use sierra_to_casm::metadata::ApChangeInfo;
use sierra_to_casm::metadata::GasInfo;
use sierra_to_casm::metadata::Metadata;
use sierra_to_casm::program::BranchInfo;
use sierra_to_casm::program::BranchSignature;
use sierra_to_casm::program::ConcreteLibfunc;
use sierra_to_casm::program::ConcreteType;
use sierra_to_casm::program::ConstAsBox;
use sierra_to_casm::program::Function;
use sierra_to_casm::program::GenericArg;
use sierra_to_casm::program::Invocation;
use sierra_to_casm::program::LibfuncDeclaration;
use sierra_to_casm::program::Param;
use sierra_to_casm::program::ResolvedProgram;
use sierra_to_casm::program::SierraApChange;
use sierra_to_casm::program::Statement;
use sierra_to_casm::program::TypeDeclaration;
use sierra_to_casm::references::check_types_match;
use sierra_to_casm::references::ApChange;
use sierra_to_casm::references::ApChangeError;
use sierra_to_casm::references::CellExpression;
use sierra_to_casm::references::ReferenceExpression;
use sierra_to_casm::references::ReferenceValue;
use sierra_to_casm::references::ReferencesError;
use sierra_to_casm::relocations::relocate_instructions;
use sierra_to_casm::relocations::Relocation;
use sierra_to_casm::relocations::RelocationEntry;

const FELT: TypeId = TypeId(1);
const PAIR: TypeId = TypeId(2);

fn sizes() -> TypeSizeMap {
    let mut sizes = TypeSizeMap::default();
    sizes.insert(ConcreteTypeId::new(FELT.0), 1);
    sizes.insert(ConcreteTypeId::new(PAIR.0), 2);
    sizes
}

fn metadata() -> Metadata {
    Metadata {
        ap_change_info: ApChangeInfo { function_ap_change: vec![] },
        gas_info: GasInfo { variable_values: vec![], function_costs: vec![(FunctionId(0), 70)] },
    }
}

fn ap(offset: i16) -> Cell {
    Cell { register: Register::AP, offset }
}

fn fp(offset: i16) -> Cell {
    Cell { register: Register::FP, offset }
}

fn reference(cells: Vec<Cell>, ty: TypeId, point: usize) -> ReferenceValue {
    ReferenceValue {
        expression: ReferenceExpression { cells: cells.into_iter().map(CellExpression::Deref).collect() },
        ty,
        introduction_point: StatementIdx(point),
    }
}

fn big(values: &[i64]) -> Vec<BigInt> {
    values.iter().map(|v| BigInt::from(*v)).collect()
}

#[test]
fn variant_selectors() {
    assert_eq!(get_variant_selector(1, 0), Some(0));
    assert_eq!(get_variant_selector(2, 0), Some(0));
    assert_eq!(get_variant_selector(2, 1), Some(1));
    assert_eq!(get_variant_selector(3, 0), Some(5));
    assert_eq!(get_variant_selector(3, 1), Some(3));
    assert_eq!(get_variant_selector(3, 2), Some(1));
    assert_eq!(get_variant_selector(3, 3), None);
    assert_eq!(get_variant_selector(usize::MAX, 0), None);
}

#[test]
fn references_on_stack() {
    let pair = reference(vec![ap(-3), ap(-2)], PAIR, 0);
    let felt = reference(vec![ap(-1)], FELT, 0);
    assert_eq!(check_references_on_stack(&vec![]), Ok(()));
    assert_eq!(check_references_on_stack(&vec![felt.clone()]), Ok(()));
    assert_eq!(check_references_on_stack(&vec![pair.clone(), felt.clone()]), Ok(()));
    let refused = Err(InvocationError::InvalidReferenceExpressionForArgument);
    assert_eq!(check_references_on_stack(&vec![felt.clone(), pair.clone()]), refused);
    assert_eq!(check_references_on_stack(&vec![pair]), refused);
    assert_eq!(check_references_on_stack(&vec![reference(vec![ap(-2)], FELT, 0), felt.clone()]), Ok(()));
    assert_eq!(check_references_on_stack(&vec![reference(vec![ap(-3)], FELT, 0), felt]), refused);
    assert_eq!(check_references_on_stack(&vec![reference(vec![fp(-1)], FELT, 0)]), refused);
    let immediate = ReferenceValue {
        expression: ReferenceExpression { cells: vec![CellExpression::Immediate(BigInt::from(1))] },
        ty: FELT,
        introduction_point: StatementIdx(0),
    };
    assert_eq!(check_references_on_stack(&vec![immediate]), refused);
}

#[test]
fn types_of_references() {
    let refs = vec![reference(vec![ap(-1)], FELT, 0), reference(vec![ap(-3), ap(-2)], PAIR, 0)];
    assert_eq!(check_types_match(&refs, &vec![FELT, PAIR]), Ok(()));
    let refused = Err(ReferencesError::InvalidReferenceTypeForArgument);
    assert_eq!(check_types_match(&refs, &vec![PAIR, FELT]), refused);
    assert_eq!(check_types_match(&refs, &vec![FELT]), refused);
    assert!(refs[0].matches_size(&sizes()));
    assert!(!reference(vec![ap(-1)], PAIR, 0).matches_size(&sizes()));
    assert!(!reference(vec![ap(-1)], TypeId(9), 0).matches_size(&sizes()));
}

#[test]
fn ap_changes_of_references() {
    let value = reference(vec![ap(-1), fp(4)], PAIR, 3);
    let moved = value.apply_ap_change(ApChange::Known(2)).unwrap();
    assert_eq!(moved, reference(vec![ap(-3), fp(4)], PAIR, 3));
    assert_eq!(value.apply_ap_change(ApChange::Unknown), Err(ApChangeError::UnknownApChange));
    let framed = reference(vec![fp(-3)], FELT, 0);
    assert_eq!(framed.apply_ap_change(ApChange::Unknown), Ok(framed.clone()));
    let low = reference(vec![ap(i16::MIN + 1)], FELT, 0);
    assert_eq!(low.apply_ap_change(ApChange::Known(1)), Ok(reference(vec![ap(i16::MIN)], FELT, 0)));
    assert_eq!(low.apply_ap_change(ApChange::Known(2)), Err(ApChangeError::OffsetOverflow));
    assert_eq!(value.apply_ap_change(ApChange::Known(40000)), Err(ApChangeError::OffsetOverflow));
}

fn function(params: Vec<Param>, entry_point: usize) -> Function {
    Function { id: FunctionId(0), params, ret_types: vec![FELT], entry_point: StatementIdx(entry_point) }
}

#[test]
fn parameters_lie_below_the_frame() {
    let params = vec![Param { id: VarId(0), ty: FELT }, Param { id: VarId(1), ty: PAIR }];
    let annotations =
        ProgramAnnotations::create(3, &vec![function(params, 1)], &metadata(), true, &sizes()).unwrap();
    assert_eq!(annotations.len(), 3);
    let (rest, taken) =
        annotations.get_annotations_after_take_args(StatementIdx(1), &vec![VarId(0), VarId(1)]).unwrap();
    assert_eq!(
        taken,
        vec![reference(vec![fp(-5)], FELT, 1), reference(vec![fp(-4), fp(-3)], PAIR, 1)]
    );
    assert!(rest.refs.is_empty());
    assert_eq!(rest.function_id, FunctionId(0));
    assert_eq!(
        rest.environment,
        Environment {
            ap_tracking: ApChange::Known(0),
            frame_state: FrameState::BeforeAllocation,
            gas_wallet: GasWallet::Value(70),
        }
    );
    assert_eq!(
        annotations.get_annotations_after_take_args(StatementIdx(0), &vec![]),
        Err(AnnotationError::MissingAnnotationsForStatement(StatementIdx(0)))
    );
    assert_eq!(
        annotations.get_annotations_after_take_args(StatementIdx(3), &vec![]),
        Err(AnnotationError::MissingAnnotationsForStatement(StatementIdx(3)))
    );
}

#[test]
fn entries_that_cannot_be_set_up() {
    let unsized_param = vec![Param { id: VarId(0), ty: TypeId(9) }];
    let refused = Err(AnnotationError::ReferencesError {
        statement_idx: StatementIdx(0),
        error: ReferencesError::InvalidFunctionDeclaration(FunctionId(0)),
    });
    assert_eq!(
        ProgramAnnotations::create(1, &vec![function(unsized_param, 0)], &metadata(), false, &sizes())
            .map(|a| a.len()),
        refused
    );
    let twice = vec![Param { id: VarId(0), ty: FELT }, Param { id: VarId(0), ty: FELT }];
    assert_eq!(
        ProgramAnnotations::create(1, &vec![function(twice, 0)], &metadata(), false, &sizes())
            .map(|a| a.len()),
        refused
    );
    let other = Function { id: FunctionId(5), ..function(vec![], 0) };
    assert_eq!(
        ProgramAnnotations::create(1, &vec![other.clone()], &metadata(), true, &sizes()).map(|a| a.len()),
        Err(AnnotationError::MissingGasInfo(FunctionId(5)))
    );
    assert_eq!(
        ProgramAnnotations::create(1, &vec![function(vec![], 1)], &metadata(), false, &sizes())
            .map(|a| a.len()),
        Err(AnnotationError::InvalidStatementIdx {
            source_statement_idx: StatementIdx(1),
            destination_statement_idx: StatementIdx(1),
        })
    );
    assert_eq!(
        ProgramAnnotations::create(1, &vec![function(vec![], 0), other], &metadata(), false, &sizes())
            .map(|a| a.len()),
        Err(AnnotationError::InconsistentAnnotations {
            source_statement_idx: StatementIdx(0),
            destination_statement_idx: StatementIdx(0),
        })
    );
}

fn annotations_with(refs: Vec<(VarId, ReferenceValue)>) -> StatementAnnotations {
    StatementAnnotations {
        refs,
        function_id: FunctionId(0),
        environment: Environment::new(GasWallet::Value(10)),
    }
}

fn output(cell: Cell) -> OutputReferenceValue {
    OutputReferenceValue {
        expression: ReferenceExpression { cells: vec![CellExpression::Deref(cell)] },
        ty: FELT,
    }
}

#[test]
fn taking_arguments() {
    let mut annotations = ProgramAnnotations::create(2, &vec![], &metadata(), false, &sizes()).unwrap();
    let a = reference(vec![ap(-2)], FELT, 0);
    let b = reference(vec![ap(-1)], FELT, 0);
    let c = reference(vec![fp(0)], FELT, 0);
    let bound = annotations_with(vec![(VarId(7), a.clone()), (VarId(8), b.clone()), (VarId(9), c.clone())]);
    annotations.set_or_assert(StatementIdx(0), StatementIdx(1), bound).unwrap();
    let (rest, taken) =
        annotations.get_annotations_after_take_args(StatementIdx(1), &vec![VarId(9), VarId(7)]).unwrap();
    assert_eq!(taken, vec![c, a]);
    assert_eq!(rest.refs, vec![(VarId(8), b)]);
    assert_eq!(
        annotations.get_annotations_after_take_args(StatementIdx(1), &vec![VarId(7), VarId(7)]),
        Err(AnnotationError::MissingReferenceError { statement_idx: StatementIdx(1), var_id: VarId(7) })
    );
    assert_eq!(
        annotations.get_annotations_after_take_args(StatementIdx(1), &vec![VarId(8), VarId(1), VarId(2)]),
        Err(AnnotationError::MissingReferenceError { statement_idx: StatementIdx(1), var_id: VarId(1) })
    );
}

#[test]
fn branches_bring_their_environment() {
    let start = annotations_with(vec![(VarId(0), reference(vec![ap(-1)], FELT, 0))]);
    let changes =
        BranchChanges { refs: vec![output(ap(-1))], ap_change: ApChange::Known(1), gas_change: 3 };
    let arriving =
        branch_annotations(&start, StatementIdx(4), StatementIdx(5), &vec![VarId(1)], &changes).unwrap();
    assert_eq!(
        arriving.refs,
        vec![(VarId(0), reference(vec![ap(-2)], FELT, 0)), (VarId(1), reference(vec![ap(-1)], FELT, 4))]
    );
    assert_eq!(arriving.function_id, FunctionId(0));
    assert_eq!(arriving.environment.ap_tracking, ApChange::Known(1));
    assert_eq!(arriving.environment.gas_wallet, GasWallet::Value(7));
    assert_eq!(
        branch_annotations(&start, StatementIdx(4), StatementIdx(5), &vec![VarId(0)], &changes),
        Err(AnnotationError::OverrideReferenceError {
            source_statement_idx: StatementIdx(4),
            destination_statement_idx: StatementIdx(5),
            var_id: VarId(0),
        })
    );
    let unknown = BranchChanges { ap_change: ApChange::Unknown, ..changes.clone() };
    assert_eq!(
        branch_annotations(&start, StatementIdx(4), StatementIdx(5), &vec![VarId(1)], &unknown),
        Err(AnnotationError::ApChangeError {
            source_statement_idx: StatementIdx(4),
            var_id: VarId(0),
            error: ApChangeError::UnknownApChange,
        })
    );
    let costly = BranchChanges { gas_change: 11, ..changes };
    assert_eq!(
        branch_annotations(&start, StatementIdx(4), StatementIdx(5), &vec![VarId(1)], &costly),
        Err(AnnotationError::EnvironmentError {
            statement_idx: StatementIdx(4),
            error: EnvironmentError::OutOfGas,
        })
    );
}

#[test]
fn edges_must_agree() {
    let mut annotations = ProgramAnnotations::create(3, &vec![], &metadata(), false, &sizes()).unwrap();
    let start = annotations_with(vec![(VarId(0), reference(vec![ap(-1)], FELT, 0))]);
    let by_one = BranchChanges { refs: vec![], ap_change: ApChange::Known(1), gas_change: 0 };
    let by_two = BranchChanges { refs: vec![], ap_change: ApChange::Known(2), gas_change: 0 };
    let two = StatementIdx(2);
    assert_eq!(annotations.propagate_annotations(StatementIdx(0), two, &start, &vec![], &by_one), Ok(()));
    assert_eq!(annotations.propagate_annotations(StatementIdx(1), two, &start, &vec![], &by_one), Ok(()));
    assert_eq!(
        annotations.propagate_annotations(StatementIdx(1), two, &start, &vec![], &by_two),
        Err(AnnotationError::InconsistentAnnotations {
            source_statement_idx: StatementIdx(1),
            destination_statement_idx: two,
        })
    );
    assert_eq!(
        annotations.propagate_annotations(StatementIdx(1), StatementIdx(3), &start, &vec![], &by_one),
        Err(AnnotationError::InvalidStatementIdx {
            source_statement_idx: StatementIdx(1),
            destination_statement_idx: StatementIdx(3),
        })
    );
    let (recorded, _) = annotations.get_annotations_after_take_args(two, &vec![]).unwrap();
    assert_eq!(recorded.refs, vec![(VarId(0), reference(vec![ap(-2)], FELT, 0))]);
}

#[test]
fn returns_are_validated() {
    let annotations = ProgramAnnotations::create(1, &vec![], &metadata(), false, &sizes()).unwrap();
    let funcs = vec![function(vec![], 0)];
    let here = annotations_with(vec![]);
    let value = vec![reference(vec![ap(-1)], FELT, 0)];
    let at = StatementIdx(0);
    assert_eq!(annotations.validate_final_annotations(at, &here, &funcs, &value), Ok(()));
    assert_eq!(
        annotations.validate_final_annotations(at, &here, &funcs, &vec![]),
        Err(AnnotationError::ReferencesError {
            statement_idx: at,
            error: ReferencesError::InvalidReferenceTypeForArgument,
        })
    );
    assert_eq!(
        annotations.validate_final_annotations(at, &here, &vec![], &value),
        Err(AnnotationError::MissingFunction { statement_idx: at, function_id: FunctionId(0) })
    );
    let mut allocating = here;
    allocating.environment.frame_state =
        FrameState::Allocating { allocated: 1, locals_start_ap_offset: 0 };
    assert_eq!(
        annotations.validate_final_annotations(at, &allocating, &funcs, &value),
        Err(AnnotationError::EnvironmentError {
            statement_idx: at,
            error: EnvironmentError::InvalidFinalFrameState,
        })
    );
}

fn libfunc(n_params: usize, outputs: &[usize], fallthrough: Option<usize>) -> ConcreteLibfunc {
    ConcreteLibfunc {
        param_types: vec![FELT; n_params],
        branch_signatures: outputs
            .iter()
            .map(|n| BranchSignature {
                vars: vec![FELT; *n],
                ap_change: SierraApChange::Known { new_vars_only: false },
            })
            .collect(),
        fallthrough,
        const_as_box: None,
    }
}

fn invocation(n_args: usize, branches: Vec<(BranchTarget, usize)>) -> Invocation {
    Invocation {
        libfunc_id: LibfuncId(0),
        args: (0..n_args as u64).map(VarId).collect(),
        branches: branches
            .into_iter()
            .map(|(target, n)| BranchInfo { target, results: (10..10 + n as u64).map(VarId).collect() })
            .collect(),
    }
}

#[test]
fn basic_structure() {
    let at = StatementIdx(3);
    let next = BranchTarget::Fallthrough;
    let far = BranchTarget::Statement(StatementIdx(9));
    let mismatch = Err(CompilationError::LibfuncInvocationMismatch { statement_idx: at });
    let two_way = libfunc(2, &[1, 0], Some(0));
    assert_eq!(check_basic_structure(at, &invocation(2, vec![(next, 1), (far, 0)]), &two_way), Ok(()));
    assert_eq!(check_basic_structure(at, &invocation(1, vec![(next, 1), (far, 0)]), &two_way), mismatch);
    assert_eq!(check_basic_structure(at, &invocation(2, vec![(next, 1)]), &two_way), mismatch);
    assert_eq!(check_basic_structure(at, &invocation(2, vec![(next, 0), (far, 0)]), &two_way), mismatch);
    assert_eq!(check_basic_structure(at, &invocation(2, vec![(far, 1), (next, 0)]), &two_way), mismatch);
    let free = libfunc(0, &[0], None);
    assert_eq!(check_basic_structure(at, &invocation(0, vec![(far, 0)]), &free), Ok(()));
    let beyond = libfunc(0, &[0], Some(1));
    assert_eq!(check_basic_structure(at, &invocation(0, vec![(next, 0)]), &beyond), mismatch);
}

fn program_of(libfuncs: Vec<ConcreteLibfunc>, statements: Vec<Statement>) -> ResolvedProgram {
    ResolvedProgram {
        type_declarations: vec![],
        libfunc_declarations: libfuncs
            .into_iter()
            .enumerate()
            .map(|(id, libfunc)| LibfuncDeclaration { id: LibfuncId(id as u64), libfunc })
            .collect(),
        statements,
        funcs: vec![Function {
            id: FunctionId(0),
            params: vec![],
            ret_types: vec![],
            entry_point: StatementIdx(0),
        }],
    }
}

fn missing_libfunc(id: u64) -> CompilationError {
    CompilationError::ProgramRegistryError(Box::new(ProgramRegistryError::MissingLibfunc(
        ConcreteLibfuncId::new(id),
    )))
}

#[test]
fn branch_align() {
    let align = ConcreteLibfunc {
        branch_signatures: vec![BranchSignature { vars: vec![], ap_change: SierraApChange::BranchAlign }],
        ..libfunc(0, &[], Some(0))
    };
    let program = program_of(vec![align, libfunc(0, &[0], Some(0)), libfunc(0, &[0, 0], Some(0))], vec![]);
    let call = |id: u64| Statement::Invocation(Invocation { libfunc_id: LibfuncId(id), ..invocation(0, vec![]) });
    assert_eq!(is_branch_align(&program, &call(0)), Ok(true));
    assert_eq!(is_branch_align(&program, &call(1)), Ok(false));
    assert_eq!(is_branch_align(&program, &call(2)), Ok(false));
    assert_eq!(is_branch_align(&program, &Statement::Return(vec![])), Ok(false));
    assert_eq!(is_branch_align(&program, &call(3)), Err(missing_libfunc(3)));
}

fn types(declarations: Vec<(u64, ConcreteType)>) -> ResolvedProgram {
    ResolvedProgram {
        type_declarations: declarations
            .into_iter()
            .map(|(id, ty)| TypeDeclaration { id: TypeId(id), ty })
            .collect(),
        libfunc_declarations: vec![],
        statements: vec![],
        funcs: vec![],
    }
}

fn constant(inner_ty: TypeId, inner_data: Vec<GenericArg>) -> ConcreteType {
    ConcreteType::Const { inner_ty, inner_data }
}

fn value(v: i64) -> GenericArg {
    GenericArg::Value(BigInt::from(v))
}

#[test]
fn constants_of_structs() {
    let inner = TypeId(3);
    let outer = TypeId(4);
    let program = types(vec![
        (FELT.0, ConcreteType::Other),
        (PAIR.0, ConcreteType::Struct),
        (inner.0, ConcreteType::Struct),
        (10, constant(FELT, vec![value(10)])),
        (11, constant(FELT, vec![value(-11)])),
        (12, constant(PAIR, vec![GenericArg::Type(TypeId(10)), GenericArg::Type(TypeId(11))])),
        (13, constant(inner, vec![])),
        (
            14,
            constant(
                outer,
                vec![
                    GenericArg::Type(TypeId(11)),
                    GenericArg::Type(TypeId(13)),
                    GenericArg::Type(TypeId(12)),
                    GenericArg::Type(TypeId(10)),
                ],
            ),
        ),
        (outer.0, ConcreteType::Struct),
    ]);
    assert_eq!(extract_const_value(&program, &sizes(), TypeId(10)), Ok(big(&[10])));
    assert_eq!(extract_const_value(&program, &sizes(), TypeId(12)), Ok(big(&[10, -11])));
    assert_eq!(extract_const_value(&program, &sizes(), TypeId(13)), Ok(vec![]));
    // The struct that `14` wraps is declared behind it.
    assert_eq!(extract_const_value(&program, &sizes(), TypeId(14)), Ok(big(&[-11, 10, -11, 10])));
}

#[test]
fn constants_in_any_order_of_declaration() {
    let choice = TypeId(5);
    let program = types(vec![
        (20, constant(PAIR, vec![GenericArg::Type(TypeId(21)), GenericArg::Type(TypeId(22))])),
        (23, constant(choice, vec![value(1), GenericArg::Type(TypeId(20))])),
        (24, constant(TypeId(6), vec![GenericArg::Type(TypeId(21)), value(3)])),
        (25, constant(choice, vec![value(0), GenericArg::Type(TypeId(22))])),
        (21, constant(FELT, vec![value(7)])),
        (22, constant(FELT, vec![value(-8)])),
        (choice.0, ConcreteType::Enum { variants: vec![FELT, PAIR] }),
        (6, ConcreteType::Struct),
        (PAIR.0, ConcreteType::Struct),
        (FELT.0, ConcreteType::Other),
    ]);
    let mut sizes = sizes();
    sizes.insert(ConcreteTypeId::new(choice.0), 4);
    let extract = |id: u64| extract_const_value(&program, &sizes, TypeId(id));
    // The fields of a struct, each declared behind the constant of the struct.
    assert_eq!(extract(21), Ok(big(&[7])));
    assert_eq!(extract(20), Ok(big(&[7, -8])));
    // The selector, the padding of 4 - 2 - 1 words, and the payload.
    assert_eq!(extract(23), Ok(big(&[1, 0, 7, -8])));
    // The selector, the padding of 4 - 1 - 1 words, and the payload.
    assert_eq!(extract(25), Ok(big(&[0, 0, 0, -8])));
    // Data that do not fit a struct that is declared behind the constant.
    assert_eq!(extract(24), Err(CompilationError::ConstDataMismatch));
}

#[test]
fn constants_nested_as_deep_as_there_are_types() {
    let program = types(vec![
        (PAIR.0, ConcreteType::Struct),
        (10, constant(PAIR, vec![GenericArg::Type(TypeId(11))])),
        (11, constant(PAIR, vec![GenericArg::Type(TypeId(12))])),
        (12, constant(PAIR, vec![GenericArg::Type(TypeId(13)), GenericArg::Type(TypeId(13))])),
        (13, constant(FELT, vec![value(5)])),
        (FELT.0, ConcreteType::Other),
    ]);
    assert_eq!(extract_const_value(&program, &sizes(), TypeId(10)), Ok(big(&[5, 5])));
    let mut values = big(&[1]);
    assert_eq!(extract_const_value_into(&program, &sizes(), TypeId(10), 4, &mut values), Ok(()));
    assert_eq!(values, big(&[1, 5, 5]));
    let mut values = vec![];
    assert_eq!(
        extract_const_value_into(&program, &sizes(), TypeId(10), 3, &mut values),
        Err(CompilationError::UnsupportedConstType)
    );
    assert_eq!(
        extract_const_value_into(&program, &sizes(), TypeId(13), 0, &mut values),
        Err(CompilationError::UnsupportedConstType)
    );
}

#[test]
fn constants_that_are_parts_of_themselves() {
    let program = types(vec![
        (FELT.0, ConcreteType::Other),
        (PAIR.0, ConcreteType::Struct),
        (10, constant(PAIR, vec![GenericArg::Type(TypeId(11))])),
        (11, constant(PAIR, vec![GenericArg::Type(TypeId(10))])),
        (12, constant(PAIR, vec![GenericArg::Type(TypeId(12)), value(1)])),
    ]);
    let extract = |id: u64| extract_const_value(&program, &sizes(), TypeId(id));
    assert_eq!(extract(10), Err(CompilationError::UnsupportedConstType));
    assert_eq!(extract(11), Err(CompilationError::UnsupportedConstType));
    assert_eq!(extract(12), Err(CompilationError::ConstDataMismatch));
}

#[test]
fn constants_that_are_refused() {
    let choice = TypeId(5);
    let program = types(vec![
        (FELT.0, ConcreteType::Other),
        (PAIR.0, ConcreteType::Struct),
        (choice.0, ConcreteType::Enum { variants: vec![FELT, PAIR] }),
        (6, ConcreteType::Enum { variants: vec![FELT, TypeId(77)] }),
        (10, constant(FELT, vec![value(10)])),
        (20, constant(FELT, vec![])),
        (21, constant(FELT, vec![value(1), value(2)])),
        (22, constant(FELT, vec![GenericArg::Type(FELT)])),
        (23, constant(PAIR, vec![GenericArg::Type(TypeId(10)), value(2)])),
        (24, constant(PAIR, vec![GenericArg::Type(FELT)])),
        (25, constant(choice, vec![value(2), GenericArg::Type(TypeId(10))])),
        (26, constant(choice, vec![value(-1), GenericArg::Type(TypeId(10))])),
        (27, constant(choice, vec![GenericArg::Type(TypeId(10)), value(0)])),
        (28, constant(choice, vec![value(0)])),
        (29, constant(TypeId(6), vec![value(0), GenericArg::Type(TypeId(10))])),
        (30, constant(TypeId(99), vec![value(0)])),
        (31, constant(choice, vec![value(0), GenericArg::Other])),
        (32, constant(choice, vec![value(1), GenericArg::Type(TypeId(10))])),
    ]);
    let mut sizes = sizes();
    sizes.insert(ConcreteTypeId::new(choice.0), 3);
    let extract = |id: u64| extract_const_value(&program, &sizes, TypeId(id));
    for id in [20, 21, 22, 23, 25, 26, 27, 28, 31] {
        assert_eq!(extract(id), Err(CompilationError::ConstDataMismatch), "the constant {id}");
    }
    for id in [1, 2, 24, 30, 99] {
        assert_eq!(extract(id), Err(CompilationError::UnsupportedConstType), "the constant {id}");
    }
    assert_eq!(extract(29), Err(CompilationError::FailedBuildingTypeInformation));
    // The second of two variants is selected by 1, and fills the enum.
    assert_eq!(extract(32), Ok(big(&[1, 10])));
    let undeclared = ConstsInfo::new(&program, &sizes, &vec![LibfuncId(4)], 10);
    assert_eq!(undeclared, Err(missing_libfunc(4)));
}

fn jump_rel(offset: i64) -> Instruction {
    Instruction {
        body: InstructionKind::Jump {
            target: CellOrConst::Immediate(BigInt::from(offset)),
            relative: true,
        },
        inc_ap: false,
        hints: vec![],
    }
}

fn store(value: i64) -> Instruction {
    Instruction {
        body: InstructionKind::AssertEq { a: ap(0), b: Operand::Immediate(BigInt::from(value)) },
        inc_ap: true,
        hints: vec![],
    }
}

fn ret() -> Instruction {
    Instruction::new(InstructionKind::Ret, false)
}

fn boxes(segments: &[(u32, u64, i64)]) -> ConstsInfo {
    let program = ResolvedProgram {
        type_declarations: std::iter::once(TypeDeclaration { id: FELT, ty: ConcreteType::Other })
            .chain(segments.iter().map(|(_, ty, v)| TypeDeclaration {
                id: TypeId(*ty),
                ty: constant(FELT, vec![value(*v)]),
            }))
            .collect(),
        libfunc_declarations: segments
            .iter()
            .enumerate()
            .map(|(id, (segment_id, ty, _))| LibfuncDeclaration {
                id: LibfuncId(id as u64),
                libfunc: ConcreteLibfunc {
                    const_as_box: Some(ConstAsBox { const_type: TypeId(*ty), segment_id: *segment_id }),
                    ..libfunc(0, &[1], Some(0))
                },
            })
            .collect(),
        statements: vec![],
        funcs: vec![],
    };
    let ids = (0..segments.len() as u64).map(LibfuncId).collect();
    ConstsInfo::new(&program, &sizes(), &ids, 100).unwrap()
}

#[test]
fn relocations_are_distances() {
    let consts = boxes(&[(0, 10, 7), (0, 11, 8), (1, 12, 9)]);
    let mut instructions = vec![ret(), jump_rel(0), store(100), jump_rel(5), ret()];
    let entry = |instruction_idx, relocation| RelocationEntry { instruction_idx, relocation };
    let relocations = vec![
        entry(1, Relocation::RelativeStatementId(StatementIdx(2))),
        entry(2, Relocation::SegmentStart(1)),
        entry(3, Relocation::ConstStart(0, TypeId(11))),
    ];
    let statement_offsets = vec![1, 3, 7, 8];
    assert_eq!(relocate_instructions(&relocations, &statement_offsets, &consts, &mut instructions), Ok(()));
    // The jump at the offset 1 leads to the offset 7 of the statement 2.
    assert_eq!(instructions[1], jump_rel(6));
    // The second segment starts 3 words behind the code of 8 words, behind
    // its `ret`; the constant of an assignment does not count from the
    // instruction.
    assert_eq!(instructions[2], store(100 + 8 + 3 + 1));
    // The constant of the type 11 is the second of the first segment; the
    // instruction lies at the offset 5.
    assert_eq!(instructions[3], jump_rel(5 + 8 + 0 + 1 + 1 - 5));
    assert_eq!(instructions[0], ret());
    assert_eq!(instructions[4], ret());
}

#[test]
fn relocations_that_cannot_be_applied() {
    let consts = boxes(&[(0, 10, 7)]);
    let entry = |instruction_idx, relocation| RelocationEntry { instruction_idx, relocation };
    let good = entry(0, Relocation::RelativeStatementId(StatementIdx(0)));
    let refused = |bad: RelocationEntry| {
        let mut instructions = vec![jump_rel(0), ret()];
        relocate_instructions(&vec![good, bad], &vec![2, 3], &consts, &mut instructions)
    };
    assert_eq!(refused(good), Ok(()));
    assert_eq!(refused(entry(1, Relocation::RelativeStatementId(StatementIdx(0)))), Err(1));
    assert_eq!(refused(entry(2, Relocation::RelativeStatementId(StatementIdx(0)))), Err(1));
    assert_eq!(refused(entry(0, Relocation::RelativeStatementId(StatementIdx(2)))), Err(1));
    assert_eq!(refused(entry(0, Relocation::SegmentStart(1))), Err(1));
    assert_eq!(refused(entry(0, Relocation::ConstStart(0, TypeId(11)))), Err(1));
    assert_eq!(refused(entry(0, Relocation::ConstStart(1, TypeId(10)))), Err(1));
    assert_eq!(refused(entry(0, Relocation::ConstStart(0, TypeId(10)))), Ok(()));
    let by_cell = Instruction {
        body: InstructionKind::Jump { target: CellOrConst::Deref(ap(-1)), relative: true },
        inc_ap: false,
        hints: vec![],
    };
    let mut instructions = vec![by_cell];
    assert_eq!(relocate_instructions(&vec![good], &vec![1], &consts, &mut instructions), Err(0));
}

/// An emitter of one jump to the start of the second segment.
struct JumpCompiler {
    relocation: Relocation,
}

impl InvocationCompiler for JumpCompiler {
    fn compile_invocation(
        &self,
        _program_info: ProgramInfo<'_>,
        _invocation: &Invocation,
        _libfunc: &ConcreteLibfunc,
        _statement_idx: StatementIdx,
        _refs: &Vec<ReferenceValue>,
        environment: Environment,
    ) -> Result<CompiledInvocation, InvocationError> {
        Ok(CompiledInvocation {
            instructions: vec![store(1), jump_rel(0)],
            relocations: vec![RelocationEntry { instruction_idx: 1, relocation: self.relocation }],
            results: vec![BranchChanges { refs: vec![], ap_change: ApChange::Known(1), gas_change: 0 }],
            environment,
        })
    }
}

fn two_calls() -> ResolvedProgram {
    let call = || {
        Statement::Invocation(Invocation {
            libfunc_id: LibfuncId(0),
            ..invocation(0, vec![(BranchTarget::Fallthrough, 0)])
        })
    };
    program_of(vec![libfunc(0, &[0], Some(0))], vec![call(), call(), Statement::Return(vec![])])
}

#[test]
fn relocations_count_from_the_start_of_the_code() {
    let config = SierraToCasmConfig { gas_usage_check: false, max_bytecode_size: 100 };
    let compiler = JumpCompiler { relocation: Relocation::RelativeStatementId(StatementIdx(2)) };
    let compiled = compile_program(&two_calls(), &metadata(), config, &sizes(), &compiler).unwrap();
    // The code: store (0), jump (2), store (4), jump (6), ret (8); the
    // offset recorded for the statement 2 is 9.
    assert_eq!(
        compiled.instructions,
        vec![store(1), jump_rel(9 - 2), store(1), jump_rel(9 - 6), ret()]
    );
    let unknown = JumpCompiler { relocation: Relocation::SegmentStart(0) };
    assert_eq!(
        compile_program(&two_calls(), &metadata(), config, &sizes(), &unknown),
        Err(Box::new(CompilationError::InvocationError {
            statement_idx: StatementIdx(0),
            error: InvocationError::InvalidRelocation,
        }))
    );
}

fn casm_cell(cell: Cell) -> cairo_lang_casm::operand::CellRef {
    cairo_lang_casm::operand::CellRef {
        register: match cell.register {
            Register::AP => cairo_lang_casm::operand::Register::AP,
            Register::FP => cairo_lang_casm::operand::Register::FP,
        },
        offset: cell.offset,
    }
}

fn alloc_segment() -> Hint {
    Hint::Core(CoreHintBase::Core(CoreHint::AllocSegment { dst: casm_cell(ap(0)) }))
}

/// Instructions of each kind, with the same instructions as
/// `cairo_lang_casm` holds them.
fn instructions_of_each_kind() -> Vec<(Instruction, cairo_lang_casm::instructions::Instruction)> {
    let pair = |body, inc_ap, their_body| {
        (Instruction { body, inc_ap, hints: vec![] }, cairo_lang_casm::instructions::Instruction::new(their_body, inc_ap))
    };
    let five = || BigInt::from(5);
    vec![
        pair(
            InstructionKind::AddAp { operand: Operand::Immediate(five()) },
            false,
            cairo_lang_casm::instructions::InstructionBody::AddAp(cairo_lang_casm::instructions::AddApInstruction {
                operand: cairo_lang_casm::operand::ResOperand::Immediate(five().into()),
            }),
        ),
        pair(
            InstructionKind::AssertEq { a: ap(1), b: Operand::DoubleDeref(fp(-3), 2) },
            true,
            cairo_lang_casm::instructions::InstructionBody::AssertEq(cairo_lang_casm::instructions::AssertEqInstruction {
                a: casm_cell(ap(1)),
                b: cairo_lang_casm::operand::ResOperand::DoubleDeref(casm_cell(fp(-3)), 2),
            }),
        ),
        pair(
            InstructionKind::AssertEq {
                a: fp(0),
                b: Operand::BinOp(BinOp {
                    op: Operation::Mul,
                    a: ap(-1),
                    b: CellOrConst::Immediate(five()),
                }),
            },
            false,
            cairo_lang_casm::instructions::InstructionBody::AssertEq(cairo_lang_casm::instructions::AssertEqInstruction {
                a: casm_cell(fp(0)),
                b: cairo_lang_casm::operand::ResOperand::BinOp(cairo_lang_casm::operand::BinOpOperand {
                    op: cairo_lang_casm::operand::Operation::Mul,
                    a: casm_cell(ap(-1)),
                    b: cairo_lang_casm::operand::DerefOrImmediate::Immediate(five().into()),
                }),
            }),
        ),
        pair(
            InstructionKind::AssertEq {
                a: fp(0),
                b: Operand::BinOp(BinOp { op: Operation::Add, a: ap(-1), b: CellOrConst::Deref(fp(2)) }),
            },
            false,
            cairo_lang_casm::instructions::InstructionBody::AssertEq(cairo_lang_casm::instructions::AssertEqInstruction {
                a: casm_cell(fp(0)),
                b: cairo_lang_casm::operand::ResOperand::BinOp(cairo_lang_casm::operand::BinOpOperand {
                    op: cairo_lang_casm::operand::Operation::Add,
                    a: casm_cell(ap(-1)),
                    b: cairo_lang_casm::operand::DerefOrImmediate::Deref(casm_cell(fp(2))),
                }),
            }),
        ),
        pair(
            InstructionKind::Call { target: CellOrConst::Immediate(five()), relative: true },
            false,
            cairo_lang_casm::instructions::InstructionBody::Call(cairo_lang_casm::instructions::CallInstruction {
                target: cairo_lang_casm::operand::DerefOrImmediate::Immediate(five().into()),
                relative: true,
            }),
        ),
        pair(
            InstructionKind::Jnz { jump_offset: CellOrConst::Immediate(five()), condition: ap(-1) },
            true,
            cairo_lang_casm::instructions::InstructionBody::Jnz(cairo_lang_casm::instructions::JnzInstruction {
                jump_offset: cairo_lang_casm::operand::DerefOrImmediate::Immediate(five().into()),
                condition: casm_cell(ap(-1)),
            }),
        ),
        pair(
            InstructionKind::Jump { target: CellOrConst::Deref(fp(7)), relative: false },
            false,
            cairo_lang_casm::instructions::InstructionBody::Jump(cairo_lang_casm::instructions::JumpInstruction {
                target: cairo_lang_casm::operand::DerefOrImmediate::Deref(casm_cell(fp(7))),
                relative: false,
            }),
        ),
        pair(
            InstructionKind::Ret,
            false,
            cairo_lang_casm::instructions::InstructionBody::Ret(cairo_lang_casm::instructions::RetInstruction {}),
        ),
    ]
}

fn program_with(instructions: Vec<Instruction>, consts_info: ConstsInfo) -> CairoProgram {
    CairoProgram {
        instructions,
        debug_info: CairoProgramDebugInfo { sierra_statement_info: vec![] },
        consts_info,
    }
}

#[test]
fn assembles_as_the_encoder_does() {
    let both = instructions_of_each_kind();
    let sizes: Vec<usize> = both.iter().map(|(ours, _)| ours.body.op_size()).collect();
    assert_eq!(sizes, vec![2, 1, 2, 1, 2, 2, 1, 1]);
    let expected: Vec<BigInt> =
        both.iter().flat_map(|(_, theirs)| theirs.assemble().encode()).collect();
    let program =
        program_with(both.into_iter().map(|(ours, _)| ours).collect(), ConstsInfo::default());
    assert!(program.can_assemble());
    let assembled = program.assemble();
    assert_eq!(assembled.bytecode, expected);
    assert_eq!(assembled.bytecode.len(), 12);
    assert_eq!(assembled.bytecode[11], BigInt::from(0x208b7fff7fff7ffe_u64));
    assert!(assembled.hints.is_empty());
}

#[test]
fn encodes_each_instruction_at_its_offset() {
    let both = instructions_of_each_kind();
    for (ours, theirs) in &both {
        assert_eq!(ours.encode(), theirs.assemble().encode());
        assert_eq!(ours.encode().len(), ours.body.op_size());
        assert_eq!(ours.body_text(), theirs.to_string());
    }
    assert_eq!(ret().encode(), vec![BigInt::from(0x208b7fff7fff7ffe_u64)]);
    let instructions: Vec<Instruction> = both.into_iter().map(|(ours, _)| ours).collect();
    let program = program_with(instructions.clone(), boxes(&[(0, 10, 7)]));
    let bytecode = program.assemble().bytecode;
    let mut offset = 0;
    for instruction in &instructions {
        let size = instruction.body.op_size();
        assert_eq!(bytecode[offset..offset + size].to_vec(), instruction.encode());
        offset += size;
    }
    assert_eq!(offset, 12);
}

#[test]
fn assembles_the_segments_behind_the_code() {
    let mut hinted = store(5);
    hinted.hints = vec![alloc_segment()];
    let program = program_with(vec![store(4), hinted.clone(), ret()], boxes(&[(0, 10, 7), (1, 11, 9), (0, 12, 8)]));
    let terminator = BigInt::from(0x208b7fff7fff7ffe_u64);
    let plain = program.assemble();
    let code = plain.bytecode[..5].to_vec();
    assert_eq!(code[4], terminator);
    let mut expected = code.clone();
    expected.extend([terminator.clone(), BigInt::from(7), BigInt::from(8)]);
    expected.extend([terminator.clone(), BigInt::from(9)]);
    assert_eq!(plain.bytecode, expected);
    assert_eq!(plain.hints, vec![(2, vec![alloc_segment()])]);
    assert_eq!(plain.bytecode.len(), 5 + program.consts_info.total_segments_size);
    let framed = program.assemble_ex(&[hinted, ret()], &[ret(), ret()]);
    let mut expected = vec![code[2].clone(), code[3].clone(), terminator.clone()];
    expected.extend(plain.bytecode.clone());
    expected.extend([terminator.clone(), terminator]);
    assert_eq!(
        framed,
        AssembledCairoProgram {
            bytecode: expected,
            hints: vec![(0, vec![alloc_segment()]), (5, vec![alloc_segment()])],
        }
    );
}

#[test]
fn instructions_that_cannot_be_encoded() {
    let with_inc_ap = |body| Instruction { body, inc_ap: true, hints: vec![] };
    assert!(!with_inc_ap(InstructionKind::Ret).encodable());
    assert!(!with_inc_ap(InstructionKind::AddAp { operand: Operand::Deref(ap(0)) }).encodable());
    assert!(!with_inc_ap(InstructionKind::Call { target: CellOrConst::Deref(ap(0)), relative: true })
        .encodable());
    assert!(with_inc_ap(InstructionKind::Jump { target: CellOrConst::Deref(ap(0)), relative: true })
        .encodable());
    assert!(ret().encodable());
    let program = program_with(vec![ret(), with_inc_ap(InstructionKind::Ret)], ConstsInfo::default());
    assert!(!program.can_assemble());
}

#[test]
fn writes_as_the_instructions_do() {
    let both = instructions_of_each_kind();
    let expected: String = both.iter().map(|(_, theirs)| format!("{theirs};\n")).collect();
    let program =
        program_with(both.into_iter().map(|(ours, _)| ours).collect(), ConstsInfo::default());
    assert_eq!(program.to_text(false), Some(expected));
}

#[test]
fn writes_the_segments_behind_the_code() {
    let program = program_with(vec![store(4), ret()], boxes(&[(0, 10, 7), (1, 11, -9), (0, 12, 8)]));
    assert_eq!(
        program.to_text(false).unwrap(),
        "[ap + 0] = 4, ap++;\nret;\nret;\ndw 7;\ndw 8;\nret;\ndw -9;\n"
    );
    assert_eq!(
        program.to_text(true).unwrap(),
        "[ap + 0] = 4, ap++; // 0\nret; // 2\nret; // 3\ndw 7; // 4\ndw 8; // 5\nret; // 6\n\
         dw -9; // 7\n"
    );
    let texts = vec!["first".to_string(), "second".to_string()];
    assert_eq!(
        program.render(&texts, true).unwrap(),
        "first; // 0\nsecond; // 2\nret; // 3\ndw 7; // 4\ndw 8; // 5\nret; // 6\ndw -9; // 7\n"
    );
    assert_eq!(program.render(&vec!["first".to_string()], true), None);
    let mut hinted = program.clone();
    hinted.instructions[0].hints = vec![alloc_segment()];
    assert!(hinted.render(&texts, false).is_some());
}

#[test]
fn writes_no_program_with_hints_without_their_texts() {
    let mut program = program_with(vec![store(4), ret()], boxes(&[(0, 10, 7)]));
    assert_eq!(program.instructions[0].body_text(), "[ap + 0] = 4, ap++");
    assert_eq!(program.instructions[1].body_text(), "ret");
    program.instructions[1].hints = vec![alloc_segment(), alloc_segment()];
    assert_eq!(program.instructions[1].body_text(), "ret");
    assert_eq!(program.to_text(false), None);
    let hint = "%{ memory[ap + 0] = segments.add() %}\n";
    let texts = vec!["[ap + 0] = 4, ap++".to_string(), format!("{hint}{hint}ret")];
    assert_eq!(
        program.render(&texts, true).unwrap(),
        format!("[ap + 0] = 4, ap++; // 0\n{hint}{hint}ret; // 2\nret; // 3\ndw 7; // 4\n")
    );
}

#[test]
fn gas_is_taken_from_the_wallet() {
    assert_eq!(GasWallet::Value(5).update(3), Ok(GasWallet::Value(2)));
    assert_eq!(GasWallet::Value(5).update(5), Ok(GasWallet::Value(0)));
    assert_eq!(GasWallet::Value(5).update(-3), Ok(GasWallet::Value(8)));
    assert_eq!(GasWallet::Value(5).update(6), Err(EnvironmentError::OutOfGas));
    assert_eq!(GasWallet::Value(i64::MAX).update(-1), Err(EnvironmentError::OutOfGas));
    assert_eq!(GasWallet::Disabled.update(6), Ok(GasWallet::Disabled));
    let start = Environment::new(GasWallet::Disabled);
    let known = start.after_branch(ApChange::Known(3), 0).unwrap();
    assert_eq!(known.ap_tracking, ApChange::Known(3));
    assert_eq!(known.after_branch(ApChange::Known(4), 0).unwrap().ap_tracking, ApChange::Known(7));
    assert_eq!(known.after_branch(ApChange::Unknown, 0).unwrap().ap_tracking, ApChange::Unknown);
    assert!(start.is_final());
}

#[test]
fn next_statement() {
    let at = StatementIdx(4);
    assert_eq!(at.next(&BranchTarget::Fallthrough), Some(StatementIdx(5)));
    assert_eq!(at.next(&BranchTarget::Statement(StatementIdx(1))), Some(StatementIdx(1)));
    assert_eq!(StatementIdx(usize::MAX).next(&BranchTarget::Fallthrough), None);
}

#[test]
fn constants_must_agree_too() {
    let mut annotations = ProgramAnnotations::create(2, &vec![], &metadata(), false, &sizes()).unwrap();
    let constant = |v: i64| ReferenceValue {
        expression: ReferenceExpression {
            cells: vec![
                CellExpression::Immediate(BigInt::from(v)),
                CellExpression::BinOp {
                    op: sierra_to_casm::references::CellOperator::Add,
                    a: fp(1),
                    b: CellOrConst::Immediate(BigInt::from(v + 1)),
                },
            ],
        },
        ty: PAIR,
        introduction_point: StatementIdx(0),
    };
    let still = BranchChanges { refs: vec![], ap_change: ApChange::Known(0), gas_change: 0 };
    let with = |v: i64| annotations_with(vec![(VarId(0), constant(v))]);
    let at = StatementIdx(1);
    assert_eq!(annotations.propagate_annotations(StatementIdx(0), at, &with(4), &vec![], &still), Ok(()));
    assert_eq!(annotations.propagate_annotations(StatementIdx(0), at, &with(4), &vec![], &still), Ok(()));
    assert_eq!(
        annotations.propagate_annotations(StatementIdx(0), at, &with(5), &vec![], &still),
        Err(AnnotationError::InconsistentAnnotations {
            source_statement_idx: StatementIdx(0),
            destination_statement_idx: at,
        })
    );
    assert!(constant(4).same_as(&constant(4)));
    assert!(!constant(4).same_as(&constant(5)));
}

#[test]
fn relocations_of_each_kind_of_constant() {
    let consts = ConstsInfo::default();
    let absolute = |offset: i64| Instruction {
        body: InstructionKind::Jump { target: CellOrConst::Immediate(BigInt::from(offset)), relative: false },
        inc_ap: false,
        hints: vec![],
    };
    let sum = |offset: i64| Instruction {
        body: InstructionKind::AssertEq {
            a: ap(0),
            b: Operand::BinOp(BinOp {
                op: Operation::Add,
                a: ap(-1),
                b: CellOrConst::Immediate(BigInt::from(offset)),
            }),
        },
        inc_ap: true,
        hints: vec![alloc_segment()],
    };
    let call = |offset: i64, relative: bool| Instruction {
        body: InstructionKind::Call { target: CellOrConst::Immediate(BigInt::from(offset)), relative },
        inc_ap: false,
        hints: vec![],
    };
    let grow = |offset: i64| Instruction {
        body: InstructionKind::AddAp { operand: Operand::Immediate(BigInt::from(offset)) },
        inc_ap: false,
        hints: vec![],
    };
    let mut instructions = vec![ret(), absolute(1), sum(1), call(1, true), call(1, false), grow(1)];
    let to_end = |instruction_idx| RelocationEntry {
        instruction_idx,
        relocation: Relocation::RelativeStatementId(StatementIdx(0)),
    };
    let relocations = vec![to_end(1), to_end(2), to_end(3), to_end(4), to_end(5), to_end(3)];
    assert_eq!(relocate_instructions(&relocations, &vec![20], &consts, &mut instructions), Ok(()));
    // The relative call lies at the offset 5, and is set twice.
    assert_eq!(
        instructions,
        vec![ret(), absolute(21), sum(21), call(1 + 15 + 15, true), call(21, false), grow(21)]
    );
}
