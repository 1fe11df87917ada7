//! The compiler: the errors, the configuration, the compiled program, and
//! the pass over the statements that produces it.

use vstd::prelude::*;
use cairo_lang_sierra::ids::ConcreteLibfuncId;
use cairo_lang_sierra::program::Program;
use cairo_lang_sierra::program_registry::ProgramRegistryError;
use cairo_lang_sierra_type_size::TypeSizeMap;
use crate::annotations::AnnotationError;
use crate::annotations::ProgramAnnotations;
use crate::annotations::StatementAnnotations;
use crate::annotations::StatementAnnotationsView;
use crate::annotations::BranchChangesView;
use crate::annotations::spec_create;
use crate::annotations::spec_propagate;
use crate::annotations::spec_take_args;
use crate::annotations::spec_validate_final;
use crate::casm::Instruction;
use crate::casm::InstructionKind;
use crate::casm::code_size;
use crate::casm::code_offset;
use crate::casm::lemma_code_size_add;
use crate::casm::lemma_code_size_push;
use crate::consts::ConstsInfo;
use crate::consts::spec_consts_info;
use crate::ids::BranchTarget;
use crate::invocations::BranchChanges;
use crate::invocations::CompiledInvocation;
use crate::invocations::InvocationCompiler;
use crate::invocations::ProgramInfo;
use crate::invocations::check_references_on_stack;
use crate::invocations::on_stack;
use crate::laws::all_distinct;
use crate::laws::distinct_vars;
use crate::laws::lemma_create_distinct;
use crate::laws::lemma_propagate_keeps_distinct;
use crate::laws::lemma_take_args_takes_once;
use crate::metadata::Metadata;
use crate::program::BranchInfo;
use crate::program::ConcreteLibfunc;
use crate::program::Function;
use crate::program::Invocation;
use crate::program::ResolvedProgram;
use crate::program::SierraApChange;
use crate::program::Statement;
use crate::references::ReferenceValue;
use crate::references::ReferenceValueView;
use crate::references::check_sizes;
use crate::references::check_types_match;
use crate::references::lemma_reference_views;
use crate::references::reference_views;
use crate::references::view_types;
use crate::references::views_match_size;
use crate::relocations::RelocationEntry;
use crate::sierra::resolve_program;
use crate::sierra::resolves;
use crate::sierra::program_statements;
use crate::sierra::Registry;
use crate::relocations::entry_ok;
use crate::relocations::lemma_same_sizes;
use crate::relocations::relocate_instructions;
use crate::relocations::relocated;
use crate::relocations::spec_relocate;

use crate::ids::LibfuncId;
use crate::ids::StatementIdx;
use crate::ids::VarId;
use crate::invocations::InvocationError;
use crate::references::ReferencesError;

verus! {

/// `ProgramRegistryError` of `cairo_lang_sierra`: carried in an error.
#[verifier::external_type_specification]
#[verifier::external_body]
pub struct ExProgramRegistryError(ProgramRegistryError);

/// The error of a registry that does not know the library function with
/// the given number.
pub uninterp spec fn missing_libfunc_error(id: u64) -> ProgramRegistryError;

/// `ProgramRegistryError::MissingLibfunc` for the library function with the
/// number of `id`. The identity in it has the number and no name; it equals
/// every identity of that number.
#[verifier::external_body]
pub(crate) fn new_missing_libfunc_error(id: LibfuncId) -> (r: Box<ProgramRegistryError>)
    ensures
        *r == missing_libfunc_error(id.0),
{
    Box::new(ProgramRegistryError::MissingLibfunc(ConcreteLibfuncId::new(id.0)))
}

/// Why a program cannot be compiled.
#[derive(Debug, PartialEq, Eq)]
pub enum CompilationError {
    /// The sizes of the types cannot be computed, or the size of a type
    /// that is needed is not among them.
    FailedBuildingTypeInformation,
    /// The registry of the program cannot be built, or does not know a type
    /// or a library function.
    ProgramRegistryError(Box<ProgramRegistryError>),
    AnnotationError(AnnotationError),
    /// The invocation at `statement_idx` cannot be compiled.
    InvocationError { statement_idx: StatementIdx, error: InvocationError },
    /// The values of the return at `statement_idx` are not on top of the
    /// stack.
    ReturnArgumentsNotOnStack { statement_idx: StatementIdx },
    ReferencesError { statement_idx: StatementIdx, error: ReferencesError },
    /// The invocation at `statement_idx` does not have the shape of its
    /// library function.
    LibfuncInvocationMismatch { statement_idx: StatementIdx },
    /// The variable `var_id` is still bound at the return at `statement_idx`.
    DanglingReferences { statement_idx: StatementIdx, var_id: VarId },
    /// A branching invocation leads to a statement that does not align the
    /// allocation pointer.
    ExpectedBranchAlign {
        source_statement_idx: StatementIdx,
        destination_statement_idx: StatementIdx,
    },
    /// The data of a constant do not have the form that its type asks for.
    ConstDataMismatch,
    /// A constant is asked of a type that is no constant type.
    UnsupportedConstType,
    /// The constant segments are not numbered 0, 1, 2, .. in the order of
    /// their first use.
    ConstSegmentsOutOfOrder,
    /// The code and the constants take more room than is allowed.
    CodeSizeLimitExceeded,
}

/// Configuration of a compilation.
#[derive(Debug, Eq, PartialEq, Clone, Copy)]
pub struct SierraToCasmConfig {
    /// Whether the gas usage of the program is checked.
    pub gas_usage_check: bool,
    /// Upper bound on the size of the code and the constants, in words.
    pub max_bytecode_size: usize,
}

/// What is recorded of a return statement.
#[derive(Debug, Eq, PartialEq, Clone)]
pub struct ReturnStatementDebugInfo {
    /// The references of the returned values.
    pub ref_values: Vec<ReferenceValue>,
}

/// What is recorded of an invocation.
#[derive(Debug, Eq, PartialEq, Clone)]
pub struct InvokeStatementDebugInfo {
    /// The changes of each branch.
    pub result_branch_changes: Vec<BranchChanges>,
    /// The references of the arguments.
    pub ref_values: Vec<ReferenceValue>,
}

/// What is recorded of a statement, by its kind.
#[derive(Debug, Eq, PartialEq, Clone)]
pub enum StatementKindDebugInfo {
    Return(ReturnStatementDebugInfo),
    Invoke(InvokeStatementDebugInfo),
    /// The mark behind the last statement, whose offset is the size of the
    /// code.
    EndMarker,
}

/// What is recorded of a statement.
#[derive(Debug, Eq, PartialEq, Clone)]
pub struct SierraStatementDebugInfo {
    /// The size of the code up to the end of the statement, in words.
    pub code_offset: usize,
    /// The number of instructions up to the end of the statement.
    pub instruction_idx: usize,
    pub additional_kind_info: StatementKindDebugInfo,
}

/// What is recorded of the statements of a program, with the end mark last.
#[derive(Debug, Eq, PartialEq, Clone)]
pub struct CairoProgramDebugInfo {
    pub sierra_statement_info: Vec<SierraStatementDebugInfo>,
}

/// A compiled program.
#[derive(Debug, Eq, PartialEq, Clone)]
pub struct CairoProgram {
    pub instructions: Vec<Instruction>,
    pub debug_info: CairoProgramDebugInfo,
    pub consts_info: ConstsInfo,
}

/// Whether an invocation has the shape of its library function: as many
/// arguments as the function has parameters, as many branches as the
/// function, each with as many results as the function gives there, and
/// the branch that the function falls through on leads to the next
/// statement.
pub open spec fn spec_basic_structure(invocation: Invocation, libfunc: ConcreteLibfunc) -> bool {
    &&& invocation.args@.len() == libfunc.param_types@.len()
    &&& invocation.branches@.len() == libfunc.branch_signatures@.len()
    &&& forall|b: int|
        0 <= b < invocation.branches@.len() ==> (#[trigger] invocation.branches@[b]).results@.len()
            == libfunc.branch_signatures@[b].vars@.len()
    &&& match libfunc.fallthrough {
        Some(f) => f < invocation.branches@.len() && invocation.branches@[f as int].target
            == BranchTarget::Fallthrough,
        None => true,
    }
}

/// Checks that the invocation has the shape of its library function.
pub fn check_basic_structure(
    statement_idx: StatementIdx,
    invocation: &Invocation,
    libfunc: &ConcreteLibfunc,
) -> (r: Result<(), CompilationError>)
    ensures
        r == (if spec_basic_structure(*invocation, *libfunc) {
            Ok::<(), CompilationError>(())
        } else {
            Err::<(), CompilationError>(
                CompilationError::LibfuncInvocationMismatch { statement_idx },
            )
        }),
{
    if invocation.args.len() != libfunc.param_types.len() || invocation.branches.len()
        != libfunc.branch_signatures.len() {
        return Err(CompilationError::LibfuncInvocationMismatch { statement_idx });
    }
    let mut b: usize = 0;
    while b < invocation.branches.len()
        invariant
            b <= invocation.branches.len(),
            invocation.branches@.len() == libfunc.branch_signatures@.len(),
            forall|j: int|
                0 <= j < b ==> (#[trigger] invocation.branches@[j]).results@.len()
                    == libfunc.branch_signatures@[j].vars@.len(),
        decreases invocation.branches.len() - b,
    {
        if invocation.branches[b].results.len() != libfunc.branch_signatures[b].vars.len() {
            return Err(CompilationError::LibfuncInvocationMismatch { statement_idx });
        }
        b += 1;
    }
    match libfunc.fallthrough {
        Some(f) => {
            if f < invocation.branches.len() {
                match invocation.branches[f].target {
                    BranchTarget::Fallthrough => Ok(()),
                    BranchTarget::Statement(_) => Err(
                        CompilationError::LibfuncInvocationMismatch { statement_idx },
                    ),
                }
            } else {
                Err(CompilationError::LibfuncInvocationMismatch { statement_idx })
            }
        },
        None => Ok(()),
    }
}

/// Whether the library function aligns the allocation pointer where
/// branches meet: it has one branch, and that branch says so.
pub open spec fn spec_aligns_branches(libfunc: ConcreteLibfunc) -> bool {
    libfunc.branch_signatures@.len() == 1 && libfunc.branch_signatures@[0].ap_change
        == SierraApChange::BranchAlign
}

/// Whether `statement` is an invocation of a library function that aligns
/// the allocation pointer; the error of the registry where its library
/// function is not declared.
pub open spec fn spec_is_branch_align(program: ResolvedProgram, statement: Statement) -> Result<
    bool,
    CompilationError,
> {
    match statement {
        Statement::Invocation(invocation) => match program.spec_get_libfunc(
            invocation.libfunc_id,
        ) {
            None => Err(
                CompilationError::ProgramRegistryError(
                    Box::new(missing_libfunc_error(invocation.libfunc_id.0)),
                ),
            ),
            Some(libfunc) => Ok(spec_aligns_branches(libfunc)),
        },
        Statement::Return(_) => Ok(false),
    }
}

/// Whether `statement` is an invocation of a library function that aligns
/// the allocation pointer.
pub fn is_branch_align(program: &ResolvedProgram, statement: &Statement) -> (r: Result<
    bool,
    CompilationError,
>)
    ensures
        r == spec_is_branch_align(*program, *statement),
{
    match statement {
        Statement::Invocation(invocation) => {
            match program.get_libfunc(invocation.libfunc_id) {
                None => Err(
                    CompilationError::ProgramRegistryError(
                        new_missing_libfunc_error(invocation.libfunc_id),
                    ),
                ),
                Some(libfunc) => {
                    if libfunc.branch_signatures.len() == 1 {
                        match libfunc.branch_signatures[0].ap_change {
                            SierraApChange::BranchAlign => Ok(true),
                            _ => Ok(false),
                        }
                    } else {
                        Ok(false)
                    }
                },
            }
        },
        Statement::Return(_) => Ok(false),
    }
}

/// Whether the records fit the instructions: each gives a number of
/// instructions that exist, with the size of exactly those, and the
/// numbers do not shrink from one record to the next.
pub open spec fn records_fit(info: Seq<SierraStatementDebugInfo>, instructions: Seq<Instruction>) -> bool {
    &&& forall|k: int|
        0 <= k < info.len() ==> (#[trigger] info[k]).instruction_idx <= instructions.len()
            && info[k].code_offset == code_size(instructions.take(info[k].instruction_idx as int))
    &&& forall|k: int, l: int|
        0 <= k <= l < info.len() ==> (#[trigger] info[k]).instruction_idx <= (
        #[trigger] info[l]).instruction_idx
}

/// Whether the values of each recorded return lie on top of the stack.
pub open spec fn returns_on_stack(info: Seq<SierraStatementDebugInfo>) -> bool {
    forall|k: int|
        0 <= k < info.len() ==> match (#[trigger] info[k]).additional_kind_info {
            StatementKindDebugInfo::Return(d) => on_stack(reference_views(d.ref_values@)),
            _ => true,
        }
}

/// What a pass over the statements of a program has produced so far.
pub struct CompilationState {
    pub instructions: Vec<Instruction>,
    /// The relocations, by the index of their instruction in `instructions`.
    pub relocations: Vec<RelocationEntry>,
    /// For each relocation, the statement that asked for it.
    pub relocation_sources: Vec<StatementIdx>,
    /// The records of the statements that were compiled.
    pub sierra_statement_info: Vec<SierraStatementDebugInfo>,
    pub program_annotations: ProgramAnnotations,
    /// The size of `instructions`, in words.
    pub program_offset: usize,
}

/// Whether `state` is the state before the first statement of `program`:
/// no code, no records, and the environments of the entries of the
/// functions.
pub open spec fn spec_initial(
    state: CompilationState,
    program: ResolvedProgram,
    metadata: Metadata,
    gas_usage_check: bool,
    type_sizes: TypeSizeMap,
) -> bool {
    &&& spec_create(
        program.statements@.len(),
        program.funcs@,
        metadata,
        gas_usage_check,
        type_sizes,
        program.funcs@.len() as int,
    ) matches Ok(annotations)
    &&& state.program_annotations@ == annotations
    &&& state.instructions@.len() == 0
    &&& state.relocations@.len() == 0
    &&& state.sierra_statement_info@.len() == 0
    &&& state.well_formed()
}

impl CompilationState {
    /// Whether the parts of the state fit together: the offset is the size
    /// of the instructions, each relocation has its source, the records fit
    /// the instructions, the values of each recorded return lie on top of
    /// the stack, and no environment binds a variable twice.
    pub open spec fn well_formed(self) -> bool {
        &&& self.program_offset == code_size(self.instructions@)
        &&& self.relocations@.len() == self.relocation_sources@.len()
        &&& records_fit(self.sierra_statement_info@, self.instructions@)
        &&& returns_on_stack(self.sierra_statement_info@)
        &&& all_distinct(self.program_annotations@)
    }

    /// The state before the first statement of `program`: no code, and the
    /// environments of the entries of the functions.
    pub fn new(
        program: &ResolvedProgram,
        metadata: &Metadata,
        gas_usage_check: bool,
        type_sizes: &TypeSizeMap,
    ) -> (r: Result<CompilationState, CompilationError>)
        ensures
            match spec_create(
                program.statements@.len(),
                program.funcs@,
                *metadata,
                gas_usage_check,
                *type_sizes,
                program.funcs@.len() as int,
            ) {
                Ok(annotations) => r matches Ok(state) && spec_initial(
                    state,
                    *program,
                    *metadata,
                    gas_usage_check,
                    *type_sizes,
                ),
                Err(e) => r matches Err(CompilationError::AnnotationError(error)) && error == e,
            },
    {
        match ProgramAnnotations::create(
            program.statements.len(),
            &program.funcs,
            metadata,
            gas_usage_check,
            type_sizes,
        ) {
            Err(e) => Err(CompilationError::AnnotationError(e)),
            Ok(program_annotations) => {
                proof {
                    lemma_create_distinct(
                        program.statements@.len(),
                        program.funcs@,
                        *metadata,
                        gas_usage_check,
                        *type_sizes,
                        program.funcs@.len() as int,
                    );
                }
                Ok(
                    CompilationState {
                        instructions: Vec::new(),
                        relocations: Vec::new(),
                        relocation_sources: Vec::new(),
                        sierra_statement_info: Vec::new(),
                        program_annotations,
                        program_offset: 0,
                    },
                )
            },
        }
    }
}

/// The references that the return of `vars` at `statement_idx` returns: the
/// variables are taken out of the environment of the statement, which must
/// then be empty; the references must have the sizes of their types and the
/// return types of the function, the state must allow the return, and the
/// references must lie on top of the stack.
pub open spec fn spec_return_refs(
    state: Seq<Option<StatementAnnotationsView>>,
    statement_idx: StatementIdx,
    vars: Seq<VarId>,
    funcs: Seq<Function>,
    type_sizes: TypeSizeMap,
) -> Result<Seq<ReferenceValueView>, CompilationError> {
    if statement_idx.0 >= state.len() || state[statement_idx.0 as int].is_none() {
        Err(
            CompilationError::AnnotationError(
                AnnotationError::MissingAnnotationsForStatement(statement_idx),
            ),
        )
    } else {
        let annotations = state[statement_idx.0 as int].unwrap();
        match spec_take_args(annotations.refs, vars) {
            Err(var_id) => Err(
                CompilationError::AnnotationError(
                    AnnotationError::MissingReferenceError { statement_idx, var_id },
                ),
            ),
            Ok((rest, taken)) => if !views_match_size(taken, type_sizes) {
                Err(
                    CompilationError::ReferencesError {
                        statement_idx,
                        error: ReferencesError::InvalidReferenceSize,
                    },
                )
            } else if rest.len() > 0 {
                Err(CompilationError::DanglingReferences { statement_idx, var_id: rest[0].0 })
            } else {
                match spec_validate_final(
                    statement_idx,
                    StatementAnnotationsView {
                        refs: rest,
                        function_id: annotations.function_id,
                        environment: annotations.environment,
                    },
                    funcs,
                    view_types(taken),
                ) {
                    Err(e) => Err(CompilationError::AnnotationError(e)),
                    Ok(()) => if !on_stack(taken) {
                        Err(CompilationError::ReturnArgumentsNotOnStack { statement_idx })
                    } else {
                        Ok(taken)
                    },
                }
            },
        }
    }
}

/// Whether `r` and the state `after` are what compiling the return of `vars`
/// at `statement_idx` gives from the state `before`. Where the return is
/// refused the state stays as it is. Else the state grows by one `ret`
/// instruction and by the record of the statement, which holds the offset
/// and the number of instructions behind the `ret`, and the references of
/// the returned values.
pub open spec fn spec_compiled_return(
    before: CompilationState,
    after: CompilationState,
    statement_idx: StatementIdx,
    vars: Seq<VarId>,
    program: ResolvedProgram,
    type_sizes: TypeSizeMap,
    r: Result<(), CompilationError>,
) -> bool {
            match spec_return_refs(
                before.program_annotations@,
                statement_idx,
                vars,
                program.funcs@,
                type_sizes,
            ) {
                Err(e) => r == Err::<(), CompilationError>(e) && after == before,
                Ok(taken) => if before.program_offset + 1 > usize::MAX {
                    r == Err::<(), CompilationError>(CompilationError::CodeSizeLimitExceeded)
                        && after == before
                } else {
                    &&& r is Ok
                    &&& after.well_formed()
                    &&& after.program_offset == before.program_offset + 1
                    &&& after.instructions@.len() == before.instructions@.len() + 1
                    &&& after.instructions@.drop_last() == before.instructions@
                    &&& after.instructions@.last().body == InstructionKind::Ret
                    &&& !after.instructions@.last().inc_ap
                    &&& after.instructions@.last().hints@.len() == 0
                    &&& after.relocations == before.relocations
                    &&& after.relocation_sources == before.relocation_sources
                    &&& after.program_annotations == before.program_annotations
                    &&& after.sierra_statement_info@.len() == before.sierra_statement_info@.len() + 1
                    &&& after.sierra_statement_info@.drop_last() == before.sierra_statement_info@
                    &&& after.sierra_statement_info@.last().code_offset == before.program_offset + 1
                    &&& after.sierra_statement_info@.last().instruction_idx == before.instructions@.len() + 1
                    &&& after.sierra_statement_info@.last().additional_kind_info matches StatementKindDebugInfo::Return(
                        d,
                    )
                    &&& reference_views(d.ref_values@) == taken
                },
            }
}

impl CompilationState {
    /// Compiles the return of `vars` at `statement_idx`: one `ret`
    /// instruction, and the record of the statement.
    pub fn compile_return(
        &mut self,
        statement_idx: StatementIdx,
        vars: &Vec<VarId>,
        program: &ResolvedProgram,
        type_sizes: &TypeSizeMap,
    ) -> (r: Result<(), CompilationError>)
        requires
            old(self).well_formed(),
        ensures
            spec_compiled_return(
                *old(self),
                *final(self),
                statement_idx,
                vars@,
                *program,
                *type_sizes,
                r,
            ),
    {
        let (annotations, return_refs) =
            match self.program_annotations.get_annotations_after_take_args(statement_idx, vars) {
            Err(e) => {
                return Err(CompilationError::AnnotationError(e));
            },
            Ok(taken) => taken,
        };
        proof {
            lemma_reference_views(return_refs@, *type_sizes);
        }
        if !check_sizes(&return_refs, type_sizes) {
            return Err(
                CompilationError::ReferencesError {
                    statement_idx,
                    error: ReferencesError::InvalidReferenceSize,
                },
            );
        }
        if annotations.refs.len() > 0 {
            return Err(
                CompilationError::DanglingReferences {
                    statement_idx,
                    var_id: annotations.refs[0].0,
                },
            );
        }
        match self.program_annotations.validate_final_annotations(
            statement_idx,
            &annotations,
            &program.funcs,
            &return_refs,
        ) {
            Err(e) => {
                return Err(CompilationError::AnnotationError(e));
            },
            Ok(()) => {},
        }
        match check_references_on_stack(&return_refs) {
            Err(_) => {
                return Err(CompilationError::ReturnArgumentsNotOnStack { statement_idx });
            },
            Ok(()) => {},
        }
        if self.program_offset == usize::MAX {
            return Err(CompilationError::CodeSizeLimitExceeded);
        }
        let ghost old_instructions = self.instructions@;
        let ghost old_info = self.sierra_statement_info@;
        self.program_offset = self.program_offset + 1;
        self.instructions.push(Instruction::new(InstructionKind::Ret, false));
        self.sierra_statement_info.push(
            SierraStatementDebugInfo {
                code_offset: self.program_offset,
                instruction_idx: self.instructions.len(),
                additional_kind_info: StatementKindDebugInfo::Return(
                    ReturnStatementDebugInfo { ref_values: return_refs },
                ),
            },
        );
        proof {
            lemma_code_size_push(old_instructions, self.instructions@.last());
            assert(self.instructions@.drop_last() =~= old_instructions);
            assert(self.sierra_statement_info@.drop_last() =~= old_info);
            lemma_records_extend(
                old_info,
                old_instructions,
                self.sierra_statement_info@.last(),
                self.instructions@,
            );
        }
        Ok(())
    }
}

/// Records that fit the instructions still fit when instructions are added
/// behind them, together with a record of all instructions.
pub proof fn lemma_records_extend(
    info: Seq<SierraStatementDebugInfo>,
    instructions: Seq<Instruction>,
    record: SierraStatementDebugInfo,
    longer: Seq<Instruction>,
)
    requires
        records_fit(info, instructions),
        instructions.len() <= longer.len(),
        longer.take(instructions.len() as int) == instructions,
        record.instruction_idx == longer.len(),
        record.code_offset == code_size(longer),
    ensures
        records_fit(info.push(record), longer),
{
    let next = info.push(record);
    assert(longer.take(longer.len() as int) =~= longer);
    assert forall|k: int| 0 <= k < next.len() implies (#[trigger] next[k]).instruction_idx
        <= longer.len() && next[k].code_offset == code_size(
        longer.take(next[k].instruction_idx as int),
    ) by {
        if k < info.len() {
            assert(next[k] == info[k]);
            assert(longer.take(info[k].instruction_idx as int) =~= instructions.take(
                info[k].instruction_idx as int,
            ));
        }
    }
    assert forall|k: int, l: int| 0 <= k <= l < next.len() implies (
    #[trigger] next[k]).instruction_idx <= (#[trigger] next[l]).instruction_idx by {
        if l < info.len() {
            assert(next[k] == info[k] && next[l] == info[l]);
        } else if k < info.len() {
            assert(next[k] == info[k]);
        }
    }
}

/// The environment and the references of the arguments with which the
/// invocation `invocation` at `statement_idx` is compiled: the arguments are
/// taken out of the environment of the statement; the library function
/// must be declared, the invocation must have its shape, and the references
/// must have the types of its parameters and the sizes of their types.
pub open spec fn spec_invocation_refs(
    state: Seq<Option<StatementAnnotationsView>>,
    statement_idx: StatementIdx,
    invocation: Invocation,
    program: ResolvedProgram,
    type_sizes: TypeSizeMap,
) -> Result<(StatementAnnotationsView, Seq<ReferenceValueView>), CompilationError> {
    if statement_idx.0 >= state.len() || state[statement_idx.0 as int].is_none() {
        Err(
            CompilationError::AnnotationError(
                AnnotationError::MissingAnnotationsForStatement(statement_idx),
            ),
        )
    } else {
        let annotations = state[statement_idx.0 as int].unwrap();
        match spec_take_args(annotations.refs, invocation.args@) {
            Err(var_id) => Err(
                CompilationError::AnnotationError(
                    AnnotationError::MissingReferenceError { statement_idx, var_id },
                ),
            ),
            Ok((rest, taken)) => match program.spec_get_libfunc(invocation.libfunc_id) {
                None => Err(
                    CompilationError::ProgramRegistryError(
                        Box::new(missing_libfunc_error(invocation.libfunc_id.0)),
                    ),
                ),
                Some(libfunc) => if !spec_basic_structure(invocation, libfunc) {
                    Err(CompilationError::LibfuncInvocationMismatch { statement_idx })
                } else if view_types(taken) != libfunc.param_types@ {
                    Err(
                        CompilationError::AnnotationError(
                            AnnotationError::ReferencesError {
                                statement_idx,
                                error: ReferencesError::InvalidReferenceTypeForArgument,
                            },
                        ),
                    )
                } else if !views_match_size(taken, type_sizes) {
                    Err(
                        CompilationError::ReferencesError {
                            statement_idx,
                            error: ReferencesError::InvalidReferenceSize,
                        },
                    )
                } else {
                    Ok(
                        (
                            StatementAnnotationsView {
                                refs: rest,
                                function_id: annotations.function_id,
                                environment: annotations.environment,
                            },
                            taken,
                        ),
                    )
                },
            },
        }
    }
}

/// Whether the statement `destination` aligns the allocation pointer. A
/// statement that does not exist does not.
pub open spec fn spec_destination_aligns(program: ResolvedProgram, destination: StatementIdx) -> Result<
    bool,
    CompilationError,
> {
    if destination.0 < program.statements@.len() {
        spec_is_branch_align(program, program.statements@[destination.0 as int])
    } else {
        Ok(false)
    }
}

/// The views of the changes of the branches.
pub open spec fn branch_changes_views(results: Seq<BranchChanges>) -> Seq<BranchChangesView> {
    results.map_values(|c: BranchChanges| c@)
}

/// The environments of the statements after the first `n` branches of an
/// invocation at `source` were taken, each with its changes: where the
/// invocation has more than one branch, each must lead to a statement that
/// aligns the allocation pointer.
pub open spec fn spec_propagate_branches(
    state: Seq<Option<StatementAnnotationsView>>,
    program: ResolvedProgram,
    source: StatementIdx,
    annotations: StatementAnnotationsView,
    branches: Seq<BranchInfo>,
    results: Seq<BranchChangesView>,
    n: int,
) -> Result<Seq<Option<StatementAnnotationsView>>, CompilationError>
    decreases n,
{
    if n <= 0 || n > branches.len() || n > results.len() {
        Ok(state)
    } else {
        match spec_propagate_branches(state, program, source, annotations, branches, results, n - 1) {
            Err(e) => Err(e),
            Ok(reached) => {
                let destination = StatementIdx(source.spec_next(branches[n - 1].target) as usize);
                match (if results.len() > 1 {
                    spec_destination_aligns(program, destination)
                } else {
                    Ok(true)
                }) {
                    Err(e) => Err(e),
                    Ok(false) => Err(
                        CompilationError::ExpectedBranchAlign {
                            source_statement_idx: source,
                            destination_statement_idx: destination,
                        },
                    ),
                    Ok(true) => match spec_propagate(
                        reached,
                        source,
                        destination,
                        annotations,
                        branches[n - 1].results@,
                        results[n - 1],
                    ) {
                        Err(e) => Err(CompilationError::AnnotationError(e)),
                        Ok(next) => Ok(next),
                    },
                }
            },
        }
    }
}

/// A failure at one of the first `k` branches is the failure of the whole.
pub proof fn lemma_propagate_branches_err(
    state: Seq<Option<StatementAnnotationsView>>,
    program: ResolvedProgram,
    source: StatementIdx,
    annotations: StatementAnnotationsView,
    branches: Seq<BranchInfo>,
    results: Seq<BranchChangesView>,
    k: int,
    n: int,
)
    requires
        0 <= k <= n,
        n <= branches.len(),
        n <= results.len(),
        spec_propagate_branches(state, program, source, annotations, branches, results, k) is Err,
    ensures
        spec_propagate_branches(state, program, source, annotations, branches, results, n)
            == spec_propagate_branches(state, program, source, annotations, branches, results, k),
    decreases n - k,
{
    if k < n {
        lemma_propagate_branches_err(
            state,
            program,
            source,
            annotations,
            branches,
            results,
            k + 1,
            n,
        );
    }
}

/// Whether the code of an invocation has the shape of the invocation: the
/// changes of as many branches as the invocation has, each with as many
/// references as the branch has results.
pub open spec fn spec_results_shape(invocation: Invocation, results: Seq<BranchChanges>) -> bool {
    &&& results.len() == invocation.branches@.len()
    &&& forall|b: int|
        0 <= b < results.len() ==> (#[trigger] results[b]).refs@.len()
            == invocation.branches@[b].results@.len()
}

/// The relocations `relocations` with the index of each grown by `base`.
pub open spec fn rebased(relocations: Seq<RelocationEntry>, base: int) -> Seq<RelocationEntry> {
    Seq::new(
        relocations.len(),
        |k: int|
            RelocationEntry {
                instruction_idx: (relocations[k].instruction_idx + base) as usize,
                relocation: relocations[k].relocation,
            },
    )
}

/// Whether the index of each relocation, grown by `base`, fits in a machine
/// word.
pub open spec fn rebase_fits(relocations: Seq<RelocationEntry>, base: int) -> bool {
    forall|k: int|
        0 <= k < relocations.len() ==> (#[trigger] relocations[k]).instruction_idx + base
            <= usize::MAX
}

/// Checks the shape of the code of an invocation.
fn check_results_shape(invocation: &Invocation, results: &Vec<BranchChanges>) -> (r: bool)
    ensures
        r == spec_results_shape(*invocation, results@),
{
    if results.len() != invocation.branches.len() {
        return false;
    }
    let mut b: usize = 0;
    while b < results.len()
        invariant
            b <= results.len(),
            results@.len() == invocation.branches@.len(),
            forall|j: int|
                0 <= j < b ==> (#[trigger] results@[j]).refs@.len()
                    == invocation.branches@[j].results@.len(),
        decreases results.len() - b,
    {
        if results[b].refs.len() != invocation.branches[b].results.len() {
            return false;
        }
        b += 1;
    }
    true
}

/// The relocations with the index of each grown by `base`.
fn rebase(relocations: &Vec<RelocationEntry>, base: usize) -> (r: Option<Vec<RelocationEntry>>)
    ensures
        match r {
            Some(v) => rebase_fits(relocations@, base as int) && v@ == rebased(
                relocations@,
                base as int,
            ),
            None => !rebase_fits(relocations@, base as int),
        },
{
    let mut out: Vec<RelocationEntry> = Vec::new();
    let mut k: usize = 0;
    while k < relocations.len()
        invariant
            k <= relocations.len(),
            out@.len() == k,
            forall|j: int|
                0 <= j < k ==> (#[trigger] relocations@[j]).instruction_idx + base <= usize::MAX,
            forall|j: int|
                0 <= j < k ==> out@[j] == (RelocationEntry {
                    instruction_idx: (relocations@[j].instruction_idx + base) as usize,
                    relocation: relocations@[j].relocation,
                }),
        decreases relocations.len() - k,
    {
        match relocations[k].instruction_idx.checked_add(base) {
            None => {
                return None;
            },
            Some(instruction_idx) => {
                out.push(RelocationEntry { instruction_idx, relocation: relocations[k].relocation });
            },
        }
        k += 1;
    }
    assert(out@ =~= rebased(relocations@, base as int));
    Some(out)
}

impl CompilationState {
    /// Takes the arguments of the invocation `invocation` at
    /// `statement_idx` and checks them against its library function.
    pub fn prepare_invocation<'a>(
        &self,
        statement_idx: StatementIdx,
        invocation: &Invocation,
        program: &'a ResolvedProgram,
        type_sizes: &TypeSizeMap,
    ) -> (r: Result<(StatementAnnotations, Vec<ReferenceValue>, &'a ConcreteLibfunc), CompilationError>)
        ensures
            match spec_invocation_refs(
                self.program_annotations@,
                statement_idx,
                *invocation,
                *program,
                *type_sizes,
            ) {
                Err(e) => r matches Err(error) && error == e,
                Ok((annotations, taken)) => {
                    &&& r matches Ok((a, refs, libfunc))
                    &&& a@ == annotations
                    &&& reference_views(refs@) == taken
                    &&& program.spec_get_libfunc(invocation.libfunc_id) == Some(*libfunc)
                },
            },
            all_distinct(self.program_annotations@) && r is Ok ==> distinct_vars(r->Ok_0.0@.refs),
    {
        let (annotations, invoke_refs) =
            match self.program_annotations.get_annotations_after_take_args(
            statement_idx,
            &invocation.args,
        ) {
            Err(e) => {
                return Err(CompilationError::AnnotationError(e));
            },
            Ok(taken) => taken,
        };
        let libfunc = match program.get_libfunc(invocation.libfunc_id) {
            None => {
                return Err(
                    CompilationError::ProgramRegistryError(
                        new_missing_libfunc_error(invocation.libfunc_id),
                    ),
                );
            },
            Some(libfunc) => libfunc,
        };
        match check_basic_structure(statement_idx, invocation, libfunc) {
            Err(e) => {
                return Err(e);
            },
            Ok(()) => {},
        }
        proof {
            lemma_reference_views(invoke_refs@, *type_sizes);
            if all_distinct(self.program_annotations@) {
                let recorded = self.program_annotations@[statement_idx.0 as int]->Some_0;
                lemma_take_args_takes_once(recorded.refs, invocation.args@);
            }
        }
        match check_types_match(&invoke_refs, &libfunc.param_types) {
            Err(error) => {
                return Err(
                    CompilationError::AnnotationError(
                        AnnotationError::ReferencesError { statement_idx, error },
                    ),
                );
            },
            Ok(()) => {},
        }
        if !check_sizes(&invoke_refs, type_sizes) {
            return Err(
                CompilationError::ReferencesError {
                    statement_idx,
                    error: ReferencesError::InvalidReferenceSize,
                },
            );
        }
        Ok((annotations, invoke_refs, libfunc))
    }

    /// Takes each branch of the invocation at `source` with its changes.
    pub fn propagate_branches(
        &mut self,
        program: &ResolvedProgram,
        source: StatementIdx,
        annotations: &StatementAnnotations,
        branches: &Vec<BranchInfo>,
        results: &Vec<BranchChanges>,
    ) -> (r: Result<(), CompilationError>)
        requires
            source.0 < usize::MAX,
            branches@.len() == results@.len(),
            all_distinct(old(self).program_annotations@),
            distinct_vars(annotations@.refs),
        ensures
            r is Ok ==> all_distinct(final(self).program_annotations@),
            final(self).instructions == old(self).instructions,
            final(self).relocations == old(self).relocations,
            final(self).relocation_sources == old(self).relocation_sources,
            final(self).sierra_statement_info == old(self).sierra_statement_info,
            final(self).program_offset == old(self).program_offset,
            match spec_propagate_branches(
                old(self).program_annotations@,
                *program,
                source,
                annotations@,
                branches@,
                branch_changes_views(results@),
                branches@.len() as int,
            ) {
                Err(e) => r == Err::<(), CompilationError>(e),
                Ok(reached) => r is Ok && final(self).program_annotations@ == reached,
            },
    {
        let ghost start = self.program_annotations@;
        let ghost views = branch_changes_views(results@);
        let branching: bool = results.len() > 1;
        let mut b: usize = 0;
        while b < branches.len()
            invariant
                b <= branches.len(),
                source.0 < usize::MAX,
                branches@.len() == results@.len(),
                views == branch_changes_views(results@),
                branching == (views.len() > 1),
                start == old(self).program_annotations@,
                all_distinct(self.program_annotations@),
                distinct_vars(annotations@.refs),
                self.instructions == old(self).instructions,
                self.relocations == old(self).relocations,
                self.relocation_sources == old(self).relocation_sources,
                self.sierra_statement_info == old(self).sierra_statement_info,
                self.program_offset == old(self).program_offset,
                spec_propagate_branches(
                    start,
                    *program,
                    source,
                    annotations@,
                    branches@,
                    views,
                    b as int,
                ) == Ok::<Seq<Option<StatementAnnotationsView>>, CompilationError>(
                    self.program_annotations@,
                ),
            decreases branches.len() - b,
        {
            let destination = match branches[b].target {
                BranchTarget::Fallthrough => StatementIdx(source.0 + 1),
                BranchTarget::Statement(idx) => idx,
            };
            assert(views[b as int] == results@[b as int]@);
            if branching {
                let aligns = if destination.0 < program.statements.len() {
                    is_branch_align(program, &program.statements[destination.0])
                } else {
                    Ok(false)
                };
                match aligns {
                    Err(e) => {
                        proof {
                            lemma_propagate_branches_err(
                                start,
                                *program,
                                source,
                                annotations@,
                                branches@,
                                views,
                                b + 1,
                                branches@.len() as int,
                            );
                        }
                        return Err(e);
                    },
                    Ok(false) => {
                        proof {
                            lemma_propagate_branches_err(
                                start,
                                *program,
                                source,
                                annotations@,
                                branches@,
                                views,
                                b + 1,
                                branches@.len() as int,
                            );
                        }
                        return Err(
                            CompilationError::ExpectedBranchAlign {
                                source_statement_idx: source,
                                destination_statement_idx: destination,
                            },
                        );
                    },
                    Ok(true) => {},
                }
            }
            proof {
                if spec_propagate(
                    self.program_annotations@,
                    source,
                    destination,
                    annotations@,
                    branches@[b as int].results@,
                    views[b as int],
                ) is Ok {
                    lemma_propagate_keeps_distinct(
                        self.program_annotations@,
                        source,
                        destination,
                        annotations@,
                        branches@[b as int].results@,
                        views[b as int],
                    );
                }
            }
            match self.program_annotations.propagate_annotations(
                source,
                destination,
                annotations,
                &branches[b].results,
                &results[b],
            ) {
                Err(e) => {
                    proof {
                        lemma_propagate_branches_err(
                            start,
                            *program,
                            source,
                            annotations@,
                            branches@,
                            views,
                            b + 1,
                            branches@.len() as int,
                        );
                    }
                    return Err(CompilationError::AnnotationError(e));
                },
                Ok(()) => {},
            }
            b += 1;
        }
        Ok(())
    }
}

/// Whether `r` and the state `after` are what adding the code `compiled`
/// of the invocation `invocation` at `statement_idx` gives from the state
/// `before`, where the invocation was prepared with the environment
/// `annotations` and the references `invoke_refs`. The code must have the
/// shape of the invocation, the size of the code and the indices of the
/// relocations must fit in a machine word, and each branch must be taken.
/// Then the state grows by the instructions, by the relocations with their
/// indices counted from the start of the code, and by the record of the
/// statement, and holds the environments that the branches reached.
pub open spec fn spec_applied(
    before: CompilationState,
    after: CompilationState,
    statement_idx: StatementIdx,
    invocation: Invocation,
    annotations: StatementAnnotations,
    invoke_refs: Vec<ReferenceValue>,
    compiled: CompiledInvocation,
    program: ResolvedProgram,
    r: Result<(), CompilationError>,
) -> bool {
            if !spec_results_shape(invocation, compiled.results@) {
                r == Err::<(), CompilationError>(
                    CompilationError::LibfuncInvocationMismatch { statement_idx },
                )
            } else if before.program_offset + code_size(compiled.instructions@) > usize::MAX {
                r == Err::<(), CompilationError>(CompilationError::CodeSizeLimitExceeded)
            } else if !rebase_fits(compiled.relocations@, before.instructions@.len() as int) {
                r == Err::<(), CompilationError>(
                    CompilationError::InvocationError {
                        statement_idx,
                        error: InvocationError::InvalidRelocation,
                    },
                )
            } else {
                match spec_propagate_branches(
                    before.program_annotations@,
                    program,
                    statement_idx,
                    StatementAnnotationsView {
                        refs: annotations@.refs,
                        function_id: annotations@.function_id,
                        environment: compiled.environment,
                    },
                    invocation.branches@,
                    branch_changes_views(compiled.results@),
                    invocation.branches@.len() as int,
                ) {
                    Err(e) => r == Err::<(), CompilationError>(e),
                    Ok(reached) => {
                        &&& r is Ok
                        &&& after.well_formed()
                        &&& after.program_annotations@ == reached
                        &&& after.instructions@ == before.instructions@
                            + compiled.instructions@
                        &&& after.program_offset == before.program_offset + code_size(
                            compiled.instructions@,
                        )
                        &&& after.relocations@ == before.relocations@ + rebased(
                            compiled.relocations@,
                            before.instructions@.len() as int,
                        )
                        &&& after.relocation_sources@ == before.relocation_sources@
                            + Seq::new(compiled.relocations@.len(), |k: int| statement_idx)
                        &&& after.sierra_statement_info@ == before.sierra_statement_info@.push(
                            SierraStatementDebugInfo {
                                code_offset: after.program_offset,
                                instruction_idx: after.instructions@.len() as usize,
                                additional_kind_info: StatementKindDebugInfo::Invoke(
                                    InvokeStatementDebugInfo {
                                        result_branch_changes: compiled.results,
                                        ref_values: invoke_refs,
                                    },
                                ),
                            },
                        )
                    },
                }
            }
}

impl CompilationState {
    /// Adds the code `compiled` of the invocation `invocation` at
    /// `statement_idx`, which was prepared with the environment
    /// `annotations` and the references `invoke_refs`: the instructions,
    /// the relocations with their indices counted from the start of the
    /// code, the record of the statement, and the environment of each
    /// branch at its destination. After an error the state is of no use.
    pub fn apply_invocation(
        &mut self,
        statement_idx: StatementIdx,
        invocation: &Invocation,
        annotations: StatementAnnotations,
        invoke_refs: Vec<ReferenceValue>,
        compiled: CompiledInvocation,
        program: &ResolvedProgram,
    ) -> (r: Result<(), CompilationError>)
        requires
            old(self).well_formed(),
            statement_idx.0 < program.statements@.len(),
            distinct_vars(annotations@.refs),
        ensures
            spec_applied(
                *old(self),
                *final(self),
                statement_idx,
                *invocation,
                annotations,
                invoke_refs,
                compiled,
                *program,
                r,
            ),
    {
        if !check_results_shape(invocation, &compiled.results) {
            return Err(CompilationError::LibfuncInvocationMismatch { statement_idx });
        }
        let CompiledInvocation { instructions, relocations, results, environment } = compiled;
        let mut new_instructions = instructions;
        let ghost added_instructions = new_instructions@;
        assert(new_instructions@.take(new_instructions@.len() as int) =~= new_instructions@);
        let added: usize = match code_offset(&new_instructions, new_instructions.len()) {
            None => {
                return Err(CompilationError::CodeSizeLimitExceeded);
            },
            Some(added) => added,
        };
        let program_offset: usize = match self.program_offset.checked_add(added) {
            None => {
                return Err(CompilationError::CodeSizeLimitExceeded);
            },
            Some(program_offset) => program_offset,
        };
        let new_relocations = match rebase(&relocations, self.instructions.len()) {
            None => {
                return Err(
                    CompilationError::InvocationError {
                        statement_idx,
                        error: InvocationError::InvalidRelocation,
                    },
                );
            },
            Some(new_relocations) => new_relocations,
        };
        let updated = StatementAnnotations {
            refs: annotations.refs,
            function_id: annotations.function_id,
            environment,
        };
        let n_statements: usize = program.statements.len();
        match self.propagate_branches(
            program,
            statement_idx,
            &updated,
            &invocation.branches,
            &results,
        ) {
            Err(e) => {
                return Err(e);
            },
            Ok(()) => {},
        }
        let ghost old_instructions = self.instructions@;
        let ghost old_info = self.sierra_statement_info@;
        let ghost old_relocations = self.relocations@;
        let ghost old_sources = self.relocation_sources@;
        let ghost reached = self.program_annotations@;
        self.program_offset = program_offset;
        let mut k: usize = 0;
        while k < new_relocations.len()
            invariant
                k <= new_relocations.len(),
                self.relocations@ == old_relocations + new_relocations@.take(k as int),
                self.relocation_sources@ == old_sources + Seq::new(k as nat, |j: int| statement_idx),
                self.instructions@ == old_instructions,
                self.sierra_statement_info@ == old_info,
                self.program_offset == program_offset,
                self.program_annotations@ == reached,
                all_distinct(reached),
            decreases new_relocations.len() - k,
        {
            self.relocations.push(new_relocations[k]);
            self.relocation_sources.push(statement_idx);
            assert(self.relocations@ =~= old_relocations + new_relocations@.take(k + 1));
            assert(self.relocation_sources@ =~= old_sources + Seq::new(
                (k + 1) as nat,
                |j: int| statement_idx,
            ));
            k += 1;
        }
        assert(new_relocations@.take(k as int) =~= new_relocations@);
        self.instructions.append(&mut new_instructions);
        self.sierra_statement_info.push(
            SierraStatementDebugInfo {
                code_offset: self.program_offset,
                instruction_idx: self.instructions.len(),
                additional_kind_info: StatementKindDebugInfo::Invoke(
                    InvokeStatementDebugInfo {
                        result_branch_changes: results,
                        ref_values: invoke_refs,
                    },
                ),
            },
        );
        proof {
            lemma_code_size_add(old_instructions, added_instructions);
            assert(self.instructions@.take(old_instructions.len() as int) =~= old_instructions);
            lemma_records_extend(
                old_info,
                old_instructions,
                self.sierra_statement_info@.last(),
                self.instructions@,
            );
        }
        Ok(())
    }
}

/// The offsets that the records give, in order.
pub open spec fn code_offsets(info: Seq<SierraStatementDebugInfo>) -> Seq<usize> {
    info.map_values(|record: SierraStatementDebugInfo| record.code_offset)
}

/// The identities of the declared library functions, in order.
pub open spec fn declared_libfunc_ids(program: ResolvedProgram) -> Seq<LibfuncId> {
    program.libfunc_declarations@.map_values(|d: crate::program::LibfuncDeclaration| d.id)
}

impl CairoProgram {
    /// Whether the parts of the program fit together: the records fit the
    /// instructions, the last record is the end mark with the number and
    /// the size of all instructions, the values of each return lie on top
    /// of the stack, and the constant segments are laid out one behind the
    /// other.
    pub open spec fn well_formed(self) -> bool {
        let info = self.debug_info.sierra_statement_info@;
        &&& info.len() >= 1
        &&& records_fit(info, self.instructions@)
        &&& info.last().instruction_idx == self.instructions@.len()
        &&& info.last().code_offset == code_size(self.instructions@)
        &&& info.last().additional_kind_info is EndMarker
        &&& returns_on_stack(info)
        &&& self.consts_info@.well_formed()
    }

    /// The size of the code and the constant segments in words.
    pub open spec fn spec_size(self) -> nat {
        code_size(self.instructions@) + self.consts_info@.total_segments_size as nat
    }
}

/// An end mark behind records whose returns lie on the stack leaves it so.
pub proof fn lemma_returns_on_stack_push(
    info: Seq<SierraStatementDebugInfo>,
    record: SierraStatementDebugInfo,
)
    requires
        returns_on_stack(info),
        !(record.additional_kind_info is Return),
    ensures
        returns_on_stack(info.push(record)),
{
    let next = info.push(record);
    assert forall|k: int| 0 <= k < next.len() implies match (
    #[trigger] next[k]).additional_kind_info {
        StatementKindDebugInfo::Return(d) => on_stack(reference_views(d.ref_values@)),
        _ => true,
    } by {
        if k < info.len() {
            assert(next[k] == info[k]);
        }
    }
}

/// Records that fit instructions fit instructions of the same sizes.
pub proof fn lemma_records_fit_same_sizes(
    info: Seq<SierraStatementDebugInfo>,
    before: Seq<Instruction>,
    after: Seq<Instruction>,
)
    requires
        records_fit(info, before),
        before.len() == after.len(),
        forall|i: int|
            0 <= i < before.len() ==> (#[trigger] after[i]).body.spec_op_size()
                == before[i].body.spec_op_size(),
    ensures
        records_fit(info, after),
        code_size(after) == code_size(before),
{
    assert forall|k: int| 0 <= k < info.len() implies (#[trigger] info[k]).instruction_idx
        <= after.len() && info[k].code_offset == code_size(
        after.take(info[k].instruction_idx as int),
    ) by {
        lemma_same_sizes(before, after, info[k].instruction_idx as int);
    }
    lemma_same_sizes(before, after, before.len() as int);
    assert(before.take(before.len() as int) =~= before);
    assert(after.take(after.len() as int) =~= after);
}

/// Whether `compiled` is what the end of the pass gives for the state
/// `state`, with the records `info` and the constant segments `consts`: it
/// holds these, and the instructions of the state with the relocations
/// applied.
pub open spec fn spec_finished(
    state: CompilationState,
    info: Seq<SierraStatementDebugInfo>,
    consts: crate::consts::ConstsInfoView,
    compiled: CairoProgram,
) -> bool {
    &&& compiled.consts_info@ == consts
    &&& compiled.debug_info.sierra_statement_info@ == info
    &&& compiled.instructions@ == spec_relocate(
        state.instructions@,
        state.relocations@,
        state.relocations@.len() as int,
        code_offsets(info),
        consts,
    )
}

/// Whether `r` is what ending the pass gives for the state `state`. The
/// code must not be larger than `config.max_bytecode_size`, the constant
/// segments must be laid out in the room that the code leaves, and each
/// relocation must be applied; the first that cannot be is an error of the
/// statement that asked for it.
#[verifier::opaque]
pub open spec fn spec_finish(
    state: CompilationState,
    program: ResolvedProgram,
    type_sizes: TypeSizeMap,
    config: SierraToCasmConfig,
    r: Result<CairoProgram, CompilationError>,
) -> bool {
            if state.program_offset > config.max_bytecode_size {
                r matches Err(e) && e == CompilationError::CodeSizeLimitExceeded
            } else {
                match spec_consts_info(
                    program,
                    type_sizes,
                    declared_libfunc_ids(program),
                    (config.max_bytecode_size - state.program_offset) as usize,
                ) {
                    Err(e) => r matches Err(error) && error == e,
                    Ok(consts) => {
                        let info = state.sierra_statement_info@.push(
                            SierraStatementDebugInfo {
                                code_offset: state.program_offset,
                                instruction_idx: state.instructions@.len() as usize,
                                additional_kind_info: StatementKindDebugInfo::EndMarker,
                            },
                        );
                        if forall|k: int|
                            0 <= k < state.relocations@.len() ==> entry_ok(
                                #[trigger] state.relocations@[k],
                                state.instructions@,
                                code_offsets(info),
                                consts,
                            ) {
                            &&& r matches Ok(compiled)
                            &&& spec_finished(state, info, consts, compiled)
                            &&& relocated(
                                state.instructions@,
                                compiled.instructions@,
                                state.relocations@,
                                state.relocations@.len() as int,
                                code_offsets(info),
                                consts,
                            )
                            &&& compiled.well_formed()
                            &&& compiled.spec_size() <= config.max_bytecode_size
                        } else {
                            exists|k: int|
                                {
                                    &&& 0 <= k < state.relocations@.len()
                                    &&& !entry_ok(
                                        state.relocations@[k],
                                        state.instructions@,
                                        code_offsets(info),
                                        consts,
                                    )
                                    &&& forall|j: int|
                                        0 <= j < k ==> entry_ok(
                                            #[trigger] state.relocations@[j],
                                            state.instructions@,
                                            code_offsets(info),
                                            consts,
                                        )
                                    &&& r matches Err(e)
                                    &&& e == CompilationError::InvocationError {
                                        statement_idx: state.relocation_sources@[k],
                                        error: InvocationError::InvalidRelocation,
                                    }
                                }
                        }
                    },
                }
            }
}

impl CompilationState {
    /// Ends the pass: records the end mark, lays out the constant segments
    /// of the declared library functions in the room that the code leaves
    /// of `config.max_bytecode_size` words, and applies the relocations.
    pub fn finish(self, program: &ResolvedProgram, type_sizes: &TypeSizeMap, config: SierraToCasmConfig) -> (r:
        Result<CairoProgram, CompilationError>)
        requires
            self.well_formed(),
        ensures
            spec_finish(self, *program, *type_sizes, config, r),
            r matches Ok(compiled) ==> {
                &&& compiled.well_formed()
                &&& compiled.spec_size() <= config.max_bytecode_size
                &&& compiled.debug_info.sierra_statement_info@.len()
                    == self.sierra_statement_info@.len() + 1
                &&& compiled.debug_info.sierra_statement_info@.drop_last()
                    == self.sierra_statement_info@
            },
    {
        proof {
            reveal(spec_finish);
        }
        let mut state = self;
        if state.program_offset > config.max_bytecode_size {
            return Err(CompilationError::CodeSizeLimitExceeded);
        }
        let ghost old_info = state.sierra_statement_info@;
        let ghost before = state.instructions@;
        state.sierra_statement_info.push(
            SierraStatementDebugInfo {
                code_offset: state.program_offset,
                instruction_idx: state.instructions.len(),
                additional_kind_info: StatementKindDebugInfo::EndMarker,
            },
        );
        let ghost info = state.sierra_statement_info@;
        proof {
            assert(before.take(before.len() as int) =~= before);
            lemma_records_extend(old_info, before, info.last(), before);
            lemma_returns_on_stack_push(old_info, info.last());
        }
        let mut statement_offsets: Vec<usize> = Vec::new();
        let mut i: usize = 0;
        while i < state.sierra_statement_info.len()
            invariant
                i <= state.sierra_statement_info@.len(),
                info == state.sierra_statement_info@,
                statement_offsets@ == code_offsets(info).take(i as int),
            decreases state.sierra_statement_info@.len() - i,
        {
            statement_offsets.push(state.sierra_statement_info[i].code_offset);
            assert(statement_offsets@ =~= code_offsets(info).take(i + 1));
            i += 1;
        }
        assert(code_offsets(info).take(i as int) =~= code_offsets(info));
        let mut libfunc_ids: Vec<LibfuncId> = Vec::new();
        let mut d: usize = 0;
        while d < program.libfunc_declarations.len()
            invariant
                d <= program.libfunc_declarations@.len(),
                libfunc_ids@ == declared_libfunc_ids(*program).take(d as int),
            decreases program.libfunc_declarations@.len() - d,
        {
            libfunc_ids.push(program.libfunc_declarations[d].id);
            assert(libfunc_ids@ =~= declared_libfunc_ids(*program).take(d + 1));
            d += 1;
        }
        assert(declared_libfunc_ids(*program).take(d as int) =~= declared_libfunc_ids(*program));
        let const_segments_max_size: usize = config.max_bytecode_size - state.program_offset;
        let consts_info = match ConstsInfo::new(
            program,
            type_sizes,
            &libfunc_ids,
            const_segments_max_size,
        ) {
            Err(e) => {
                return Err(e);
            },
            Ok(consts_info) => consts_info,
        };
        let mut instructions = state.instructions;
        match relocate_instructions(
            &state.relocations,
            &statement_offsets,
            &consts_info,
            &mut instructions,
        ) {
            Err(k) => {
                return Err(
                    CompilationError::InvocationError {
                        statement_idx: state.relocation_sources[k],
                        error: InvocationError::InvalidRelocation,
                    },
                );
            },
            Ok(()) => {},
        }
        proof {
            lemma_records_fit_same_sizes(info, before, instructions@);
        }
        Ok(
            CairoProgram {
                instructions,
                debug_info: CairoProgramDebugInfo {
                    sierra_statement_info: state.sierra_statement_info,
                },
                consts_info,
            },
        )
    }
}

/// Whether `annotations` and `refs` are the environment and the references
/// with which the invocation `invocation` at `statement_idx` is compiled in
/// the state `state`.
pub open spec fn spec_prepared(
    state: CompilationState,
    statement_idx: StatementIdx,
    invocation: Invocation,
    program: ResolvedProgram,
    type_sizes: TypeSizeMap,
    annotations: StatementAnnotations,
    refs: Vec<ReferenceValue>,
) -> bool {
    &&& spec_invocation_refs(
        state.program_annotations@,
        statement_idx,
        invocation,
        program,
        type_sizes,
    ) matches Ok((expected, taken))
    &&& annotations@ == expected
    &&& reference_views(refs@) == taken
}

/// Whether the state `after` is what compiling the statement `k` gives from
/// the state `before`: the code is within its bounds, and the statement is
/// compiled, an invocation with some code for it.
#[verifier::opaque]
pub open spec fn spec_step(
    before: CompilationState,
    after: CompilationState,
    k: int,
    program: ResolvedProgram,
    type_sizes: TypeSizeMap,
    config: SierraToCasmConfig,
) -> bool {
    &&& 0 <= k < program.statements@.len()
    &&& before.program_offset <= config.max_bytecode_size
    &&& match program.statements@[k] {
        Statement::Return(vars) => spec_compiled_return(
            before,
            after,
            StatementIdx(k as usize),
            vars@,
            program,
            type_sizes,
            Ok(()),
        ),
        Statement::Invocation(invocation) => exists|
            annotations: StatementAnnotations,
            refs: Vec<ReferenceValue>,
            compiled: CompiledInvocation,
        |
            spec_prepared(
                before,
                StatementIdx(k as usize),
                invocation,
                program,
                type_sizes,
                annotations,
                refs,
            ) && #[trigger] spec_applied(
                before,
                after,
                StatementIdx(k as usize),
                invocation,
                annotations,
                refs,
                compiled,
                program,
                Ok(()),
            ),
    }
}

/// Whether compiling the statement `k` in the state `before` may fail with
/// the error `e`: the code is out of its bounds; or the return is refused;
/// or the invocation cannot be prepared, or no code is given for it, which
/// is any error of the invocation, or some code that is given for it cannot
/// be added.
#[verifier::opaque]
pub open spec fn spec_step_fails(
    before: CompilationState,
    k: int,
    program: ResolvedProgram,
    type_sizes: TypeSizeMap,
    config: SierraToCasmConfig,
    e: CompilationError,
) -> bool {
    &&& 0 <= k < program.statements@.len()
    &&& if before.program_offset > config.max_bytecode_size {
        e == CompilationError::CodeSizeLimitExceeded
    } else {
        match program.statements@[k] {
            Statement::Return(vars) => spec_compiled_return(
                before,
                before,
                StatementIdx(k as usize),
                vars@,
                program,
                type_sizes,
                Err(e),
            ),
            Statement::Invocation(invocation) => match spec_invocation_refs(
                before.program_annotations@,
                StatementIdx(k as usize),
                invocation,
                program,
                type_sizes,
            ) {
                Err(refused) => e == refused,
                Ok(_) => {
                    ||| e matches CompilationError::InvocationError { statement_idx, error }
                        && statement_idx == StatementIdx(k as usize)
                    ||| exists|
                        annotations: StatementAnnotations,
                        refs: Vec<ReferenceValue>,
                        compiled: CompiledInvocation,
                        after: CompilationState,
                    |
                        spec_prepared(
                            before,
                            StatementIdx(k as usize),
                            invocation,
                            program,
                            type_sizes,
                            annotations,
                            refs,
                        ) && #[trigger] spec_applied(
                            before,
                            after,
                            StatementIdx(k as usize),
                            invocation,
                            annotations,
                            refs,
                            compiled,
                            program,
                            Err(e),
                        )
                },
            },
        }
    }
}

/// Whether `states` are the states of a pass over the first `n` statements
/// of `program`: the state before the first statement, and behind each
/// statement the state that compiling it gives.
pub open spec fn spec_trace(
    states: Seq<CompilationState>,
    n: int,
    program: ResolvedProgram,
    metadata: Metadata,
    config: SierraToCasmConfig,
    type_sizes: TypeSizeMap,
) -> bool {
    &&& 0 <= n <= program.statements@.len()
    &&& states.len() == n + 1
    &&& spec_initial(states[0], program, metadata, config.gas_usage_check, type_sizes)
    &&& forall|k: int|
        0 <= k < n ==> spec_step(#[trigger] states[k], states[k + 1], k, program, type_sizes, config)
}

/// Whether `r` is a result of compiling `program`. A compiled program is
/// the end of a pass over all statements. An error is that of the entries
/// of the functions; or that of the first statement that cannot be
/// compiled, behind a pass over the statements before it; or that of the
/// end of a pass over all statements.
pub open spec fn spec_pass(
    program: ResolvedProgram,
    metadata: Metadata,
    config: SierraToCasmConfig,
    type_sizes: TypeSizeMap,
    r: Result<CairoProgram, Box<CompilationError>>,
) -> bool {
    match r {
        Ok(compiled) => exists|states: Seq<CompilationState>| #[trigger]
            spec_trace(
                states,
                program.statements@.len() as int,
                program,
                metadata,
                config,
                type_sizes,
            ) && spec_finish(
                states.last(),
                program,
                type_sizes,
                config,
                Ok::<CairoProgram, CompilationError>(compiled),
            ),
        Err(e) => match spec_create(
            program.statements@.len(),
            program.funcs@,
            metadata,
            config.gas_usage_check,
            type_sizes,
            program.funcs@.len() as int,
        ) {
            Err(refused) => *e == CompilationError::AnnotationError(refused),
            Ok(_) => exists|states: Seq<CompilationState>, k: int| #[trigger]
                spec_trace(states, k, program, metadata, config, type_sizes) && (if k
                    < program.statements@.len() {
                    spec_step_fails(states.last(), k, program, type_sizes, config, *e)
                } else {
                    spec_finish(
                        states.last(),
                        program,
                        type_sizes,
                        config,
                        Err::<CairoProgram, CompilationError>(*e),
                    )
                }),
        },
    }
}

/// Whether the record is that of the statement `statement`: that of an
/// invocation for an invocation; for a return, that of a return with one
/// reference for each returned variable, each of the size of its type, which
/// lie on top of the stack.
pub open spec fn record_of(
    statement: Statement,
    record: SierraStatementDebugInfo,
    type_sizes: TypeSizeMap,
) -> bool {
    match statement {
        Statement::Return(vars) => {
            &&& record.additional_kind_info matches StatementKindDebugInfo::Return(d)
            &&& d.ref_values@.len() == vars@.len()
            &&& views_match_size(reference_views(d.ref_values@), type_sizes)
            &&& on_stack(reference_views(d.ref_values@))
        },
        Statement::Invocation(_) => record.additional_kind_info is Invoke,
    }
}

impl CompilationState {
    /// Compiles the statement `i` of `program`, which is the next: a
    /// return, or an invocation with the code that `compiler` gives for it.
    /// There is no code where the code before the statement is out of its
    /// bounds.
    pub fn compile_statement<C: InvocationCompiler>(
        &mut self,
        i: usize,
        program: &ResolvedProgram,
        metadata: &Metadata,
        config: SierraToCasmConfig,
        type_sizes: &TypeSizeMap,
        compiler: &C,
    ) -> (r: Result<(), CompilationError>)
        requires
            old(self).well_formed(),
            i < program.statements@.len(),
            old(self).sierra_statement_info@.len() == i,
        ensures
            match r {
                Ok(()) => {
                    &&& spec_step(*old(self), *final(self), i as int, *program, *type_sizes, config)
                    &&& final(self).well_formed()
                    &&& final(self).sierra_statement_info@.len() == i + 1
                    &&& final(self).sierra_statement_info@.drop_last() == old(
                        self,
                    ).sierra_statement_info@
                    &&& record_of(
                        program.statements@[i as int],
                        final(self).sierra_statement_info@.last(),
                        *type_sizes,
                    )
                },
                Err(e) => spec_step_fails(*old(self), i as int, *program, *type_sizes, config, e),
            },
    {
        proof {
            reveal(spec_step);
            reveal(spec_step_fails);
        }
        let statement_idx = StatementIdx(i);
        let ghost before = *self;
        if self.program_offset > config.max_bytecode_size {
            return Err(CompilationError::CodeSizeLimitExceeded);
        }
        let ghost old_info = self.sierra_statement_info@;
        match &program.statements[i] {
            Statement::Return(vars) => {
                match self.compile_return(statement_idx, vars, program, type_sizes) {
                    Err(e) => {
                        return Err(e);
                    },
                    Ok(()) => {},
                }
                assert(self.sierra_statement_info@.drop_last() =~= old_info);
                proof {
                    let annotations = before.program_annotations@[i as int].unwrap();
                    lemma_take_args_takes_once(annotations.refs, vars@);
                }
                Ok(())
            },
            Statement::Invocation(invocation) => {
                let (annotations, invoke_refs, libfunc) = match self.prepare_invocation(
                    statement_idx,
                    invocation,
                    program,
                    type_sizes,
                ) {
                    Err(e) => {
                        return Err(e);
                    },
                    Ok(prepared) => prepared,
                };
                let compiled = match compiler.compile_invocation(
                    ProgramInfo { metadata, type_sizes },
                    invocation,
                    libfunc,
                    statement_idx,
                    &invoke_refs,
                    annotations.environment,
                ) {
                    Err(error) => {
                        return Err(CompilationError::InvocationError { statement_idx, error });
                    },
                    Ok(compiled) => compiled,
                };
                let ghost given = compiled;
                let ghost prepared_annotations = annotations;
                let ghost prepared_refs = invoke_refs;
                assert(spec_prepared(
                    before,
                    statement_idx,
                    *invocation,
                    *program,
                    *type_sizes,
                    prepared_annotations,
                    prepared_refs,
                ));
                match self.apply_invocation(
                    statement_idx,
                    invocation,
                    annotations,
                    invoke_refs,
                    compiled,
                    program,
                ) {
                    Err(e) => {
                        assert(spec_applied(
                            before,
                            *self,
                            statement_idx,
                            *invocation,
                            prepared_annotations,
                            prepared_refs,
                            given,
                            *program,
                            Err::<(), CompilationError>(e),
                        ));
                        return Err(e);
                    },
                    Ok(()) => {},
                }
                assert(self.sierra_statement_info@.drop_last() =~= old_info);
                assert(spec_applied(
                    before,
                    *self,
                    statement_idx,
                    *invocation,
                    prepared_annotations,
                    prepared_refs,
                    given,
                    *program,
                    Ok::<(), CompilationError>(()),
                ));
                Ok(())
            },
        }
    }
}

/// Compiles `program`: the statements are compiled in their order, each in
/// the environment that the statements before it brought to it; the code of
/// an invocation is that which `compiler` gives for it. The compilation
/// stops at the first error.
///
/// The result is that of a pass, step by step, with some code for each
/// invocation. Whatever code `compiler` gives: a compiled program is well
/// formed, holds the record of each statement, with the values of each
/// return on top of the stack, and the end mark behind them, and takes at
/// most `config.max_bytecode_size` words.
pub fn compile_program<C: InvocationCompiler>(
    program: &ResolvedProgram,
    metadata: &Metadata,
    config: SierraToCasmConfig,
    type_sizes: &TypeSizeMap,
    compiler: &C,
) -> (r: Result<CairoProgram, Box<CompilationError>>)
    ensures
        spec_pass(*program, *metadata, config, *type_sizes, r),
        r matches Ok(compiled) ==> {
            &&& compiled.well_formed()
            &&& compiled.spec_size() <= config.max_bytecode_size
            &&& compiled.debug_info.sierra_statement_info@.len() == program.statements@.len() + 1
            &&& forall|k: int|
                0 <= k < program.statements@.len() ==> record_of(
                    program.statements@[k],
                    #[trigger] compiled.debug_info.sierra_statement_info@[k],
                    *type_sizes,
                )
        },
{
    let mut state = match CompilationState::new(
        program,
        metadata,
        config.gas_usage_check,
        type_sizes,
    ) {
        Err(e) => {
            return Err(Box::new(e));
        },
        Ok(state) => state,
    };
    let ghost mut states: Seq<CompilationState> = seq![state];
    let mut i: usize = 0;
    while i < program.statements.len()
        invariant
            i <= program.statements@.len(),
            state.well_formed(),
            state.sierra_statement_info@.len() == i,
            forall|k: int|
                0 <= k < i ==> record_of(
                    program.statements@[k],
                    #[trigger] state.sierra_statement_info@[k],
                    *type_sizes,
                ),
            spec_create(
                program.statements@.len(),
                program.funcs@,
                *metadata,
                config.gas_usage_check,
                *type_sizes,
                program.funcs@.len() as int,
            ) is Ok,
            spec_trace(states, i as int, *program, *metadata, config, *type_sizes),
            states.last() == state,
        decreases program.statements@.len() - i,
    {
        let ghost before = state;
        let ghost old_info = state.sierra_statement_info@;
        match state.compile_statement(i, program, metadata, config, type_sizes, compiler) {
            Err(e) => {
                return Err(Box::new(e));
            },
            Ok(()) => {},
        }
        assert forall|k: int| 0 <= k < i + 1 implies record_of(
            program.statements@[k],
            #[trigger] state.sierra_statement_info@[k],
            *type_sizes,
        ) by {
            if k < i {
                assert(state.sierra_statement_info@[k] == old_info[k]);
            }
        }
        proof {
            let longer = states.push(state);
            assert forall|k: int| 0 <= k < i + 1 implies spec_step(
                #[trigger] longer[k],
                longer[k + 1],
                k,
                *program,
                *type_sizes,
                config,
            ) by {
                if k < i {
                    assert(longer[k] == states[k]);
                    assert(longer[k + 1] == states[k + 1]);
                } else {
                    assert(longer[k] == before);
                    assert(longer[k + 1] == state);
                }
            }
            assert(longer[0] == states[0]);
            states = longer;
        }
        i += 1;
    }
    let ghost records = state.sierra_statement_info@;
    let ghost last = state;
    match state.finish(program, type_sizes, config) {
        Err(e) => {
            assert(spec_finish(
                states.last(),
                *program,
                *type_sizes,
                config,
                Err::<CairoProgram, CompilationError>(e),
            ));
            Err(Box::new(e))
        },
        Ok(compiled) => {
            assert forall|k: int| 0 <= k < program.statements@.len() implies record_of(
                program.statements@[k],
                #[trigger] compiled.debug_info.sierra_statement_info@[k],
                *type_sizes,
            ) by {
                assert(compiled.debug_info.sierra_statement_info@[k] == records[k]);
            }
            assert(spec_finish(
                states.last(),
                *program,
                *type_sizes,
                config,
                Ok::<CairoProgram, CompilationError>(compiled),
            ));
            Ok(compiled)
        },
    }
}

/// Compiles `program`, whose types and library functions `registry` holds
/// and whose types have the sizes `type_sizes`: resolves its declarations
/// and compiles the resolved program; the code of an invocation is that
/// which `compiler` gives for it.
///
/// The result is that of a pass over the resolved program. Whatever code
/// `compiler` gives: a compiled program is well formed, holds the record of
/// each statement, with the values of each return on top of the stack, and
/// the end mark behind them, and takes at most `config.max_bytecode_size`
/// words.
pub fn compile<C: InvocationCompiler>(
    program: &Program,
    metadata: &Metadata,
    config: SierraToCasmConfig,
    registry: &Registry,
    type_sizes: &TypeSizeMap,
    compiler: &C,
) -> (r: Result<CairoProgram, Box<CompilationError>>)
    ensures
        exists|resolved: ResolvedProgram| #[trigger]
            resolves(*program, *registry, resolved) && spec_pass(
                resolved,
                *metadata,
                config,
                *type_sizes,
                r,
            ),
        r matches Ok(compiled) ==> {
            &&& compiled.well_formed()
            &&& compiled.spec_size() <= config.max_bytecode_size
            &&& compiled.debug_info.sierra_statement_info@.len() == program_statements(
                *program,
            ).len() + 1
            &&& forall|k: int|
                0 <= k < program_statements(*program).len() ==> record_of(
                    program_statements(*program)[k],
                    #[trigger] compiled.debug_info.sierra_statement_info@[k],
                    *type_sizes,
                )
        },
{
    let resolved = resolve_program(program, registry);
    let r = compile_program(&resolved, metadata, config, type_sizes, compiler);
    assert(resolves(*program, *registry, resolved) && spec_pass(
        resolved,
        *metadata,
        config,
        *type_sizes,
        r,
    ));
    r
}

} // verus!
