//! A pass is determined by its program and by the code that its invocations
//! get: two passes over one program in which each invocation gets the same
//! code go through the same states and give the same result.

use vstd::prelude::*;
use cairo_lang_casm::hints::Hint;
use cairo_lang_sierra_type_size::TypeSizeMap;
use crate::annotations::BranchChangesView;
use crate::annotations::StatementAnnotations;
use crate::casm::Instruction;
use crate::casm::InstructionKind;
use crate::casm::code_size;
use crate::compiler::CairoProgram;
use crate::compiler::CompilationError;
use crate::compiler::CompilationState;
use crate::compiler::SierraStatementDebugInfo;
use crate::compiler::SierraToCasmConfig;
use crate::compiler::StatementKindDebugInfo;
use crate::compiler::branch_changes_views;
use crate::compiler::code_offsets;
use crate::compiler::spec_applied;
use crate::compiler::spec_compiled_return;
use crate::compiler::spec_finish;
use crate::compiler::spec_prepared;
use crate::compiler::spec_step;
use crate::compiler::spec_trace;
use crate::consts::ConstsInfoView;
use crate::ids::StatementIdx;
use crate::ids::VarId;
use crate::invocations::CompiledInvocation;
use crate::laws::invocation_compiled;
use crate::metadata::Metadata;
use crate::program::Invocation;
use crate::program::ResolvedProgram;
use crate::program::Statement;
use crate::references::ReferenceValue;
use crate::references::ReferenceValueView;
use crate::references::reference_views;
use crate::relocations::RelocationEntry;
use crate::relocations::entry_ok;
use crate::relocations::spec_distance;
use crate::relocations::spec_patch;
use crate::relocations::spec_relocate;
use crate::relocations::spec_target;

verus! {

/// An instruction as a mathematical value.
pub struct InstructionView {
    pub body: InstructionKind,
    pub inc_ap: bool,
    pub hints: Seq<Hint>,
}

/// The instruction as a mathematical value.
pub open spec fn instruction_view(instruction: Instruction) -> InstructionView {
    InstructionView {
        body: instruction.body,
        inc_ap: instruction.inc_ap,
        hints: instruction.hints@,
    }
}

/// The instructions as mathematical values.
pub open spec fn instruction_views(s: Seq<Instruction>) -> Seq<InstructionView> {
    s.map_values(|i: Instruction| instruction_view(i))
}

/// What is recorded of a statement by its kind, as a mathematical value.
pub enum RecordKindView {
    Return(Seq<ReferenceValueView>),
    Invoke(Seq<BranchChangesView>, Seq<ReferenceValueView>),
    EndMarker,
}

/// What is recorded of a statement, as a mathematical value.
pub struct RecordView {
    pub code_offset: usize,
    pub instruction_idx: usize,
    pub kind: RecordKindView,
}

/// The record as a mathematical value.
pub open spec fn record_view(record: SierraStatementDebugInfo) -> RecordView {
    RecordView {
        code_offset: record.code_offset,
        instruction_idx: record.instruction_idx,
        kind: match record.additional_kind_info {
            StatementKindDebugInfo::Return(d) => RecordKindView::Return(
                reference_views(d.ref_values@),
            ),
            StatementKindDebugInfo::Invoke(d) => RecordKindView::Invoke(
                branch_changes_views(d.result_branch_changes@),
                reference_views(d.ref_values@),
            ),
            StatementKindDebugInfo::EndMarker => RecordKindView::EndMarker,
        },
    }
}

/// The records as mathematical values.
pub open spec fn record_views(s: Seq<SierraStatementDebugInfo>) -> Seq<RecordView> {
    s.map_values(|r: SierraStatementDebugInfo| record_view(r))
}

/// Whether the two states hold the same: the same instructions, the same
/// relocations with the same sources, the same records and the same
/// environments.
pub open spec fn same_state(a: CompilationState, b: CompilationState) -> bool {
    &&& instruction_views(a.instructions@) == instruction_views(b.instructions@)
    &&& a.relocations@ == b.relocations@
    &&& a.relocation_sources@ == b.relocation_sources@
    &&& record_views(a.sierra_statement_info@) == record_views(b.sierra_statement_info@)
    &&& a.program_annotations@ == b.program_annotations@
    &&& a.program_offset == b.program_offset
}

/// The same code added to states that hold the same gives states that hold
/// the same.
pub proof fn lemma_applied_same(
    first_before: CompilationState,
    first_after: CompilationState,
    first_annotations: StatementAnnotations,
    first_refs: Vec<ReferenceValue>,
    second_before: CompilationState,
    second_after: CompilationState,
    second_annotations: StatementAnnotations,
    second_refs: Vec<ReferenceValue>,
    statement_idx: StatementIdx,
    invocation: Invocation,
    compiled: CompiledInvocation,
    program: ResolvedProgram,
    type_sizes: TypeSizeMap,
)
    requires
        same_state(first_before, second_before),
        spec_prepared(
            first_before,
            statement_idx,
            invocation,
            program,
            type_sizes,
            first_annotations,
            first_refs,
        ),
        spec_prepared(
            second_before,
            statement_idx,
            invocation,
            program,
            type_sizes,
            second_annotations,
            second_refs,
        ),
        spec_applied(
            first_before,
            first_after,
            statement_idx,
            invocation,
            first_annotations,
            first_refs,
            compiled,
            program,
            Ok(()),
        ),
        spec_applied(
            second_before,
            second_after,
            statement_idx,
            invocation,
            second_annotations,
            second_refs,
            compiled,
            program,
            Ok(()),
        ),
    ensures
        same_state(first_after, second_after),
{
    let a = first_before.instructions@;
    let b = second_before.instructions@;
    let c = compiled.instructions@;
    assert(a.len() == instruction_views(a).len());
    assert(b.len() == instruction_views(b).len());
    assert(instruction_views(a + c) =~= instruction_views(a) + instruction_views(c));
    assert(instruction_views(b + c) =~= instruction_views(b) + instruction_views(c));
    let first_info = first_before.sierra_statement_info@;
    let second_info = second_before.sierra_statement_info@;
    assert(record_views(first_after.sierra_statement_info@) =~= record_views(first_info).push(
        record_view(first_after.sierra_statement_info@.last()),
    ));
    assert(record_views(second_after.sierra_statement_info@) =~= record_views(second_info).push(
        record_view(second_after.sierra_statement_info@.last()),
    ));
}

/// A return compiled in states that hold the same gives states that hold
/// the same.
pub proof fn lemma_return_same(
    first_before: CompilationState,
    first_after: CompilationState,
    second_before: CompilationState,
    second_after: CompilationState,
    statement_idx: StatementIdx,
    vars: Seq<VarId>,
    program: ResolvedProgram,
    type_sizes: TypeSizeMap,
)
    requires
        same_state(first_before, second_before),
        spec_compiled_return(
            first_before,
            first_after,
            statement_idx,
            vars,
            program,
            type_sizes,
            Ok(()),
        ),
        spec_compiled_return(
            second_before,
            second_after,
            statement_idx,
            vars,
            program,
            type_sizes,
            Ok(()),
        ),
    ensures
        same_state(first_after, second_after),
{
    let a = first_after.instructions@;
    let b = second_after.instructions@;
    assert(a.last().hints@ =~= b.last().hints@);
    assert(instruction_views(a) =~= instruction_views(a.drop_last()).push(
        instruction_view(a.last()),
    ));
    assert(instruction_views(b) =~= instruction_views(b.drop_last()).push(
        instruction_view(b.last()),
    ));
    let first_info = first_after.sierra_statement_info@;
    let second_info = second_after.sierra_statement_info@;
    assert(record_views(first_info) =~= record_views(first_info.drop_last()).push(
        record_view(first_info.last()),
    ));
    assert(record_views(second_info) =~= record_views(second_info.drop_last()).push(
        record_view(second_info.last()),
    ));
}

/// A return that is refused in one of two states that hold the same is
/// refused in the other, with the same error.
pub proof fn lemma_return_error_same(
    first_before: CompilationState,
    first_after: CompilationState,
    first_result: Result<(), CompilationError>,
    second_before: CompilationState,
    second_after: CompilationState,
    second_result: Result<(), CompilationError>,
    statement_idx: StatementIdx,
    vars: Seq<VarId>,
    program: ResolvedProgram,
    type_sizes: TypeSizeMap,
)
    requires
        same_state(first_before, second_before),
        spec_compiled_return(
            first_before,
            first_after,
            statement_idx,
            vars,
            program,
            type_sizes,
            first_result,
        ),
        spec_compiled_return(
            second_before,
            second_after,
            statement_idx,
            vars,
            program,
            type_sizes,
            second_result,
        ),
        first_result is Err,
    ensures
        second_result == first_result,
{
}

/// Code that cannot be added to one of two states that hold the same
/// cannot be added to the other, with the same error.
pub proof fn lemma_applied_error_same(
    first_before: CompilationState,
    first_after: CompilationState,
    first_annotations: StatementAnnotations,
    first_refs: Vec<ReferenceValue>,
    first_result: Result<(), CompilationError>,
    second_before: CompilationState,
    second_after: CompilationState,
    second_annotations: StatementAnnotations,
    second_refs: Vec<ReferenceValue>,
    second_result: Result<(), CompilationError>,
    statement_idx: StatementIdx,
    invocation: Invocation,
    compiled: CompiledInvocation,
    program: ResolvedProgram,
    type_sizes: TypeSizeMap,
)
    requires
        same_state(first_before, second_before),
        spec_prepared(
            first_before,
            statement_idx,
            invocation,
            program,
            type_sizes,
            first_annotations,
            first_refs,
        ),
        spec_prepared(
            second_before,
            statement_idx,
            invocation,
            program,
            type_sizes,
            second_annotations,
            second_refs,
        ),
        spec_applied(
            first_before,
            first_after,
            statement_idx,
            invocation,
            first_annotations,
            first_refs,
            compiled,
            program,
            first_result,
        ),
        spec_applied(
            second_before,
            second_after,
            statement_idx,
            invocation,
            second_annotations,
            second_refs,
            compiled,
            program,
            second_result,
        ),
        first_result is Err,
    ensures
        second_result == first_result,
{
    lemma_same_code_size(first_before.instructions@, second_before.instructions@);
}

/// Whether `states` are the states of a pass over `program` in which the
/// invocation `k` was compiled with the environment `annotations[k]`, the
/// references `refs[k]` and the code `codes[k]`.
pub open spec fn pass_with(
    states: Seq<CompilationState>,
    codes: Seq<CompiledInvocation>,
    annotations: Seq<StatementAnnotations>,
    refs: Seq<Vec<ReferenceValue>>,
    program: ResolvedProgram,
    metadata: Metadata,
    config: SierraToCasmConfig,
    type_sizes: TypeSizeMap,
) -> bool {
    &&& spec_trace(
        states,
        program.statements@.len() as int,
        program,
        metadata,
        config,
        type_sizes,
    )
    &&& codes.len() == program.statements@.len()
    &&& annotations.len() == program.statements@.len()
    &&& refs.len() == program.statements@.len()
    &&& forall|k: int|
        0 <= k < program.statements@.len() && program.statements@[k] is Invocation
            ==> invocation_compiled(
            states[k],
            states[k + 1],
            k,
            program,
            type_sizes,
            annotations[k],
            refs[k],
            #[trigger] codes[k],
        )
}

/// A return that is compiled.
pub proof fn lemma_step_return(
    before: CompilationState,
    after: CompilationState,
    k: int,
    program: ResolvedProgram,
    type_sizes: TypeSizeMap,
    config: SierraToCasmConfig,
)
    requires
        spec_step(before, after, k, program, type_sizes, config),
        program.statements@[k] is Return,
    ensures
        spec_compiled_return(
            before,
            after,
            StatementIdx(k as usize),
            program.statements@[k]->Return_0@,
            program,
            type_sizes,
            Ok(()),
        ),
{
    reveal(spec_step);
}

/// Two passes over one program in which each invocation gets the same code
/// go through states that hold the same.
pub proof fn lemma_passes_agree(
    first: Seq<CompilationState>,
    first_annotations: Seq<StatementAnnotations>,
    first_refs: Seq<Vec<ReferenceValue>>,
    second: Seq<CompilationState>,
    second_annotations: Seq<StatementAnnotations>,
    second_refs: Seq<Vec<ReferenceValue>>,
    codes: Seq<CompiledInvocation>,
    program: ResolvedProgram,
    metadata: Metadata,
    config: SierraToCasmConfig,
    type_sizes: TypeSizeMap,
    k: int,
)
    requires
        pass_with(
            first,
            codes,
            first_annotations,
            first_refs,
            program,
            metadata,
            config,
            type_sizes,
        ),
        pass_with(
            second,
            codes,
            second_annotations,
            second_refs,
            program,
            metadata,
            config,
            type_sizes,
        ),
        0 <= k <= program.statements@.len(),
    ensures
        same_state(first[k], second[k]),
    decreases k,
{
    if k == 0 {
        assert(instruction_views(first[0].instructions@) =~= instruction_views(
            second[0].instructions@,
        ));
        assert(first[0].relocations@ =~= second[0].relocations@);
        assert(first[0].relocation_sources@ =~= second[0].relocation_sources@);
        assert(record_views(first[0].sierra_statement_info@) =~= record_views(
            second[0].sierra_statement_info@,
        ));
        assert(code_size(first[0].instructions@) == 0);
        assert(code_size(second[0].instructions@) == 0);
    } else {
        lemma_passes_agree(
            first,
            first_annotations,
            first_refs,
            second,
            second_annotations,
            second_refs,
            codes,
            program,
            metadata,
            config,
            type_sizes,
            k - 1,
        );
        let j = k - 1;
        assert(spec_step(first[j], first[j + 1], j, program, type_sizes, config));
        assert(spec_step(second[j], second[j + 1], j, program, type_sizes, config));
        match program.statements@[j] {
            Statement::Return(vars) => {
                lemma_step_return(first[j], first[j + 1], j, program, type_sizes, config);
                lemma_step_return(second[j], second[j + 1], j, program, type_sizes, config);
                lemma_return_same(
                    first[j],
                    first[j + 1],
                    second[j],
                    second[j + 1],
                    StatementIdx(j as usize),
                    vars@,
                    program,
                    type_sizes,
                );
            },
            Statement::Invocation(invocation) => {
                let code = codes[j];
                lemma_applied_same(
                    first[j],
                    first[j + 1],
                    first_annotations[j],
                    first_refs[j],
                    second[j],
                    second[j + 1],
                    second_annotations[j],
                    second_refs[j],
                    StatementIdx(j as usize),
                    invocation,
                    code,
                    program,
                    type_sizes,
                );
            },
        }
    }
}

/// Instructions that are the same are the same one by one.
pub proof fn lemma_same_at(a: Seq<Instruction>, b: Seq<Instruction>, i: int)
    requires
        instruction_views(a) == instruction_views(b),
        0 <= i < a.len(),
    ensures
        a.len() == b.len(),
        a[i].body == b[i].body,
        a[i].inc_ap == b[i].inc_ap,
        a[i].hints@ == b[i].hints@,
{
    assert(instruction_views(a).len() == a.len());
    assert(instruction_views(b).len() == b.len());
    assert(instruction_views(a)[i] == instruction_view(a[i]));
    assert(instruction_views(b)[i] == instruction_view(b[i]));
}

/// Instructions that are the same have the same size.
pub proof fn lemma_same_code_size(a: Seq<Instruction>, b: Seq<Instruction>)
    requires
        instruction_views(a) == instruction_views(b),
    ensures
        a.len() == b.len(),
        code_size(a) == code_size(b),
    decreases a.len(),
{
    assert(instruction_views(a).len() == a.len());
    assert(instruction_views(b).len() == b.len());
    if a.len() > 0 {
        assert(instruction_views(a.drop_last()) =~= instruction_views(a).drop_last());
        assert(instruction_views(b.drop_last()) =~= instruction_views(b).drop_last());
        lemma_same_code_size(a.drop_last(), b.drop_last());
        lemma_same_at(a, b, a.len() - 1);
    }
}

/// Relocations change no number of instructions.
pub proof fn lemma_relocate_len(
    before: Seq<Instruction>,
    relocations: Seq<RelocationEntry>,
    n: int,
    statement_offsets: Seq<usize>,
    consts_info: ConstsInfoView,
)
    ensures
        spec_relocate(before, relocations, n, statement_offsets, consts_info).len()
            == before.len(),
    decreases n,
{
    if 0 < n <= relocations.len() {
        lemma_relocate_len(before, relocations, n - 1, statement_offsets, consts_info);
    }
}

/// A relocation can be applied to instructions if it can be applied to the
/// same instructions.
pub proof fn lemma_entry_ok_same(
    entry: RelocationEntry,
    a: Seq<Instruction>,
    b: Seq<Instruction>,
    statement_offsets: Seq<usize>,
    consts_info: ConstsInfoView,
)
    requires
        instruction_views(a) == instruction_views(b),
    ensures
        entry_ok(entry, a, statement_offsets, consts_info) == entry_ok(
            entry,
            b,
            statement_offsets,
            consts_info,
        ),
{
    lemma_same_code_size(a, b);
    if entry.instruction_idx < a.len() {
        lemma_same_at(a, b, entry.instruction_idx as int);
    }
}

/// The same relocations applied to the same instructions give the same
/// instructions.
pub proof fn lemma_relocate_same(
    a: Seq<Instruction>,
    b: Seq<Instruction>,
    relocations: Seq<RelocationEntry>,
    n: int,
    statement_offsets: Seq<usize>,
    consts_info: ConstsInfoView,
)
    requires
        instruction_views(a) == instruction_views(b),
    ensures
        instruction_views(spec_relocate(a, relocations, n, statement_offsets, consts_info))
            == instruction_views(spec_relocate(b, relocations, n, statement_offsets, consts_info)),
    decreases n,
{
    if 0 < n <= relocations.len() {
        lemma_relocate_same(a, b, relocations, n - 1, statement_offsets, consts_info);
        lemma_relocate_len(a, relocations, n - 1, statement_offsets, consts_info);
        lemma_relocate_len(b, relocations, n - 1, statement_offsets, consts_info);
        lemma_same_code_size(a, b);
        let entry = relocations[n - 1];
        lemma_entry_ok_same(entry, a, b, statement_offsets, consts_info);
        let done_a = spec_relocate(a, relocations, n - 1, statement_offsets, consts_info);
        let done_b = spec_relocate(b, relocations, n - 1, statement_offsets, consts_info);
        if entry_ok(entry, a, statement_offsets, consts_info) && entry.instruction_idx < done_a.len() {
            let i = entry.instruction_idx as int;
            let target = spec_target(entry.relocation, statement_offsets, consts_info).unwrap();
            lemma_same_at(a, b, i);
            assert(instruction_views(a.take(i)) =~= instruction_views(a).take(i));
            assert(instruction_views(b.take(i)) =~= instruction_views(b).take(i));
            lemma_same_code_size(a.take(i), b.take(i));
            assert(spec_distance(a, i, target) == spec_distance(b, i, target));
            let delta = spec_distance(a, i, target) as i128;
            lemma_same_at(done_a, done_b, i);
            assert(instruction_view(spec_patch(done_a[i], delta)) == instruction_view(
                spec_patch(done_b[i], delta),
            ));
            assert(instruction_views(done_a.update(i, spec_patch(done_a[i], delta)))
                =~= instruction_views(done_a).update(
                i,
                instruction_view(spec_patch(done_a[i], delta)),
            ));
            assert(instruction_views(done_b.update(i, spec_patch(done_b[i], delta)))
                =~= instruction_views(done_b).update(
                i,
                instruction_view(spec_patch(done_b[i], delta)),
            ));
        }
    }
}

/// Whether the two compiled programs hold the same: the same instructions,
/// the same records and the same constant segments.
pub open spec fn same_program(a: CairoProgram, b: CairoProgram) -> bool {
    &&& instruction_views(a.instructions@) == instruction_views(b.instructions@)
    &&& record_views(a.debug_info.sierra_statement_info@) == record_views(
        b.debug_info.sierra_statement_info@,
    )
    &&& a.consts_info@ == b.consts_info@
}

/// Whether the two results are the same: the same error, or compiled
/// programs that hold the same.
pub open spec fn same_result(
    a: Result<CairoProgram, CompilationError>,
    b: Result<CairoProgram, CompilationError>,
) -> bool {
    match (a, b) {
        (Ok(first), Ok(second)) => same_program(first, second),
        (Err(first), Err(second)) => first == second,
        _ => false,
    }
}

/// The end of a pass gives the same for states that hold the same.
pub proof fn lemma_finish_same(
    first: CompilationState,
    second: CompilationState,
    program: ResolvedProgram,
    type_sizes: TypeSizeMap,
    config: SierraToCasmConfig,
    first_result: Result<CairoProgram, CompilationError>,
    second_result: Result<CairoProgram, CompilationError>,
)
    requires
        same_state(first, second),
        spec_finish(first, program, type_sizes, config, first_result),
        spec_finish(second, program, type_sizes, config, second_result),
    ensures
        same_result(first_result, second_result),
{
    reveal(spec_finish);
    if first.program_offset <= config.max_bytecode_size {
        match crate::consts::spec_consts_info(
            program,
            type_sizes,
            crate::compiler::declared_libfunc_ids(program),
            (config.max_bytecode_size - first.program_offset) as usize,
        ) {
            Err(e) => {},
            Ok(consts) => {
                lemma_same_code_size(first.instructions@, second.instructions@);
                let first_info = first.sierra_statement_info@.push(
                    SierraStatementDebugInfo {
                        code_offset: first.program_offset,
                        instruction_idx: first.instructions@.len() as usize,
                        additional_kind_info: StatementKindDebugInfo::EndMarker,
                    },
                );
                let second_info = second.sierra_statement_info@.push(
                    SierraStatementDebugInfo {
                        code_offset: second.program_offset,
                        instruction_idx: second.instructions@.len() as usize,
                        additional_kind_info: StatementKindDebugInfo::EndMarker,
                    },
                );
                assert(record_views(first_info) =~= record_views(
                    first.sierra_statement_info@,
                ).push(record_view(first_info.last())));
                assert(record_views(second_info) =~= record_views(
                    second.sierra_statement_info@,
                ).push(record_view(second_info.last())));
                assert(record_views(first_info) == record_views(second_info));
                assert(code_offsets(first_info) =~= code_offsets(second_info)) by {
                    assert forall|k: int| 0 <= k < first_info.len() implies code_offsets(
                        first_info,
                    )[k] == code_offsets(second_info)[k] by {
                        assert(record_views(first_info)[k] == record_views(second_info)[k]);
                    }
                }
                let offsets = code_offsets(first_info);
                assert forall|k: int| 0 <= k < first.relocations@.len() implies entry_ok(
                    #[trigger] first.relocations@[k],
                    first.instructions@,
                    offsets,
                    consts,
                ) == entry_ok(second.relocations@[k], second.instructions@, offsets, consts) by {
                    lemma_entry_ok_same(
                        first.relocations@[k],
                        first.instructions@,
                        second.instructions@,
                        offsets,
                        consts,
                    );
                }
                lemma_relocate_same(
                    first.instructions@,
                    second.instructions@,
                    first.relocations@,
                    first.relocations@.len() as int,
                    offsets,
                    consts,
                );
            },
        }
    }
}

/// Determinism: two passes over one program in which each invocation gets
/// the same code end with the same result.
pub proof fn lemma_pass_determined(
    first: Seq<CompilationState>,
    first_annotations: Seq<StatementAnnotations>,
    first_refs: Seq<Vec<ReferenceValue>>,
    first_result: Result<CairoProgram, CompilationError>,
    second: Seq<CompilationState>,
    second_annotations: Seq<StatementAnnotations>,
    second_refs: Seq<Vec<ReferenceValue>>,
    second_result: Result<CairoProgram, CompilationError>,
    codes: Seq<CompiledInvocation>,
    program: ResolvedProgram,
    metadata: Metadata,
    config: SierraToCasmConfig,
    type_sizes: TypeSizeMap,
)
    requires
        pass_with(
            first,
            codes,
            first_annotations,
            first_refs,
            program,
            metadata,
            config,
            type_sizes,
        ),
        pass_with(
            second,
            codes,
            second_annotations,
            second_refs,
            program,
            metadata,
            config,
            type_sizes,
        ),
        spec_finish(first.last(), program, type_sizes, config, first_result),
        spec_finish(second.last(), program, type_sizes, config, second_result),
    ensures
        same_result(first_result, second_result),
{
    lemma_passes_agree(
        first,
        first_annotations,
        first_refs,
        second,
        second_annotations,
        second_refs,
        codes,
        program,
        metadata,
        config,
        type_sizes,
        program.statements@.len() as int,
    );
    lemma_finish_same(
        first.last(),
        second.last(),
        program,
        type_sizes,
        config,
        first_result,
        second_result,
    );
}

} // verus!
