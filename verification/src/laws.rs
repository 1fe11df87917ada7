//! What holds of every compilation.

use vstd::prelude::*;
use num_bigint::BigInt;
use cairo_lang_sierra_type_size::TypeSizeMap;
use crate::annotations::AnnotationError;
use crate::annotations::BranchChangesView;
use crate::annotations::StatementAnnotations;
use crate::annotations::OutputReferenceView;
use crate::annotations::StatementAnnotationsView;
use crate::annotations::index_of_var;
use crate::annotations::lemma_index_of_var;
use crate::annotations::spec_bind_outputs;
use crate::annotations::spec_branch_annotations;
use crate::annotations::spec_create;
use crate::annotations::spec_entry_annotations;
use crate::annotations::spec_param_refs;
use crate::annotations::spec_propagate;
use crate::annotations::spec_set_or_assert;
use crate::annotations::spec_shift_refs;
use crate::annotations::spec_take_args;
use crate::assembler::encoded;
use crate::assembler::lemma_segment_words_len;
use crate::assembler::segment_words;
use crate::assembler::sized_as_encoded;
use crate::casm::Cell;
use crate::casm::Instruction;
use crate::casm::Register;
use crate::casm::code_size;
use crate::casm::instruction_encoding;
use crate::casm::lemma_code_size_take;
use crate::compiler::CairoProgram;
use crate::compiler::CompilationError;
use crate::compiler::StatementKindDebugInfo;
use crate::compiler::record_of;
use crate::compiler::SierraToCasmConfig;
use crate::compiler::branch_changes_views;
use crate::compiler::spec_applied;
use crate::compiler::rebase_fits;
use crate::compiler::spec_results_shape;
use crate::compiler::spec_step_fails;
use crate::compiler::spec_finish;
use crate::compiler::spec_compiled_return;
use crate::compiler::spec_destination_aligns;
use crate::compiler::lemma_propagate_branches_err;
use crate::compiler::spec_invocation_refs;
use crate::compiler::spec_prepared;
use crate::compiler::spec_propagate_branches;
use crate::compiler::spec_step;
use crate::compiler::spec_trace;
use crate::compiler::CompilationState;
use crate::compiler::spec_finished;
use crate::compiler::SierraStatementDebugInfo;
use crate::compiler::records_fit;
use crate::compiler::spec_return_refs;
use crate::consts::ConstsInfoView;
use crate::consts::all_types;
use crate::consts::spec_const_value;
use crate::consts::spec_enum_head;
use crate::consts::spec_extract_const_value;
use crate::consts::spec_extract_fields;
use crate::consts::segments_model;
use crate::ids::StatementIdx;
use crate::ids::TypeId;
use crate::ids::VarId;
use crate::invocations::CompiledInvocation;
use crate::invocations::cells_from;
use crate::invocations::on_stack;
use crate::metadata::Metadata;
use crate::program::BranchInfo;
use crate::program::ConcreteType;
use crate::program::Function;
use crate::program::GenericArg;
use crate::program::Invocation;
use crate::program::Param;
use crate::program::ResolvedProgram;
use crate::program::Statement;
use crate::program::TypeDeclaration;
use crate::program::find_type;
use crate::references::ApChange;
use crate::references::CellExpression;
use crate::references::ReferenceValue;
use crate::references::ReferenceValueView;
use crate::references::reference_views;
use crate::references::views_match_size;
use crate::type_sizes::spec_cell_count;

verus! {

/// From one record to a later one neither the offset nor the number of
/// instructions shrinks.
pub proof fn lemma_records_do_not_shrink(
    info: Seq<SierraStatementDebugInfo>,
    instructions: Seq<Instruction>,
    k: int,
    l: int,
)
    requires
        records_fit(info, instructions),
        0 <= k <= l < info.len(),
    ensures
        info[k].code_offset <= info[l].code_offset,
        info[k].instruction_idx <= info[l].instruction_idx,
{
    let a = info[k].instruction_idx as int;
    let b = info[l].instruction_idx as int;
    assert(instructions.take(b).take(a) =~= instructions.take(a));
    lemma_code_size_take(instructions.take(b), a);
}

/// In a well-formed program the records are ordered by offset and by number
/// of instructions, and the last record gives the size and the number of all
/// instructions.
pub proof fn lemma_records_of_program(program: CairoProgram, k: int)
    requires
        program.well_formed(),
        0 <= k < program.debug_info.sierra_statement_info@.len() - 1,
    ensures
        program.debug_info.sierra_statement_info@[k].code_offset
            <= program.debug_info.sierra_statement_info@[k + 1].code_offset,
        program.debug_info.sierra_statement_info@[k].instruction_idx
            <= program.debug_info.sierra_statement_info@[k + 1].instruction_idx,
        program.debug_info.sierra_statement_info@.last().code_offset == code_size(
            program.instructions@,
        ),
        program.debug_info.sierra_statement_info@.last().instruction_idx
            == program.instructions@.len(),
{
    lemma_records_do_not_shrink(
        program.debug_info.sierra_statement_info@,
        program.instructions@,
        k,
        k + 1,
    );
}

/// In well-formed constant segments the `i`-th segment has the number `i`,
/// the first lies at the offset 0, each next one lies behind the values of
/// the one before it and one more word, and the total is the offset behind
/// the last.
pub proof fn lemma_const_layout(consts: ConstsInfoView, i: int)
    requires
        consts.well_formed(),
        0 <= i < consts.segments.len(),
    ensures
        consts.segments[i].0 == i,
        i == 0 ==> consts.segments[i].1.segment_offset == 0,
        i + 1 < consts.segments.len() ==> consts.segments[i + 1].1.segment_offset
            == consts.segments[i].1.segment_offset + 1 + consts.segments[i].1.values.len(),
        i + 1 == consts.segments.len() ==> consts.total_segments_size
            == consts.segments[i].1.segment_offset + 1 + consts.segments[i].1.values.len(),
{
}

/// The bytecode of a well-formed program has as many words as the size of
/// the program, where each instruction is encoded in as many words as its
/// size.
pub proof fn lemma_bytecode_size(program: CairoProgram, terminator: BigInt)
    requires
        program.consts_info@.well_formed(),
        sized_as_encoded(program.instructions@),
    ensures
        (encoded(program.instructions@) + segment_words(
            segments_model(program.consts_info.segments),
            terminator,
        )).len() == program.spec_size(),
{
    lemma_encoded_size(program.instructions@);
    lemma_segment_words_len(segments_model(program.consts_info.segments), terminator);
}

/// Instructions that are each encoded in as many words as their size are
/// encoded in as many words as the size of all.
pub proof fn lemma_encoded_size(instructions: Seq<Instruction>)
    requires
        sized_as_encoded(instructions),
    ensures
        encoded(instructions).len() == code_size(instructions),
    decreases instructions.len(),
{
    if instructions.len() > 0 {
        assert forall|i: int| 0 <= i < instructions.drop_last().len() implies instruction_encoding(
            (#[trigger] instructions.drop_last()[i]).body,
            instructions.drop_last()[i].inc_ap,
        ).len() == instructions.drop_last()[i].body.spec_op_size() by {
            assert(instructions.drop_last()[i] == instructions[i]);
        }
        lemma_encoded_size(instructions.drop_last());
    }
}

/// The words of the `k`-th instruction lie in the bytecode at the offset
/// that is the size of the instructions before it, where each instruction
/// is encoded in as many words as its size.
pub proof fn lemma_instruction_boundaries(instructions: Seq<Instruction>, k: int)
    requires
        0 <= k < instructions.len(),
        sized_as_encoded(instructions),
    ensures
        code_size(instructions.take(k + 1)) <= encoded(instructions).len(),
        encoded(instructions).subrange(
            code_size(instructions.take(k)) as int,
            code_size(instructions.take(k + 1)) as int,
        ) == instruction_encoding(instructions[k].body, instructions[k].inc_ap),
    decreases instructions.len(),
{
    lemma_encoded_size(instructions);
    let shorter = instructions.drop_last();
    assert forall|i: int| 0 <= i < shorter.len() implies instruction_encoding(
        (#[trigger] shorter[i]).body,
        shorter[i].inc_ap,
    ).len() == shorter[i].body.spec_op_size() by {
        assert(shorter[i] == instructions[i]);
    }
    lemma_encoded_size(shorter);
    if k == instructions.len() - 1 {
        assert(instructions.take(k) =~= shorter);
        assert(instructions.take(k + 1) =~= instructions);
        assert(encoded(instructions).subrange(
            code_size(shorter) as int,
            code_size(instructions) as int,
        ) =~= instruction_encoding(instructions[k].body, instructions[k].inc_ap));
    } else {
        lemma_instruction_boundaries(shorter, k);
        assert(shorter.take(k) =~= instructions.take(k));
        assert(shorter.take(k + 1) =~= instructions.take(k + 1));
        assert(instructions.take(k + 1).take(k) =~= instructions.take(k));
        lemma_code_size_take(instructions.take(k + 1), k);
        assert(encoded(instructions).subrange(
            code_size(instructions.take(k)) as int,
            code_size(instructions.take(k + 1)) as int,
        ) =~= encoded(shorter).subrange(
            code_size(instructions.take(k)) as int,
            code_size(instructions.take(k + 1)) as int,
        ));
    }
}

/// What the end of a pass gives is determined by the state that it ends:
/// two compiled programs that it may give have the same instructions, the
/// same records and the same constant segments.
pub proof fn lemma_finish_determined(
    state: CompilationState,
    info: Seq<SierraStatementDebugInfo>,
    consts: ConstsInfoView,
    first: CairoProgram,
    second: CairoProgram,
)
    requires
        spec_finished(state, info, consts, first),
        spec_finished(state, info, consts, second),
    ensures
        first.instructions@ == second.instructions@,
        first.debug_info.sierra_statement_info@ == second.debug_info.sierra_statement_info@,
        first.consts_info@ == second.consts_info@,
{
}

/// Whether no variable is bound twice.
pub open spec fn distinct_vars(refs: Seq<(VarId, ReferenceValueView)>) -> bool {
    forall|i: int, j: int|
        0 <= i < j < refs.len() ==> (#[trigger] refs[i]).0 != (#[trigger] refs[j]).0
}

/// Whether no environment binds a variable twice.
pub open spec fn all_distinct(state: Seq<Option<StatementAnnotationsView>>) -> bool {
    forall|k: int|
        0 <= k < state.len() ==> match #[trigger] state[k] {
            Some(a) => distinct_vars(a.refs),
            None => true,
        }
}

/// Whether `binding` is one of the bindings `refs`.
pub open spec fn is_binding_of(
    refs: Seq<(VarId, ReferenceValueView)>,
    binding: (VarId, ReferenceValueView),
) -> bool {
    exists|j: int| 0 <= j < refs.len() && #[trigger] refs[j] == binding
}

/// Taking variables out of bindings in which no variable is bound twice
/// takes each of them once: the variables are all different, none of them
/// is bound afterwards, and what is left are the other bindings, none
/// bound twice.
pub proof fn lemma_take_args_takes_once(refs: Seq<(VarId, ReferenceValueView)>, vars: Seq<VarId>)
    requires
        distinct_vars(refs),
        spec_take_args(refs, vars) is Ok,
    ensures
        distinct_vars(spec_take_args(refs, vars)->Ok_0.0),
        spec_take_args(refs, vars)->Ok_0.1.len() == vars.len(),
        spec_take_args(refs, vars)->Ok_0.0.len() + vars.len() == refs.len(),
        forall|k: int|
            0 <= k < vars.len() ==> index_of_var(
                spec_take_args(refs, vars)->Ok_0.0,
                #[trigger] vars[k],
            ).is_none(),
        forall|k: int, l: int| 0 <= k < l < vars.len() ==> vars[k] != vars[l],
        forall|i: int|
            0 <= i < spec_take_args(refs, vars)->Ok_0.0.len() ==> is_binding_of(
                refs,
                #[trigger] spec_take_args(refs, vars)->Ok_0.0[i],
            ),
    decreases vars.len(),
{
    if vars.len() > 0 {
        let shorter = vars.drop_last();
        let r1 = spec_take_args(refs, shorter)->Ok_0.0;
        let t1 = spec_take_args(refs, shorter)->Ok_0.1;
        lemma_take_args_takes_once(refs, shorter);
        let last = vars.last();
        lemma_index_of_var(r1, last);
        let i = index_of_var(r1, last)->Some_0;
        let rest = r1.remove(i);
        assert forall|a: int, b: int| 0 <= a < b < rest.len() implies (#[trigger] rest[a]).0 != (
        #[trigger] rest[b]).0 by {
            let a1 = if a < i {
                a
            } else {
                a + 1
            };
            let b1 = if b < i {
                b
            } else {
                b + 1
            };
            assert(rest[a] == r1[a1] && rest[b] == r1[b1]);
        }
        assert forall|p: int| 0 <= p < rest.len() implies (#[trigger] rest[p]).0 != last by {
            let p1 = if p < i {
                p
            } else {
                p + 1
            };
            assert(rest[p] == r1[p1]);
            if p1 < i {
                assert(r1[p1].0 != r1[i].0);
            } else {
                assert(r1[i].0 != r1[p1].0);
            }
        }
        assert forall|k: int| 0 <= k < vars.len() implies index_of_var(
            rest,
            #[trigger] vars[k],
        ).is_none() by {
            lemma_index_of_var(rest, vars[k]);
            if index_of_var(rest, vars[k]).is_some() {
                let p = index_of_var(rest, vars[k])->Some_0;
                let p1 = if p < i {
                    p
                } else {
                    p + 1
                };
                assert(rest[p] == r1[p1]);
                if k < vars.len() - 1 {
                    assert(vars[k] == shorter[k]);
                    lemma_index_of_var(r1, shorter[k]);
                    assert(r1[p1].0 != shorter[k]);
                }
            }
        }
        assert forall|k: int, l: int| 0 <= k < l < vars.len() implies vars[k] != vars[l] by {
            if l < vars.len() - 1 {
                assert(vars[k] == shorter[k] && vars[l] == shorter[l]);
            } else {
                assert(vars[k] == shorter[k]);
                lemma_index_of_var(r1, shorter[k]);
                assert(r1[i].0 != shorter[k]);
            }
        }
        assert forall|p: int| 0 <= p < rest.len() implies is_binding_of(
            refs,
            #[trigger] rest[p],
        ) by {
            let p1 = if p < i {
                p
            } else {
                p + 1
            };
            assert(rest[p] == r1[p1]);
            assert(is_binding_of(refs, r1[p1]));
        }
        assert(spec_take_args(refs, vars)->Ok_0 == (rest, t1.push(r1[i].1)));
        assert(distinct_vars(rest));
        assert(t1.push(r1[i].1).len() == vars.len());
        assert(rest.len() + vars.len() == refs.len());
    } else {
        assert forall|i: int| 0 <= i < refs.len() implies is_binding_of(
            refs,
            #[trigger] refs[i],
        ) by {
            assert(0 <= i < refs.len() && refs[i] == refs[i]);
        }
    }
}

/// A change of the allocation pointer keeps the variables of the bindings.
pub proof fn lemma_shift_refs_keeps_vars(refs: Seq<(VarId, ReferenceValueView)>, change: ApChange)
    requires
        spec_shift_refs(refs, change) is Ok,
    ensures
        spec_shift_refs(refs, change)->Ok_0.len() == refs.len(),
        forall|i: int|
            0 <= i < refs.len() ==> (#[trigger] spec_shift_refs(refs, change)->Ok_0[i]).0
                == refs[i].0,
        distinct_vars(refs) ==> distinct_vars(spec_shift_refs(refs, change)->Ok_0),
    decreases refs.len(),
{
    if refs.len() > 0 {
        lemma_shift_refs_keeps_vars(refs.drop_last(), change);
        let shifted = spec_shift_refs(refs, change)->Ok_0;
        assert forall|i: int| 0 <= i < refs.len() implies (#[trigger] shifted[i]).0 == refs[i].0 by {
            if i < refs.len() - 1 {
                assert(refs.drop_last()[i] == refs[i]);
            }
        }
        if distinct_vars(refs) {
            assert forall|i: int, j: int| 0 <= i < j < shifted.len() implies (
            #[trigger] shifted[i]).0 != (#[trigger] shifted[j]).0 by {
                assert(refs[i].0 != refs[j].0);
            }
        }
    }
}

/// Binding the outputs of a branch binds no variable twice.
pub proof fn lemma_bind_outputs_distinct(
    refs: Seq<(VarId, ReferenceValueView)>,
    vars: Seq<VarId>,
    outs: Seq<OutputReferenceView>,
    point: StatementIdx,
    n: int,
)
    requires
        distinct_vars(refs),
        spec_bind_outputs(refs, vars, outs, point, n) is Ok,
    ensures
        distinct_vars(spec_bind_outputs(refs, vars, outs, point, n)->Ok_0),
    decreases n,
{
    if !(n <= 0 || n > vars.len() || n > outs.len()) {
        lemma_bind_outputs_distinct(refs, vars, outs, point, n - 1);
        let done = spec_bind_outputs(refs, vars, outs, point, n - 1)->Ok_0;
        let bound = spec_bind_outputs(refs, vars, outs, point, n)->Ok_0;
        lemma_index_of_var(done, vars[n - 1]);
        assert forall|i: int, j: int| 0 <= i < j < bound.len() implies (#[trigger] bound[i]).0 != (
        #[trigger] bound[j]).0 by {
            if j < done.len() {
                assert(bound[i] == done[i] && bound[j] == done[j]);
            } else {
                assert(bound[i] == done[i]);
            }
        }
    }
}

/// The environment that a branch brings binds no variable twice, where the
/// environment that it starts from binds none twice.
pub proof fn lemma_branch_keeps_distinct(
    annotations: StatementAnnotationsView,
    source: StatementIdx,
    destination: StatementIdx,
    results: Seq<VarId>,
    changes: BranchChangesView,
)
    requires
        distinct_vars(annotations.refs),
        spec_branch_annotations(annotations, source, destination, results, changes) is Ok,
    ensures
        distinct_vars(
            spec_branch_annotations(annotations, source, destination, results, changes)->Ok_0.refs,
        ),
{
    lemma_shift_refs_keeps_vars(annotations.refs, changes.ap_change);
    let shifted = spec_shift_refs(annotations.refs, changes.ap_change)->Ok_0;
    let n = if results.len() <= changes.refs.len() {
        results.len() as int
    } else {
        changes.refs.len() as int
    };
    lemma_bind_outputs_distinct(shifted, results, changes.refs, source, n);
}

/// Binding the outputs of a branch keeps the bindings that are there, in
/// their places, and adds one for each output.
pub proof fn lemma_bind_outputs_keeps_bindings(
    refs: Seq<(VarId, ReferenceValueView)>,
    vars: Seq<VarId>,
    outs: Seq<OutputReferenceView>,
    point: StatementIdx,
    n: int,
)
    requires
        0 <= n <= vars.len(),
        n <= outs.len(),
        spec_bind_outputs(refs, vars, outs, point, n) is Ok,
    ensures
        spec_bind_outputs(refs, vars, outs, point, n)->Ok_0.len() == refs.len() + n,
        forall|i: int|
            0 <= i < refs.len() ==> (#[trigger] spec_bind_outputs(
                refs,
                vars,
                outs,
                point,
                n,
            )->Ok_0[i]) == refs[i],
        forall|k: int|
            0 <= k < n ==> (#[trigger] spec_bind_outputs(refs, vars, outs, point, n)->Ok_0[refs.len()
                + k]).0 == vars[k],
    decreases n,
{
    if n > 0 {
        lemma_bind_outputs_keeps_bindings(refs, vars, outs, point, n - 1);
    }
}

/// A branch loses no binding: each variable that is bound where the branch
/// starts is bound, in its place, where the branch arrives, and behind
/// them the results of the branch for which there is an output.
pub proof fn lemma_branch_keeps_bindings(
    annotations: StatementAnnotationsView,
    source: StatementIdx,
    destination: StatementIdx,
    results: Seq<VarId>,
    changes: BranchChangesView,
)
    requires
        results.len() <= changes.refs.len(),
        spec_branch_annotations(annotations, source, destination, results, changes) is Ok,
    ensures
        spec_branch_annotations(annotations, source, destination, results, changes)->Ok_0.refs.len()
            == annotations.refs.len() + results.len(),
        forall|i: int|
            0 <= i < annotations.refs.len() ==> (#[trigger] spec_branch_annotations(
                annotations,
                source,
                destination,
                results,
                changes,
            )->Ok_0.refs[i]).0 == annotations.refs[i].0,
        forall|k: int|
            0 <= k < results.len() ==> (#[trigger] spec_branch_annotations(
                annotations,
                source,
                destination,
                results,
                changes,
            )->Ok_0.refs[annotations.refs.len() + k]).0 == results[k],
{
    lemma_shift_refs_keeps_vars(annotations.refs, changes.ap_change);
    let shifted = spec_shift_refs(annotations.refs, changes.ap_change)->Ok_0;
    lemma_bind_outputs_keeps_bindings(shifted, results, changes.refs, source, results.len() as int);
}

/// The parameters of a function are bound once each.
pub proof fn lemma_param_refs_distinct(
    params: Seq<Param>,
    type_sizes: TypeSizeMap,
    entry: StatementIdx,
    k: int,
)
    requires
        spec_param_refs(params, type_sizes, entry, k) is Some,
    ensures
        distinct_vars(spec_param_refs(params, type_sizes, entry, k)->Some_0),
    decreases params.len() - k,
{
    if !(k < 0 || k >= params.len()) {
        lemma_param_refs_distinct(params, type_sizes, entry, k + 1);
        let later = spec_param_refs(params, type_sizes, entry, k + 1)->Some_0;
        let refs = spec_param_refs(params, type_sizes, entry, k)->Some_0;
        lemma_index_of_var(later, params[k].id);
        assert forall|i: int, j: int| 0 <= i < j < refs.len() implies (#[trigger] refs[i]).0 != (
        #[trigger] refs[j]).0 by {
            if j < later.len() {
                assert(refs[i] == later[i] && refs[j] == later[j]);
            } else {
                assert(refs[i] == later[i]);
            }
        }
    }
}

/// Recording an environment that binds no variable twice leaves no
/// environment that binds one twice.
pub proof fn lemma_set_or_assert_keeps_distinct(
    state: Seq<Option<StatementAnnotationsView>>,
    source: StatementIdx,
    destination: StatementIdx,
    annotations: StatementAnnotationsView,
)
    requires
        all_distinct(state),
        distinct_vars(annotations.refs),
        spec_set_or_assert(state, source, destination, annotations) is Ok,
    ensures
        all_distinct(spec_set_or_assert(state, source, destination, annotations)->Ok_0),
{
    let next = spec_set_or_assert(state, source, destination, annotations)->Ok_0;
    assert forall|k: int| 0 <= k < next.len() implies match #[trigger] next[k] {
        Some(a) => distinct_vars(a.refs),
        None => true,
    } by {
        if k != destination.0 {
            assert(next[k] == state[k]);
        }
    }
}

/// Before the first statement no environment binds a variable twice.
pub proof fn lemma_create_distinct(
    n_statements: nat,
    funcs: Seq<Function>,
    metadata: Metadata,
    gas_usage_check: bool,
    type_sizes: TypeSizeMap,
    k: int,
)
    requires
        spec_create(n_statements, funcs, metadata, gas_usage_check, type_sizes, k) is Ok,
    ensures
        all_distinct(
            spec_create(n_statements, funcs, metadata, gas_usage_check, type_sizes, k)->Ok_0,
        ),
    decreases k,
{
    if !(k <= 0 || k > funcs.len()) {
        lemma_create_distinct(n_statements, funcs, metadata, gas_usage_check, type_sizes, k - 1);
        let state = spec_create(
            n_statements,
            funcs,
            metadata,
            gas_usage_check,
            type_sizes,
            k - 1,
        )->Ok_0;
        let f = funcs[k - 1];
        let entry = spec_entry_annotations(f, metadata, gas_usage_check, type_sizes)->Ok_0;
        lemma_param_refs_distinct(f.params@, type_sizes, f.entry_point, 0);
        lemma_set_or_assert_keeps_distinct(state, f.entry_point, f.entry_point, entry);
    }
}

/// A branch from an environment that binds no variable twice leaves no
/// environment that binds one twice.
pub proof fn lemma_propagate_keeps_distinct(
    state: Seq<Option<StatementAnnotationsView>>,
    source: StatementIdx,
    destination: StatementIdx,
    annotations: StatementAnnotationsView,
    results: Seq<VarId>,
    changes: BranchChangesView,
)
    requires
        all_distinct(state),
        distinct_vars(annotations.refs),
        spec_propagate(state, source, destination, annotations, results, changes) is Ok,
    ensures
        all_distinct(
            spec_propagate(state, source, destination, annotations, results, changes)->Ok_0,
        ),
{
    lemma_branch_keeps_distinct(annotations, source, destination, results, changes);
    let arriving = spec_branch_annotations(
        annotations,
        source,
        destination,
        results,
        changes,
    )->Ok_0;
    lemma_set_or_assert_keeps_distinct(state, source, destination, arriving);
}

/// A return takes every variable that is bound at it: the environment of
/// the statement binds as many variables as are returned.
pub proof fn lemma_return_leaves_nothing(
    state: Seq<Option<StatementAnnotationsView>>,
    statement_idx: StatementIdx,
    vars: Seq<VarId>,
    funcs: Seq<Function>,
    type_sizes: TypeSizeMap,
)
    requires
        all_distinct(state),
        spec_return_refs(state, statement_idx, vars, funcs, type_sizes) is Ok,
    ensures
        state[statement_idx.0 as int] is Some,
        state[statement_idx.0 as int]->Some_0.refs.len() == vars.len(),
        spec_take_args(state[statement_idx.0 as int]->Some_0.refs, vars) is Ok,
        spec_take_args(state[statement_idx.0 as int]->Some_0.refs, vars)->Ok_0.0.len() == 0,
{
    let annotations = state[statement_idx.0 as int]->Some_0;
    lemma_take_args_takes_once(annotations.refs, vars);
}

/// Whether `later` records what `earlier` records.
pub open spec fn extends(
    earlier: Seq<Option<StatementAnnotationsView>>,
    later: Seq<Option<StatementAnnotationsView>>,
) -> bool {
    &&& earlier.len() == later.len()
    &&& forall|k: int| 0 <= k < earlier.len() && earlier[k].is_some() ==> later[k] == earlier[k]
}

/// A branch that is taken records its environment at its destination and
/// keeps what is recorded.
pub proof fn lemma_propagate_records(
    state: Seq<Option<StatementAnnotationsView>>,
    source: StatementIdx,
    destination: StatementIdx,
    annotations: StatementAnnotationsView,
    results: Seq<VarId>,
    changes: BranchChangesView,
)
    requires
        spec_propagate(state, source, destination, annotations, results, changes) is Ok,
    ensures
        extends(
            state,
            spec_propagate(state, source, destination, annotations, results, changes)->Ok_0,
        ),
        destination.0 < state.len(),
        spec_propagate(
            state,
            source,
            destination,
            annotations,
            results,
            changes,
        )->Ok_0[destination.0 as int] == Some(
            spec_branch_annotations(annotations, source, destination, results, changes)->Ok_0,
        ),
{
}

/// Two branches that are taken to one statement bring the same environment
/// to it, whatever is recorded between them.
pub proof fn lemma_merge_consistency(
    first: Seq<Option<StatementAnnotationsView>>,
    source1: StatementIdx,
    annotations1: StatementAnnotationsView,
    results1: Seq<VarId>,
    changes1: BranchChangesView,
    second: Seq<Option<StatementAnnotationsView>>,
    source2: StatementIdx,
    annotations2: StatementAnnotationsView,
    results2: Seq<VarId>,
    changes2: BranchChangesView,
    destination: StatementIdx,
)
    requires
        spec_propagate(first, source1, destination, annotations1, results1, changes1) is Ok,
        extends(
            spec_propagate(first, source1, destination, annotations1, results1, changes1)->Ok_0,
            second,
        ),
        spec_propagate(second, source2, destination, annotations2, results2, changes2) is Ok,
    ensures
        spec_branch_annotations(annotations1, source1, destination, results1, changes1)
            == spec_branch_annotations(annotations2, source2, destination, results2, changes2),
{
    lemma_propagate_records(first, source1, destination, annotations1, results1, changes1);
}

/// The size of the types of the references from the `i`-th on.
pub open spec fn sizes_from(refs: Seq<ReferenceValueView>, type_sizes: TypeSizeMap, i: int) -> int
    decreases refs.len() - i,
{
    if i < 0 || i >= refs.len() {
        0
    } else {
        spec_cell_count(type_sizes, refs[i].ty).unwrap_or(0) + sizes_from(
            refs,
            type_sizes,
            i + 1,
        )
    }
}

/// References of the sizes of their types that lie on top of the stack lie
/// there in order, each below those behind it: the cell `c` of the `i`-th
/// is `[ap - s + c]`, where `s` is the size of the types of the references
/// from the `i`-th on.
pub proof fn lemma_return_tail(refs: Seq<ReferenceValueView>, type_sizes: TypeSizeMap, i: int, c: int)
    requires
        on_stack(refs),
        views_match_size(refs, type_sizes),
        0 <= i < refs.len(),
        0 <= c < refs[i].cells.len(),
    ensures
        c - sizes_from(refs, type_sizes, i) >= i16::MIN,
        refs[i].cells[c] == CellExpression::Deref(
            Cell { register: Register::AP, offset: (c - sizes_from(refs, type_sizes, i)) as i16 },
        ),
{
    lemma_cells_are_sizes(refs, type_sizes, i);
}

/// References of the sizes of their types have as many cells as the size of
/// their types.
pub proof fn lemma_cells_are_sizes(refs: Seq<ReferenceValueView>, type_sizes: TypeSizeMap, i: int)
    requires
        views_match_size(refs, type_sizes),
    ensures
        cells_from(refs, i) == sizes_from(refs, type_sizes, i),
    decreases refs.len() - i,
{
    if 0 <= i < refs.len() {
        lemma_cells_are_sizes(refs, type_sizes, i + 1);
        assert(spec_cell_count(type_sizes, refs[i].ty) is Some);
    }
}

/// The references that a record holds for a return.
pub open spec fn returned(record: SierraStatementDebugInfo) -> Seq<ReferenceValueView> {
    match record.additional_kind_info {
        StatementKindDebugInfo::Return(d) => reference_views(d.ref_values@),
        _ => Seq::empty(),
    }
}

/// The values of a recorded return lie on top of the stack, in the order of
/// the returned variables: there is one for each variable, it has as many
/// cells as the size of its type, and its cell `c` is `[ap - s + c]`, where
/// `s` is the size of the types from its own on.
pub proof fn lemma_recorded_return_tail(
    vars: Vec<VarId>,
    record: SierraStatementDebugInfo,
    type_sizes: TypeSizeMap,
    j: int,
    c: int,
)
    requires
        record_of(Statement::Return(vars), record, type_sizes),
        0 <= j < vars@.len(),
        0 <= c < returned(record)[j].cells.len(),
    ensures
        returned(record).len() == vars@.len(),
        spec_cell_count(type_sizes, returned(record)[j].ty) == Some(
            returned(record)[j].cells.len() as usize,
        ),
        c - sizes_from(returned(record), type_sizes, j) >= i16::MIN,
        returned(record)[j].cells[c] == CellExpression::Deref(
            Cell {
                register: Register::AP,
                offset: (c - sizes_from(returned(record), type_sizes, j)) as i16,
            },
        ),
{
    let refs = returned(record);
    assert(spec_cell_count(type_sizes, refs[j].ty) is Some);
    lemma_return_tail(refs, type_sizes, j, c);
}

/// The type at `k` among the data of the constant type `ty`, if there is
/// one.
pub open spec fn const_part(types: Seq<TypeDeclaration>, ty: TypeId, k: int) -> Option<TypeId> {
    match find_type(types, ty) {
        Some(ConcreteType::Const { inner_ty, inner_data }) => if 0 <= k < inner_data@.len() {
            match inner_data@[k] {
                GenericArg::Type(part) => Some(part),
                _ => None,
            }
        } else {
            None
        },
        _ => None,
    }
}

/// Whether `rank` orders the constant types: each type among the data of a
/// constant type has a lower rank than the constant type. Then no constant
/// type is a part of itself.
pub open spec fn parts_ranked(types: Seq<TypeDeclaration>, rank: spec_fn(TypeId) -> nat) -> bool {
    forall|ty: TypeId, k: int| (#[trigger] const_part(types, ty, k)) matches Some(part) ==> rank(part) < rank(ty)
}

/// The constant of a type does not depend on the depth to which constants
/// may be nested, as long as the depth is above the rank of the type.
pub proof fn lemma_const_value_depth(
    types: Seq<TypeDeclaration>,
    type_sizes: TypeSizeMap,
    ty: TypeId,
    rank: spec_fn(TypeId) -> nat,
    depth: nat,
    other: nat,
)
    requires
        parts_ranked(types, rank),
        rank(ty) < depth,
        rank(ty) < other,
    ensures
        spec_extract_const_value(types, type_sizes, ty, depth) == spec_extract_const_value(
            types,
            type_sizes,
            ty,
            other,
        ),
    decreases rank(ty), 1int, 0int,
{
    match find_type(types, ty) {
        Some(ConcreteType::Const { inner_ty, inner_data }) => {
            lemma_fields_depth(
                types,
                type_sizes,
                ty,
                rank,
                (depth - 1) as nat,
                (other - 1) as nat,
                inner_data@.len() as int,
            );
            if inner_data@.len() == 2 {
                match inner_data@[1] {
                    GenericArg::Type(payload) => {
                        assert(const_part(types, ty, 1) == Some(payload));
                        lemma_const_value_depth(
                            types,
                            type_sizes,
                            payload,
                            rank,
                            (depth - 1) as nat,
                            (other - 1) as nat,
                        );
                    },
                    _ => {},
                }
            }
        },
        _ => {},
    }
}

/// The constants of the first `n` types among the data of the constant type
/// `ty` do not depend on the depth to which constants may be nested, as
/// long as the depth is not below the rank of `ty`.
pub proof fn lemma_fields_depth(
    types: Seq<TypeDeclaration>,
    type_sizes: TypeSizeMap,
    ty: TypeId,
    rank: spec_fn(TypeId) -> nat,
    depth: nat,
    other: nat,
    n: int,
)
    requires
        parts_ranked(types, rank),
        find_type(types, ty) matches Some(ConcreteType::Const { .. }),
        rank(ty) <= depth,
        rank(ty) <= other,
    ensures
        spec_extract_fields(types, type_sizes, const_data(types, ty), depth, n)
            == spec_extract_fields(types, type_sizes, const_data(types, ty), other, n),
    decreases rank(ty), 0int, n,
{
    let args = const_data(types, ty);
    if 0 < n <= args.len() {
        lemma_fields_depth(types, type_sizes, ty, rank, depth, other, n - 1);
        match args[n - 1] {
            GenericArg::Type(field) => {
                assert(const_part(types, ty, n - 1) == Some(field));
                lemma_const_value_depth(types, type_sizes, field, rank, depth, other);
            },
            _ => {},
        }
    }
}

/// A constant that is found at one depth of nesting is found, the same, at
/// every greater depth.
pub proof fn lemma_const_value_deeper(
    types: Seq<TypeDeclaration>,
    type_sizes: TypeSizeMap,
    ty: TypeId,
    depth: nat,
    other: nat,
)
    requires
        depth <= other,
        spec_extract_const_value(types, type_sizes, ty, depth) is Ok,
    ensures
        spec_extract_const_value(types, type_sizes, ty, other) == spec_extract_const_value(
            types,
            type_sizes,
            ty,
            depth,
        ),
    decreases depth, 0int, 0int,
{
    match find_type(types, ty) {
        Some(ConcreteType::Const { inner_ty, inner_data }) => match find_type(types, inner_ty) {
            Some(ConcreteType::Struct) => {
                if all_types(inner_data@) {
                    lemma_fields_deeper(
                        types,
                        type_sizes,
                        inner_data@,
                        (depth - 1) as nat,
                        (other - 1) as nat,
                        inner_data@.len() as int,
                    );
                }
            },
            Some(ConcreteType::Enum { variants }) => {
                if inner_data@.len() == 2 {
                    match inner_data@[1] {
                        GenericArg::Type(payload) => {
                            if spec_extract_const_value(
                                types,
                                type_sizes,
                                payload,
                                (depth - 1) as nat,
                            ) is Ok {
                                lemma_const_value_deeper(
                                    types,
                                    type_sizes,
                                    payload,
                                    (depth - 1) as nat,
                                    (other - 1) as nat,
                                );
                            }
                        },
                        _ => {},
                    }
                }
            },
            _ => {},
        },
        _ => {},
    }
}

/// Constants of fields that are found at one depth of nesting are found,
/// the same, at every greater depth.
pub proof fn lemma_fields_deeper(
    types: Seq<TypeDeclaration>,
    type_sizes: TypeSizeMap,
    args: Seq<GenericArg>,
    depth: nat,
    other: nat,
    n: int,
)
    requires
        depth <= other,
        spec_extract_fields(types, type_sizes, args, depth, n) is Ok,
    ensures
        spec_extract_fields(types, type_sizes, args, other, n) == spec_extract_fields(
            types,
            type_sizes,
            args,
            depth,
            n,
        ),
    decreases depth, 1int, n,
{
    if 0 < n <= args.len() {
        lemma_fields_deeper(types, type_sizes, args, depth, other, n - 1);
        match args[n - 1] {
            GenericArg::Type(field) => {
                lemma_const_value_deeper(types, type_sizes, field, depth, other);
            },
            _ => {},
        }
    }
}

/// A constant of a struct that has a value has the values of the constants
/// of its fields, one behind the other in the order of the fields, whatever
/// the order in which the types are declared.
pub proof fn lemma_struct_constant_value(
    types: Seq<TypeDeclaration>,
    type_sizes: TypeSizeMap,
    ty: TypeId,
    inner_ty: TypeId,
    inner_data: Vec<GenericArg>,
)
    requires
        find_type(types, ty) == Some(ConcreteType::Const { inner_ty, inner_data }),
        find_type(types, inner_ty) == Some(ConcreteType::Struct),
        spec_const_value(types, type_sizes, ty) is Ok,
    ensures
        spec_const_value(types, type_sizes, ty) == joined_constants(
            types,
            type_sizes,
            inner_data@,
            inner_data@.len() as int,
        ),
{
    lemma_joined_constants(types, type_sizes, inner_data@, inner_data@.len() as int);
    lemma_fields_deeper(
        types,
        type_sizes,
        inner_data@,
        (types.len() - 1) as nat,
        types.len(),
        inner_data@.len() as int,
    );
}

/// A constant of an enum that has a value has the selector of its variant,
/// the zeros that fill the enum, and the value of the constant of the
/// variant, whatever the order in which the types are declared.
pub proof fn lemma_enum_constant_value(
    types: Seq<TypeDeclaration>,
    type_sizes: TypeSizeMap,
    ty: TypeId,
    inner_ty: TypeId,
    inner_data: Vec<GenericArg>,
    variants: Vec<TypeId>,
    variant_index: BigInt,
    payload: TypeId,
)
    requires
        find_type(types, ty) == Some(ConcreteType::Const { inner_ty, inner_data }),
        find_type(types, inner_ty) == Some(ConcreteType::Enum { variants }),
        inner_data@ == seq![GenericArg::Value(variant_index), GenericArg::Type(payload)],
        spec_const_value(types, type_sizes, ty) is Ok,
    ensures
        spec_enum_head(type_sizes, inner_ty, variants@, variant_index) is Ok,
        spec_const_value(types, type_sizes, payload) is Ok,
        spec_const_value(types, type_sizes, ty)->Ok_0 == spec_enum_head(
            type_sizes,
            inner_ty,
            variants@,
            variant_index,
        )->Ok_0 + spec_const_value(types, type_sizes, payload)->Ok_0,
{
    lemma_const_value_deeper(
        types,
        type_sizes,
        payload,
        (types.len() - 1) as nat,
        types.len(),
    );
}

/// A constant of an enum has as many words as the size of the enum, where
/// the constant of its variant has as many words as the size of the
/// variant.
pub proof fn lemma_enum_constant_size(
    types: Seq<TypeDeclaration>,
    type_sizes: TypeSizeMap,
    ty: TypeId,
    inner_ty: TypeId,
    inner_data: Vec<GenericArg>,
    variants: Vec<TypeId>,
    variant_index: BigInt,
    payload: TypeId,
)
    requires
        find_type(types, ty) == Some(ConcreteType::Const { inner_ty, inner_data }),
        find_type(types, inner_ty) == Some(ConcreteType::Enum { variants }),
        inner_data@ == seq![GenericArg::Value(variant_index), GenericArg::Type(payload)],
        spec_const_value(types, type_sizes, ty) is Ok,
        spec_cell_count(type_sizes, variants@[crate::bigint::bigint_value(variant_index)])
            is Some ==> spec_cell_count(
            type_sizes,
            variants@[crate::bigint::bigint_value(variant_index)],
        )->Some_0 == spec_const_value(types, type_sizes, payload)->Ok_0.len(),
    ensures
        spec_cell_count(type_sizes, inner_ty) is Some,
        spec_cell_count(type_sizes, inner_ty)->Some_0 == spec_const_value(
            types,
            type_sizes,
            ty,
        )->Ok_0.len(),
{
    lemma_enum_constant_value(
        types,
        type_sizes,
        ty,
        inner_ty,
        inner_data,
        variants,
        variant_index,
        payload,
    );
}

/// The data of the constant type `ty`.
pub open spec fn const_data(types: Seq<TypeDeclaration>, ty: TypeId) -> Seq<GenericArg> {
    match find_type(types, ty) {
        Some(ConcreteType::Const { inner_ty, inner_data }) => inner_data@,
        _ => Seq::empty(),
    }
}

/// The words of the constants of the first `n` of the types `args`, one
/// behind the other; or the error of the first that has no constant.
pub open spec fn joined_constants(
    types: Seq<TypeDeclaration>,
    type_sizes: TypeSizeMap,
    args: Seq<GenericArg>,
    n: int,
) -> Result<Seq<int>, CompilationError>
    decreases n,
{
    if n <= 0 || n > args.len() {
        Ok(Seq::empty())
    } else {
        match joined_constants(types, type_sizes, args, n - 1) {
            Err(e) => Err(e),
            Ok(done) => match args[n - 1] {
                GenericArg::Type(field) => match spec_const_value(types, type_sizes, field) {
                    Err(e) => Err(e),
                    Ok(words) => Ok(done + words),
                },
                _ => Err(CompilationError::ConstDataMismatch),
            },
        }
    }
}

/// Joining the constants of types is extracting them as fields, at the
/// depth of the number of declared types.
pub proof fn lemma_joined_constants(
    types: Seq<TypeDeclaration>,
    type_sizes: TypeSizeMap,
    args: Seq<GenericArg>,
    n: int,
)
    ensures
        joined_constants(types, type_sizes, args, n) == spec_extract_fields(
            types,
            type_sizes,
            args,
            types.len(),
            n,
        ),
    decreases n,
{
    if 0 < n <= args.len() {
        lemma_joined_constants(types, type_sizes, args, n - 1);
    }
}

/// The constant of a struct is the constants of its fields, one behind the
/// other in the order of the fields, whatever the order in which the types
/// are declared; where a field has no constant, the error is that of the
/// first such field.
pub proof fn lemma_struct_constant(
    types: Seq<TypeDeclaration>,
    type_sizes: TypeSizeMap,
    ty: TypeId,
    rank: spec_fn(TypeId) -> nat,
    inner_ty: TypeId,
    inner_data: Vec<GenericArg>,
)
    requires
        parts_ranked(types, rank),
        rank(ty) < types.len(),
        find_type(types, ty) == Some(ConcreteType::Const { inner_ty, inner_data }),
        find_type(types, inner_ty) == Some(ConcreteType::Struct),
        all_types(inner_data@),
    ensures
        spec_const_value(types, type_sizes, ty) == joined_constants(
            types,
            type_sizes,
            inner_data@,
            inner_data@.len() as int,
        ),
{
    lemma_joined_constants(types, type_sizes, inner_data@, inner_data@.len() as int);
    lemma_fields_depth(
        types,
        type_sizes,
        ty,
        rank,
        (types.len() - 1) as nat,
        types.len(),
        inner_data@.len() as int,
    );
}

/// The constant of an enum is the selector of its variant, the zeros that
/// fill the enum, and the constant of the variant, whatever the order in
/// which the types are declared.
pub proof fn lemma_enum_constant(
    types: Seq<TypeDeclaration>,
    type_sizes: TypeSizeMap,
    ty: TypeId,
    rank: spec_fn(TypeId) -> nat,
    inner_ty: TypeId,
    inner_data: Vec<GenericArg>,
    variants: Vec<TypeId>,
    variant_index: BigInt,
    payload: TypeId,
)
    requires
        parts_ranked(types, rank),
        rank(ty) < types.len(),
        find_type(types, ty) == Some(ConcreteType::Const { inner_ty, inner_data }),
        find_type(types, inner_ty) == Some(ConcreteType::Enum { variants }),
        inner_data@ == seq![GenericArg::Value(variant_index), GenericArg::Type(payload)],
    ensures
        spec_const_value(types, type_sizes, ty) == (match spec_enum_head(
            type_sizes,
            inner_ty,
            variants@,
            variant_index,
        ) {
            Err(e) => Err(e),
            Ok(head) => match spec_const_value(types, type_sizes, payload) {
                Err(e) => Err(e),
                Ok(tail) => Ok(head + tail),
            },
        }),
{
    assert(const_part(types, ty, 1) == Some(payload));
    lemma_const_value_depth(
        types,
        type_sizes,
        payload,
        rank,
        (types.len() - 1) as nat,
        types.len(),
    );
}

/// The statement that the branch `b` of the invocation at `source` leads
/// to.
pub open spec fn destination_of(source: StatementIdx, branches: Seq<BranchInfo>, b: int) -> StatementIdx {
    StatementIdx(source.spec_next(branches[b].target) as usize)
}

/// The branches of an invocation that are all taken keep what is recorded,
/// and each is recorded at its destination with the environment that it
/// brings there.
pub proof fn lemma_propagate_branches_records(
    state: Seq<Option<StatementAnnotationsView>>,
    program: ResolvedProgram,
    source: StatementIdx,
    annotations: StatementAnnotationsView,
    branches: Seq<BranchInfo>,
    results: Seq<BranchChangesView>,
    n: int,
)
    requires
        0 <= n <= branches.len(),
        n <= results.len(),
        spec_propagate_branches(state, program, source, annotations, branches, results, n) is Ok,
    ensures
        extends(
            state,
            spec_propagate_branches(state, program, source, annotations, branches, results, n)->Ok_0,
        ),
        forall|b: int|
            0 <= b < n ==> {
                let d = #[trigger] destination_of(source, branches, b);
                &&& d.0 < state.len()
                &&& spec_branch_annotations(annotations, source, d, branches[b].results@, results[b]) is Ok
                &&& spec_propagate_branches(
                    state,
                    program,
                    source,
                    annotations,
                    branches,
                    results,
                    n,
                )->Ok_0[d.0 as int] == Some(
                    spec_branch_annotations(
                        annotations,
                        source,
                        d,
                        branches[b].results@,
                        results[b],
                    )->Ok_0,
                )
            },
    decreases n,
{
    if n > 0 {
        let before = spec_propagate_branches(
            state,
            program,
            source,
            annotations,
            branches,
            results,
            n - 1,
        )->Ok_0;
        let after = spec_propagate_branches(
            state,
            program,
            source,
            annotations,
            branches,
            results,
            n,
        )->Ok_0;
        lemma_propagate_branches_records(state, program, source, annotations, branches, results, n - 1);
        let last = destination_of(source, branches, n - 1);
        lemma_propagate_records(
            before,
            source,
            last,
            annotations,
            branches[n - 1].results@,
            results[n - 1],
        );
        assert forall|b: int| 0 <= b < n implies {
            let d = #[trigger] destination_of(source, branches, b);
            &&& d.0 < state.len()
            &&& spec_branch_annotations(annotations, source, d, branches[b].results@, results[b]) is Ok
            &&& after[d.0 as int] == Some(
                spec_branch_annotations(annotations, source, d, branches[b].results@, results[b])->Ok_0,
            )
        } by {
            if b < n - 1 {
                let d = destination_of(source, branches, b);
                assert(before[d.0 as int].is_some());
            }
        }
    }
}

/// Whether the invocation `k` of `program` was compiled, from the state
/// `before` to the state `after`, with the environment `annotations` and
/// the code `compiled`.
pub open spec fn invocation_compiled(
    before: CompilationState,
    after: CompilationState,
    k: int,
    program: ResolvedProgram,
    type_sizes: TypeSizeMap,
    annotations: StatementAnnotations,
    refs: Vec<ReferenceValue>,
    compiled: CompiledInvocation,
) -> bool {
    &&& 0 <= k < program.statements@.len()
    &&& program.statements@[k] matches Statement::Invocation(invocation)
    &&& spec_prepared(
        before,
        StatementIdx(k as usize),
        invocation,
        program,
        type_sizes,
        annotations,
        refs,
    )
    &&& spec_applied(
        before,
        after,
        StatementIdx(k as usize),
        invocation,
        annotations,
        refs,
        compiled,
        program,
        Ok(()),
    )
}

/// The environment that the branch `b` of the invocation `k`, compiled
/// with the environment `annotations` and the code `compiled`, brings to
/// its destination.
pub open spec fn arriving(
    k: int,
    program: ResolvedProgram,
    annotations: StatementAnnotations,
    compiled: CompiledInvocation,
    b: int,
) -> Result<StatementAnnotationsView, AnnotationError> {
    let branches = program.statements@[k]->Invocation_0.branches@;
    spec_branch_annotations(
        StatementAnnotationsView {
            refs: annotations@.refs,
            function_id: annotations@.function_id,
            environment: compiled.environment,
        },
        StatementIdx(k as usize),
        destination_of(StatementIdx(k as usize), branches, b),
        branches[b].results@,
        branch_changes_views(compiled.results@)[b],
    )
}

/// A compiled statement keeps the environments that are recorded.
pub proof fn lemma_step_extends(
    before: CompilationState,
    after: CompilationState,
    k: int,
    program: ResolvedProgram,
    type_sizes: TypeSizeMap,
    config: SierraToCasmConfig,
)
    requires
        spec_step(before, after, k, program, type_sizes, config),
    ensures
        extends(before.program_annotations@, after.program_annotations@),
{
    reveal(spec_step);
    match program.statements@[k] {
        Statement::Return(vars) => {},
        Statement::Invocation(invocation) => {
            let (annotations, refs, compiled) = choose|
                annotations: StatementAnnotations,
                refs: Vec<ReferenceValue>,
                compiled: CompiledInvocation,
            |
                spec_prepared(
                    before,
                    StatementIdx(k as usize),
                    invocation,
                    program,
                    type_sizes,
                    annotations,
                    refs,
                ) && #[trigger] spec_applied(
                    before,
                    after,
                    StatementIdx(k as usize),
                    invocation,
                    annotations,
                    refs,
                    compiled,
                    program,
                    Ok(()),
                );
            lemma_propagate_branches_records(
                before.program_annotations@,
                program,
                StatementIdx(k as usize),
                StatementAnnotationsView {
                    refs: annotations@.refs,
                    function_id: annotations@.function_id,
                    environment: compiled.environment,
                },
                invocation.branches@,
                branch_changes_views(compiled.results@),
                invocation.branches@.len() as int,
            );
        },
    }
}

/// Where each of `n` steps keeps what is recorded, what is recorded at one
/// of them is recorded at every later one.
pub proof fn lemma_chain_extends(
    chain: Seq<Seq<Option<StatementAnnotationsView>>>,
    n: int,
    j: int,
    k: int,
)
    requires
        chain.len() == n + 1,
        forall|i: int| 0 <= i < n ==> extends(#[trigger] chain[i], chain[i + 1]),
        0 <= j <= k <= n,
    ensures
        extends(chain[j], chain[k]),
    decreases k - j,
{
    if j < k {
        lemma_chain_extends(chain, n, j, k - 1);
        assert(extends(chain[k - 1], chain[k]));
    }
}

/// In a pass, an environment that is recorded stays as it is.
pub proof fn lemma_trace_extends(
    states: Seq<CompilationState>,
    n: int,
    program: ResolvedProgram,
    metadata: Metadata,
    config: SierraToCasmConfig,
    type_sizes: TypeSizeMap,
    j: int,
    k: int,
)
    requires
        spec_trace(states, n, program, metadata, config, type_sizes),
        0 <= j <= k <= n,
    ensures
        extends(states[j].program_annotations@, states[k].program_annotations@),
{
    let chain = Seq::new(states.len(), |i: int| states[i].program_annotations@);
    assert forall|i: int| 0 <= i < n implies extends(#[trigger] chain[i], chain[i + 1]) by {
        lemma_step_extends(states[i], states[i + 1], i, program, type_sizes, config);
    }
    lemma_chain_extends(chain, n, j, k);
}

/// In a pass, the environment that a branch of a compiled invocation brings
/// to its destination is the environment of the destination from then on.
pub proof fn lemma_trace_records_branch(
    states: Seq<CompilationState>,
    n: int,
    program: ResolvedProgram,
    metadata: Metadata,
    config: SierraToCasmConfig,
    type_sizes: TypeSizeMap,
    k: int,
    annotations: StatementAnnotations,
    refs: Vec<ReferenceValue>,
    compiled: CompiledInvocation,
    b: int,
    m: int,
)
    requires
        spec_trace(states, n, program, metadata, config, type_sizes),
        0 <= k < m <= n,
        invocation_compiled(
            states[k],
            states[k + 1],
            k,
            program,
            type_sizes,
            annotations,
            refs,
            compiled,
        ),
        0 <= b < program.statements@[k]->Invocation_0.branches@.len(),
    ensures
        arriving(k, program, annotations, compiled, b) is Ok,
        destination_of(
            StatementIdx(k as usize),
            program.statements@[k]->Invocation_0.branches@,
            b,
        ).0 < states[m].program_annotations@.len(),
        states[m].program_annotations@[destination_of(
            StatementIdx(k as usize),
            program.statements@[k]->Invocation_0.branches@,
            b,
        ).0 as int] == Some(arriving(k, program, annotations, compiled, b)->Ok_0),
{
    let invocation = program.statements@[k]->Invocation_0;
    let d = destination_of(StatementIdx(k as usize), invocation.branches@, b);
    lemma_propagate_branches_records(
        states[k].program_annotations@,
        program,
        StatementIdx(k as usize),
        StatementAnnotationsView {
            refs: annotations@.refs,
            function_id: annotations@.function_id,
            environment: compiled.environment,
        },
        invocation.branches@,
        branch_changes_views(compiled.results@),
        invocation.branches@.len() as int,
    );
    assert(destination_of(StatementIdx(k as usize), invocation.branches@, b) == d);
    lemma_trace_extends(states, n, program, metadata, config, type_sizes, k + 1, m);
    assert(states[k + 1].program_annotations@[d.0 as int].is_some());
}

/// Merge consistency: in a pass, two branches that lead to one statement
/// bring the same environment to it.
pub proof fn lemma_trace_merge(
    states: Seq<CompilationState>,
    n: int,
    program: ResolvedProgram,
    metadata: Metadata,
    config: SierraToCasmConfig,
    type_sizes: TypeSizeMap,
    first: int,
    first_annotations: StatementAnnotations,
    first_refs: Vec<ReferenceValue>,
    first_compiled: CompiledInvocation,
    first_branch: int,
    second: int,
    second_annotations: StatementAnnotations,
    second_refs: Vec<ReferenceValue>,
    second_compiled: CompiledInvocation,
    second_branch: int,
)
    requires
        spec_trace(states, n, program, metadata, config, type_sizes),
        0 <= first < n,
        0 <= second < n,
        invocation_compiled(
            states[first],
            states[first + 1],
            first,
            program,
            type_sizes,
            first_annotations,
            first_refs,
            first_compiled,
        ),
        invocation_compiled(
            states[second],
            states[second + 1],
            second,
            program,
            type_sizes,
            second_annotations,
            second_refs,
            second_compiled,
        ),
        0 <= first_branch < program.statements@[first]->Invocation_0.branches@.len(),
        0 <= second_branch < program.statements@[second]->Invocation_0.branches@.len(),
        destination_of(
            StatementIdx(first as usize),
            program.statements@[first]->Invocation_0.branches@,
            first_branch,
        ) == destination_of(
            StatementIdx(second as usize),
            program.statements@[second]->Invocation_0.branches@,
            second_branch,
        ),
    ensures
        arriving(first, program, first_annotations, first_compiled, first_branch) is Ok,
        arriving(first, program, first_annotations, first_compiled, first_branch) == arriving(
            second,
            program,
            second_annotations,
            second_compiled,
            second_branch,
        ),
{
    lemma_trace_records_branch(
        states,
        n,
        program,
        metadata,
        config,
        type_sizes,
        first,
        first_annotations,
        first_refs,
        first_compiled,
        first_branch,
        n,
    );
    lemma_trace_records_branch(
        states,
        n,
        program,
        metadata,
        config,
        type_sizes,
        second,
        second_annotations,
        second_refs,
        second_compiled,
        second_branch,
        n,
    );
}

/// A compiled statement leaves a state whose parts fit together.
pub proof fn lemma_step_well_formed(
    before: CompilationState,
    after: CompilationState,
    k: int,
    program: ResolvedProgram,
    type_sizes: TypeSizeMap,
    config: SierraToCasmConfig,
)
    requires
        spec_step(before, after, k, program, type_sizes, config),
    ensures
        after.well_formed(),
{
    reveal(spec_step);
}

/// A return that is compiled returns references.
pub proof fn lemma_step_returns(
    before: CompilationState,
    after: CompilationState,
    k: int,
    program: ResolvedProgram,
    type_sizes: TypeSizeMap,
    config: SierraToCasmConfig,
)
    requires
        spec_step(before, after, k, program, type_sizes, config),
        0 <= k < program.statements@.len(),
        program.statements@[k] is Return,
    ensures
        k <= usize::MAX,
        spec_return_refs(
            before.program_annotations@,
            StatementIdx(k as usize),
            program.statements@[k]->Return_0@,
            program.funcs@,
            type_sizes,
        ) is Ok,
{
    reveal(spec_step);
    assert(program.statements.len() <= usize::MAX);
}

/// In a pass, no environment binds a variable twice.
pub proof fn lemma_trace_distinct(
    states: Seq<CompilationState>,
    n: int,
    program: ResolvedProgram,
    metadata: Metadata,
    config: SierraToCasmConfig,
    type_sizes: TypeSizeMap,
    k: int,
)
    requires
        spec_trace(states, n, program, metadata, config, type_sizes),
        0 <= k <= n,
    ensures
        all_distinct(states[k].program_annotations@),
{
    if k > 0 {
        lemma_step_well_formed(states[k - 1], states[k], k - 1, program, type_sizes, config);
    }
}

/// Linear use at a return of a pass: the environment of the statement
/// binds the returned variables and no other, each once.
pub proof fn lemma_trace_return_linear(
    states: Seq<CompilationState>,
    n: int,
    program: ResolvedProgram,
    metadata: Metadata,
    config: SierraToCasmConfig,
    type_sizes: TypeSizeMap,
    k: int,
)
    requires
        spec_trace(states, n, program, metadata, config, type_sizes),
        0 <= k < n,
        program.statements@[k] is Return,
    ensures
        k < states[k].program_annotations@.len(),
        states[k].program_annotations@[k] matches Some(here) && {
            let vars = program.statements@[k]->Return_0@;
            &&& here.refs.len() == vars.len()
            &&& spec_take_args(here.refs, vars) matches Ok(taken) && taken.0.len() == 0
            &&& forall|i: int, l: int| 0 <= i < l < vars.len() ==> vars[i] != vars[l]
        },
{
    let vars = program.statements@[k]->Return_0@;
    lemma_trace_distinct(states, n, program, metadata, config, type_sizes, k);
    lemma_step_returns(states[k], states[k + 1], k, program, type_sizes, config);
    lemma_return_leaves_nothing(
        states[k].program_annotations@,
        StatementIdx(k as usize),
        vars,
        program.funcs@,
        type_sizes,
    );
    let here = states[k].program_annotations@[k]->Some_0;
    assert(distinct_vars(here.refs));
    lemma_take_args_takes_once(here.refs, vars);
}

/// Linear use at an invocation of a pass: the arguments are different
/// variables, each taken out of the environment of the statement; the
/// environment that a branch brings to its destination binds the variables
/// that are left, in their order, and behind them the results of the
/// branch, and binds no variable twice.
pub proof fn lemma_trace_invocation_linear(
    states: Seq<CompilationState>,
    n: int,
    program: ResolvedProgram,
    metadata: Metadata,
    config: SierraToCasmConfig,
    type_sizes: TypeSizeMap,
    k: int,
    annotations: StatementAnnotations,
    refs: Vec<ReferenceValue>,
    compiled: CompiledInvocation,
    b: int,
)
    requires
        spec_trace(states, n, program, metadata, config, type_sizes),
        0 <= k < n,
        invocation_compiled(
            states[k],
            states[k + 1],
            k,
            program,
            type_sizes,
            annotations,
            refs,
            compiled,
        ),
        0 <= b < program.statements@[k]->Invocation_0.branches@.len(),
    ensures
        k < states[k].program_annotations@.len(),
        states[k].program_annotations@[k] matches Some(here) && {
            let args = program.statements@[k]->Invocation_0.args@;
            &&& spec_take_args(here.refs, args) matches Ok(taken) && taken.0 == annotations@.refs
            &&& annotations@.refs.len() + args.len() == here.refs.len()
            &&& forall|i: int, l: int| 0 <= i < l < args.len() ==> args[i] != args[l]
            &&& forall|i: int|
                0 <= i < args.len() ==> index_of_var(annotations@.refs, #[trigger] args[i]).is_none()
        },
        arriving(k, program, annotations, compiled, b) matches Ok(there) && {
            let results = program.statements@[k]->Invocation_0.branches@[b].results@;
            &&& there.refs.len() == annotations@.refs.len() + results.len()
            &&& forall|i: int|
                0 <= i < annotations@.refs.len() ==> (#[trigger] there.refs[i]).0
                    == annotations@.refs[i].0
            &&& forall|r: int|
                0 <= r < results.len() ==> (#[trigger] there.refs[annotations@.refs.len() + r]).0
                    == results[r]
            &&& distinct_vars(there.refs)
        },
{
    let invocation = program.statements@[k]->Invocation_0;
    assert(program.statements.len() <= usize::MAX);
    let source = StatementIdx(k as usize);
    lemma_trace_distinct(states, n, program, metadata, config, type_sizes, k);
    assert(spec_invocation_refs(
        states[k].program_annotations@,
        source,
        invocation,
        program,
        type_sizes,
    ) is Ok);
    let here = states[k].program_annotations@[k]->Some_0;
    assert(distinct_vars(here.refs));
    lemma_take_args_takes_once(here.refs, invocation.args@);
    let leaving = StatementAnnotationsView {
        refs: annotations@.refs,
        function_id: annotations@.function_id,
        environment: compiled.environment,
    };
    let changes = branch_changes_views(compiled.results@);
    lemma_propagate_branches_records(
        states[k].program_annotations@,
        program,
        source,
        leaving,
        invocation.branches@,
        changes,
        invocation.branches@.len() as int,
    );
    let d = destination_of(source, invocation.branches@, b);
    assert(changes[b].refs.len() == compiled.results@[b].refs@.len());
    lemma_branch_keeps_bindings(leaving, source, d, invocation.branches@[b].results@, changes[b]);
    lemma_branch_keeps_distinct(leaving, source, d, invocation.branches@[b].results@, changes[b]);
}

/// A return that leaves a variable bound is refused for the first variable
/// that is left, wherever the returned values lie.
pub proof fn lemma_dangling_reference(
    state: Seq<Option<StatementAnnotationsView>>,
    statement_idx: StatementIdx,
    vars: Seq<VarId>,
    funcs: Seq<Function>,
    type_sizes: TypeSizeMap,
    here: StatementAnnotationsView,
    rest: Seq<(VarId, ReferenceValueView)>,
    taken: Seq<ReferenceValueView>,
)
    requires
        statement_idx.0 < state.len(),
        state[statement_idx.0 as int] == Some(here),
        spec_take_args(here.refs, vars) == Ok::<
            (Seq<(VarId, ReferenceValueView)>, Seq<ReferenceValueView>),
            VarId,
        >((rest, taken)),
        views_match_size(taken, type_sizes),
        rest.len() > 0,
    ensures
        spec_return_refs(state, statement_idx, vars, funcs, type_sizes) == Err::<
            Seq<ReferenceValueView>,
            CompilationError,
        >(CompilationError::DanglingReferences { statement_idx, var_id: rest[0].0 }),
{
}

/// An invocation with more than one branch, one of which leads to a
/// statement that does not align the allocation pointer, is refused for the
/// first such branch, where the branches before it are taken.
pub proof fn lemma_expected_branch_align(
    state: Seq<Option<StatementAnnotationsView>>,
    program: ResolvedProgram,
    source: StatementIdx,
    annotations: StatementAnnotationsView,
    branches: Seq<BranchInfo>,
    results: Seq<BranchChangesView>,
    b: int,
)
    requires
        results.len() == branches.len(),
        results.len() > 1,
        0 <= b < branches.len(),
        spec_propagate_branches(state, program, source, annotations, branches, results, b) is Ok,
        spec_destination_aligns(program, destination_of(source, branches, b)) == Ok::<
            bool,
            CompilationError,
        >(false),
    ensures
        spec_propagate_branches(
            state,
            program,
            source,
            annotations,
            branches,
            results,
            branches.len() as int,
        ) == Err::<Seq<Option<StatementAnnotationsView>>, CompilationError>(
            CompilationError::ExpectedBranchAlign {
                source_statement_idx: source,
                destination_statement_idx: destination_of(source, branches, b),
            },
        ),
{
    assert(spec_propagate_branches(state, program, source, annotations, branches, results, b + 1)
        == Err::<Seq<Option<StatementAnnotationsView>>, CompilationError>(
        CompilationError::ExpectedBranchAlign {
            source_statement_idx: source,
            destination_statement_idx: destination_of(source, branches, b),
        },
    ));
    lemma_propagate_branches_err(
        state,
        program,
        source,
        annotations,
        branches,
        results,
        b + 1,
        branches.len() as int,
    );
}

/// Whether the variable `var` is bound in `refs`.
pub open spec fn binds(refs: Seq<(VarId, ReferenceValueView)>, var: VarId) -> bool {
    index_of_var(refs, var).is_some()
}

/// A variable that has a binding is bound.
pub proof fn lemma_binds(refs: Seq<(VarId, ReferenceValueView)>, var: VarId, i: int)
    requires
        0 <= i < refs.len(),
        refs[i].0 == var,
    ensures
        binds(refs, var),
{
    lemma_index_of_var(refs, var);
}

/// Taking variables leaves every other variable bound.
pub proof fn lemma_take_args_leaves_others(
    refs: Seq<(VarId, ReferenceValueView)>,
    vars: Seq<VarId>,
    var: VarId,
)
    requires
        spec_take_args(refs, vars) is Ok,
        binds(refs, var),
        !vars.contains(var),
    ensures
        binds(spec_take_args(refs, vars)->Ok_0.0, var),
    decreases vars.len(),
{
    if vars.len() > 0 {
        let shorter = vars.drop_last();
        assert forall|k: int| 0 <= k < shorter.len() implies shorter[k] != var by {
            assert(vars[k] == shorter[k]);
        }
        lemma_take_args_leaves_others(refs, shorter, var);
        let before = spec_take_args(refs, shorter)->Ok_0.0;
        let i = index_of_var(before, vars.last())->Some_0;
        lemma_index_of_var(before, vars.last());
        lemma_index_of_var(before, var);
        let j = index_of_var(before, var)->Some_0;
        assert(vars[vars.len() - 1] == vars.last());
        assert(j != i);
        let after = before.remove(i);
        if j < i {
            assert(after[j] == before[j]);
            lemma_binds(after, var, j);
        } else {
            assert(after[j - 1] == before[j]);
            lemma_binds(after, var, j - 1);
        }
    }
}

/// The variables that a statement takes out of its environment: the
/// arguments of an invocation, the returned variables of a return.
pub open spec fn taken_vars(statement: Statement) -> Seq<VarId> {
    match statement {
        Statement::Invocation(invocation) => invocation.args@,
        Statement::Return(vars) => vars@,
    }
}

/// Whether `path` is a path through `program` that ends at a return: each
/// statement of it but the last is an invocation, whose branch of the
/// number in `branches` leads to the next.
pub open spec fn is_path(program: ResolvedProgram, path: Seq<int>, branches: Seq<int>) -> bool {
    &&& path.len() == branches.len() + 1
    &&& forall|i: int| 0 <= i < path.len() ==> 0 <= #[trigger] path[i] < program.statements@.len()
    &&& program.statements@[path.last()] is Return
    &&& forall|i: int|
        0 <= i < branches.len() ==> {
            &&& program.statements@[path[i]] matches Statement::Invocation(invocation)
            &&& 0 <= #[trigger] branches[i] < invocation.branches@.len()
            &&& destination_of(StatementIdx(path[i] as usize), invocation.branches@, branches[i]).0
                == path[i + 1]
        }
}

/// Whether the variable `var` is bound at the statement `k` at the end of
/// the pass `states`.
pub open spec fn bound_at(states: Seq<CompilationState>, k: int, var: VarId) -> bool {
    &&& 0 <= k < states.last().program_annotations@.len()
    &&& states.last().program_annotations@[k] matches Some(here) && binds(here.refs, var)
}

/// An invocation of a pass whose environment binds a variable that it does
/// not take brings the variable to the destination of each of its
/// branches.
pub proof fn lemma_trace_keeps_bound(
    states: Seq<CompilationState>,
    program: ResolvedProgram,
    metadata: Metadata,
    config: SierraToCasmConfig,
    type_sizes: TypeSizeMap,
    k: int,
    b: int,
    var: VarId,
)
    requires
        spec_trace(
            states,
            program.statements@.len() as int,
            program,
            metadata,
            config,
            type_sizes,
        ),
        0 <= k < program.statements@.len(),
        program.statements@[k] matches Statement::Invocation(invocation) && 0 <= b
            < invocation.branches@.len() && !invocation.args@.contains(var),
        bound_at(states, k, var),
    ensures
        bound_at(
            states,
            destination_of(
                StatementIdx(k as usize),
                program.statements@[k]->Invocation_0.branches@,
                b,
            ).0 as int,
            var,
        ),
{
    let n = program.statements@.len() as int;
    let invocation = program.statements@[k]->Invocation_0;
    assert(spec_step(states[k], states[k + 1], k, program, type_sizes, config));
    let (annotations, refs, compiled) = lemma_step_invocation(
        states[k],
        states[k + 1],
        k,
        program,
        type_sizes,
        config,
    );
    lemma_trace_invocation_linear(
        states,
        n,
        program,
        metadata,
        config,
        type_sizes,
        k,
        annotations,
        refs,
        compiled,
        b,
    );
    lemma_trace_records_branch(
        states,
        n,
        program,
        metadata,
        config,
        type_sizes,
        k,
        annotations,
        refs,
        compiled,
        b,
        n,
    );
    lemma_trace_extends(states, n, program, metadata, config, type_sizes, k, n);
    let here = states[k].program_annotations@[k]->Some_0;
    assert(states[n].program_annotations@[k] == Some(here));
    lemma_take_args_leaves_others(here.refs, invocation.args@, var);
    let rest = annotations@.refs;
    lemma_index_of_var(rest, var);
    let q = index_of_var(rest, var)->Some_0;
    let there = arriving(k, program, annotations, compiled, b)->Ok_0;
    assert(there.refs[q].0 == rest[q].0);
    lemma_binds(there.refs, var, q);
}

/// The environment and the code with which an invocation of a pass was
/// compiled.
pub proof fn lemma_step_invocation(
    before: CompilationState,
    after: CompilationState,
    k: int,
    program: ResolvedProgram,
    type_sizes: TypeSizeMap,
    config: SierraToCasmConfig,
) -> (r: (StatementAnnotations, Vec<ReferenceValue>, CompiledInvocation))
    requires
        spec_step(before, after, k, program, type_sizes, config),
        program.statements@[k] is Invocation,
    ensures
        invocation_compiled(before, after, k, program, type_sizes, r.0, r.1, r.2),
{
    reveal(spec_step);
    let invocation = program.statements@[k]->Invocation_0;
    choose|annotations: StatementAnnotations, refs: Vec<ReferenceValue>, compiled: CompiledInvocation|
        spec_prepared(
            before,
            StatementIdx(k as usize),
            invocation,
            program,
            type_sizes,
            annotations,
            refs,
        ) && #[trigger] spec_applied(
            before,
            after,
            StatementIdx(k as usize),
            invocation,
            annotations,
            refs,
            compiled,
            program,
            Ok(()),
        )
}

/// Linear use along a path of a pass: a variable that is bound at a
/// statement of a path to a return is taken by a later statement of the
/// path, or by that statement, and stays bound up to there. That it is
/// taken once is `lemma_path_taken_once`.
pub proof fn lemma_path_linear(
    states: Seq<CompilationState>,
    program: ResolvedProgram,
    metadata: Metadata,
    config: SierraToCasmConfig,
    type_sizes: TypeSizeMap,
    path: Seq<int>,
    branches: Seq<int>,
    start: int,
    var: VarId,
) -> (taker: int)
    requires
        spec_trace(
            states,
            program.statements@.len() as int,
            program,
            metadata,
            config,
            type_sizes,
        ),
        is_path(program, path, branches),
        0 <= start < path.len(),
        bound_at(states, path[start], var),
    ensures
        start <= taker < path.len(),
        taken_vars(program.statements@[path[taker]]).contains(var),
        forall|j: int|
            start <= j < taker ==> bound_at(states, #[trigger] path[j], var) && !taken_vars(
                program.statements@[path[j]],
            ).contains(var),
        bound_at(states, path[taker], var),
    decreases path.len() - start,
{
    let n = program.statements@.len() as int;
    let k = path[start];
    if taken_vars(program.statements@[k]).contains(var) {
        start
    } else {
        if start == path.len() - 1 {
            let vars = program.statements@[k]->Return_0@;
            lemma_trace_return_linear(states, n, program, metadata, config, type_sizes, k);
            lemma_trace_extends(states, n, program, metadata, config, type_sizes, k, n);
            let here = states[k].program_annotations@[k]->Some_0;
            assert(states[n].program_annotations@[k] == Some(here));
            lemma_take_args_leaves_others(here.refs, vars, var);
            assert(false);
            start
        } else {
            assert(0 <= branches[start]);
            lemma_trace_keeps_bound(
                states,
                program,
                metadata,
                config,
                type_sizes,
                k,
                branches[start],
                var,
            );
            let taker = lemma_path_linear(
                states,
                program,
                metadata,
                config,
                type_sizes,
                path,
                branches,
                start + 1,
                var,
            );
            assert forall|j: int| start <= j < taker implies bound_at(
                states,
                #[trigger] path[j],
                var,
            ) && !taken_vars(program.statements@[path[j]]).contains(var) by {
                if j == start {
                } else {
                }
            }
            taker
        }
    }
}

/// Taking variables binds none: a variable that is bound afterwards was
/// bound before.
pub proof fn lemma_take_args_binds_none(
    refs: Seq<(VarId, ReferenceValueView)>,
    vars: Seq<VarId>,
    var: VarId,
)
    requires
        spec_take_args(refs, vars) is Ok,
        binds(spec_take_args(refs, vars)->Ok_0.0, var),
    ensures
        binds(refs, var),
    decreases vars.len(),
{
    if vars.len() > 0 {
        let shorter = vars.drop_last();
        let before = spec_take_args(refs, shorter)->Ok_0.0;
        let i = index_of_var(before, vars.last())->Some_0;
        lemma_index_of_var(before, vars.last());
        let after = before.remove(i);
        lemma_index_of_var(after, var);
        let j = index_of_var(after, var)->Some_0;
        if j < i {
            assert(after[j] == before[j]);
            lemma_binds(before, var, j);
        } else {
            assert(after[j] == before[j + 1]);
            lemma_binds(before, var, j + 1);
        }
        lemma_take_args_binds_none(refs, shorter, var);
    }
}

/// A variable that is taken was bound.
pub proof fn lemma_take_args_needs_bound(
    refs: Seq<(VarId, ReferenceValueView)>,
    vars: Seq<VarId>,
    var: VarId,
)
    requires
        spec_take_args(refs, vars) is Ok,
        vars.contains(var),
    ensures
        binds(refs, var),
    decreases vars.len(),
{
    let shorter = vars.drop_last();
    let before = spec_take_args(refs, shorter)->Ok_0.0;
    if vars.last() == var {
        if shorter.len() > 0 {
            lemma_take_args_binds_none(refs, shorter, var);
        }
    } else {
        let k = choose|k: int| 0 <= k < vars.len() && vars[k] == var;
        assert(shorter[k] == var);
        lemma_take_args_needs_bound(refs, shorter, var);
    }
}

/// The results of the branch `b` of the invocation `k` of `program`.
pub open spec fn results_of(program: ResolvedProgram, k: int, b: int) -> Seq<VarId> {
    program.statements@[k]->Invocation_0.branches@[b].results@
}

/// In a pass, a statement takes no variable that its environment does not
/// bind.
pub proof fn lemma_trace_takes_bound(
    states: Seq<CompilationState>,
    program: ResolvedProgram,
    metadata: Metadata,
    config: SierraToCasmConfig,
    type_sizes: TypeSizeMap,
    k: int,
    var: VarId,
)
    requires
        spec_trace(
            states,
            program.statements@.len() as int,
            program,
            metadata,
            config,
            type_sizes,
        ),
        0 <= k < program.statements@.len(),
        taken_vars(program.statements@[k]).contains(var),
    ensures
        bound_at(states, k, var),
{
    let n = program.statements@.len() as int;
    lemma_trace_extends(states, n, program, metadata, config, type_sizes, k, n);
    assert(spec_step(states[k], states[k + 1], k, program, type_sizes, config));
    match program.statements@[k] {
        Statement::Return(vars) => {
            lemma_trace_return_linear(states, n, program, metadata, config, type_sizes, k);
            let here = states[k].program_annotations@[k]->Some_0;
            lemma_take_args_needs_bound(here.refs, vars@, var);
        },
        Statement::Invocation(invocation) => {
            let (annotations, refs, compiled) = lemma_step_invocation(
                states[k],
                states[k + 1],
                k,
                program,
                type_sizes,
                config,
            );
            assert(program.statements.len() <= usize::MAX);
            assert(spec_invocation_refs(
                states[k].program_annotations@,
                StatementIdx(k as usize),
                invocation,
                program,
                type_sizes,
            ) is Ok);
            let here = states[k].program_annotations@[k]->Some_0;
            lemma_take_args_needs_bound(here.refs, invocation.args@, var);
        },
    }
}

/// In a pass, a variable that an invocation takes, or that is not bound at
/// it, is not bound where a branch arrives that does not bind it.
pub proof fn lemma_trace_stays_unbound(
    states: Seq<CompilationState>,
    program: ResolvedProgram,
    metadata: Metadata,
    config: SierraToCasmConfig,
    type_sizes: TypeSizeMap,
    k: int,
    b: int,
    var: VarId,
)
    requires
        spec_trace(
            states,
            program.statements@.len() as int,
            program,
            metadata,
            config,
            type_sizes,
        ),
        0 <= k < program.statements@.len(),
        program.statements@[k] matches Statement::Invocation(invocation) && 0 <= b
            < invocation.branches@.len(),
        taken_vars(program.statements@[k]).contains(var) || !bound_at(states, k, var),
        !results_of(program, k, b).contains(var),
    ensures
        !bound_at(
            states,
            destination_of(
                StatementIdx(k as usize),
                program.statements@[k]->Invocation_0.branches@,
                b,
            ).0 as int,
            var,
        ),
{
    let n = program.statements@.len() as int;
    let invocation = program.statements@[k]->Invocation_0;
    assert(spec_step(states[k], states[k + 1], k, program, type_sizes, config));
    let (annotations, refs, compiled) = lemma_step_invocation(
        states[k],
        states[k + 1],
        k,
        program,
        type_sizes,
        config,
    );
    lemma_trace_invocation_linear(
        states,
        n,
        program,
        metadata,
        config,
        type_sizes,
        k,
        annotations,
        refs,
        compiled,
        b,
    );
    lemma_trace_records_branch(
        states,
        n,
        program,
        metadata,
        config,
        type_sizes,
        k,
        annotations,
        refs,
        compiled,
        b,
        n,
    );
    lemma_trace_extends(states, n, program, metadata, config, type_sizes, k, n);
    let here = states[k].program_annotations@[k]->Some_0;
    assert(states[n].program_annotations@[k] == Some(here));
    let rest = annotations@.refs;
    if binds(rest, var) {
        lemma_take_args_binds_none(here.refs, invocation.args@, var);
        let i = choose|i: int| 0 <= i < invocation.args@.len() && invocation.args@[i] == var;
        assert(index_of_var(rest, invocation.args@[i]).is_none());
    }
    let there = arriving(k, program, annotations, compiled, b)->Ok_0;
    let results = results_of(program, k, b);
    if binds(there.refs, var) {
        lemma_index_of_var(there.refs, var);
        let q = index_of_var(there.refs, var)->Some_0;
        if q < rest.len() {
            assert(there.refs[q].0 == rest[q].0);
            lemma_binds(rest, var, q);
        } else {
            assert(there.refs[rest.len() + (q - rest.len())].0 == results[q - rest.len()]);
        }
    }
}

/// A variable is taken once: along a path of a pass, a variable that a
/// statement takes is neither bound at nor taken by a later statement, as
/// long as no branch of the path binds it again.
pub proof fn lemma_path_taken_once(
    states: Seq<CompilationState>,
    program: ResolvedProgram,
    metadata: Metadata,
    config: SierraToCasmConfig,
    type_sizes: TypeSizeMap,
    path: Seq<int>,
    branches: Seq<int>,
    taker: int,
    later: int,
    var: VarId,
)
    requires
        spec_trace(
            states,
            program.statements@.len() as int,
            program,
            metadata,
            config,
            type_sizes,
        ),
        is_path(program, path, branches),
        0 <= taker < later < path.len(),
        taken_vars(program.statements@[path[taker]]).contains(var),
        forall|i: int|
            taker <= i < later ==> !results_of(program, path[i], #[trigger] branches[i]).contains(
                var,
            ),
    ensures
        !bound_at(states, path[later], var),
        !taken_vars(program.statements@[path[later]]).contains(var),
    decreases later - taker,
{
    let previous = later - 1;
    assert(0 <= branches[previous]);
    if previous > taker {
        lemma_path_taken_once(
            states,
            program,
            metadata,
            config,
            type_sizes,
            path,
            branches,
            taker,
            previous,
            var,
        );
    }
    lemma_trace_stays_unbound(
        states,
        program,
        metadata,
        config,
        type_sizes,
        path[previous],
        branches[previous],
        var,
    );
    if taken_vars(program.statements@[path[later]]).contains(var) {
        lemma_trace_takes_bound(
            states,
            program,
            metadata,
            config,
            type_sizes,
            path[later],
            var,
        );
    }
}

/// The offsets of an invocation: the state grows by the size and by the
/// number of the instructions of the code, and the record of the statement
/// holds the offset and the number of instructions behind the code.
pub proof fn lemma_invocation_offsets(
    before: CompilationState,
    after: CompilationState,
    k: int,
    program: ResolvedProgram,
    type_sizes: TypeSizeMap,
    annotations: StatementAnnotations,
    refs: Vec<ReferenceValue>,
    compiled: CompiledInvocation,
)
    requires
        invocation_compiled(before, after, k, program, type_sizes, annotations, refs, compiled),
    ensures
        after.program_offset == before.program_offset + code_size(compiled.instructions@),
        after.instructions@.len() == before.instructions@.len() + compiled.instructions@.len(),
        after.sierra_statement_info@.len() == before.sierra_statement_info@.len() + 1,
        after.sierra_statement_info@.last().code_offset == after.program_offset,
        after.sierra_statement_info@.last().instruction_idx == after.instructions@.len(),
{
    assert(after.instructions.len() <= usize::MAX);
}

/// The offsets of a return: the state grows by one word and one
/// instruction, and the record of the statement holds the offset and the
/// number of instructions behind the `ret`.
pub proof fn lemma_return_offsets(
    before: CompilationState,
    after: CompilationState,
    statement_idx: StatementIdx,
    vars: Seq<VarId>,
    program: ResolvedProgram,
    type_sizes: TypeSizeMap,
)
    requires
        spec_compiled_return(before, after, statement_idx, vars, program, type_sizes, Ok(())),
    ensures
        after.program_offset == before.program_offset + 1,
        after.instructions@.len() == before.instructions@.len() + 1,
        after.sierra_statement_info@.len() == before.sierra_statement_info@.len() + 1,
        after.sierra_statement_info@.last().code_offset == after.program_offset,
        after.sierra_statement_info@.last().instruction_idx == after.instructions@.len(),
{
}

/// The offsets of the end: the compiled program holds the records of the
/// state and behind them the end mark with the offset and the number of
/// instructions of the state, and as many instructions as the state.
pub proof fn lemma_end_offsets(
    state: CompilationState,
    program: ResolvedProgram,
    type_sizes: TypeSizeMap,
    config: SierraToCasmConfig,
    compiled: CairoProgram,
)
    requires
        spec_finish(state, program, type_sizes, config, Ok(compiled)),
    ensures
        compiled.debug_info.sierra_statement_info@.len() == state.sierra_statement_info@.len() + 1,
        compiled.debug_info.sierra_statement_info@.drop_last() == state.sierra_statement_info@,
        compiled.debug_info.sierra_statement_info@.last().code_offset == state.program_offset,
        compiled.debug_info.sierra_statement_info@.last().instruction_idx
            == state.instructions@.len(),
        compiled.debug_info.sierra_statement_info@.last().additional_kind_info is EndMarker,
        compiled.instructions@.len() == state.instructions@.len(),
{
    reveal(spec_finish);
    let info = compiled.debug_info.sierra_statement_info@;
    assert(info.drop_last() =~= state.sierra_statement_info@);
    crate::determinism::lemma_relocate_len(
        state.instructions@,
        state.relocations@,
        state.relocations@.len() as int,
        crate::compiler::code_offsets(info),
        compiled.consts_info@,
    );
}

/// A return that leaves a variable bound is refused for the first variable
/// that is left, and leaves the state as it is.
pub proof fn lemma_return_dangling(
    before: CompilationState,
    after: CompilationState,
    statement_idx: StatementIdx,
    vars: Seq<VarId>,
    program: ResolvedProgram,
    type_sizes: TypeSizeMap,
    r: Result<(), CompilationError>,
    here: StatementAnnotationsView,
    rest: Seq<(VarId, ReferenceValueView)>,
    taken: Seq<ReferenceValueView>,
)
    requires
        spec_compiled_return(before, after, statement_idx, vars, program, type_sizes, r),
        statement_idx.0 < before.program_annotations@.len(),
        before.program_annotations@[statement_idx.0 as int] == Some(here),
        spec_take_args(here.refs, vars) == Ok::<
            (Seq<(VarId, ReferenceValueView)>, Seq<ReferenceValueView>),
            VarId,
        >((rest, taken)),
        views_match_size(taken, type_sizes),
        rest.len() > 0,
    ensures
        r == Err::<(), CompilationError>(
            CompilationError::DanglingReferences { statement_idx, var_id: rest[0].0 },
        ),
        after == before,
{
    lemma_dangling_reference(
        before.program_annotations@,
        statement_idx,
        vars,
        program.funcs@,
        type_sizes,
        here,
        rest,
        taken,
    );
}

/// Code with more than one branch, one of which leads to a statement that
/// does not align the allocation pointer, is refused for the first such
/// branch, where the code can be added and the branches before it are
/// taken.
pub proof fn lemma_applied_expected_align(
    before: CompilationState,
    after: CompilationState,
    statement_idx: StatementIdx,
    invocation: Invocation,
    annotations: StatementAnnotations,
    refs: Vec<ReferenceValue>,
    compiled: CompiledInvocation,
    program: ResolvedProgram,
    r: Result<(), CompilationError>,
    b: int,
)
    requires
        spec_applied(
            before,
            after,
            statement_idx,
            invocation,
            annotations,
            refs,
            compiled,
            program,
            r,
        ),
        spec_results_shape(invocation, compiled.results@),
        before.program_offset + code_size(compiled.instructions@) <= usize::MAX,
        rebase_fits(compiled.relocations@, before.instructions@.len() as int),
        invocation.branches@.len() > 1,
        0 <= b < invocation.branches@.len(),
        spec_propagate_branches(
            before.program_annotations@,
            program,
            statement_idx,
            StatementAnnotationsView {
                refs: annotations@.refs,
                function_id: annotations@.function_id,
                environment: compiled.environment,
            },
            invocation.branches@,
            branch_changes_views(compiled.results@),
            b,
        ) is Ok,
        spec_destination_aligns(program, destination_of(statement_idx, invocation.branches@, b))
            == Ok::<bool, CompilationError>(false),
    ensures
        r == Err::<(), CompilationError>(
            CompilationError::ExpectedBranchAlign {
                source_statement_idx: statement_idx,
                destination_statement_idx: destination_of(
                    statement_idx,
                    invocation.branches@,
                    b,
                ),
            },
        ),
{
    lemma_expected_branch_align(
        before.program_annotations@,
        program,
        statement_idx,
        StatementAnnotationsView {
            refs: annotations@.refs,
            function_id: annotations@.function_id,
            environment: compiled.environment,
        },
        invocation.branches@,
        branch_changes_views(compiled.results@),
        b,
    );
}

/// Code that is out of its bounds ends the pass: no further statement is
/// compiled, the next fails with `CodeSizeLimitExceeded`, and so does the
/// end of the pass, whatever the constants of the program are.
pub proof fn lemma_over_budget(
    state: CompilationState,
    k: int,
    program: ResolvedProgram,
    type_sizes: TypeSizeMap,
    config: SierraToCasmConfig,
)
    requires
        state.program_offset > config.max_bytecode_size,
    ensures
        forall|after: CompilationState| !spec_step(state, after, k, program, type_sizes, config),
        forall|e: CompilationError| #[trigger]
            spec_step_fails(state, k, program, type_sizes, config, e) ==> e
                == CompilationError::CodeSizeLimitExceeded,
        forall|r: Result<CairoProgram, CompilationError>| #[trigger]
            spec_finish(state, program, type_sizes, config, r) ==> r == Err::<
                CairoProgram,
                CompilationError,
            >(CompilationError::CodeSizeLimitExceeded),
{
    reveal(spec_step);
    reveal(spec_step_fails);
    reveal(spec_finish);
}

} // verus!
