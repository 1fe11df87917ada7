//! Relocations: constants of instructions that are known only when the
//! code and the constant segments are laid out. A relocation names an
//! instruction and a target; it adds the offset of the target to the
//! constant of the instruction, less the offset of the instruction itself
//! where the instruction counts from itself.

use vstd::prelude::*;
use crate::bigint::bigint_value;
use crate::casm::Instruction;
use crate::casm::InstructionKind;
use crate::casm::code_offset;
use crate::casm::code_size;
use crate::casm::lemma_code_size_take;
use crate::consts::ConstsInfo;
use crate::consts::ConstsInfoView;
use crate::consts::const_offsets_get;
use crate::consts::key_position;
use crate::consts::lemma_key_position;
use crate::consts::lemma_key_position_views;
use crate::consts::segments_get;
use crate::consts::segments_model;
use crate::ids::StatementIdx;
use crate::ids::TypeId;

verus! {

/// What the constant of an instruction refers to.
#[derive(Clone, Copy, Debug, PartialEq, Eq, Structural)]
pub enum Relocation {
    /// The code of a statement.
    RelativeStatementId(StatementIdx),
    /// The first value of a constant segment.
    SegmentStart(u32),
    /// The constant of a type within a constant segment.
    ConstStart(u32, TypeId),
}

/// A relocation and the instruction that it applies to.
#[derive(Clone, Copy, Debug, PartialEq, Eq, Structural)]
pub struct RelocationEntry {
    pub instruction_idx: usize,
    pub relocation: Relocation,
}

/// The offset that a relocation refers to, in words from the start of the
/// code: the offset of a statement is the one recorded for it; a constant
/// segment starts one word behind its offset from the end of the code, which
/// is the last of the recorded offsets; a constant lies at its offset within
/// its segment. There is none where the statement, the segment or the
/// constant does not exist.
pub open spec fn spec_target(
    relocation: Relocation,
    statement_offsets: Seq<usize>,
    consts_info: ConstsInfoView,
) -> Option<int> {
    match relocation {
        Relocation::RelativeStatementId(idx) => if idx.0 < statement_offsets.len() {
            Some(statement_offsets[idx.0 as int] as int)
        } else {
            None
        },
        Relocation::SegmentStart(id) => match key_position(consts_info.segments, id) {
            Some(i) => if statement_offsets.len() > 0 {
                Some(statement_offsets.last() + consts_info.segments[i].1.segment_offset + 1)
            } else {
                None
            },
            None => None,
        },
        Relocation::ConstStart(id, ty) => match key_position(consts_info.segments, id) {
            Some(i) => if statement_offsets.len() > 0
                && consts_info.segments[i].1.const_offset.contains_key(ty.0) {
                Some(
                    statement_offsets.last() + consts_info.segments[i].1.segment_offset + 1
                        + consts_info.segments[i].1.const_offset[ty.0],
                )
            } else {
                None
            },
            None => None,
        },
    }
}

/// Whether the relocation can be applied: its instruction exists and has a
/// constant, and its target exists.
pub open spec fn entry_ok(
    entry: RelocationEntry,
    instructions: Seq<Instruction>,
    statement_offsets: Seq<usize>,
    consts_info: ConstsInfoView,
) -> bool {
    &&& entry.instruction_idx < instructions.len()
    &&& instructions[entry.instruction_idx as int].body.immediate_slot().is_some()
    &&& spec_target(entry.relocation, statement_offsets, consts_info).is_some()
}

/// What a relocation to the offset `target` adds to the constant of the
/// `i`-th of the instructions: the distance from the instruction to the
/// target where the constant of the instruction counts from the instruction
/// itself, else the target.
pub open spec fn spec_distance(instructions: Seq<Instruction>, i: int, target: int) -> int {
    if 0 <= i < instructions.len() && instructions[i].body.spec_pc_relative() {
        target - code_size(instructions.take(i))
    } else {
        target
    }
}

/// What the first `n` of the relocations add to the constant of the
/// instruction `i`: for each that applies to it, the distance to its
/// target.
pub open spec fn total_shift(
    relocations: Seq<RelocationEntry>,
    n: int,
    i: int,
    instructions: Seq<Instruction>,
    statement_offsets: Seq<usize>,
    consts_info: ConstsInfoView,
) -> int
    decreases n,
{
    if n <= 0 || n > relocations.len() {
        0
    } else {
        total_shift(relocations, n - 1, i, instructions, statement_offsets, consts_info) + (
        if relocations[n - 1].instruction_idx == i {
            spec_distance(
                instructions,
                i,
                spec_target(relocations[n - 1].relocation, statement_offsets, consts_info).unwrap(),
            )
        } else {
            0
        })
    }
}

/// The instruction `instruction` with `delta` added to the constant in its
/// immediate slot.
pub open spec fn spec_patch(instruction: Instruction, delta: i128) -> Instruction {
    Instruction {
        body: instruction.body.spec_shift_immediate(delta),
        inc_ap: instruction.inc_ap,
        hints: instruction.hints,
    }
}

/// The instructions `before` with the first `n` of the relocations
/// applied, in order: each adds to the constant of its instruction the
/// distance to its target. A relocation that cannot be applied changes
/// nothing.
pub open spec fn spec_relocate(
    before: Seq<Instruction>,
    relocations: Seq<RelocationEntry>,
    n: int,
    statement_offsets: Seq<usize>,
    consts_info: ConstsInfoView,
) -> Seq<Instruction>
    decreases n,
{
    if n <= 0 || n > relocations.len() {
        before
    } else {
        let done = spec_relocate(before, relocations, n - 1, statement_offsets, consts_info);
        let entry = relocations[n - 1];
        if entry_ok(entry, before, statement_offsets, consts_info) && entry.instruction_idx
            < done.len() {
            done.update(
                entry.instruction_idx as int,
                spec_patch(
                    done[entry.instruction_idx as int],
                    spec_distance(
                        before,
                        entry.instruction_idx as int,
                        spec_target(entry.relocation, statement_offsets, consts_info).unwrap(),
                    ) as i128,
                ),
            )
        } else {
            done
        }
    }
}

/// Whether `after` is `before` with the first `n` of the relocations
/// applied: each instruction keeps its flag, its hints and its size; one
/// that no relocation applies to stays as it is; the constant of any other
/// grew by what the relocations add to it.
pub open spec fn relocated(
    before: Seq<Instruction>,
    after: Seq<Instruction>,
    relocations: Seq<RelocationEntry>,
    n: int,
    statement_offsets: Seq<usize>,
    consts_info: ConstsInfoView,
) -> bool {
    &&& after.len() == before.len()
    &&& forall|i: int|
        0 <= i < before.len() ==> {
            &&& (#[trigger] after[i]).inc_ap == before[i].inc_ap
            &&& after[i].hints == before[i].hints
            &&& after[i].body.spec_op_size() == before[i].body.spec_op_size()
            &&& after[i].body.spec_pc_relative() == before[i].body.spec_pc_relative()
            &&& (forall|k: int| 0 <= k < n ==> (#[trigger] relocations[k]).instruction_idx != i)
                ==> after[i] == before[i]
            &&& match before[i].body.immediate_slot() {
                Some(v) => {
                    &&& after[i].body.immediate_slot() matches Some(v2)
                    &&& bigint_value(v2) == bigint_value(v) + total_shift(
                        relocations,
                        n,
                        i,
                        before,
                        statement_offsets,
                        consts_info,
                    )
                    &&& after[i].body == before[i].body.with_immediate(v2)
                },
                None => after[i].body == before[i].body,
            }
        }
}

/// The offset that a relocation refers to.
pub fn target_of(relocation: &Relocation, statement_offsets: &Vec<usize>, consts_info: &ConstsInfo) -> (r:
    Option<i128>)
    ensures
        match spec_target(*relocation, statement_offsets@, consts_info@) {
            Some(t) => r == Some(t as i128) && 0 <= t <= 4 * (usize::MAX as int),
            None => r is None,
        },
{
    proof {
        match relocation {
            Relocation::RelativeStatementId(_) => {},
            Relocation::SegmentStart(id) => {
                lemma_key_position_views(segments_model(consts_info.segments), *id);
                lemma_key_position(segments_model(consts_info.segments), *id);
            },
            Relocation::ConstStart(id, _) => {
                lemma_key_position_views(segments_model(consts_info.segments), *id);
                lemma_key_position(segments_model(consts_info.segments), *id);
            },
        }
    }
    match relocation {
        Relocation::RelativeStatementId(idx) => {
            if idx.0 < statement_offsets.len() {
                Some(statement_offsets[idx.0] as i128)
            } else {
                None
            }
        },
        Relocation::SegmentStart(id) => {
            match segments_get(&consts_info.segments, *id) {
                None => None,
                Some(segment) => {
                    if statement_offsets.len() > 0 {
                        let end: i128 = statement_offsets[statement_offsets.len() - 1] as i128;
                        Some(end + (segment.segment_offset as i128) + 1)
                    } else {
                        None
                    }
                },
            }
        },
        Relocation::ConstStart(id, ty) => {
            match segments_get(&consts_info.segments, *id) {
                None => None,
                Some(segment) => {
                    if statement_offsets.len() > 0 {
                        match const_offsets_get(&segment.const_offset, ty.0) {
                            None => None,
                            Some(offset) => {
                                let end: i128 = statement_offsets[statement_offsets.len()
                                    - 1] as i128;
                                Some(end + (segment.segment_offset as i128) + 1 + (offset as i128))
                            },
                        }
                    } else {
                        None
                    }
                },
            }
        },
    }
}

/// Applies the relocations `relocations`, in order, to the instructions.
/// Returns the index of the first relocation that cannot be applied, if
/// there is one; the instructions are then of no use.
pub fn relocate_instructions(
    relocations: &Vec<RelocationEntry>,
    statement_offsets: &Vec<usize>,
    consts_info: &ConstsInfo,
    instructions: &mut Vec<Instruction>,
) -> (r: Result<(), usize>)
    requires
        code_size(old(instructions)@) <= usize::MAX,
    ensures
        match r {
            Ok(()) => {
                &&& forall|k: int|
                    0 <= k < relocations@.len() ==> entry_ok(
                        #[trigger] relocations@[k],
                        old(instructions)@,
                        statement_offsets@,
                        consts_info@,
                    )
                &&& final(instructions)@ == spec_relocate(
                    old(instructions)@,
                    relocations@,
                    relocations@.len() as int,
                    statement_offsets@,
                    consts_info@,
                )
                &&& relocated(
                    old(instructions)@,
                    final(instructions)@,
                    relocations@,
                    relocations@.len() as int,
                    statement_offsets@,
                    consts_info@,
                )
            },
            Err(k) => {
                &&& k < relocations@.len()
                &&& !entry_ok(
                    relocations@[k as int],
                    old(instructions)@,
                    statement_offsets@,
                    consts_info@,
                )
                &&& forall|j: int|
                    0 <= j < k ==> entry_ok(
                        #[trigger] relocations@[j],
                        old(instructions)@,
                        statement_offsets@,
                        consts_info@,
                    )
                &&& final(instructions)@.len() == old(instructions)@.len()
            },
        },
{
    let ghost before = instructions@;
    let mut k: usize = 0;
    while k < relocations.len()
        invariant
            k <= relocations.len(),
            before == old(instructions)@,
            code_size(before) <= usize::MAX,
            forall|j: int|
                0 <= j < k ==> entry_ok(
                    #[trigger] relocations@[j],
                    before,
                    statement_offsets@,
                    consts_info@,
                ),
            instructions@ == spec_relocate(
                before,
                relocations@,
                k as int,
                statement_offsets@,
                consts_info@,
            ),
            relocated(
                before,
                instructions@,
                relocations@,
                k as int,
                statement_offsets@,
                consts_info@,
            ),
        decreases relocations.len() - k,
    {
        let entry = relocations[k];
        let idx: usize = entry.instruction_idx;
        if idx >= instructions.len() {
            return Err(k);
        }
        if !instructions[idx].body.has_immediate_slot() {
            assert(before[idx as int].body.immediate_slot().is_none());
            return Err(k);
        }
        let target: i128 = match target_of(&entry.relocation, statement_offsets, consts_info) {
            None => {
                return Err(k);
            },
            Some(target) => target,
        };
        proof {
            lemma_code_size_take(before, idx as int);
            assert forall|p: int| 0 <= p <= before.len() implies code_size(instructions@.take(p))
                == code_size(before.take(p)) by {
                lemma_same_sizes(before, instructions@, p);
            }
        }
        let offset: usize = match code_offset(instructions, idx) {
            None => {
                assert(false);
                return Err(k);
            },
            Some(offset) => offset,
        };
        let delta: i128 = if instructions[idx].body.pc_relative() {
            target - (offset as i128)
        } else {
            target
        };
        let ghost current = instructions@;
        let mut taken = Instruction::new(InstructionKind::Ret, false);
        std::mem::swap(&mut instructions[idx], &mut taken);
        let mut patched = Instruction {
            body: taken.body.shift_immediate(delta),
            inc_ap: taken.inc_ap,
            hints: taken.hints,
        };
        std::mem::swap(&mut instructions[idx], &mut patched);
        assert(instructions@ =~= current.update(idx as int, spec_patch(current[idx as int], delta)));
        proof {
            assert forall|i: int| 0 <= i < before.len() implies total_shift(
                relocations@,
                k + 1,
                i,
                before,
                statement_offsets@,
                consts_info@,
            ) == total_shift(relocations@, k as int, i, before, statement_offsets@, consts_info@)
                + (if i == idx {
                delta as int
            } else {
                0
            }) by {}
            assert forall|i: int| 0 <= i < before.len() implies {
                &&& (#[trigger] instructions@[i]).inc_ap == before[i].inc_ap
                &&& instructions@[i].hints == before[i].hints
                &&& instructions@[i].body.spec_op_size() == before[i].body.spec_op_size()
                &&& instructions@[i].body.spec_pc_relative() == before[i].body.spec_pc_relative()
                &&& (forall|q: int|
                    0 <= q < k + 1 ==> (#[trigger] relocations@[q]).instruction_idx != i)
                    ==> instructions@[i] == before[i]
                &&& match before[i].body.immediate_slot() {
                    Some(v) => {
                        &&& instructions@[i].body.immediate_slot() matches Some(v2)
                        &&& bigint_value(v2) == bigint_value(v) + total_shift(
                            relocations@,
                            k + 1,
                            i,
                            before,
                            statement_offsets@,
                            consts_info@,
                        )
                        &&& instructions@[i].body == before[i].body.with_immediate(v2)
                    },
                    None => instructions@[i].body == before[i].body,
                }
            } by {
                assert(current[i].inc_ap == before[i].inc_ap);
                if i != idx {
                    assert(instructions@[i] == current[i]);
                    if forall|q: int|
                        0 <= q < k + 1 ==> (#[trigger] relocations@[q]).instruction_idx != i {
                        assert(forall|q: int|
                            0 <= q < k ==> (#[trigger] relocations@[q]).instruction_idx != i);
                    }
                } else {
                    assert(relocations@[k as int].instruction_idx == i);
                }
            }
        }
        k += 1;
    }
    Ok(())
}

/// Instructions of the same sizes have prefixes of the same size.
pub proof fn lemma_same_sizes(a: Seq<Instruction>, b: Seq<Instruction>, p: int)
    requires
        a.len() == b.len(),
        0 <= p <= a.len(),
        forall|i: int|
            0 <= i < a.len() ==> (#[trigger] b[i]).body.spec_op_size() == a[i].body.spec_op_size(),
    ensures
        code_size(b.take(p)) == code_size(a.take(p)),
    decreases p,
{
    if p > 0 {
        lemma_same_sizes(a, b, p - 1);
        assert(a.take(p).drop_last() =~= a.take(p - 1));
        assert(b.take(p).drop_last() =~= b.take(p - 1));
    }
}

} // verus!
