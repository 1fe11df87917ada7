//! The bytecode of a compiled program: the words of the instructions, and
//! behind them the constant segments, each behind a `ret`.

use vstd::prelude::*;
use num_bigint::BigInt;
use cairo_lang_casm::hints::Hint;
use crate::bigint::clone_bigints;
use crate::casm::Instruction;
use crate::casm::InstructionKind;
use crate::casm::code_size;
use crate::casm::instruction_encoding;
use crate::casm::lemma_code_size_add;
use crate::casm::lemma_code_size_take;
use crate::compiler::CairoProgram;
use crate::consts::ConstSegment;
use crate::consts::ConstSegmentView;
use crate::consts::offset_before;
use crate::consts::segment_views;
use crate::consts::segments_model;
use crate::consts::segments_values;
use crate::laws::lemma_instruction_boundaries;

verus! {

/// The bytecode of a program, and the hints by the offset of their
/// instruction in it.
#[derive(Debug, PartialEq, Eq, Clone)]
pub struct AssembledCairoProgram {
    /// The words of the program.
    pub bytecode: Vec<BigInt>,
    /// The hints of each instruction that has some, with the offset of the
    /// instruction in `bytecode`.
    pub hints: Vec<(usize, Vec<Hint>)>,
}

/// The words of the instructions, in order.
pub open spec fn encoded(instructions: Seq<Instruction>) -> Seq<BigInt>
    decreases instructions.len(),
{
    if instructions.len() == 0 {
        Seq::empty()
    } else {
        encoded(instructions.drop_last()) + instruction_encoding(
            instructions.last().body,
            instructions.last().inc_ap,
        )
    }
}

/// The words of the segments, in order: for each, the word `terminator` and
/// the values of the segment.
pub open spec fn segment_words(segments: Seq<(u32, ConstSegment)>, terminator: BigInt) -> Seq<BigInt>
    decreases segments.len(),
{
    if segments.len() == 0 {
        Seq::empty()
    } else {
        segment_words(segments.drop_last(), terminator) + seq![terminator]
            + segments.last().1.values@
    }
}

/// The hints of the instructions that have some, in order, each with the
/// size of the instructions before its instruction.
pub open spec fn hint_entries(instructions: Seq<Instruction>) -> Seq<(nat, Seq<Hint>)>
    decreases instructions.len(),
{
    if instructions.len() == 0 {
        Seq::empty()
    } else if instructions.last().hints@.len() > 0 {
        hint_entries(instructions.drop_last()).push(
            (code_size(instructions.drop_last()), instructions.last().hints@),
        )
    } else {
        hint_entries(instructions.drop_last())
    }
}

/// The hints of an assembled program, as mathematical values.
pub open spec fn hints_view(hints: Seq<(usize, Vec<Hint>)>) -> Seq<(nat, Seq<Hint>)> {
    hints.map_values(|h: (usize, Vec<Hint>)| (h.0 as nat, h.1@))
}

/// Whether each of the instructions can be encoded.
pub open spec fn all_encodable(instructions: Seq<Instruction>) -> bool {
    forall|i: int| 0 <= i < instructions.len() ==> (#[trigger] instructions[i]).spec_encodable()
}

/// Whether each of the instructions is encoded in as many words as its
/// size.
pub open spec fn sized_as_encoded(instructions: Seq<Instruction>) -> bool {
    forall|i: int|
        0 <= i < instructions.len() ==> instruction_encoding(
            (#[trigger] instructions[i]).body,
            instructions[i].inc_ap,
        ).len() == instructions[i].body.spec_op_size()
}

/// Whether none of the instructions has a hint.
pub open spec fn no_hints(instructions: Seq<Instruction>) -> bool {
    forall|i: int| 0 <= i < instructions.len() ==> (#[trigger] instructions[i]).hints@.len() == 0
}

/// The words of the segments are one more than their values.
pub proof fn lemma_segment_words_len(segments: Seq<(u32, ConstSegment)>, terminator: BigInt)
    ensures
        segment_words(segments, terminator).len() == offset_before(
            segment_views(segments),
            segments.len() as int,
        ),
    decreases segments.len(),
{
    if segments.len() > 0 {
        lemma_segment_words_len(segments.drop_last(), terminator);
        lemma_offset_before_drop_last(segment_views(segments), segments.len() - 1);
        assert(segment_views(segments).drop_last() =~= segment_views(segments.drop_last()));
    }
}

/// The size of the first `k` segments does not depend on the segments
/// behind them.
pub proof fn lemma_offset_before_drop_last(s: Seq<(u32, ConstSegmentView)>, k: int)
    requires
        0 <= k < s.len(),
    ensures
        offset_before(s.drop_last(), k) == offset_before(s, k),
    decreases k,
{
    if k > 0 {
        lemma_offset_before_drop_last(s, k - 1);
    }
}

/// Appends the words of `instructions` to `bytecode` and their hints to
/// `hints`.
fn assemble_instructions(
    instructions: &[Instruction],
    bytecode: &mut Vec<BigInt>,
    hints: &mut Vec<(usize, Vec<Hint>)>,
    Ghost(before): Ghost<Seq<Instruction>>,
)
    requires
        all_encodable(instructions@),
        all_encodable(before),
        old(bytecode)@ == encoded(before),
        old(bytecode)@.len() == code_size(before),
        hints_view(old(hints)@) == hint_entries(before),
        sized_as_encoded(before),
    ensures
        final(bytecode)@ == encoded(before + instructions@),
        final(bytecode)@.len() == code_size(before + instructions@),
        hints_view(final(hints)@) == hint_entries(before + instructions@),
        all_encodable(before + instructions@),
        sized_as_encoded(before + instructions@),
        sized_as_encoded(instructions@),
{
    let mut i: usize = 0;
    assert(before + instructions@.take(0) =~= before);
    while i < instructions.len()
        invariant
            i <= instructions@.len(),
            all_encodable(instructions@),
            all_encodable(before),
            bytecode@ == encoded(before + instructions@.take(i as int)),
            bytecode@.len() == code_size(before + instructions@.take(i as int)),
            hints_view(hints@) == hint_entries(before + instructions@.take(i as int)),
            sized_as_encoded(before + instructions@.take(i as int)),
        decreases instructions@.len() - i,
    {
        let instruction = &instructions[i];
        let ghost done = before + instructions@.take(i as int);
        proof {
            assert((before + instructions@.take(i + 1)).drop_last() =~= done);
            assert((before + instructions@.take(i + 1)).last() == instructions@[i as int]);
        }
        if instruction.hints.len() > 0 {
            let ghost entries = hints_view(hints@);
            let copy = instruction.hints.clone();
            assert(copy@ =~= instruction.hints@);
            hints.push((bytecode.len(), copy));
            assert(hints_view(hints@) =~= entries.push((code_size(done), instruction.hints@)));
        }
        let mut words = instruction.encode();
        proof {
            let longer = before + instructions@.take(i + 1);
            assert forall|j: int| 0 <= j < longer.len() implies instruction_encoding(
                (#[trigger] longer[j]).body,
                longer[j].inc_ap,
            ).len() == longer[j].body.spec_op_size() by {
                if j < done.len() {
                    assert(longer[j] == done[j]);
                }
            }
        }
        bytecode.append(&mut words);
        i += 1;
    }
    assert(instructions@.take(i as int) =~= instructions@);
    assert forall|j: int| 0 <= j < instructions@.len() implies instruction_encoding(
        (#[trigger] instructions@[j]).body,
        instructions@[j].inc_ap,
    ).len() == instructions@[j].body.spec_op_size() by {
        assert((before + instructions@)[before.len() + j] == instructions@[j]);
    }
    assert forall|j: int| 0 <= j < (before + instructions@).len() implies (#[trigger] (before
        + instructions@)[j]).spec_encodable() by {
        if j < before.len() {
            assert((before + instructions@)[j] == before[j]);
        } else {
            assert((before + instructions@)[j] == instructions@[j - before.len()]);
        }
    }
}

impl CairoProgram {
    /// Whether the program can be assembled: each of its instructions can
    /// be encoded.
    pub fn can_assemble(&self) -> (r: bool)
        ensures
            r == all_encodable(self.instructions@),
    {
        let mut i: usize = 0;
        while i < self.instructions.len()
            invariant
                i <= self.instructions@.len(),
                forall|j: int| 0 <= j < i ==> (#[trigger] self.instructions@[j]).spec_encodable(),
            decreases self.instructions@.len() - i,
        {
            if !self.instructions[i].encodable() {
                return false;
            }
            i += 1;
        }
        true
    }

    /// The bytecode of the program: the words of its instructions, then for
    /// each constant segment the word of `ret` and the values of the
    /// segment.
    pub fn assemble(&self) -> (r: AssembledCairoProgram)
        requires
            all_encodable(self.instructions@),
        ensures
            r.bytecode@ == encoded(self.instructions@) + segment_words(
                segments_model(self.consts_info.segments),
                instruction_encoding(InstructionKind::Ret, false)[0],
            ),
            hints_view(r.hints@) == hint_entries(self.instructions@),
            r.bytecode@.len() == code_size(self.instructions@) + offset_before(
                self.consts_info@.segments,
                self.consts_info@.segments.len() as int,
            ),
            self.consts_info@.well_formed() ==> r.bytecode@.len() == self.spec_size(),
            forall|k: int|
                0 <= k < self.instructions@.len() ==> code_size(self.instructions@.take(k + 1))
                    <= r.bytecode@.len() && r.bytecode@.subrange(
                    code_size(self.instructions@.take(k)) as int,
                    code_size(self.instructions@.take(k + 1)) as int,
                ) == #[trigger] instruction_encoding(
                    self.instructions@[k].body,
                    self.instructions@[k].inc_ap,
                ),
    {
        let empty: Vec<Instruction> = Vec::new();
        proof {
            assert(empty@ + self.instructions@ =~= self.instructions@);
            assert(encoded(empty@) =~= Seq::<BigInt>::empty());
        }
        let r = self.assemble_ex(empty.as_slice(), empty.as_slice());
        proof {
            assert(r.bytecode@ =~= encoded(self.instructions@) + segment_words(
                segments_model(self.consts_info.segments),
                instruction_encoding(InstructionKind::Ret, false)[0],
            ));
            assert forall|k: int| 0 <= k < self.instructions@.len() implies code_size(
                self.instructions@.take(k + 1),
            ) <= r.bytecode@.len() && r.bytecode@.subrange(
                code_size(self.instructions@.take(k)) as int,
                code_size(self.instructions@.take(k + 1)) as int,
            ) == #[trigger] instruction_encoding(
                self.instructions@[k].body,
                self.instructions@[k].inc_ap,
            ) by {
                lemma_instruction_boundaries(self.instructions@, k);
                lemma_code_size_take(self.instructions@.take(k + 1), k);
                assert(self.instructions@.take(k + 1).take(k) =~= self.instructions@.take(k));
                assert(r.bytecode@.subrange(
                    code_size(self.instructions@.take(k)) as int,
                    code_size(self.instructions@.take(k + 1)) as int,
                ) =~= encoded(self.instructions@).subrange(
                    code_size(self.instructions@.take(k)) as int,
                    code_size(self.instructions@.take(k + 1)) as int,
                ));
            }
        }
        r
    }

    /// The bytecode of the program between the instructions `header` and
    /// `footer`: the words of `header` and of the instructions of the
    /// program, then for each constant segment the word of `ret` and the
    /// values of the segment, then the words of `footer`. The hints are
    /// those of `header` and of the program.
    pub fn assemble_ex(&self, header: &[Instruction], footer: &[Instruction]) -> (r:
        AssembledCairoProgram)
        requires
            all_encodable(header@),
            all_encodable(self.instructions@),
            all_encodable(footer@),
            no_hints(footer@),
        ensures
            r.bytecode@ == encoded(header@ + self.instructions@) + segment_words(
                segments_model(self.consts_info.segments),
                instruction_encoding(InstructionKind::Ret, false)[0],
            ) + encoded(footer@),
            hints_view(r.hints@) == hint_entries(header@ + self.instructions@),
            r.bytecode@.len() == code_size(header@) + code_size(self.instructions@)
                + offset_before(
                self.consts_info@.segments,
                self.consts_info@.segments.len() as int,
            ) + code_size(footer@),
            sized_as_encoded(header@),
            sized_as_encoded(self.instructions@),
            sized_as_encoded(footer@),
    {
        let mut bytecode: Vec<BigInt> = Vec::new();
        let mut hints: Vec<(usize, Vec<Hint>)> = Vec::new();
        let ghost none = Seq::<Instruction>::empty();
        proof {
            assert(hints_view(hints@) =~= hint_entries(none));
            assert(none + header@ =~= header@);
        }
        assemble_instructions(header, &mut bytecode, &mut hints, Ghost(none));
        assemble_instructions(
            self.instructions.as_slice(),
            &mut bytecode,
            &mut hints,
            Ghost(header@),
        );
        let ghost code = bytecode@;
        let ret = Instruction::new(InstructionKind::Ret, false);
        let ret_words = ret.encode();
        let ghost terminator = ret_words@[0];
        let segments = segments_values(&self.consts_info.segments);
        let ghost model = segments_model(self.consts_info.segments);
        let mut s: usize = 0;
        assert(model.take(0) =~= Seq::<(u32, ConstSegment)>::empty());
        while s < segments.len()
            invariant
                s <= segments@.len(),
                segments@.len() == model.len(),
                forall|i: int| 0 <= i < segments@.len() ==> *(#[trigger] segments@[i]) == model[i].1,
                ret_words@.len() == 1,
                terminator == ret_words@[0],
                bytecode@ == code + segment_words(model.take(s as int), terminator),
            decreases segments@.len() - s,
        {
            proof {
                assert(model.take(s + 1).drop_last() =~= model.take(s as int));
                assert(model.take(s + 1).last() == model[s as int]);
            }
            bytecode.push(ret_words[0].clone());
            let mut values = clone_bigints(&segments[s].values);
            bytecode.append(&mut values);
            assert(bytecode@ =~= code + segment_words(model.take(s + 1), terminator));
            s += 1;
        }
        assert(model.take(s as int) =~= model);
        let ghost with_segments = bytecode@;
        let mut unused: Vec<(usize, Vec<Hint>)> = Vec::new();
        let mut tail: Vec<BigInt> = Vec::new();
        proof {
            assert(hints_view(unused@) =~= hint_entries(none));
            assert(none + footer@ =~= footer@);
            lemma_segment_words_len(model, terminator);
            lemma_code_size_add(header@, self.instructions@);
        }
        assemble_instructions(footer, &mut tail, &mut unused, Ghost(none));
        bytecode.append(&mut tail);
        AssembledCairoProgram { bytecode, hints }
    }
}

} // verus!
