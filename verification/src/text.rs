//! The text of a compiled program: one line for each instruction, then for
//! each constant segment a line `ret;` and one line `dw <value>;` for each
//! of its values. Each line may end with the offset of its word in the
//! bytecode.

use vstd::prelude::*;
use vstd::string::StringExecFns;
use num_bigint::BigInt;
use crate::assembler::no_hints;
use crate::bigint::bigint_value;
use crate::bigint::decimal_text;
use crate::bigint::bigint_to_text;
use crate::casm::Instruction;
use crate::casm::code_offset;
use crate::casm::code_size;
use crate::casm::instruction_text;
use crate::casm::lemma_code_size_take;
use crate::compiler::CairoProgram;
use crate::consts::ConstSegment;
use crate::consts::segments_model;
use crate::consts::segments_values;

verus! {

/// `ToString::to_string` of `usize`: the decimal text of the number.
#[verifier::external_body]
fn usize_to_text(n: usize) -> (r: String)
    ensures
        r@ == decimal_text(n as int),
{
    n.to_string()
}

/// What is written behind a line for the offset `offset`.
pub open spec fn offset_suffix(offset: Option<nat>) -> Seq<char> {
    match offset {
        Some(n) => " // "@ + decimal_text(n as int),
        None => Seq::empty(),
    }
}

/// The line of the statement `text`: the text, a semicolon, the offset
/// where one is given, and the end of the line.
pub open spec fn line(text: Seq<char>, offset: Option<nat>) -> Seq<char> {
    text + ";"@ + offset_suffix(offset) + "\n"@
}

/// The offset to print for the word at `offset`.
pub open spec fn printed(print_offsets: bool, offset: nat) -> Option<nat> {
    if print_offsets {
        Some(offset)
    } else {
        None
    }
}

/// The lines of the first `k` instructions, with the texts `texts`.
pub open spec fn instruction_lines(
    texts: Seq<Seq<char>>,
    instructions: Seq<Instruction>,
    print_offsets: bool,
    k: int,
) -> Seq<char>
    decreases k,
{
    if k <= 0 || k > texts.len() || k > instructions.len() {
        Seq::empty()
    } else {
        instruction_lines(texts, instructions, print_offsets, k - 1) + line(
            texts[k - 1],
            printed(print_offsets, code_size(instructions.take(k - 1))),
        )
    }
}

/// The lines of the first `k` values of a segment whose first value lies at
/// the offset `first`.
pub open spec fn value_lines(values: Seq<BigInt>, print_offsets: bool, first: nat, k: int) -> Seq<
    char,
>
    decreases k,
{
    if k <= 0 || k > values.len() {
        Seq::empty()
    } else {
        value_lines(values, print_offsets, first, k - 1) + line(
            "dw "@ + decimal_text(bigint_value(values[k - 1])),
            printed(print_offsets, (first + k - 1) as nat),
        )
    }
}

/// The number of words of the first `k` segments, each with the word
/// before it.
pub open spec fn words_before(segments: Seq<(u32, ConstSegment)>, k: int) -> nat
    decreases k,
{
    if k <= 0 || k > segments.len() {
        0
    } else {
        words_before(segments, k - 1) + 1 + segments[k - 1].1.values@.len()
    }
}

/// The lines of the first `k` segments, which lie behind `code_end` words
/// of code.
pub open spec fn segment_lines(
    segments: Seq<(u32, ConstSegment)>,
    print_offsets: bool,
    code_end: nat,
    k: int,
) -> Seq<char>
    decreases k,
{
    if k <= 0 || k > segments.len() {
        Seq::empty()
    } else {
        segment_lines(segments, print_offsets, code_end, k - 1) + line(
            "ret"@,
            printed(print_offsets, code_end + words_before(segments, k - 1)),
        ) + value_lines(
            segments[k - 1].1.values@,
            print_offsets,
            code_end + words_before(segments, k - 1) + 1,
            segments[k - 1].1.values@.len() as int,
        )
    }
}

/// The text of a program whose instructions have the texts `texts`.
pub open spec fn program_text(texts: Seq<Seq<char>>, program: CairoProgram, print_offsets: bool) -> Seq<
    char,
> {
    instruction_lines(
        texts,
        program.instructions@,
        print_offsets,
        program.instructions@.len() as int,
    ) + segment_lines(
        segments_model(program.consts_info.segments),
        print_offsets,
        code_size(program.instructions@),
        segments_model(program.consts_info.segments).len() as int,
    )
}

/// The number of words of the program: the size of its instructions and,
/// for each segment, one word and its values.
pub open spec fn word_count(program: CairoProgram) -> nat {
    code_size(program.instructions@) + words_before(
        segments_model(program.consts_info.segments),
        segments_model(program.consts_info.segments).len() as int,
    )
}

/// The texts as sequences of characters.
pub open spec fn text_views(texts: Seq<String>) -> Seq<Seq<char>> {
    texts.map_values(|t: String| t@)
}

/// The texts that `cairo_lang_casm` writes for the instructions, without
/// hints.
pub open spec fn body_texts(instructions: Seq<Instruction>) -> Seq<Seq<char>> {
    instructions.map_values(|i: Instruction| instruction_text(i.body, i.inc_ap))
}

/// The size of the first `k` segments grows with `k`.
pub proof fn lemma_words_before_monotone(segments: Seq<(u32, ConstSegment)>, k: int, n: int)
    requires
        0 <= k <= n <= segments.len(),
    ensures
        words_before(segments, k) <= words_before(segments, n),
    decreases n - k,
{
    if k < n {
        lemma_words_before_monotone(segments, k + 1, n);
    }
}

/// Appends the line of the statement `text` to `out`.
fn push_line(out: &mut String, text: &str, print_offsets: bool, offset: usize)
    ensures
        final(out)@ == old(out)@ + line(text@, printed(print_offsets, offset as nat)),
{
    let ghost start = out@;
    out.append(text);
    out.append(";");
    if print_offsets {
        out.append(" // ");
        let number = usize_to_text(offset);
        out.append(number.as_str());
    }
    out.append("\n");
    assert(out@ =~= start + line(text@, printed(print_offsets, offset as nat)));
}

/// The number of words of the segments, where it fits in a machine word
/// together with `code_end`.
fn count_words(segments: &Vec<&ConstSegment>, code_end: usize, Ghost(model): Ghost<
    Seq<(u32, ConstSegment)>,
>) -> (r: Option<usize>)
    requires
        segments@.len() == model.len(),
        forall|i: int| 0 <= i < segments@.len() ==> *(#[trigger] segments@[i]) == model[i].1,
    ensures
        r == (if code_end + words_before(model, model.len() as int) <= usize::MAX {
            Some((code_end + words_before(model, model.len() as int)) as usize)
        } else {
            None
        }),
{
    let mut total: usize = code_end;
    let mut s: usize = 0;
    while s < segments.len()
        invariant
            s <= segments@.len(),
            segments@.len() == model.len(),
            forall|i: int| 0 <= i < segments@.len() ==> *(#[trigger] segments@[i]) == model[i].1,
            total == code_end + words_before(model, s as int),
        decreases segments@.len() - s,
    {
        proof {
            lemma_words_before_monotone(model, s + 1, model.len() as int);
        }
        let size: usize = segments[s].values.len();
        match total.checked_add(1) {
            None => {
                return None;
            },
            Some(next) => match next.checked_add(size) {
                None => {
                    return None;
                },
                Some(end) => {
                    total = end;
                },
            },
        }
        s += 1;
    }
    Some(total)
}

impl CairoProgram {
    /// The text of the program, with the texts `instruction_texts` for its
    /// instructions. There is none where the number of texts is not that of
    /// the instructions, or where the number of words of the program does
    /// not fit in a machine word.
    pub fn render(&self, instruction_texts: &Vec<String>, print_offsets: bool) -> (r: Option<String>)
        ensures
            r matches Some(text) ==> text@ == program_text(
                text_views(instruction_texts@),
                *self,
                print_offsets,
            ),
            r.is_some() == (instruction_texts@.len() == self.instructions@.len() && word_count(
                *self,
            ) <= usize::MAX),
    {
        if instruction_texts.len() != self.instructions.len() {
            return None;
        }
        let n: usize = self.instructions.len();
        let ghost texts = text_views(instruction_texts@);
        let ghost model = segments_model(self.consts_info.segments);
        assert(self.instructions@.take(n as int) =~= self.instructions@);
        let code_end: usize = match code_offset(&self.instructions, n) {
            None => {
                return None;
            },
            Some(code_end) => code_end,
        };
        let segments = segments_values(&self.consts_info.segments);
        match count_words(&segments, code_end, Ghost(model)) {
            None => {
                return None;
            },
            Some(_) => {},
        }
        let mut out = String::new();
        let mut offset: usize = 0;
        let mut i: usize = 0;
        assert(self.instructions@.take(0) =~= Seq::<Instruction>::empty());
        assert(out@ =~= Seq::<char>::empty());
        while i < n
            invariant
                i <= n,
                n == self.instructions@.len(),
                n == instruction_texts@.len(),
                texts == text_views(instruction_texts@),
                code_size(self.instructions@) <= usize::MAX,
                offset == code_size(self.instructions@.take(i as int)),
                out@ == instruction_lines(texts, self.instructions@, print_offsets, i as int),
            decreases n - i,
        {
            proof {
                assert(self.instructions@.take(i + 1).drop_last() =~= self.instructions@.take(
                    i as int,
                ));
                lemma_code_size_take(self.instructions@, i + 1);
                assert(texts[i as int] == instruction_texts@[i as int]@);
            }
            push_line(&mut out, instruction_texts[i].as_str(), print_offsets, offset);
            offset = offset + self.instructions[i].body.op_size();
            i += 1;
        }
        assert(offset == code_end);
        let ghost code_text = out@;
        let mut s: usize = 0;
        assert(code_text + Seq::<char>::empty() =~= code_text);
        while s < segments.len()
            invariant
                s <= segments@.len(),
                segments@.len() == model.len(),
                forall|i: int| 0 <= i < segments@.len() ==> *(#[trigger] segments@[i]) == model[i].1,
                code_end + words_before(model, model.len() as int) <= usize::MAX,
                offset == code_end + words_before(model, s as int),
                out@ == code_text + segment_lines(model, print_offsets, code_end as nat, s as int),
            decreases segments@.len() - s,
        {
            proof {
                lemma_words_before_monotone(model, s + 1, model.len() as int);
            }
            let ghost before = out@;
            let ghost first = (offset + 1) as nat;
            push_line(&mut out, "ret", print_offsets, offset);
            offset = offset + 1;
            let values = &segments[s].values;
            let ghost with_ret = out@;
            let mut v: usize = 0;
            assert(with_ret + Seq::<char>::empty() =~= with_ret);
            while v < values.len()
                invariant
                    v <= values@.len(),
                    first + values@.len() <= usize::MAX,
                    offset == first + v,
                    out@ == with_ret + value_lines(values@, print_offsets, first, v as int),
                decreases values@.len() - v,
            {
                let ghost so_far = out@;
                let mut word = String::from_str("dw ");
                let number = bigint_to_text(&values[v]);
                word.append(number.as_str());
                push_line(&mut out, word.as_str(), print_offsets, offset);
                assert(out@ =~= with_ret + value_lines(values@, print_offsets, first, v + 1));
                offset = offset + 1;
                v += 1;
            }
            assert(out@ =~= code_text + segment_lines(
                model,
                print_offsets,
                code_end as nat,
                s + 1,
            ));
            s += 1;
        }
        Some(out)
    }

    /// The text of a program without hints, as `cairo_lang_casm` writes
    /// its instructions. There is none where an instruction has a hint
    /// (`cairo_lang_casm` has no text for some hints;
    /// [`CairoProgram::render`] takes the texts of the instructions
    /// instead), or where the number of words of the program does not fit
    /// in a machine word.
    pub fn to_text(&self, print_offsets: bool) -> (r: Option<String>)
        ensures
            r matches Some(text) ==> text@ == program_text(
                body_texts(self.instructions@),
                *self,
                print_offsets,
            ),
            r.is_some() == (no_hints(self.instructions@) && word_count(*self) <= usize::MAX),
    {
        let mut texts: Vec<String> = Vec::new();
        let mut i: usize = 0;
        while i < self.instructions.len()
            invariant
                i <= self.instructions@.len(),
                texts@.len() == i,
                forall|j: int| 0 <= j < i ==> (#[trigger] self.instructions@[j]).hints@.len() == 0,
                forall|j: int|
                    0 <= j < i ==> (#[trigger] texts@[j])@ == instruction_text(
                        self.instructions@[j].body,
                        self.instructions@[j].inc_ap,
                    ),
            decreases self.instructions@.len() - i,
        {
            if self.instructions[i].hints.len() > 0 {
                return None;
            }
            texts.push(self.instructions[i].body_text());
            i += 1;
        }
        assert(text_views(texts@) =~= body_texts(self.instructions@));
        self.render(&texts, print_offsets)
    }
}

} // verus!
