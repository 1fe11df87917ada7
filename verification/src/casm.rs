//! The instructions of the target machine, as plain data, with their size
//! in words. Encoding and text are those of `cairo_lang_casm`.

use vstd::prelude::*;
use num_bigint::BigInt;
use cairo_lang_casm::hints::Hint;
use cairo_lang_casm::operand::CellRef;
use cairo_lang_casm::operand::DerefOrImmediate;
use cairo_lang_casm::operand::ResOperand;
use cairo_lang_casm::instructions::InstructionBody;
use crate::bigint::bigint_add_i128;
use crate::bigint::bigint_sum;
use crate::bigint::bigint_value;

verus! {

/// `Hint` of `cairo_lang_casm`: carried along, never looked into.
#[verifier::external_type_specification]
#[verifier::external_body]
pub struct ExHint(Hint);

/// `Clone::clone` of `Hint`: an equal hint.
pub assume_specification[ <Hint as Clone>::clone ](h: &Hint) -> (r: Hint)
    ensures
        r == *h,
;

/// `CellRef` of `cairo_lang_casm`: made to be encoded or written.
#[verifier::external_type_specification]
#[verifier::external_body]
pub struct ExCellRef(CellRef);

/// `DerefOrImmediate` of `cairo_lang_casm`: made to be encoded or written.
#[verifier::external_type_specification]
#[verifier::external_body]
pub struct ExDerefOrImmediate(DerefOrImmediate);

/// `ResOperand` of `cairo_lang_casm`: made to be encoded or written.
#[verifier::external_type_specification]
#[verifier::external_body]
pub struct ExResOperand(ResOperand);

/// `InstructionBody` of `cairo_lang_casm`: made to be encoded or written.
#[verifier::external_type_specification]
#[verifier::external_body]
pub struct ExInstructionBody(InstructionBody);

/// One of the two registers that address memory.
#[derive(Clone, Copy, Debug, PartialEq, Eq, Structural)]
pub enum Register {
    /// The allocation pointer.
    AP,
    /// The frame pointer.
    FP,
}

/// The memory cell `[register + offset]`.
#[derive(Clone, Copy, Debug, PartialEq, Eq, Structural)]
pub struct Cell {
    pub register: Register,
    pub offset: i16,
}

/// A memory cell or a constant.
#[derive(Clone, Debug, PartialEq, Eq)]
pub enum CellOrConst {
    Deref(Cell),
    Immediate(BigInt),
}

/// The operation of a binary operand.
#[derive(Clone, Copy, Debug, PartialEq, Eq, Structural)]
pub enum Operation {
    Add,
    Mul,
}

/// The operand `a op b`.
#[derive(Clone, Debug, PartialEq, Eq)]
pub struct BinOp {
    pub op: Operation,
    pub a: Cell,
    pub b: CellOrConst,
}

/// The right-hand side of an assignment.
#[derive(Clone, Debug, PartialEq, Eq)]
pub enum Operand {
    Deref(Cell),
    DoubleDeref(Cell, i16),
    Immediate(BigInt),
    BinOp(BinOp),
}

/// What an instruction does.
#[derive(Clone, Debug, PartialEq, Eq)]
pub enum InstructionKind {
    /// `ap += operand`.
    AddAp { operand: Operand },
    /// `a = b`.
    AssertEq { a: Cell, b: Operand },
    /// `call rel target` or `call abs target`.
    Call { target: CellOrConst, relative: bool },
    /// `jmp rel jump_offset if condition != 0`.
    Jnz { jump_offset: CellOrConst, condition: Cell },
    /// `jmp rel target` or `jmp abs target`.
    Jump { target: CellOrConst, relative: bool },
    /// `ret`.
    Ret,
}

/// An instruction with its `ap++` flag and the hints that run before it.
#[derive(Clone, Debug, PartialEq, Eq)]
pub struct Instruction {
    pub body: InstructionKind,
    pub inc_ap: bool,
    pub hints: Vec<Hint>,
}

impl CellOrConst {
    /// The words that an instruction with this operand takes.
    pub open spec fn spec_op_size(self) -> nat {
        match self {
            CellOrConst::Deref(_) => 1,
            CellOrConst::Immediate(_) => 2,
        }
    }

    /// The words that an instruction with this operand takes.
    pub fn op_size(&self) -> (r: usize)
        ensures
            r == self.spec_op_size(),
    {
        match self {
            CellOrConst::Deref(_) => 1,
            CellOrConst::Immediate(_) => 2,
        }
    }
}

impl CellOrConst {
    /// The constant, if this is one.
    pub open spec fn spec_constant(self) -> Option<BigInt> {
        match self {
            CellOrConst::Deref(_) => None,
            CellOrConst::Immediate(v) => Some(v),
        }
    }

    /// The constant `v` in the place of the constant; the cell where this
    /// is a cell.
    pub open spec fn with_constant(self, v: BigInt) -> CellOrConst {
        match self {
            CellOrConst::Deref(_) => self,
            CellOrConst::Immediate(_) => CellOrConst::Immediate(v),
        }
    }

    /// Whether this is a constant.
    pub fn has_constant(&self) -> (r: bool)
        ensures
            r == self.spec_constant().is_some(),
            r == (self.spec_op_size() == 2),
    {
        match self {
            CellOrConst::Deref(_) => false,
            CellOrConst::Immediate(_) => true,
        }
    }

    /// Adds `delta` to the constant; a cell stays as it is.
    pub fn shift_constant(self, delta: i128) -> (r: CellOrConst)
        ensures
            self.spec_constant().is_none() ==> r == self,
            self.spec_constant() matches Some(v) ==> r == CellOrConst::Immediate(
                bigint_sum(v, delta),
            ) && bigint_value(bigint_sum(v, delta)) == bigint_value(v) + delta,
            r.spec_op_size() == self.spec_op_size(),
    {
        match self {
            CellOrConst::Deref(c) => CellOrConst::Deref(c),
            CellOrConst::Immediate(v) => CellOrConst::Immediate(bigint_add_i128(&v, delta)),
        }
    }

    /// A copy of the operand.
    pub fn duplicate(&self) -> (r: CellOrConst)
        ensures
            r == *self,
    {
        match self {
            CellOrConst::Deref(c) => CellOrConst::Deref(*c),
            CellOrConst::Immediate(v) => CellOrConst::Immediate(v.clone()),
        }
    }
}

impl Operand {
    /// The constant of the operand, if it has one: the operand itself, or
    /// the second part of a binary operand.
    pub open spec fn spec_constant(self) -> Option<BigInt> {
        match self {
            Operand::Immediate(v) => Some(v),
            Operand::BinOp(op) => op.b.spec_constant(),
            _ => None,
        }
    }

    /// The operand with `v` for its constant; the operand itself where it
    /// has no constant.
    pub open spec fn with_constant(self, v: BigInt) -> Operand {
        match self {
            Operand::Immediate(_) => Operand::Immediate(v),
            Operand::BinOp(op) => Operand::BinOp(
                BinOp { op: op.op, a: op.a, b: op.b.with_constant(v) },
            ),
            _ => self,
        }
    }

    /// Whether the operand has a constant.
    pub fn has_constant(&self) -> (r: bool)
        ensures
            r == self.spec_constant().is_some(),
            r == (self.spec_op_size() == 2),
    {
        match self {
            Operand::Immediate(_) => true,
            Operand::BinOp(op) => op.b.has_constant(),
            _ => false,
        }
    }

    /// Adds `delta` to the constant of the operand; an operand without
    /// constant stays as it is.
    pub fn shift_constant(self, delta: i128) -> (r: Operand)
        ensures
            self.spec_constant().is_none() ==> r == self,
            self.spec_constant() matches Some(v) ==> r == self.with_constant(
                bigint_sum(v, delta),
            ) && bigint_value(bigint_sum(v, delta)) == bigint_value(v) + delta,
            r.spec_op_size() == self.spec_op_size(),
    {
        match self {
            Operand::Immediate(v) => Operand::Immediate(bigint_add_i128(&v, delta)),
            Operand::BinOp(op) => Operand::BinOp(
                BinOp { op: op.op, a: op.a, b: op.b.shift_constant(delta) },
            ),
            other => other,
        }
    }

    /// The words that an instruction with this operand takes: two where the
    /// operand holds a constant, else one.
    pub open spec fn spec_op_size(self) -> nat {
        match self {
            Operand::Deref(_) => 1,
            Operand::DoubleDeref(_, _) => 1,
            Operand::Immediate(_) => 2,
            Operand::BinOp(op) => op.b.spec_op_size(),
        }
    }

    /// The words that an instruction with this operand takes.
    pub fn op_size(&self) -> (r: usize)
        ensures
            r == self.spec_op_size(),
    {
        match self {
            Operand::Deref(_) => 1,
            Operand::DoubleDeref(_, _) => 1,
            Operand::Immediate(_) => 2,
            Operand::BinOp(op) => op.b.op_size(),
        }
    }
}

impl InstructionKind {
    /// The size of the instruction in words.
    pub open spec fn spec_op_size(self) -> nat {
        match self {
            InstructionKind::AddAp { operand } => operand.spec_op_size(),
            InstructionKind::AssertEq { a, b } => b.spec_op_size(),
            InstructionKind::Call { target, relative } => target.spec_op_size(),
            InstructionKind::Jnz { jump_offset, condition } => jump_offset.spec_op_size(),
            InstructionKind::Jump { target, relative } => target.spec_op_size(),
            InstructionKind::Ret => 1,
        }
    }

    /// The size of the instruction in words.
    pub fn op_size(&self) -> (r: usize)
        ensures
            r == self.spec_op_size(),
            1 <= r <= 2,
    {
        match self {
            InstructionKind::AddAp { operand } => operand.op_size(),
            InstructionKind::AssertEq { a: _, b } => b.op_size(),
            InstructionKind::Call { target, relative: _ } => target.op_size(),
            InstructionKind::Jnz { jump_offset, condition: _ } => jump_offset.op_size(),
            InstructionKind::Jump { target, relative: _ } => target.op_size(),
            InstructionKind::Ret => 1,
        }
    }

    /// The constant of the instruction, if it has one: the constant operand
    /// of an `ap += ..` or of an assignment, alone or as the second part of
    /// a binary operand, or the constant target of a call or a jump.
    pub open spec fn immediate_slot(self) -> Option<BigInt> {
        match self {
            InstructionKind::AddAp { operand } => operand.spec_constant(),
            InstructionKind::AssertEq { a, b } => b.spec_constant(),
            InstructionKind::Call { target, relative } => target.spec_constant(),
            InstructionKind::Jnz { jump_offset, condition } => jump_offset.spec_constant(),
            InstructionKind::Jump { target, relative } => target.spec_constant(),
            InstructionKind::Ret => None,
        }
    }

    /// This body with `v` for its constant; the body itself where it has
    /// no constant.
    pub open spec fn with_immediate(self, v: BigInt) -> InstructionKind {
        match self {
            InstructionKind::AddAp { operand } => InstructionKind::AddAp {
                operand: operand.with_constant(v),
            },
            InstructionKind::AssertEq { a, b } => InstructionKind::AssertEq {
                a,
                b: b.with_constant(v),
            },
            InstructionKind::Call { target, relative } => InstructionKind::Call {
                target: target.with_constant(v),
                relative,
            },
            InstructionKind::Jnz { jump_offset, condition } => InstructionKind::Jnz {
                jump_offset: jump_offset.with_constant(v),
                condition,
            },
            InstructionKind::Jump { target, relative } => InstructionKind::Jump {
                target: target.with_constant(v),
                relative,
            },
            InstructionKind::Ret => InstructionKind::Ret,
        }
    }

    /// Whether the constant of the instruction counts from the instruction
    /// itself: that of a relative call, of a relative jump and of a
    /// conditional jump does.
    pub open spec fn spec_pc_relative(self) -> bool {
        match self {
            InstructionKind::Call { target, relative } => relative,
            InstructionKind::Jump { target, relative } => relative,
            InstructionKind::Jnz { jump_offset, condition } => true,
            _ => false,
        }
    }

    /// Whether the constant of the instruction counts from the instruction
    /// itself.
    pub fn pc_relative(&self) -> (r: bool)
        ensures
            r == self.spec_pc_relative(),
    {
        match self {
            InstructionKind::Call { target: _, relative } => *relative,
            InstructionKind::Jump { target: _, relative } => *relative,
            InstructionKind::Jnz { jump_offset: _, condition: _ } => true,
            _ => false,
        }
    }

    /// Whether the instruction has a constant.
    pub fn has_immediate_slot(&self) -> (r: bool)
        ensures
            r == self.immediate_slot().is_some(),
            r == (self.spec_op_size() == 2),
    {
        match self {
            InstructionKind::AddAp { operand } => operand.has_constant(),
            InstructionKind::AssertEq { a: _, b } => b.has_constant(),
            InstructionKind::Call { target, relative: _ } => target.has_constant(),
            InstructionKind::Jnz { jump_offset, condition: _ } => jump_offset.has_constant(),
            InstructionKind::Jump { target, relative: _ } => target.has_constant(),
            InstructionKind::Ret => false,
        }
    }

    /// This body with `delta` added to its constant; the body itself where
    /// it has no constant.
    pub open spec fn spec_shift_immediate(self, delta: i128) -> InstructionKind {
        match self.immediate_slot() {
            Some(v) => self.with_immediate(bigint_sum(v, delta)),
            None => self,
        }
    }

    /// Adds `delta` to the constant of the instruction. Returns the body
    /// unchanged where it has no constant.
    pub fn shift_immediate(self, delta: i128) -> (r: InstructionKind)
        ensures
            r == self.spec_shift_immediate(delta),
            self.immediate_slot().is_none() ==> r == self,
            self.immediate_slot().is_some() ==> {
                &&& r.immediate_slot().is_some()
                &&& bigint_value(r.immediate_slot().unwrap()) == bigint_value(
                    self.immediate_slot().unwrap(),
                ) + delta
                &&& r == self.with_immediate(r.immediate_slot().unwrap())
            },
            r.spec_op_size() == self.spec_op_size(),
            r.spec_pc_relative() == self.spec_pc_relative(),
    {
        match self {
            InstructionKind::AddAp { operand } => InstructionKind::AddAp {
                operand: operand.shift_constant(delta),
            },
            InstructionKind::AssertEq { a, b } => InstructionKind::AssertEq {
                a,
                b: b.shift_constant(delta),
            },
            InstructionKind::Call { target, relative } => InstructionKind::Call {
                target: target.shift_constant(delta),
                relative,
            },
            InstructionKind::Jnz { jump_offset, condition } => InstructionKind::Jnz {
                jump_offset: jump_offset.shift_constant(delta),
                condition,
            },
            InstructionKind::Jump { target, relative } => InstructionKind::Jump {
                target: target.shift_constant(delta),
                relative,
            },
            InstructionKind::Ret => InstructionKind::Ret,
        }
    }
}

/// Whether an instruction with the body `body` and the flag `inc_ap` can be
/// encoded: `ap += ..`, `call` and `ret` have no `ap++` form.
pub open spec fn encodable_form(body: InstructionKind, inc_ap: bool) -> bool {
    inc_ap ==> !(body is AddAp || body is Call || body is Ret)
}

impl Instruction {
    /// An instruction without hints.
    pub fn new(body: InstructionKind, inc_ap: bool) -> (r: Instruction)
        ensures
            r.body == body,
            r.inc_ap == inc_ap,
            r.hints@ == Seq::<Hint>::empty(),
    {
        Instruction { body, inc_ap, hints: Vec::new() }
    }

    /// Whether the instruction can be encoded.
    pub open spec fn spec_encodable(self) -> bool {
        encodable_form(self.body, self.inc_ap)
    }

    /// Whether the instruction can be encoded.
    pub fn encodable(&self) -> (r: bool)
        ensures
            r == self.spec_encodable(),
    {
        if self.inc_ap {
            match &self.body {
                InstructionKind::AddAp { operand: _ } => false,
                InstructionKind::Call { target: _, relative: _ } => false,
                InstructionKind::Ret => false,
                _ => true,
            }
        } else {
            true
        }
    }
}

/// The size in words of the first `n` of the instructions, where it fits in
/// a machine word.
pub fn code_offset(instructions: &Vec<Instruction>, n: usize) -> (r: Option<usize>)
    requires
        n <= instructions@.len(),
    ensures
        r == (if code_size(instructions@.take(n as int)) <= usize::MAX {
            Some(code_size(instructions@.take(n as int)) as usize)
        } else {
            None
        }),
{
    let mut offset: usize = 0;
    let mut i: usize = 0;
    assert(instructions@.take(0) =~= Seq::<Instruction>::empty());
    while i < n
        invariant
            i <= n <= instructions@.len(),
            offset == code_size(instructions@.take(i as int)),
        decreases n - i,
    {
        proof {
            assert(instructions@.take(i + 1).drop_last() =~= instructions@.take(i as int));
            assert(instructions@.take(i + 1) =~= instructions@.take(n as int).take(i + 1));
            lemma_code_size_take(instructions@.take(n as int), i + 1);
        }
        match offset.checked_add(instructions[i].body.op_size()) {
            None => {
                return None;
            },
            Some(next) => {
                offset = next;
            },
        }
        i += 1;
    }
    Some(offset)
}

/// The size in words of a sequence of instructions.
pub open spec fn code_size(s: Seq<Instruction>) -> nat
    decreases s.len(),
{
    if s.len() == 0 {
        0
    } else {
        code_size(s.drop_last()) + s.last().body.spec_op_size()
    }
}

/// The size of a sequence grows with each instruction by that instruction's
/// size.
pub proof fn lemma_code_size_push(s: Seq<Instruction>, i: Instruction)
    ensures
        code_size(s.push(i)) == code_size(s) + i.body.spec_op_size(),
{
    assert(s.push(i).drop_last() =~= s);
}

/// The size of a concatenation is the sum of the sizes.
pub proof fn lemma_code_size_add(a: Seq<Instruction>, b: Seq<Instruction>)
    ensures
        code_size(a + b) == code_size(a) + code_size(b),
    decreases b.len(),
{
    if b.len() == 0 {
        assert(a + b =~= a);
    } else {
        lemma_code_size_add(a, b.drop_last());
        assert((a + b).drop_last() =~= a + b.drop_last());
        assert((a + b).last() == b.last());
    }
}

/// The size of a prefix is at most the size of the whole.
pub proof fn lemma_code_size_take(s: Seq<Instruction>, k: int)
    requires
        0 <= k <= s.len(),
    ensures
        code_size(s.take(k)) <= code_size(s),
{
    assert(s =~= s.take(k) + s.skip(k));
    lemma_code_size_add(s.take(k), s.skip(k));
}

/// The words that `cairo_lang_casm` encodes an instruction with the body
/// `body` and the flag `inc_ap` into.
pub uninterp spec fn instruction_encoding(body: InstructionKind, inc_ap: bool) -> Seq<BigInt>;

/// The text that `cairo_lang_casm` writes for an instruction with the body
/// `body` and the flag `inc_ap`, without hints.
pub uninterp spec fn instruction_text(body: InstructionKind, inc_ap: bool) -> Seq<char>;

/// The cell that a `CellRef` of `cairo_lang_casm` holds: its register and
/// its offset.
pub uninterp spec fn casm_cell_model(cell: CellRef) -> Cell;

/// The cell or constant that a `DerefOrImmediate` of `cairo_lang_casm`
/// holds.
pub uninterp spec fn casm_atom_model(atom: DerefOrImmediate) -> CellOrConst;

/// The operand that a `ResOperand` of `cairo_lang_casm` holds.
pub uninterp spec fn casm_operand_model(operand: ResOperand) -> Operand;

/// The body that an `InstructionBody` of `cairo_lang_casm` holds.
pub uninterp spec fn casm_body_model(body: InstructionBody) -> InstructionKind;

/// `CellRef` of `cairo_lang_casm`, made of its fields: it holds the same
/// register and the same offset.
#[verifier::external_body]
fn casm_cell(cell: &Cell) -> (r: CellRef)
    ensures
        casm_cell_model(r) == *cell,
{
    let register = match cell.register {
        Register::AP => cairo_lang_casm::operand::Register::AP,
        Register::FP => cairo_lang_casm::operand::Register::FP,
    };
    CellRef { register, offset: cell.offset }
}

/// `DerefOrImmediate::Deref` of `cairo_lang_casm`: it holds the cell.
#[verifier::external_body]
fn casm_atom_of_cell(cell: CellRef) -> (r: DerefOrImmediate)
    ensures
        casm_atom_model(r) == CellOrConst::Deref(casm_cell_model(cell)),
{
    DerefOrImmediate::Deref(cell)
}

/// `DerefOrImmediate::Immediate` of `cairo_lang_casm`: it holds the
/// constant.
#[verifier::external_body]
fn casm_atom_of_const(value: &BigInt) -> (r: DerefOrImmediate)
    ensures
        casm_atom_model(r) == CellOrConst::Immediate(*value),
{
    DerefOrImmediate::Immediate(value.clone().into())
}

/// `ResOperand::Deref` of `cairo_lang_casm`: it holds the cell.
#[verifier::external_body]
fn casm_deref(cell: CellRef) -> (r: ResOperand)
    ensures
        casm_operand_model(r) == Operand::Deref(casm_cell_model(cell)),
{
    ResOperand::Deref(cell)
}

/// `ResOperand::DoubleDeref` of `cairo_lang_casm`: it holds the cell and
/// the offset.
#[verifier::external_body]
fn casm_double_deref(cell: CellRef, offset: i16) -> (r: ResOperand)
    ensures
        casm_operand_model(r) == Operand::DoubleDeref(casm_cell_model(cell), offset),
{
    ResOperand::DoubleDeref(cell, offset)
}

/// `ResOperand::Immediate` of `cairo_lang_casm`: it holds the constant.
#[verifier::external_body]
fn casm_immediate(value: &BigInt) -> (r: ResOperand)
    ensures
        casm_operand_model(r) == Operand::Immediate(*value),
{
    ResOperand::Immediate(value.clone().into())
}

/// `ResOperand::BinOp` of `cairo_lang_casm`: it holds the operation and
/// the two parts.
#[verifier::external_body]
fn casm_bin_op(op: Operation, a: CellRef, b: DerefOrImmediate) -> (r: ResOperand)
    ensures
        casm_operand_model(r) == (Operand::BinOp(
            BinOp { op, a: casm_cell_model(a), b: casm_atom_model(b) },
        )),
{
    let op = match op {
        Operation::Add => cairo_lang_casm::operand::Operation::Add,
        Operation::Mul => cairo_lang_casm::operand::Operation::Mul,
    };
    ResOperand::BinOp(cairo_lang_casm::operand::BinOpOperand { op, a, b })
}

/// `InstructionBody::AddAp` of `cairo_lang_casm`: it holds the operand.
#[verifier::external_body]
fn casm_add_ap(operand: ResOperand) -> (r: InstructionBody)
    ensures
        casm_body_model(r) == (InstructionKind::AddAp { operand: casm_operand_model(operand) }),
{
    InstructionBody::AddAp(cairo_lang_casm::instructions::AddApInstruction { operand })
}

/// `InstructionBody::AssertEq` of `cairo_lang_casm`: it holds the two
/// sides.
#[verifier::external_body]
fn casm_assert_eq(a: CellRef, b: ResOperand) -> (r: InstructionBody)
    ensures
        casm_body_model(r) == (InstructionKind::AssertEq {
            a: casm_cell_model(a),
            b: casm_operand_model(b),
        }),
{
    InstructionBody::AssertEq(cairo_lang_casm::instructions::AssertEqInstruction { a, b })
}

/// `InstructionBody::Call` of `cairo_lang_casm`: it holds the target and
/// the flag.
#[verifier::external_body]
fn casm_call(target: DerefOrImmediate, relative: bool) -> (r: InstructionBody)
    ensures
        casm_body_model(r) == (InstructionKind::Call { target: casm_atom_model(target), relative }),
{
    InstructionBody::Call(cairo_lang_casm::instructions::CallInstruction { target, relative })
}

/// `InstructionBody::Jnz` of `cairo_lang_casm`: it holds the offset and
/// the condition.
#[verifier::external_body]
fn casm_jnz(jump_offset: DerefOrImmediate, condition: CellRef) -> (r: InstructionBody)
    ensures
        casm_body_model(r) == (InstructionKind::Jnz {
            jump_offset: casm_atom_model(jump_offset),
            condition: casm_cell_model(condition),
        }),
{
    InstructionBody::Jnz(cairo_lang_casm::instructions::JnzInstruction { jump_offset, condition })
}

/// `InstructionBody::Jump` of `cairo_lang_casm`: it holds the target and
/// the flag.
#[verifier::external_body]
fn casm_jump(target: DerefOrImmediate, relative: bool) -> (r: InstructionBody)
    ensures
        casm_body_model(r) == (InstructionKind::Jump { target: casm_atom_model(target), relative }),
{
    InstructionBody::Jump(cairo_lang_casm::instructions::JumpInstruction { target, relative })
}

/// `InstructionBody::Ret` of `cairo_lang_casm`.
#[verifier::external_body]
fn casm_ret() -> (r: InstructionBody)
    ensures
        casm_body_model(r) == InstructionKind::Ret,
{
    InstructionBody::Ret(cairo_lang_casm::instructions::RetInstruction {  })
}

/// The same cell or constant, as `cairo_lang_casm` holds it.
fn casm_cell_or_const(operand: &CellOrConst) -> (r: DerefOrImmediate)
    ensures
        casm_atom_model(r) == *operand,
{
    match operand {
        CellOrConst::Deref(cell) => casm_atom_of_cell(casm_cell(cell)),
        CellOrConst::Immediate(value) => casm_atom_of_const(value),
    }
}

/// The same operand, as `cairo_lang_casm` holds it.
fn casm_operand(operand: &Operand) -> (r: ResOperand)
    ensures
        casm_operand_model(r) == *operand,
{
    match operand {
        Operand::Deref(cell) => casm_deref(casm_cell(cell)),
        Operand::DoubleDeref(cell, offset) => casm_double_deref(casm_cell(cell), *offset),
        Operand::Immediate(value) => casm_immediate(value),
        Operand::BinOp(op) => casm_bin_op(op.op, casm_cell(&op.a), casm_cell_or_const(&op.b)),
    }
}

/// The same body, as `cairo_lang_casm` holds it.
fn casm_body(body: &InstructionKind) -> (r: InstructionBody)
    ensures
        casm_body_model(r) == *body,
{
    match body {
        InstructionKind::AddAp { operand } => casm_add_ap(casm_operand(operand)),
        InstructionKind::AssertEq { a, b } => casm_assert_eq(casm_cell(a), casm_operand(b)),
        InstructionKind::Call { target, relative } => casm_call(
            casm_cell_or_const(target),
            *relative,
        ),
        InstructionKind::Jnz { jump_offset, condition } => casm_jnz(
            casm_cell_or_const(jump_offset),
            casm_cell(condition),
        ),
        InstructionKind::Jump { target, relative } => casm_jump(
            casm_cell_or_const(target),
            *relative,
        ),
        InstructionKind::Ret => casm_ret(),
    }
}

/// `Instruction::assemble` followed by `InstructionRepr::encode`, on an
/// instruction of `cairo_lang_casm` with the body `body` and the flag
/// `inc_ap`: the words of the instruction. There are as many as the size of
/// the instruction, and the one word of `ret` is `0x208b7fff7fff7ffe`. The
/// outside functions panic on an `ap++` form of `ap += ..`, `call` or `ret`.
#[verifier::external_body]
fn casm_encode(body: InstructionBody, inc_ap: bool) -> (r: Vec<BigInt>)
    requires
        encodable_form(casm_body_model(body), inc_ap),
    ensures
        r@ == instruction_encoding(casm_body_model(body), inc_ap),
        r@.len() == casm_body_model(body).spec_op_size(),
        casm_body_model(body) is Ret ==> bigint_value(r@[0]) == 0x208b7fff7fff7ffe,
{
    cairo_lang_casm::instructions::Instruction::new(body, inc_ap).assemble().encode()
}

/// `ToString::to_string` of `Instruction` of `cairo_lang_casm`, on the
/// instruction with the body `body`, the flag `inc_ap` and no hints: the
/// text of the body, and `, ap++` behind it where the flag is set.
#[verifier::external_body]
fn casm_text(body: InstructionBody, inc_ap: bool) -> (r: String)
    ensures
        r@ == instruction_text(casm_body_model(body), inc_ap),
{
    cairo_lang_casm::instructions::Instruction::new(body, inc_ap).to_string()
}

impl Instruction {
    /// The words that `cairo_lang_casm` encodes the instruction into,
    /// without its hints: as many as the size of the instruction; the one
    /// word of `ret` is `0x208b7fff7fff7ffe`.
    pub fn encode(&self) -> (r: Vec<BigInt>)
        requires
            self.spec_encodable(),
        ensures
            r@ == instruction_encoding(self.body, self.inc_ap),
            r@.len() == self.body.spec_op_size(),
            self.body is Ret ==> bigint_value(r@[0]) == 0x208b7fff7fff7ffe,
    {
        casm_encode(casm_body(&self.body), self.inc_ap)
    }

    /// The text that `cairo_lang_casm` writes for the instruction, without
    /// its hints.
    pub fn body_text(&self) -> (r: String)
        ensures
            r@ == instruction_text(self.body, self.inc_ap),
    {
        casm_text(casm_body(&self.body), self.inc_ap)
    }
}

} // verus!
