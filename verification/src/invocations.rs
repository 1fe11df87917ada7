//! What the compilation of one invocation gives, and the check that the
//! values of a return lie on top of the stack.

use vstd::prelude::*;
use cairo_lang_sierra_type_size::TypeSizeMap;
use crate::casm::Cell;
use crate::casm::Instruction;
use crate::casm::Register;
use crate::environment::Environment;
use crate::ids::StatementIdx;
use crate::ids::TypeId;
use crate::metadata::Metadata;
use crate::program::ConcreteLibfunc;
use crate::program::Invocation;
use crate::references::ApChange;
use crate::references::CellExpression;
use crate::references::ReferenceExpression;
use crate::references::ReferenceValue;
use crate::references::ReferenceValueView;
use crate::references::reference_views;
use crate::relocations::RelocationEntry;

verus! {

/// Why an invocation cannot be compiled.
#[derive(Clone, Debug, PartialEq, Eq)]
pub enum InvocationError {
    /// An argument is not of a form that the library function takes.
    InvalidReferenceExpressionForArgument,
    /// The library function is not supported.
    NotImplemented,
    /// The library function was called with the wrong number of arguments.
    WrongNumberOfArguments { expected: usize, actual: usize },
    /// A type has no known size.
    UnknownTypeId(TypeId),
    /// A number is out of range.
    IntegerOverflow,
    /// A relocation names an instruction that has no constant to rewrite,
    /// or a target that does not exist.
    InvalidRelocation,
    /// Any other failure.
    Other(String),
}

/// A reference that a branch produces.
#[derive(Clone, Debug, PartialEq, Eq)]
pub struct OutputReferenceValue {
    pub expression: ReferenceExpression,
    pub ty: TypeId,
}

/// What taking a branch changes.
#[derive(Clone, Debug, PartialEq, Eq)]
pub struct BranchChanges {
    /// The references of the outputs of the branch, in order.
    pub refs: Vec<OutputReferenceValue>,
    /// The change of the allocation pointer.
    pub ap_change: ApChange,
    /// The gas that the branch takes.
    pub gas_change: i64,
}

/// The code of an invocation.
#[derive(Clone, Debug, PartialEq, Eq)]
pub struct CompiledInvocation {
    pub instructions: Vec<Instruction>,
    /// Relocations, by the index of the instruction in `instructions`.
    pub relocations: Vec<RelocationEntry>,
    /// The changes of each branch, in the order of the branches.
    pub results: Vec<BranchChanges>,
    /// The state after the invocation, before the changes of a branch.
    pub environment: Environment,
}

/// What the compilation of an invocation may read of the program.
pub struct ProgramInfo<'a> {
    pub metadata: &'a Metadata,
    pub type_sizes: &'a TypeSizeMap,
}

/// The code emitters of the library functions.
pub trait InvocationCompiler {
    /// The code of the invocation `invocation` of `libfunc` at
    /// `statement_idx`, with the arguments bound to `refs` in the state
    /// `environment`.
    fn compile_invocation(
        &self,
        program_info: ProgramInfo<'_>,
        invocation: &Invocation,
        libfunc: &ConcreteLibfunc,
        statement_idx: StatementIdx,
        refs: &Vec<ReferenceValue>,
        environment: Environment,
    ) -> Result<CompiledInvocation, InvocationError>;
}

/// The number of cells of the references from the `i`-th on.
pub open spec fn cells_from(refs: Seq<ReferenceValueView>, i: int) -> int
    decreases refs.len() - i,
{
    if i < 0 || i >= refs.len() {
        0
    } else {
        refs[i].cells.len() + cells_from(refs, i + 1)
    }
}

/// Whether the references lie on top of the stack: their cells, taken in
/// order, are the cells just below the allocation pointer, the last cell of
/// the last reference being `[ap - 1]`.
pub open spec fn on_stack(refs: Seq<ReferenceValueView>) -> bool {
    forall|i: int, c: int|
        0 <= i < refs.len() && 0 <= c < refs[i].cells.len() ==> {
            &&& c - cells_from(refs, i) >= i16::MIN
            &&& #[trigger] refs[i].cells[c] == CellExpression::Deref(
                Cell { register: Register::AP, offset: (c - cells_from(refs, i)) as i16 },
            )
        }
}

/// Checks that the references lie on top of the stack.
pub fn check_references_on_stack(refs: &Vec<ReferenceValue>) -> (r: Result<(), InvocationError>)
    ensures
        r == (if on_stack(reference_views(refs@)) {
            Ok::<(), InvocationError>(())
        } else {
            Err::<(), InvocationError>(InvocationError::InvalidReferenceExpressionForArgument)
        }),
{
    let ghost views = reference_views(refs@);
    let mut expected: i32 = -1;
    let mut i: usize = refs.len();
    while i > 0
        invariant
            i <= refs.len(),
            views == reference_views(refs@),
            expected == -1 - cells_from(views, i as int),
            -32769 <= expected <= -1,
            forall|i2: int, c2: int|
                i <= i2 < views.len() && 0 <= c2 < views[i2].cells.len() ==> {
                    &&& c2 - cells_from(views, i2) >= i16::MIN
                    &&& #[trigger] views[i2].cells[c2] == CellExpression::Deref(
                        Cell { register: Register::AP, offset: (c2 - cells_from(views, i2)) as i16 },
                    )
                },
        decreases i,
    {
        i -= 1;
        let cells = &refs[i].expression.cells;
        assert(views[i as int].cells == cells@);
        let mut c: usize = cells.len();
        while c > 0
            invariant
                c <= cells.len(),
                i < refs.len(),
                views == reference_views(refs@),
                views[i as int].cells == cells@,
                expected == -1 - cells_from(views, i + 1) - (cells.len() - c),
                -32769 <= expected <= -1,
                forall|c2: int|
                    c <= c2 < cells.len() ==> {
                        &&& c2 - cells_from(views, i as int) >= i16::MIN
                        &&& #[trigger] cells@[c2] == CellExpression::Deref(
                            Cell {
                                register: Register::AP,
                                offset: (c2 - cells_from(views, i as int)) as i16,
                            },
                        )
                    },
            decreases c,
        {
            c -= 1;
            let fits: bool = match &cells[c] {
                CellExpression::Deref(cell) => match cell.register {
                    Register::AP => cell.offset as i32 == expected,
                    Register::FP => false,
                },
                _ => false,
            };
            if !fits {
                assert(views[i as int].cells[c as int] == cells@[c as int]);
                return Err(InvocationError::InvalidReferenceExpressionForArgument);
            }
            expected = expected - 1;
        }
    }
    Ok(())
}

} // verus!
