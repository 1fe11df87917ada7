//! References: the memory expressions that the variables of a program are
//! bound to while it is compiled.

use vstd::prelude::*;
use num_bigint::BigInt;
use cairo_lang_sierra_type_size::TypeSizeMap;
use crate::bigint::bigint_eq;
use crate::casm::Cell;
use crate::casm::CellOrConst;
use crate::casm::Register;
use crate::ids::FunctionId;
use crate::ids::StatementIdx;
use crate::ids::TypeId;
use crate::type_sizes::cell_count;
use crate::type_sizes::spec_cell_count;

verus! {

/// A change of the allocation pointer.
#[derive(Clone, Copy, Debug, PartialEq, Eq, Structural)]
pub enum ApChange {
    /// The pointer grew by the given number of cells.
    Known(usize),
    /// The pointer changed by an amount that is not known at compile time.
    Unknown,
}

/// Why a change of the allocation pointer cannot be applied to an expression.
#[derive(Clone, Copy, Debug, PartialEq, Eq, Structural)]
pub enum ApChangeError {
    /// The expression is relative to the allocation pointer and the change
    /// is unknown.
    UnknownApChange,
    /// The new offset is out of range.
    OffsetOverflow,
}

/// The operator of a binary cell expression.
#[derive(Clone, Copy, Debug, PartialEq, Eq, Structural)]
pub enum CellOperator {
    Add,
    Sub,
    Mul,
    Div,
}

/// The expression that gives the value of one memory cell.
#[derive(Clone, Debug, PartialEq, Eq)]
pub enum CellExpression {
    Deref(Cell),
    /// `[[cell] + offset]`.
    DoubleDeref(Cell, i16),
    Immediate(BigInt),
    /// `[a] op b`.
    BinOp { op: CellOperator, a: Cell, b: CellOrConst },
}

/// The cells of a value, in order.
#[derive(Clone, Debug, PartialEq, Eq)]
pub struct ReferenceExpression {
    pub cells: Vec<CellExpression>,
}

/// What a variable is bound to.
#[derive(Clone, Debug, PartialEq, Eq)]
pub struct ReferenceValue {
    pub expression: ReferenceExpression,
    pub ty: TypeId,
    /// The statement that introduced the binding.
    pub introduction_point: StatementIdx,
}

/// A `ReferenceValue` as a mathematical value.
pub struct ReferenceValueView {
    pub cells: Seq<CellExpression>,
    pub ty: TypeId,
    pub introduction_point: StatementIdx,
}

impl View for ReferenceValue {
    type V = ReferenceValueView;

    open spec fn view(&self) -> ReferenceValueView {
        ReferenceValueView {
            cells: self.expression.cells@,
            ty: self.ty,
            introduction_point: self.introduction_point,
        }
    }
}

/// The views of a sequence of references.
pub open spec fn reference_views(s: Seq<ReferenceValue>) -> Seq<ReferenceValueView> {
    s.map_values(|r: ReferenceValue| r@)
}

/// Errors of the checks on references.
#[derive(Clone, Copy, Debug, PartialEq, Eq, Structural)]
pub enum ReferencesError {
    /// The types of the references are not the expected types.
    InvalidReferenceTypeForArgument,
    /// A reference does not have as many cells as its type has.
    InvalidReferenceSize,
    /// The parameters of a function cannot be laid out.
    InvalidFunctionDeclaration(FunctionId),
}

impl Cell {
    /// The cell after the allocation pointer grew by `n`: a cell relative
    /// to the frame pointer stays; the offset of one relative to the
    /// allocation pointer shrinks by `n`, which must fit in 16 bits signed,
    /// as must the new offset.
    pub open spec fn spec_apply_known_ap_change(self, n: usize) -> Option<Cell> {
        match self.register {
            Register::FP => Some(self),
            Register::AP => if n <= i16::MAX && self.offset - n >= i16::MIN {
                Some(Cell { register: Register::AP, offset: (self.offset - n) as i16 })
            } else {
                None
            },
        }
    }

    /// The cell after the allocation pointer grew by `n`.
    pub fn apply_known_ap_change(&self, n: usize) -> (r: Option<Cell>)
        ensures
            r == self.spec_apply_known_ap_change(n),
    {
        match self.register {
            Register::FP => Some(*self),
            Register::AP => {
                if n <= 32767 {
                    let d: i16 = n as i16;
                    if self.offset >= i16::MIN + d {
                        Some(Cell { register: Register::AP, offset: self.offset - d })
                    } else {
                        None
                    }
                } else {
                    None
                }
            },
        }
    }

    /// Whether the cell keeps its meaning when the allocation pointer
    /// changes.
    pub open spec fn spec_ap_independent(self) -> bool {
        self.register == Register::FP
    }

    /// Whether the cell keeps its meaning when the allocation pointer
    /// changes.
    pub fn ap_independent(&self) -> (r: bool)
        ensures
            r == self.spec_ap_independent(),
    {
        match self.register {
            Register::FP => true,
            Register::AP => false,
        }
    }
}

impl CellOrConst {
    /// The cell or constant after the allocation pointer grew by `n`.
    pub open spec fn spec_apply_known_ap_change(self, n: usize) -> Option<CellOrConst> {
        match self {
            CellOrConst::Deref(c) => match c.spec_apply_known_ap_change(n) {
                Some(c2) => Some(CellOrConst::Deref(c2)),
                None => None,
            },
            CellOrConst::Immediate(v) => Some(self),
        }
    }

    /// The cell or constant after the allocation pointer grew by `n`.
    pub fn apply_known_ap_change(self, n: usize) -> (r: Option<CellOrConst>)
        ensures
            r == self.spec_apply_known_ap_change(n),
    {
        match self {
            CellOrConst::Deref(c) => match c.apply_known_ap_change(n) {
                Some(c2) => Some(CellOrConst::Deref(c2)),
                None => None,
            },
            CellOrConst::Immediate(v) => Some(CellOrConst::Immediate(v)),
        }
    }

    /// Whether the cell or constant keeps its meaning when the allocation
    /// pointer changes.
    pub open spec fn spec_ap_independent(self) -> bool {
        match self {
            CellOrConst::Deref(c) => c.spec_ap_independent(),
            CellOrConst::Immediate(_) => true,
        }
    }

    /// Whether the cell or constant keeps its meaning when the allocation
    /// pointer changes.
    pub fn ap_independent(&self) -> (r: bool)
        ensures
            r == self.spec_ap_independent(),
    {
        match self {
            CellOrConst::Deref(c) => c.ap_independent(),
            CellOrConst::Immediate(_) => true,
        }
    }

    /// Whether the two are the same cell or the same constant.
    pub fn same_as(&self, other: &CellOrConst) -> (r: bool)
        ensures
            r == (*self == *other),
    {
        match (self, other) {
            (CellOrConst::Deref(a), CellOrConst::Deref(b)) => *a == *b,
            (CellOrConst::Immediate(a), CellOrConst::Immediate(b)) => bigint_eq(a, b),
            _ => false,
        }
    }
}

impl CellExpression {
    /// The expression after the allocation pointer grew by `n`.
    pub open spec fn spec_apply_known_ap_change(self, n: usize) -> Option<CellExpression> {
        match self {
            CellExpression::Deref(c) => match c.spec_apply_known_ap_change(n) {
                Some(c2) => Some(CellExpression::Deref(c2)),
                None => None,
            },
            CellExpression::DoubleDeref(c, offset) => match c.spec_apply_known_ap_change(n) {
                Some(c2) => Some(CellExpression::DoubleDeref(c2, offset)),
                None => None,
            },
            CellExpression::Immediate(v) => Some(self),
            CellExpression::BinOp { op, a, b } => match (
                a.spec_apply_known_ap_change(n),
                b.spec_apply_known_ap_change(n),
            ) {
                (Some(a2), Some(b2)) => Some(CellExpression::BinOp { op, a: a2, b: b2 }),
                _ => None,
            },
        }
    }

    /// Whether the expression keeps its meaning when the allocation
    /// pointer changes.
    pub open spec fn spec_ap_independent(self) -> bool {
        match self {
            CellExpression::Deref(c) => c.spec_ap_independent(),
            CellExpression::DoubleDeref(c, _) => c.spec_ap_independent(),
            CellExpression::Immediate(_) => true,
            CellExpression::BinOp { op, a, b } => a.spec_ap_independent()
                && b.spec_ap_independent(),
        }
    }

    /// The expression after the change `change` of the allocation pointer.
    pub open spec fn spec_apply_ap_change(self, change: ApChange) -> Result<
        CellExpression,
        ApChangeError,
    > {
        match change {
            ApChange::Known(n) => match self.spec_apply_known_ap_change(n) {
                Some(e) => Ok(e),
                None => Err(ApChangeError::OffsetOverflow),
            },
            ApChange::Unknown => if self.spec_ap_independent() {
                Ok(self)
            } else {
                Err(ApChangeError::UnknownApChange)
            },
        }
    }

    /// The expression after the allocation pointer grew by `n`.
    pub fn apply_known_ap_change(self, n: usize) -> (r: Option<CellExpression>)
        ensures
            r == self.spec_apply_known_ap_change(n),
    {
        match self {
            CellExpression::Deref(c) => match c.apply_known_ap_change(n) {
                Some(c2) => Some(CellExpression::Deref(c2)),
                None => None,
            },
            CellExpression::DoubleDeref(c, offset) => match c.apply_known_ap_change(n) {
                Some(c2) => Some(CellExpression::DoubleDeref(c2, offset)),
                None => None,
            },
            CellExpression::Immediate(v) => Some(CellExpression::Immediate(v)),
            CellExpression::BinOp { op, a, b } => {
                let a2 = a.apply_known_ap_change(n);
                let b2 = b.apply_known_ap_change(n);
                match (a2, b2) {
                    (Some(a3), Some(b3)) => Some(CellExpression::BinOp { op, a: a3, b: b3 }),
                    _ => None,
                }
            },
        }
    }

    /// Whether the expression keeps its meaning when the allocation
    /// pointer changes.
    pub fn ap_independent(&self) -> (r: bool)
        ensures
            r == self.spec_ap_independent(),
    {
        match self {
            CellExpression::Deref(c) => c.ap_independent(),
            CellExpression::DoubleDeref(c, _) => c.ap_independent(),
            CellExpression::Immediate(_) => true,
            CellExpression::BinOp { op: _, a, b } => a.ap_independent() && b.ap_independent(),
        }
    }

    /// The expression after the change `change` of the allocation pointer.
    pub fn apply_ap_change(self, change: ApChange) -> (r: Result<CellExpression, ApChangeError>)
        ensures
            r == self.spec_apply_ap_change(change),
    {
        match change {
            ApChange::Known(n) => match self.apply_known_ap_change(n) {
                Some(e) => Ok(e),
                None => Err(ApChangeError::OffsetOverflow),
            },
            ApChange::Unknown => if self.ap_independent() {
                Ok(self)
            } else {
                Err(ApChangeError::UnknownApChange)
            },
        }
    }

    /// Whether the two expressions are the same.
    pub fn same_as(&self, other: &CellExpression) -> (r: bool)
        ensures
            r == (*self == *other),
    {
        match (self, other) {
            (CellExpression::Deref(a), CellExpression::Deref(b)) => *a == *b,
            (CellExpression::DoubleDeref(a, x), CellExpression::DoubleDeref(b, y)) => *a == *b
                && *x == *y,
            (CellExpression::Immediate(a), CellExpression::Immediate(b)) => bigint_eq(a, b),
            (
                CellExpression::BinOp { op: op1, a: a1, b: b1 },
                CellExpression::BinOp { op: op2, a: a2, b: b2 },
            ) => *op1 == *op2 && *a1 == *a2 && b1.same_as(b2),
            _ => false,
        }
    }

    /// A copy of the expression.
    pub fn duplicate(&self) -> (r: CellExpression)
        ensures
            r == *self,
    {
        match self {
            CellExpression::Deref(c) => CellExpression::Deref(*c),
            CellExpression::DoubleDeref(c, offset) => CellExpression::DoubleDeref(*c, *offset),
            CellExpression::Immediate(v) => CellExpression::Immediate(v.clone()),
            CellExpression::BinOp { op, a, b } => CellExpression::BinOp {
                op: *op,
                a: *a,
                b: b.duplicate(),
            },
        }
    }
}

/// The cells of `cells` after the change `change` of the allocation
/// pointer: the error of the first cell that the change cannot be applied
/// to, if there is one.
pub open spec fn spec_apply_ap_change_to_cells(
    cells: Seq<CellExpression>,
    change: ApChange,
) -> Result<Seq<CellExpression>, ApChangeError>
    decreases cells.len(),
{
    if cells.len() == 0 {
        Ok(Seq::empty())
    } else {
        match spec_apply_ap_change_to_cells(cells.drop_last(), change) {
            Err(e) => Err(e),
            Ok(done) => match cells.last().spec_apply_ap_change(change) {
                Err(e) => Err(e),
                Ok(c) => Ok(done.push(c)),
            },
        }
    }
}

impl ReferenceValueView {
    /// The reference after the change `change` of the allocation pointer.
    pub open spec fn apply_ap_change(self, change: ApChange) -> Result<
        ReferenceValueView,
        ApChangeError,
    > {
        match spec_apply_ap_change_to_cells(self.cells, change) {
            Err(e) => Err(e),
            Ok(cells) => Ok(
                ReferenceValueView {
                    cells,
                    ty: self.ty,
                    introduction_point: self.introduction_point,
                },
            ),
        }
    }
}

impl ReferenceValue {
    /// Whether the two references have the same cells, the same type and
    /// the same introduction point.
    pub fn same_as(&self, other: &ReferenceValue) -> (r: bool)
        ensures
            r == (self@ == other@),
    {
        if !(self.ty == other.ty) || !(self.introduction_point == other.introduction_point) {
            return false;
        }
        if self.expression.cells.len() != other.expression.cells.len() {
            return false;
        }
        let mut i: usize = 0;
        while i < self.expression.cells.len()
            invariant
                i <= self.expression.cells.len(),
                self.expression.cells.len() == other.expression.cells.len(),
                forall|j: int| 0 <= j < i ==> self.expression.cells@[j] == other.expression.cells@[j],
            decreases self.expression.cells.len() - i,
        {
            if !self.expression.cells[i].same_as(&other.expression.cells[i]) {
                return false;
            }
            i += 1;
        }
        assert(self.expression.cells@ =~= other.expression.cells@);
        true
    }

    /// A copy of the reference.
    pub fn duplicate(&self) -> (r: ReferenceValue)
        ensures
            r@ == self@,
    {
        let mut cells: Vec<CellExpression> = Vec::new();
        let mut i: usize = 0;
        while i < self.expression.cells.len()
            invariant
                i <= self.expression.cells.len(),
                cells@ == self.expression.cells@.take(i as int),
            decreases self.expression.cells.len() - i,
        {
            cells.push(self.expression.cells[i].duplicate());
            i += 1;
        }
        assert(self.expression.cells@.take(i as int) =~= self.expression.cells@);
        ReferenceValue {
            expression: ReferenceExpression { cells },
            ty: self.ty,
            introduction_point: self.introduction_point,
        }
    }

    /// The reference after the change `change` of the allocation pointer.
    pub fn apply_ap_change(&self, change: ApChange) -> (r: Result<ReferenceValue, ApChangeError>)
        ensures
            match self@.apply_ap_change(change) {
                Ok(v) => r is Ok && r->Ok_0@ == v,
                Err(e) => r == Err::<ReferenceValue, ApChangeError>(e),
            },
    {
        let mut cells: Vec<CellExpression> = Vec::new();
        let mut i: usize = 0;
        while i < self.expression.cells.len()
            invariant
                i <= self.expression.cells.len(),
                spec_apply_ap_change_to_cells(self.expression.cells@.take(i as int), change) == Ok::<
                    Seq<CellExpression>,
                    ApChangeError,
                >(cells@),
            decreases self.expression.cells.len() - i,
        {
            proof {
                let next = self.expression.cells@.take(i + 1);
                assert(next.drop_last() =~= self.expression.cells@.take(i as int));
            }
            match self.expression.cells[i].duplicate().apply_ap_change(change) {
                Ok(c) => {
                    cells.push(c);
                },
                Err(e) => {
                    proof {
                        lemma_apply_ap_change_err_prefix(self.expression.cells@, change, i + 1);
                    }
                    return Err(e);
                },
            }
            i += 1;
        }
        proof {
            assert(self.expression.cells@.take(i as int) =~= self.expression.cells@);
        }
        Ok(
            ReferenceValue {
                expression: ReferenceExpression { cells },
                ty: self.ty,
                introduction_point: self.introduction_point,
            },
        )
    }

    /// Whether the reference has as many cells as the size of its type.
    pub open spec fn spec_matches_size(self, type_sizes: TypeSizeMap) -> bool {
        match spec_cell_count(type_sizes, self.ty) {
            Some(n) => n == self.expression.cells@.len(),
            None => false,
        }
    }

    /// Whether the reference has as many cells as the size of its type.
    pub fn matches_size(&self, type_sizes: &TypeSizeMap) -> (r: bool)
        ensures
            r == self.spec_matches_size(*type_sizes),
    {
        match cell_count(type_sizes, self.ty) {
            Some(n) => n == self.expression.cells.len(),
            None => false,
        }
    }
}

/// An error in a prefix of the cells is the error of the whole.
pub proof fn lemma_apply_ap_change_err_prefix(cells: Seq<CellExpression>, change: ApChange, k: int)
    requires
        0 <= k <= cells.len(),
        spec_apply_ap_change_to_cells(cells.take(k), change) is Err,
    ensures
        spec_apply_ap_change_to_cells(cells, change) == spec_apply_ap_change_to_cells(
            cells.take(k),
            change,
        ),
    decreases cells.len() - k,
{
    if k < cells.len() {
        assert(cells.take(k + 1).drop_last() =~= cells.take(k));
        lemma_apply_ap_change_err_prefix(cells, change, k + 1);
    } else {
        assert(cells.take(k) =~= cells);
    }
}

/// The types of a sequence of references.
pub open spec fn types_of(refs: Seq<ReferenceValue>) -> Seq<TypeId> {
    refs.map_values(|r: ReferenceValue| r.ty)
}

/// Whether each reference has as many cells as the size of its type.
pub open spec fn all_match_size(refs: Seq<ReferenceValue>, type_sizes: TypeSizeMap) -> bool {
    forall|i: int| 0 <= i < refs.len() ==> (#[trigger] refs[i]).spec_matches_size(type_sizes)
}

/// The types of a sequence of references.
pub open spec fn view_types(refs: Seq<ReferenceValueView>) -> Seq<TypeId> {
    refs.map_values(|r: ReferenceValueView| r.ty)
}

/// Whether each reference has as many cells as the size of its type.
pub open spec fn views_match_size(refs: Seq<ReferenceValueView>, type_sizes: TypeSizeMap) -> bool {
    forall|i: int|
        0 <= i < refs.len() ==> match spec_cell_count(type_sizes, (#[trigger] refs[i]).ty) {
            Some(n) => n == refs[i].cells.len(),
            None => false,
        }
}

/// The types and the sizes of references are those of their views.
pub proof fn lemma_reference_views(refs: Seq<ReferenceValue>, type_sizes: TypeSizeMap)
    ensures
        view_types(reference_views(refs)) == types_of(refs),
        views_match_size(reference_views(refs), type_sizes) == all_match_size(refs, type_sizes),
{
    assert(view_types(reference_views(refs)) =~= types_of(refs));
    if all_match_size(refs, type_sizes) {
        assert forall|i: int| 0 <= i < refs.len() implies match spec_cell_count(
            type_sizes,
            (#[trigger] reference_views(refs)[i]).ty,
        ) {
            Some(n) => n == reference_views(refs)[i].cells.len(),
            None => false,
        } by {
            assert(refs[i].spec_matches_size(type_sizes));
        }
    }
    if views_match_size(reference_views(refs), type_sizes) {
        assert forall|i: int| 0 <= i < refs.len() implies (#[trigger] refs[i]).spec_matches_size(
            type_sizes,
        ) by {
            assert(reference_views(refs)[i].ty == refs[i].ty);
        }
    }
}

/// Checks that the references have the types `types`, in order.
pub fn check_types_match(refs: &Vec<ReferenceValue>, types: &Vec<TypeId>) -> (r: Result<
    (),
    ReferencesError,
>)
    ensures
        r == (if types_of(refs@) == types@ {
            Ok::<(), ReferencesError>(())
        } else {
            Err::<(), ReferencesError>(ReferencesError::InvalidReferenceTypeForArgument)
        }),
{
    if refs.len() != types.len() {
        return Err(ReferencesError::InvalidReferenceTypeForArgument);
    }
    let mut i: usize = 0;
    while i < refs.len()
        invariant
            i <= refs.len(),
            refs.len() == types.len(),
            forall|j: int| 0 <= j < i ==> refs@[j].ty == types@[j],
        decreases refs.len() - i,
    {
        if !(refs[i].ty == types[i]) {
            assert(types_of(refs@)[i as int] != types@[i as int]);
            return Err(ReferencesError::InvalidReferenceTypeForArgument);
        }
        i += 1;
    }
    assert(types_of(refs@) =~= types@);
    Ok(())
}

/// Checks that each reference has as many cells as the size of its type.
pub fn check_sizes(refs: &Vec<ReferenceValue>, type_sizes: &TypeSizeMap) -> (r: bool)
    ensures
        r == all_match_size(refs@, *type_sizes),
{
    let mut i: usize = 0;
    while i < refs.len()
        invariant
            i <= refs.len(),
            forall|j: int| 0 <= j < i ==> (#[trigger] refs@[j]).spec_matches_size(*type_sizes),
        decreases refs.len() - i,
    {
        if !refs[i].matches_size(type_sizes) {
            return false;
        }
        i += 1;
    }
    true
}

} // verus!
