//! Identifiers of the items of a program.

use vstd::prelude::*;

verus! {

/// The index of a statement in a program.
#[derive(Clone, Copy, Debug, PartialEq, Eq, Structural)]
pub struct StatementIdx(pub usize);

/// The identity of a variable.
#[derive(Clone, Copy, Debug, PartialEq, Eq, Structural)]
pub struct VarId(pub u64);

/// The identity of a concrete type.
#[derive(Clone, Copy, Debug, PartialEq, Eq, Structural)]
pub struct TypeId(pub u64);

/// The identity of a concrete library function.
#[derive(Clone, Copy, Debug, PartialEq, Eq, Structural)]
pub struct LibfuncId(pub u64);

/// The identity of a user function.
#[derive(Clone, Copy, Debug, PartialEq, Eq, Structural)]
pub struct FunctionId(pub u64);

/// Where a branch of an invocation continues.
#[derive(Clone, Copy, Debug, PartialEq, Eq, Structural)]
pub enum BranchTarget {
    /// The statement that follows the invocation.
    Fallthrough,
    /// The statement with the given index.
    Statement(StatementIdx),
}

impl StatementIdx {
    /// The statement that `target` leads to from `self`.
    pub open spec fn spec_next(self, target: BranchTarget) -> int {
        match target {
            BranchTarget::Fallthrough => self.0 + 1,
            BranchTarget::Statement(idx) => idx.0 as int,
        }
    }

    /// The statement that `target` leads to from this one, or `None` where
    /// its index does not fit in a machine word.
    pub fn next(&self, target: &BranchTarget) -> (r: Option<StatementIdx>)
        ensures
            r == (if self.spec_next(*target) <= usize::MAX {
                Some(StatementIdx(self.spec_next(*target) as usize))
            } else {
                None
            }),
    {
        match target {
            BranchTarget::Fallthrough => {
                if self.0 < usize::MAX {
                    Some(StatementIdx(self.0 + 1))
                } else {
                    None
                }
            },
            BranchTarget::Statement(idx) => Some(*idx),
        }
    }
}

} // verus!
