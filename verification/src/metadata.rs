//! What earlier analyses found out about a program.

use vstd::prelude::*;
use crate::ids::FunctionId;
use crate::ids::StatementIdx;

verus! {

/// The growth of the allocation pointer over a whole function, for the
/// functions of which it is known.
#[derive(Clone, Debug, PartialEq, Eq)]
pub struct ApChangeInfo {
    pub function_ap_change: Vec<(FunctionId, usize)>,
}

/// The cost of gas.
#[derive(Clone, Debug, PartialEq, Eq)]
pub struct GasInfo {
    /// The values of the variables of the cost equations, by statement.
    pub variable_values: Vec<(StatementIdx, i64)>,
    /// The gas that each function needs at its entry.
    pub function_costs: Vec<(FunctionId, i64)>,
}

/// What earlier analyses found out about a program.
#[derive(Clone, Debug, PartialEq, Eq)]
pub struct Metadata {
    pub ap_change_info: ApChangeInfo,
    pub gas_info: GasInfo,
}

/// The cost of the first entry for the function `id`.
pub open spec fn find_function_cost(costs: Seq<(FunctionId, i64)>, id: FunctionId) -> Option<i64>
    decreases costs.len(),
{
    if costs.len() == 0 {
        None
    } else if costs[0].0 == id {
        Some(costs[0].1)
    } else {
        find_function_cost(costs.skip(1), id)
    }
}

impl Metadata {
    /// The gas that the function `id` needs at its entry.
    pub open spec fn spec_function_cost(self, id: FunctionId) -> Option<i64> {
        find_function_cost(self.gas_info.function_costs@, id)
    }

    /// The gas that the function `id` needs at its entry.
    pub fn function_cost(&self, id: FunctionId) -> (r: Option<i64>)
        ensures
            r == self.spec_function_cost(id),
    {
        let mut i: usize = 0;
        assert(self.gas_info.function_costs@.skip(0) =~= self.gas_info.function_costs@);
        while i < self.gas_info.function_costs.len()
            invariant
                i <= self.gas_info.function_costs.len(),
                find_function_cost(self.gas_info.function_costs@, id) == find_function_cost(
                    self.gas_info.function_costs@.skip(i as int),
                    id,
                ),
            decreases self.gas_info.function_costs.len() - i,
        {
            proof {
                assert(self.gas_info.function_costs@.skip(i as int).skip(1)
                    =~= self.gas_info.function_costs@.skip(i + 1));
            }
            if self.gas_info.function_costs[i].0 == id {
                return Some(self.gas_info.function_costs[i].1);
            }
            i += 1;
        }
        None
    }
}

} // verus!
