//! The privacy budgets of a run, as the parameter triples from which the
//! budget tokens of the mechanisms are made.

use vstd::prelude::*;

verus! {

/// The three parameters of one privacy budget.
#[derive(Clone, Copy, Debug, PartialEq, Eq)]
pub struct BudgetParameters {
    pub x: u32,
    pub y: u32,
    pub z: u32,
}

/// The budgets of a run, one for each stage that spends one.
#[derive(Clone, Copy, Debug, PartialEq, Eq)]
pub struct BudgetSet {
    /// For building the weight table.
    pub weights: BudgetParameters,
    /// For the noisy estimates of the Laplace strategy.
    pub estimates: BudgetParameters,
    /// For sparsity control under the Laplace strategy.
    pub sparsity: BudgetParameters,
    /// For the historical-distance strategy.
    pub reference: BudgetParameters,
    /// For each draw of the attribution.
    pub attribution: BudgetParameters,
}

impl BudgetSet {
    /// The budgets that a run uses unless it is given others.
    pub fn preset() -> (budgets: BudgetSet)
        ensures
            budgets.weights == (BudgetParameters { x: 1, y: 1, z: 1 }),
            budgets.estimates == (BudgetParameters { x: 7, y: 3, z: 1 }),
            budgets.sparsity == (BudgetParameters { x: 7, y: 3, z: 1 }),
            budgets.reference == (BudgetParameters { x: 7, y: 3, z: 1 }),
            budgets.attribution == (BudgetParameters { x: 1, y: 1, z: 1 }),
    {
        BudgetSet {
            weights: BudgetParameters { x: 1, y: 1, z: 1 },
            estimates: BudgetParameters { x: 7, y: 3, z: 1 },
            sparsity: BudgetParameters { x: 7, y: 3, z: 1 },
            reference: BudgetParameters { x: 7, y: 3, z: 1 },
            attribution: BudgetParameters { x: 1, y: 1, z: 1 },
        }
    }
}

} // verus!
