//! The partition bound: for each rank of the true partition, the range in
//! which its value may lie, and how the bound is chosen.

use vstd::prelude::*;
use crate::budget::{BudgetParameters, BudgetSet};
use crate::partition::{
    counts, counts_fit, descending, lemma_descending, non_increasing, sort_descending,
    sorted_partition,
};
use crate::records::{BoundRecord, BoundRecordView, Record, RecordView};
use crate::strategy::PartitionStrategies;

verus! {

/// For each rank, the lower and the upper bound of the value at that rank,
/// with the totals that the bound was made for.
#[derive(Debug, PartialEq, Eq)]
pub struct PartitionBound {
    /// Upper bound for each rank.
    pub upper: Vec<i64>,
    /// Lower bound for each rank.
    pub lower: Vec<i64>,
    /// The total count.
    pub count: usize,
    /// The number of cells, a closing sentinel not counted.
    pub cells: usize,
    /// Whether the bound was tightened for cells near zero.
    pub sparsity_control: bool,
    /// An estimate for each rank, where the bound comes with estimates.
    pub noisy_estimates: Option<Vec<i64>>,
}

/// What a `PartitionBound` stands for.
pub struct PartitionBoundView {
    pub upper: Seq<i64>,
    pub lower: Seq<i64>,
    pub count: usize,
    pub cells: usize,
    pub sparsity_control: bool,
    pub noisy_estimates: Option<Seq<i64>>,
}

impl DeepView for PartitionBound {
    type V = PartitionBoundView;

    open spec fn deep_view(&self) -> PartitionBoundView {
        PartitionBoundView {
            upper: self.upper@,
            lower: self.lower@,
            count: self.count,
            cells: self.cells,
            sparsity_control: self.sparsity_control,
            noisy_estimates: match self.noisy_estimates {
                Some(estimates) => Some(estimates@),
                None => None,
            },
        }
    }
}

impl View for PartitionBound {
    type V = PartitionBoundView;

    open spec fn view(&self) -> PartitionBoundView {
        self.deep_view()
    }
}

impl PartitionBoundView {
    /// Both bounds cover the same ranks, and neither rises from one rank to
    /// the next.
    pub open spec fn is_well_formed(self) -> bool {
        &&& self.upper.len() == self.lower.len()
        &&& non_increasing(self.upper)
        &&& non_increasing(self.lower)
    }
}

/// The trivial bound for a total count: as many cells as the count, each
/// between zero and the count, and no estimates.
pub open spec fn naive_bound(total_count: usize) -> PartitionBoundView {
    PartitionBoundView {
        upper: Seq::new(total_count as nat, |i: int| total_count as i64),
        lower: Seq::new(total_count as nat, |i: int| 0i64),
        count: total_count,
        cells: total_count,
        sparsity_control: false,
        noisy_estimates: None,
    }
}

/// The lower bounds of the bound records, in the order of the table.
pub open spec fn lowers(bounds: Seq<BoundRecordView>) -> Seq<i64> {
    Seq::new(bounds.len(), |i: int| bounds[i].lower)
}

/// The upper bounds of the bound records, in the order of the table.
pub open spec fn uppers(bounds: Seq<BoundRecordView>) -> Seq<i64> {
    Seq::new(bounds.len(), |i: int| bounds[i].upper)
}

/// The estimates of the bound records, in the order of the table.
pub open spec fn estimates(bounds: Seq<BoundRecordView>) -> Seq<i64> {
    Seq::new(bounds.len(), |i: int| bounds[i].estimate)
}

/// The bound that a table of bound records supplies: each of its three
/// columns in descending order by itself, a closing zero behind the lower
/// and the upper bounds, and one cell for each record.
pub open spec fn file_bound(total_count: usize, bounds: Seq<BoundRecordView>) -> PartitionBoundView {
    PartitionBoundView {
        upper: descending(uppers(bounds)).push(0),
        lower: descending(lowers(bounds)).push(0),
        count: total_count,
        cells: bounds.len() as usize,
        sparsity_control: false,
        noisy_estimates: Some(descending(estimates(bounds))),
    }
}

/// No bound record has a negative lower or upper bound.
pub open spec fn bounds_non_negative(bounds: Seq<BoundRecordView>) -> bool {
    forall|i: int| 0 <= i < bounds.len() ==> bounds[i].lower >= 0 && bounds[i].upper >= 0
}

/// The trivial bound is well formed, with one cell for each unit of the count.
pub proof fn lemma_naive_bound_well_formed(total_count: usize)
    ensures
        naive_bound(total_count).is_well_formed(),
        naive_bound(total_count).upper.len() == total_count,
        naive_bound(total_count).cells == total_count,
{
}

/// For a table whose records number as many as the total count, the trivial
/// bound has one cell for each record, each between zero and the count.
pub proof fn lemma_naive_bound_per_record(total_count: usize, records: nat)
    requires
        records == total_count,
        total_count <= i64::MAX,
    ensures
        naive_bound(total_count).cells == records,
        naive_bound(total_count).lower == Seq::new(records, |i: int| 0i64),
        naive_bound(total_count).upper == Seq::new(records, |i: int| total_count as i64),
{
}

/// Appending a zero behind values in descending order, none of them
/// negative, leaves them in descending order.
proof fn lemma_closing_zero(values: Seq<i64>)
    requires
        forall|i: int| 0 <= i < values.len() ==> values[i] >= 0,
    ensures
        non_increasing(descending(values).push(0)),
{
    broadcast use vstd::seq_lib::to_multiset_contains;

    lemma_descending(values);
    let sorted = descending(values);
    assert forall|i: int| 0 <= i < sorted.len() implies sorted[i] >= 0 by {
        assert(sorted.contains(sorted[i]));
        assert(sorted.to_multiset().count(sorted[i]) > 0);
        assert(values.contains(sorted[i]));
    }
}

/// A file bound has one rank more than the table has records, the last one
/// zero in both bounds, and one cell for each record.
pub proof fn lemma_file_bound_shape(total_count: usize, bounds: Seq<BoundRecordView>)
    requires
        bounds.len() <= usize::MAX,
    ensures
        file_bound(total_count, bounds).upper.len() == bounds.len() + 1,
        file_bound(total_count, bounds).lower.len() == bounds.len() + 1,
        file_bound(total_count, bounds).upper.last() == 0,
        file_bound(total_count, bounds).lower.last() == 0,
        file_bound(total_count, bounds).cells == bounds.len(),
{
    lemma_descending(uppers(bounds));
    lemma_descending(lowers(bounds));
}

/// The bound of a table without negative bounds is well formed.
pub proof fn lemma_file_bound_well_formed(total_count: usize, bounds: Seq<BoundRecordView>)
    requires
        bounds_non_negative(bounds),
    ensures
        file_bound(total_count, bounds).is_well_formed(),
{
    lemma_descending(uppers(bounds));
    lemma_descending(lowers(bounds));
    lemma_closing_zero(uppers(bounds));
    lemma_closing_zero(lowers(bounds));
}

/// Why no bound could be made.
#[derive(Clone, Copy, Debug, PartialEq, Eq)]
pub enum BoundError {
    /// The total count is larger than a bound can hold.
    CountTooLarge,
    /// A count of the historical table is larger than a part can be.
    HistoricalCountTooLarge,
}

/// What a bound error says.
pub open spec fn bound_error_message(e: BoundError) -> Seq<char> {
    match e {
        BoundError::CountTooLarge => "The total count is too large for a partition bound"@,
        BoundError::HistoricalCountTooLarge => "A historical count is too large for a partition"@,
    }
}

impl BoundError {
    /// The error in words.
    pub fn message(&self) -> (m: &'static str)
        ensures
            m@ == bound_error_message(*self),
    {
        match self {
            BoundError::CountTooLarge => "The total count is too large for a partition bound",
            BoundError::HistoricalCountTooLarge => {
                "A historical count is too large for a partition"
            },
        }
    }
}

impl PartitionBound {
    /// The trivial bound for a total count. There is none for a count that
    /// no bound can hold.
    pub fn naive(total_count: usize) -> (bound: Result<PartitionBound, BoundError>)
        ensures
            match bound {
                Ok(b) => total_count <= i64::MAX && b@ == naive_bound(total_count)
                    && b@.is_well_formed(),
                Err(e) => total_count > i64::MAX && e == BoundError::CountTooLarge,
            },
    {
        let wide = total_count as u64;
        if wide > i64::MAX as u64 {
            return Err(BoundError::CountTooLarge);
        }
        let top = wide as i64;
        let mut upper: Vec<i64> = Vec::new();
        let mut lower: Vec<i64> = Vec::new();
        let mut i: usize = 0;
        while i < total_count
            invariant
                i <= total_count,
                top == total_count,
                upper@ == Seq::new(i as nat, |k: int| top),
                lower@ == Seq::new(i as nat, |k: int| 0i64),
            decreases total_count - i,
        {
            upper.push(top);
            lower.push(0);
            i = i + 1;
            assert(upper@ =~= Seq::new(i as nat, |k: int| top));
            assert(lower@ =~= Seq::new(i as nat, |k: int| 0i64));
        }
        let bound = PartitionBound {
            upper,
            lower,
            count: total_count,
            cells: total_count,
            sparsity_control: false,
            noisy_estimates: None,
        };
        assert(bound@.upper =~= naive_bound(total_count).upper);
        assert(bound@.lower =~= naive_bound(total_count).lower);
        Ok(bound)
    }

    /// The bound that a table of bound records supplies.
    pub fn from_file(total_count: usize, bounds: &Vec<BoundRecord>) -> (bound: PartitionBound)
        ensures
            bound@ == file_bound(total_count, bounds.deep_view()),
            bound@.upper.len() == bounds.len() + 1,
            bound@.lower.len() == bounds.len() + 1,
            bound@.upper.last() == 0,
            bound@.lower.last() == 0,
            bound@.cells == bounds.len(),
            bounds_non_negative(bounds.deep_view()) ==> bound@.is_well_formed(),
    {
        let n = bounds.len();
        let mut lower: Vec<i64> = Vec::new();
        let mut upper: Vec<i64> = Vec::new();
        let mut estimate: Vec<i64> = Vec::new();
        let mut i: usize = 0;
        while i < n
            invariant
                n == bounds.len(),
                i <= n,
                lower@.len() == i,
                upper@.len() == i,
                estimate@.len() == i,
                forall|k: int| 0 <= k < i ==> lower@[k] == bounds[k].lower,
                forall|k: int| 0 <= k < i ==> upper@[k] == bounds[k].upper,
                forall|k: int| 0 <= k < i ==> estimate@[k] == bounds[k].estimate,
            decreases n - i,
        {
            lower.push(bounds[i].lower);
            upper.push(bounds[i].upper);
            estimate.push(bounds[i].estimate);
            i = i + 1;
        }
        assert(lower@ =~= lowers(bounds.deep_view()));
        assert(upper@ =~= uppers(bounds.deep_view()));
        assert(estimate@ =~= estimates(bounds.deep_view()));
        sort_descending(&mut lower);
        sort_descending(&mut upper);
        sort_descending(&mut estimate);
        lower.push(0);
        upper.push(0);
        proof {
            lemma_file_bound_shape(total_count, bounds.deep_view());
            if bounds_non_negative(bounds.deep_view()) {
                lemma_file_bound_well_formed(total_count, bounds.deep_view());
            }
        }
        PartitionBound {
            upper,
            lower,
            count: total_count,
            cells: n,
            sparsity_control: false,
            noisy_estimates: Some(estimate),
        }
    }
}

/// What the bound selector hands back: the bound itself where the inputs
/// determine it, and otherwise what the mechanism that makes the bound is
/// to be given.
#[derive(Debug, PartialEq, Eq)]
pub enum BoundPlan {
    /// The bound.
    Ready(PartitionBound),
    /// The bound is to be made from noisy estimates of the true partition,
    /// under `budget`, and tightened for cells near zero under
    /// `sparsity_budget` where there is one.
    NoisyEstimates {
        total_count: usize,
        total_cells: usize,
        budget: BudgetParameters,
        sparsity_budget: Option<BudgetParameters>,
    },
    /// The bound is to be made from the distance of the true partition to
    /// `reference`, under `budget`.
    Reference { total_count: usize, reference: Vec<i64>, budget: BudgetParameters },
}

/// What a `BoundPlan` stands for.
pub enum BoundPlanView {
    Ready(PartitionBoundView),
    NoisyEstimates {
        total_count: usize,
        total_cells: usize,
        budget: BudgetParameters,
        sparsity_budget: Option<BudgetParameters>,
    },
    Reference { total_count: usize, reference: Seq<i64>, budget: BudgetParameters },
}

impl DeepView for BoundPlan {
    type V = BoundPlanView;

    open spec fn deep_view(&self) -> BoundPlanView {
        match *self {
            BoundPlan::Ready(bound) => BoundPlanView::Ready(bound@),
            BoundPlan::NoisyEstimates { total_count, total_cells, budget, sparsity_budget } => {
                BoundPlanView::NoisyEstimates { total_count, total_cells, budget, sparsity_budget }
            },
            BoundPlan::Reference { total_count, reference, budget } => BoundPlanView::Reference {
                total_count,
                reference: reference@,
                budget,
            },
        }
    }
}

impl View for BoundPlan {
    type V = BoundPlanView;

    open spec fn view(&self) -> BoundPlanView {
        self.deep_view()
    }
}

/// What the bound selector hands back for a strategy and its inputs.
pub open spec fn selected_bound(
    strategy: PartitionStrategies,
    total_count: usize,
    total_cells: usize,
    budgets: BudgetSet,
    historical: Seq<RecordView>,
    file_bounds: Seq<BoundRecordView>,
    sparsity_control: bool,
) -> Result<BoundPlanView, BoundError> {
    match strategy {
        PartitionStrategies::Laplace => Ok(
            BoundPlanView::NoisyEstimates {
                total_count,
                total_cells,
                budget: budgets.estimates,
                sparsity_budget: if sparsity_control {
                    Some(budgets.sparsity)
                } else {
                    None
                },
            },
        ),
        PartitionStrategies::HistoricalDistance => if counts_fit(historical) {
            Ok(
                BoundPlanView::Reference {
                    total_count,
                    reference: descending(counts(historical)),
                    budget: budgets.reference,
                },
            )
        } else {
            Err(BoundError::HistoricalCountTooLarge)
        },
        PartitionStrategies::FromFile => Ok(
            BoundPlanView::Ready(file_bound(total_count, file_bounds)),
        ),
        PartitionStrategies::Naive => if total_count <= i64::MAX {
            Ok(BoundPlanView::Ready(naive_bound(total_count)))
        } else {
            Err(BoundError::CountTooLarge)
        },
    }
}

/// The naive strategy looks at the total count alone: whatever the other
/// inputs and the budgets are, the same count selects the same bound.
pub proof fn lemma_naive_selection_repeatable(
    total_count: usize,
    cells_a: usize,
    cells_b: usize,
    budgets_a: BudgetSet,
    budgets_b: BudgetSet,
    historical_a: Seq<RecordView>,
    historical_b: Seq<RecordView>,
    bounds_a: Seq<BoundRecordView>,
    bounds_b: Seq<BoundRecordView>,
    sparsity_a: bool,
    sparsity_b: bool,
)
    ensures
        selected_bound(
            PartitionStrategies::Naive,
            total_count,
            cells_a,
            budgets_a,
            historical_a,
            bounds_a,
            sparsity_a,
        ) == selected_bound(
            PartitionStrategies::Naive,
            total_count,
            cells_b,
            budgets_b,
            historical_b,
            bounds_b,
            sparsity_b,
        ),
{
}

/// The file strategy looks at the total count and the table of bound records
/// alone: whatever the other inputs and the budgets are, the same count and
/// table select the same bound.
pub proof fn lemma_file_selection_repeatable(
    total_count: usize,
    bounds: Seq<BoundRecordView>,
    cells_a: usize,
    cells_b: usize,
    budgets_a: BudgetSet,
    budgets_b: BudgetSet,
    historical_a: Seq<RecordView>,
    historical_b: Seq<RecordView>,
    sparsity_a: bool,
    sparsity_b: bool,
)
    ensures
        selected_bound(
            PartitionStrategies::FromFile,
            total_count,
            cells_a,
            budgets_a,
            historical_a,
            bounds,
            sparsity_a,
        ) == selected_bound(
            PartitionStrategies::FromFile,
            total_count,
            cells_b,
            budgets_b,
            historical_b,
            bounds,
            sparsity_b,
        ),
{
}

/// Chooses the partition bound for a strategy: the bound itself for the
/// naive and the file strategy, and for the other two what the mechanism
/// that makes the bound is to be given.
pub fn select_bound(
    strategy: PartitionStrategies,
    total_count: usize,
    total_cells: usize,
    budgets: &BudgetSet,
    historical: &Vec<Record>,
    file_bounds: &Vec<BoundRecord>,
    sparsity_control: bool,
) -> (plan: Result<BoundPlan, BoundError>)
    ensures
        match plan {
            Ok(p) => Ok::<BoundPlanView, BoundError>(p@) == selected_bound(
                strategy,
                total_count,
                total_cells,
                *budgets,
                historical.deep_view(),
                file_bounds.deep_view(),
                sparsity_control,
            ),
            Err(e) => Err::<BoundPlanView, BoundError>(e) == selected_bound(
                strategy,
                total_count,
                total_cells,
                *budgets,
                historical.deep_view(),
                file_bounds.deep_view(),
                sparsity_control,
            ),
        },
        plan matches Ok(BoundPlan::Ready(b)) ==> (strategy is Naive || bounds_non_negative(
            file_bounds.deep_view(),
        ) ==> b@.is_well_formed()),
{
    match strategy {
        PartitionStrategies::Laplace => {
            let sparsity_budget = if sparsity_control {
                Some(budgets.sparsity)
            } else {
                None
            };
            Ok(
                BoundPlan::NoisyEstimates {
                    total_count,
                    total_cells,
                    budget: budgets.estimates,
                    sparsity_budget,
                },
            )
        },
        PartitionStrategies::HistoricalDistance => {
            match sorted_partition(historical) {
                Some(reference) => Ok(
                    BoundPlan::Reference { total_count, reference, budget: budgets.reference },
                ),
                None => Err(BoundError::HistoricalCountTooLarge),
            }
        },
        PartitionStrategies::FromFile => Ok(
            BoundPlan::Ready(PartitionBound::from_file(total_count, file_bounds)),
        ),
        PartitionStrategies::Naive => {
            match PartitionBound::naive(total_count) {
                Ok(bound) => Ok(BoundPlan::Ready(bound)),
                Err(e) => Err(e),
            }
        },
    }
}

} // verus!
