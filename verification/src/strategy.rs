//! The strategies by name: how the partition bound is built and how the
//! protected values are attributed.

use vstd::prelude::*;
use crate::names::same_name;

verus! {

/// How the partition bound is built.
#[derive(Clone, Copy, Debug, PartialEq, Eq)]
pub enum PartitionStrategies {
    /// Noisy estimates of the true partition, under a budget.
    Laplace,
    /// Distance from a historical partition, under a budget.
    HistoricalDistance,
    /// Bounds and estimates as a file supplies them.
    FromFile,
    /// The trivial bound.
    Naive,
}

/// How the protected values are attributed to the records.
#[derive(Clone, Copy, Debug, PartialEq, Eq)]
pub enum AttributionStrategies {
    /// Every record draws from the whole protected partition.
    Basic,
    /// Every record draws from the range that its bound record gives.
    Scoped,
}

/// The message for a name that names no partition strategy.
pub open spec fn no_matching_strategy() -> Seq<char> {
    "No matching partition strategy"@
}

/// The partition strategy that `name` names, if it names one.
pub open spec fn strategy_named(name: Seq<char>) -> Option<PartitionStrategies> {
    if name == "Laplace"@ {
        Some(PartitionStrategies::Laplace)
    } else if name == "HistoricalDistance"@ {
        Some(PartitionStrategies::HistoricalDistance)
    } else if name == "FromFile"@ {
        Some(PartitionStrategies::FromFile)
    } else if name == "Naive"@ {
        Some(PartitionStrategies::Naive)
    } else {
        None
    }
}

/// The attribution strategy that `name` selects: scoped where it says so,
/// basic otherwise.
pub open spec fn attribution_named(name: Seq<char>) -> AttributionStrategies {
    if name == "Scoped"@ {
        AttributionStrategies::Scoped
    } else {
        AttributionStrategies::Basic
    }
}

impl PartitionStrategies {
    /// Reads a strategy from its name. A name that names none is an error.
    pub fn from_str(s: &str) -> (r: Result<PartitionStrategies, &'static str>)
        ensures
            match r {
                Ok(strategy) => strategy_named(s@) == Some(strategy),
                Err(message) => strategy_named(s@) is None && message@ == no_matching_strategy(),
            },
    {
        if same_name(s, "Laplace") {
            Ok(PartitionStrategies::Laplace)
        } else if same_name(s, "HistoricalDistance") {
            Ok(PartitionStrategies::HistoricalDistance)
        } else if same_name(s, "FromFile") {
            Ok(PartitionStrategies::FromFile)
        } else if same_name(s, "Naive") {
            Ok(PartitionStrategies::Naive)
        } else {
            Err("No matching partition strategy")
        }
    }

    /// Selects a strategy by name. A name that names none selects the naive
    /// strategy.
    pub fn select(name: &str) -> (strategy: PartitionStrategies)
        ensures
            strategy == match strategy_named(name@) {
                Some(named) => named,
                None => PartitionStrategies::Naive,
            },
    {
        match PartitionStrategies::from_str(name) {
            Ok(named) => named,
            Err(_) => PartitionStrategies::Naive,
        }
    }
}

impl AttributionStrategies {
    /// Selects a strategy by name. Any name but that of the scoped strategy
    /// selects the basic one.
    pub fn select(name: &str) -> (strategy: AttributionStrategies)
        ensures
            strategy == attribution_named(name@),
    {
        if same_name(name, "Scoped") {
            AttributionStrategies::Scoped
        } else {
            AttributionStrategies::Basic
        }
    }
}

} // verus!
