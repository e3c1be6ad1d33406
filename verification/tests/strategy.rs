use ip_attribution::strategy::{AttributionStrategies, PartitionStrategies};

#[test]
fn from_str_reads_each_strategy() {
    assert_eq!(PartitionStrategies::from_str("Laplace"), Ok(PartitionStrategies::Laplace));
    assert_eq!(
        PartitionStrategies::from_str("HistoricalDistance"),
        Ok(PartitionStrategies::HistoricalDistance)
    );
    assert_eq!(PartitionStrategies::from_str("FromFile"), Ok(PartitionStrategies::FromFile));
    assert_eq!(PartitionStrategies::from_str("Naive"), Ok(PartitionStrategies::Naive));
}

#[test]
fn from_str_refuses_other_names() {
    assert_eq!(PartitionStrategies::from_str(""), Err("No matching partition strategy"));
    assert_eq!(PartitionStrategies::from_str("laplace"), Err("No matching partition strategy"));
    assert_eq!(PartitionStrategies::from_str("Naive "), Err("No matching partition strategy"));
    assert_eq!(
        PartitionStrategies::from_str("HistoricalTrend"),
        Err("No matching partition strategy")
    );
}

#[test]
fn select_falls_back_to_naive() {
    assert_eq!(PartitionStrategies::select("Laplace"), PartitionStrategies::Laplace);
    assert_eq!(
        PartitionStrategies::select("HistoricalDistance"),
        PartitionStrategies::HistoricalDistance
    );
    assert_eq!(PartitionStrategies::select("FromFile"), PartitionStrategies::FromFile);
    assert_eq!(PartitionStrategies::select("Naive"), PartitionStrategies::Naive);
    assert_eq!(PartitionStrategies::select("Unknown"), PartitionStrategies::Naive);
    assert_eq!(PartitionStrategies::select(""), PartitionStrategies::Naive);
}

#[test]
fn attribution_defaults_to_basic() {
    assert_eq!(AttributionStrategies::select("Scoped"), AttributionStrategies::Scoped);
    assert_eq!(AttributionStrategies::select("Basic"), AttributionStrategies::Basic);
    assert_eq!(AttributionStrategies::select("scoped"), AttributionStrategies::Basic);
    assert_eq!(AttributionStrategies::select(""), AttributionStrategies::Basic);
}
