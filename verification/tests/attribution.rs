use ip_attribution::attribution::{
    attribute, attribute_requests, attribute_scoped_requests, check_alignment, utility,
    utility_max, AttributionError, DrawRequest, OutcomeSpace,
};
use ip_attribution::records::{AttributedRecord, BoundRecord, Record};

fn record(name: &str, count: u64) -> Record {
    Record { name: name.to_string(), count }
}

fn bound(name: &str, lower: i64, upper: i64, estimate: i64) -> BoundRecord {
    BoundRecord { name: name.to_string(), lower, upper, estimate }
}

fn attributed(name: &str, count: u64, ideal_partition: i64, attributed: i64) -> AttributedRecord {
    AttributedRecord { name: name.to_string(), count, ideal_partition, attributed }
}

fn sorted(mut values: Vec<i64>) -> Vec<i64> {
    values.sort();
    values
}

#[test]
fn utility_is_the_distance_from_the_count() {
    assert_eq!(utility(7, 10), 3);
    assert_eq!(utility(10, 7), 3);
    assert_eq!(utility(5, 5), 0);
    assert_eq!(utility(-4, 6), 10);
    assert_eq!(utility(0, 0), 0);
}

#[test]
fn utility_at_the_limits() {
    assert_eq!(utility(i64::MIN, u64::MAX), (1u128 << 63) + u64::MAX as u128);
    assert_eq!(utility(i64::MAX, 0), i64::MAX as u128);
    assert_eq!(utility(i64::MIN, 0), 1u128 << 63);
    assert_eq!(utility(i64::MAX, u64::MAX), 1u128 << 63);
}

#[test]
fn utility_of_a_request_measures_against_its_target() {
    let request = DrawRequest {
        space: OutcomeSpace::Partition,
        target: 12,
        utility_min: 0,
        utility_max: 20,
    };
    assert_eq!(request.utility(9), 3);
    assert_eq!(request.utility(15), 3);
    assert_eq!(request.utility(12), 0);
}

#[test]
fn utility_max_is_the_largest_part() {
    assert_eq!(utility_max(&vec![4, 9, 6], 100), 9);
    assert_eq!(utility_max(&vec![-4, -9], 100), -4);
    assert_eq!(utility_max(&vec![3], 0), 3);
}

#[test]
fn utility_max_of_an_empty_partition_is_the_total_count() {
    assert_eq!(utility_max(&Vec::new(), 20), 20);
    assert_eq!(utility_max(&Vec::new(), -1), -1);
}

#[test]
fn outcomes_of_the_partition_are_its_values_in_its_order() {
    let request =
        DrawRequest { space: OutcomeSpace::Partition, target: 1, utility_min: 0, utility_max: 9 };
    assert_eq!(request.outcomes(&vec![4, 9, 6]), vec![4, 9, 6]);
    assert_eq!(request.outcomes(&Vec::new()), Vec::<i64>::new());
}

#[test]
fn outcomes_of_a_range_include_both_ends() {
    let request = |lower: i64, upper: i64| DrawRequest {
        space: OutcomeSpace::Range { lower, upper },
        target: 1,
        utility_min: 0,
        utility_max: 9,
    };
    let ip = vec![4, 9, 6];
    assert_eq!(request(2, 5).outcomes(&ip), vec![2, 3, 4, 5]);
    assert_eq!(request(-2, 1).outcomes(&ip), vec![-2, -1, 0, 1]);
    assert_eq!(request(3, 3).outcomes(&ip), vec![3]);
    assert_eq!(request(4, 3).outcomes(&ip), Vec::<i64>::new());
    assert_eq!(request(i64::MAX - 1, i64::MAX).outcomes(&ip), vec![i64::MAX - 1, i64::MAX]);
    assert_eq!(request(i64::MIN, i64::MIN + 1).outcomes(&ip), vec![i64::MIN, i64::MIN + 1]);
}

#[test]
fn max_outcomes_counts_the_candidates() {
    assert_eq!(DrawRequest::max_outcomes(&vec![4, 9, 6]), 3);
    assert_eq!(DrawRequest::max_outcomes(&Vec::new()), 0);
}

#[test]
fn attribute_requests_sorts_the_table_by_name() {
    let mut table = vec![record("c", 5), record("a", 10), record("b", 7)];
    let ip = vec![9, 6, 4];
    let requests = attribute_requests(&ip, &mut table, 22);
    assert_eq!(table, vec![record("a", 10), record("b", 7), record("c", 5)]);
    let request = |target: u64| DrawRequest {
        space: OutcomeSpace::Partition,
        target,
        utility_min: 0,
        utility_max: 9,
    };
    assert_eq!(requests, vec![request(10), request(7), request(5)]);
}

#[test]
fn attribute_requests_for_an_empty_partition() {
    let mut table = vec![record("a", 10)];
    let requests = attribute_requests(&Vec::new(), &mut table, 10);
    assert_eq!(
        requests,
        vec![DrawRequest {
            space: OutcomeSpace::Partition,
            target: 10,
            utility_min: 0,
            utility_max: 10,
        }]
    );
}

#[test]
fn scoped_requests_draw_from_the_range_of_the_bound_record() {
    let mut table = vec![record("b", 5), record("a", 10)];
    let mut bounds = vec![bound("a", 8, 12, 10), bound("b", 3, 6, 5)];
    let ip = vec![6, 9];
    let requests = attribute_scoped_requests(&ip, &mut table, &mut bounds, 15).unwrap();
    assert_eq!(table, vec![record("a", 10), record("b", 5)]);
    assert_eq!(bounds, vec![bound("a", 8, 12, 10), bound("b", 3, 6, 5)]);
    assert_eq!(
        requests,
        vec![
            DrawRequest {
                space: OutcomeSpace::Range { lower: 8, upper: 12 },
                target: 10,
                utility_min: 0,
                utility_max: 9,
            },
            DrawRequest {
                space: OutcomeSpace::Range { lower: 3, upper: 6 },
                target: 5,
                utility_min: 0,
                utility_max: 9,
            },
        ]
    );
    assert_eq!(requests[0].outcomes(&ip), vec![8, 9, 10, 11, 12]);
    assert_eq!(DrawRequest::max_outcomes(&requests[0].outcomes(&ip)), 5);
}

#[test]
fn scoped_requests_sort_both_tables() {
    let mut table = vec![record("b", 5), record("a", 10)];
    let mut bounds = vec![bound("b", 3, 6, 5), bound("a", 8, 12, 10)];
    let requests = attribute_scoped_requests(&vec![6, 9], &mut table, &mut bounds, 15).unwrap();
    assert_eq!(table, vec![record("a", 10), record("b", 5)]);
    assert_eq!(bounds, vec![bound("a", 8, 12, 10), bound("b", 3, 6, 5)]);
    assert_eq!(requests[0].space, OutcomeSpace::Range { lower: 8, upper: 12 });
    assert_eq!(requests[1].space, OutcomeSpace::Range { lower: 3, upper: 6 });
}

#[test]
fn scoped_requests_refuse_tables_of_different_length() {
    let mut table = vec![record("a", 10), record("b", 5)];
    let mut bounds = vec![bound("a", 8, 12, 10)];
    assert_eq!(
        attribute_scoped_requests(&vec![6, 9], &mut table, &mut bounds, 15),
        Err(AttributionError::Misaligned)
    );
    let mut table = vec![record("a", 10)];
    let mut bounds = vec![bound("a", 8, 12, 10), bound("b", 3, 6, 5)];
    assert_eq!(
        attribute_scoped_requests(&vec![6, 9], &mut table, &mut bounds, 15),
        Err(AttributionError::Misaligned)
    );
}

#[test]
fn scoped_requests_refuse_names_that_do_not_line_up() {
    let mut table = vec![record("a", 10), record("b", 5)];
    let mut bounds = vec![bound("c", 3, 6, 5), bound("a", 8, 12, 10)];
    assert_eq!(
        attribute_scoped_requests(&vec![6, 9], &mut table, &mut bounds, 15),
        Err(AttributionError::Misaligned)
    );
    // Both tables are sorted all the same.
    assert_eq!(bounds, vec![bound("a", 8, 12, 10), bound("c", 3, 6, 5)]);
}

#[test]
fn alignment_is_by_place_and_name() {
    let table = vec![record("a", 10), record("b", 5)];
    assert!(check_alignment(&table, &vec![bound("a", 0, 1, 0), bound("b", 0, 1, 0)]));
    assert!(!check_alignment(&table, &vec![bound("b", 0, 1, 0), bound("a", 0, 1, 0)]));
    assert!(!check_alignment(&table, &vec![bound("a", 0, 1, 0)]));
    assert!(check_alignment(&Vec::new(), &Vec::new()));
}

#[test]
fn attribute_by_rank_of_the_draws() {
    let table = vec![record("a", 10), record("b", 5), record("c", 5)];
    let ip = vec![9, 6, 4];
    // c drew the largest value, then a, then b.
    let list = attribute(&ip, &table, &vec![6, 4, 9]).unwrap();
    assert_eq!(
        list,
        vec![attributed("a", 10, 9, 6), attributed("c", 5, 6, 9), attributed("b", 5, 4, 4)]
    );
}

#[test]
fn attribute_breaks_equal_draws_by_name() {
    let table = vec![record("a", 10), record("b", 5), record("c", 5)];
    let ip = vec![9, 6, 4];
    // b and c drew the same value: b ranks before c, and a comes last.
    let list = attribute(&ip, &table, &vec![4, 9, 9]).unwrap();
    assert_eq!(
        list,
        vec![attributed("a", 10, 9, 4), attributed("b", 5, 6, 9), attributed("c", 5, 4, 6)]
    );
}

#[test]
fn attribute_breaks_equal_draws_by_name_whatever_the_order_of_the_table() {
    let table = vec![record("c", 5), record("b", 5), record("a", 10)];
    let list = attribute(&vec![9, 6, 4], &table, &vec![7, 7, 7]).unwrap();
    assert_eq!(
        list,
        vec![attributed("a", 10, 9, 9), attributed("b", 5, 6, 6), attributed("c", 5, 4, 4)]
    );
}

#[test]
fn attribute_uses_the_draw_for_the_rank_only() {
    let table = vec![record("a", 10), record("b", 5)];
    // The draws are no values of the partition; they only rank b before a.
    let list = attribute(&vec![8, 7], &table, &vec![-100, 1000]).unwrap();
    assert_eq!(list, vec![attributed("a", 10, 8, 7), attributed("b", 5, 7, 8)]);
}

#[test]
fn attribute_takes_the_partition_in_descending_order() {
    let table = vec![record("a", 10), record("b", 5), record("c", 5)];
    let list = attribute(&vec![4, 9, 6], &table, &vec![3, 2, 1]).unwrap();
    assert_eq!(
        list,
        vec![attributed("a", 10, 9, 9), attributed("b", 5, 6, 6), attributed("c", 5, 4, 4)]
    );
}

#[test]
fn attribute_takes_the_largest_values_of_a_longer_partition() {
    let table = vec![record("a", 1), record("b", 2)];
    let list = attribute(&vec![1, 5, 3, 4, 2], &table, &vec![0, 1]).unwrap();
    assert_eq!(list, vec![attributed("b", 2, 5, 5), attributed("a", 1, 4, 4)]);
}

#[test]
fn attribute_keeps_rank_order_among_equal_counts() {
    let table = vec![record("a", 5), record("b", 5), record("c", 5)];
    // Ranks: c, a, b. The counts are equal, so the ideal values follow the ranks.
    let list = attribute(&vec![3, 2, 1], &table, &vec![5, 1, 9]).unwrap();
    assert_eq!(
        list,
        vec![attributed("c", 5, 3, 3), attributed("a", 5, 2, 2), attributed("b", 5, 1, 1)]
    );
}

#[test]
fn attribute_nothing() {
    assert_eq!(attribute(&Vec::new(), &Vec::new(), &Vec::new()), Ok(Vec::new()));
    assert_eq!(attribute(&vec![3, 1], &Vec::new(), &Vec::new()), Ok(Vec::new()));
}

#[test]
fn attribute_refuses_a_draw_count_that_differs() {
    let table = vec![record("a", 10), record("b", 5)];
    assert_eq!(
        attribute(&vec![9, 6], &table, &vec![1]),
        Err(AttributionError::DrawCountMismatch)
    );
    assert_eq!(
        attribute(&vec![9, 6], &table, &vec![1, 2, 3]),
        Err(AttributionError::DrawCountMismatch)
    );
    // The draw count is looked at first.
    assert_eq!(attribute(&vec![9], &table, &vec![1]), Err(AttributionError::DrawCountMismatch));
}

#[test]
fn attribute_refuses_a_partition_that_is_too_short() {
    let table = vec![record("a", 10), record("b", 5)];
    assert_eq!(
        attribute(&vec![9], &table, &vec![1, 2]),
        Err(AttributionError::PartitionTooShort)
    );
    assert_eq!(
        attribute(&Vec::new(), &table, &vec![1, 2]),
        Err(AttributionError::PartitionTooShort)
    );
}

#[test]
fn attributed_values_are_the_values_of_the_partition() {
    let table =
        vec![record("a", 3), record("b", 8), record("c", 8), record("d", 1), record("e", 5)];
    let ip = vec![7, 7, 2, 9, 0];
    for draws in [vec![1, 2, 3, 4, 5], vec![5, 4, 3, 2, 1], vec![0, 0, 0, 0, 0], vec![2, 9, 2, 9, 2]]
    {
        let list = attribute(&ip, &table, &draws).unwrap();
        let values: Vec<i64> = list.iter().map(|r| r.attributed).collect();
        assert_eq!(sorted(values), sorted(ip.clone()));
    }
}

#[test]
fn ideal_values_follow_the_true_counts() {
    let table =
        vec![record("a", 3), record("b", 8), record("c", 8), record("d", 1), record("e", 5)];
    let ip = vec![7, 7, 2, 9, 0];
    for draws in [vec![1, 2, 3, 4, 5], vec![5, 4, 3, 2, 1], vec![2, 9, 2, 9, 2]] {
        let list = attribute(&ip, &table, &draws).unwrap();
        let counts: Vec<u64> = list.iter().map(|r| r.count).collect();
        let ideals: Vec<i64> = list.iter().map(|r| r.ideal_partition).collect();
        assert_eq!(counts, vec![8, 8, 5, 3, 1]);
        assert_eq!(ideals, vec![9, 7, 7, 2, 0]);
    }
}

#[test]
fn attribution_keeps_the_records() {
    let table = vec![record("a", 3), record("b", 8), record("a", 8)];
    let list = attribute(&vec![1, 2, 3], &table, &vec![5, 5, 5]).unwrap();
    let mut identities: Vec<(String, u64)> =
        list.iter().map(|r| (r.name.clone(), r.count)).collect();
    identities.sort();
    assert_eq!(
        identities,
        vec![("a".to_string(), 3), ("a".to_string(), 8), ("b".to_string(), 8)]
    );
}

#[test]
fn attribution_errors_in_words() {
    assert_eq!(
        AttributionError::Misaligned.message(),
        "The records and the bound records do not line up by name"
    );
    assert_eq!(
        AttributionError::DrawCountMismatch.message(),
        "There is not one draw for each record"
    );
    assert_eq!(
        AttributionError::PartitionTooShort.message(),
        "The integer partition has fewer values than there are records"
    );
}
