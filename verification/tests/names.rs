use ip_attribution::names::{name_precedes, same_name};
use ip_attribution::records::{sort_bounds_by_name, sort_by_name, BoundRecord, Record};

fn record(name: &str, count: u64) -> Record {
    Record { name: name.to_string(), count }
}

#[test]
fn names_compare_by_first_difference() {
    assert!(name_precedes("a", "b"));
    assert!(!name_precedes("b", "a"));
    assert!(name_precedes("abc", "abd"));
    assert!(!name_precedes("abd", "abc"));
}

#[test]
fn a_prefix_precedes_the_longer_name() {
    assert!(name_precedes("", ""));
    assert!(name_precedes("", "a"));
    assert!(!name_precedes("a", ""));
    assert!(name_precedes("ab", "abc"));
    assert!(!name_precedes("abc", "ab"));
}

#[test]
fn a_name_precedes_itself() {
    assert!(name_precedes("same", "same"));
}

#[test]
fn names_compare_by_code_point() {
    // Upper case stands before lower case, and ASCII before the rest.
    assert!(name_precedes("Z", "a"));
    assert!(!name_precedes("a", "Z"));
    assert!(name_precedes("z", "\u{e9}"));
    assert!(name_precedes("\u{e9}", "\u{4e2d}"));
    assert!(name_precedes("\u{ffff}", "\u{10000}"));
    assert!(!name_precedes("\u{10000}", "\u{ffff}"));
}

#[test]
fn name_order_agrees_with_string_order() {
    let names = ["", " ", "a", "A", "ab", "b", "\u{e9}", "\u{10000}", "\u{ffff}", "aa", "a "];
    for a in names.iter() {
        for b in names.iter() {
            assert_eq!(name_precedes(a, b), a <= b);
            assert_eq!(same_name(a, b), a == b);
        }
    }
}

#[test]
fn same_name_tells_names_apart() {
    assert!(same_name("", ""));
    assert!(same_name("abc", "abc"));
    assert!(!same_name("abc", "abd"));
    assert!(!same_name("abc", "ab"));
    assert!(!same_name("ab", "abc"));
}

#[test]
fn sort_by_name_orders_the_table() {
    let mut table = vec![record("c", 5), record("a", 10), record("b", 5)];
    sort_by_name(&mut table);
    assert_eq!(table, vec![record("a", 10), record("b", 5), record("c", 5)]);
}

#[test]
fn sort_by_name_keeps_the_order_of_equal_names() {
    let mut table = vec![record("b", 1), record("a", 2), record("b", 3), record("a", 4)];
    sort_by_name(&mut table);
    assert_eq!(table, vec![record("a", 2), record("a", 4), record("b", 1), record("b", 3)]);
}

#[test]
fn sort_by_name_of_an_empty_table() {
    let mut table: Vec<Record> = Vec::new();
    sort_by_name(&mut table);
    assert!(table.is_empty());
}

#[test]
fn sort_bounds_by_name_orders_the_table() {
    let bound = |name: &str, lower: i64, upper: i64, estimate: i64| BoundRecord {
        name: name.to_string(),
        lower,
        upper,
        estimate,
    };
    let mut table = vec![bound("b", 1, 9, 5), bound("c", 0, 3, 2), bound("a", 4, 12, 10)];
    sort_bounds_by_name(&mut table);
    assert_eq!(table, vec![bound("a", 4, 12, 10), bound("b", 1, 9, 5), bound("c", 0, 3, 2)]);
}

#[test]
fn sentinel_records_stand_for_unreadable_rows() {
    assert_eq!(Record::sentinel(), record(" ", 0));
    assert_eq!(
        BoundRecord::sentinel(),
        BoundRecord { name: " ".to_string(), lower: 0, upper: 0, estimate: 0 }
    );
}

#[test]
fn a_clone_is_equal_to_the_record() {
    let r = record("a", 3);
    assert_eq!(r.clone(), r);
}
