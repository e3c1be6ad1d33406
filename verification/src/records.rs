//! The tables that the attribution works on: named counts, the bounds that a
//! file supplies for them, and the attributed counts that come out.

use vstd::prelude::*;
use crate::names::{lemma_name_le_total, lemma_name_le_transitive, name_le, name_precedes};
use crate::order::{
    is_total, is_transitive, lemma_stable_sort_of_sorted, lemma_stable_sort_sorted, sort_stable,
    stable_sort, Precedence,
};

verus! {

/// A named entity and its true count.
#[derive(Debug, PartialEq, Eq)]
pub struct Record {
    pub name: String,
    pub count: u64,
}

/// What a `Record` stands for.
pub struct RecordView {
    pub name: Seq<char>,
    pub count: u64,
}

impl DeepView for Record {
    type V = RecordView;

    open spec fn deep_view(&self) -> RecordView {
        RecordView { name: self.name@, count: self.count }
    }
}

impl View for Record {
    type V = RecordView;

    open spec fn view(&self) -> RecordView {
        self.deep_view()
    }
}

/// The range and the estimate that a file supplies for one named entity.
#[derive(Debug, PartialEq, Eq)]
pub struct BoundRecord {
    pub name: String,
    pub lower: i64,
    pub upper: i64,
    pub estimate: i64,
}

/// What a `BoundRecord` stands for.
pub struct BoundRecordView {
    pub name: Seq<char>,
    pub lower: i64,
    pub upper: i64,
    pub estimate: i64,
}

impl DeepView for BoundRecord {
    type V = BoundRecordView;

    open spec fn deep_view(&self) -> BoundRecordView {
        BoundRecordView {
            name: self.name@,
            lower: self.lower,
            upper: self.upper,
            estimate: self.estimate,
        }
    }
}

impl View for BoundRecord {
    type V = BoundRecordView;

    open spec fn view(&self) -> BoundRecordView {
        self.deep_view()
    }
}

/// A named entity with its true count and the two protected values matched
/// to it: the one its count rank earns and the one the private draw earns.
#[derive(Debug, PartialEq, Eq)]
pub struct AttributedRecord {
    pub name: String,
    pub count: u64,
    pub ideal_partition: i64,
    pub attributed: i64,
}

/// What an `AttributedRecord` stands for.
pub struct AttributedView {
    pub name: Seq<char>,
    pub count: u64,
    pub ideal_partition: i64,
    pub attributed: i64,
}

impl DeepView for AttributedRecord {
    type V = AttributedView;

    open spec fn deep_view(&self) -> AttributedView {
        AttributedView {
            name: self.name@,
            count: self.count,
            ideal_partition: self.ideal_partition,
            attributed: self.attributed,
        }
    }
}

impl View for AttributedRecord {
    type V = AttributedView;

    open spec fn view(&self) -> AttributedView {
        self.deep_view()
    }
}

impl Clone for Record {
    fn clone(&self) -> (r: Record)
        ensures
            r == *self,
    {
        Record { name: self.name.clone(), count: self.count }
    }
}

impl Clone for BoundRecord {
    fn clone(&self) -> (r: BoundRecord)
        ensures
            r == *self,
    {
        BoundRecord {
            name: self.name.clone(),
            lower: self.lower,
            upper: self.upper,
            estimate: self.estimate,
        }
    }
}

impl Clone for AttributedRecord {
    fn clone(&self) -> (r: AttributedRecord)
        ensures
            r == *self,
    {
        AttributedRecord {
            name: self.name.clone(),
            count: self.count,
            ideal_partition: self.ideal_partition,
            attributed: self.attributed,
        }
    }
}

/// The name that stands in for a row that could not be read: one space.
pub open spec fn sentinel_name() -> Seq<char> {
    seq![' ']
}

impl Record {
    /// The record that stands in for a row that could not be read.
    pub fn sentinel() -> (r: Record)
        ensures
            r@ == (RecordView { name: sentinel_name(), count: 0 }),
    {
        proof {
            reveal_strlit(" ");
        }
        let name = " ".to_owned();
        assert(name@ =~= sentinel_name());
        Record { name, count: 0 }
    }
}

impl BoundRecord {
    /// The bound record that stands in for a row that could not be read.
    pub fn sentinel() -> (r: BoundRecord)
        ensures
            r@ == (BoundRecordView { name: sentinel_name(), lower: 0, upper: 0, estimate: 0 }),
    {
        proof {
            reveal_strlit(" ");
        }
        let name = " ".to_owned();
        assert(name@ =~= sentinel_name());
        BoundRecord { name, lower: 0, upper: 0, estimate: 0 }
    }
}

/// Records in ascending order of name.
pub struct ByName;

impl Precedence<Record> for ByName {
    open spec fn le(a: RecordView, b: RecordView) -> bool {
        name_le(a.name, b.name)
    }

    fn le_exec(a: &Record, b: &Record) -> (r: bool) {
        name_precedes(a.name.as_str(), b.name.as_str())
    }
}

/// Bound records in ascending order of name.
pub struct BoundByName;

impl Precedence<BoundRecord> for BoundByName {
    open spec fn le(a: BoundRecordView, b: BoundRecordView) -> bool {
        name_le(a.name, b.name)
    }

    fn le_exec(a: &BoundRecord, b: &BoundRecord) -> (r: bool) {
        name_precedes(a.name.as_str(), b.name.as_str())
    }
}

/// The order of records by name is total and transitive.
pub proof fn lemma_by_name_orders()
    ensures
        is_total::<Record, ByName>(),
        is_transitive::<Record, ByName>(),
{
    assert forall|a: RecordView, b: RecordView| ByName::le(a, b) || ByName::le(b, a) by {
        lemma_name_le_total(a.name, b.name);
    }
    assert forall|a: RecordView, b: RecordView, c: RecordView|
        ByName::le(a, b) && ByName::le(b, c) implies ByName::le(a, c) by {
        lemma_name_le_transitive(a.name, b.name, c.name);
    }
}

/// The order of bound records by name is total and transitive.
pub proof fn lemma_bound_by_name_orders()
    ensures
        is_total::<BoundRecord, BoundByName>(),
        is_transitive::<BoundRecord, BoundByName>(),
{
    assert forall|a: BoundRecordView, b: BoundRecordView|
        BoundByName::le(a, b) || BoundByName::le(b, a) by {
        lemma_name_le_total(a.name, b.name);
    }
    assert forall|a: BoundRecordView, b: BoundRecordView, c: BoundRecordView|
        BoundByName::le(a, b) && BoundByName::le(b, c) implies BoundByName::le(a, c) by {
        lemma_name_le_transitive(a.name, b.name, c.name);
    }
}

/// The records in ascending order of name, records of one name in the order
/// in which they stood.
pub open spec fn sorted_by_name(records: Seq<RecordView>) -> Seq<RecordView> {
    stable_sort::<Record, ByName>(records)
}

/// The bound records in ascending order of name, records of one name in the
/// order in which they stood.
pub open spec fn bounds_sorted_by_name(bounds: Seq<BoundRecordView>) -> Seq<BoundRecordView> {
    stable_sort::<BoundRecord, BoundByName>(bounds)
}

/// Sorting by name again changes nothing: a table that one use has sorted
/// is the same table for the next.
pub proof fn lemma_sorted_by_name_settles(records: Seq<RecordView>)
    ensures
        sorted_by_name(sorted_by_name(records)) == sorted_by_name(records),
{
    lemma_by_name_orders();
    lemma_stable_sort_sorted::<Record, ByName>(records);
    lemma_stable_sort_of_sorted::<Record, ByName>(sorted_by_name(records));
}

/// Sorting the bound records by name again changes nothing.
pub proof fn lemma_bounds_sorted_by_name_settles(bounds: Seq<BoundRecordView>)
    ensures
        bounds_sorted_by_name(bounds_sorted_by_name(bounds)) == bounds_sorted_by_name(bounds),
{
    lemma_bound_by_name_orders();
    lemma_stable_sort_sorted::<BoundRecord, BoundByName>(bounds);
    lemma_stable_sort_of_sorted::<BoundRecord, BoundByName>(bounds_sorted_by_name(bounds));
}

/// Reorders the table by name, ascending.
pub fn sort_by_name(records: &mut Vec<Record>)
    ensures
        final(records).deep_view() == sorted_by_name(old(records).deep_view()),
{
    sort_stable::<Record, ByName>(records);
}

/// Reorders the table of bounds by name, ascending.
pub fn sort_bounds_by_name(bounds: &mut Vec<BoundRecord>)
    ensures
        final(bounds).deep_view() == bounds_sorted_by_name(old(bounds).deep_view()),
{
    sort_stable::<BoundRecord, BoundByName>(bounds);
}

} // verus!
