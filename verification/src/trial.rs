//! One trial, from the draws to what is published: the attribution in
//! canonical order, as three aligned columns.

use vstd::prelude::*;
use crate::attribution::{attribute, attribution, AttributionError};
use crate::names::{lemma_name_le_total, lemma_name_le_transitive, name_le, name_precedes};
use crate::order::{
    is_total, is_transitive, lemma_stable_sort_len, lemma_stable_sort_permutes,
    lemma_stable_sort_sorted, sort_stable, stable_sort, Precedence,
};
use crate::records::{AttributedRecord, AttributedView, Record, RecordView};

verus! {

/// Attributed records in descending order of the true count, records of one
/// count in ascending order of name.
pub struct Canonical;

impl Precedence<AttributedRecord> for Canonical {
    open spec fn le(a: AttributedView, b: AttributedView) -> bool {
        a.count > b.count || (a.count == b.count && name_le(a.name, b.name))
    }

    fn le_exec(a: &AttributedRecord, b: &AttributedRecord) -> (r: bool) {
        a.count > b.count || (a.count == b.count && name_precedes(
            a.name.as_str(),
            b.name.as_str(),
        ))
    }
}

/// The canonical order is total and transitive.
pub proof fn lemma_canonical_orders()
    ensures
        is_total::<AttributedRecord, Canonical>(),
        is_transitive::<AttributedRecord, Canonical>(),
{
    assert forall|a: AttributedView, b: AttributedView|
        Canonical::le(a, b) || Canonical::le(b, a) by {
        lemma_name_le_total(a.name, b.name);
    }
    assert forall|a: AttributedView, b: AttributedView, c: AttributedView|
        Canonical::le(a, b) && Canonical::le(b, c) implies Canonical::le(a, c) by {
        if a.count == b.count && b.count == c.count {
            lemma_name_le_transitive(a.name, b.name, c.name);
        }
    }
}

/// The list in canonical order, records of one count and name in the order
/// in which they stood.
pub open spec fn canonical(list: Seq<AttributedView>) -> Seq<AttributedView> {
    stable_sort::<AttributedRecord, Canonical>(list)
}

/// Of any two records of the list the earlier one has the larger count, or
/// the same count and a name that is not the later one in the order of names.
pub open spec fn in_canonical_order(list: Seq<AttributedView>) -> bool {
    forall|i: int, j: int|
        #![trigger list[i], list[j]]
        0 <= i < j < list.len() ==> list[i].count > list[j].count || (list[i].count
            == list[j].count && name_le(list[i].name, list[j].name))
}

/// The canonical order of a list holds the records of the list, each as
/// often as the list does, by count and, among equal counts, by name.
pub proof fn lemma_canonical(list: Seq<AttributedView>)
    ensures
        canonical(list).len() == list.len(),
        canonical(list).to_multiset() == list.to_multiset(),
        in_canonical_order(canonical(list)),
{
    lemma_canonical_orders();
    lemma_stable_sort_len::<AttributedRecord, Canonical>(list);
    lemma_stable_sort_permutes::<AttributedRecord, Canonical>(list);
    lemma_stable_sort_sorted::<AttributedRecord, Canonical>(list);
    let sorted = canonical(list);
    assert forall|i: int, j: int|
        #![trigger sorted[i], sorted[j]]
        0 <= i < j < sorted.len() implies sorted[i].count > sorted[j].count || (sorted[i].count
        == sorted[j].count && name_le(sorted[i].name, sorted[j].name)) by {
        assert(Canonical::le(sorted[i], sorted[j]));
    }
}

/// Puts the list in canonical order.
pub fn canonical_order(list: &mut Vec<AttributedRecord>)
    ensures
        final(list).deep_view() == canonical(old(list).deep_view()),
        final(list).len() == old(list).len(),
        final(list).deep_view().to_multiset() == old(list).deep_view().to_multiset(),
        in_canonical_order(final(list).deep_view()),
{
    proof {
        lemma_canonical(list.deep_view());
    }
    sort_stable::<AttributedRecord, Canonical>(list);
}

/// What a trial publishes: the true counts, the ideal values and the
/// attributed values, the three of one record in the same place.
#[derive(Debug, PartialEq, Eq)]
pub struct TrialOutput {
    pub counts: Vec<u64>,
    pub ideals: Vec<i64>,
    pub attributed: Vec<i64>,
}

/// What a `TrialOutput` stands for.
pub struct TrialOutputView {
    pub counts: Seq<u64>,
    pub ideals: Seq<i64>,
    pub attributed: Seq<i64>,
}

impl DeepView for TrialOutput {
    type V = TrialOutputView;

    open spec fn deep_view(&self) -> TrialOutputView {
        TrialOutputView { counts: self.counts@, ideals: self.ideals@, attributed: self.attributed@ }
    }
}

impl View for TrialOutput {
    type V = TrialOutputView;

    open spec fn view(&self) -> TrialOutputView {
        self.deep_view()
    }
}

/// The three columns of a list, in its order.
pub open spec fn columns(list: Seq<AttributedView>) -> TrialOutputView {
    TrialOutputView {
        counts: Seq::new(list.len(), |i: int| list[i].count),
        ideals: Seq::new(list.len(), |i: int| list[i].ideal_partition),
        attributed: Seq::new(list.len(), |i: int| list[i].attributed),
    }
}

/// Reads the three columns off a list.
pub fn output_columns(list: &Vec<AttributedRecord>) -> (out: TrialOutput)
    ensures
        out@ == columns(list.deep_view()),
{
    let n = list.len();
    let mut counts: Vec<u64> = Vec::new();
    let mut ideals: Vec<i64> = Vec::new();
    let mut attributed: Vec<i64> = Vec::new();
    let mut i: usize = 0;
    while i < n
        invariant
            n == list.len(),
            i <= n,
            counts@.len() == i,
            ideals@.len() == i,
            attributed@.len() == i,
            forall|k: int| 0 <= k < i ==> counts@[k] == list@[k].count,
            forall|k: int| 0 <= k < i ==> ideals@[k] == list@[k].ideal_partition,
            forall|k: int| 0 <= k < i ==> attributed@[k] == list@[k].attributed,
        decreases n - i,
    {
        counts.push(list[i].count);
        ideals.push(list[i].ideal_partition);
        attributed.push(list[i].attributed);
        i = i + 1;
    }
    let out = TrialOutput { counts, ideals, attributed };
    assert(out@.counts =~= columns(list.deep_view()).counts);
    assert(out@.ideals =~= columns(list.deep_view()).ideals);
    assert(out@.attributed =~= columns(list.deep_view()).attributed);
    out
}

/// What a trial publishes for the protected partition `ip`, the records and
/// the draw that was made for each record.
pub open spec fn trial(ip: Seq<i64>, records: Seq<RecordView>, draws: Seq<i64>) -> TrialOutputView {
    columns(canonical(attribution(ip, records, draws)))
}

/// Completes a trial: attributes the protected partition to the records,
/// puts the result in canonical order and reads off the three columns.
pub fn complete_trial(ip: &Vec<i64>, records: &Vec<Record>, draws: &Vec<i64>) -> (result: Result<
    TrialOutput,
    AttributionError,
>)
    ensures
        match result {
            Ok(out) => {
                &&& draws.len() == records.len()
                &&& records.len() <= ip.len()
                &&& out@ == trial(ip@, records.deep_view(), draws@)
                &&& out.counts.len() == records.len()
                &&& out.ideals.len() == records.len()
                &&& out.attributed.len() == records.len()
            },
            Err(e) => if draws.len() != records.len() {
                e == AttributionError::DrawCountMismatch
            } else {
                records.len() > ip.len() && e == AttributionError::PartitionTooShort
            },
        },
{
    match attribute(ip, records, draws) {
        Ok(mut list) => {
            canonical_order(&mut list);
            Ok(output_columns(&list))
        },
        Err(e) => Err(e),
    }
}

} // verus!
