//! Attribution: matching the values of a protected integer partition to the
//! named records. Each record's rank is settled by one private draw, which
//! this module asks for and does not make; the numeric value then comes from
//! the partition at that rank.

use vstd::prelude::*;
use crate::names::{
    lemma_name_le_total, lemma_name_le_transitive, name_le, name_precedes, same_name,
};
use crate::order::{
    is_total, is_transitive, lemma_stable_sort_keeps_readings, lemma_stable_sort_len,
    lemma_stable_sort_sorted, sort_stable, stable_sort, Precedence,
};
use crate::partition::{descending, largest, largest_part, lemma_descending, sort_descending};
use crate::records::{
    bounds_sorted_by_name, sort_bounds_by_name, sort_by_name, sorted_by_name, AttributedRecord,
    AttributedView, BoundRecord, BoundRecordView, Record, RecordView,
};

verus! {

/// The candidates among which a record's draw chooses.
#[derive(Clone, Copy, Debug, PartialEq, Eq)]
pub enum OutcomeSpace {
    /// The values of the protected partition, in the order in which it holds them.
    Partition,
    /// The integers from `lower` to `upper`, both included.
    Range { lower: i64, upper: i64 },
}

/// What one draw of the exponential mechanism is to be given: the candidates,
/// the count that the utility of a candidate is measured against, and the
/// least and the largest utility.
#[derive(Clone, Copy, Debug, PartialEq, Eq)]
pub struct DrawRequest {
    pub space: OutcomeSpace,
    pub target: u64,
    pub utility_min: i64,
    pub utility_max: i64,
}

/// How far `outcome` lies from `target`. A candidate is the better, the
/// smaller its distance.
pub open spec fn distance(outcome: int, target: int) -> nat {
    if outcome >= target {
        (outcome - target) as nat
    } else {
        (target - outcome) as nat
    }
}

/// The utility of a candidate for a record of the given count: its distance
/// from the count.
pub fn utility(outcome: i64, target: u64) -> (u: u128)
    ensures
        u == distance(outcome as int, target as int),
{
    let o: i128 = outcome as i128;
    let t: i128 = target as i128;
    if o >= t {
        (o - t) as u128
    } else {
        (t - o) as u128
    }
}

/// The largest utility that a draw is told of: the largest part of the
/// protected partition, or the total count where the partition is empty.
pub open spec fn utility_ceiling(ip: Seq<i64>, total_count: i64) -> i64 {
    if ip.len() == 0 {
        total_count
    } else {
        largest(ip)
    }
}

/// The largest utility that a draw is told of. It is read off the protected
/// partition, so how long this takes depends on private data.
pub fn utility_max(ip: &Vec<i64>, total_count: i64) -> (m: i64)
    ensures
        m == utility_ceiling(ip@, total_count),
{
    match largest_part(ip) {
        Some(part) => part,
        None => total_count,
    }
}

/// The integers from `lower` to `upper`, both included, in ascending order.
pub open spec fn range(lower: i64, upper: i64) -> Seq<i64> {
    Seq::new(
        if lower <= upper {
            (upper - lower + 1) as nat
        } else {
            0
        },
        |k: int| (lower + k) as i64,
    )
}

/// The candidates of an outcome space, for the protected partition `ip`.
pub open spec fn outcomes_of(space: OutcomeSpace, ip: Seq<i64>) -> Seq<i64> {
    match space {
        OutcomeSpace::Partition => ip,
        OutcomeSpace::Range { lower, upper } => range(lower, upper),
    }
}

/// The number of candidates as a draw is told it: the number itself where it
/// fits in 32 bits, and its lowest 32 bits where it does not.
pub open spec fn outcome_count(candidates: nat) -> u32 {
    (candidates % 0x1_0000_0000) as u32
}

impl DrawRequest {
    /// The candidates of this draw, for the protected partition `ip`.
    pub fn outcomes(&self, ip: &Vec<i64>) -> (candidates: Vec<i64>)
        ensures
            candidates@ == outcomes_of(self.space, ip@),
    {
        match self.space {
            OutcomeSpace::Partition => {
                let copy = ip.clone();
                assert(copy@ =~= ip@);
                copy
            },
            OutcomeSpace::Range { lower, upper } => {
                let mut candidates: Vec<i64> = Vec::new();
                if lower <= upper {
                    let mut next = lower;
                    loop
                        invariant_except_break
                            lower <= next <= upper,
                            candidates@ == Seq::new(
                                (next - lower) as nat,
                                |k: int| (lower + k) as i64,
                            ),
                        ensures
                            candidates@ == range(lower, upper),
                        decreases upper - next,
                    {
                        candidates.push(next);
                        assert(candidates@ =~= range(lower, next));
                        if next == upper {
                            break;
                        }
                        next = next + 1;
                    }
                }
                candidates
            },
        }
    }

    /// The utility of a candidate of this draw.
    pub fn utility(&self, outcome: i64) -> (u: u128)
        ensures
            u == distance(outcome as int, self.target as int),
    {
        utility(outcome, self.target)
    }

    /// The number of candidates as the draw is told it.
    pub fn max_outcomes(candidates: &Vec<i64>) -> (hint: u32)
        ensures
            hint == outcome_count(candidates@.len()),
    {
        let wide = candidates.len() as u64;
        (wide % 0x1_0000_0000u64) as u32
    }
}

/// The draw of a record under basic attribution: among all values of the
/// protected partition.
pub open spec fn basic_request(ip: Seq<i64>, record: RecordView, total_count: i64) -> DrawRequest {
    DrawRequest {
        space: OutcomeSpace::Partition,
        target: record.count,
        utility_min: 0,
        utility_max: utility_ceiling(ip, total_count),
    }
}

/// The draws of basic attribution, one for each record, in the order of the table.
pub open spec fn basic_requests(ip: Seq<i64>, records: Seq<RecordView>, total_count: i64) -> Seq<
    DrawRequest,
> {
    Seq::new(records.len(), |i: int| basic_request(ip, records[i], total_count))
}

/// The draw of a record under scoped attribution: within the range of its
/// bound record.
pub open spec fn scoped_request(
    ip: Seq<i64>,
    record: RecordView,
    bound: BoundRecordView,
    total_count: i64,
) -> DrawRequest {
    DrawRequest {
        space: OutcomeSpace::Range { lower: bound.lower, upper: bound.upper },
        target: record.count,
        utility_min: 0,
        utility_max: utility_ceiling(ip, total_count),
    }
}

/// The draws of scoped attribution, one for each record, in the order of the table.
pub open spec fn scoped_requests(
    ip: Seq<i64>,
    records: Seq<RecordView>,
    bounds: Seq<BoundRecordView>,
    total_count: i64,
) -> Seq<DrawRequest> {
    Seq::new(records.len(), |i: int| scoped_request(ip, records[i], bounds[i], total_count))
}

/// The two tables have one bound record for each record, in the same place
/// and under the same name.
pub open spec fn aligned(records: Seq<RecordView>, bounds: Seq<BoundRecordView>) -> bool {
    &&& records.len() == bounds.len()
    &&& forall|i: int| 0 <= i < records.len() ==> records[i].name == bounds[i].name
}

/// Why an attribution was refused.
#[derive(Clone, Copy, Debug, PartialEq, Eq)]
pub enum AttributionError {
    /// The records and the bound records, each sorted by name, do not line up.
    Misaligned,
    /// There is not one draw for each record.
    DrawCountMismatch,
    /// The protected partition has fewer values than there are records.
    PartitionTooShort,
}

/// What an attribution error says.
pub open spec fn attribution_error_message(e: AttributionError) -> Seq<char> {
    match e {
        AttributionError::Misaligned => "The records and the bound records do not line up by name"@,
        AttributionError::DrawCountMismatch => "There is not one draw for each record"@,
        AttributionError::PartitionTooShort => {
            "The integer partition has fewer values than there are records"@
        },
    }
}

impl AttributionError {
    /// The error in words.
    pub fn message(&self) -> (m: &'static str)
        ensures
            m@ == attribution_error_message(*self),
    {
        match self {
            AttributionError::Misaligned => {
                "The records and the bound records do not line up by name"
            },
            AttributionError::DrawCountMismatch => "There is not one draw for each record",
            AttributionError::PartitionTooShort => {
                "The integer partition has fewer values than there are records"
            },
        }
    }
}

/// Decides whether the two tables line up as they stand.
pub fn check_alignment(records: &Vec<Record>, bounds: &Vec<BoundRecord>) -> (ok: bool)
    ensures
        ok == aligned(records.deep_view(), bounds.deep_view()),
{
    let n = records.len();
    if bounds.len() != n {
        return false;
    }
    let mut i: usize = 0;
    while i < n
        invariant
            n == records.len(),
            n == bounds.len(),
            i <= n,
            forall|k: int| 0 <= k < i ==> records[k].name@ == bounds[k].name@,
        decreases n - i,
    {
        if !same_name(records[i].name.as_str(), bounds[i].name.as_str()) {
            assert(records.deep_view()[i as int].name != bounds.deep_view()[i as int].name);
            return false;
        }
        i = i + 1;
    }
    true
}

/// Prepares basic attribution: sorts the table by name and says what each
/// record's draw is to be given, in the order of the sorted table.
pub fn attribute_requests(ip: &Vec<i64>, records: &mut Vec<Record>, total_count: i64) -> (requests:
    Vec<DrawRequest>)
    ensures
        final(records).deep_view() == sorted_by_name(old(records).deep_view()),
        requests@ == basic_requests(ip@, final(records).deep_view(), total_count),
{
    sort_by_name(records);
    let ceiling = utility_max(ip, total_count);
    let n = records.len();
    let mut requests: Vec<DrawRequest> = Vec::new();
    let mut i: usize = 0;
    while i < n
        invariant
            n == records.len(),
            i <= n,
            ceiling == utility_ceiling(ip@, total_count),
            requests@.len() == i,
            forall|k: int|
                0 <= k < i ==> requests@[k] == basic_request(
                    ip@,
                    #[trigger] records.deep_view()[k],
                    total_count,
                ),
        decreases n - i,
    {
        requests.push(
            DrawRequest {
                space: OutcomeSpace::Partition,
                target: records[i].count,
                utility_min: 0,
                utility_max: ceiling,
            },
        );
        i = i + 1;
    }
    assert(requests@ =~= basic_requests(ip@, records.deep_view(), total_count));
    requests
}

/// Prepares scoped attribution: sorts both tables by name, each by itself,
/// and says what each record's draw is to be given, in the order of the
/// sorted table. Tables that do not line up after sorting are refused.
pub fn attribute_scoped_requests(
    ip: &Vec<i64>,
    records: &mut Vec<Record>,
    boundrecords: &mut Vec<BoundRecord>,
    total_count: i64,
) -> (requests: Result<Vec<DrawRequest>, AttributionError>)
    ensures
        final(records).deep_view() == sorted_by_name(old(records).deep_view()),
        final(boundrecords).deep_view() == bounds_sorted_by_name(old(boundrecords).deep_view()),
        match requests {
            Ok(list) => aligned(final(records).deep_view(), final(boundrecords).deep_view())
                && list@ == scoped_requests(
                ip@,
                final(records).deep_view(),
                final(boundrecords).deep_view(),
                total_count,
            ),
            Err(e) => !aligned(final(records).deep_view(), final(boundrecords).deep_view()) && e
                == AttributionError::Misaligned,
        },
{
    sort_by_name(records);
    sort_bounds_by_name(boundrecords);
    if !check_alignment(records, boundrecords) {
        return Err(AttributionError::Misaligned);
    }
    let ceiling = utility_max(ip, total_count);
    let n = records.len();
    let mut requests: Vec<DrawRequest> = Vec::new();
    let mut i: usize = 0;
    while i < n
        invariant
            n == records.len(),
            n == boundrecords.len(),
            i <= n,
            ceiling == utility_ceiling(ip@, total_count),
            requests@.len() == i,
            forall|k: int|
                0 <= k < i ==> requests@[k] == scoped_request(
                    ip@,
                    #[trigger] records.deep_view()[k],
                    boundrecords.deep_view()[k],
                    total_count,
                ),
        decreases n - i,
    {
        requests.push(
            DrawRequest {
                space: OutcomeSpace::Range {
                    lower: boundrecords[i].lower,
                    upper: boundrecords[i].upper,
                },
                target: records[i].count,
                utility_min: 0,
                utility_max: ceiling,
            },
        );
        i = i + 1;
    }
    assert(requests@ =~= scoped_requests(
        ip@,
        records.deep_view(),
        boundrecords.deep_view(),
        total_count,
    ));
    Ok(requests)
}

/// Attributed records in descending order of the attributed value, records
/// of one value in ascending order of name.
pub struct ByDraw;

impl Precedence<AttributedRecord> for ByDraw {
    open spec fn le(a: AttributedView, b: AttributedView) -> bool {
        a.attributed > b.attributed || (a.attributed == b.attributed && name_le(a.name, b.name))
    }

    fn le_exec(a: &AttributedRecord, b: &AttributedRecord) -> (r: bool) {
        a.attributed > b.attributed || (a.attributed == b.attributed && name_precedes(
            a.name.as_str(),
            b.name.as_str(),
        ))
    }
}

/// Attributed records in descending order of the true count.
pub struct ByCount;

impl Precedence<AttributedRecord> for ByCount {
    open spec fn le(a: AttributedView, b: AttributedView) -> bool {
        a.count >= b.count
    }

    fn le_exec(a: &AttributedRecord, b: &AttributedRecord) -> (r: bool) {
        a.count >= b.count
    }
}

/// The order by draw and name is total and transitive.
pub proof fn lemma_by_draw_orders()
    ensures
        is_total::<AttributedRecord, ByDraw>(),
        is_transitive::<AttributedRecord, ByDraw>(),
{
    assert forall|a: AttributedView, b: AttributedView| ByDraw::le(a, b) || ByDraw::le(b, a) by {
        lemma_name_le_total(a.name, b.name);
    }
    assert forall|a: AttributedView, b: AttributedView, c: AttributedView|
        ByDraw::le(a, b) && ByDraw::le(b, c) implies ByDraw::le(a, c) by {
        if a.attributed == b.attributed && b.attributed == c.attributed {
            lemma_name_le_transitive(a.name, b.name, c.name);
        }
    }
}

/// The order by count is total and transitive.
pub proof fn lemma_by_count_orders()
    ensures
        is_total::<AttributedRecord, ByCount>(),
        is_transitive::<AttributedRecord, ByCount>(),
{
}

/// The records as they enter the ranking: each with its draw in the place of
/// the attributed value, and no ideal value yet.
pub open spec fn drafts(records: Seq<RecordView>, draws: Seq<i64>) -> Seq<AttributedView> {
    Seq::new(
        records.len(),
        |i: int|
            AttributedView {
                name: records[i].name,
                count: records[i].count,
                ideal_partition: 0,
                attributed: draws[i],
            },
    )
}

/// The list with `values[i]` as the attributed value of the record at `i`.
pub open spec fn with_attributed(list: Seq<AttributedView>, values: Seq<i64>) -> Seq<
    AttributedView,
> {
    Seq::new(list.len(), |i: int| AttributedView { attributed: values[i], ..list[i] })
}

/// The list with `values[i]` as the ideal value of the record at `i`.
pub open spec fn with_ideal(list: Seq<AttributedView>, values: Seq<i64>) -> Seq<AttributedView> {
    Seq::new(list.len(), |i: int| AttributedView { ideal_partition: values[i], ..list[i] })
}

/// The records in the order of their ranks: by draw, descending, and by name
/// among equal draws.
pub open spec fn ranked(records: Seq<RecordView>, draws: Seq<i64>) -> Seq<AttributedView> {
    stable_sort::<AttributedRecord, ByDraw>(drafts(records, draws))
}

/// The attribution of the protected partition `ip` to the records, given one
/// draw for each record.
///
/// The draws settle the ranks: the record at rank `i` is attributed the
/// `i`-th largest value of `ip`. The records are then put in descending order
/// of their true counts, records of one count in the order of their ranks,
/// and the record at place `i` gets the `i`-th largest value of `ip` as its
/// ideal value.
pub open spec fn attribution(ip: Seq<i64>, records: Seq<RecordView>, draws: Seq<i64>) -> Seq<
    AttributedView,
> {
    let parts = descending(ip);
    let bound = with_attributed(ranked(records, draws), parts);
    with_ideal(stable_sort::<AttributedRecord, ByCount>(bound), parts)
}

/// Reads the attributed value off a record.
pub open spec fn attributed_of() -> spec_fn(AttributedView) -> i64 {
    |r: AttributedView| r.attributed
}

/// Reads the ideal value off a record.
pub open spec fn ideal_of() -> spec_fn(AttributedView) -> i64 {
    |r: AttributedView| r.ideal_partition
}

/// Reads the name and the true count off a record.
pub open spec fn record_of() -> spec_fn(AttributedView) -> RecordView {
    |r: AttributedView| RecordView { name: r.name, count: r.count }
}

/// The attributed values of a list, in its order.
pub open spec fn attributed_values(list: Seq<AttributedView>) -> Seq<i64> {
    list.map_values(attributed_of())
}

/// The ideal values of a list, in its order.
pub open spec fn ideal_values(list: Seq<AttributedView>) -> Seq<i64> {
    list.map_values(ideal_of())
}

/// The names and true counts of a list, in its order.
pub open spec fn identities(list: Seq<AttributedView>) -> Seq<RecordView> {
    list.map_values(record_of())
}

/// The true counts of the list do not rise from one place to the next.
pub open spec fn counts_descend(list: Seq<AttributedView>) -> bool {
    forall|i: int, j: int|
        #![trigger list[i], list[j]]
        0 <= i < j < list.len() ==> list[i].count >= list[j].count
}

/// An attribution has one entry for each record.
pub proof fn lemma_attribution_len(ip: Seq<i64>, records: Seq<RecordView>, draws: Seq<i64>)
    ensures
        ranked(records, draws).len() == records.len(),
        attribution(ip, records, draws).len() == records.len(),
{
    lemma_stable_sort_len::<AttributedRecord, ByDraw>(drafts(records, draws));
    lemma_stable_sort_len::<AttributedRecord, ByCount>(
        with_attributed(ranked(records, draws), descending(ip)),
    );
}

/// Attribution hands out values of the partition and makes none up: the
/// attributed values are, each as often as it occurs, the largest values of
/// the partition, as many as there are records. Where the partition has one
/// value for each record, they are the values of the partition.
pub proof fn lemma_attribution_assigns(ip: Seq<i64>, records: Seq<RecordView>, draws: Seq<i64>)
    requires
        records.len() <= ip.len(),
    ensures
        attributed_values(attribution(ip, records, draws)).to_multiset() == descending(ip).take(
            records.len() as int,
        ).to_multiset(),
        records.len() == ip.len() ==> attributed_values(
            attribution(ip, records, draws),
        ).to_multiset() == ip.to_multiset(),
{
    let n = records.len() as int;
    let parts = descending(ip);
    let bound = with_attributed(ranked(records, draws), parts);
    let by_count = stable_sort::<AttributedRecord, ByCount>(bound);
    lemma_descending(ip);
    lemma_attribution_len(ip, records, draws);
    assert(attributed_values(bound) =~= parts.take(n));
    lemma_stable_sort_keeps_readings::<AttributedRecord, ByCount, i64>(bound, attributed_of());
    assert(attributed_values(with_ideal(by_count, parts)) =~= attributed_values(by_count));
    if records.len() == ip.len() {
        assert(parts.take(n) =~= parts);
    }
}

/// The ideal values follow the true counts: the attribution lists the
/// records in descending order of their true counts, and the ideal values
/// are, place by place, the values of the partition in descending order.
pub proof fn lemma_attribution_ideal(ip: Seq<i64>, records: Seq<RecordView>, draws: Seq<i64>)
    requires
        records.len() <= ip.len(),
    ensures
        counts_descend(attribution(ip, records, draws)),
        ideal_values(attribution(ip, records, draws)) == descending(ip).take(
            records.len() as int,
        ),
        records.len() == ip.len() ==> ideal_values(attribution(ip, records, draws))
            == descending(ip),
{
    let n = records.len() as int;
    let parts = descending(ip);
    let bound = with_attributed(ranked(records, draws), parts);
    let by_count = stable_sort::<AttributedRecord, ByCount>(bound);
    let out = with_ideal(by_count, parts);
    lemma_descending(ip);
    lemma_attribution_len(ip, records, draws);
    lemma_by_count_orders();
    lemma_stable_sort_sorted::<AttributedRecord, ByCount>(bound);
    assert forall|i: int, j: int| 0 <= i < j < out.len() implies out[i].count >= out[j].count by {
        assert(ByCount::le(by_count[i], by_count[j]));
    }
    assert(ideal_values(out) =~= parts.take(n));
    if records.len() == ip.len() {
        assert(parts.take(n) =~= parts);
    }
}

/// Attribution keeps the records: the names with their true counts are,
/// each as often as it occurs, those of the table.
pub proof fn lemma_attribution_keeps_records(
    ip: Seq<i64>,
    records: Seq<RecordView>,
    draws: Seq<i64>,
)
    ensures
        identities(attribution(ip, records, draws)).to_multiset() == records.to_multiset(),
{
    let parts = descending(ip);
    let first = drafts(records, draws);
    let ranks = ranked(records, draws);
    let bound = with_attributed(ranks, parts);
    let by_count = stable_sort::<AttributedRecord, ByCount>(bound);
    lemma_attribution_len(ip, records, draws);
    assert(identities(first) =~= records);
    lemma_stable_sort_keeps_readings::<AttributedRecord, ByDraw, RecordView>(first, record_of());
    assert(identities(bound) =~= identities(ranks));
    lemma_stable_sort_keeps_readings::<AttributedRecord, ByCount, RecordView>(bound, record_of());
    assert(identities(with_ideal(by_count, parts)) =~= identities(by_count));
}

/// Attributes the protected partition `ip` to the records, given the draw
/// that was made for each record, in the order of the table.
///
/// An attribution needs one draw for each record, and a partition with at
/// least as many values as there are records.
pub fn attribute(ip: &Vec<i64>, records: &Vec<Record>, draws: &Vec<i64>) -> (result: Result<
    Vec<AttributedRecord>,
    AttributionError,
>)
    ensures
        match result {
            Ok(list) => {
                &&& draws.len() == records.len()
                &&& records.len() <= ip.len()
                &&& list.deep_view() == attribution(ip@, records.deep_view(), draws@)
                &&& list.len() == records.len()
                &&& attributed_values(list.deep_view()).to_multiset() == descending(ip@).take(
                    records.len() as int,
                ).to_multiset()
                &&& records.len() == ip.len() ==> attributed_values(
                    list.deep_view(),
                ).to_multiset() == ip@.to_multiset()
                &&& counts_descend(list.deep_view())
                &&& ideal_values(list.deep_view()) == descending(ip@).take(records.len() as int)
                &&& records.len() == ip.len() ==> ideal_values(list.deep_view()) == descending(
                    ip@,
                )
                &&& identities(list.deep_view()).to_multiset()
                    == records.deep_view().to_multiset()
            },
            Err(e) => if draws.len() != records.len() {
                e == AttributionError::DrawCountMismatch
            } else {
                records.len() > ip.len() && e == AttributionError::PartitionTooShort
            },
        },
{
    let n = records.len();
    if draws.len() != n {
        return Err(AttributionError::DrawCountMismatch);
    }
    if ip.len() < n {
        return Err(AttributionError::PartitionTooShort);
    }
    let mut parts = ip.clone();
    assert(parts@ =~= ip@);
    sort_descending(&mut parts);
    proof {
        lemma_descending(ip@);
    }

    let mut list: Vec<AttributedRecord> = Vec::new();
    let mut i: usize = 0;
    while i < n
        invariant
            n == records.len(),
            n == draws.len(),
            i <= n,
            list.len() == i,
            forall|k: int|
                0 <= k < i ==> (#[trigger] list@[k]).deep_view() == drafts(
                    records.deep_view(),
                    draws@,
                )[k],
        decreases n - i,
    {
        list.push(
            AttributedRecord {
                name: records[i].name.clone(),
                count: records[i].count,
                ideal_partition: 0,
                attributed: draws[i],
            },
        );
        i = i + 1;
    }
    assert(list.deep_view() =~= drafts(records.deep_view(), draws@));
    sort_stable::<AttributedRecord, ByDraw>(&mut list);
    proof {
        lemma_attribution_len(ip@, records.deep_view(), draws@);
    }
    let ghost ranks = list.deep_view();

    let mut i: usize = 0;
    while i < n
        invariant
            n == list.len(),
            n <= parts.len(),
            ranks.len() == n,
            i <= n,
            forall|k: int|
                0 <= k < i ==> (#[trigger] list@[k]).deep_view() == with_attributed(
                    ranks,
                    parts@,
                )[k],
            forall|k: int| i <= k < n ==> (#[trigger] list@[k]).deep_view() == ranks[k],
        decreases n - i,
    {
        list[i].attributed = parts[i];
        i = i + 1;
    }
    assert(list.deep_view() =~= with_attributed(ranks, parts@));
    sort_stable::<AttributedRecord, ByCount>(&mut list);
    let ghost by_count = list.deep_view();

    let mut i: usize = 0;
    while i < n
        invariant
            n == list.len(),
            n <= parts.len(),
            by_count.len() == n,
            i <= n,
            forall|k: int|
                0 <= k < i ==> (#[trigger] list@[k]).deep_view() == with_ideal(
                    by_count,
                    parts@,
                )[k],
            forall|k: int| i <= k < n ==> (#[trigger] list@[k]).deep_view() == by_count[k],
        decreases n - i,
    {
        list[i].ideal_partition = parts[i];
        i = i + 1;
    }
    assert(list.deep_view() =~= with_ideal(by_count, parts@));
    proof {
        lemma_attribution_assigns(ip@, records.deep_view(), draws@);
        lemma_attribution_ideal(ip@, records.deep_view(), draws@);
        lemma_attribution_keeps_records(ip@, records.deep_view(), draws@);
    }
    Ok(list)
}

} // verus!
