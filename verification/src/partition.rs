//! Integer partitions: the counts of a table in descending order, their total
//! and their largest part.

use vstd::prelude::*;
use crate::order::{
    is_total, is_transitive, lemma_stable_sort_len, lemma_stable_sort_permutes,
    lemma_stable_sort_sorted, sort_stable, stable_sort, Precedence,
};
use crate::records::{Record, RecordView};

verus! {

/// Integers in descending order.
pub struct Descending;

impl Precedence<i64> for Descending {
    open spec fn le(a: i64, b: i64) -> bool {
        a >= b
    }

    fn le_exec(a: &i64, b: &i64) -> (r: bool) {
        *a >= *b
    }
}

/// No value of `s` is smaller than a later one.
pub open spec fn non_increasing(s: Seq<i64>) -> bool {
    forall|i: int, j: int| #![trigger s[i], s[j]] 0 <= i < j < s.len() ==> s[i] >= s[j]
}

/// The values of `s` in descending order.
pub open spec fn descending(s: Seq<i64>) -> Seq<i64> {
    stable_sort::<i64, Descending>(s)
}

/// `descending(s)` is a rearrangement of `s` in which no value is smaller
/// than a later one.
pub proof fn lemma_descending(s: Seq<i64>)
    ensures
        descending(s).len() == s.len(),
        descending(s).to_multiset() == s.to_multiset(),
        non_increasing(descending(s)),
{
    assert(is_total::<i64, Descending>());
    assert(is_transitive::<i64, Descending>());
    lemma_stable_sort_len::<i64, Descending>(s);
    lemma_stable_sort_permutes::<i64, Descending>(s);
    lemma_stable_sort_sorted::<i64, Descending>(s);
    let d = descending(s);
    assert forall|i: int, j: int| 0 <= i < j < d.len() implies d[i] >= d[j] by {
        assert(Descending::le(d[i], d[j]));
    }
}

/// Only one rearrangement of `s` is in descending order: any other sequence
/// with the same values in descending order is `descending(s)`.
pub proof fn lemma_descending_unique(s: Seq<i64>, t: Seq<i64>)
    requires
        t.to_multiset() == s.to_multiset(),
        non_increasing(t),
    ensures
        t == descending(s),
{
    lemma_descending(s);
    let ge = |a: i64, b: i64| a >= b;
    assert(vstd::relations::total_ordering(ge));
    assert(vstd::relations::sorted_by(t, ge));
    assert(vstd::relations::sorted_by(descending(s), ge));
    vstd::seq_lib::lemma_sorted_unique(t, descending(s), ge);
}

/// Reorders `v` into descending order.
pub fn sort_descending(v: &mut Vec<i64>)
    ensures
        final(v)@ == descending(old(v)@),
{
    assert(v.deep_view() =~= v@);
    sort_stable::<i64, Descending>(v);
    assert(v.deep_view() =~= v@);
}

/// The counts of the records, in the order of the table.
pub open spec fn counts(records: Seq<RecordView>) -> Seq<i64> {
    Seq::new(records.len(), |i: int| records[i].count as i64)
}

/// Every count of the table can be held as a part of a partition.
pub open spec fn counts_fit(records: Seq<RecordView>) -> bool {
    forall|i: int| 0 <= i < records.len() ==> records[i].count <= i64::MAX
}

/// The partition that a table holds: its counts in descending order. There
/// is none where a count is too large to be a part.
pub fn sorted_partition(records: &Vec<Record>) -> (partition: Option<Vec<i64>>)
    ensures
        match partition {
            Some(p) => counts_fit(records.deep_view()) && p@ == descending(
                counts(records.deep_view()),
            ),
            None => !counts_fit(records.deep_view()),
        },
{
    let mut parts: Vec<i64> = Vec::new();
    let n = records.len();
    let mut i: usize = 0;
    while i < n
        invariant
            n == records.len(),
            i <= n,
            parts@.len() == i,
            forall|k: int| 0 <= k < i ==> records[k].count <= i64::MAX,
            forall|k: int| 0 <= k < i ==> parts@[k] == records[k].count as i64,
        decreases n - i,
    {
        let count = records[i].count;
        if count > i64::MAX as u64 {
            assert(records.deep_view()[i as int].count == count);
            return None;
        }
        parts.push(count as i64);
        i = i + 1;
    }
    assert(parts@ =~= counts(records.deep_view()));
    sort_descending(&mut parts);
    Some(parts)
}

/// The sum of the parts.
pub open spec fn total(parts: Seq<i64>) -> int
    decreases parts.len(),
{
    if parts.len() == 0 {
        0
    } else {
        total(parts.drop_last()) + parts.last()
    }
}

/// The sum of a partition lies within the range that its length allows.
pub proof fn lemma_total_bounds(parts: Seq<i64>)
    ensures
        parts.len() * (i64::MIN as int) <= total(parts) <= parts.len() * (i64::MAX as int),
    decreases parts.len(),
{
    if parts.len() > 0 {
        lemma_total_bounds(parts.drop_last());
        assert((parts.len() - 1) * (i64::MIN as int) + (i64::MIN as int) == parts.len() * (
        i64::MIN as int)) by (nonlinear_arith);
        assert((parts.len() - 1) * (i64::MAX as int) + (i64::MAX as int) == parts.len() * (
        i64::MAX as int)) by (nonlinear_arith);
    }
}

/// The total count of a partition, where it can be held in an `i64`.
pub fn total_count(partition: &Vec<i64>) -> (sum: Option<i64>)
    ensures
        match sum {
            Some(t) => t == total(partition@),
            None => total(partition@) < i64::MIN || total(partition@) > i64::MAX,
        },
{
    let n = partition.len();
    let mut acc: i128 = 0;
    let mut i: usize = 0;
    while i < n
        invariant
            n == partition.len(),
            i <= n,
            acc == total(partition@.take(i as int)),
        decreases n - i,
    {
        proof {
            lemma_total_bounds(partition@.take(i as int));
            assert(partition@.take(i as int + 1).drop_last() =~= partition@.take(i as int));
            assert(i * (i64::MIN as int) >= 0x1_0000_0000_0000_0000 * (i64::MIN as int))
                by (nonlinear_arith)
                requires
                    0 <= i < 0x1_0000_0000_0000_0000,
            ;
            assert(i * (i64::MAX as int) <= 0x1_0000_0000_0000_0000 * (i64::MAX as int))
                by (nonlinear_arith)
                requires
                    0 <= i < 0x1_0000_0000_0000_0000,
            ;
        }
        acc = acc + partition[i] as i128;
        i = i + 1;
    }
    assert(partition@.take(n as int) =~= partition@);
    if acc < i64::MIN as i128 || acc > i64::MAX as i128 {
        None
    } else {
        Some(acc as i64)
    }
}

/// The largest part of a partition that has one.
pub open spec fn largest(parts: Seq<i64>) -> i64
    recommends
        parts.len() > 0,
    decreases parts.len(),
{
    if parts.len() <= 1 {
        parts[0]
    } else if largest(parts.drop_last()) >= parts.last() {
        largest(parts.drop_last())
    } else {
        parts.last()
    }
}

/// The largest part is a part, and no part exceeds it.
pub proof fn lemma_largest(parts: Seq<i64>)
    requires
        parts.len() > 0,
    ensures
        parts.contains(largest(parts)),
        forall|i: int| 0 <= i < parts.len() ==> parts[i] <= largest(parts),
    decreases parts.len(),
{
    if parts.len() > 1 {
        let front = parts.drop_last();
        lemma_largest(front);
        let k = choose|k: int| 0 <= k < front.len() && front[k] == largest(front);
        assert(parts[k] == front[k]);
        assert(parts[parts.len() - 1] == parts.last());
        assert forall|i: int| 0 <= i < parts.len() implies parts[i] <= largest(parts) by {
            if i < front.len() {
                assert(front[i] == parts[i]);
            }
        }
    } else {
        assert(parts[0] == largest(parts));
    }
}

/// The largest part of the partition, or none for an empty partition.
pub fn largest_part(partition: &Vec<i64>) -> (m: Option<i64>)
    ensures
        partition.len() == 0 ==> m is None,
        partition.len() > 0 ==> m == Some(largest(partition@)),
{
    let n = partition.len();
    if n == 0 {
        return None;
    }
    let mut best: i64 = partition[0];
    let mut i: usize = 1;
    assert(partition@.take(1) =~= seq![partition@[0]]);
    while i < n
        invariant
            n == partition.len(),
            1 <= i <= n,
            best == largest(partition@.take(i as int)),
        decreases n - i,
    {
        proof {
            assert(partition@.take(i as int + 1).drop_last() =~= partition@.take(i as int));
        }
        if partition[i] > best {
            best = partition[i];
        }
        i = i + 1;
    }
    assert(partition@.take(n as int) =~= partition@);
    Some(best)
}

} // verus!
