//! Stable sorting of a vector by a precedence relation, stated over the
//! elements' mathematical views.

use vstd::prelude::*;

verus! {

/// A precedence relation on the views of the elements of type `E`,
/// together with an executable test for it.
pub trait Precedence<E: DeepView> {
    /// Whether an element seen as `a` may stand before one seen as `b`.
    spec fn le(a: E::V, b: E::V) -> bool;

    /// Decides `le` on two elements.
    fn le_exec(a: &E, b: &E) -> (r: bool)
        ensures
            r == Self::le(a.deep_view(), b.deep_view()),
    ;
}

/// The index at which `x` enters `s`: directly behind the last element that
/// may stand before it, or at the front if there is none.
pub open spec fn insert_position<E: DeepView, O: Precedence<E>>(s: Seq<E::V>, x: E::V) -> int
    decreases s.len(),
{
    if s.len() == 0 || O::le(s.last(), x) {
        s.len() as int
    } else {
        insert_position::<E, O>(s.drop_last(), x)
    }
}

/// `s` with `x` inserted behind the last element that may stand before it.
pub open spec fn insert_stable<E: DeepView, O: Precedence<E>>(s: Seq<E::V>, x: E::V) -> Seq<E::V> {
    s.insert(insert_position::<E, O>(s, x), x)
}

/// The stable sort of `s`: its elements are taken from left to right and each
/// is inserted behind the last element already placed that may stand before it.
pub open spec fn stable_sort<E: DeepView, O: Precedence<E>>(s: Seq<E::V>) -> Seq<E::V>
    decreases s.len(),
{
    if s.len() == 0 {
        s
    } else {
        insert_stable::<E, O>(stable_sort::<E, O>(s.drop_last()), s.last())
    }
}

/// Every element of `s` may stand before every later one.
pub open spec fn is_sorted<E: DeepView, O: Precedence<E>>(s: Seq<E::V>) -> bool {
    forall|i: int, j: int| 0 <= i < j < s.len() ==> O::le(s[i], s[j])
}

/// Any two views are comparable under `O`.
pub open spec fn is_total<E: DeepView, O: Precedence<E>>() -> bool {
    forall|a: E::V, b: E::V| O::le(a, b) || O::le(b, a)
}

/// `O` is transitive.
pub open spec fn is_transitive<E: DeepView, O: Precedence<E>>() -> bool {
    forall|a: E::V, b: E::V, c: E::V| O::le(a, b) && O::le(b, c) ==> O::le(a, c)
}

/// The insert position is the one index `j` such that the element before it
/// may stand before `x` and no element from `j` on may.
pub proof fn lemma_insert_position<E: DeepView, O: Precedence<E>>(s: Seq<E::V>, x: E::V, j: int)
    requires
        0 <= j <= s.len(),
        j == 0 || O::le(s[j - 1], x),
        forall|k: int| j <= k < s.len() ==> !O::le(s[k], x),
    ensures
        insert_position::<E, O>(s, x) == j,
    decreases s.len(),
{
    if j < s.len() {
        lemma_insert_position::<E, O>(s.drop_last(), x, j);
    }
}

/// The insert position lies within the sequence's bounds and has the
/// properties that `lemma_insert_position` asks for.
pub proof fn lemma_insert_position_bounds<E: DeepView, O: Precedence<E>>(s: Seq<E::V>, x: E::V)
    ensures
        0 <= insert_position::<E, O>(s, x) <= s.len(),
        insert_position::<E, O>(s, x) == 0 || O::le(s[insert_position::<E, O>(s, x) - 1], x),
        forall|k: int| insert_position::<E, O>(s, x) <= k < s.len() ==> !O::le(s[k], x),
    decreases s.len(),
{
    if !(s.len() == 0 || O::le(s.last(), x)) {
        let front = s.drop_last();
        lemma_insert_position_bounds::<E, O>(front, x);
        let j = insert_position::<E, O>(s, x);
        assert forall|k: int| j <= k < s.len() implies !O::le(s[k], x) by {
            if k < front.len() {
                assert(front[k] == s[k]);
            }
        }
    }
}

/// Stable sorting keeps the length.
pub proof fn lemma_stable_sort_len<E: DeepView, O: Precedence<E>>(s: Seq<E::V>)
    ensures
        stable_sort::<E, O>(s).len() == s.len(),
    decreases s.len(),
{
    if s.len() > 0 {
        lemma_stable_sort_len::<E, O>(s.drop_last());
        lemma_insert_position_bounds::<E, O>(stable_sort::<E, O>(s.drop_last()), s.last());
    }
}

/// Stable sorting rearranges: the result holds each element as often as the input.
pub proof fn lemma_stable_sort_permutes<E: DeepView, O: Precedence<E>>(s: Seq<E::V>)
    ensures
        stable_sort::<E, O>(s).to_multiset() == s.to_multiset(),
    decreases s.len(),
{
    broadcast use vstd::seq_lib::group_to_multiset_ensures;
    if s.len() > 0 {
        let rest = stable_sort::<E, O>(s.drop_last());
        lemma_stable_sort_permutes::<E, O>(s.drop_last());
        lemma_insert_position_bounds::<E, O>(rest, s.last());
        assert(s.drop_last().push(s.last()) =~= s);
    } else {
        assert(stable_sort::<E, O>(s) =~= s);
    }
}

/// Whatever is read off each element, stable sorting keeps how often each
/// reading occurs.
pub proof fn lemma_stable_sort_keeps_readings<E: DeepView, O: Precedence<E>, T>(
    s: Seq<E::V>,
    read: spec_fn(E::V) -> T,
)
    ensures
        stable_sort::<E, O>(s).map_values(read).to_multiset() == s.map_values(read).to_multiset(),
    decreases s.len(),
{
    broadcast use vstd::seq_lib::group_to_multiset_ensures;
    if s.len() > 0 {
        let rest = stable_sort::<E, O>(s.drop_last());
        let x = s.last();
        lemma_stable_sort_keeps_readings::<E, O, T>(s.drop_last(), read);
        lemma_insert_position_bounds::<E, O>(rest, x);
        let j = insert_position::<E, O>(rest, x);
        assert(rest.insert(j, x).map_values(read) =~= rest.map_values(read).insert(j, read(x)));
        assert(s.map_values(read) =~= s.drop_last().map_values(read).push(read(x)));
    } else {
        assert(stable_sort::<E, O>(s).map_values(read) =~= s.map_values(read));
    }
}

/// Under a total and transitive precedence the stable sort is sorted.
pub proof fn lemma_stable_sort_sorted<E: DeepView, O: Precedence<E>>(s: Seq<E::V>)
    requires
        is_total::<E, O>(),
        is_transitive::<E, O>(),
    ensures
        is_sorted::<E, O>(stable_sort::<E, O>(s)),
    decreases s.len(),
{
    if s.len() > 0 {
        let rest = stable_sort::<E, O>(s.drop_last());
        let x = s.last();
        lemma_stable_sort_sorted::<E, O>(s.drop_last());
        lemma_insert_position_bounds::<E, O>(rest, x);
        let j = insert_position::<E, O>(rest, x);
        let out = rest.insert(j, x);
        assert forall|a: int, b: int| 0 <= a < b < out.len() implies O::le(out[a], out[b]) by {
            if b < j {
                assert(out[a] == rest[a] && out[b] == rest[b]);
            } else if b == j {
                assert(out[a] == rest[a]);
                assert(O::le(rest[a], rest[j - 1]) || a == j - 1);
            } else if a < j {
                assert(out[a] == rest[a] && out[b] == rest[b - 1]);
            } else if a == j {
                assert(out[b] == rest[b - 1]);
                assert(!O::le(rest[b - 1], x));
            } else {
                assert(out[a] == rest[a - 1] && out[b] == rest[b - 1]);
            }
        }
    }
}

/// A sequence that is already sorted is its own stable sort.
pub proof fn lemma_stable_sort_of_sorted<E: DeepView, O: Precedence<E>>(s: Seq<E::V>)
    requires
        is_sorted::<E, O>(s),
    ensures
        stable_sort::<E, O>(s) == s,
    decreases s.len(),
{
    if s.len() > 0 {
        let front = s.drop_last();
        lemma_stable_sort_of_sorted::<E, O>(front);
        lemma_insert_position::<E, O>(front, s.last(), front.len() as int);
        assert(front.insert(front.len() as int, s.last()) =~= s);
    }
}

/// Sorts `v` in place and stably: afterwards its view is the stable sort of
/// the view it had before.
pub fn sort_stable<E: DeepView, O: Precedence<E>>(v: &mut Vec<E>)
    ensures
        final(v).deep_view() == stable_sort::<E, O>(old(v).deep_view()),
{
    let ghost orig = v.deep_view();
    let n = v.len();
    let mut i: usize = 0;
    while i < n
        invariant
            v.len() == n,
            orig.len() == n,
            i <= n,
            v.deep_view().take(i as int) == stable_sort::<E, O>(orig.take(i as int)),
            v.deep_view().skip(i as int) == orig.skip(i as int),
        decreases n - i,
    {
        let ghost before = v.deep_view();
        let ghost x = before[i as int];
        let mut j: usize = i;
        let mut searching = true;
        while searching && j > 0
            invariant
                v.len() == n,
                i < n,
                j <= i,
                v.deep_view() == before,
                x == before[i as int],
                forall|k: int| j <= k < i ==> !O::le(before[k], x),
                !searching ==> j > 0 && O::le(before[j - 1], x),
            decreases j + if searching { 1int } else { 0int },
        {
            if O::le_exec(&v[j - 1], &v[i]) {
                searching = false;
            } else {
                j = j - 1;
            }
        }
        if j < i {
            let moved = v.remove(i);
            v.insert(j, moved);
        }
        proof {
            let placed = before.take(i as int);
            lemma_insert_position::<E, O>(placed, x, j as int);
            assert(orig.take(i as int + 1).drop_last() =~= orig.take(i as int));
            assert(orig.take(i as int + 1).last() == orig.skip(i as int)[0]);
            assert(x == before.skip(i as int)[0]);
            assert(v.deep_view().take(i as int + 1) =~= placed.insert(j as int, x));
            assert forall|k: int| i < k < n implies #[trigger] v.deep_view()[k] == orig[k] by {
                assert(before.skip(i as int)[k - i] == orig.skip(i as int)[k - i]);
            }
            assert(v.deep_view().skip(i as int + 1) =~= orig.skip(i as int + 1));
        }
        i = i + 1;
    }
    proof {
        assert(v.deep_view().take(n as int) =~= v.deep_view());
        assert(orig.take(n as int) =~= orig);
    }
}

} // verus!
