//! Ordering services by scaling priority. Both orders are stable: services
//! of equal priority keep the order in which they came.

use vstd::prelude::*;
use crate::registry::{EntryView, RegistryEntry, views_of};

verus! {

/// Whether priority `a` comes strictly before `b`: the higher one first in
/// descending order, the lower one first in ascending order.
pub open spec fn comes_before(a: i32, b: i32, descending: bool) -> bool {
    if descending {
        a > b
    } else {
        a < b
    }
}

/// Where `e` goes in the ordered run `sorted`: behind every entry that does
/// not come strictly after it.
pub open spec fn insert_position(sorted: Seq<EntryView>, e: EntryView, descending: bool) -> int
    decreases sorted.len(),
{
    if sorted.len() == 0 {
        0
    } else if comes_before(e.data.scaling_priority, sorted.last().data.scaling_priority, descending) {
        insert_position(sorted.drop_last(), e, descending)
    } else {
        sorted.len() as int
    }
}

/// The entries of `s` ordered by priority, entries of equal priority in
/// their order in `s`.
pub open spec fn sorted_by_priority(s: Seq<EntryView>, descending: bool) -> Seq<EntryView>
    decreases s.len(),
{
    if s.len() == 0 {
        Seq::empty()
    } else {
        let front = sorted_by_priority(s.drop_last(), descending);
        front.insert(insert_position(front, s.last(), descending), s.last())
    }
}

/// No entry comes strictly before one that stands ahead of it.
pub open spec fn in_priority_order(s: Seq<EntryView>, descending: bool) -> bool {
    forall|i: int, j: int|
        0 <= i < j < s.len() ==> !comes_before(
            (#[trigger] s[j]).data.scaling_priority,
            (#[trigger] s[i]).data.scaling_priority,
            descending,
        )
}

/// The insert position lies behind everything that does not come strictly
/// after `e` and ahead of everything that does.
pub proof fn lemma_insert_position(sorted: Seq<EntryView>, e: EntryView, descending: bool)
    ensures
        0 <= insert_position(sorted, e, descending) <= sorted.len(),
        forall|k: int|
            insert_position(sorted, e, descending) <= k < sorted.len() ==> comes_before(
                e.data.scaling_priority,
                (#[trigger] sorted[k]).data.scaling_priority,
                descending,
            ),
        insert_position(sorted, e, descending) > 0 ==> !comes_before(
            e.data.scaling_priority,
            sorted[insert_position(sorted, e, descending) - 1].data.scaling_priority,
            descending,
        ),
    decreases sorted.len(),
{
    if sorted.len() > 0 && comes_before(
        e.data.scaling_priority,
        sorted.last().data.scaling_priority,
        descending,
    ) {
        lemma_insert_position(sorted.drop_last(), e, descending);
        let p = insert_position(sorted, e, descending);
        assert forall|k: int| p <= k < sorted.len() implies comes_before(
            e.data.scaling_priority,
            (#[trigger] sorted[k]).data.scaling_priority,
            descending,
        ) by {
            if k < sorted.len() - 1 {
                assert(sorted[k] == sorted.drop_last()[k]);
            }
        }
        if p > 0 {
            assert(sorted[p - 1] == sorted.drop_last()[p - 1]);
        }
    }
}

/// Sorting yields an ordered run that holds the same entries as its input,
/// each as often.
pub proof fn lemma_sorted_by_priority(s: Seq<EntryView>, descending: bool)
    ensures
        sorted_by_priority(s, descending).len() == s.len(),
        in_priority_order(sorted_by_priority(s, descending), descending),
        sorted_by_priority(s, descending).to_multiset() == s.to_multiset(),
    decreases s.len(),
{
    if s.len() == 0 {
        assert(s =~= Seq::<EntryView>::empty());
    } else {
        let front = sorted_by_priority(s.drop_last(), descending);
        let e = s.last();
        let p = insert_position(front, e, descending);
        lemma_sorted_by_priority(s.drop_last(), descending);
        lemma_insert_position(front, e, descending);
        let out = front.insert(p, e);
        assert forall|i: int, j: int| 0 <= i < j < out.len() implies !comes_before(
            (#[trigger] out[j]).data.scaling_priority,
            (#[trigger] out[i]).data.scaling_priority,
            descending,
        ) by {
            if j == p {
                if i < p && p > 0 {
                    if i < p - 1 {
                        assert(!comes_before(
                            front[p - 1].data.scaling_priority,
                            front[i].data.scaling_priority,
                            descending,
                        ));
                    }
                }
            } else if i == p {
                assert(out[j] == front[j - 1]);
            } else {
                let fi = if i < p {
                    i
                } else {
                    i - 1
                };
                let fj = if j < p {
                    j
                } else {
                    j - 1
                };
                assert(out[i] == front[fi] && out[j] == front[fj]);
            }
        }
        assert(out.to_multiset() =~= front.to_multiset().insert(e)) by {
            out.to_multiset_ensures();
            assert(out.remove(p) =~= front);
            assert(out[p] == e);
            assert(out.contains(e));
        }
        assert(s =~= s.drop_last().push(e));
        assert(s.to_multiset() =~= s.drop_last().to_multiset().insert(e)) by {
            s.drop_last().to_multiset_ensures();
        }
    }
}

/// Tests whether priority `a` comes strictly before `b`.
pub fn is_before(a: i32, b: i32, descending: bool) -> (before: bool)
    ensures
        before == comes_before(a, b, descending),
{
    if descending {
        a > b
    } else {
        a < b
    }
}

/// Puts `entry` into the ordered run `sorted` at its insert position.
fn insert_entry(sorted: &mut Vec<RegistryEntry>, entry: RegistryEntry, descending: bool)
    ensures
        views_of(final(sorted)@) == views_of(old(sorted)@).insert(
            insert_position(views_of(old(sorted)@), entry@, descending),
            entry@,
        ),
{
    let ghost run = views_of(sorted@);
    let priority = entry.data.scaling_priority;
    let mut p: usize = sorted.len();
    assert(run.subrange(0, p as int) =~= run);
    while p > 0 && is_before(priority, sorted[p - 1].data.scaling_priority, descending)
        invariant
            p <= sorted.len(),
            run == views_of(sorted@),
            priority == entry.data.scaling_priority,
            insert_position(run, entry@, descending) == insert_position(
                run.subrange(0, p as int),
                entry@,
                descending,
            ),
        decreases p,
    {
        assert(run.subrange(0, p as int).drop_last() =~= run.subrange(0, p as int - 1));
        assert(run.subrange(0, p as int).last() == run[p - 1]);
        p -= 1;
    }
    proof {
        if p > 0 {
            assert(run.subrange(0, p as int).last() == run[p - 1]);
        }
    }
    let ghost e = entry@;
    sorted.insert(p, entry);
    assert(views_of(sorted@) =~= run.insert(p as int, e));
}

/// Orders `items` by scaling priority, highest first where `descending`,
/// lowest first otherwise; items of equal priority keep their order.
pub fn sort_by_priority(items: Vec<RegistryEntry>, descending: bool) -> (sorted: Vec<RegistryEntry>)
    ensures
        views_of(sorted@) == sorted_by_priority(views_of(items@), descending),
        in_priority_order(views_of(sorted@), descending),
        views_of(sorted@).to_multiset() == views_of(items@).to_multiset(),
{
    let ghost input = views_of(items@);
    let mut rest = items;
    let mut sorted: Vec<RegistryEntry> = Vec::new();
    let ghost mut done: int = 0;
    assert(views_of(sorted@) =~= sorted_by_priority(input.subrange(0, 0), descending));
    while rest.len() > 0
        invariant
            0 <= done <= input.len(),
            views_of(rest@) == input.subrange(done, input.len() as int),
            views_of(sorted@) == sorted_by_priority(input.subrange(0, done), descending),
        decreases rest.len(),
    {
        let ghost before = views_of(rest@);
        assert(before.len() == rest@.len());
        assert(input.subrange(done, input.len() as int).len() == input.len() - done);
        let entry = rest.remove(0);
        proof {
            assert(entry@ == before[0]);
            assert forall|k: int| 0 <= k < rest@.len() implies (#[trigger] views_of(rest@)[k])
                == input[done + 1 + k] by {
                assert(views_of(rest@)[k] == before[k + 1]);
            }
            assert(views_of(rest@) =~= input.subrange(done + 1, input.len() as int));
            assert(input.subrange(0, done + 1).drop_last() =~= input.subrange(0, done));
            assert(input.subrange(0, done + 1).last() == entry@);
        }
        insert_entry(&mut sorted, entry, descending);
        proof {
            done = done + 1;
        }
    }
    proof {
        assert(input.subrange(0, done) =~= input);
        lemma_sorted_by_priority(input, descending);
    }
    sorted
}

} // verus!
