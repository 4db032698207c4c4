//! The displayed sequence: the table's records in order of run time, and
//! those among them that the filter text lets through.

use vstd::prelude::*;
use crate::process::{Process, ProcessView};
use crate::text::{
    chars_of, contains, contains_text, decimal, decimal_digits, lemma_contains_empty, lowercase,
    lowered,
};

verus! {

broadcast use vstd::seq_lib::group_to_multiset_ensures;

/// Whether the filter text lets a record through: the empty filter lets
/// everything through; any other must stand, capitals aside, in the name, or
/// in the pid written in base ten.
pub open spec fn shows(p: ProcessView, filter: Seq<char>) -> bool {
    contains_text(lowered(p.name), lowered(filter)) || contains_text(
        decimal(p.pid as nat),
        lowered(filter),
    )
}

/// The records of `items` that the filter lets through, in their order.
pub open spec fn shown(items: Seq<Process>, filter: Seq<char>) -> Seq<Process> {
    items.filter(|p: Process| shows(p@, filter))
}

/// Whether the run times never fall along `items`.
pub open spec fn ascending(items: Seq<Process>) -> bool {
    forall|i: int, j: int|
        0 <= i <= j < items.len() ==> (#[trigger] items[i]).run_time <= (#[trigger] items[j]).run_time
}

/// The empty filter lets every record through.
pub proof fn lemma_empty_filter_shows_all(p: ProcessView)
    ensures
        shows(p, Seq::empty()),
{
    assert(lowered(Seq::<char>::empty()) =~= Seq::<char>::empty());
    lemma_contains_empty(lowered(p.name));
}

/// Under the empty filter the displayed sequence is the whole sequence,
/// unchanged in length and order.
pub proof fn lemma_empty_filter_is_identity(items: Seq<Process>)
    ensures
        shown(items, Seq::empty()) == items,
    decreases items.len(),
{
    reveal(Seq::filter);
    if items.len() > 0 {
        lemma_empty_filter_is_identity(items.drop_last());
        lemma_empty_filter_shows_all(items.last()@);
        assert(items.drop_last().push(items.last()) =~= items);
    }
}

/// The displayed sequence is never longer than the whole, and holds only
/// records of it that the filter lets through.
pub proof fn lemma_shown_is_part(items: Seq<Process>, filter: Seq<char>)
    ensures
        shown(items, filter).len() <= items.len(),
        forall|i: int|
            0 <= i < shown(items, filter).len() ==> items.contains(
                #[trigger] shown(items, filter)[i],
            ) && shows(shown(items, filter)[i]@, filter),
{
    let pred = |p: Process| shows(p@, filter);
    items.lemma_filter_len(pred);
    assert forall|i: int| 0 <= i < items.filter(pred).len() implies items.contains(
        #[trigger] items.filter(pred)[i],
    ) && pred(items.filter(pred)[i]) by {
        items.lemma_filter_pred(pred, i);
        items.lemma_filter_contains_rev(pred, items.filter(pred)[i]);
    }
}

/// Whether a record passes a filter that is already in lower case.
pub fn passes(p: &Process, needle: &Vec<char>) -> (r: bool)
    ensures
        r == (contains_text(lowered(p.name@), needle@) || contains_text(
            decimal(p.pid as nat),
            needle@,
        )),
{
    let name = lowercase(&chars_of(p.name.as_str()));
    if contains(&name, needle) {
        true
    } else {
        let pid = decimal_digits(p.pid as u64);
        contains(&pid, needle)
    }
}

/// The records of `items` that the filter text lets through, in their order.
pub fn filter_items(items: &Vec<Process>, filter: &str) -> (r: Vec<Process>)
    ensures
        r@ == shown(items@, filter@),
{
    let needle = lowercase(&chars_of(filter));
    let ghost pred = |p: Process| shows(p@, filter@);
    let mut r: Vec<Process> = Vec::new();
    let mut i: usize = 0;
    proof {
        reveal(Seq::filter);
        assert(items@.take(0).filter(pred) =~= Seq::<Process>::empty());
    }
    while i < items.len()
        invariant
            i <= items.len(),
            needle@ == lowered(filter@),
            pred == (|p: Process| shows(p@, filter@)),
            r@ == items@.take(i as int).filter(pred),
        decreases items.len() - i,
    {
        proof {
            reveal(Seq::filter);
            assert(items@.take(i + 1).drop_last() =~= items@.take(i as int));
            assert(items@.take(i + 1).last() == items@[i as int]);
        }
        if passes(&items[i], &needle) {
            r.push(items[i].clone());
        }
        i = i + 1;
    }
    assert(items@.take(items.len() as int) =~= items@);
    r
}

/// Puts the records in order of run time, shortest first.
pub fn sort_by_run_time(items: Vec<Process>) -> (r: Vec<Process>)
    ensures
        ascending(r@),
        r@.to_multiset() == items@.to_multiset(),
{
    broadcast use vstd::multiset::group_multiset_axioms;

    let mut src = items;
    let mut out: Vec<Process> = Vec::new();
    assert(out@.to_multiset().add(src@.to_multiset()) =~= items@.to_multiset());
    while src.len() > 0
        invariant
            ascending(out@),
            out@.to_multiset().add(src@.to_multiset()) == items@.to_multiset(),
        decreases src.len(),
    {
        let ghost src0 = src@;
        let ghost out0 = out@;
        let x = src.pop().unwrap();
        assert(src0 =~= src@.push(x));
        let mut pos: usize = 0;
        while pos < out.len() && out[pos].run_time < x.run_time
            invariant
                pos <= out.len(),
                forall|k: int| 0 <= k < pos ==> (#[trigger] out@[k]).run_time < x.run_time,
            decreases out.len() - pos,
        {
            pos = pos + 1;
        }
        out.insert(pos, x);
        proof {
            assert(out@.remove(pos as int) =~= out0);
            assert(out@[pos as int] == x);
            assert(out@.to_multiset() =~= out0.to_multiset().insert(x));
            assert(out@.to_multiset().add(src@.to_multiset()) =~= items@.to_multiset());
            assert forall|i: int, j: int| 0 <= i <= j < out@.len() implies (#[trigger] out@[i]).run_time
                <= (#[trigger] out@[j]).run_time by {
                let a = if i < pos { i } else { i - 1 };
                let b = if j < pos { j } else { j - 1 };
                if i != pos && j != pos {
                    assert(out0[a].run_time <= out0[b].run_time);
                } else if i == pos && j != pos {
                    assert(out0[pos as int].run_time <= out0[b].run_time);
                } else if j == pos && i != pos {
                    assert(out0[a].run_time < x.run_time);
                }
            }
        }
    }
    assert(src@ =~= Seq::<Process>::empty());
    assert(out@.to_multiset().add(src@.to_multiset()) =~= out@.to_multiset());
    out
}

} // verus!
