//! What a run of insertions and extractions does to a heap.
//!
//! A heap may hold elements of which none ranks above the other, so what an
//! extraction returns is not a function of the multiset of its elements. A
//! run of extractions is therefore described by a relation between that
//! multiset and the sequence that comes out.

use crate::heap::Heap;
use crate::order::{
    ascending, descending, lemma_natural_rules_are_weak_orders, lemma_not_less_is_at_least,
    total_order,
};
use vstd::multiset::Multiset;
use vstd::prelude::*;
use vstd::std_specs::cmp::PartialOrdIs;

verus! {

/// The contents of a heap that held `contents` after the elements of `items`
/// have been added one by one.
pub open spec fn after_adds<T>(contents: Multiset<T>, items: Seq<T>) -> Multiset<T>
    decreases items.len(),
{
    if items.len() == 0 {
        contents
    } else {
        after_adds(contents.insert(items.first()), items.drop_first())
    }
}

/// The contents that are left of `contents` after the elements of `out` have
/// been extracted one by one.
pub open spec fn after_extractions<T>(contents: Multiset<T>, out: Seq<T>) -> Multiset<T>
    decreases out.len(),
{
    if out.len() == 0 {
        contents
    } else {
        after_extractions(contents.remove(out.first()), out.drop_first())
    }
}

impl<T: Default> Heap<T> {
    /// `out` is what successive extractions may return, in the order of the
    /// calls, from a heap with this heap's rule that holds `contents`: each
    /// element is a top element of what the ones before it have left.
    pub open spec fn yields(&self, contents: Multiset<T>, out: Seq<T>) -> bool
        decreases out.len(),
    {
        out.len() > 0 ==> {
            &&& self.is_top_of(out.first(), contents)
            &&& self.yields(contents.remove(out.first()), out.drop_first())
        }
    }

    /// A run goes on: when `out` has come out and `x` is a top element of
    /// what is left, `out` followed by `x` may come out too.
    pub proof fn lemma_yields_one_more(&self, contents: Multiset<T>, out: Seq<T>, x: T)
        requires
            self.yields(contents, out),
            self.is_top_of(x, after_extractions(contents, out)),
        ensures
            self.yields(contents, out.push(x)),
            after_extractions(contents, out.push(x)) == after_extractions(contents, out).remove(x),
        decreases out.len(),
    {
        let longer = out.push(x);
        if out.len() == 0 {
            assert(self.yields(contents.remove(x), longer.drop_first()));
            assert(after_extractions(contents.remove(x), longer.drop_first()) == contents.remove(
                x,
            ));
        } else {
            self.lemma_yields_one_more(contents.remove(out.first()), out.drop_first(), x);
            assert(longer.drop_first() =~= out.drop_first().push(x));
        }
    }

    /// What is extracted was in the heap: the elements that came out and the
    /// elements that are left make up the contents.
    pub proof fn lemma_extractions_take(&self, contents: Multiset<T>, out: Seq<T>)
        requires
            self.yields(contents, out),
        ensures
            after_extractions(contents, out).add(out.to_multiset()) == contents,
            out.len() <= contents.len(),
            forall|k: int| 0 <= k < out.len() ==> contents.contains(#[trigger] out[k]),
        decreases out.len(),
    {
        broadcast use vstd::seq_lib::group_to_multiset_ensures;

        if out.len() > 0 {
            let first = out.first();
            let rest = out.drop_first();
            let left = contents.remove(first);
            self.lemma_extractions_take(left, rest);
            assert(rest.insert(0, first) =~= out);
            assert(after_extractions(left, rest).add(rest.to_multiset().insert(first))
                =~= after_extractions(left, rest).add(rest.to_multiset()).insert(first));
        }
    }

    /// Extraction goes by rank: no element ranks above one that came out
    /// before it.
    pub proof fn lemma_extraction_ordered(
        &self,
        contents: Multiset<T>,
        out: Seq<T>,
        i: int,
        j: int,
    )
        requires
            self.yields(contents, out),
            0 <= i <= j < out.len(),
        ensures
            self.not_above(out[j], out[i]),
        decreases i,
    {
        if i == 0 {
            self.lemma_extractions_take(contents, out);
        } else {
            self.lemma_extraction_ordered(
                contents.remove(out.first()),
                out.drop_first(),
                i - 1,
                j - 1,
            );
        }
    }

    /// Round trip: when as many elements are extracted from a heap as were
    /// added to it while it was empty, the added elements come out, each as
    /// often as it was added, sorted by rank, and the heap is empty again.
    pub proof fn lemma_round_trip(&self, items: Seq<T>, out: Seq<T>)
        requires
            self.yields(after_adds(Multiset::empty(), items), out),
            out.len() == items.len(),
        ensures
            out.to_multiset() == items.to_multiset(),
            after_extractions(after_adds(Multiset::empty(), items), out) == Multiset::<T>::empty(),
            forall|i: int, j: int|
                0 <= i <= j < out.len() ==> self.not_above(#[trigger] out[j], #[trigger] out[i]),
    {
        broadcast use vstd::seq_lib::group_to_multiset_ensures;

        let filled = after_adds(Multiset::empty(), items);
        let left = after_extractions(filled, out);
        lemma_adds_collect(Multiset::empty(), items);
        self.lemma_extractions_take(filled, out);
        assert(left.add(out.to_multiset()) =~= out.to_multiset());
        assert forall|i: int, j: int| 0 <= i <= j < out.len() implies self.not_above(
            #[trigger] out[j],
            #[trigger] out[i],
        ) by {
            self.lemma_extraction_ordered(filled, out, i, j);
        }
    }
}

impl<T: Default> Heap<T> {
    /// Extracts every element, in the order in which `next` gives them out,
    /// and leaves the heap empty.
    pub fn drain(&mut self) -> (out: Vec<T>)
        requires
            old(self).wf(),
        ensures
            final(self).wf(),
            final(self).same_rule(old(self)),
            final(self)@ == Multiset::<T>::empty(),
            old(self).yields(old(self)@, out@),
            out@.to_multiset() == old(self)@,
            forall|i: int, j: int|
                0 <= i <= j < out@.len() ==> old(self).not_above(
                    #[trigger] out@[j],
                    #[trigger] out@[i],
                ),
    {
        let mut out: Vec<T> = Vec::new();
        loop
            invariant
                self.wf(),
                self.same_rule(old(self)),
                old(self).yields(old(self)@, out@),
                self@ == after_extractions(old(self)@, out@),
            ensures
                self.wf(),
                self.same_rule(old(self)),
                old(self).yields(old(self)@, out@),
                self@ == after_extractions(old(self)@, out@),
                self@.len() == 0,
            decreases self@.len(),
        {
            match self.next() {
                None => {
                    break ;
                },
                Some(top) => {
                    proof {
                        old(self).lemma_yields_one_more(old(self)@, out@, top);
                    }
                    out.push(top);
                },
            }
        }
        proof {
            old(self).lemma_extractions_take(old(self)@, out@);
            assert forall|i: int, j: int| 0 <= i <= j < out@.len() implies old(self).not_above(
                #[trigger] out@[j],
                #[trigger] out@[i],
            ) by {
                old(self).lemma_extraction_ordered(old(self)@, out@, i, j);
            }
        }
        out
    }
}

impl<T: Default + Ord> Heap<T> {
    /// A min-heap over a totally ordered type gives its elements out in
    /// non-decreasing order.
    pub proof fn lemma_min_heap_ascends(&self, contents: Multiset<T>, out: Seq<T>, i: int, j: int)
        requires
            total_order::<T>(),
            self.agrees(ascending::<T>()),
            self.yields(contents, out),
            0 <= i <= j < out.len(),
        ensures
            out[i].is_le(&out[j]),
    {
        lemma_natural_rules_are_weak_orders::<T>();
        self.lemma_extraction_ordered(contents, out, i, j);
        lemma_not_less_is_at_least::<T>(out[j], out[i]);
    }

    /// A max-heap over a totally ordered type gives its elements out in
    /// non-increasing order.
    pub proof fn lemma_max_heap_descends(&self, contents: Multiset<T>, out: Seq<T>, i: int, j: int)
        requires
            total_order::<T>(),
            self.agrees(descending::<T>()),
            self.yields(contents, out),
            0 <= i <= j < out.len(),
        ensures
            out[i].is_ge(&out[j]),
    {
        lemma_natural_rules_are_weak_orders::<T>();
        self.lemma_extraction_ordered(contents, out, i, j);
        lemma_not_less_is_at_least::<T>(out[j], out[i]);
    }
}

/// Adding collects: the heap then holds what it held and every added
/// element, each as often as it was added.
pub proof fn lemma_adds_collect<T>(contents: Multiset<T>, items: Seq<T>)
    ensures
        after_adds(contents, items) == contents.add(items.to_multiset()),
    decreases items.len(),
{
    broadcast use vstd::seq_lib::group_to_multiset_ensures;

    if items.len() > 0 {
        let first = items.first();
        let rest = items.drop_first();
        lemma_adds_collect(contents.insert(first), rest);
        assert(rest.insert(0, first) =~= items);
    }
}

} // verus!
