//! A binary heap whose ordering rule is fixed when it is made.
//!
//! The heap is modelled twice: by the sequence of its slots, which says where
//! every element lies, and by the multiset of its elements, which is all that
//! most callers need. The comparator is a function value, so nothing is known
//! of it but what its own contract says. Whatever is said of ranks is
//! therefore said for every relation that the comparator computes: the
//! layout for any such relation, the order of extraction for those that are
//! strict weak orders.

use crate::order::{
    ascending, descending, lemma_total_order_compares, strict_weak_order, total_order,
};
use crate::sift::{preferred_child, root_replaced, sift_down, sift_up, swapped};
use vstd::multiset::Multiset;
use vstd::prelude::*;
use vstd::std_specs::cmp::PartialOrdIs;

verus! {

/// `f` computes `rel`: whenever it is asked whether `a` ranks above `b`, it
/// answers `rel(a, b)`.
pub open spec fn computes<T, F: Fn(&T, &T) -> bool>(f: F, rel: spec_fn(T, T) -> bool) -> bool {
    forall|a: T, b: T, r: bool| #[trigger] call_ensures(f, (&a, &b), r) ==> r == rel(a, b)
}

/// An ordering rule as the heap holds it: something that can be asked
/// whether one element ranks above another.
trait Rule<T> {
    /// The rule may be asked about any two elements.
    spec fn callable(&self) -> bool;

    /// Every answer of the rule is the one that `rel` gives.
    spec fn agrees(&self, rel: spec_fn(T, T) -> bool) -> bool;

    fn ranks_above(&self, a: &T, b: &T) -> (r: bool)
        requires
            self.callable(),
        ensures
            forall|rel: spec_fn(T, T) -> bool| #[trigger] self.agrees(rel) ==> r == rel(*a, *b),
    ;
}

/// The rule given by a comparison function.
struct Comparison<F>(F);

impl<T, F: Fn(&T, &T) -> bool> Rule<T> for Comparison<F> {
    spec fn callable(&self) -> bool {
        forall|a: T, b: T| #[trigger] call_requires(self.0, (&a, &b))
    }

    spec fn agrees(&self, rel: spec_fn(T, T) -> bool) -> bool {
        computes(self.0, rel)
    }

    fn ranks_above(&self, a: &T, b: &T) -> (r: bool) {
        (self.0)(a, b)
    }
}

/// Exchanging two elements of a sequence keeps the multiset of the elements.
proof fn lemma_swap_to_multiset<T>(s: Seq<T>, i: int, j: int)
    requires
        0 <= i < s.len(),
        0 <= j < s.len(),
    ensures
        s.update(i, s[j]).update(j, s[i]).to_multiset() == s.to_multiset(),
{
    broadcast use vstd::seq_lib::group_to_multiset_ensures;
}

/// Moving the last element of a sequence into the first place, as the last
/// place is given up, takes the first element out of the multiset.
proof fn lemma_replace_first_by_last<T>(s: Seq<T>)
    requires
        s.len() > 0,
    ensures
        s.update(0, s.last()).drop_last().to_multiset() == s.to_multiset().remove(s[0]),
{
    let t = s.update(0, s.last());
    vstd::seq_lib::to_multiset_update(s, 0, s.last());
    vstd::seq_lib::to_multiset_remove(t, t.len() - 1);
}

/// Exchanges the elements in slots `i` and `j` of `v`.
fn swap_slots<T>(v: &mut Vec<T>, i: usize, j: usize)
    requires
        i < j < old(v)@.len(),
    ensures
        final(v)@ == swapped(old(v)@, i as int, j as int),
{
    let (low, high) = v.as_mut_slice().split_at_mut(j);
    core::mem::swap(&mut low[i], &mut high[0]);
}

/// A binary heap. Its view is the multiset of the elements it holds.
///
/// The elements lie in `items[1..=count]` as an implicit binary tree: the
/// root at index 1, the children of index `i` at `2i` and `2i + 1`. Index 0
/// is a slot that is never read. `slots` gives this layout.
#[verifier::reject_recursive_types(T)]
pub struct Heap<T> where T: Default {
    count: usize,
    items: Vec<T>,
    comparator: Box<dyn Rule<T>>,
}

impl<T: Default> View for Heap<T> {
    type V = Multiset<T>;

    open spec fn view(&self) -> Multiset<T> {
        self.slots().drop_first().to_multiset()
    }
}

impl<T: Default> Heap<T> {
    /// The slots of the heap: the unused slot at index 0, then the elements
    /// in the order of the tree, the root at index 1.
    pub closed spec fn slots(&self) -> Seq<T> {
        self.items@
    }

    /// Every answer of the heap's comparator is the one that `rel` gives.
    pub closed spec fn agrees(&self, rel: spec_fn(T, T) -> bool) -> bool {
        self.comparator.agrees(rel)
    }

    /// The two heaps rank by the same rule.
    pub open spec fn same_rule(&self, other: &Self) -> bool {
        forall|rel: spec_fn(T, T) -> bool|
            #![trigger self.agrees(rel)]
            #![trigger other.agrees(rel)]
            self.agrees(rel) == other.agrees(rel)
    }

    /// `x` does not rank above `y`, whichever strict weak order the
    /// comparator computes.
    pub open spec fn not_above(&self, x: T, y: T) -> bool {
        forall|rel: spec_fn(T, T) -> bool|
            #![trigger self.agrees(rel)]
            self.agrees(rel) && strict_weak_order(rel) ==> !rel(x, y)
    }

    /// `x` is an element of `m` above which no element of `m` ranks.
    pub open spec fn is_top_of(&self, x: T, m: Multiset<T>) -> bool {
        &&& m.contains(x)
        &&& forall|y: T| #[trigger] m.contains(y) ==> self.not_above(y, x)
    }

    /// The heap property: no element ranks above its parent.
    pub open spec fn heap_ordered(&self) -> bool {
        forall|i: int|
            2 <= i < self.slots().len() ==> self.not_above(
                #[trigger] self.slots()[i],
                self.slots()[i / 2],
            )
    }

    /// The heap is well formed: the slots match the count, the comparator
    /// can be asked about any two elements, and no element ranks above its
    /// parent.
    pub closed spec fn wf(&self) -> bool {
        &&& self.shaped()
        &&& self.ordered()
    }

    /// The slots match the count and the comparator can be asked about any
    /// two elements.
    spec fn shaped(&self) -> bool {
        &&& self.items@.len() == self.count + 1
        &&& self.comparator.callable()
    }

    /// What `not_above` says, stated of the comparator itself, so that it
    /// carries over to every heap that holds the same comparator.
    spec fn below(&self, x: T, y: T) -> bool {
        forall|rel: spec_fn(T, T) -> bool|
            #![trigger self.comparator.agrees(rel)]
            self.comparator.agrees(rel) && strict_weak_order(rel) ==> !rel(x, y)
    }

    /// The element in slot `i` does not rank above the one in slot `j`.
    spec fn slot_below(&self, i: int, j: int) -> bool {
        self.below(self.items@[i], self.items@[j])
    }

    /// No element ranks above itself.
    proof fn lemma_below_reflexive(&self, x: T)
        ensures
            self.below(x, x),
    {
        assert forall|rel: spec_fn(T, T) -> bool|
            #![trigger self.comparator.agrees(rel)]
            self.comparator.agrees(rel) && strict_weak_order(rel) implies !rel(x, x) by {}
    }

    /// "Does not rank above" is transitive.
    proof fn lemma_below_transitive(&self, x: T, y: T, z: T)
        requires
            self.below(x, y),
            self.below(y, z),
        ensures
            self.below(x, z),
    {
        assert forall|rel: spec_fn(T, T) -> bool|
            #![trigger self.comparator.agrees(rel)]
            self.comparator.agrees(rel) && strict_weak_order(rel) implies !rel(x, z) by {}
    }

    /// The heap property: no element ranks above its parent.
    spec fn ordered(&self) -> bool {
        forall|i: int| 2 <= i <= self.count ==> #[trigger] self.slot_below(i, i / 2)
    }

    /// The heap property but for the element in slot `idx`, which may rank
    /// above its parent; its children do not rank above that parent.
    spec fn ordered_but_at(&self, idx: int) -> bool {
        &&& forall|i: int|
            2 <= i <= self.count && i != idx ==> #[trigger] self.slot_below(i, i / 2)
        &&& forall|i: int|
            2 <= i <= self.count && i / 2 == idx && idx >= 2 ==> #[trigger] self.slot_below(
                i,
                idx / 2,
            )
    }

    /// The heap property but for the children of slot `idx`, which may rank
    /// above it; they do not rank above its parent.
    spec fn ordered_but_under(&self, idx: int) -> bool {
        &&& forall|i: int|
            2 <= i <= self.count && i / 2 != idx ==> #[trigger] self.slot_below(i, i / 2)
        &&& forall|i: int|
            2 <= i <= self.count && i / 2 == idx && idx >= 2 ==> #[trigger] self.slot_below(
                i,
                idx / 2,
            )
    }

    /// A well-formed heap has the heap property.
    pub proof fn lemma_heap_property(&self)
        requires
            self.wf(),
        ensures
            self.heap_ordered(),
    {
        assert forall|i: int| 2 <= i < self.slots().len() implies self.not_above(
            #[trigger] self.slots()[i],
            self.slots()[i / 2],
        ) by {
            assert(self.slot_below(i, i / 2));
        }
    }

    /// In a well-formed heap no element ranks above the root.
    proof fn lemma_root_on_top(&self, i: int)
        requires
            self.wf(),
            1 <= i <= self.count,
        ensures
            self.slot_below(i, 1),
        decreases i,
    {
        if i == 1 {
            self.lemma_below_reflexive(self.items@[1]);
        } else {
            self.lemma_root_on_top(i / 2);
            assert(self.slot_below(i, i / 2));
            self.lemma_below_transitive(self.items@[i], self.items@[i / 2], self.items@[1]);
        }
    }

    /// The root of a well-formed heap is a top element of its contents.
    proof fn lemma_root_is_top(&self)
        requires
            self.wf(),
            self.count >= 1,
        ensures
            self.is_top_of(self.items@[1], self@),
    {
        broadcast use vstd::seq_lib::group_to_multiset_ensures;

        let elements = self.items@.drop_first();
        let root = self.items@[1];
        assert(elements[0] == root);
        assert forall|y: T| #[trigger] self@.contains(y) implies self.not_above(y, root) by {
            let k = choose|k: int| 0 <= k < elements.len() && elements[k] == y;
            self.lemma_root_on_top(k + 1);
        }
    }

    /// An empty heap that ranks its elements by `comparator`, which answers
    /// whether its first argument ranks above its second.
    pub fn new<F: Fn(&T, &T) -> bool + 'static>(comparator: F) -> (heap: Self)
        requires
            forall|a: T, b: T| #[trigger] call_requires(comparator, (&a, &b)),
        ensures
            heap.wf(),
            heap.slots().len() == 1,
            heap@ == Multiset::<T>::empty(),
            forall|rel: spec_fn(T, T) -> bool| #[trigger]
                heap.agrees(rel) <==> computes(comparator, rel),
    {
        broadcast use vstd::seq_lib::group_to_multiset_ensures;

        let mut items = Vec::new();
        items.push(T::default());
        let heap = Self { count: 0, items, comparator: Box::new(Comparison(comparator)) };
        heap
    }

    /// The number of elements.
    pub fn len(&self) -> (n: usize)
        requires
            self.wf(),
        ensures
            n == self@.len(),
            n == self.slots().len() - 1,
    {
        broadcast use vstd::seq_lib::group_to_multiset_ensures;

        self.count
    }

    /// Whether the heap holds no element.
    pub fn is_empty(&self) -> (b: bool)
        requires
            self.wf(),
        ensures
            b <==> self@.len() == 0,
    {
        self.len() == 0
    }

    /// Inserts `value`. It is placed behind the last element and rises, by
    /// exchanges with its parent, for as long as it ranks above that parent.
    pub fn add(&mut self, value: T)
        requires
            old(self).wf(),
        ensures
            final(self).wf(),
            final(self).same_rule(old(self)),
            final(self)@ == old(self)@.insert(value),
            forall|rel: spec_fn(T, T) -> bool| #[trigger]
                old(self).agrees(rel) ==> final(self).slots() == sift_up(
                    rel,
                    old(self).slots().push(value),
                    old(self).slots().len() as int,
                ),
    {
        broadcast use vstd::seq_lib::group_to_multiset_ensures;

        assert(self.items.len() == self.count + 1);
        self.count += 1;
        self.items.push(value);
        assert(self.items@.drop_first() =~= old(self).items@.drop_first().push(value));
        assert forall|i: int| 2 <= i <= self.count && i != self.count implies #[trigger]
            self.slot_below(i, i / 2) by {
            assert(old(self).slot_below(i, i / 2));
        }

        let ghost start = self.items@;
        let ghost last = self.count as int;
        let mut idx = self.count;
        while idx > 1
            invariant
                1 <= idx <= self.count,
                self.shaped(),
                self.ordered_but_at(idx as int),
                self.comparator == old(self).comparator,
                self@ == old(self)@.insert(value),
                forall|rel: spec_fn(T, T) -> bool| #[trigger]
                    self.comparator.agrees(rel) ==> sift_up(rel, self.items@, idx as int)
                        == sift_up(rel, start, last),
            ensures
                self.shaped(),
                self.ordered(),
                self.comparator == old(self).comparator,
                self@ == old(self)@.insert(value),
                forall|rel: spec_fn(T, T) -> bool| #[trigger]
                    self.comparator.agrees(rel) ==> self.items@ == sift_up(rel, start, last),
            decreases idx,
        {
            let p = self.parent_idx(idx);
            if self.ranks_above(idx, p) {
                let ghost before = *self;
                swap_slots(&mut self.items, p, idx);
                proof {
                    before.lemma_exchange_keeps_elements(self, p as int, idx as int);
                    before.lemma_rise(self, idx as int);
                }
                idx = p;
            } else {
                break ;
            }
        }
    }

    /// The slot of the parent.
    fn parent_idx(&self, idx: usize) -> (p: usize)
        ensures
            p == idx / 2,
    {
        idx / 2
    }

    /// Whether slot `idx` has a child, that is, a left child.
    fn children_present(&self, idx: usize) -> (b: bool)
        ensures
            b <==> 2 * idx <= self.count,
    {
        idx <= self.count / 2
    }

    /// The slot of the left child.
    fn left_child_idx(&self, idx: usize) -> (c: usize)
        requires
            2 * idx <= usize::MAX,
        ensures
            c == 2 * idx,
    {
        idx * 2
    }

    /// The slot of the right child.
    fn right_child_idx(&self, idx: usize) -> (c: usize)
        requires
            2 * idx + 1 <= usize::MAX,
        ensures
            c == 2 * idx + 1,
    {
        self.left_child_idx(idx) + 1
    }

    /// Asks the comparator whether the element in slot `i` ranks above the
    /// one in slot `j`.
    fn ranks_above(&self, i: usize, j: usize) -> (r: bool)
        requires
            self.shaped(),
            i <= self.count,
            j <= self.count,
        ensures
            r ==> self.slot_below(j as int, i as int),
            !r ==> self.slot_below(i as int, j as int),
            forall|rel: spec_fn(T, T) -> bool| #[trigger]
                self.comparator.agrees(rel) ==> r == rel(
                    self.items@[i as int],
                    self.items@[j as int],
                ),
    {
        self.comparator.ranks_above(&self.items[i], &self.items[j])
    }

    /// The child of slot `idx` that is to be compared with it: the only
    /// one, or of two the one that the comparator prefers.
    fn smallest_child_idx(&self, idx: usize) -> (c: usize)
        requires
            self.shaped(),
            1 <= idx,
            2 * idx <= self.count,
        ensures
            c == 2 * idx || c == 2 * idx + 1,
            c <= self.count,
            forall|i: int|
                2 <= i <= self.count && i / 2 == idx ==> #[trigger] self.slot_below(i, c as int),
            forall|rel: spec_fn(T, T) -> bool| #[trigger]
                self.comparator.agrees(rel) ==> c == preferred_child(rel, self.items@, idx as int),
    {
        let left = self.left_child_idx(idx);
        let right = self.right_child_idx(idx);
        proof {
            self.lemma_below_reflexive(self.items@[left as int]);
        }
        if right > self.count {
            return left;
        }
        proof {
            self.lemma_below_reflexive(self.items@[right as int]);
        }
        if self.ranks_above(left, right) {
            left
        } else {
            right
        }
    }

    /// Lets the element in slot `idx` sink, by exchanges with the preferred
    /// child, for as long as that child ranks above it.
    fn heapify_down(&mut self, mut idx: usize)
        requires
            old(self).shaped(),
            old(self).ordered_but_under(idx as int),
            1 <= idx,
        ensures
            final(self).wf(),
            final(self).count == old(self).count,
            final(self).comparator == old(self).comparator,
            final(self)@ == old(self)@,
            forall|rel: spec_fn(T, T) -> bool| #[trigger]
                old(self).comparator.agrees(rel) ==> final(self).items@ == sift_down(
                    rel,
                    old(self).items@,
                    idx as int,
                ),
    {
        let ghost start = idx as int;
        while self.children_present(idx)
            invariant
                1 <= idx,
                self.shaped(),
                self.ordered_but_under(idx as int),
                self.count == old(self).count,
                self.comparator == old(self).comparator,
                self@ == old(self)@,
                forall|rel: spec_fn(T, T) -> bool| #[trigger]
                    self.comparator.agrees(rel) ==> sift_down(rel, self.items@, idx as int)
                        == sift_down(rel, old(self).items@, start),
            ensures
                self.shaped(),
                self.ordered(),
                self.count == old(self).count,
                self.comparator == old(self).comparator,
                self@ == old(self)@,
                forall|rel: spec_fn(T, T) -> bool| #[trigger]
                    self.comparator.agrees(rel) ==> self.items@ == sift_down(
                        rel,
                        old(self).items@,
                        start,
                    ),
            decreases self.count - idx,
        {
            let child_idx = self.smallest_child_idx(idx);
            if !self.ranks_above(child_idx, idx) {
                proof {
                    self.lemma_settled(idx as int, child_idx as int);
                }
                break ;
            }
            let ghost before = *self;
            swap_slots(&mut self.items, idx, child_idx);
            proof {
                before.lemma_exchange_keeps_elements(self, idx as int, child_idx as int);
                before.lemma_sink(self, idx as int, child_idx as int);
            }
            idx = child_idx;
        }
    }

    /// Takes a top element out and returns it; `None` when the heap is
    /// empty. The last element takes the root's place and sinks from there.
    pub fn next(&mut self) -> (r: Option<T>)
        requires
            old(self).wf(),
        ensures
            final(self).wf(),
            final(self).same_rule(old(self)),
            r is None <==> old(self)@.len() == 0,
            match r {
                Some(top) => {
                    &&& top == old(self).slots()[1]
                    &&& old(self).is_top_of(top, old(self)@)
                    &&& final(self)@ == old(self)@.remove(top)
                    &&& forall|rel: spec_fn(T, T) -> bool| #[trigger]
                        old(self).agrees(rel) ==> final(self).slots() == sift_down(
                            rel,
                            root_replaced(old(self).slots()),
                            1,
                        )
                },
                None => final(self).slots() == old(self).slots(),
            },
    {
        broadcast use vstd::seq_lib::group_to_multiset_ensures;

        if self.is_empty() {
            return None;
        }
        proof {
            self.lemma_root_is_top();
            lemma_replace_first_by_last(self.items@.drop_first());
        }
        let root = self.items.swap_remove(1);
        self.count -= 1;
        assert(self.items@.drop_first() =~= old(self).items@.drop_first().update(
            0,
            old(self).items@.drop_first().last(),
        ).drop_last());
        assert forall|i: int| 2 <= i <= self.count && i / 2 != 1 implies #[trigger] self.slot_below(
            i,
            i / 2,
        ) by {
            assert(old(self).slot_below(i, i / 2));
        }
        self.heapify_down(1);
        Some(root)
    }

    /// An exchange of two elements keeps the contents.
    proof fn lemma_exchange_keeps_elements(&self, after: &Self, i: int, j: int)
        requires
            1 <= i < self.items@.len(),
            1 <= j < self.items@.len(),
            after.items@ == swapped(self.items@, i, j),
        ensures
            after@ == self@,
    {
        let elements = self.items@.drop_first();
        lemma_swap_to_multiset(elements, i - 1, j - 1);
        assert(after.items@.drop_first() =~= elements.update(i - 1, elements[j - 1]).update(
            j - 1,
            elements[i - 1],
        ));
    }

    /// One step of rising: the element in slot `idx` ranks above its parent
    /// and changes places with it. Then only that parent's slot may break
    /// the heap property.
    proof fn lemma_rise(&self, after: &Self, idx: int)
        requires
            self.shaped(),
            2 <= idx <= self.count,
            self.ordered_but_at(idx),
            self.slot_below(idx / 2, idx),
            after.count == self.count,
            after.comparator == self.comparator,
            after.items@ == swapped(self.items@, idx / 2, idx),
        ensures
            after.ordered_but_at(idx / 2),
    {
        let p = idx / 2;
        let s = self.items@;
        assert forall|i: int| 2 <= i <= after.count && i != p implies #[trigger] after.slot_below(
            i,
            i / 2,
        ) by {
            if i == idx {
            } else if i / 2 == idx {
                assert(self.slot_below(i, idx / 2));
            } else if i / 2 == p {
                assert(self.slot_below(i, i / 2));
                self.lemma_below_transitive(s[i], s[p], s[idx]);
            } else {
                assert(self.slot_below(i, i / 2));
            }
        }
        assert forall|i: int| 2 <= i <= after.count && i / 2 == p && p >= 2 implies #[trigger]
            after.slot_below(i, p / 2) by {
            assert(self.slot_below(p, p / 2));
            if i != idx {
                assert(self.slot_below(i, i / 2));
                self.lemma_below_transitive(s[i], s[p], s[p / 2]);
            }
        }
    }

    /// The end of sinking: the preferred child of slot `idx` does not rank
    /// above it, so neither child does, and the heap property holds.
    proof fn lemma_settled(&self, idx: int, child: int)
        requires
            self.shaped(),
            1 <= idx,
            child <= self.count,
            child / 2 == idx,
            self.ordered_but_under(idx),
            self.slot_below(child, idx),
            forall|i: int|
                2 <= i <= self.count && i / 2 == idx ==> #[trigger] self.slot_below(i, child),
        ensures
            self.ordered(),
    {
        let s = self.items@;
        assert forall|i: int| 2 <= i <= self.count implies #[trigger] self.slot_below(
            i,
            i / 2,
        ) by {
            if i / 2 == idx {
                assert(self.slot_below(i, child));
                self.lemma_below_transitive(s[i], s[child], s[idx]);
            }
        }
    }

    /// One step of sinking: the preferred child of slot `idx` ranks above
    /// it and changes places with it. Then only the children of that child's
    /// slot may break the heap property.
    proof fn lemma_sink(&self, after: &Self, idx: int, child: int)
        requires
            self.shaped(),
            1 <= idx,
            child <= self.count,
            child / 2 == idx,
            self.ordered_but_under(idx),
            self.slot_below(idx, child),
            forall|i: int|
                2 <= i <= self.count && i / 2 == idx ==> #[trigger] self.slot_below(i, child),
            after.count == self.count,
            after.comparator == self.comparator,
            after.items@ == swapped(self.items@, idx, child),
        ensures
            after.ordered_but_under(child),
    {
        assert forall|i: int| 2 <= i <= after.count && i / 2 != child implies #[trigger]
            after.slot_below(i, i / 2) by {
            if i == child {
            } else if i / 2 == idx {
                assert(self.slot_below(i, child));
            } else if i == idx {
                assert(self.slot_below(child, idx / 2));
            } else {
                assert(self.slot_below(i, i / 2));
            }
        }
        assert forall|i: int| 2 <= i <= after.count && i / 2 == child && child >= 2 implies
            #[trigger] after.slot_below(i, child / 2) by {
            assert(self.slot_below(i, i / 2));
        }
    }
}

impl<T: Default + Ord> Heap<T> {
    /// An empty min-heap: the smaller of two elements ranks above.
    pub fn new_min() -> (heap: Self)
        ensures
            heap.wf(),
            heap.slots().len() == 1,
            heap@ == Multiset::<T>::empty(),
            total_order::<T>() ==> heap.agrees(ascending::<T>()),
    {
        let smaller = |a: &T, b: &T| -> (r: bool)
            ensures
                total_order::<T>() ==> r == a.is_lt(b),
            {
                proof {
                    lemma_total_order_compares::<T>();
                }
                *a < *b
            };
        Self::new(smaller)
    }

    /// An empty max-heap: the greater of two elements ranks above.
    pub fn new_max() -> (heap: Self)
        ensures
            heap.wf(),
            heap.slots().len() == 1,
            heap@ == Multiset::<T>::empty(),
            total_order::<T>() ==> heap.agrees(descending::<T>()),
    {
        let greater = |a: &T, b: &T| -> (r: bool)
            ensures
                total_order::<T>() ==> r == a.is_gt(b),
            {
                proof {
                    lemma_total_order_compares::<T>();
                }
                *a > *b
            };
        Self::new(greater)
    }
}

/// The maker of min-heaps.
pub struct MinHeap;

impl MinHeap {
    /// An empty min-heap: the smaller of two elements ranks above.
    #[allow(clippy::new_ret_no_self)]
    pub fn new<T>() -> (heap: Heap<T>) where T: Default + Ord
        ensures
            heap.wf(),
            heap.slots().len() == 1,
            heap@ == Multiset::<T>::empty(),
            total_order::<T>() ==> heap.agrees(ascending::<T>()),
    {
        Heap::new_min()
    }
}

/// The maker of max-heaps.
pub struct MaxHeap;

impl MaxHeap {
    /// An empty max-heap: the greater of two elements ranks above.
    #[allow(clippy::new_ret_no_self)]
    pub fn new<T>() -> (heap: Heap<T>) where T: Default + Ord
        ensures
            heap.wf(),
            heap.slots().len() == 1,
            heap@ == Multiset::<T>::empty(),
            total_order::<T>() ==> heap.agrees(descending::<T>()),
    {
        Heap::new_max()
    }
}

} // verus!
