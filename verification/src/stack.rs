//! A last-in, first-out stack that keeps its elements in two FIFO queues.
//!
//! The stack is modelled by the sequence of its elements, the bottom at
//! index 0 and the top at the end.

use crate::queue::Queue;
use vstd::prelude::*;

verus! {

/// A LIFO stack made of two queues. The elements rest in one of them, oldest
/// at its front; a pop passes all but the newest through to the other queue,
/// which then takes over.
#[allow(non_camel_case_types)]
pub struct myStack<T> {
    q1: Queue<T>,
    q2: Queue<T>,
}

impl<T> View for myStack<T> {
    type V = Seq<T>;

    /// The elements from bottom to top: those of the queue that holds them,
    /// front first. Should both queues hold elements, those of the second
    /// are the older ones.
    open spec fn view(&self) -> Seq<T> {
        self.q2() + self.q1()
    }
}

impl<T> myStack<T> {
    /// The contents of the first queue, front first.
    pub closed spec fn q1(&self) -> Seq<T> {
        self.q1@
    }

    /// The contents of the second queue, front first.
    pub closed spec fn q2(&self) -> Seq<T> {
        self.q2@
    }

    /// At most one of the two queues holds elements.
    pub open spec fn wf(&self) -> bool {
        self.q1().len() == 0 || self.q2().len() == 0
    }

    /// An empty stack.
    pub fn new() -> (s: Self)
        ensures
            s@ == Seq::<T>::empty(),
            s.q1() == Seq::<T>::empty(),
            s.q2() == Seq::<T>::empty(),
    {
        Self { q1: Queue::<T>::new(), q2: Queue::<T>::new() }
    }

    /// Puts `elem` on top. It joins the queue that holds the elements, or
    /// the first queue when the stack is empty.
    pub fn push(&mut self, elem: T)
        ensures
            final(self)@ == old(self)@.push(elem),
            old(self).wf() ==> final(self).wf(),
            if old(self).q1().len() == 0 && old(self).q2().len() > 0 {
                final(self).q2() == old(self).q2().push(elem) && final(self).q1() == old(self).q1()
            } else {
                final(self).q1() == old(self).q1().push(elem) && final(self).q2() == old(self).q2()
            },
    {
        if self.q1.is_empty() && !self.q2.is_empty() {
            self.q2.enqueue(elem);
        } else {
            self.q1.enqueue(elem);
        }
    }

    /// Takes the top element off and returns it. An empty stack is left as
    /// it is and reported by the error. Otherwise the queue that holds the
    /// elements hands all but its last over to the other queue, in their
    /// order, and gives up the last: it is then empty, and the other queue
    /// holds what is left.
    pub fn pop(&mut self) -> (r: Result<T, &str>)
        ensures
            old(self)@.len() > 0 ==> r == Ok::<T, &str>(old(self)@.last()) && final(self)@ == old(
                self,
            )@.drop_last(),
            old(self)@.len() == 0 ==> r == Err::<T, &str>("Stack is empty") && final(self)@ == old(
                self,
            )@,
            final(self).wf(),
            if old(self).q1().len() > 0 {
                final(self).q1() == Seq::<T>::empty() && final(self).q2() == old(self).q2() + old(
                    self,
                ).q1().drop_last()
            } else if old(self).q2().len() > 0 {
                final(self).q2() == Seq::<T>::empty() && final(self).q1() == old(
                    self,
                ).q2().drop_last()
            } else {
                final(self).q1() == old(self).q1() && final(self).q2() == old(self).q2()
            },
    {
        if self.is_empty() {
            return Err("Stack is empty");
        }
        if !self.q1.is_empty() {
            while self.q1.size() > 1
                invariant
                    self.q1@.len() >= 1,
                    self.q2@ + self.q1@ == old(self).q2@ + old(self).q1@,
                decreases self.q1@.len(),
            {
                if let Ok(elem) = self.q1.dequeue() {
                    self.q2.enqueue(elem);
                }
            }
            self.q1.dequeue()
        } else {
            while self.q2.size() > 1
                invariant
                    self.q2@.len() >= 1,
                    self.q1@ + self.q2@ == old(self).q2@ + old(self).q1@,
                decreases self.q2@.len(),
            {
                if let Ok(elem) = self.q2.dequeue() {
                    self.q1.enqueue(elem);
                }
            }
            self.q2.dequeue()
        }
    }

    /// Whether the stack holds no element, that is, both queues are empty.
    pub fn is_empty(&self) -> (b: bool)
        ensures
            b <==> self@.len() == 0,
    {
        self.q1.is_empty() && self.q2.is_empty()
    }
}

/// The contents of a stack that held `contents` after the elements of
/// `items` have been pushed one by one, `items[0]` first.
pub open spec fn after_pushes<T>(contents: Seq<T>, items: Seq<T>) -> Seq<T>
    decreases items.len(),
{
    if items.len() == 0 {
        contents
    } else {
        after_pushes(contents.push(items.first()), items.drop_first())
    }
}

/// What `n` successive pops hand out of a stack that holds `contents`, in
/// the order of the calls. Pops on an emptied stack hand out nothing.
pub open spec fn popped<T>(contents: Seq<T>, n: nat) -> Seq<T>
    decreases n,
{
    if n == 0 || contents.len() == 0 {
        Seq::empty()
    } else {
        seq![contents.last()] + popped(contents.drop_last(), (n - 1) as nat)
    }
}

/// The contents that `n` successive pops leave of `contents`.
pub open spec fn after_pops<T>(contents: Seq<T>, n: nat) -> Seq<T>
    decreases n,
{
    if n == 0 || contents.len() == 0 {
        contents
    } else {
        after_pops(contents.drop_last(), (n - 1) as nat)
    }
}

/// Pushing stacks up: the new elements lie above the old ones, the last
/// pushed on top.
pub proof fn lemma_pushes_append<T>(contents: Seq<T>, items: Seq<T>)
    ensures
        after_pushes(contents, items) == contents + items,
    decreases items.len(),
{
    if items.len() > 0 {
        lemma_pushes_append(contents.push(items.first()), items.drop_first());
    }
}

/// `n` pops hand out the top `n` elements, the topmost first, and leave the
/// others untouched.
pub proof fn lemma_pops_take_top<T>(contents: Seq<T>, n: nat)
    requires
        n <= contents.len(),
    ensures
        popped(contents, n) == contents.skip(contents.len() - n).reverse(),
        after_pops(contents, n) == contents.take(contents.len() - n),
    decreases n,
{
    if n > 0 {
        lemma_pops_take_top(contents.drop_last(), (n - 1) as nat);
    }
}

/// Last in, first out: whatever is pushed on a stack comes back, by as many
/// pops, in the reverse of the order in which it was pushed, and the stack
/// holds again what it held before. Pushed on an empty stack, the elements
/// leave it empty.
pub proof fn lemma_lifo<T>(contents: Seq<T>, items: Seq<T>)
    ensures
        popped(after_pushes(contents, items), items.len()) == items.reverse(),
        after_pops(after_pushes(contents, items), items.len()) == contents,
{
    lemma_pushes_append(contents, items);
    lemma_pops_take_top(after_pushes(contents, items), items.len());
}

} // verus!
