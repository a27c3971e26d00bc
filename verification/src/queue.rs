//! A first-in, first-out queue.
//!
//! The queue is modelled by the sequence of its elements, oldest first.

use vstd::prelude::*;

verus! {

/// A FIFO queue. Its view is the sequence of the waiting elements, the
/// oldest at index 0.
#[derive(Debug)]
pub struct Queue<T> {
    elements: Vec<T>,
}

impl<T> View for Queue<T> {
    type V = Seq<T>;

    closed spec fn view(&self) -> Seq<T> {
        self.elements@
    }
}

impl<T> Queue<T> {
    /// An empty queue.
    pub fn new() -> (q: Queue<T>)
        ensures
            q@ == Seq::<T>::empty(),
    {
        Queue { elements: Vec::new() }
    }

    /// Appends `value` at the tail.
    pub fn enqueue(&mut self, value: T)
        ensures
            final(self)@ == old(self)@.push(value),
    {
        self.elements.push(value)
    }

    /// Removes and returns the head, the oldest element. An empty queue is
    /// left as it is and reported by the error.
    pub fn dequeue(&mut self) -> (r: Result<T, &str>)
        ensures
            old(self)@.len() > 0 ==> r == Ok::<T, &str>(old(self)@.first()) && final(self)@ == old(
                self,
            )@.drop_first(),
            old(self)@.len() == 0 ==> r == Err::<T, &str>("Queue is empty") && final(self)@ == old(
                self,
            )@,
    {
        if !self.elements.is_empty() {
            Ok(self.elements.remove(0usize))
        } else {
            Err("Queue is empty")
        }
    }

    /// The head, without removing it.
    pub fn peek(&self) -> (r: Result<&T, &str>)
        ensures
            self@.len() > 0 ==> r == Ok::<&T, &str>(&self@.first()),
            self@.len() == 0 ==> r == Err::<&T, &str>("Queue is empty"),
    {
        match self.elements.first() {
            Some(value) => Ok(value),
            None => Err("Queue is empty"),
        }
    }

    /// The number of waiting elements.
    pub fn size(&self) -> (n: usize)
        ensures
            n == self@.len(),
    {
        self.elements.len()
    }

    pub fn is_empty(&self) -> (b: bool)
        ensures
            b <==> self@.len() == 0,
    {
        self.elements.is_empty()
    }
}

impl<T> Default for Queue<T> {
    fn default() -> (q: Queue<T>)
        ensures
            q@ == Seq::<T>::empty(),
    {
        Queue { elements: Vec::new() }
    }
}

/// The contents of a queue that held `contents` after the elements of
/// `items` have been enqueued one by one, `items[0]` first.
pub open spec fn after_enqueues<T>(contents: Seq<T>, items: Seq<T>) -> Seq<T>
    decreases items.len(),
{
    if items.len() == 0 {
        contents
    } else {
        after_enqueues(contents.push(items.first()), items.drop_first())
    }
}

/// What `n` successive dequeues hand out of a queue that holds `contents`,
/// in the order of the calls. Dequeues on an emptied queue hand out nothing.
pub open spec fn dequeued<T>(contents: Seq<T>, n: nat) -> Seq<T>
    decreases n,
{
    if n == 0 || contents.len() == 0 {
        Seq::empty()
    } else {
        seq![contents.first()] + dequeued(contents.drop_first(), (n - 1) as nat)
    }
}

/// The contents that `n` successive dequeues leave of `contents`.
pub open spec fn after_dequeues<T>(contents: Seq<T>, n: nat) -> Seq<T>
    decreases n,
{
    if n == 0 || contents.len() == 0 {
        contents
    } else {
        after_dequeues(contents.drop_first(), (n - 1) as nat)
    }
}

/// Enqueuing appends: the new elements stand behind the old ones, in the
/// order in which they came.
pub proof fn lemma_enqueues_append<T>(contents: Seq<T>, items: Seq<T>)
    ensures
        after_enqueues(contents, items) == contents + items,
    decreases items.len(),
{
    if items.len() > 0 {
        lemma_enqueues_append(contents.push(items.first()), items.drop_first());
    }
}

/// `n` dequeues hand out the first `n` elements, front first, and leave the
/// others untouched.
pub proof fn lemma_dequeues_take_front<T>(contents: Seq<T>, n: nat)
    requires
        n <= contents.len(),
    ensures
        dequeued(contents, n) == contents.take(n as int),
        after_dequeues(contents, n) == contents.skip(n as int),
    decreases n,
{
    if n > 0 {
        lemma_dequeues_take_front(contents.drop_first(), (n - 1) as nat);
    }
}

/// First in, first out: whatever is enqueued on an empty queue comes back,
/// by as many dequeues, in the order in which it was enqueued, and the queue
/// is empty again.
pub proof fn lemma_fifo<T>(items: Seq<T>)
    ensures
        dequeued(after_enqueues(Seq::empty(), items), items.len()) == items,
        after_dequeues(after_enqueues(Seq::empty(), items), items.len()) == Seq::<T>::empty(),
{
    lemma_enqueues_append(Seq::empty(), items);
    lemma_dequeues_take_front(after_enqueues(Seq::empty(), items), items.len());
}

} // verus!
