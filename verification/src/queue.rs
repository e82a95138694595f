use vstd::prelude::*;

verus! {

/// The element that leaves a queue holding `s` next, if any.
pub open spec fn front<T>(s: Seq<T>) -> Option<T> {
    if s.len() == 0 {
        None
    } else {
        Some(s[0])
    }
}

/// What a queue holding `s` holds after its front element has left.
pub open spec fn rest<T>(s: Seq<T>) -> Seq<T> {
    if s.len() == 0 {
        s
    } else {
        s.drop_first()
    }
}

/// A first-in first-out queue.
pub struct Queue<T> {
    elements: Vec<T>,
}

impl<T> View for Queue<T> {
    type V = Seq<T>;

    /// The elements, front first.
    closed spec fn view(&self) -> Seq<T> {
        self.elements@
    }
}

impl<T> Queue<T> {
    /// An empty queue.
    pub fn new() -> (q: Self)
        ensures
            q@ == Seq::<T>::empty(),
    {
        Queue { elements: Vec::new() }
    }

    /// Puts `element` at the back.
    pub fn enqueue(&mut self, element: T)
        ensures
            final(self)@ == old(self)@.push(element),
    {
        self.elements.push(element);
    }

    /// Takes the front element out, or gives `None` on an empty queue.
    pub fn dequeue(&mut self) -> (r: Option<T>)
        ensures
            r == front(old(self)@),
            final(self)@ == rest(old(self)@),
    {
        if self.is_empty() {
            None
        } else {
            Some(self.elements.remove(0))
        }
    }

    /// The front element, left in place.
    pub fn peek(&self) -> (r: Option<&T>)
        ensures
            r == (if self@.len() == 0 { None } else { Some(&self@[0]) }),
    {
        if self.elements.len() == 0 {
            None
        } else {
            Some(&self.elements[0])
        }
    }

    pub fn is_empty(&self) -> (b: bool)
        ensures
            b == (self@.len() == 0),
    {
        self.elements.len() == 0
    }

    pub fn len(&self) -> (n: usize)
        ensures
            n == self@.len(),
    {
        self.elements.len()
    }
}

/// Enqueueing does not change what comes out first, unless the queue was
/// empty: first in, first out.
pub proof fn law_fifo<T>(s: Seq<T>, x: T)
    ensures
        front(s.push(x)) == (if s.len() == 0 { Some(x) } else { front(s) }),
        rest(s.push(x)) == (if s.len() == 0 { s } else { rest(s).push(x) }),
{
    assert(s.len() > 0 ==> s.push(x).drop_first() =~= s.drop_first().push(x));
    assert(s.len() == 0 ==> s.push(x).drop_first() =~= s);
}

/// Dequeueing everything yields the elements in the order they were
/// enqueued.
pub proof fn law_drain_in_order<T>(s: Seq<T>, k: int)
    requires
        0 <= k < s.len(),
    ensures
        front(s.skip(k)) == Some(s[k]),
        rest(s.skip(k)) == s.skip(k + 1),
{
    assert(s.skip(k).drop_first() =~= s.skip(k + 1));
}

/// Jobs waiting to run, run in the order they were added.
pub struct BackgroundTask<T> {
    queue: Queue<T>,
}

impl<T> View for BackgroundTask<T> {
    type V = Seq<T>;

    /// The waiting jobs, oldest first.
    closed spec fn view(&self) -> Seq<T> {
        self.queue@
    }
}

impl<T> BackgroundTask<T> {
    pub fn new() -> (b: Self)
        ensures
            b@ == Seq::<T>::empty(),
    {
        BackgroundTask { queue: Queue::new() }
    }

    pub fn add(&mut self, job: T)
        ensures
            final(self)@ == old(self)@.push(job),
    {
        self.queue.enqueue(job);
    }

    /// Runs every waiting job, oldest first: takes them all out and gives
    /// them back in the order they ran.
    pub fn execute(&mut self) -> (done: Vec<T>)
        ensures
            done@ == old(self)@,
            final(self)@ == Seq::<T>::empty(),
    {
        let mut done: Vec<T> = Vec::new();
        let ghost all = self.queue@;
        while !self.queue.is_empty()
            invariant
                done@ + self.queue@ == all,
            decreases self.queue@.len(),
        {
            let ghost before = self.queue@;
            if let Some(job) = self.queue.dequeue() {
                done.push(job);
                assert(done@ + self.queue@ =~= all);
            }
        }
        assert(self.queue@ =~= Seq::<T>::empty());
        assert(done@ =~= all);
        done
    }
}

} // verus!
