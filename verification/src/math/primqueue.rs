//! A fixed-size ring buffer of samples, as kept for running statistics.

use crate::utils::is_default_value;
use vstd::prelude::*;

verus! {

/// The state of a queue: its slots, its cursor and how many slots count as in use.
pub type QueueState<T> = (Seq<T>, nat, nat);

/// What one push does to a queue's state: the value goes into the slot under the cursor,
/// the cursor moves on by one and wraps around the end, and every slot up to the written
/// one counts as in use.
pub open spec fn push_step<T>(st: QueueState<T>, v: T) -> QueueState<T> {
    let (c, cur, used) = st;
    (
        c.update(cur as int, v),
        ((cur + 1) % c.len()) as nat,
        if used > cur + 1 {
            used
        } else {
            (cur + 1) as nat
        },
    )
}

/// The state after pushing each value of `s`, in order.
pub open spec fn push_all<T>(st: QueueState<T>, s: Seq<T>) -> QueueState<T>
    decreases s.len(),
{
    if s.len() == 0 {
        st
    } else {
        push_step(push_all(st, s.drop_last()), s.last())
    }
}

/// Filling a freshly reset queue: after pushing between one and as many values as it has
/// slots, the values in use are exactly the pushed ones, in order, and the cursor sits
/// just after the last one.
pub proof fn lemma_fill_in_order<T>(c: Seq<T>, s: Seq<T>)
    requires
        1 <= s.len() <= c.len(),
    ensures
        push_all((c, 0, 1), s).2 == s.len(),
        push_all((c, 0, 1), s).0.len() == c.len(),
        push_all((c, 0, 1), s).0.take(s.len() as int) == s,
        push_all((c, 0, 1), s).1 == s.len() % c.len(),
    decreases s.len(),
{
    let n = s.len();
    let p = s.drop_last();
    if n == 1 {
        assert(push_all((c, 0, 1), p) == (c, 0nat, 1nat));
        let r = push_all((c, 0, 1), s);
        assert(r.0.take(1) =~= s);
    } else {
        lemma_fill_in_order(c, p);
        let prev = push_all((c, 0, 1), p);
        assert(prev.1 == n - 1) by {
            vstd::arithmetic::div_mod::lemma_small_mod((n - 1) as nat, c.len());
        }
        let r = push_all((c, 0, 1), s);
        assert(r == push_step(prev, s.last()));
        assert(r.0.take(n as int) =~= s) by {
            assert forall|i: int| 0 <= i < n implies r.0.take(n as int)[i] == s[i] by {
                if i < n - 1 {
                    assert(prev.0.take((n - 1) as int)[i] == p[i]);
                }
            }
        }
    }
}

/// A queue of values, used for quickly storing and iterating through a set of data.
/// The toolkit stores floats in it and analyses them; the queue itself only keeps them.
pub struct FloatQueue<T> {
    /// The stored values.
    vals: Vec<T>,
    /// Current index of queue for storing at.
    idx: usize,
    /// Amount of items inside the queue that have been used up.
    used: usize,
}

impl<T: Copy + Default> FloatQueue<T> {
    /// Every slot of the queue, in storage order.
    pub closed spec fn contents(&self) -> Seq<T> {
        self.vals@
    }

    /// The slot that the next push writes.
    pub closed spec fn cursor(&self) -> nat {
        self.idx as nat
    }

    /// How many slots, from the first, count as in use.
    pub closed spec fn used_count(&self) -> nat {
        self.used as nat
    }

    /// The slots, the cursor and the number of slots in use, together.
    pub open spec fn state(&self) -> QueueState<T> {
        (self.contents(), self.cursor(), self.used_count())
    }

    /// The cursor stays inside the queue, and the slots in use are at least the first one
    /// and at most every slot.
    pub open spec fn wf(&self) -> bool {
        &&& self.contents().len() > 0 ==> self.cursor() < self.contents().len()
        &&& self.contents().len() == 0 ==> self.cursor() == 0
        &&& 1 <= self.used_count()
        &&& self.contents().len() > 0 ==> self.used_count() <= self.contents().len()
    }

    /// The values that count as in use: the first `used_count` slots, or every slot if
    /// there are fewer.
    pub open spec fn used_contents(&self) -> Seq<T> {
        if self.used_count() <= self.contents().len() {
            self.contents().take(self.used_count() as int)
        } else {
            self.contents()
        }
    }

    /// Returns a new FloatQueue.
    /// It holds a single slot, which counts as in use.
    pub fn new() -> (r: Self)
        ensures
            r.wf(),
            r.contents().len() == 1,
            is_default_value(r.contents()[0]),
            r.cursor() == 0,
            r.used_count() == 1,
    {
        let mut vals: Vec<T> = Vec::new();
        vals.push(T::default());
        Self { vals, idx: 0, used: 1 }
    }

    /// Resizes the float queue, resetting its contents: every slot holds the default value,
    /// and only the first counts as in use.
    pub fn allocate(&mut self, new_max_size: usize)
        ensures
            final(self).wf(),
            final(self).contents().len() == new_max_size,
            forall|i: int|
                0 <= i < new_max_size ==> #[trigger] is_default_value(final(self).contents()[i]),
            final(self).cursor() == 0,
            final(self).used_count() == 1,
    {
        let fill = T::default();
        let mut vals: Vec<T> = Vec::with_capacity(new_max_size);
        let mut i: usize = 0;
        while i < new_max_size
            invariant
                i <= new_max_size,
                vals@.len() == i,
                is_default_value(fill),
                forall|k: int| 0 <= k < i ==> #[trigger] vals@[k] == fill,
            decreases new_max_size - i,
        {
            vals.push(fill);
            i += 1;
        }
        self.vals = vals;
        self.idx = 0;
        self.used = 1; // Reset use count
    }

    /// Returns the allocated queue length.
    pub fn len(&self) -> (r: usize)
        ensures
            r == self.contents().len(),
    {
        self.vals.len()
    }

    /// Returns true if the queue is empty.
    pub fn is_empty(&self) -> (r: bool)
        ensures
            r == (self.contents().len() == 0),
    {
        self.vals.len() == 0
    }

    /// Returns the actual length of the queue that is in use.
    pub fn len_used(&self) -> (r: usize)
        ensures
            r == self.used_count(),
    {
        self.used
    }

    /// Returns the current queue index.
    pub fn index(&self) -> (r: usize)
        ensures
            r == self.cursor(),
    {
        self.idx
    }

    /// Returns every slot of the queue, in storage order.
    pub fn values(&self) -> (r: &Vec<T>)
        ensures
            r@ == self.contents(),
    {
        &self.vals
    }

    /// Returns a copy of the values in use, in storage order: the values that the queue's
    /// statistics are computed over.
    pub fn used_values(&self) -> (r: Vec<T>)
        ensures
            r@ == self.used_contents(),
    {
        let n = if self.used <= self.vals.len() {
            self.used
        } else {
            self.vals.len()
        };
        let mut out: Vec<T> = Vec::with_capacity(n);
        let mut i: usize = 0;
        while i < n
            invariant
                n <= self.vals@.len(),
                i <= n,
                out@ == self.vals@.take(i as int),
            decreases n - i,
        {
            out.push(self.vals[i]);
            i += 1;
            proof {
                assert(out@ =~= self.vals@.take(i as int));
            }
        }
        proof {
            assert(self.vals@.take(self.vals@.len() as int) =~= self.vals@);
        }
        out
    }

    /// Increments the float queue forward by the given amount, wrapping around its end.
    pub fn increment(&mut self, amount: usize)
        requires
            old(self).wf(),
            old(self).contents().len() > 0,
            old(self).cursor() + amount <= usize::MAX,
        ensures
            final(self).wf(),
            final(self).cursor() == (old(self).cursor() + amount) % (old(self).contents().len() as int),
            final(self).contents() == old(self).contents(),
            final(self).used_count() == old(self).used_count(),
    {
        self.idx = (self.idx + amount) % self.vals.len();
    }

    /// Pushes a value onto the queue, at the cursor, and moves the cursor on by one,
    /// wrapping around the end. Every slot up to the written one counts as in use.
    pub fn push(&mut self, new_float: T)
        requires
            old(self).wf(),
            old(self).contents().len() > 0,
        ensures
            final(self).wf(),
            final(self).state() == push_step(old(self).state(), new_float),
    {
        let i = self.idx;
        assert(i < self.vals.len());
        self.vals.set(i, new_float);
        self.used = if self.used > i + 1 {
            self.used
        } else {
            i + 1
        };
        self.increment(1);
    }
}

impl<T: Copy + Default> Default for FloatQueue<T> {
    fn default() -> (r: Self)
        ensures
            r.wf(),
            r.contents().len() == 1,
            is_default_value(r.contents()[0]),
            r.cursor() == 0,
            r.used_count() == 1,
    {
        Self::new()
    }
}

} // verus!
