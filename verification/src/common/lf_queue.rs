//! A bounded first-in first-out ring of `N` slots, `N` a power of two.
//!
//! Two counters that only grow, and wrap around at the end of their range,
//! count the elements pushed (`tail`) and popped (`head`). The slot of a
//! counter value is its low bits, `counter & (N - 1)`. The ring holds
//! `tail - head` elements.
//!
//! This ring is owned by one thread at a time. Its contracts speak of the
//! ring's content as a sequence, oldest element first.

use vstd::prelude::*;

verus! {

/// The distance from `head` to `tail` on a counter that wraps around at
/// 2^64.
pub open spec fn wrapped_distance(tail: u64, head: u64) -> int {
    if tail >= head {
        tail - head
    } else {
        tail + 0x1_0000_0000_0000_0000 - head
    }
}

/// The counter value after `counter`, wrapping around at 2^64.
pub open spec fn wrapped_next(counter: u64) -> u64 {
    if counter == u64::MAX {
        0
    } else {
        (counter + 1) as u64
    }
}

/// The slot `offset` places behind slot `first` on a ring of `n` slots.
pub open spec fn slot_at(first: int, offset: int, n: int) -> int {
    if first + offset < n {
        first + offset
    } else {
        first + offset - n
    }
}

/// Whether `n` is a power of two.
pub open spec fn is_power_of_two(n: usize) -> bool {
    n > 0 && (n as u64) & ((n - 1) as u64) == 0
}

/// The low bits of a counter address a slot, and the slot of a counter
/// that is `len` ahead of another lies `len` places behind the other's slot.
proof fn lemma_slots(head: u64, tail: u64, n: u64, len: u64)
    requires
        n > 0,
        n & ((n - 1) as u64) == 0,
        len <= n,
        len == wrapped_distance(tail, head),
    ensures
        head & ((n - 1) as u64) < n,
        tail & ((n - 1) as u64) < n,
        (tail & ((n - 1) as u64)) as int == slot_at(
            (head & ((n - 1) as u64)) as int,
            len as int,
            n as int,
        ),
{
    let m = (n - 1) as u64;
    assert(head & m < n) by (bit_vector)
        requires
            n > 0,
            m == (n - 1) as u64,
    ;
    assert(tail & m < n) by (bit_vector)
        requires
            n > 0,
            m == (n - 1) as u64,
    ;
    let h0 = head & m;
    let t0 = tail & m;
    assert(h0 + len < n ==> t0 == h0 + len) by (bit_vector)
        requires
            n > 0,
            n & m == 0,
            m == (n - 1) as u64,
            len <= n,
            tail >= head ==> len == tail - head,
            tail < head ==> len == tail + 0x1_0000_0000_0000_0000 - head,
            h0 == head & m,
            t0 == tail & m,
    ;
    assert(h0 + len >= n ==> t0 == h0 + len - n) by (bit_vector)
        requires
            n > 0,
            n & m == 0,
            m == (n - 1) as u64,
            len <= n,
            tail >= head ==> len == tail - head,
            tail < head ==> len == tail + 0x1_0000_0000_0000_0000 - head,
            h0 == head & m,
            t0 == tail & m,
    ;
}

/// A bounded FIFO ring of `N` slots.
pub struct LFQueue<T, const N: usize> {
    buffer: Vec<Option<T>>,
    tail: u64,
    head: u64,
}

impl<T, const N: usize> LFQueue<T, N> {
    spec fn first_slot(&self) -> int {
        (self.head & ((N - 1) as u64)) as int
    }

    spec fn count(&self) -> int {
        wrapped_distance(self.tail, self.head)
    }

    /// The content of the ring, oldest element first.
    pub closed spec fn view(&self) -> Seq<T> {
        Seq::new(
            self.count() as nat,
            |i: int| self.buffer@[slot_at(self.first_slot(), i, N as int)]->0,
        )
    }

    /// The representation invariant: `N` slots, `N` a power of two, at most
    /// `N` elements, each in the slot of its counter value.
    pub closed spec fn wf(&self) -> bool {
        &&& is_power_of_two(N)
        &&& self.buffer@.len() == N
        &&& self.count() <= N
        &&& 0 <= self.first_slot() < N
        &&& forall|i: int|
            0 <= i < self.count() ==> (#[trigger] self.buffer@[slot_at(
                self.first_slot(),
                i,
                N as int,
            )]) is Some
    }

    /// A well-formed ring holds at most `N` elements.
    pub proof fn lemma_bounded(&self)
        requires
            self.wf(),
        ensures
            self@.len() <= N,
    {
    }

    /// Creates an empty ring.
    pub fn new() -> (r: Self)
        requires
            is_power_of_two(N),
        ensures
            r.wf(),
            r@ == Seq::<T>::empty(),
    {
        let mut buffer: Vec<Option<T>> = Vec::new();
        let mut i: usize = 0;
        while i < N
            invariant
                i <= N,
                buffer@.len() == i,
            decreases N - i,
        {
            buffer.push(None);
            i = i + 1;
        }
        let r = LFQueue { buffer, tail: 0, head: 0 };
        proof {
            let m = (N - 1) as u64;
            assert(0u64 & m == 0) by (bit_vector);
            assert(r@ =~= Seq::<T>::empty());
        }
        r
    }

    /// Appends an element. Fails, handing the element back, exactly when
    /// the ring holds `N` elements.
    pub fn push(&mut self, item: T) -> (r: Result<(), T>)
        requires
            old(self).wf(),
        ensures
            final(self).wf(),
            r is Err <==> old(self)@.len() == N,
            r matches Err(back) ==> back == item && final(self)@ == old(self)@,
            r is Ok ==> final(self)@ == old(self)@.push(item),
    {
        let len = self.len();
        if len >= N {
            return Err(item);
        }
        proof {
            lemma_slots(self.head, self.tail, N as u64, len as u64);
        }
        let index = (self.tail & ((N - 1) as u64)) as usize;
        self.buffer[index] = Some(item);
        self.tail = if self.tail == u64::MAX {
            0
        } else {
            self.tail + 1
        };
        proof {
            let first = self.first_slot();
            let n = N as int;
            assert(index == slot_at(first, len as int, n));
            assert forall|i: int| 0 <= i < len implies slot_at(first, i, n) != index by {}
            assert forall|i: int| 0 <= i < self.count() implies (#[trigger] self.buffer@[slot_at(
                first,
                i,
                n,
            )]) is Some by {
                if i < len {
                    assert(old(self).buffer@[slot_at(first, i, n)] is Some);
                }
            }
            assert(self@ =~= old(self)@.push(item));
        }
        Ok(())
    }

    /// Removes and returns the oldest element; `None` exactly when the ring
    /// is empty.
    pub fn pop(&mut self) -> (r: Option<T>)
        requires
            old(self).wf(),
        ensures
            final(self).wf(),
            r is None <==> old(self)@.len() == 0,
            r is None ==> final(self)@ == old(self)@,
            r matches Some(item) ==> item == old(self)@[0] && final(self)@ == old(self)@.drop_first(),
    {
        let len = self.len();
        if len == 0 {
            return None;
        }
        let ghost next_head = wrapped_next(self.head);
        proof {
            lemma_slots(self.head, self.head, N as u64, 0);
            lemma_slots(self.head, next_head, N as u64, 1);
            assert(old(self).buffer@[slot_at(self.first_slot(), 0, N as int)] is Some);
        }
        let index = (self.head & ((N - 1) as u64)) as usize;
        let mut taken: Option<T> = None;
        std::mem::swap(&mut self.buffer[index], &mut taken);
        self.head = if self.head == u64::MAX {
            0
        } else {
            self.head + 1
        };
        proof {
            let first = old(self).first_slot();
            let n = N as int;
            assert(self.first_slot() == slot_at(first, 1, n));
            assert forall|i: int| 0 <= i < self.count() implies slot_at(self.first_slot(), i, n)
                == slot_at(first, i + 1, n) && slot_at(first, i + 1, n) != first by {}
            assert forall|i: int| 0 <= i < self.count() implies (#[trigger] self.buffer@[slot_at(
                self.first_slot(),
                i,
                n,
            )]) is Some by {
                assert(old(self).buffer@[slot_at(first, i + 1, n)] is Some);
            }
            assert(self@ =~= old(self)@.drop_first());
        }
        taken
    }

    /// Returns the number of elements in the ring.
    pub fn len(&self) -> (r: usize)
        requires
            self.wf(),
        ensures
            r == self@.len(),
            r <= N,
    {
        let distance: u64 = if self.tail >= self.head {
            self.tail - self.head
        } else {
            (u64::MAX - self.head) + self.tail + 1
        };
        distance as usize
    }

    /// Returns true if the ring is empty.
    pub fn is_empty(&self) -> (r: bool)
        requires
            self.wf(),
        ensures
            r == (self@.len() == 0),
    {
        self.len() == 0
    }

    /// Returns true if the ring holds `N` elements.
    pub fn is_full(&self) -> (r: bool)
        requires
            self.wf(),
        ensures
            r == (self@.len() == N),
    {
        self.len() >= N
    }

    /// Returns the number of slots.
    pub fn capacity(&self) -> (r: usize)
        ensures
            r == N,
    {
        N
    }
}

impl<T, const N: usize> Default for LFQueue<T, N> {
    /// Creates an empty ring of `N` slots. The ring is usable where `N` is
    /// a power of two.
    fn default() -> (r: Self)
        ensures
            is_power_of_two(N) ==> r.wf() && r@ == Seq::<T>::empty(),
    {
        let mut buffer: Vec<Option<T>> = Vec::new();
        let mut i: usize = 0;
        while i < N
            invariant
                i <= N,
                buffer@.len() == i,
            decreases N - i,
        {
            buffer.push(None);
            i = i + 1;
        }
        let r = LFQueue { buffer, tail: 0, head: 0 };
        proof {
            let m = (N - 1) as u64;
            assert(0u64 & m == 0) by (bit_vector);
            assert(r@ =~= Seq::<T>::empty());
        }
        r
    }
}

/// One operation on a ring: a push of a value, or a pop.
pub enum RingOp<T> {
    Push(T),
    Pop,
}

/// What a run of operations did to a ring of capacity `cap`: the content
/// left in the ring, the values pushed and the values popped, each in order,
/// and whether every operation succeeded.
pub ghost struct RingRun<T> {
    pub content: Seq<T>,
    pub pushed: Seq<T>,
    pub popped: Seq<T>,
    pub all_ok: bool,
}

/// The run of `ops` on an empty ring of capacity `cap`. A push on a full
/// ring and a pop on an empty ring fail and leave the ring as it is.
pub open spec fn ring_run<T>(ops: Seq<RingOp<T>>, cap: nat) -> RingRun<T>
    decreases ops.len(),
{
    if ops.len() == 0 {
        RingRun { content: Seq::empty(), pushed: Seq::empty(), popped: Seq::empty(), all_ok: true }
    } else {
        let before = ring_run(ops.drop_last(), cap);
        match ops.last() {
            RingOp::Push(x) => if before.content.len() < cap {
                RingRun {
                    content: before.content.push(x),
                    pushed: before.pushed.push(x),
                    ..before
                }
            } else {
                RingRun { all_ok: false, ..before }
            },
            RingOp::Pop => if before.content.len() > 0 {
                RingRun {
                    content: before.content.drop_first(),
                    popped: before.popped.push(before.content[0]),
                    ..before
                }
            } else {
                RingRun { all_ok: false, ..before }
            },
        }
    }
}

/// First in, first out: in any run of pushes and pops, the values popped
/// are the values pushed, in the order in which they were pushed, as far as
/// the pops got; what is left in the ring are the values pushed after them;
/// and the ring never holds more than its capacity.
pub proof fn lemma_ring_fifo<T>(ops: Seq<RingOp<T>>, cap: nat)
    ensures
        ring_run(ops, cap).popped.len() <= ring_run(ops, cap).pushed.len(),
        ring_run(ops, cap).popped == ring_run(ops, cap).pushed.take(
            ring_run(ops, cap).popped.len() as int,
        ),
        ring_run(ops, cap).content == ring_run(ops, cap).pushed.skip(
            ring_run(ops, cap).popped.len() as int,
        ),
        ring_run(ops, cap).content.len() <= cap,
    decreases ops.len(),
{
    if ops.len() > 0 {
        lemma_ring_fifo(ops.drop_last(), cap);
        let before = ring_run(ops.drop_last(), cap);
        let after = ring_run(ops, cap);
        assert(after.popped =~= after.pushed.take(after.popped.len() as int));
        assert(after.content =~= after.pushed.skip(after.popped.len() as int));
    } else {
        let r = ring_run(ops, cap);
        assert(r.popped =~= r.pushed.take(0));
        assert(r.content =~= r.pushed.skip(0));
    }
}

} // verus!
