//! A typed pool of `N` slots with constant-time allocation and release.
//!
//! All storage is reserved when the pool is built. A LIFO stack of free slot
//! indices hands slots out and takes them back; the index of a slot never
//! changes, so indices can serve as links inside other data structures.
//!
//! The pool is single-threaded. Releasing a slot does not touch the value in
//! it: the value stays readable by index until the slot is written again.

use vstd::prelude::*;
use vstd::set_lib::*;
use core::marker::PhantomData;

verus! {

/// A pool of `N` slots of type `T`.
pub struct MemPool<T, const N: usize> {
    storage: Vec<T>,
    free_list: Vec<usize>,
    free_count: usize,
}

/// A handle to one allocated slot. It cannot be copied, so safe code cannot
/// release the same allocation twice through it.
pub struct PoolPtr<T> {
    index: usize,
    _marker: PhantomData<T>,
}

impl<T> PoolPtr<T> {
    /// The slot index behind this handle.
    pub closed spec fn slot(&self) -> int {
        self.index as int
    }

    /// Returns the index of this slot in its pool.
    pub fn index(&self) -> (r: usize)
        ensures
            r == self.slot(),
    {
        self.index
    }
}

impl<T, const N: usize> MemPool<T, N> {
    /// The free stack, bottom first: the last entry is handed out next.
    pub closed spec fn free_indices(&self) -> Seq<int> {
        Seq::new(self.free_count as nat, |k: int| self.free_list@[k] as int)
    }

    /// The value held in each slot, by index.
    pub closed spec fn slots(&self) -> Seq<T> {
        self.storage@
    }

    /// Whether slot `i` is currently handed out.
    pub open spec fn is_allocated(&self, i: int) -> bool {
        0 <= i < N && !self.free_indices().contains(i)
    }

    /// The set of slots that are currently handed out.
    pub open spec fn allocated(&self) -> Set<int> {
        Set::new(|i: int| self.is_allocated(i))
    }

    /// The number of free slots.
    pub open spec fn free_len(&self) -> nat {
        self.free_indices().len()
    }

    /// The representation invariant: `N` slots, and a free stack of distinct
    /// indices below `N`.
    pub closed spec fn wf(&self) -> bool {
        &&& N > 0
        &&& self.storage@.len() == N
        &&& self.free_list@.len() == N
        &&& self.free_count <= N
        &&& forall|k: int| 0 <= k < self.free_count ==> (#[trigger] self.free_list@[k]) < N
        &&& forall|j: int, k: int|
            0 <= j < k < self.free_count ==> self.free_list@[j] != self.free_list@[k]
    }

    /// What well-formedness gives a caller: the shape of the slot sequence and
    /// of the free stack.
    pub proof fn lemma_wf_facts(&self)
        requires
            self.wf(),
        ensures
            N > 0,
            self.slots().len() == N,
            self.free_len() <= N,
            self.free_indices().no_duplicates(),
            forall|k: int|
                0 <= k < self.free_len() ==> 0 <= (#[trigger] self.free_indices()[k]) < N,
    {
    }

    /// Every slot is either free or allocated, never both: the allocated
    /// slots and the free stack together count `N`.
    pub proof fn lemma_accounting(&self)
        requires
            self.wf(),
        ensures
            self.allocated().finite(),
            self.allocated().len() + self.free_len() == N,
    {
        let free = self.free_indices();
        let all = set_int_range(0, N as int);
        let taken = self.allocated();
        lemma_int_range(0, N as int);
        free.unique_seq_to_set();
        assert(taken.subset_of(all));
        lemma_len_subset(taken, all);
        assert(free.to_set().subset_of(all)) by {
            assert forall|i: int| free.to_set().contains(i) implies all.contains(i) by {
                let k = choose|k: int| 0 <= k < free.len() && free[k] == i;
                assert(self.free_list@[k] < N);
            }
        }
        lemma_len_subset(free.to_set(), all);
        assert(taken.disjoint(free.to_set()));
        assert(taken + free.to_set() =~= all);
        lemma_set_disjoint_lens(taken, free.to_set());
    }

    /// Once every allocated slot has been returned, all `N` slots are free
    /// again.
    pub proof fn lemma_all_returned(&self)
        requires
            self.wf(),
            self.allocated() == Set::<int>::empty(),
        ensures
            self.free_len() == N,
    {
        self.lemma_accounting();
    }

    /// Allocates a slot: the top of the free stack. Succeeds exactly when a
    /// slot is free. The slot handed out was free before and is distinct from
    /// every slot that is allocated; nothing else changes.
    pub fn allocate(&mut self) -> (r: Option<PoolPtr<T>>)
        requires
            old(self).wf(),
        ensures
            final(self).wf(),
            final(self).slots() == old(self).slots(),
            r is Some <==> old(self).free_len() > 0,
            r is None ==> final(self).free_indices() == old(self).free_indices(),
            r matches Some(ptr) ==> {
                &&& ptr.slot() == old(self).free_indices().last()
                &&& final(self).free_indices() == old(self).free_indices().drop_last()
                &&& !old(self).is_allocated(ptr.slot())
                &&& final(self).is_allocated(ptr.slot())
                &&& forall|i: int|
                    i != ptr.slot() ==> (final(self).is_allocated(i) <==> old(self).is_allocated(i))
                &&& final(self).allocated() == old(self).allocated().insert(ptr.slot())
            },
    {
        if self.free_count == 0 {
            return None;
        }
        let ghost before = self.free_indices();
        self.free_count = self.free_count - 1;
        let index = self.free_list[self.free_count];
        proof {
            let after = self.free_indices();
            assert(after =~= before.drop_last());
            assert(before.last() == index as int);
            assert(before[before.len() - 1] == index as int);
            assert(!after.contains(index as int));
            assert forall|i: int| i != index as int implies (after.contains(i) <==> before.contains(
                i,
            )) by {
                if before.contains(i) {
                    let k = choose|k: int| 0 <= k < before.len() && before[k] == i;
                    assert(after[k] == i);
                }
            }
            assert(self.allocated() =~= old(self).allocated().insert(index as int));
        }
        Some(PoolPtr { index, _marker: PhantomData })
    }

    /// Returns the slot behind `ptr` to the pool and consumes the handle. The
    /// value in the slot is left as it is.
    pub fn deallocate(&mut self, ptr: PoolPtr<T>)
        requires
            old(self).wf(),
            old(self).is_allocated(ptr.slot()),
        ensures
            final(self).wf(),
            final(self).slots() == old(self).slots(),
            final(self).free_indices() == old(self).free_indices().push(ptr.slot()),
            !final(self).is_allocated(ptr.slot()),
            forall|i: int|
                i != ptr.slot() ==> (final(self).is_allocated(i) <==> old(self).is_allocated(i)),
            final(self).allocated() == old(self).allocated().remove(ptr.slot()),
    {
        self.deallocate_by_index(ptr.index);
    }

    /// Returns slot `index` to the pool, for callers that keep indices
    /// instead of handles.
    pub fn deallocate_by_index(&mut self, index: usize)
        requires
            old(self).wf(),
            old(self).is_allocated(index as int),
        ensures
            final(self).wf(),
            final(self).slots() == old(self).slots(),
            final(self).free_indices() == old(self).free_indices().push(index as int),
            !final(self).is_allocated(index as int),
            forall|i: int|
                i != index ==> (final(self).is_allocated(i) <==> old(self).is_allocated(i)),
            final(self).allocated() == old(self).allocated().remove(index as int),
    {
        let ghost before = self.free_indices();
        proof {
            self.lemma_accounting();
            assert(self.allocated().contains(index as int));
            assert(self.allocated().len() > 0);
        }
        self.free_list[self.free_count] = index;
        self.free_count = self.free_count + 1;
        proof {
            let after = self.free_indices();
            assert(after =~= before.push(index as int));
            assert(after[after.len() - 1] == index as int);
            assert forall|j: int, k: int| 0 <= j < k < self.free_count implies self.free_list@[j]
                != self.free_list@[k] by {
                if k == self.free_count - 1 {
                    assert(before[j] == self.free_list@[j] as int);
                }
            }
            assert forall|i: int| i != index as int implies (after.contains(i) <==> before.contains(
                i,
            )) by {
                if before.contains(i) {
                    let k = choose|k: int| 0 <= k < before.len() && before[k] == i;
                    assert(after[k] == i);
                }
                if after.contains(i) {
                    let k = choose|k: int| 0 <= k < after.len() && after[k] == i;
                    assert(before[k] == i);
                }
            }
            assert(self.allocated() =~= old(self).allocated().remove(index as int));
        }
    }

    /// Returns a shared reference to the value in the slot behind `ptr`.
    pub fn get(&self, ptr: &PoolPtr<T>) -> (r: &T)
        requires
            self.wf(),
            self.is_allocated(ptr.slot()),
        ensures
            *r == self.slots()[ptr.slot()],
    {
        &self.storage[ptr.index]
    }

    /// Returns a mutable reference to the value in the slot behind `ptr`.
    /// Whatever is written through it becomes the slot's value; no other slot
    /// and no part of the free stack changes.
    pub fn get_mut(&mut self, ptr: &PoolPtr<T>) -> (r: &mut T)
        requires
            old(self).wf(),
            old(self).is_allocated(ptr.slot()),
        ensures
            *r == old(self).slots()[ptr.slot()],
            final(self).wf(),
            final(self).slots() == old(self).slots().update(ptr.slot(), *final(r)),
            final(self).free_indices() == old(self).free_indices(),
    {
        &mut self.storage[ptr.index]
    }

    /// Returns the number of free slots.
    pub fn available(&self) -> (r: usize)
        requires
            self.wf(),
        ensures
            r == self.free_len(),
    {
        self.free_count
    }

    /// Returns the number of slots, free or not.
    pub fn capacity(&self) -> (r: usize)
        ensures
            r == N,
    {
        N
    }

    /// Returns a mutable reference to the value in slot `index`, or `None`
    /// when `index` is not below the capacity. The slot need not be
    /// allocated.
    pub fn get_by_index(&mut self, index: usize) -> (r: Option<&mut T>)
        requires
            old(self).wf(),
        ensures
            r is Some <==> index < N,
            r is None ==> *final(self) == *old(self),
            r matches Some(slot) ==> {
                &&& *slot == old(self).slots()[index as int]
                &&& final(self).wf()
                &&& final(self).slots() == old(self).slots().update(index as int, *final(slot))
                &&& final(self).free_indices() == old(self).free_indices()
            },
    {
        if index >= N {
            return None;
        }
        Some(&mut self.storage[index])
    }

    /// The fast path of [`MemPool::get_by_index`], for an index that the
    /// caller knows to be below the capacity.
    pub fn get_by_index_unchecked(&mut self, index: usize) -> (r: &mut T)
        requires
            old(self).wf(),
            index < N,
        ensures
            *r == old(self).slots()[index as int],
            final(self).wf(),
            final(self).slots() == old(self).slots().update(index as int, *final(r)),
            final(self).free_indices() == old(self).free_indices(),
    {
        &mut self.storage[index]
    }

    /// Returns a shared reference to the value in slot `index`.
    pub fn peek(&self, index: usize) -> (r: &T)
        requires
            self.wf(),
            index < N,
        ensures
            *r == self.slots()[index as int],
    {
        &self.storage[index]
    }
}

impl<T: Default, const N: usize> MemPool<T, N> {
    /// Creates a pool with all `N` slots free. The free stack holds
    /// `0, 1, .., N - 1`, so the highest index is handed out first.
    pub fn new() -> (pool: Self)
        requires
            N > 0,
        ensures
            pool.wf(),
            pool.free_len() == N,
            pool.free_indices() == Seq::new(N as nat, |k: int| k),
            forall|i: int| !pool.is_allocated(i),
    {
        let mut storage: Vec<T> = Vec::new();
        let mut free_list: Vec<usize> = Vec::new();
        let mut i: usize = 0;
        while i < N
            invariant
                i <= N,
                storage@.len() == i,
                free_list@.len() == i,
                forall|k: int| 0 <= k < i ==> free_list@[k] == k,
            decreases N - i,
        {
            storage.push(T::default());
            free_list.push(i);
            i = i + 1;
        }
        let pool = MemPool { storage, free_list, free_count: N };
        proof {
            assert(pool.free_indices() =~= Seq::new(N as nat, |k: int| k));
            assert forall|i: int| !pool.is_allocated(i) by {
                if 0 <= i < N {
                    assert(pool.free_indices()[i] == i);
                }
            }
        }
        pool
    }

    /// Creates the pool directly on the heap, for capacities too large for
    /// the stack.
    pub fn new_boxed() -> (pool: Box<Self>)
        requires
            N > 0,
        ensures
            pool.wf(),
            pool.free_len() == N,
            pool.free_indices() == Seq::new(N as nat, |k: int| k),
            forall|i: int| !pool.is_allocated(i),
    {
        Box::new(Self::new())
    }
}

} // verus!
