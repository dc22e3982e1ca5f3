//! Handles for what is shown on screen. A handle is a small stable number;
//! it is claimed when a cell appears and returned when the cell goes, and a
//! returned handle is given out again before a new one is made.
use vstd::prelude::*;

verus! {

/// The handles in use.
pub struct Arena {
    /// For each handle ever made, whether it is in use now.
    live: Vec<bool>,
    /// The handles that were returned and not given out again.
    free: Vec<usize>,
}

impl Arena {
    /// The handles in use.
    pub closed spec fn live(&self) -> Set<usize> {
        Set::new(|handle: usize| handle < self.live@.len() && self.live@[handle as int])
    }

    /// How many handles were ever made: the handles are the numbers below.
    pub closed spec fn issued(&self) -> nat {
        self.live@.len()
    }

    /// The free list names the handles that were made and are not in use,
    /// each once.
    pub closed spec fn wf(&self) -> bool {
        &&& forall|i: int|
            0 <= i < self.free@.len() ==> #[trigger] self.free@[i] < self.live@.len()
                && !self.live@[self.free@[i] as int]
        &&& forall|i: int, j: int|
            0 <= i < j < self.free@.len() ==> self.free@[i] != self.free@[j]
        &&& forall|handle: int|
            0 <= handle < self.live@.len() && !#[trigger] self.live@[handle] ==> exists|i: int|
                0 <= i < self.free@.len() && #[trigger] self.free@[i] == handle
    }

    /// An arena in which no handle was made yet.
    pub fn new() -> (arena: Arena)
        ensures
            arena.wf(),
            arena.issued() == 0,
            arena.live() == Set::<usize>::empty(),
    {
        let arena = Arena { live: Vec::new(), free: Vec::new() };
        assert(arena.live() =~= Set::<usize>::empty());
        arena
    }

    /// Whether the handle is in use.
    pub fn is_live(&self, handle: usize) -> (live: bool)
        ensures
            live == self.live().contains(handle),
            live ==> handle < self.issued(),
    {
        handle < self.live.len() && self.live[handle]
    }

    /// Claims a handle that was not in use. A handle is made only when every
    /// handle made so far is in use; it is then the next number.
    pub fn claim(&mut self) -> (handle: usize)
        requires
            old(self).wf(),
        ensures
            final(self).wf(),
            !old(self).live().contains(handle),
            final(self).live() == old(self).live().insert(handle),
            handle < final(self).issued(),
            final(self).issued() == old(self).issued() || (final(self).issued() == old(self).issued() + 1 && handle == old(self).issued() && forall|other: usize|
                other < old(self).issued() ==> old(self).live().contains(other)),
    {
        match self.free.pop() {
            Some(handle) => {
                let ghost last = old(self).free@.len() - 1;
                assert(handle == old(self).free@[last]);
                self.live.set(handle, true);
                assert(self.live() =~= old(self).live().insert(handle));
                assert forall|other: int|
                    0 <= other < self.live@.len() && !#[trigger] self.live@[other] implies exists|
                    i: int,
                | 0 <= i < self.free@.len() && #[trigger] self.free@[i] == other by {
                    assert(!old(self).live@[other]);
                    let i = choose|i: int|
                        0 <= i < old(self).free@.len() && #[trigger] old(self).free@[i] == other;
                    assert(i != last);
                    assert(self.free@[i] == other);
                }
                handle
            },
            None => {
                let handle = self.live.len();
                assert forall|other: usize| other < old(self).issued() implies old(self).live().contains(other) by {
                    if !old(self).live@[other as int] {
                        let i = choose|i: int|
                            0 <= i < old(self).free@.len() && #[trigger] old(self).free@[i]
                                == other;
                    }
                }
                self.live.push(true);
                assert(self.live() =~= old(self).live().insert(handle));
                assert forall|other: int|
                    0 <= other < self.live@.len() implies #[trigger] self.live@[other] by {
                    if other < handle {
                        assert(old(self).live().contains(other as usize));
                    }
                }
                handle
            },
        }
    }

    /// Returns a handle. One that is not in use is left alone.
    pub fn release(&mut self, handle: usize)
        requires
            old(self).wf(),
        ensures
            final(self).wf(),
            final(self).live() == old(self).live().remove(handle),
            final(self).issued() == old(self).issued(),
    {
        if handle < self.live.len() && self.live[handle] {
            self.live.set(handle, false);
            self.free.push(handle);
            assert(self.live() =~= old(self).live().remove(handle));
            let ghost last = self.free@.len() - 1;
            assert forall|other: int|
                0 <= other < self.live@.len() && !#[trigger] self.live@[other] implies exists|
                i: int,
            | 0 <= i < self.free@.len() && #[trigger] self.free@[i] == other by {
                if other == handle {
                    assert(self.free@[last] == other);
                } else {
                    let i = choose|i: int|
                        0 <= i < old(self).free@.len() && #[trigger] old(self).free@[i] == other;
                    assert(self.free@[i] == other);
                }
            }
        } else {
            assert(self.live() =~= old(self).live().remove(handle));
        }
    }
}

} // verus!
