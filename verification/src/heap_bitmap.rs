//! The heap-wide bitmap: an ordered collection of object-granularity
//! space bitmaps covering the continuous (non-large) spaces.  Queries
//! are routed to whichever contained bitmap covers the given address; a
//! miss means the object is a precise/large allocation tracked out of
//! band.

use vstd::prelude::*;

use crate::api::MIN_ALLOCATION;
use crate::bitmap::SpaceBitmap;

verus! {

/// The heap-wide union of the continuous spaces' object bitmaps.
pub struct HeapBitmap {
    pub continuous_space_bitmaps: Vec<SpaceBitmap<MIN_ALLOCATION>>,
}

impl HeapBitmap {
    /// The contained space bitmaps, in registration order.
    pub open spec fn spaces(self) -> Seq<SpaceBitmap<MIN_ALLOCATION>> {
        self.continuous_space_bitmaps@
    }

    /// One past the last address a space bitmap covers.
    pub open spec fn covered_end(b: SpaceBitmap<MIN_ALLOCATION>) -> int {
        b.heap_begin + b.num_slots() * 16
    }

    /// Two space bitmaps cover disjoint address ranges.
    pub open spec fn disjoint(a: SpaceBitmap<MIN_ALLOCATION>, b: SpaceBitmap<
        MIN_ALLOCATION,
    >) -> bool {
        Self::covered_end(a) <= b.heap_begin || Self::covered_end(b) <= a.heap_begin
    }

    /// Well-formedness: every contained bitmap is well-formed and no
    /// two overlap in address.
    pub open spec fn wf(self) -> bool {
        &&& forall|i: int| 0 <= i < self.spaces().len() ==> (#[trigger] self.spaces()[i]).wf()
        &&& forall|i: int, j: int|
            0 <= i < j < self.spaces().len() ==> Self::disjoint(
                #[trigger] self.spaces()[i],
                #[trigger] self.spaces()[j],
            )
    }

    /// Whether some contained bitmap covers `obj`.
    pub open spec fn spec_owned(self, obj: usize) -> bool {
        exists|i: int|
            0 <= i < self.spaces().len() && (#[trigger] self.spaces()[i]).spec_has_address(obj)
    }

    /// The index of the bitmap covering `obj`; under `wf` it is unique.
    pub open spec fn spec_owner(self, obj: usize) -> int {
        choose|i: int|
            0 <= i < self.spaces().len() && (#[trigger] self.spaces()[i]).spec_has_address(obj)
    }

    /// The bit a heap-wide query reads for `obj`: the owning bitmap's
    /// bit, or false when no bitmap covers `obj`.
    pub open spec fn spec_test(self, obj: usize) -> bool {
        self.spec_owned(obj) && self.spaces()[self.spec_owner(obj)].spec_test(obj)
    }

    /// A well-formed bitmap that covers `obj` covers it alone.
    proof fn lemma_unique_owner(self, obj: usize, i: int, j: int)
        requires
            self.wf(),
            0 <= i < self.spaces().len(),
            0 <= j < self.spaces().len(),
            self.spaces()[i].spec_has_address(obj),
            self.spaces()[j].spec_has_address(obj),
        ensures
            i == j,
    {
        if i != j {
            let a = self.spaces()[i];
            let b = self.spaces()[j];
            assert(obj < Self::covered_end(a) && obj < Self::covered_end(b)) by (nonlinear_arith)
                requires
                    a.heap_begin <= obj,
                    b.heap_begin <= obj,
                    (obj - a.heap_begin) / 16 < a.num_slots(),
                    (obj - b.heap_begin) / 16 < b.num_slots(),
                    Self::covered_end(a) == a.heap_begin + a.num_slots() * 16,
                    Self::covered_end(b) == b.heap_begin + b.num_slots() * 16,
            ;
        }
    }

    /// An empty heap bitmap, covering no space yet.
    pub fn new() -> (r: Self)
        ensures
            r.wf(),
            r.spaces().len() == 0,
    {
        HeapBitmap { continuous_space_bitmaps: Vec::new() }
    }

    /// The index of the bitmap covering `obj`, if any.
    fn owner_index(&self, obj: usize) -> (r: Option<usize>)
        requires
            self.wf(),
        ensures
            match r {
                Some(i) => i < self.spaces().len() && self.spaces()[i as int].spec_has_address(obj)
                    && i == self.spec_owner(obj) && self.spec_owned(obj),
                None => !self.spec_owned(obj),
            },
    {
        let n = self.continuous_space_bitmaps.len();
        let mut i: usize = 0;
        while i < n
            invariant
                self.wf(),
                n == self.spaces().len(),
                i <= n,
                forall|k: int|
                    0 <= k < i ==> !(#[trigger] self.spaces()[k]).spec_has_address(obj),
            decreases n - i,
        {
            let b = &self.continuous_space_bitmaps[i];
            if b.has_address(obj) {
                proof {
                    self.lemma_unique_owner(obj, i as int, self.spec_owner(obj));
                }
                return Some(i);
            }
            i += 1;
        }
        None
    }

    /// The bitmap covering `obj`, if any; a miss means the object is a
    /// precise/large allocation.
    pub fn get_continuous_space_bitmap(&self, obj: usize) -> (r: Option<
        &SpaceBitmap<MIN_ALLOCATION>,
    >)
        requires
            self.wf(),
        ensures
            match r {
                Some(b) => self.spec_owned(obj) && *b == self.spaces()[self.spec_owner(obj)]
                    && b.spec_has_address(obj),
                None => !self.spec_owned(obj),
            },
    {
        match self.owner_index(obj) {
            Some(i) => Some(&self.continuous_space_bitmaps[i]),
            None => None,
        }
    }

    /// Reads the bit for `obj`: the owning bitmap's bit, or false when
    /// no bitmap covers `obj`.
    pub fn test(&self, obj: usize) -> (r: bool)
        requires
            self.wf(),
        ensures
            r == self.spec_test(obj),
    {
        match self.owner_index(obj) {
            Some(i) => {
                let b = &self.continuous_space_bitmaps[i];
                b.test(obj)
            },
            None => false,
        }
    }

    /// Sets the bit for `obj` in the owning bitmap and returns the
    /// previous value; with no owner, reports false and changes
    /// nothing.
    pub fn set(&mut self, obj: usize) -> (was: bool)
        requires
            old(self).wf(),
        ensures
            final(self).wf(),
            final(self).spaces().len() == old(self).spaces().len(),
            !old(self).spec_owned(obj) ==> *final(self) == *old(self) && was == false,
            old(self).spec_owned(obj) ==> {
                let i = old(self).spec_owner(obj);
                &&& SpaceBitmap::<MIN_ALLOCATION>::set_transition(
                    old(self).spaces()[i],
                    final(self).spaces()[i],
                    obj,
                    true,
                )
                &&& forall|j: int|
                    0 <= j < old(self).spaces().len() && j != i ==> final(self).spaces()[j] == old(
                        self,
                    ).spaces()[j]
                &&& was == old(self).spaces()[i].spec_test(obj)
            },
    {
        match self.owner_index(obj) {
            Some(i) => {
                let was = self.continuous_space_bitmaps[i].set(obj);
                proof {
                    Self::lemma_update_keeps_wf(*old(self), *self, i as int);
                }
                was
            },
            None => false,
        }
    }

    /// Sets the bit for `obj` in the owning bitmap, returning the value
    /// it had immediately before; the concurrent mark's compare-and-
    /// swap becomes a plain update under unique ownership.
    pub fn atomic_test_and_set(&mut self, obj: usize) -> (was: bool)
        requires
            old(self).wf(),
        ensures
            final(self).wf(),
            final(self).spaces().len() == old(self).spaces().len(),
            !old(self).spec_owned(obj) ==> *final(self) == *old(self) && was == false,
            old(self).spec_owned(obj) ==> {
                let i = old(self).spec_owner(obj);
                &&& SpaceBitmap::<MIN_ALLOCATION>::set_transition(
                    old(self).spaces()[i],
                    final(self).spaces()[i],
                    obj,
                    true,
                )
                &&& forall|j: int|
                    0 <= j < old(self).spaces().len() && j != i ==> final(self).spaces()[j] == old(
                        self,
                    ).spaces()[j]
                &&& was == old(self).spaces()[i].spec_test(obj)
                &&& final(self).spec_test(obj)
            },
    {
        match self.owner_index(obj) {
            Some(i) => {
                let was = self.continuous_space_bitmaps[i].atomic_test_and_set(obj);
                proof {
                    Self::lemma_update_keeps_wf(*old(self), *self, i as int);
                    self.lemma_unique_owner(obj, i as int, self.spec_owner(obj));
                }
                was
            },
            None => false,
        }
    }

    /// Clears the bit for `obj` in the owning bitmap and returns the
    /// previous value; with no owner, reports false and changes
    /// nothing.
    pub fn clear(&mut self, obj: usize) -> (was: bool)
        requires
            old(self).wf(),
        ensures
            final(self).wf(),
            final(self).spaces().len() == old(self).spaces().len(),
            !old(self).spec_owned(obj) ==> *final(self) == *old(self) && was == false,
            old(self).spec_owned(obj) ==> {
                let i = old(self).spec_owner(obj);
                &&& SpaceBitmap::<MIN_ALLOCATION>::set_transition(
                    old(self).spaces()[i],
                    final(self).spaces()[i],
                    obj,
                    false,
                )
                &&& forall|j: int|
                    0 <= j < old(self).spaces().len() && j != i ==> final(self).spaces()[j] == old(
                        self,
                    ).spaces()[j]
                &&& was == old(self).spaces()[i].spec_test(obj)
            },
    {
        match self.owner_index(obj) {
            Some(i) => {
                let was = self.continuous_space_bitmaps[i].clear(obj);
                proof {
                    Self::lemma_update_keeps_wf(*old(self), *self, i as int);
                }
                was
            },
            None => false,
        }
    }

    /// A point update of one contained bitmap preserves coverage and
    /// disjointness.
    proof fn lemma_update_keeps_wf(pre: Self, post: Self, i: int)
        requires
            pre.wf(),
            0 <= i < pre.spaces().len(),
            post.spaces().len() == pre.spaces().len(),
            post.spaces()[i].wf(),
            post.spaces()[i].heap_begin == pre.spaces()[i].heap_begin,
            post.spaces()[i].words@.len() == pre.spaces()[i].words@.len(),
            forall|j: int|
                0 <= j < pre.spaces().len() && j != i ==> post.spaces()[j] == pre.spaces()[j],
        ensures
            post.wf(),
    {
        assert forall|a: int, b: int| 0 <= a < b < post.spaces().len() implies Self::disjoint(
            #[trigger] post.spaces()[a],
            #[trigger] post.spaces()[b],
        ) by {
            assert(Self::disjoint(pre.spaces()[a], pre.spaces()[b]));
            assert(post.spaces()[a].heap_begin == pre.spaces()[a].heap_begin);
            assert(post.spaces()[a].num_slots() == pre.spaces()[a].num_slots());
            assert(post.spaces()[b].heap_begin == pre.spaces()[b].heap_begin);
            assert(post.spaces()[b].num_slots() == pre.spaces()[b].num_slots());
        }
    }

    /// Registers the bitmap of a newly added continuous space; it must
    /// not overlap any space already covered.
    pub fn add_continuous_space(&mut self, space: SpaceBitmap<MIN_ALLOCATION>)
        requires
            old(self).wf(),
            space.wf(),
            forall|i: int|
                0 <= i < old(self).spaces().len() ==> Self::disjoint(
                    #[trigger] old(self).spaces()[i],
                    space,
                ),
        ensures
            final(self).wf(),
            final(self).spaces() == old(self).spaces().push(space),
    {
        self.continuous_space_bitmaps.push(space);
    }
}

} // verus!
