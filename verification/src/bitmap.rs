//! Side-table bitmaps over a contiguous heap range.
//!
//! A `SpaceBitmap<ALIGN>` maps every `ALIGN`-aligned slot of the covered
//! range to one bit, packed 64 slots to a word.  For an address `A`,
//! `offset = A - heap_begin`, the word index is `offset / ALIGN / 64`
//! and the bit index `(offset / ALIGN) % 64`.  Instantiations cover
//! object-granularity marking (`ALIGN = MIN_ALLOCATION`), line and chunk
//! tracking.

use vstd::prelude::*;

use crate::bits::lemma_andnot_bit;
use crate::bits::lemma_mask_test;
use crate::bits::lemma_or_bit;
use crate::bits::nth_bit;

verus! {

use vstd::arithmetic::div_mod::lemma_fundamental_div_mod;
use vstd::arithmetic::mul::lemma_mul_inequality;

/// Bits per bitmap word.
pub const WORD_BITS: usize = 64;

/// Bytes per bitmap word.
pub const WORD_SIZE: usize = 8;

/// A fixed-alignment side-table bitmap covering the half-open address
/// range `[heap_begin, heap_limit)` with one bit per `ALIGN`-sized slot.
pub struct SpaceBitmap<const ALIGN: usize> {
    pub words: Vec<u64>,
    pub heap_begin: usize,
    pub heap_limit: usize,
    pub name: &'static str,
}

impl<const ALIGN: usize> SpaceBitmap<ALIGN> {
    /// Well-formedness: a positive granule, and a covered range whose
    /// last slot address still fits the address space.
    pub open spec fn wf(self) -> bool {
        &&& 0 < ALIGN
        &&& self.heap_begin + self.words@.len() * (ALIGN as int) * 64 <= usize::MAX
    }

    /// The number of slots the bitmap covers.
    pub open spec fn num_slots(self) -> int {
        self.words@.len() * 64int
    }

    /// The slot holding `addr`.
    pub open spec fn slot_of(self, addr: usize) -> int {
        (addr - self.heap_begin) / (ALIGN as int)
    }

    /// The bit of slot `s`.
    pub open spec fn slot_set(self, s: int) -> bool {
        nth_bit(self.words@[s / 64], (s % 64) as u64)
    }

    /// Whether the bitmap covers `addr`: at or above `heap_begin`, and
    /// within the backing words.
    pub open spec fn spec_has_address(self, addr: usize) -> bool {
        self.heap_begin <= addr && self.slot_of(addr) < self.num_slots()
    }

    /// The bit `test` reads for `addr`.
    pub open spec fn spec_test(self, addr: usize) -> bool {
        self.slot_set(self.slot_of(addr))
    }

    /// How a point mutation of the bit for `addr` relates the bitmap
    /// before and after: the one slot holds `v`, every other slot and
    /// every coordinate is unchanged.
    pub open spec fn set_transition(pre: Self, post: Self, addr: usize, v: bool) -> bool {
        &&& post.heap_begin == pre.heap_begin
        &&& post.heap_limit == pre.heap_limit
        &&& post.name == pre.name
        &&& post.words@.len() == pre.words@.len()
        &&& forall|s: int|
            0 <= s < pre.num_slots() ==> #[trigger] post.slot_set(s) == (if s == pre.slot_of(addr) {
                v
            } else {
                pre.slot_set(s)
            })
    }

    /// A bitmap covering nothing.
    pub fn empty() -> (r: Self)
        requires
            0 < ALIGN,
        ensures
            r.wf(),
            r.words@.len() == 0,
            r.heap_begin == 0,
            r.heap_limit == 0,
    {
        SpaceBitmap { words: Vec::new(), heap_begin: 0, heap_limit: 0, name: "" }
    }

    /// Whether this bitmap has no backing words.
    pub fn is_null(&self) -> (r: bool)
        ensures
            r == (self.words@.len() == 0),
    {
        self.words.len() == 0
    }

    /// Assembles a bitmap from its parts.
    pub fn new(name: &'static str, words: Vec<u64>, heap_begin: usize, heap_capacity: usize) -> (r:
        Self)
        requires
            0 < ALIGN,
            heap_begin + words@.len() * (ALIGN as int) * 64 <= usize::MAX,
            heap_begin + heap_capacity <= usize::MAX,
        ensures
            r.wf(),
            r.words@ == words@,
            r.heap_begin == heap_begin,
            r.heap_limit == heap_begin + heap_capacity,
            r.name == name,
    {
        SpaceBitmap { words, heap_begin, heap_limit: heap_begin + heap_capacity, name }
    }

    /// Allocates a zeroed bitmap covering `heap_capacity` bytes starting
    /// at `heap_begin`.
    pub fn create(name: &'static str, heap_begin: usize, heap_capacity: usize) -> (r: Self)
        requires
            0 < ALIGN,
            heap_begin + heap_capacity <= usize::MAX,
            (ALIGN as int) * 64 <= usize::MAX,
            heap_begin + heap_capacity + (ALIGN as int) * 64 <= usize::MAX,
        ensures
            r.wf(),
            r.heap_begin == heap_begin,
            r.heap_limit == heap_begin + heap_capacity,
            r.name == name,
            r.num_slots() * (ALIGN as int) >= heap_capacity,
            forall|s: int| 0 <= s < r.num_slots() ==> !(#[trigger] r.slot_set(s)),
    {
        let granule = ALIGN * WORD_BITS;
        let n_words = (heap_capacity + (granule - 1)) / granule;
        let ghost g = granule as int;
        let mut words: Vec<u64> = Vec::new();
        let mut i: usize = 0;
        while i < n_words
            invariant
                words@.len() == i,
                i <= n_words,
                forall|k: int| 0 <= k < i ==> words@[k] == 0u64,
            decreases n_words - i,
        {
            words.push(0u64);
            i += 1;
        }
        proof {
            let cap = heap_capacity as int;
            let q = (cap + g - 1) / g;
            lemma_fundamental_div_mod(cap + g - 1, g);
            assert(g * q == cap + g - 1 - ((cap + g - 1) % g));
            assert(n_words == q);
            assert(n_words * g == g * q) by (nonlinear_arith)
                requires
                    n_words == q,
            ;
            assert(n_words * g <= cap + g - 1);
            assert(n_words * g >= cap);
            assert(n_words * (ALIGN as int) * 64 == n_words * g) by (nonlinear_arith)
                requires
                    g == (ALIGN as int) * 64,
            ;
            assert((n_words * 64) * (ALIGN as int) == n_words * g) by (nonlinear_arith)
                requires
                    g == (ALIGN as int) * 64,
            ;
        }
        let r = Self::new(name, words, heap_begin, heap_capacity);
        proof {
            assert forall|s: int| 0 <= s < r.num_slots() implies !(#[trigger] r.slot_set(s)) by {
                assert(0 <= s / 64 < n_words) by (nonlinear_arith)
                    requires
                        0 <= s < n_words as int * 64,
                ;
                crate::bits::lemma_zero_word((s % 64) as u64);
            }
        }
        r
    }

    /// Clears every bit of the bitmap.
    pub fn clear_all(&mut self)
        ensures
            final(self).heap_begin == old(self).heap_begin,
            final(self).heap_limit == old(self).heap_limit,
            final(self).name == old(self).name,
            final(self).words@.len() == old(self).words@.len(),
            forall|s: int|
                0 <= s < final(self).num_slots() ==> !(#[trigger] final(self).slot_set(s)),
    {
        let n = self.words.len();
        let mut i: usize = 0;
        while i < n
            invariant
                n == self.words@.len(),
                i <= n,
                self.heap_begin == old(self).heap_begin,
                self.heap_limit == old(self).heap_limit,
                self.name == old(self).name,
                forall|k: int| 0 <= k < i ==> self.words@[k] == 0u64,
            decreases n - i,
        {
            self.words[i] = 0u64;
            i += 1;
        }
        proof {
            assert forall|s: int| 0 <= s < self.num_slots() implies !(#[trigger] self.slot_set(s))
                by {
                assert(0 <= s / 64 < self.words@.len()) by (nonlinear_arith)
                    requires
                        0 <= s < self.words@.len() * 64int,
                ;
                crate::bits::lemma_zero_word((s % 64) as u64);
            }
        }
    }

    /// Shrinks the view to cover `bytes` of heap, dropping the backing
    /// words past it.
    pub fn set_heap_size(&mut self, bytes: usize)
        requires
            old(self).wf(),
            (ALIGN as int) * 64 <= usize::MAX,
            bytes as int % ((ALIGN as int) * 64) == 0,
            bytes as int / ((ALIGN as int) * 64) <= old(self).words@.len(),
        ensures
            final(self).wf(),
            final(self).heap_begin == old(self).heap_begin,
            final(self).heap_limit == old(self).heap_limit,
            final(self).name == old(self).name,
            final(self).words@.len() * (ALIGN as int) * 64 == bytes,
            forall|s: int|
                0 <= s < final(self).num_slots() ==> #[trigger] final(self).slot_set(s) == old(
                    self,
                ).slot_set(s),
    {
        let granule = ALIGN * WORD_BITS;
        let n = bytes / granule;
        let ghost g = granule as int;
        proof {
            lemma_fundamental_div_mod(bytes as int, g);
            assert(n * g == g * (bytes as int / g)) by (nonlinear_arith)
                requires
                    n == bytes as int / g,
            ;
            assert(n * (ALIGN as int) * 64 == n * g) by (nonlinear_arith)
                requires
                    g == (ALIGN as int) * 64,
            ;
            let pre_len = old(self).words@.len() as int;
            assert(n as int * 64 <= pre_len * 64) by (nonlinear_arith)
                requires
                    n <= pre_len,
            ;
        }
        self.words.truncate(n);
        proof {
            let pre_len = old(self).words@.len() as int;
            let post_len = self.words@.len() as int;
            assert(post_len * (ALIGN as int) * 64 <= pre_len * (ALIGN as int) * 64)
                by (nonlinear_arith)
                requires
                    post_len <= pre_len,
                    ALIGN >= 1,
            ;
            assert forall|s: int| 0 <= s < self.num_slots() implies #[trigger] self.slot_set(s)
                == old(self).slot_set(s) by {
                assert(0 <= s / 64 < self.words@.len()) by (nonlinear_arith)
                    requires
                        0 <= s < self.words@.len() * 64int,
                ;
            }
        }
    }

    /// The bitmap's name, for diagnostics.
    pub fn get_name(&self) -> (r: &'static str)
        ensures
            r == self.name,
    {
        self.name
    }

    /// Renames the bitmap.
    pub fn set_name(&mut self, name: &'static str)
        ensures
            final(self).name == name,
            final(self).words@ == old(self).words@,
            final(self).heap_begin == old(self).heap_begin,
            final(self).heap_limit == old(self).heap_limit,
    {
        self.name = name;
    }

    /// The first covered address.
    pub fn heap_begin(&self) -> (r: usize)
        ensures
            r == self.heap_begin,
    {
        self.heap_begin
    }

    /// The end of the covered address range.
    pub fn heap_limit(&self) -> (r: usize)
        ensures
            r == self.heap_limit,
    {
        self.heap_limit
    }

    /// The size of the backing store in bytes.
    pub fn size(&self) -> (r: usize)
        requires
            self.wf(),
        ensures
            r == self.words@.len() * 8,
    {
        proof {
            assert(self.words@.len() * 8 <= self.words@.len() * (ALIGN as int) * 64)
                by (nonlinear_arith)
                requires
                    ALIGN >= 1,
            ;
        }
        self.words.len() * WORD_SIZE
    }

    /// The number of heap bytes the backing store can describe.
    pub fn heap_size(&self) -> (r: usize)
        requires
            self.wf(),
        ensures
            r == self.words@.len() * (ALIGN as int) * 64,
    {
        proof {
            assert(self.words@.len() * (ALIGN as int) <= self.words@.len() * (ALIGN as int) * 64)
                by (nonlinear_arith)
                requires
                    ALIGN >= 1,
                    self.words@.len() >= 0,
            ;
        }
        self.words.len() * ALIGN * WORD_BITS
    }

    /// Converts a word index back to the heap offset of its first slot.
    pub fn index_to_offset(index: u64) -> (r: u64)
        requires
            0 < ALIGN,
            index * (ALIGN as int) * 64 <= u64::MAX,
        ensures
            r == index * (ALIGN as int) * 64,
    {
        proof {
            assert(index * (ALIGN as int) <= index * (ALIGN as int) * 64) by (nonlinear_arith)
                requires
                    index >= 0,
                    ALIGN >= 1,
            ;
            assert(index * (ALIGN as int) * 64 == (index * (ALIGN as int)) * 64)
                by (nonlinear_arith);
        }
        index * (ALIGN as u64) * 64
    }

    /// The word index covering a heap offset.
    pub fn offset_to_index(offset: usize) -> (r: usize)
        requires
            0 < ALIGN,
        ensures
            r == (offset as int / (ALIGN as int)) / 64,
    {
        offset / ALIGN / WORD_BITS
    }

    /// The bit index of a heap offset within its word.
    pub fn offset_bit_index(offset: usize) -> (r: usize)
        requires
            0 < ALIGN,
        ensures
            r == (offset as int / (ALIGN as int)) % 64,
            r < 64,
    {
        (offset / ALIGN) % WORD_BITS
    }

    /// The single-bit mask of a heap offset within its word.
    pub fn offset_to_mask(offset: usize) -> (r: u64)
        requires
            0 < ALIGN,
        ensures
            r == (1u64 << (((offset as int / (ALIGN as int)) % 64) as u64)),
    {
        1u64 << (Self::offset_bit_index(offset) as u64)
    }

    /// Whether the bitmap covers `addr`.
    pub fn has_address(&self, obj: usize) -> (r: bool)
        requires
            self.wf(),
        ensures
            r == self.spec_has_address(obj),
    {
        if obj < self.heap_begin {
            return false;
        }
        let offset = obj - self.heap_begin;
        let slot = offset / ALIGN;
        proof {
            assert((slot as int) / 64 < self.words@.len() <==> slot < self.words@.len() * 64)
                by (nonlinear_arith)
                requires
                    slot >= 0,
            ;
        }
        slot / WORD_BITS < self.words.len()
    }

    /// Reads the bit for `addr`.
    pub fn test(&self, obj: usize) -> (r: bool)
        requires
            self.wf(),
            self.spec_has_address(obj),
        ensures
            r == self.spec_test(obj),
    {
        let offset = obj - self.heap_begin;
        let slot = offset / ALIGN;
        let index = slot / WORD_BITS;
        let bit = (slot % WORD_BITS) as u64;
        proof {
            assert(index < self.words@.len()) by (nonlinear_arith)
                requires
                    index == (slot as int) / 64,
                    slot < self.words@.len() * 64,
                    slot >= 0,
            ;
            lemma_mask_test(self.words@[index as int], bit);
        }
        (self.words[index] & (1u64 << bit)) != 0
    }

    /// Writes the bit for `addr` to `SET_BIT` and returns the previous
    /// value.  When setting, the store is skipped if the bit already has
    /// the intended value, so a fully marked read-only page is never
    /// dirtied.
    pub fn modify<const SET_BIT: bool>(&mut self, obj: usize) -> (was: bool)
        requires
            old(self).wf(),
            old(self).spec_has_address(obj),
        ensures
            final(self).wf(),
            Self::set_transition(*old(self), *final(self), obj, SET_BIT),
            was == old(self).spec_test(obj),
    {
        let offset = obj - self.heap_begin;
        let slot = offset / ALIGN;
        let index = slot / WORD_BITS;
        let bit = (slot % WORD_BITS) as u64;
        proof {
            assert(index < self.words@.len()) by (nonlinear_arith)
                requires
                    index == (slot as int) / 64,
                    slot < self.words@.len() * 64,
                    slot >= 0,
            ;
        }
        let mask = 1u64 << bit;
        let old_word = self.words[index];
        proof {
            lemma_mask_test(old_word, bit);
        }
        if SET_BIT {
            if old_word & mask == 0 {
                self.words[index] = old_word | mask;
                proof {
                    Self::lemma_point_update(
                        *old(self),
                        *self,
                        slot as int,
                        index as int,
                        bit,
                        SET_BIT,
                    );
                }
            } else {
                proof {
                    assert forall|s: int| 0 <= s < old(self).num_slots() implies #[trigger] self
                        .slot_set(s) == (if s == old(self).slot_of(obj) {
                        SET_BIT
                    } else {
                        old(self).slot_set(s)
                    }) by {}
                }
            }
        } else {
            self.words[index] = old_word & !mask;
            proof {
                Self::lemma_point_update(*old(self), *self, slot as int, index as int, bit, SET_BIT);
            }
        }
        (old_word & mask) != 0
    }

    /// After a point update of word `index` at bit `bit`, every slot
    /// except `slot` keeps its value and `slot` holds `v`.
    proof fn lemma_point_update(pre: Self, post: Self, slot: int, index: int, bit: u64, v: bool)
        requires
            0 <= slot < pre.num_slots(),
            index == slot / 64,
            bit == (slot % 64) as u64,
            post.words@.len() == pre.words@.len(),
            forall|k: int| 0 <= k < pre.words@.len() && k != index ==> post.words@[k]
                == pre.words@[k],
            post.words@[index] == if v {
                pre.words@[index] | (1u64 << bit)
            } else {
                pre.words@[index] & !(1u64 << bit)
            },
        ensures
            forall|s: int|
                0 <= s < pre.num_slots() ==> #[trigger] post.slot_set(s) == (if s == slot {
                    v
                } else {
                    pre.slot_set(s)
                }),
    {
        assert forall|s: int| 0 <= s < pre.num_slots() implies #[trigger] post.slot_set(s) == (if s
            == slot {
            v
        } else {
            pre.slot_set(s)
        }) by {
            assert(0 <= s / 64 < pre.words@.len()) by (nonlinear_arith)
                requires
                    0 <= s < pre.words@.len() * 64,
            ;
            if s / 64 == index {
                let j = (s % 64) as u64;
                if v {
                    lemma_or_bit(pre.words@[index], bit, j);
                } else {
                    lemma_andnot_bit(pre.words@[index], bit, j);
                }
                assert(s == index * 64 + (s % 64));
                assert(slot == index * 64 + (bit as int));
            }
        }
    }

    /// Sets the bit for `addr`; returns the previous value.
    pub fn set(&mut self, obj: usize) -> (was: bool)
        requires
            old(self).wf(),
            old(self).spec_has_address(obj),
        ensures
            final(self).wf(),
            Self::set_transition(*old(self), *final(self), obj, true),
            was == old(self).spec_test(obj),
    {
        self.modify::<true>(obj)
    }

    /// `set`, under a name recording that the caller required a
    /// synchronized store; with the bitmap uniquely borrowed the two
    /// coincide.
    pub fn set_sync(&mut self, obj: usize) -> (was: bool)
        requires
            old(self).wf(),
            old(self).spec_has_address(obj),
        ensures
            final(self).wf(),
            Self::set_transition(*old(self), *final(self), obj, true),
            was == old(self).spec_test(obj),
    {
        self.modify_sync::<true>(obj)
    }

    /// Clears the bit for `addr`; returns the previous value.
    pub fn clear(&mut self, obj: usize) -> (was: bool)
        requires
            old(self).wf(),
            old(self).spec_has_address(obj),
        ensures
            final(self).wf(),
            Self::set_transition(*old(self), *final(self), obj, false),
            was == old(self).spec_test(obj),
    {
        self.modify::<false>(obj)
    }

    /// `modify`, under a name recording that the caller required plain
    /// stores; with the bitmap uniquely borrowed the two coincide.
    pub fn modify_sync<const SET_BIT: bool>(&mut self, obj: usize) -> (was: bool)
        requires
            old(self).wf(),
            old(self).spec_has_address(obj),
        ensures
            final(self).wf(),
            Self::set_transition(*old(self), *final(self), obj, SET_BIT),
            was == old(self).spec_test(obj),
    {
        self.modify::<SET_BIT>(obj)
    }

    /// Sets the bit for `addr` and returns the value it had immediately
    /// before; in the concurrent mark phase the underlying store is a
    /// compare-and-swap, which unique ownership renders a plain update.
    pub fn atomic_test_and_set(&mut self, obj: usize) -> (was: bool)
        requires
            old(self).wf(),
            old(self).spec_has_address(obj),
        ensures
            final(self).wf(),
            Self::set_transition(*old(self), *final(self), obj, true),
            was == old(self).spec_test(obj),
            final(self).spec_test(obj),
    {
        let offset = obj - self.heap_begin;
        let slot = offset / ALIGN;
        let index = slot / WORD_BITS;
        let bit = (slot % WORD_BITS) as u64;
        proof {
            assert(index < self.words@.len()) by (nonlinear_arith)
                requires
                    index == (slot as int) / 64,
                    slot < self.words@.len() * 64,
                    slot >= 0,
            ;
        }
        let mask = 1u64 << bit;
        let old_word = self.words[index];
        proof {
            lemma_mask_test(old_word, bit);
        }
        if (old_word & mask) != 0 {
            proof {
                assert forall|s: int| 0 <= s < old(self).num_slots() implies #[trigger] self
                    .slot_set(s) == (if s == old(self).slot_of(obj) {
                    true
                } else {
                    old(self).slot_set(s)
                }) by {}
            }
            return true;
        }
        self.words[index] = old_word | mask;
        proof {
            Self::lemma_point_update(*old(self), *self, slot as int, index as int, bit, true);
        }
        false
    }

    /// The bytes of backing store needed to cover `capacity` heap bytes:
    /// one 8-byte word per `ALIGN * 64` of heap, rounded up.
    pub open spec fn spec_compute_bitmap_size(capacity: u64) -> int {
        ((capacity + (ALIGN as int) * 64 - 1) / ((ALIGN as int) * 64)) * 8
    }

    /// The heap bytes `bitmap_bytes` of backing store can describe.
    pub open spec fn spec_compute_heap_size(bitmap_bytes: u64) -> int {
        bitmap_bytes * 8 * (ALIGN as int)
    }

    /// Computes the backing-store size for a heap capacity.
    pub fn compute_bitmap_size(capacity: u64) -> (r: usize)
        requires
            0 < ALIGN,
            (ALIGN as int) * 64 <= u64::MAX,
            capacity + (ALIGN as int) * 64 - 1 <= u64::MAX,
            Self::spec_compute_bitmap_size(capacity) <= usize::MAX,
        ensures
            r == Self::spec_compute_bitmap_size(capacity),
    {
        let bytes_covered_per_word = (ALIGN as u64) * 64;
        let q = (capacity + (bytes_covered_per_word - 1)) / bytes_covered_per_word;
        proof {
            let g = (ALIGN as int) * 64;
            let c = capacity as int;
            lemma_fundamental_div_mod(c + g - 1, g);
            assert(q * 8 <= Self::spec_compute_bitmap_size(capacity));
        }
        (q * 8) as usize
    }

    /// Computes the heap capacity a backing store of `bitmap_bytes`
    /// bytes can describe.
    pub fn compute_heap_size(bitmap_bytes: u64) -> (r: usize)
        requires
            0 < ALIGN,
            Self::spec_compute_heap_size(bitmap_bytes) <= usize::MAX,
        ensures
            r == Self::spec_compute_heap_size(bitmap_bytes),
    {
        proof {
            assert(bitmap_bytes * 8 <= bitmap_bytes * 8 * (ALIGN as int)) by (nonlinear_arith)
                requires
                    ALIGN >= 1,
                    bitmap_bytes >= 0,
            ;
        }
        (bitmap_bytes as usize) * 8 * ALIGN
    }

    /// Covering a capacity and reading the covered size back never
    /// shrinks: the bitmap sized for `capacity` bytes describes at least
    /// `capacity` bytes.
    pub proof fn lemma_size_round_trip(capacity: u64)
        requires
            0 < ALIGN,
            0 < capacity,
            capacity + (ALIGN as int) * 64 - 1 <= u64::MAX,
            Self::spec_compute_bitmap_size(capacity) <= u64::MAX,
        ensures
            Self::spec_compute_heap_size(
                Self::spec_compute_bitmap_size(capacity) as u64,
            ) >= capacity,
    {
        let g = (ALIGN as int) * 64;
        let c = capacity as int;
        let q = (c + g - 1) / g;
        lemma_fundamental_div_mod(c + g - 1, g);
        assert(q * g >= c);
        assert((q * 8) * 8 * (ALIGN as int) == q * g) by (nonlinear_arith)
            requires
                g == (ALIGN as int) * 64,
        ;
    }

    /// Clears every slot whose address lies in `[begin, end)`; the
    /// middle of the range is cleared a whole word at a time.
    pub fn clear_range(&mut self, begin: usize, end: usize)
        requires
            old(self).wf(),
            old(self).heap_begin <= begin <= end,
            (begin - old(self).heap_begin) % (ALIGN as int) == 0,
            (end - old(self).heap_begin) % (ALIGN as int) == 0,
            old(self).slot_of(end) <= old(self).num_slots(),
        ensures
            final(self).wf(),
            final(self).heap_begin == old(self).heap_begin,
            final(self).heap_limit == old(self).heap_limit,
            final(self).name == old(self).name,
            final(self).words@.len() == old(self).words@.len(),
            forall|t: int|
                0 <= t < old(self).num_slots() ==> #[trigger] final(self).slot_set(t) == (if old(
                    self,
                ).slot_of(begin) <= t < old(self).slot_of(end) {
                    false
                } else {
                    old(self).slot_set(t)
                }),
    {
        let lo = (begin - self.heap_begin) / ALIGN;
        let hi = (end - self.heap_begin) / ALIGN;
        proof {
            vstd::arithmetic::div_mod::lemma_div_is_ordered(
                (begin - self.heap_begin) as int,
                (end - self.heap_begin) as int,
                ALIGN as int,
            );
        }
        let mut s = lo;
        while s < hi
            invariant
                self.wf(),
                self.heap_begin == old(self).heap_begin,
                self.heap_limit == old(self).heap_limit,
                self.name == old(self).name,
                self.words@.len() == old(self).words@.len(),
                lo <= s <= hi,
                lo as int == old(self).slot_of(begin),
                hi as int == old(self).slot_of(end),
                hi <= self.num_slots(),
                forall|t: int|
                    0 <= t < old(self).num_slots() ==> #[trigger] self.slot_set(t) == (if lo <= t
                        < s {
                        false
                    } else {
                        old(self).slot_set(t)
                    }),
            decreases hi - s,
        {
            let ghost pre = *self;
            let wi = s / WORD_BITS;
            proof {
                assert(wi < self.words@.len()) by (nonlinear_arith)
                    requires
                        wi == s as int / 64,
                        s < self.words@.len() * 64int,
                        s >= 0,
                ;
                lemma_fundamental_div_mod(s as int, 64);
            }
            if s % WORD_BITS == 0 && hi - s >= WORD_BITS {
                self.words[wi] = 0u64;
                proof {
                    assert forall|t: int| 0 <= t < pre.num_slots() implies #[trigger] self.slot_set(
                        t,
                    ) == (if s <= t < s + 64 {
                        false
                    } else {
                        pre.slot_set(t)
                    }) by {
                        assert(0 <= t / 64 < pre.words@.len()) by (nonlinear_arith)
                            requires
                                0 <= t < pre.words@.len() * 64int,
                        ;
                        lemma_fundamental_div_mod(t, 64);
                        if t / 64 == wi {
                            crate::bits::lemma_zero_word((t % 64) as u64);
                        }
                    }
                }
                s += WORD_BITS;
            } else {
                let bit = (s % WORD_BITS) as u64;
                let w = self.words[wi];
                self.words[wi] = w & !(1u64 << bit);
                proof {
                    Self::lemma_point_update(pre, *self, s as int, wi as int, bit, false);
                }
                s += 1;
            }
        }
    }

    /// The marked addresses of the slot range `[lo, hi)`, in ascending
    /// order: for each marked slot `s`, the address `heap_begin + s *
    /// ALIGN`.
    pub open spec fn marked_addrs(self, lo: int, hi: int) -> Seq<usize>
        decreases hi - lo,
    {
        if hi <= lo {
            Seq::empty()
        } else {
            let prev = self.marked_addrs(lo, hi - 1);
            if self.slot_set(hi - 1) {
                prev.push(((self.heap_begin + (hi - 1) * (ALIGN as int)) as usize))
            } else {
                prev
            }
        }
    }

    /// What it means for `a` to stand in the enumeration of `[lo, hi)`:
    /// it is the address of a slot of the range whose bit is set.
    pub open spec fn is_marked_addr_in(self, a: usize, lo: int, hi: int) -> bool {
        let s = (a - self.heap_begin) / (ALIGN as int);
        &&& lo <= s < hi
        &&& self.slot_set(s)
        &&& a == self.heap_begin + s * (ALIGN as int)
    }

    /// The enumeration of marked slots is strictly ascending, and an
    /// address appears in it exactly when it is the address of a marked
    /// slot of the range.
    pub proof fn lemma_marked_addrs_exact(self, lo: int, hi: int)
        requires
            self.wf(),
            0 <= lo,
            hi <= self.num_slots(),
        ensures
            forall|i: int, j: int|
                0 <= i < j < self.marked_addrs(lo, hi).len() ==> #[trigger] self.marked_addrs(
                    lo,
                    hi,
                )[i] < #[trigger] self.marked_addrs(lo, hi)[j],
            forall|i: int|
                0 <= i < self.marked_addrs(lo, hi).len() ==> self.is_marked_addr_in(
                    #[trigger] self.marked_addrs(lo, hi)[i],
                    lo,
                    hi,
                ),
            forall|s: int|
                lo <= s < hi && #[trigger] self.slot_set(s) ==> self.marked_addrs(lo, hi).contains(
                    ((self.heap_begin + s * (ALIGN as int)) as usize),
                ),
            forall|i: int|
                0 <= i < self.marked_addrs(lo, hi).len() ==> #[trigger] self.marked_addrs(lo, hi)[i]
                    < self.heap_begin + hi * (ALIGN as int),
        decreases hi - lo,
    {
        if hi <= lo {
        } else {
            self.lemma_marked_addrs_exact(lo, hi - 1);
            let prev = self.marked_addrs(lo, hi - 1);
            let cur = self.marked_addrs(lo, hi);
            assert((hi - 1) * (ALIGN as int) < hi * (ALIGN as int) && (hi - 1) * (ALIGN as int)
                >= 0) by (nonlinear_arith)
                requires
                    ALIGN >= 1,
                    hi >= 1,
            ;
            assert(self.heap_begin + (hi - 1) * (ALIGN as int) <= usize::MAX) by (nonlinear_arith)
                requires
                    0 <= hi - 1,
                    hi <= self.words@.len() * 64int,
                    ALIGN >= 1,
                    self.heap_begin + self.words@.len() * (ALIGN as int) * 64 <= usize::MAX,
            ;
            if self.slot_set(hi - 1) {
                let x = ((self.heap_begin + (hi - 1) * (ALIGN as int)) as usize);
                assert(cur == prev.push(x));
                assert forall|s: int| lo <= s < hi && #[trigger] self.slot_set(s) implies cur
                    .contains(((self.heap_begin + s * (ALIGN as int)) as usize)) by {
                    let a = ((self.heap_begin + s * (ALIGN as int)) as usize);
                    if s < hi - 1 {
                        assert(prev.contains(a));
                        let i = choose|i: int| 0 <= i < prev.len() && prev[i] == a;
                        assert(cur[i] == a);
                    } else {
                        assert(cur[prev.len() as int] == x);
                    }
                }
            } else {
                assert(cur == prev);
            }
            assert forall|i: int| 0 <= i < cur.len() implies self.is_marked_addr_in(
                #[trigger] self.marked_addrs(lo, hi)[i],
                lo,
                hi,
            ) by {
                if i < prev.len() {
                    assert(cur[i] == prev[i]);
                    assert(self.is_marked_addr_in(prev[i], lo, hi - 1));
                } else {
                    let x2 = ((self.heap_begin + (hi - 1) * (ALIGN as int)) as usize);
                    assert(cur[i] == x2);
                    vstd::arithmetic::div_mod::lemma_div_by_multiple(hi - 1, ALIGN as int);
                    assert((x2 - self.heap_begin) / (ALIGN as int) == hi - 1);
                }
            }
        }
    }

    /// Enumerates, in ascending address order, every address in
    /// `[visit_begin, visit_end)` whose bit is set.  Each backing word
    /// is loaded once before its bits are walked.
    pub fn visit_marked_range(&self, visit_begin: usize, visit_end: usize) -> (r: Vec<usize>)
        requires
            self.wf(),
            self.heap_begin <= visit_begin <= visit_end,
            (visit_begin - self.heap_begin) % (ALIGN as int) == 0,
            (visit_end - self.heap_begin) % (ALIGN as int) == 0,
            self.slot_of(visit_end) <= self.num_slots(),
        ensures
            r@ == self.marked_addrs(self.slot_of(visit_begin), self.slot_of(visit_end)),
    {
        let lo = (visit_begin - self.heap_begin) / ALIGN;
        let hi = (visit_end - self.heap_begin) / ALIGN;
        proof {
            vstd::arithmetic::div_mod::lemma_div_is_ordered(
                (visit_begin - self.heap_begin) as int,
                (visit_end - self.heap_begin) as int,
                ALIGN as int,
            );
        }
        let mut out: Vec<usize> = Vec::new();
        let mut s = lo;
        while s < hi
            invariant
                self.wf(),
                lo <= s <= hi,
                lo as int == self.slot_of(visit_begin),
                hi as int == self.slot_of(visit_end),
                hi <= self.num_slots(),
                out@ == self.marked_addrs(lo as int, s as int),
            decreases hi - s,
        {
            let wi = s / WORD_BITS;
            proof {
                assert(wi < self.words@.len()) by (nonlinear_arith)
                    requires
                        wi == s as int / 64,
                        s < self.words@.len() * 64int,
                        s >= 0,
                ;
                assert((wi + 1) * 64int <= self.words@.len() * 64int && self.words@.len() * 64int
                    <= usize::MAX) by (nonlinear_arith)
                    requires
                        wi < self.words@.len(),
                        ALIGN >= 1,
                        self.heap_begin + self.words@.len() * (ALIGN as int) * 64 <= usize::MAX
                            as int,
                ;
            }
            let w = self.words[wi];
            let mut we = (wi + 1) * WORD_BITS;
            if we > hi {
                we = hi;
            }
            proof {
                lemma_fundamental_div_mod(s as int, 64);
            }
            while s < we
                invariant
                    self.wf(),
                    lo <= s <= we,
                    we <= hi,
                    hi <= self.num_slots(),
                    wi as int * 64 <= s as int,
                    we as int <= wi as int * 64 + 64,
                    wi < self.words@.len(),
                    w == self.words@[wi as int],
                    lo as int == self.slot_of(visit_begin),
                    hi as int == self.slot_of(visit_end),
                    out@ == self.marked_addrs(lo as int, s as int),
                decreases we - s,
            {
                proof {
                    vstd::arithmetic::div_mod::lemma_fundamental_div_mod_converse(
                        s as int,
                        64,
                        wi as int,
                        s as int - wi as int * 64,
                    );
                    assert(self.heap_begin + s as int * (ALIGN as int) <= usize::MAX)
                        by (nonlinear_arith)
                        requires
                            0 <= s,
                            s < self.words@.len() * 64int,
                            ALIGN >= 1,
                            self.heap_begin + self.words@.len() * (ALIGN as int) * 64
                                <= usize::MAX as int,
                    ;
                }
                if (w >> ((s % WORD_BITS) as u64)) & 1 == 1 {
                    let a = self.heap_begin + s * ALIGN;
                    out.push(a);
                }
                s += 1;
            }
        }
        out
    }

    /// The dead addresses of the slot range `[lo, hi)`, ascending: the
    /// addresses of slots live in `live` and not marked in `mark`.
    pub open spec fn dead_addrs(live: Self, mark: Self, lo: int, hi: int) -> Seq<usize>
        decreases hi - lo,
    {
        if hi <= lo {
            Seq::empty()
        } else {
            let prev = Self::dead_addrs(live, mark, lo, hi - 1);
            if live.slot_set(hi - 1) && !mark.slot_set(hi - 1) {
                prev.push(((live.heap_begin + (hi - 1) * (ALIGN as int)) as usize))
            } else {
                prev
            }
        }
    }

    /// What it means for `a` to stand in the dead enumeration of
    /// `[lo, hi)`: it is the address of a slot of the range that is
    /// live and not marked.
    pub open spec fn is_dead_addr_in(live: Self, mark: Self, a: usize, lo: int, hi: int) -> bool {
        let s = (a - live.heap_begin) / (ALIGN as int);
        &&& lo <= s < hi
        &&& live.slot_set(s)
        &&& !mark.slot_set(s)
        &&& a == live.heap_begin + s * (ALIGN as int)
    }

    /// The dead enumeration is strictly ascending and holds exactly the
    /// addresses of slots that are live and not marked.
    pub proof fn lemma_dead_addrs_exact(live: Self, mark: Self, lo: int, hi: int)
        requires
            live.wf(),
            0 <= lo,
            hi <= live.num_slots(),
        ensures
            forall|i: int, j: int|
                0 <= i < j < Self::dead_addrs(live, mark, lo, hi).len() ==> #[trigger] Self::dead_addrs(
                    live,
                    mark,
                    lo,
                    hi,
                )[i] < #[trigger] Self::dead_addrs(live, mark, lo, hi)[j],
            forall|i: int|
                0 <= i < Self::dead_addrs(live, mark, lo, hi).len() ==> Self::is_dead_addr_in(
                    live,
                    mark,
                    #[trigger] Self::dead_addrs(live, mark, lo, hi)[i],
                    lo,
                    hi,
                ),
            forall|t: int|
                lo <= t < hi && #[trigger] live.slot_set(t) && !mark.slot_set(t)
                    ==> Self::dead_addrs(live, mark, lo, hi).contains(
                    ((live.heap_begin + t * (ALIGN as int)) as usize),
                ),
            forall|i: int|
                0 <= i < Self::dead_addrs(live, mark, lo, hi).len() ==> #[trigger] Self::dead_addrs(
                    live,
                    mark,
                    lo,
                    hi,
                )[i] < live.heap_begin + hi * (ALIGN as int),
        decreases hi - lo,
    {
        if hi <= lo {
        } else {
            Self::lemma_dead_addrs_exact(live, mark, lo, hi - 1);
            let prev = Self::dead_addrs(live, mark, lo, hi - 1);
            let cur = Self::dead_addrs(live, mark, lo, hi);
            assert((hi - 1) * (ALIGN as int) < hi * (ALIGN as int) && (hi - 1) * (ALIGN as int)
                >= 0) by (nonlinear_arith)
                requires
                    ALIGN >= 1,
                    hi >= 1,
            ;
            assert(live.heap_begin + (hi - 1) * (ALIGN as int) <= usize::MAX) by (nonlinear_arith)
                requires
                    0 <= hi - 1,
                    hi <= live.words@.len() * 64int,
                    ALIGN >= 1,
                    live.heap_begin + live.words@.len() * (ALIGN as int) * 64 <= usize::MAX,
            ;
            if live.slot_set(hi - 1) && !mark.slot_set(hi - 1) {
                let x = ((live.heap_begin + (hi - 1) * (ALIGN as int)) as usize);
                assert(cur == prev.push(x));
                assert forall|t: int| lo <= t < hi && #[trigger] live.slot_set(t) && !mark.slot_set(
                    t,
                ) implies cur.contains(((live.heap_begin + t * (ALIGN as int)) as usize)) by {
                    let a = ((live.heap_begin + t * (ALIGN as int)) as usize);
                    if t < hi - 1 {
                        assert(prev.contains(a));
                        let i = choose|i: int| 0 <= i < prev.len() && prev[i] == a;
                        assert(cur[i] == a);
                    } else {
                        assert(cur[prev.len() as int] == x);
                    }
                }
            } else {
                assert(cur == prev);
            }
            assert forall|i: int| 0 <= i < cur.len() implies Self::is_dead_addr_in(
                live,
                mark,
                #[trigger] Self::dead_addrs(live, mark, lo, hi)[i],
                lo,
                hi,
            ) by {
                if i < prev.len() {
                    assert(cur[i] == prev[i]);
                    assert(Self::is_dead_addr_in(live, mark, prev[i], lo, hi - 1));
                } else {
                    let x2 = ((live.heap_begin + (hi - 1) * (ALIGN as int)) as usize);
                    assert(cur[i] == x2);
                    vstd::arithmetic::div_mod::lemma_div_by_multiple(hi - 1, ALIGN as int);
                    assert((x2 - live.heap_begin) / (ALIGN as int) == hi - 1);
                }
            }
        }
    }

    /// Enumerates, in ascending address order, every address in
    /// `[sweep_begin, sweep_end)` whose bit is set in `live_bitmap` and
    /// clear in `mark_bitmap`: the garbage a sweep reclaims.  An empty
    /// or reversed range reports nothing.
    pub fn sweep_walk(
        live_bitmap: &Self,
        mark_bitmap: &Self,
        sweep_begin: usize,
        sweep_end: usize,
    ) -> (r: Vec<usize>)
        requires
            live_bitmap.wf(),
            mark_bitmap.wf(),
            mark_bitmap.heap_begin == live_bitmap.heap_begin,
            mark_bitmap.words@.len() == live_bitmap.words@.len(),
            sweep_begin < sweep_end ==> {
                &&& live_bitmap.heap_begin <= sweep_begin
                &&& (sweep_begin - live_bitmap.heap_begin) % (ALIGN as int) == 0
                &&& (sweep_end - live_bitmap.heap_begin) % (ALIGN as int) == 0
                &&& live_bitmap.slot_of(sweep_end) <= live_bitmap.num_slots()
            },
        ensures
            sweep_end <= sweep_begin ==> r@ == Seq::<usize>::empty(),
            sweep_begin < sweep_end ==> r@ == Self::dead_addrs(
                *live_bitmap,
                *mark_bitmap,
                live_bitmap.slot_of(sweep_begin),
                live_bitmap.slot_of(sweep_end),
            ),
    {
        let mut out: Vec<usize> = Vec::new();
        if sweep_end <= sweep_begin {
            return out;
        }
        let lo = (sweep_begin - live_bitmap.heap_begin) / ALIGN;
        let hi = (sweep_end - live_bitmap.heap_begin) / ALIGN;
        proof {
            vstd::arithmetic::div_mod::lemma_div_is_ordered(
                (sweep_begin - live_bitmap.heap_begin) as int,
                (sweep_end - live_bitmap.heap_begin) as int,
                ALIGN as int,
            );
        }
        let mut s = lo;
        while s < hi
            invariant
                live_bitmap.wf(),
                mark_bitmap.heap_begin == live_bitmap.heap_begin,
                mark_bitmap.words@.len() == live_bitmap.words@.len(),
                lo <= s <= hi,
                lo as int == live_bitmap.slot_of(sweep_begin),
                hi as int == live_bitmap.slot_of(sweep_end),
                hi <= live_bitmap.num_slots(),
                out@ == Self::dead_addrs(*live_bitmap, *mark_bitmap, lo as int, s as int),
            decreases hi - s,
        {
            let wi = s / WORD_BITS;
            proof {
                assert(wi < live_bitmap.words@.len()) by (nonlinear_arith)
                    requires
                        wi == s as int / 64,
                        s < live_bitmap.words@.len() * 64int,
                        s >= 0,
                ;
                assert((wi + 1) * 64int <= live_bitmap.words@.len() * 64int && live_bitmap.words@.len()
                    * 64int <= usize::MAX) by (nonlinear_arith)
                    requires
                        wi < live_bitmap.words@.len(),
                        ALIGN >= 1,
                        live_bitmap.heap_begin + live_bitmap.words@.len() * (ALIGN as int) * 64
                            <= usize::MAX as int,
                ;
            }
            let lw = live_bitmap.words[wi];
            let mw = mark_bitmap.words[wi];
            let garbage = lw & !mw;
            let mut we = (wi + 1) * WORD_BITS;
            if we > hi {
                we = hi;
            }
            proof {
                lemma_fundamental_div_mod(s as int, 64);
            }
            while s < we
                invariant
                    live_bitmap.wf(),
                    mark_bitmap.heap_begin == live_bitmap.heap_begin,
                    mark_bitmap.words@.len() == live_bitmap.words@.len(),
                    lo <= s <= we,
                    we <= hi,
                    hi <= live_bitmap.num_slots(),
                    wi as int * 64 <= s as int,
                    we as int <= wi as int * 64 + 64,
                    wi < live_bitmap.words@.len(),
                    lw == live_bitmap.words@[wi as int],
                    mw == mark_bitmap.words@[wi as int],
                    garbage == lw & !mw,
                    lo as int == live_bitmap.slot_of(sweep_begin),
                    hi as int == live_bitmap.slot_of(sweep_end),
                    out@ == Self::dead_addrs(*live_bitmap, *mark_bitmap, lo as int, s as int),
                decreases we - s,
            {
                let bit = (s % WORD_BITS) as u64;
                proof {
                    vstd::arithmetic::div_mod::lemma_fundamental_div_mod_converse(
                        s as int,
                        64,
                        wi as int,
                        s as int - wi as int * 64,
                    );
                    crate::bits::lemma_and_not_bits(lw, mw, bit);
                    assert(live_bitmap.heap_begin + s as int * (ALIGN as int) <= usize::MAX)
                        by (nonlinear_arith)
                        requires
                            0 <= s,
                            s < live_bitmap.words@.len() * 64int,
                            ALIGN >= 1,
                            live_bitmap.heap_begin + live_bitmap.words@.len() * (ALIGN as int) * 64
                                <= usize::MAX as int,
                    ;
                }
                if (garbage >> bit) & 1 == 1 {
                    let a = live_bitmap.heap_begin + s * ALIGN;
                    out.push(a);
                }
                s += 1;
            }
        }
        out
    }

    /// The addresses of the slot range `[lo, hi)` that are live in
    /// `live` but whose header colour is not `from`, ascending: the
    /// objects a colour-transition sweep reports as garbage.
    pub open spec fn white_addrs(
        live: Self,
        headers: Seq<crate::api::HeapObjectHeader>,
        lo: int,
        hi: int,
        from: u8,
    ) -> Seq<usize>
        decreases hi - lo,
    {
        if hi <= lo {
            Seq::empty()
        } else {
            let prev = Self::white_addrs(live, headers, lo, hi - 1, from);
            if live.slot_set(hi - 1) && headers[hi - 1].spec_color() != from {
                prev.push(((live.heap_begin + (hi - 1) * (ALIGN as int)) as usize))
            } else {
                prev
            }
        }
    }

    /// What it means for `a` to stand in the white enumeration of
    /// `[lo, hi)`: it is the address of a live slot whose header colour
    /// differs from `from`.
    pub open spec fn is_white_addr_in(
        live: Self,
        headers: Seq<crate::api::HeapObjectHeader>,
        a: usize,
        lo: int,
        hi: int,
        from: u8,
    ) -> bool {
        let s = (a - live.heap_begin) / (ALIGN as int);
        &&& lo <= s < hi
        &&& live.slot_set(s)
        &&& headers[s].spec_color() != from
        &&& a == live.heap_begin + s * (ALIGN as int)
    }

    /// The white enumeration is strictly ascending and holds exactly
    /// the addresses of live slots whose colour was not `from`.
    pub proof fn lemma_white_addrs_exact(
        live: Self,
        headers: Seq<crate::api::HeapObjectHeader>,
        lo: int,
        hi: int,
        from: u8,
    )
        requires
            live.wf(),
            0 <= lo,
            hi <= live.num_slots(),
        ensures
            forall|i: int, j: int|
                0 <= i < j < Self::white_addrs(live, headers, lo, hi, from).len()
                    ==> #[trigger] Self::white_addrs(live, headers, lo, hi, from)[i]
                    < #[trigger] Self::white_addrs(live, headers, lo, hi, from)[j],
            forall|i: int|
                0 <= i < Self::white_addrs(live, headers, lo, hi, from).len()
                    ==> Self::is_white_addr_in(
                    live,
                    headers,
                    #[trigger] Self::white_addrs(live, headers, lo, hi, from)[i],
                    lo,
                    hi,
                    from,
                ),
            forall|t: int|
                lo <= t < hi && #[trigger] live.slot_set(t) && headers[t].spec_color() != from
                    ==> Self::white_addrs(live, headers, lo, hi, from).contains(
                    ((live.heap_begin + t * (ALIGN as int)) as usize),
                ),
            forall|i: int|
                0 <= i < Self::white_addrs(live, headers, lo, hi, from).len()
                    ==> #[trigger] Self::white_addrs(live, headers, lo, hi, from)[i]
                    < live.heap_begin + hi * (ALIGN as int),
        decreases hi - lo,
    {
        if hi <= lo {
        } else {
            Self::lemma_white_addrs_exact(live, headers, lo, hi - 1, from);
            let prev = Self::white_addrs(live, headers, lo, hi - 1, from);
            let cur = Self::white_addrs(live, headers, lo, hi, from);
            assert((hi - 1) * (ALIGN as int) < hi * (ALIGN as int) && (hi - 1) * (ALIGN as int)
                >= 0) by (nonlinear_arith)
                requires
                    ALIGN >= 1,
                    hi >= 1,
            ;
            assert(live.heap_begin + (hi - 1) * (ALIGN as int) <= usize::MAX) by (nonlinear_arith)
                requires
                    0 <= hi - 1,
                    hi <= live.words@.len() * 64int,
                    ALIGN >= 1,
                    live.heap_begin + live.words@.len() * (ALIGN as int) * 64 <= usize::MAX,
            ;
            if live.slot_set(hi - 1) && headers[hi - 1].spec_color() != from {
                let x = ((live.heap_begin + (hi - 1) * (ALIGN as int)) as usize);
                assert(cur == prev.push(x));
                assert forall|t: int| lo <= t < hi && #[trigger] live.slot_set(t) && headers[t]
                    .spec_color() != from implies cur.contains(
                    ((live.heap_begin + t * (ALIGN as int)) as usize),
                ) by {
                    let a = ((live.heap_begin + t * (ALIGN as int)) as usize);
                    if t < hi - 1 {
                        assert(prev.contains(a));
                        let i = choose|i: int| 0 <= i < prev.len() && prev[i] == a;
                        assert(cur[i] == a);
                    } else {
                        assert(cur[prev.len() as int] == x);
                    }
                }
            } else {
                assert(cur == prev);
            }
            assert forall|i: int| 0 <= i < cur.len() implies Self::is_white_addr_in(
                live,
                headers,
                #[trigger] Self::white_addrs(live, headers, lo, hi, from)[i],
                lo,
                hi,
                from,
            ) by {
                if i < prev.len() {
                    assert(cur[i] == prev[i]);
                    assert(Self::is_white_addr_in(live, headers, prev[i], lo, hi - 1, from));
                } else {
                    let x2 = ((live.heap_begin + (hi - 1) * (ALIGN as int)) as usize);
                    assert(cur[i] == x2);
                    vstd::arithmetic::div_mod::lemma_div_by_multiple(hi - 1, ALIGN as int);
                    assert((x2 - live.heap_begin) / (ALIGN as int) == hi - 1);
                }
            }
        }
    }

    /// Sweeps `[sweep_begin, sweep_end)` using each object's colour
    /// transition as the liveness predicate.  `headers` holds one header
    /// per slot.  Every live object whose colour is `from` is atomically
    /// recoloured to `to`; every live object whose colour differs from
    /// `from` stayed white and its address is reported, in ascending
    /// order.  An empty or reversed range reports nothing and changes
    /// nothing.
    pub fn sweep_walk_color(
        live_bitmap: &Self,
        headers: &mut Vec<crate::api::HeapObjectHeader>,
        sweep_begin: usize,
        sweep_end: usize,
        from_color: u8,
        to_color: u8,
    ) -> (r: Vec<usize>)
        requires
            live_bitmap.wf(),
            from_color < 4,
            to_color < 4,
            sweep_begin < sweep_end ==> {
                &&& live_bitmap.heap_begin <= sweep_begin
                &&& (sweep_begin - live_bitmap.heap_begin) % (ALIGN as int) == 0
                &&& (sweep_end - live_bitmap.heap_begin) % (ALIGN as int) == 0
                &&& live_bitmap.slot_of(sweep_end) <= live_bitmap.num_slots()
                &&& live_bitmap.slot_of(sweep_end) <= old(headers)@.len()
            },
        ensures
            final(headers)@.len() == old(headers)@.len(),
            sweep_end <= sweep_begin ==> r@ == Seq::<usize>::empty() && final(headers)@ == old(
                headers,
            )@,
            sweep_begin < sweep_end ==> {
                &&& r@ == Self::white_addrs(
                    *live_bitmap,
                    old(headers)@,
                    live_bitmap.slot_of(sweep_begin),
                    live_bitmap.slot_of(sweep_end),
                    from_color,
                )
                &&& forall|t: int|
                    0 <= t < old(headers)@.len() ==> #[trigger] final(headers)@[t] == (if
                    live_bitmap.slot_of(sweep_begin) <= t < live_bitmap.slot_of(sweep_end)
                        && live_bitmap.slot_set(t) && old(headers)@[t].spec_color() == from_color {
                        old(headers)@[t].spec_with_color(to_color)
                    } else {
                        old(headers)@[t]
                    })
            },
    {
        let mut out: Vec<usize> = Vec::new();
        if sweep_end <= sweep_begin {
            return out;
        }
        let lo = (sweep_begin - live_bitmap.heap_begin) / ALIGN;
        let hi = (sweep_end - live_bitmap.heap_begin) / ALIGN;
        proof {
            vstd::arithmetic::div_mod::lemma_div_is_ordered(
                (sweep_begin - live_bitmap.heap_begin) as int,
                (sweep_end - live_bitmap.heap_begin) as int,
                ALIGN as int,
            );
        }
        let mut s = lo;
        while s < hi
            invariant
                live_bitmap.wf(),
                from_color < 4,
                to_color < 4,
                lo <= s <= hi,
                lo as int == live_bitmap.slot_of(sweep_begin),
                hi as int == live_bitmap.slot_of(sweep_end),
                hi <= live_bitmap.num_slots(),
                hi <= headers@.len(),
                headers@.len() == old(headers)@.len(),
                out@ == Self::white_addrs(
                    *live_bitmap,
                    old(headers)@,
                    lo as int,
                    s as int,
                    from_color,
                ),
                forall|t: int|
                    0 <= t < old(headers)@.len() ==> #[trigger] headers@[t] == (if lo <= t < s
                        && live_bitmap.slot_set(t) && old(headers)@[t].spec_color() == from_color {
                        old(headers)@[t].spec_with_color(to_color)
                    } else {
                        old(headers)@[t]
                    }),
            decreases hi - s,
        {
            let wi = s / WORD_BITS;
            proof {
                assert(wi < live_bitmap.words@.len()) by (nonlinear_arith)
                    requires
                        wi == s as int / 64,
                        s < live_bitmap.words@.len() * 64int,
                        s >= 0,
                ;
                assert((wi + 1) * 64int <= live_bitmap.words@.len() * 64int && live_bitmap.words@.len()
                    * 64int <= usize::MAX) by (nonlinear_arith)
                    requires
                        wi < live_bitmap.words@.len(),
                        ALIGN >= 1,
                        live_bitmap.heap_begin + live_bitmap.words@.len() * (ALIGN as int) * 64
                            <= usize::MAX as int,
                ;
            }
            let garbage = live_bitmap.words[wi];
            let mut we = (wi + 1) * WORD_BITS;
            if we > hi {
                we = hi;
            }
            proof {
                lemma_fundamental_div_mod(s as int, 64);
            }
            while s < we
                invariant
                    live_bitmap.wf(),
                    from_color < 4,
                    to_color < 4,
                    lo <= s <= we,
                    we <= hi,
                    hi <= live_bitmap.num_slots(),
                    hi <= headers@.len(),
                    headers@.len() == old(headers)@.len(),
                    wi as int * 64 <= s as int,
                    we as int <= wi as int * 64 + 64,
                    wi < live_bitmap.words@.len(),
                    garbage == live_bitmap.words@[wi as int],
                    lo as int == live_bitmap.slot_of(sweep_begin),
                    hi as int == live_bitmap.slot_of(sweep_end),
                    out@ == Self::white_addrs(
                        *live_bitmap,
                        old(headers)@,
                        lo as int,
                        s as int,
                        from_color,
                    ),
                    forall|t: int|
                        0 <= t < old(headers)@.len() ==> #[trigger] headers@[t] == (if lo <= t < s
                            && live_bitmap.slot_set(t) && old(headers)@[t].spec_color()
                            == from_color {
                            old(headers)@[t].spec_with_color(to_color)
                        } else {
                            old(headers)@[t]
                        }),
                decreases we - s,
            {
                let bit = (s % WORD_BITS) as u64;
                proof {
                    vstd::arithmetic::div_mod::lemma_fundamental_div_mod_converse(
                        s as int,
                        64,
                        wi as int,
                        s as int - wi as int * 64,
                    );
                    assert(live_bitmap.heap_begin + s as int * (ALIGN as int) <= usize::MAX)
                        by (nonlinear_arith)
                        requires
                            0 <= s,
                            s < live_bitmap.words@.len() * 64int,
                            ALIGN >= 1,
                            live_bitmap.heap_begin + live_bitmap.words@.len() * (ALIGN as int) * 64
                                <= usize::MAX as int,
                    ;
                }
                if (garbage >> bit) & 1 == 1 {
                    let mut h = headers[s];
                    let failed = h.set_color(from_color, to_color);
                    headers[s] = h;
                    if failed {
                        let a = live_bitmap.heap_begin + s * ALIGN;
                        out.push(a);
                    }
                }
                s += 1;
            }
        }
        out
    }

    /// The nearest set slot at or before `s`, or -1 when every slot up
    /// to `s` is clear.
    pub open spec fn prev_set_slot(self, s: int) -> int
        decreases s + 1,
    {
        if s < 0 {
            -1
        } else if self.slot_set(s) {
            s
        } else {
            self.prev_set_slot(s - 1)
        }
    }

    /// `prev_set_slot(s)` is the greatest set slot at or before `s`,
    /// provided one exists.
    pub proof fn lemma_prev_set_slot_greatest(self, s: int)
        requires
            0 <= s,
            exists|h: int| 0 <= h <= s && #[trigger] self.slot_set(h),
        ensures
            0 <= self.prev_set_slot(s) <= s,
            self.slot_set(self.prev_set_slot(s)),
            forall|t: int| self.prev_set_slot(s) < t <= s ==> !(#[trigger] self.slot_set(t)),
        decreases s,
    {
        if self.slot_set(s) {
        } else {
            let h = choose|h: int| 0 <= h <= s && #[trigger] self.slot_set(h);
            assert(h < s);
            self.lemma_prev_set_slot_greatest(s - 1);
        }
    }

    /// A slot that is set and has no set slot above it up to `s` is
    /// `prev_set_slot(s)`.
    proof fn lemma_prev_set_slot_pins(self, s: int, h: int)
        requires
            0 <= h <= s,
            self.slot_set(h),
            forall|t: int| h < t <= s ==> !(#[trigger] self.slot_set(t)),
        ensures
            self.prev_set_slot(s) == h,
        decreases s,
    {
        if s == h {
        } else {
            self.lemma_prev_set_slot_pins(s - 1, h);
        }
    }

    /// Recovers the header covering an interior pointer: the address of
    /// the nearest slot at or before `addr` whose bit is set.  A set bit
    /// must exist at or before `addr`; the bitmap is scanned backward a
    /// word at a time.
    pub fn find_header(&self, address_maybe_pointing_to_the_middle_of_object: usize) -> (r: usize)
        requires
            self.wf(),
            self.spec_has_address(address_maybe_pointing_to_the_middle_of_object),
            exists|h: int|
                0 <= h <= self.slot_of(address_maybe_pointing_to_the_middle_of_object)
                    && #[trigger] self.slot_set(h),
        ensures
            r == self.heap_begin + self.prev_set_slot(
                self.slot_of(address_maybe_pointing_to_the_middle_of_object),
            ) * (ALIGN as int),
    {
        let addr = address_maybe_pointing_to_the_middle_of_object;
        let offset = addr - self.heap_begin;
        let slot = offset / ALIGN;
        let mut ci = slot / WORD_BITS;
        let bit = (slot % WORD_BITS) as u64;
        let ghost slot_i = slot as int;
        proof {
            assert(ci < self.words@.len()) by (nonlinear_arith)
                requires
                    ci == slot as int / 64,
                    slot < self.words@.len() * 64int,
                    slot >= 0,
            ;
            lemma_fundamental_div_mod(slot as int, 64);
        }
        let mut word = self.words[ci];
        if bit < 63 {
            proof {
                assert((1u64 << ((bit + 1) as u64)) >= 1) by (bit_vector)
                    requires
                        bit < 63,
                ;
            }
            word = word & ((1u64 << (bit + 1)) - 1);
            proof {
                assert forall|j: u64| j < 64 implies nth_bit(word, j) == (ci as int * 64 + j
                    <= slot_i && self.slot_set(ci as int * 64 + j)) by {
                    crate::bits::lemma_low_mask_le(self.words@[ci as int], bit, j);
                    vstd::arithmetic::div_mod::lemma_fundamental_div_mod_converse(
                        ci as int * 64 + j,
                        64,
                        ci as int,
                        j as int,
                    );
                }
            }
        } else {
            proof {
                assert forall|j: u64| j < 64 implies nth_bit(word, j) == (ci as int * 64 + j
                    <= slot_i && self.slot_set(ci as int * 64 + j)) by {
                    vstd::arithmetic::div_mod::lemma_fundamental_div_mod_converse(
                        ci as int * 64 + j,
                        64,
                        ci as int,
                        j as int,
                    );
                }
            }
        }
        while word == 0 && ci != 0
            invariant
                self.wf(),
                ci <= slot_i / 64,
                ci < self.words@.len(),
                slot_i == slot as int,
                0 <= slot_i < self.num_slots(),
                forall|t: int|
                    ci as int * 64 + 64 <= t <= slot_i ==> !(#[trigger] self.slot_set(t)),
                forall|j: u64|
                    j < 64 ==> #[trigger] nth_bit(word, j) == (ci as int * 64 + j <= slot_i
                        && self.slot_set(ci as int * 64 + j)),
            decreases ci,
        {
            proof {
                assert forall|t: int| ci as int * 64 <= t <= slot_i implies !(#[trigger] self
                    .slot_set(t)) by {
                    if t < ci as int * 64 + 64 {
                        let j = t - ci as int * 64;
                        crate::bits::lemma_zero_word(j as u64);
                        assert(!nth_bit(word, j as u64));
                    }
                }
            }
            ci -= 1;
            word = self.words[ci];
            proof {
                assert forall|j: u64| j < 64 implies nth_bit(word, j) == (ci as int * 64 + j
                    <= slot_i && self.slot_set(ci as int * 64 + j)) by {
                    vstd::arithmetic::div_mod::lemma_fundamental_div_mod_converse(
                        ci as int * 64 + j,
                        64,
                        ci as int,
                        j as int,
                    );
                }
            }
        }
        if word == 0 {
            proof {
                let h = choose|h: int| 0 <= h <= slot_i && #[trigger] self.slot_set(h);
                if h < ci as int * 64 + 64 {
                    crate::bits::lemma_zero_word((h - ci as int * 64) as u64);
                }
                assert(false);
            }
            return 0;
        }
        let mut j: u64 = 63;
        while j > 0 && (word >> j) & 1 != 1
            invariant
                self.wf(),
                j <= 63,
                j == 63 || word >> ((j + 1) as u64) == 0,
                word != 0,
                slot_i == slot as int,
                0 <= slot_i < self.num_slots(),
                ci < self.words@.len(),
                forall|t: int|
                    ci as int * 64 + 64 <= t <= slot_i ==> !(#[trigger] self.slot_set(t)),
                forall|jj: u64|
                    jj < 64 ==> #[trigger] nth_bit(word, jj) == (ci as int * 64 + jj <= slot_i
                        && self.slot_set(ci as int * 64 + jj)),
            decreases j,
        {
            proof {
                crate::bits::lemma_high_clear_step(word, j);
            }
            j -= 1;
        }
        proof {
            if (word >> j) & 1 != 1 {
                crate::bits::lemma_high_clear_step(word, j);
                crate::bits::lemma_bit_basics();
                assert(word == 0);
            }
        }
        let ghost h = ci as int * 64 + j;
        proof {
            assert(nth_bit(word, j));
            assert(self.slot_set(h) && h <= slot_i);
            assert forall|t: int| h < t <= slot_i implies !(#[trigger] self.slot_set(t)) by {
                if t < ci as int * 64 + 64 {
                    let k = (t - ci as int * 64) as u64;
                    if j < 63 {
                        crate::bits::lemma_shifted_zero_bits(word, j, k);
                    }
                    assert(!nth_bit(word, k));
                }
            }
            self.lemma_prev_set_slot_pins(slot_i, h);
            assert(j * (ALIGN as int) >= 0 && ci as int * 64 * (ALIGN as int) >= 0)
                by (nonlinear_arith)
                requires
                    ALIGN >= 1,
                    j >= 0,
                    ci >= 0,
            ;
            lemma_mul_inequality(h, slot_i, ALIGN as int);
            lemma_fundamental_div_mod(offset as int, ALIGN as int);
            assert((ALIGN as int) * (offset as int / (ALIGN as int)) <= offset);
            assert(slot_i * (ALIGN as int) == (ALIGN as int) * slot_i) by (nonlinear_arith);
        }
        let wb = ci * WORD_BITS;
        self.heap_begin + (wb + (j as usize)) * ALIGN
    }

    /// A set bit is read back as set; clearing it afterwards reads
    /// clear.  Stated over the point-mutation relation that `set` and
    /// `clear` establish.
    pub proof fn lemma_set_clear_test(pre: Self, mid: Self, post: Self, addr: usize)
        requires
            pre.wf(),
            pre.spec_has_address(addr),
            Self::set_transition(pre, mid, addr, true),
            Self::set_transition(mid, post, addr, false),
        ensures
            mid.spec_test(addr),
            !post.spec_test(addr),
    {
        assert(mid.slot_of(addr) == pre.slot_of(addr));
        assert(mid.spec_has_address(addr));
    }
}

} // verus!
