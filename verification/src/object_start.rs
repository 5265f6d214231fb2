//! The object-start table: a byte-granularity bitmap recording which
//! `MIN_ALLOCATION`-sized slot holds an object header, used to resolve
//! interior pointers back to their header.  Each byte cell covers
//! `BITS_PER_CELL` slots.

use vstd::prelude::*;

use crate::api::MIN_ALLOCATION;
use crate::bits::lemma_andnot_bit8;
use crate::bits::lemma_mask_test8;
use crate::bits::lemma_or_bit8;
use crate::bits::nth_bit8;

verus! {

use vstd::arithmetic::div_mod::lemma_fundamental_div_mod;
use vstd::arithmetic::div_mod::lemma_fundamental_div_mod_converse;
use vstd::arithmetic::mul::lemma_mul_inequality;

/// Slots recorded per byte cell.
pub const BITS_PER_CELL: usize = 8;

/// Mask selecting the bit of a slot within its cell.
pub const CELL_MASK: usize = 7;

/// Relies on `memx::memset`: fills the whole byte buffer with one
/// value, as `buf.fill(c)` would.
#[verifier::external_body]
fn fill_cells(cells: &mut Vec<u8>, c: u8)
    ensures
        final(cells)@.len() == old(cells)@.len(),
        forall|i: int| 0 <= i < final(cells)@.len() ==> final(cells)@[i] == c,
{
    memx::memset(cells.as_mut_slice(), c);
}

/// A byte-granularity bitmap over the heap starting at `offset`, one
/// bit per `MIN_ALLOCATION`-sized slot.
pub struct ObjectStartBitmap {
    pub cells: Vec<u8>,
    pub offset: usize,
}

impl ObjectStartBitmap {
    /// Well-formedness: every covered slot address fits the address
    /// space.
    pub open spec fn wf(self) -> bool {
        self.offset + self.cells@.len() * 8 * 16 <= usize::MAX
    }

    /// The number of slots the table covers.
    pub open spec fn num_slots(self) -> int {
        self.cells@.len() * 8int
    }

    /// The slot holding `addr`.
    pub open spec fn slot_of(self, addr: usize) -> int {
        (addr - self.offset) / 16
    }

    /// The bit of slot `s`.
    pub open spec fn slot_set(self, s: int) -> bool {
        nth_bit8(self.cells@[s / 8], (s % 8) as u8)
    }

    /// Whether the table covers `addr`.
    pub open spec fn spec_covers(self, addr: usize) -> bool {
        self.offset <= addr && self.slot_of(addr) < self.num_slots()
    }

    /// The bit `check_bit` reads for `addr`.
    pub open spec fn spec_check(self, addr: usize) -> bool {
        self.slot_set(self.slot_of(addr))
    }

    /// How a point mutation of the bit for `addr` relates the table
    /// before and after.
    pub open spec fn set_transition(pre: Self, post: Self, addr: usize, v: bool) -> bool {
        &&& post.offset == pre.offset
        &&& post.cells@.len() == pre.cells@.len()
        &&& forall|s: int|
            0 <= s < pre.num_slots() ==> #[trigger] post.slot_set(s) == (if s == pre.slot_of(addr) {
                v
            } else {
                pre.slot_set(s)
            })
    }

    /// A table covering nothing.
    pub fn empty() -> (r: Self)
        ensures
            r.cells@.len() == 0,
            r.offset == 0,
            r.wf(),
    {
        ObjectStartBitmap { cells: Vec::new(), offset: 0 }
    }

    /// The bytes of table needed for `heap_size` bytes of heap: one bit
    /// per `MIN_ALLOCATION` granule, eight to the cell, so one cell per
    /// 128 heap bytes, rounded up; the extra page allows addressing one
    /// page past the nominal end.
    pub fn allocation_size(heap_size: usize) -> (r: usize)
        requires
            heap_size + 4096 + 127 <= usize::MAX,
        ensures
            r == (heap_size + 4096 + 127) as int / 128,
            r * 128 >= heap_size + 4096,
    {
        proof {
            let s = (heap_size + 4096 + 127) as int;
            let q = s / 128;
            lemma_fundamental_div_mod(s, 128);
            assert(q * 128 == 128 * q) by (nonlinear_arith);
        }
        (heap_size + 4096 + 127) / 128
    }

    /// Allocates a zeroed table covering `size` heap bytes starting at
    /// `heap_begin`.
    pub fn new(heap_begin: usize, size: usize) -> (r: Self)
        requires
            size + 4096 + 127 <= usize::MAX,
            heap_begin + ((size + 4096 + 127) as int / 128) * 8 * 16 <= usize::MAX,
        ensures
            r.wf(),
            r.offset == heap_begin,
            r.cells@.len() == (size + 4096 + 127) as int / 128,
            forall|s: int| 0 <= s < r.num_slots() ==> !(#[trigger] r.slot_set(s)),
    {
        let n = Self::allocation_size(size);
        let mut cells: Vec<u8> = Vec::new();
        let mut i: usize = 0;
        while i < n
            invariant
                cells@.len() == i,
                i <= n,
                forall|k: int| 0 <= k < i ==> cells@[k] == 0u8,
            decreases n - i,
        {
            cells.push(0u8);
            i += 1;
        }
        let r = ObjectStartBitmap { cells, offset: heap_begin };
        proof {
            assert forall|s: int| 0 <= s < r.num_slots() implies !(#[trigger] r.slot_set(s)) by {
                assert(0 <= s / 8 < n) by (nonlinear_arith)
                    requires
                        0 <= s < n as int * 8,
                ;
                crate::bits::lemma_zero_byte((s % 8) as u8);
            }
        }
        r
    }

    /// Reads the cell at `index`.
    pub fn load(&self, index: usize) -> (r: u8)
        requires
            index < self.cells@.len(),
        ensures
            r == self.cells@[index as int],
    {
        self.cells[index]
    }

    /// Writes the cell at `index`.
    pub fn store(&mut self, index: usize, bit: u8)
        requires
            index < old(self).cells@.len(),
        ensures
            final(self).cells@ == old(self).cells@.update(index as int, bit),
            final(self).offset == old(self).offset,
    {
        self.cells[index] = bit;
    }

    /// Splits `addr` into the index of its cell and the bit within it.
    fn object_start_index_and_bit(&self, addr: usize, cell_index: &mut usize, bit: &mut usize)
        requires
            self.offset <= addr,
        ensures
            *final(cell_index) == self.slot_of(addr) / 8,
            *final(bit) == self.slot_of(addr) % 8,
    {
        let object_offset = addr - self.offset;
        let object_start_number = object_offset / MIN_ALLOCATION;
        *cell_index = object_start_number / BITS_PER_CELL;
        *bit = object_start_number & CELL_MASK;
        proof {
            assert(object_start_number & 7 == object_start_number % 8) by (bit_vector);
        }
    }

    /// After a point update of cell `index` at bit `bit`, every slot
    /// except `slot` keeps its value and `slot` holds `v`.
    proof fn lemma_point_update(pre: Self, post: Self, slot: int, index: int, bit: u8, v: bool)
        requires
            0 <= slot < pre.num_slots(),
            index == slot / 8,
            bit == (slot % 8) as u8,
            post.cells@.len() == pre.cells@.len(),
            forall|k: int| 0 <= k < pre.cells@.len() && k != index ==> post.cells@[k]
                == pre.cells@[k],
            post.cells@[index] == if v {
                pre.cells@[index] | (1u8 << bit)
            } else {
                pre.cells@[index] & !(1u8 << bit)
            },
        ensures
            forall|s: int|
                0 <= s < pre.num_slots() ==> #[trigger] post.slot_set(s) == (if s == slot {
                    v
                } else {
                    pre.slot_set(s)
                }),
    {
        assert forall|s: int| 0 <= s < pre.num_slots() implies #[trigger] post.slot_set(s) == (if s
            == slot {
            v
        } else {
            pre.slot_set(s)
        }) by {
            assert(0 <= s / 8 < pre.cells@.len()) by (nonlinear_arith)
                requires
                    0 <= s < pre.cells@.len() * 8int,
            ;
            if s / 8 == index {
                let j = (s % 8) as u8;
                if v {
                    lemma_or_bit8(pre.cells@[index], bit, j);
                } else {
                    lemma_andnot_bit8(pre.cells@[index], bit, j);
                }
                assert(s == index * 8 + (s % 8));
                assert(slot == index * 8 + (bit as int));
            }
        }
    }

    /// Records that an object header sits at `addr`.
    pub fn set_bit(&mut self, addr: usize)
        requires
            old(self).wf(),
            old(self).spec_covers(addr),
        ensures
            final(self).wf(),
            Self::set_transition(*old(self), *final(self), addr, true),
            final(self).spec_check(addr),
    {
        let mut cell_index: usize = 0;
        let mut object_bit: usize = 0;
        self.object_start_index_and_bit(addr, &mut cell_index, &mut object_bit);
        let ghost slot = self.slot_of(addr);
        proof {
            assert(cell_index < self.cells@.len()) by (nonlinear_arith)
                requires
                    cell_index == slot / 8,
                    0 <= slot < self.cells@.len() * 8int,
            ;
        }
        let ghost pre = *self;
        let w = self.load(cell_index);
        self.store(cell_index, w | (1u8 << (object_bit as u8)));
        proof {
            Self::lemma_point_update(pre, *self, slot, cell_index as int, object_bit as u8, true);
            lemma_or_bit8(w, object_bit as u8, object_bit as u8);
        }
    }

    /// Erases the record of an object header at `addr`.
    pub fn clear_bit(&mut self, addr: usize)
        requires
            old(self).wf(),
            old(self).spec_covers(addr),
        ensures
            final(self).wf(),
            Self::set_transition(*old(self), *final(self), addr, false),
            !final(self).spec_check(addr),
    {
        let mut cell_index: usize = 0;
        let mut object_bit: usize = 0;
        self.object_start_index_and_bit(addr, &mut cell_index, &mut object_bit);
        let ghost slot = self.slot_of(addr);
        proof {
            assert(cell_index < self.cells@.len()) by (nonlinear_arith)
                requires
                    cell_index == slot / 8,
                    0 <= slot < self.cells@.len() * 8int,
            ;
        }
        let ghost pre = *self;
        let w = self.load(cell_index);
        self.store(cell_index, w & !(1u8 << (object_bit as u8)));
        proof {
            Self::lemma_point_update(pre, *self, slot, cell_index as int, object_bit as u8, false);
            lemma_andnot_bit8(w, object_bit as u8, object_bit as u8);
        }
    }

    /// Whether an object header is recorded at `addr`.
    pub fn check_bit(&self, addr: usize) -> (r: bool)
        requires
            self.wf(),
            self.spec_covers(addr),
        ensures
            r == self.spec_check(addr),
    {
        let mut cell_index: usize = 0;
        let mut object_bit: usize = 0;
        self.object_start_index_and_bit(addr, &mut cell_index, &mut object_bit);
        let ghost slot = self.slot_of(addr);
        proof {
            assert(cell_index < self.cells@.len()) by (nonlinear_arith)
                requires
                    cell_index == slot / 8,
                    0 <= slot < self.cells@.len() * 8int,
            ;
            lemma_mask_test8(self.cells@[cell_index as int], object_bit as u8);
        }
        (self.load(cell_index) & (1u8 << (object_bit as u8))) != 0
    }

    /// The nearest recorded header slot at or before `s`, or -1 when
    /// every slot up to `s` is clear.
    pub open spec fn prev_set_slot(self, s: int) -> int
        decreases s + 1,
    {
        if s < 0 {
            -1
        } else if self.slot_set(s) {
            s
        } else {
            self.prev_set_slot(s - 1)
        }
    }

    /// `prev_set_slot(s)` is the greatest recorded slot at or before
    /// `s`, provided one exists.
    pub proof fn lemma_prev_set_slot_greatest(self, s: int)
        requires
            0 <= s,
            exists|h: int| 0 <= h <= s && #[trigger] self.slot_set(h),
        ensures
            0 <= self.prev_set_slot(s) <= s,
            self.slot_set(self.prev_set_slot(s)),
            forall|t: int| self.prev_set_slot(s) < t <= s ==> !(#[trigger] self.slot_set(t)),
        decreases s,
    {
        if self.slot_set(s) {
        } else {
            let h = choose|h: int| 0 <= h <= s && #[trigger] self.slot_set(h);
            assert(h < s);
            self.lemma_prev_set_slot_greatest(s - 1);
        }
    }

    /// A slot that is recorded and has no recorded slot above it up to
    /// `s` is `prev_set_slot(s)`.
    proof fn lemma_prev_set_slot_pins(self, s: int, h: int)
        requires
            0 <= h <= s,
            self.slot_set(h),
            forall|t: int| h < t <= s ==> !(#[trigger] self.slot_set(t)),
        ensures
            self.prev_set_slot(s) == h,
        decreases s,
    {
        if s == h {
        } else {
            self.lemma_prev_set_slot_pins(s - 1, h);
        }
    }

    /// Recovers the header covering an interior pointer: the address of
    /// the nearest slot at or before `addr_in_middle` whose start bit is
    /// set.  A recorded header must exist at or before the address; the
    /// table is scanned backward a cell at a time.
    pub fn find_header(&self, addr_in_middle: usize) -> (r: usize)
        requires
            self.wf(),
            self.spec_covers(addr_in_middle),
        exists|h: int|
                0 <= h <= self.slot_of(addr_in_middle) && #[trigger] self.slot_set(h),
        ensures
            r == self.offset + self.prev_set_slot(self.slot_of(addr_in_middle)) * 16,
    {
        let object_offset = addr_in_middle - self.offset;
        let object_start_number = object_offset / MIN_ALLOCATION;
        let mut cell_index = object_start_number / BITS_PER_CELL;
        let bit = (object_start_number & CELL_MASK) as u8;
        let ghost slot_i = object_start_number as int;
        proof {
            assert(object_start_number & 7 == object_start_number % 8) by (bit_vector);
            assert(cell_index < self.cells@.len()) by (nonlinear_arith)
                requires
                    cell_index == slot_i / 8,
                    slot_i < self.cells@.len() * 8int,
                    slot_i >= 0,
            ;
            lemma_fundamental_div_mod(slot_i, 8);
        }
        let mut byte = self.load(cell_index);
        if bit < 7 {
            proof {
                assert((1u8 << ((bit + 1) as u8)) >= 1) by (bit_vector)
                    requires
                        bit < 7,
                ;
            }
            byte = byte & ((1u8 << (bit + 1)) - 1);
            proof {
                assert forall|j: u8| j < 8 implies nth_bit8(byte, j) == (cell_index as int * 8 + j
                    <= slot_i && self.slot_set(cell_index as int * 8 + j)) by {
                    crate::bits::lemma_low_mask_le8(self.cells@[cell_index as int], bit, j);
                    lemma_fundamental_div_mod_converse(
                        cell_index as int * 8 + j,
                        8,
                        cell_index as int,
                        j as int,
                    );
                }
            }
        } else {
            proof {
                assert forall|j: u8| j < 8 implies nth_bit8(byte, j) == (cell_index as int * 8 + j
                    <= slot_i && self.slot_set(cell_index as int * 8 + j)) by {
                    lemma_fundamental_div_mod_converse(
                        cell_index as int * 8 + j,
                        8,
                        cell_index as int,
                        j as int,
                    );
                }
            }
        }
        while byte == 0 && cell_index != 0
            invariant
                self.wf(),
                cell_index as int <= slot_i / 8,
                cell_index < self.cells@.len(),
                slot_i == self.slot_of(addr_in_middle),
                0 <= slot_i < self.num_slots(),
                forall|t: int|
                    cell_index as int * 8 + 8 <= t <= slot_i ==> !(#[trigger] self.slot_set(t)),
                forall|j: u8|
                    j < 8 ==> #[trigger] nth_bit8(byte, j) == (cell_index as int * 8 + j <= slot_i
                        && self.slot_set(cell_index as int * 8 + j)),
            decreases cell_index,
        {
            proof {
                assert forall|t: int| cell_index as int * 8 <= t <= slot_i implies !(
                #[trigger] self.slot_set(t)) by {
                    if t < cell_index as int * 8 + 8 {
                        let j = t - cell_index as int * 8;
                        crate::bits::lemma_zero_byte(j as u8);
                        assert(!nth_bit8(byte, j as u8));
                    }
                }
            }
            cell_index -= 1;
            byte = self.load(cell_index);
            proof {
                lemma_fundamental_div_mod(slot_i, 8);
                assert forall|j: u8| j < 8 implies nth_bit8(byte, j) == (cell_index as int * 8 + j
                    <= slot_i && self.slot_set(cell_index as int * 8 + j)) by {
                    lemma_fundamental_div_mod_converse(
                        cell_index as int * 8 + j,
                        8,
                        cell_index as int,
                        j as int,
                    );
                }
            }
        }
        if byte == 0 {
            proof {
                let h = choose|h: int| 0 <= h <= slot_i && #[trigger] self.slot_set(h);
                if h < cell_index as int * 8 + 8 {
                    crate::bits::lemma_zero_byte((h - cell_index as int * 8) as u8);
                }
                assert(false);
            }
            return 0;
        }
        let mut j: u8 = 7;
        while j > 0 && (byte >> j) & 1 != 1
            invariant
                self.wf(),
                j <= 7,
                j == 7 || byte >> ((j + 1) as u8) == 0,
                byte != 0,
                slot_i == self.slot_of(addr_in_middle),
                0 <= slot_i < self.num_slots(),
                cell_index < self.cells@.len(),
                forall|t: int|
                    cell_index as int * 8 + 8 <= t <= slot_i ==> !(#[trigger] self.slot_set(t)),
                forall|jj: u8|
                    jj < 8 ==> #[trigger] nth_bit8(byte, jj) == (cell_index as int * 8 + jj
                        <= slot_i && self.slot_set(cell_index as int * 8 + jj)),
            decreases j,
        {
            proof {
                crate::bits::lemma_high_clear_step8(byte, j);
            }
            j -= 1;
        }
        proof {
            if (byte >> j) & 1 != 1 {
                crate::bits::lemma_high_clear_step8(byte, j);
                crate::bits::lemma_byte_basics();
                assert(byte == 0);
            }
        }
        let ghost h = cell_index as int * 8 + j;
        proof {
            assert(nth_bit8(byte, j));
            assert(self.slot_set(h) && h <= slot_i);
            assert forall|t: int| h < t <= slot_i implies !(#[trigger] self.slot_set(t)) by {
                if t < cell_index as int * 8 + 8 {
                    let k = (t - cell_index as int * 8) as u8;
                    if j < 7 {
                        crate::bits::lemma_shifted_zero_bits8(byte, j, k);
                    }
                    assert(!nth_bit8(byte, k));
                }
            }
            self.lemma_prev_set_slot_pins(slot_i, h);
            lemma_mul_inequality(h, slot_i, 16);
            lemma_fundamental_div_mod(object_offset as int, 16);
            assert(slot_i * 16 == 16 * slot_i) by (nonlinear_arith);
        }
        self.offset + (cell_index * BITS_PER_CELL + (j as usize)) * MIN_ALLOCATION
    }

    /// Zeroes the whole table.
    pub fn clear(&mut self)
        ensures
            final(self).cells@.len() == old(self).cells@.len(),
            final(self).offset == old(self).offset,
            forall|s: int| 0 <= s < final(self).num_slots() ==> !(#[trigger] final(self).slot_set(
                s,
            )),
    {
        fill_cells(&mut self.cells, 0);
        proof {
            assert forall|s: int| 0 <= s < self.num_slots() implies !(#[trigger] self.slot_set(s))
                by {
                assert(0 <= s / 8 < self.cells@.len()) by (nonlinear_arith)
                    requires
                        0 <= s < self.cells@.len() * 8int,
                ;
                crate::bits::lemma_zero_byte((s % 8) as u8);
            }
        }
    }
}

} // verus!
