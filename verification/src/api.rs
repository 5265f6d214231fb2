//! The per-object heap header and the embedder-facing object model.
//!
//! Every heap object is prefixed by a fixed 16-byte header packing the
//! vtable pointer, allocated size, mark bit, colour pair and forwarded
//! flag.  The vtable field doubles as the forwarding slot of a moving
//! collector: the low four bits of that word form a small-tag region, so
//! every address stored there must be allocation-aligned.

use core::marker::PhantomData;

use vstd::prelude::*;

use crate::utils::BitFieldTrait;
use crate::utils::ColourBit;
use crate::utils::ForwardedBit;
use crate::utils::MarkBit;
use crate::utils::SizeBitField;
use crate::utils::VTableBitField;
use crate::utils::field_mask;

verus! {

/// The allocation granule: every object size and every address handed to
/// a bitmap is a multiple of this.
pub const MIN_ALLOCATION: usize = 16;

/// The 16-byte record prefixing every heap object.
///
/// `value` holds the vtable pointer (or, once forwarded, the forwarding
/// address) in bits 0..58 with the forwarded flag at bit 3 of the
/// small-tag region; `padding` holds the colour pair (bits 0..2), the
/// mark bit (bit 14) and the size field (bits 16..29, in units of
/// `MIN_ALLOCATION`, 0 meaning "precise/large"); `type_id` is a stable
/// identifier used for dynamic type checks.
#[derive(Clone, Copy)]
pub struct HeapObjectHeader {
    pub value: u64,
    pub padding: u32,
    pub type_id: u32,
}

proof fn lemma_set_forwarded(old_v: u64, fwd: u64, v1: u64, v2: u64)
    by (bit_vector)
    requires
        fwd < (1u64 << 58),
        fwd % 16 == 0,
        v1 == (old_v & !field_mask(0, 58)) | (fwd << 0),
        v2 == (v1 & !field_mask(3, 1)) | (1u64 << 3),
    ensures
        (v2 & field_mask(0, 58)) & !0xFu64 == fwd,
        (v2 & field_mask(3, 1)) >> 3 != 0,
{
}

proof fn lemma_set_vtable(vt: u64)
    by (bit_vector)
    requires
        vt < (1u64 << 58),
        vt % 16 == 0,
    ensures
        ((vt << 0) & field_mask(0, 58)) & !0xFu64 == vt,
        ((vt << 0) & field_mask(3, 1)) >> 3 == 0,
        ((vt << 0) & field_mask(0, 58)) == vt,
{
}

proof fn lemma_padding_size_update(p: u64, v: u64, r: u64)
    by (bit_vector)
    requires
        p <= 0xFFFF_FFFFu64,
        v < (1u64 << 13),
        r == (p & !field_mask(16, 13)) | (v << 16),
    ensures
        r <= 0xFFFF_FFFFu64,
        (r & field_mask(14, 1)) >> 14 == (p & field_mask(14, 1)) >> 14,
        r & field_mask(0, 2) == p & field_mask(0, 2),
{
}

proof fn lemma_padding_mark_update(p: u64, v: u64, r: u64)
    by (bit_vector)
    requires
        p <= 0xFFFF_FFFFu64,
        v < (1u64 << 1),
        r == (p & !field_mask(14, 1)) | (v << 14),
    ensures
        r <= 0xFFFF_FFFFu64,
        (r & field_mask(16, 13)) >> 16 == (p & field_mask(16, 13)) >> 16,
        r & field_mask(0, 2) == p & field_mask(0, 2),
{
}

proof fn lemma_padding_color_update(p: u64, v: u64, r: u64)
    by (bit_vector)
    requires
        p <= 0xFFFF_FFFFu64,
        v < (1u64 << 2),
        r == (p & !field_mask(0, 2)) | (v << 0),
    ensures
        r <= 0xFFFF_FFFFu64,
        (r & field_mask(16, 13)) >> 16 == (p & field_mask(16, 13)) >> 16,
        (r & field_mask(14, 1)) >> 14 == (p & field_mask(14, 1)) >> 14,
{
}

impl HeapObjectHeader {
    /// The vtable pointer (or forwarding address) stored in the header
    /// word, with the small-tag bits masked off.
    pub open spec fn spec_vtable(self) -> u64 {
        (self.value & field_mask(0, 58)) & !0xFu64
    }

    /// Whether the forwarded flag is set.
    pub open spec fn spec_forwarded(self) -> bool {
        (self.value & field_mask(3, 1)) >> 3 != 0
    }

    /// The raw size field, in units of `MIN_ALLOCATION`.
    pub open spec fn spec_size_field(self) -> u64 {
        ((self.padding as u64) & field_mask(16, 13)) >> 16
    }

    /// The allocated size in bytes; 0 means "precise/large".
    pub open spec fn spec_size(self) -> int {
        self.spec_size_field() * 16
    }

    /// Whether the object is a precise/large allocation, whose true size
    /// lives in an out-of-band descriptor.
    pub open spec fn spec_precise(self) -> bool {
        self.spec_size_field() == 0
    }

    /// Whether the mark bit is set.
    pub open spec fn spec_marked(self) -> bool {
        ((self.padding as u64) & field_mask(14, 1)) >> 14 != 0
    }

    /// The colour pair.
    pub open spec fn spec_color(self) -> u64 {
        (self.padding as u64) & field_mask(0, 2)
    }

    /// This header with its colour pair replaced by `to` and every
    /// other bit kept.
    pub open spec fn spec_with_color(self, to: u8) -> Self {
        HeapObjectHeader {
            padding: ((((self.padding as u64) & !field_mask(0, 2)) | (to as u64)) as u32),
            ..self
        }
    }

    /// A fresh header with every field zeroed: unallocated, unmarked,
    /// colour 0, size 0.
    pub fn new(type_id: u32) -> (r: Self)
        ensures
            r.value == 0,
            r.padding == 0,
            r.type_id == type_id,
    {
        HeapObjectHeader { value: 0, padding: 0, type_id }
    }

    /// Overwrites the vtable slot with the forwarding address `fwdptr`
    /// and sets the forwarded flag; the object must from now on be
    /// treated as an indirection only.
    pub fn set_forwarded(&mut self, fwdptr: usize)
        requires
            (fwdptr as u64) < 0x0400_0000_0000_0000u64,
            fwdptr % 16 == 0,
        ensures
            final(self).spec_forwarded(),
            final(self).spec_vtable() == fwdptr as u64,
            final(self).padding == old(self).padding,
            final(self).type_id == old(self).type_id,
    {
        proof {
            crate::bits::lemma_bit_basics();
        }
        let ghost old_v = self.value;
        self.value = VTableBitField::update(self.value, fwdptr as u64);
        let ghost v1 = self.value;
        self.value = ForwardedBit::update(self.value, 1);
        proof {
            assert(fwdptr as u64 % 16 == 0);
            lemma_set_forwarded(old_v, fwdptr as u64, v1, self.value);
        }
    }

    /// Whether this header has been overwritten with a forwarding
    /// address.
    pub fn is_forwarded(&self) -> (r: bool)
        ensures
            r == self.spec_forwarded(),
    {
        proof {
            crate::bits::lemma_bit_basics();
        }
        ForwardedBit::decode(self.value) != 0
    }

    /// The allocated size in bytes; 0 signals a precise/large object.
    pub fn size(&self) -> (r: usize)
        ensures
            r == self.spec_size(),
    {
        proof {
            crate::bits::lemma_bit_basics();
        }
        (SizeBitField::decode(self.padding as u64) as usize) * MIN_ALLOCATION
    }

    /// Whether the object's true size lives in the large-object list.
    pub fn is_precise(&self) -> (r: bool)
        ensures
            r == self.spec_precise(),
    {
        SizeBitField::decode(self.padding as u64) == 0
    }

    /// Records the allocated size: `size / MIN_ALLOCATION` granules,
    /// which must be non-zero and fit the 13-bit field.
    pub fn set_size(&mut self, size: usize)
        requires
            size != 0,
            size / 16 < 8192,
        ensures
            final(self).spec_size_field() == size as int / 16,
            final(self).spec_size() == (size as int / 16) * 16,
            final(self).spec_marked() == old(self).spec_marked(),
            final(self).spec_color() == old(self).spec_color(),
            final(self).value == old(self).value,
            final(self).type_id == old(self).type_id,
    {
        proof {
            crate::bits::lemma_bit_basics();
        }
        let ghost p = self.padding as u64;
        let r = SizeBitField::update(self.padding as u64, (size / 16) as u64);
        proof {
            lemma_padding_size_update(p, (size / 16) as u64, r);
        }
        self.padding = r as u32;
    }

    /// Marks the object as a precise/large allocation by zeroing the
    /// size field.
    pub fn set_large(&mut self)
        ensures
            final(self).spec_precise(),
            final(self).spec_marked() == old(self).spec_marked(),
            final(self).spec_color() == old(self).spec_color(),
            final(self).value == old(self).value,
            final(self).type_id == old(self).type_id,
    {
        proof {
            crate::bits::lemma_bit_basics();
        }
        let ghost p = self.padding as u64;
        let r = SizeBitField::update(self.padding as u64, 0);
        proof {
            lemma_padding_size_update(p, 0, r);
        }
        self.padding = r as u32;
    }

    /// The stored vtable pointer (or forwarding address), tag bits
    /// masked off.
    pub fn vtable(&self) -> (r: usize)
        ensures
            r == self.spec_vtable() as usize,
    {
        proof {
            crate::bits::lemma_bit_basics();
        }
        (VTableBitField::decode(self.value) & !0xFu64) as usize
    }

    /// Installs a vtable pointer, replacing the whole header word; the
    /// forwarded flag is thereby cleared.
    pub fn set_vtable(&mut self, vtable: usize)
        requires
            (vtable as u64) < 0x0400_0000_0000_0000u64,
            vtable % 16 == 0,
        ensures
            final(self).spec_vtable() == vtable as u64,
            !final(self).spec_forwarded(),
            final(self).padding == old(self).padding,
            final(self).type_id == old(self).type_id,
    {
        proof {
            crate::bits::lemma_bit_basics();
            lemma_set_vtable(vtable as u64);
        }
        self.value = VTableBitField::encode(vtable as u64);
    }

    /// Whether a vtable has been installed.
    pub fn is_allocated(&self) -> (r: bool)
        ensures
            r == (self.spec_vtable() as usize != 0),
    {
        self.vtable() != 0
    }

    /// Whether the mark bit is set.
    pub fn marked_bit(&self) -> (r: bool)
        ensures
            r == self.spec_marked(),
    {
        MarkBit::decode(self.padding as u64) != 0
    }

    /// Clears the mark bit; idempotent.
    pub fn unmark(&mut self)
        ensures
            !final(self).spec_marked(),
            final(self).spec_size_field() == old(self).spec_size_field(),
            final(self).spec_color() == old(self).spec_color(),
            final(self).value == old(self).value,
            final(self).type_id == old(self).type_id,
    {
        proof {
            crate::bits::lemma_bit_basics();
        }
        let ghost p = self.padding as u64;
        let r = MarkBit::update(self.padding as u64, 0);
        proof {
            lemma_padding_mark_update(p, 0, r);
        }
        self.padding = r as u32;
    }

    /// Sets the mark bit; idempotent.
    pub fn set_marked_bit(&mut self)
        ensures
            final(self).spec_marked(),
            final(self).spec_size_field() == old(self).spec_size_field(),
            final(self).spec_color() == old(self).spec_color(),
            final(self).value == old(self).value,
            final(self).type_id == old(self).type_id,
    {
        proof {
            crate::bits::lemma_bit_basics();
        }
        let ghost p = self.padding as u64;
        let r = MarkBit::update(self.padding as u64, 1);
        proof {
            lemma_padding_mark_update(p, 1, r);
        }
        self.padding = r as u32;
    }

    /// Attempts the colour transition `from -> to`; returns **true on
    /// failure**, that is, when the current colour differs from `from`.
    /// The sweep relies on the inverted polarity to pick out objects
    /// that stayed white.
    pub fn set_color(&mut self, from: u8, to: u8) -> (failed: bool)
        requires
            from < 4,
            to < 4,
        ensures
            failed == (old(self).spec_color() != from as u64),
            failed ==> *final(self) == *old(self),
            !failed ==> *final(self) == old(self).spec_with_color(to),
            !failed ==> final(self).spec_color() == to as u64,
            !failed ==> final(self).spec_marked() == old(self).spec_marked(),
            !failed ==> final(self).spec_size_field() == old(self).spec_size_field(),
            final(self).value == old(self).value,
            final(self).type_id == old(self).type_id,
    {
        proof {
            crate::bits::lemma_bit_basics();
        }
        let cur = ColourBit::decode(self.padding as u64);
        if cur != from as u64 {
            true
        } else {
            let ghost p = self.padding as u64;
            let r = ColourBit::update(self.padding as u64, to as u64);
            proof {
                lemma_padding_color_update(p, to as u64, r);
            }
            self.padding = r as u32;
            false
        }
    }

    /// The stable type identifier written at allocation.
    pub fn type_id(&self) -> (r: u32)
        ensures
            r == self.type_id,
    {
        self.type_id
    }
}

/// A visitor the collector hands to per-type trace functions; marking
/// an object may also relocate the root it was reached from, so the
/// root is passed as a mutable address.
pub trait Visitor {
    fn mark_object(&mut self, root: &mut usize);
}

/// A type whose values can hand their outgoing references to a
/// visitor.
pub trait Trace {
    fn trace<V: Visitor>(&mut self, vis: &mut V);
}

/// A type with a finalizer the collector runs when the object dies;
/// the default does nothing.
pub trait Finalize {
    fn finalize(&mut self) {
    }
}

/// A heap-allocatable, traceable type with a stable type tag for
/// dynamic type checks and a known allocation size.
pub trait Collectable: Trace + Finalize {
    /// The stable identifier written into headers of this type.
    spec fn spec_type_tag() -> u32;

    /// Reads the type's stable identifier.
    fn type_tag() -> (r: u32)
        ensures
            r == Self::spec_type_tag(),
    ;

    /// The bytes this value occupies on the heap.
    fn allocation_size(&self) -> usize;
}

/// A type that may be rooted on a shadow stack; every traceable type
/// qualifies.
pub trait Rootable: Trace {

}

impl<T: Trace> Rootable for T {

}

impl<T: Trace> Trace for Option<T> {
    fn trace<V: Visitor>(&mut self, vis: &mut V) {
        match self {
            Some(val) => val.trace(vis),
            _ => (),
        }
    }
}

/// A reference to a heap object: the address of its header together
/// with the type tag read from it.
pub struct Gc<T: Collectable> {
    pub base: usize,
    pub type_id: u32,
    pub marker: PhantomData<T>,
}

/// A reference stored inside another heap object; it is not movable by
/// the embedder but converts freely to and from `Gc`.
pub struct Field<T: Collectable> {
    pub base: usize,
    pub type_id: u32,
    pub marker: PhantomData<T>,
}

impl<T: Collectable> Gc<T> {
    /// Assembles a reference from a header address and the tag the
    /// allocator wrote there.
    pub fn from_raw_parts(base: usize, type_id: u32) -> (r: Self)
        ensures
            r.base == base,
            r.type_id == type_id,
    {
        Gc { base, type_id, marker: PhantomData }
    }

    /// Converts this reference into a stored field.
    pub fn to_field(self) -> (r: Field<T>)
        ensures
            r.base == self.base,
            r.type_id == self.type_id,
    {
        Field { base: self.base, type_id: self.type_id, marker: PhantomData }
    }

    /// Whether the referenced object's tag is that of `U`.
    pub fn is<U: Collectable>(&self) -> (r: bool)
        ensures
            r == (self.type_id == U::spec_type_tag()),
    {
        self.type_id == U::type_tag()
    }

    /// Re-types the reference when the tag matches `U`, and refuses
    /// otherwise.
    pub fn downcast<U: Collectable>(&self) -> (r: Option<Gc<U>>)
        ensures
            match r {
                Some(g) => self.type_id == U::spec_type_tag() && g.base == self.base && g.type_id
                    == self.type_id,
                None => self.type_id != U::spec_type_tag(),
            },
    {
        if self.is::<U>() {
            Some(Gc { base: self.base, type_id: self.type_id, marker: PhantomData })
        } else {
            None
        }
    }
}

impl<T: Collectable> Field<T> {
    /// Converts the stored field back into a reference.
    pub fn to_gc(&self) -> (r: Gc<T>)
        ensures
            r.base == self.base,
            r.type_id == self.type_id,
    {
        Gc { base: self.base, type_id: self.type_id, marker: PhantomData }
    }

    /// Whether the referenced object's tag is that of `U`.
    pub fn is<U: Collectable>(&self) -> (r: bool)
        ensures
            r == (self.type_id == U::spec_type_tag()),
    {
        self.type_id == U::type_tag()
    }

    /// Re-types the field's reference when the tag matches `U`, and
    /// refuses otherwise.
    pub fn downcast<U: Collectable>(&self) -> (r: Option<Gc<U>>)
        ensures
            match r {
                Some(g) => self.type_id == U::spec_type_tag() && g.base == self.base && g.type_id
                    == self.type_id,
                None => self.type_id != U::spec_type_tag(),
            },
    {
        if self.is::<U>() {
            Some(Gc { base: self.base, type_id: self.type_id, marker: PhantomData })
        } else {
            None
        }
    }
}

impl<T: Collectable> Trace for Gc<T> {
    fn trace<V: Visitor>(&mut self, vis: &mut V) {
        vis.mark_object(&mut self.base);
    }
}

impl<T: Collectable> Trace for Field<T> {
    fn trace<V: Visitor>(&mut self, vis: &mut V) {
        vis.mark_object(&mut self.base);
    }
}

/// The per-thread shadow stack of rooted header addresses, walked by
/// the collector to find stack-resident references.  A rooting guard
/// pushes its address on construction and pops it when dropped.
pub struct ShadowStack {
    pub roots: Vec<usize>,
}

impl ShadowStack {
    /// A fresh, empty shadow stack.
    pub fn new() -> (r: Self)
        ensures
            r.roots@.len() == 0,
    {
        ShadowStack { roots: Vec::new() }
    }

    /// Links a rooted address on top of the stack.
    pub fn push_root(&mut self, addr: usize)
        ensures
            final(self).roots@ == old(self).roots@.push(addr),
    {
        self.roots.push(addr);
    }

    /// Unlinks the most recently rooted address.
    pub fn pop_root(&mut self) -> (r: Option<usize>)
        ensures
            old(self).roots@.len() == 0 ==> r is None && final(self).roots@ == old(self).roots@,
            old(self).roots@.len() > 0 ==> r == Some(old(self).roots@.last()) && final(self).roots@
                == old(self).roots@.drop_last(),
    {
        self.roots.pop()
    }

    /// The rooted addresses, bottom first, for the collector to visit.
    pub fn walk(&self) -> (r: &Vec<usize>)
        ensures
            r@ == self.roots@,
    {
        &self.roots
    }
}

/// A value rooted on the shadow stack for the span of a scope.
pub struct Rooted<T> {
    pub value: T,
}

impl<T> Rooted<T> {
    /// Wraps a value for rooting; the embedding runtime links the
    /// guard's address into the shadow stack.
    pub fn construct(value: T) -> (r: Self)
        ensures
            r.value == value,
    {
        Rooted { value }
    }
}

/// A shared handle to a rooted reference.
pub struct Handle<'a, T: Collectable> {
    pub handle: &'a Gc<T>,
}

impl<'a, T: Collectable> Handle<'a, T> {
    /// The referenced `Gc`.
    pub fn gc(&self) -> (r: Gc<T>)
        ensures
            r.base == self.handle.base,
            r.type_id == self.handle.type_id,
    {
        Gc { base: self.handle.base, type_id: self.handle.type_id, marker: PhantomData }
    }
}

impl<T: Collectable> Rooted<Gc<T>> {
    /// A handle to the rooted reference.
    pub fn handle(&self) -> (r: Handle<'_, T>)
        ensures
            r.handle.base == self.value.base,
            r.handle.type_id == self.value.type_id,
    {
        Handle { handle: &self.value }
    }
}

} // verus!
