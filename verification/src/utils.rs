//! Address alignment arithmetic, power-of-two helpers, and the bit-field
//! descriptors used by the object header to pack several fields into one
//! machine word.

use vstd::prelude::*;

verus! {

use vstd::arithmetic::power2::pow2;
use vstd::arithmetic::power2::lemma_pow2_pos;
use vstd::arithmetic::div_mod::lemma_fundamental_div_mod;
use vstd::arithmetic::div_mod::lemma_mod_multiples_basic;
use vstd::bits::low_bits_mask;
use vstd::bits::lemma_usize_low_bits_mask_is_mod;
use vstd::bits::lemma_u64_low_bits_mask_is_mod;

/// A power of two: 2^k for some exponent below the word width.
pub open spec fn is_power_of_two(n: usize) -> bool {
    exists|k: nat| k < usize::BITS && n == pow2(k)
}

/// A power of two, for 64-bit quantities.
pub open spec fn is_power_of_two64(n: u64) -> bool {
    exists|k: nat| k < 64 && n == pow2(k)
}

proof fn lemma_mask_split_usize(x: usize, m: usize)
    by (bit_vector)
    ensures
        ((x & !m) + (x & m)) == x,
{
}

proof fn lemma_mask_split64(x: u64, m: u64)
    by (bit_vector)
    ensures
        ((x & !m) + (x & m)) == x,
{
}

/// Masking with `align - 1` computes the remainder modulo a power of
/// two, and masking with its complement subtracts that remainder.
proof fn lemma_align_masks(x: usize, align: usize)
    requires
        is_power_of_two(align),
    ensures
        x & ((align - 1) as usize) == x % align,
        x & !((align - 1) as usize) == x - (x % align),
        align > 0,
{
    let k = choose|k: nat| k < usize::BITS && align == pow2(k);
    lemma_pow2_pos(k);
    lemma_usize_low_bits_mask_is_mod(x, k);
    assert(low_bits_mask(k) == align - 1);
    lemma_mask_split_usize(x, (align - 1) as usize);
}

proof fn lemma_align_masks64(x: u64, n: u64)
    requires
        is_power_of_two64(n),
    ensures
        x & ((n - 1) as u64) == x % n,
        x & !((n - 1) as u64) == x - (x % n),
        n > 0,
{
    let k = choose|k: nat| k < 64 && n == pow2(k);
    lemma_pow2_pos(k);
    lemma_u64_low_bits_mask_is_mod(x, k);
    assert(low_bits_mask(k) == n - 1);
    lemma_mask_split64(x, (n - 1) as u64);
}

/// Rounds `addr` down to the nearest multiple of `align`.
pub fn align_down(addr: usize, align: usize) -> (r: usize)
    requires
        is_power_of_two(align),
    ensures
        r == addr - (addr % align),
        r % align == 0,
        r <= addr,
        addr - r < align,
{
    proof {
        lemma_align_masks(addr, align);
        lemma_fundamental_div_mod(addr as int, align as int);
        lemma_mod_multiples_basic(addr as int / align as int, align as int);
    }
    addr & !(align - 1)
}

/// Rounds `addr` up to the nearest multiple of `align`.
pub fn align_up(addr: usize, align: usize) -> (r: usize)
    requires
        is_power_of_two(align),
        addr + align - 1 <= usize::MAX,
    ensures
        r % align == 0,
        r >= addr,
        r < addr + align,
{
    proof {
        lemma_align_masks(0, align);
    }
    align_down(addr + (align - 1), align)
}

/// Whether `addr` is a multiple of `align`.
pub fn is_aligned(addr: usize, align: usize) -> (r: bool)
    requires
        is_power_of_two(align),
    ensures
        r == (addr % align == 0),
{
    proof {
        lemma_align_masks(addr, align);
    }
    addr & (align - 1) == 0
}

/// Rounds `value` up to the nearest multiple of `align`; unlike
/// `align_up`, `align` need not be a power of two.
pub fn align_usize(value: usize, align: usize) -> (r: usize)
    requires
        align != 0,
        value + align - 1 <= usize::MAX,
    ensures
        r % align == 0,
        r >= value,
        r < value + align,
{
    let q = (value + (align - 1)) / align;
    proof {
        let s = (value + align - 1) as int;
        lemma_fundamental_div_mod(s, align as int);
        lemma_mod_multiples_basic(s / (align as int), align as int);
    }
    q * align
}

/// Rounds `x` down to the nearest multiple of the power of two `n`.
pub fn round_down(x: u64, n: u64) -> (r: u64)
    requires
        is_power_of_two64(n),
    ensures
        r == x - (x % n),
        r % n == 0,
        r <= x,
        x - r < n,
{
    proof {
        lemma_align_masks64(x, n);
        lemma_fundamental_div_mod(x as int, n as int);
        lemma_mod_multiples_basic(x as int / n as int, n as int);
    }
    x & !(n - 1)
}

/// Rounds `x` up to the nearest multiple of the power of two `n`.
pub fn round_up(x: u64, n: u64) -> (r: u64)
    requires
        is_power_of_two64(n),
        x + n - 1 <= u64::MAX,
    ensures
        r % n == 0,
        r >= x,
        r < x + n,
        r == (((x + n - 1) as u64) - (((x + n - 1) as u64) % n)),
{
    proof {
        lemma_align_masks64(0, n);
    }
    round_down(x + (n - 1), n)
}

/// The number of trailing zero bits of `value`: the `k` with
/// `value == odd * 2^k`, or 64 when `value` is zero.
pub fn which_power_of_two(value: usize) -> (r: usize)
    ensures
        value == 0 ==> r == 64,
        value != 0 ==> r < 64 && crate::bits::nth_bit(value as u64, r as u64),
        forall|j: u64| j < r && j < 64 ==> !(#[trigger] crate::bits::nth_bit(value as u64, j)),
{
    let wide: u64 = value as u64;
    let mut i: u64 = 0;
    proof {
        crate::bits::lemma_bit_basics();
    }
    while i < 64
        invariant
            i <= 64,
            wide == value as u64,
            i < 64 ==> wide & (((1u64 << i) - 1) as u64) == 0,
            i == 64 ==> wide == 0,
            forall|j: u64| j < i && j < 64 ==> !(#[trigger] crate::bits::nth_bit(wide, j)),
        decreases 64 - i,
    {
        proof {
            crate::bits::lemma_bit_basics();
        }
        if (wide >> i) & 1 == 1 {
            return i as usize;
        }
        proof {
            crate::bits::lemma_trailing_zeros_step(wide, i);
        }
        i += 1;
    }
    64
}

/// A 32-bit power of two, as a mask test: exactly one bit set.
pub open spec fn is_power_of_two32(n: u32) -> bool {
    n != 0 && n & ((n - 1) as u32) == 0
}

proof fn lemma_pow2_double(r: u32)
    by (bit_vector)
    requires
        r != 0,
        r & ((r - 1) as u32) == 0,
        r < 0x8000_0000u32,
    ensures
        (r << 1u32) == 2 * r,
        (r << 1u32) != 0,
        (r << 1u32) & (((r << 1u32) - 1) as u32) == 0,
        r <= 0x4000_0000u32,
{
}

/// The smallest power of two that is at least `value` (and at least 1).
pub fn round_up_to_power_of_two32(value: u32) -> (r: u32)
    requires
        value <= 0x8000_0000u32,
    ensures
        is_power_of_two32(r),
        r >= value,
        value > 1 ==> r < 2 * value,
        value <= 1 ==> r == 1,
{
    let mut r: u32 = 1;
    assert(1u32 & 0u32 == 0) by (bit_vector);
    while r < value
        invariant
            value <= 0x8000_0000u32,
            is_power_of_two32(r),
            value > 1 ==> r < 2 * value,
            value <= 1 ==> r == 1,
            r <= 0x8000_0000u32,
        decreases 0x1_0000_0000 - r,
    {
        proof {
            lemma_pow2_double(r);
        }
        r = r << 1;
    }
    r
}

proof fn lemma_pow2_halve(r: u32)
    by (bit_vector)
    ensures
        (r >> 1u32) == r / 2,
        r > 1 && r & ((r - 1) as u32) == 0 ==> r % 2 == 0 && ((r / 2) as u32) != 0 && ((r
            / 2) as u32) & ((((r / 2) as u32) - 1) as u32) == 0,
{
}

/// The largest power of two that is at most `value`, 0x80000000 for
/// inputs above it, and 0 for 0.
pub fn round_down_to_power_of_two32(value: u32) -> (r: u32)
    ensures
        value == 0 ==> r == 0,
        value > 0x8000_0000u32 ==> r == 0x8000_0000u32,
        0 < value <= 0x8000_0000u32 ==> is_power_of_two32(r) && r <= value && value < 2 * r,
{
    if value > 0x8000_0000u32 {
        return 0x8000_0000u32;
    }
    let mut result = round_up_to_power_of_two32(value);
    if result > value {
        proof {
            lemma_pow2_halve(result);
        }
        result = result >> 1;
    }
    result
}

/// Wraps a byte count for human-readable display; the rendering itself
/// lives with the embedder.
pub struct FormattedSize {
    pub size: usize,
}

/// Packages `size` for display.
pub fn formatted_size(size: usize) -> (r: FormattedSize)
    ensures
        r.size == size,
{
    FormattedSize { size }
}

/// The contiguous run of bits a packed field occupies: bits
/// `shift .. shift + size` of a 64-bit word.
pub open spec fn field_mask(shift: u64, size: u64) -> u64 {
    ((((1u64 << shift) << size) - (1u64 << shift))) as u64
}

proof fn lemma_field_mask_wf(shift: u64, size: u64)
    by (bit_vector)
    requires
        shift + size <= 63,
        0 < size,
    ensures
        ((1u64 << shift) << size) >= (1u64 << shift),
{
}

proof fn lemma_field_update(previous: u64, value: u64, shift: u64, size: u64, r: u64)
    by (bit_vector)
    requires
        shift + size <= 63,
        0 < size,
        value < (1u64 << size),
        r == (previous & !field_mask(shift, size)) | (value << shift),
    ensures
        (r & field_mask(shift, size)) >> shift == value,
        r & !field_mask(shift, size) == previous & !field_mask(shift, size),
{
}

proof fn lemma_field_decode(value: u64, shift: u64, size: u64)
    by (bit_vector)
    requires
        shift + size <= 63,
        0 < size,
    ensures
        (value & field_mask(shift, size)) >> shift < (1u64 << size),
{
}

/// A packed bit field at bits `SHIFT .. SHIFT + SIZE` of a 64-bit word.
/// Each implementing marker type names one field of the object header.
pub trait BitFieldTrait<const SHIFT: u64, const SIZE: u64> {
    type Next;

    /// Shifts `value` into the field's position.
    fn encode(value: u64) -> (r: u64)
        requires
            SHIFT + SIZE <= 63,
            0 < SIZE,
            value < (1u64 << SIZE),
        ensures
            r == (value << SHIFT),
    {
        value << SHIFT
    }

    /// Replaces the field inside `previous` with `value`, leaving every
    /// bit outside the field untouched.
    fn update(previous: u64, value: u64) -> (r: u64)
        requires
            SHIFT + SIZE <= 63,
            0 < SIZE,
            value < (1u64 << SIZE),
        ensures
            r == (previous & !field_mask(SHIFT, SIZE)) | (value << SHIFT),
            (r & field_mask(SHIFT, SIZE)) >> SHIFT == value,
            r & !field_mask(SHIFT, SIZE) == previous & !field_mask(SHIFT, SIZE),
    {
        proof {
            lemma_field_mask_wf(SHIFT, SIZE);
        }
        let mask = ((1u64 << SHIFT) << SIZE) - (1u64 << SHIFT);
        let r = (previous & !mask) | (value << SHIFT);
        proof {
            lemma_field_update(previous, value, SHIFT, SIZE, r);
        }
        r
    }

    /// Reads the field out of `value`.
    fn decode(value: u64) -> (r: u64)
        requires
            SHIFT + SIZE <= 63,
            0 < SIZE,
        ensures
            r == (value & field_mask(SHIFT, SIZE)) >> SHIFT,
            r < (1u64 << SIZE),
    {
        proof {
            lemma_field_mask_wf(SHIFT, SIZE);
            lemma_field_decode(value, SHIFT, SIZE);
        }
        let mask = ((1u64 << SHIFT) << SIZE) - (1u64 << SHIFT);
        (value & mask) >> SHIFT
    }
}

/// The vtable / forwarding-address field of the header word: bits 0..58.
/// The low four bits double as a small-tag region, so addresses stored
/// here must be allocation-aligned.
pub struct VTableBitField;

/// The size field: 13 bits in the padding word, holding the allocated
/// size in units of `MIN_ALLOCATION`; 0 means "precise/large".
pub struct SizeBitField;

/// A reserved flag position in the header word, kept for layout
/// compatibility; the mark consulted by the collector is `MarkBit`.
pub struct MarkedBitField;

/// The forwarded flag: bit 3 of the header word's small-tag region.
pub struct ForwardedBit;

/// Tag recording that the object's parent is known to the collector.
pub struct ParentKnown;

/// Tag recording that the object may not be moved.
pub struct Pinned;

/// The mark bit consulted and maintained by the collector: bit 14 of the
/// padding word.
pub struct MarkBit;

/// The colour pair used by concurrent sweeping: bits 0..2 of the padding
/// word.
pub struct ColourBit;

impl BitFieldTrait<1, 1> for Pinned {
    type Next = ParentKnown;
}

impl BitFieldTrait<1, 1> for ParentKnown {
    type Next = MarkBit;
}

impl BitFieldTrait<3, 1> for ForwardedBit {
    type Next = MarkedBitField;
}

impl BitFieldTrait<0, 58> for VTableBitField {
    type Next = SizeBitField;
}

impl BitFieldTrait<48, 1> for MarkedBitField {
    type Next = MarkedBitField;
}

impl BitFieldTrait<16, 13> for SizeBitField {
    type Next = MarkedBitField;
}

impl BitFieldTrait<14, 1> for MarkBit {
    type Next = MarkBit;
}

impl BitFieldTrait<0, 2> for ColourBit {
    type Next = ColourBit;
}

} // verus!
