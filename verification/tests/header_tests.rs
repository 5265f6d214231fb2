use comet_core::api::HeapObjectHeader;
use comet_core::utils::BitFieldTrait;
use comet_core::utils::ColourBit;
use comet_core::utils::ForwardedBit;
use comet_core::utils::MarkBit;
use comet_core::utils::SizeBitField;
use comet_core::utils::VTableBitField;

#[test]
fn forwarding_round_trip() {
    let mut h = HeapObjectHeader::new(9);
    h.set_vtable(0xDEAD0000);
    h.set_size(64);
    assert_eq!(h.vtable(), 0xDEAD0000);
    assert!(!h.is_forwarded());
    h.set_forwarded(0xBEEF0000);
    assert!(h.is_forwarded());
    assert_eq!(h.vtable(), 0xBEEF0000);
    assert_eq!(h.size(), 64);
}

#[test]
fn size_field_round_trip() {
    let mut h = HeapObjectHeader::new(0);
    assert!(h.is_precise());
    assert_eq!(h.size(), 0);
    h.set_size(64);
    assert_eq!(h.size(), 64);
    assert!(!h.is_precise());
    h.set_size(8192 * 16 - 16);
    assert_eq!(h.size(), 8192 * 16 - 16);
    // A size that is not a whole number of granules is encoded rounded
    // down.
    h.set_size(70);
    assert_eq!(h.size(), 64);
    h.set_large();
    assert!(h.is_precise());
    assert_eq!(h.size(), 0);
}

#[test]
fn mark_bit_is_idempotent() {
    let mut h = HeapObjectHeader::new(0);
    assert!(!h.marked_bit());
    h.set_marked_bit();
    assert!(h.marked_bit());
    h.set_marked_bit();
    assert!(h.marked_bit());
    h.unmark();
    assert!(!h.marked_bit());
    h.unmark();
    assert!(!h.marked_bit());
}

#[test]
fn mark_does_not_disturb_size_or_colour() {
    let mut h = HeapObjectHeader::new(0);
    h.set_size(128);
    assert!(!h.set_color(0, 3));
    h.set_marked_bit();
    assert_eq!(h.size(), 128);
    assert!(!h.set_color(3, 3));
    h.unmark();
    assert_eq!(h.size(), 128);
}

#[test]
fn colour_transition_fails_on_mismatch() {
    let mut h = HeapObjectHeader::new(0);
    // A fresh header has colour 0; a transition from another colour fails
    // and reports true, leaving the header untouched.
    assert!(h.set_color(1, 2));
    assert!(!h.set_color(0, 2));
    assert!(h.set_color(1, 3));
    assert!(!h.set_color(2, 0));
}

#[test]
fn vtable_replacement_clears_forwarding() {
    let mut h = HeapObjectHeader::new(0);
    h.set_forwarded(0x4000);
    assert!(h.is_forwarded());
    h.set_vtable(0x8000);
    assert!(!h.is_forwarded());
    assert_eq!(h.vtable(), 0x8000);
    assert!(h.is_allocated());
}

#[test]
fn header_type_id_is_stable() {
    let h = HeapObjectHeader::new(0xC0FFEE);
    assert_eq!(h.type_id(), 0xC0FFEE);
    let fresh = HeapObjectHeader::new(0);
    assert!(!fresh.is_allocated());
}

#[test]
fn bit_field_encode_update_decode() {
    assert_eq!(SizeBitField::encode(5), 5 << 16);
    assert_eq!(SizeBitField::update(0, 5), 5 << 16);
    assert_eq!(SizeBitField::decode(5 << 16), 5);
    assert_eq!(MarkBit::update(0, 1), 1 << 14);
    assert_eq!(MarkBit::decode(1 << 14), 1);
    assert_eq!(ColourBit::update(0xFF00, 2), 0xFF02);
    assert_eq!(ColourBit::decode(0xFF02), 2);
    assert_eq!(ForwardedBit::update(0, 1), 8);
    assert_eq!(VTableBitField::decode(0xBEEF0008), 0xBEEF0008);
    // An update replaces the field and keeps every bit outside it.
    let w = SizeBitField::update(0xFFFF_FFFF, 0);
    assert_eq!(w, 0xFFFF_FFFF & !((1u64 << 29) - (1u64 << 16)));
}
