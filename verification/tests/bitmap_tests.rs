use comet_core::api::HeapObjectHeader;
use comet_core::bitmap::SpaceBitmap;
use comet_core::heap_bitmap::HeapBitmap;
use comet_core::object_start::ObjectStartBitmap;

#[test]
fn bitmap_basics_set_test_visit() {
    let mut bm: SpaceBitmap<16> = SpaceBitmap::create("test", 0x10_000, 4096);
    assert!(!bm.is_null());
    assert!(bm.has_address(0x10_000));
    assert!(bm.has_address(0x10_FF0));
    assert!(!bm.has_address(0x11_000));
    assert!(!bm.has_address(0xF_000));

    bm.set(0x10_000);
    bm.set(0x10_010);
    bm.set(0x10_0F0);
    assert!(bm.test(0x10_000));
    assert!(bm.test(0x10_010));
    assert!(bm.test(0x10_0F0));
    assert!(!bm.test(0x10_020));

    let visited = bm.visit_marked_range(0x10_000, 0x10_100);
    assert_eq!(visited, vec![0x10_000, 0x10_010, 0x10_0F0]);
}

#[test]
fn set_then_clear_round_trip() {
    let mut bm: SpaceBitmap<16> = SpaceBitmap::create("test", 0, 4096);
    assert!(!bm.set(0x40));
    assert!(bm.test(0x40));
    assert!(bm.set(0x40));
    assert!(bm.clear(0x40));
    assert!(!bm.test(0x40));
    assert!(!bm.clear(0x40));
}

#[test]
fn modify_returns_previous_value() {
    let mut bm: SpaceBitmap<16> = SpaceBitmap::create("test", 0, 4096);
    assert!(!bm.set_sync(0x10));
    assert!(bm.set_sync(0x10));
    assert!(bm.test(0x10));
}

#[test]
fn atomic_test_and_set_reports_prior_bit() {
    let mut bm: SpaceBitmap<16> = SpaceBitmap::create("test", 0x10_000, 4096);
    assert!(!bm.atomic_test_and_set(0x10_040));
    assert!(bm.test(0x10_040));
    assert!(bm.atomic_test_and_set(0x10_040));
    assert!(bm.test(0x10_040));
}

#[test]
fn find_header_across_a_zero_word() {
    let mut bm: SpaceBitmap<16> = SpaceBitmap::create("test", 0x10_000, 4096);
    bm.set(0x10_000);
    bm.set(0x10_000 + 1024);
    assert_eq!(bm.find_header(0x10_000 + 800), 0x10_000);
    assert_eq!(bm.find_header(0x10_000 + 1024), 0x10_000 + 1024);
    assert_eq!(bm.find_header(0x10_000 + 2000), 0x10_000 + 1024);
}

#[test]
fn sweep_walk_reports_live_and_unmarked() {
    let mut live: SpaceBitmap<16> = SpaceBitmap::create("live", 0x10_000, 4096);
    let mut mark: SpaceBitmap<16> = SpaceBitmap::create("mark", 0x10_000, 4096);
    let a = 0x10_000;
    live.set(a);
    live.set(a + 16);
    live.set(a + 32);
    mark.set(a + 16);
    let dead = SpaceBitmap::sweep_walk(&live, &mark, a, a + 48);
    assert_eq!(dead, vec![a, a + 32]);

    let nothing = SpaceBitmap::sweep_walk(&live, &mark, a + 48, a);
    assert!(nothing.is_empty());
}

#[test]
fn sweep_walk_color_recolours_and_reports_white() {
    let mut live: SpaceBitmap<16> = SpaceBitmap::create("live", 0, 4096);
    let a: usize = 0;
    live.set(a);
    live.set(a + 16);
    live.set(a + 32);
    let mut headers: Vec<HeapObjectHeader> = Vec::new();
    for _ in 0..256 {
        headers.push(HeapObjectHeader::new(0));
    }
    // Give the middle object a colour that is not `from`: it stayed white.
    assert!(!headers[1].set_color(0, 2));

    let white = SpaceBitmap::sweep_walk_color(&live, &mut headers, a, a + 48, 0, 1);
    assert_eq!(white, vec![a + 16]);

    // The objects whose colour was `from` were recoloured to `to`.
    assert!(!headers[0].set_color(1, 1));
    assert!(!headers[2].set_color(1, 1));
    // The reported object kept its colour.
    assert!(!headers[1].set_color(2, 2));
    // The untouched slot past the range kept colour 0.
    assert!(!headers[3].set_color(0, 0));
}

#[test]
fn clear_range_clears_exactly_the_range() {
    let mut bm: SpaceBitmap<16> = SpaceBitmap::create("test", 0, 0x10_000);
    for i in 0..200 {
        bm.set(i * 16);
    }
    bm.clear_range(10 * 16, 150 * 16);
    for i in 0..200 {
        let expect = !(10..150).contains(&i);
        assert_eq!(bm.test(i * 16), expect);
    }
}

#[test]
fn bitmap_size_round_trip_covers_capacity() {
    assert_eq!(SpaceBitmap::<16>::compute_bitmap_size(4096), 32);
    assert_eq!(SpaceBitmap::<16>::compute_heap_size(32), 4096);
    for c in [1u64, 100, 1023, 1024, 1025, 4096, 1 << 20] {
        let bitmap_bytes = SpaceBitmap::<16>::compute_bitmap_size(c);
        let covered = SpaceBitmap::<16>::compute_heap_size(bitmap_bytes as u64);
        assert!(covered as u64 >= c);
    }
}

#[test]
fn bitmap_coordinates() {
    let bm: SpaceBitmap<16> = SpaceBitmap::create("test", 0x10_000, 4096);
    assert_eq!(bm.heap_begin(), 0x10_000);
    assert_eq!(bm.heap_limit(), 0x11_000);
    assert_eq!(bm.size(), 32);
    assert_eq!(bm.heap_size(), 4096);
    assert_eq!(SpaceBitmap::<16>::index_to_offset(2), 2048);
    assert_eq!(SpaceBitmap::<16>::offset_to_index(2048), 2);
    assert_eq!(SpaceBitmap::<16>::offset_bit_index(0x30), 3);
    assert_eq!(SpaceBitmap::<16>::offset_to_mask(0x30), 8);
    let empty = SpaceBitmap::<16>::empty();
    assert!(empty.is_null());
}

#[test]
fn heap_bitmap_routes_to_owning_space() {
    let mut hb = HeapBitmap::new();
    let first: SpaceBitmap<16> = SpaceBitmap::create("first", 0x10_000, 4096);
    let second: SpaceBitmap<16> = SpaceBitmap::create("second", 0x20_000, 4096);
    hb.add_continuous_space(first);
    hb.add_continuous_space(second);

    assert!(!hb.set(0x10_040));
    assert!(!hb.set(0x20_080));
    assert!(hb.test(0x10_040));
    assert!(hb.test(0x20_080));
    assert!(!hb.test(0x10_050));
    // A miss means a precise/large object: reported unset, nothing changed.
    assert!(!hb.test(0x30_000));
    assert!(!hb.set(0x30_000));
    assert!(hb.get_continuous_space_bitmap(0x10_040).is_some());
    assert!(hb.get_continuous_space_bitmap(0x30_000).is_none());

    assert!(!hb.atomic_test_and_set(0x20_090));
    assert!(hb.atomic_test_and_set(0x20_090));
    assert!(hb.clear(0x10_040));
    assert!(!hb.test(0x10_040));
}

#[test]
fn object_start_bitmap_records_headers() {
    let mut osb = ObjectStartBitmap::new(0x10_000, 4096);
    osb.set_bit(0x10_000);
    osb.set_bit(0x10_400);
    assert!(osb.check_bit(0x10_000));
    assert!(osb.check_bit(0x10_400));
    assert!(!osb.check_bit(0x10_010));
    assert_eq!(osb.find_header(0x10_000 + 800), 0x10_000);
    assert_eq!(osb.find_header(0x10_400 + 12), 0x10_400);
    osb.clear_bit(0x10_400);
    assert!(!osb.check_bit(0x10_400));
    assert_eq!(osb.find_header(0x10_500), 0x10_000);
}

#[test]
fn object_start_bitmap_allocation_size() {
    assert_eq!(ObjectStartBitmap::allocation_size(4096), 64);
    assert_eq!(ObjectStartBitmap::allocation_size(0), 32);
}

#[test]
fn object_start_bitmap_clear_wipes_all_bits() {
    let mut osb = ObjectStartBitmap::new(0, 4096);
    for i in 0..32 {
        osb.set_bit(i * 16);
    }
    osb.clear();
    for i in 0..32 {
        assert!(!osb.check_bit(i * 16));
    }
}

#[test]
fn object_start_bitmap_load_store() {
    let mut osb = ObjectStartBitmap::new(0, 4096);
    assert_eq!(osb.load(3), 0);
    osb.store(3, 0xAB);
    assert_eq!(osb.load(3), 0xAB);
    let empty = ObjectStartBitmap::empty();
    assert_eq!(empty.offset, 0);
}

#[test]
fn clear_all_wipes_every_bit() {
    let mut bm: SpaceBitmap<16> = SpaceBitmap::create("test", 0, 4096);
    for i in 0..64 {
        bm.set(i * 16);
    }
    bm.clear_all();
    for i in 0..64 {
        assert!(!bm.test(i * 16));
    }
}

#[test]
fn set_heap_size_shrinks_the_view() {
    let mut bm: SpaceBitmap<16> = SpaceBitmap::create("test", 0, 4096);
    assert_eq!(bm.heap_size(), 4096);
    bm.set_heap_size(2048);
    assert_eq!(bm.heap_size(), 2048);
    assert_eq!(bm.size(), 16);
}

#[test]
fn bitmap_names() {
    let mut bm: SpaceBitmap<16> = SpaceBitmap::create("young", 0, 4096);
    assert_eq!(bm.get_name(), "young");
    bm.set_name("old");
    assert_eq!(bm.get_name(), "old");
}
