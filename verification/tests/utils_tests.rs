use comet_core::utils::align_down;
use comet_core::utils::align_up;
use comet_core::utils::align_usize;
use comet_core::utils::formatted_size;
use comet_core::utils::is_aligned;
use comet_core::utils::round_down;
use comet_core::utils::round_down_to_power_of_two32;
use comet_core::utils::round_up;
use comet_core::utils::round_up_to_power_of_two32;
use comet_core::utils::which_power_of_two;

#[test]
fn align_down_to_power_of_two() {
    assert_eq!(align_down(0x1234, 16), 0x1230);
    assert_eq!(align_down(0x1230, 16), 0x1230);
    assert_eq!(align_down(15, 16), 0);
    assert_eq!(align_down(0x1234, 1), 0x1234);
}

#[test]
fn align_up_to_power_of_two() {
    assert_eq!(align_up(0x1234, 16), 0x1240);
    assert_eq!(align_up(0x1240, 16), 0x1240);
    assert_eq!(align_up(1, 4096), 4096);
    assert_eq!(align_up(0, 8), 0);
}

#[test]
fn is_aligned_checks_remainder() {
    assert!(is_aligned(0x1000, 16));
    assert!(!is_aligned(0x1001, 16));
    assert!(is_aligned(0, 4096));
    assert!(is_aligned(7, 1));
}

#[test]
fn align_usize_works_for_any_alignment() {
    assert_eq!(align_usize(10, 3), 12);
    assert_eq!(align_usize(12, 3), 12);
    assert_eq!(align_usize(100, 16), 112);
    assert_eq!(align_usize(0, 5), 0);
}

#[test]
fn round_down_and_up_64() {
    assert_eq!(round_down(1000, 256), 768);
    assert_eq!(round_down(768, 256), 768);
    assert_eq!(round_up(1000, 256), 1024);
    assert_eq!(round_up(1024, 256), 1024);
    assert_eq!(round_up(1, 1), 1);
}

#[test]
fn which_power_of_two_counts_trailing_zeros() {
    assert_eq!(which_power_of_two(16), 4);
    assert_eq!(which_power_of_two(1), 0);
    assert_eq!(which_power_of_two(0), 64);
    assert_eq!(which_power_of_two(0x8000_0000_0000_0000), 63);
    assert_eq!(which_power_of_two(12), 2);
}

#[test]
fn round_up_to_power_of_two_32() {
    assert_eq!(round_up_to_power_of_two32(0), 1);
    assert_eq!(round_up_to_power_of_two32(1), 1);
    assert_eq!(round_up_to_power_of_two32(5), 8);
    assert_eq!(round_up_to_power_of_two32(1024), 1024);
    assert_eq!(round_up_to_power_of_two32(1025), 2048);
    assert_eq!(round_up_to_power_of_two32(0x8000_0000), 0x8000_0000);
}

#[test]
fn round_down_to_power_of_two_32() {
    assert_eq!(round_down_to_power_of_two32(0), 0);
    assert_eq!(round_down_to_power_of_two32(1), 1);
    assert_eq!(round_down_to_power_of_two32(5), 4);
    assert_eq!(round_down_to_power_of_two32(1024), 1024);
    assert_eq!(round_down_to_power_of_two32(0x9000_0000), 0x8000_0000);
    assert_eq!(round_down_to_power_of_two32(u32::MAX), 0x8000_0000);
}

#[test]
fn formatted_size_wraps_the_count() {
    assert_eq!(formatted_size(123).size, 123);
    assert_eq!(formatted_size(0).size, 0);
}
