use arceos_loader::align::{align_down, align_up, is_power_of_two};

#[test]
fn powers_of_two() {
    assert!(is_power_of_two(1));
    assert!(is_power_of_two(2));
    assert!(is_power_of_two(4096));
    assert!(is_power_of_two(1usize << (usize::BITS - 1)));
    assert!(!is_power_of_two(0));
    assert!(!is_power_of_two(3));
    assert!(!is_power_of_two(12288));
    assert!(!is_power_of_two(usize::MAX));
}

#[test]
fn rounding_to_alignment() {
    assert_eq!(align_up(0x3800, 0x1000), 0x4000);
    assert_eq!(align_up(0x4000, 0x1000), 0x4000);
    assert_eq!(align_up(0, 8), 0);
    assert_eq!(align_up(1, 8), 8);
    assert_eq!(align_down(0x3fff, 0x1000), 0x3000);
    assert_eq!(align_down(0x4000, 0x1000), 0x4000);
    assert_eq!(align_down(7, 8), 0);
}
