use arceos_loader::dtb::{bytes_to_addr_size, node_path, read_reg, starts_with, DtbError};

#[test]
fn reg_halves_read_big_endian() {
    let reg = [0, 0, 0, 0, 0x80, 0, 0, 0, 0, 0, 0, 0, 0x08, 0, 0, 0];
    assert_eq!(bytes_to_addr_size(&reg), (0x8000_0000, 0x0800_0000));
    assert_eq!(read_reg(&reg), Some((0x8000_0000, 0x0800_0000)));
}

#[test]
fn reg_with_odd_length_gives_the_extra_byte_to_size() {
    assert_eq!(bytes_to_addr_size(&[0x12, 0x34, 0x56]), (0x12, 0x3456));
    assert_eq!(bytes_to_addr_size(&[]), (0, 0));
    assert_eq!(bytes_to_addr_size(&[7]), (0, 7));
}

#[test]
fn reg_too_wide_is_refused() {
    let width = std::mem::size_of::<usize>();
    let reg = vec![1u8; 2 * (width + 1)];
    assert_eq!(read_reg(&reg), None);
    let mut fits = vec![0u8; 2 * (width + 1)];
    fits[width + 1] = 0;
    fits[2 * width + 1] = 5;
    assert_eq!(read_reg(&fits), Some((0, 5)));
}

#[test]
fn prefixes_and_paths() {
    assert!(starts_with("memory@80000000", "memory"));
    assert!(starts_with("soc", "soc"));
    assert!(!starts_with("so", "soc"));
    assert!(!starts_with("cpus", "memory"));
    assert!(starts_with("virtio_mmio@10001000", "virtio_mmio@"));
    assert_eq!(node_path("/", "soc"), "/soc/");
    assert_eq!(node_path("/soc/", "virtio_mmio@10001000"), "/soc/virtio_mmio@10001000/");
}

#[test]
fn error_message() {
    assert_eq!(DtbError::FAIL.message(), "Error:Fail");
}
