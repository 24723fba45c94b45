use arceos_loader::loader::{
    apps_code_addr, app_size_addr, bytes_to_usize, init_app_page_table, register_abi, register_abi_table,
    PLASH_START, RUN_START, SYS_HELLO, SYS_PUTCHAR, SYS_TERMINATE,
};

#[test]
fn bytes_to_usize_reads_big_endian() {
    assert_eq!(bytes_to_usize(&[]), 0);
    assert_eq!(bytes_to_usize(&[0x01, 0x02]), 0x0102);
    assert_eq!(bytes_to_usize(&[0x00, 0x03]), 3);
    assert_eq!(bytes_to_usize(&[0xff, 0xff]), 0xffff);
}

#[test]
fn bytes_to_usize_keeps_the_last_word() {
    let width = (usize::BITS / 8) as usize;
    let mut bytes = vec![0xab];
    bytes.extend(std::iter::repeat(0x11).take(width));
    let expected = usize::from_be_bytes([0x11; std::mem::size_of::<usize>()]);
    assert_eq!(bytes_to_usize(&bytes), expected);
}

#[test]
fn abi_table_entries() {
    let mut table = [0usize; 16];
    register_abi_table(&mut table, 0x100, 0x200, 0x300);
    assert_eq!(table[SYS_HELLO], 0x100);
    assert_eq!(table[SYS_PUTCHAR], 0x200);
    assert_eq!(table[SYS_TERMINATE], 0x300);
    assert_eq!(table[0], 0);
    assert_eq!(table[4], 0);
    register_abi(&mut table, 15, 7);
    assert_eq!(table[15], 7);
}

#[test]
fn app_page_tables_map_four_gigapages() {
    let mut tables = [[0u64; 512]; 10];
    tables[3][7] = 9;
    init_app_page_table(&mut tables, 2);
    for t in &tables[..2] {
        assert_eq!(t[0], 0xef);
        assert_eq!(t[1], 0x2000_00ef);
        assert_eq!(t[2], 0x2000_00ef);
        assert_eq!(t[0x102], 0x2000_00ef);
        assert_eq!(t[3], 0);
    }
    assert_eq!(tables[2], [0u64; 512]);
    assert_eq!(tables[3][7], 9);
    let once = tables;
    init_app_page_table(&mut tables, 2);
    assert_eq!(tables, once);
}

#[test]
fn image_layout_addresses() {
    assert_eq!(app_size_addr(0), PLASH_START + 2);
    assert_eq!(app_size_addr(3), PLASH_START + 5);
    assert_eq!(apps_code_addr(0), PLASH_START + 2);
    assert_eq!(apps_code_addr(3), PLASH_START + 8);
    assert_eq!(RUN_START, 0x4010_0000);
}
