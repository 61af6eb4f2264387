use risc_core::io::NoreboMem;

#[test]
fn norebo_memory_is_byte_addressed_little_endian() {
    let mut mem = NoreboMem::new(vec![0u32; 4], 16);
    assert_eq!(mem.size(), 16);
    mem.write_byte(4, 0x11);
    mem.write_byte(5, 0x22);
    assert_eq!(mem.read_word(4), 0x2211);
    assert_eq!(mem.read_byte(5), 0x22);
    mem.write_bytes(9, b"abc");
    let mut got = [0u8; 3];
    mem.read_bytes(9, &mut got);
    assert_eq!(&got, b"abc");
    let ram = mem.into_ram();
    assert_eq!(ram[1], 0x2211);
    assert_eq!(ram[2], 0x6362_6100);
    assert_eq!(ram[3], 0);
}
