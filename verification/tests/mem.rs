use touchhle::mem::{Mem, MutPtr, Ptr, PAGE_SIZE};

#[test]
fn lazy_commit_far_addresses() {
    let mut mem = Mem::new();

    mem.set_null_segment_size(PAGE_SIZE);

    let probes: [u32; 6] = [
        0x0000_1000,
        0x1000_0000,
        0x4000_0000,
        0x8000_0000,
        0xC000_0000,
        0xFFFE_F000,
    ];
    for &addr in &probes {
        let p: MutPtr<u8> = Ptr::from_bits(addr);
        mem.write(p, 0xAB);
        assert_eq!(mem.read(p.cast_const()), 0xAB);
    }
}

#[test]
fn ptr_arithmetic_wraps_modulo_2_32() {
    // Real 32-bit ARM computes addresses modulo 2^32 and never traps on
    // the arithmetic itself.
    let near_top: Ptr<u8, true> = Ptr::from_bits(0xFFFF_FFFB);
    assert_eq!((near_top + 0x10).to_bits(), 0x0000_000B);

    let low: Ptr<u8, true> = Ptr::from_bits(0x0000_0004);
    assert_eq!((low - 0x10).to_bits(), 0xFFFF_FFF4);

    // Element-sized arithmetic (u32 = 4 bytes) must also wrap rather than
    // overflow when the multiplied offset exceeds the address space.
    let p: Ptr<u32, true> = Ptr::from_bits(0xFFFF_FFF0);
    assert_eq!((p + 0x8).to_bits(), 0x0000_0010);
}
