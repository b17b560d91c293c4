use touchhle::mem::null_log::{access_context, NullAccessLog, NullAccessReport, MAX_UNIQUE_LOGS};
use touchhle::mem::{
    guest_size_of, ConstPtr, ConstVoidPtr, Mem, MissingMemory, MoveProblem, MutPtr, MutVoidPtr,
    NonNullPtr, Ptr, MACH_TASK_SELF, PAGE_SIZE,
};

fn mapped_mem() -> Mem {
    let mut mem = Mem::new();
    mem.set_null_segment_size(PAGE_SIZE);
    mem
}

#[test]
fn pointers_convert_and_compare() {
    let p: MutPtr<u32> = Ptr::from_bits(0x1234);
    assert_eq!(p.to_bits(), 0x1234);
    assert!(p == p.cast_const().cast_mut());
    assert_eq!(p.cast::<u8>().to_bits(), 0x1234);
    assert_eq!(p.cast_void().to_bits(), 0x1234);
    assert!(!p.is_null());
    assert!(MutPtr::<u8>::null().is_null());
    assert!(MutPtr::<u8>::default().is_null());
    assert!(MutPtr::<u8>::null().non_null().is_none());
    let n = p.non_null().unwrap();
    assert_eq!(n.to_bits(), 0x1234);
    assert_eq!(n.mut_ptr().to_bits(), 0x1234);
    assert_eq!(n.const_ptr().to_bits(), 0x1234);
    assert_eq!(n.cast::<u8>().to_bits(), 0x1234);
    assert_eq!(n.cast_void().to_bits(), 0x1234);
    assert!(NonNullPtr::<u8>::try_from_bits(0).is_none());
    assert_eq!(NonNullPtr::<u8>::from_bits(9).to_bits(), 9);
    assert_eq!(guest_size_of::<u64>(), 8);
}

#[test]
fn pointers_step_by_elements() {
    let mut p: MutPtr<u16> = Ptr::from_bits(0x1000);
    p += 3;
    assert_eq!(p.to_bits(), 0x1006);
    p -= 4;
    assert_eq!(p.to_bits(), 0xffe);
    assert_eq!(((p + 7) - 7).to_bits(), p.to_bits());
}

#[test]
fn pointers_describe_themselves() {
    assert_eq!(ConstVoidPtr::null().describe(), "(null)");
    assert_eq!(ConstVoidPtr::from_bits(0xdeadbeef).describe(), "0xdeadbeef");
    assert_eq!(ConstVoidPtr::from_bits(0x10).describe(), "0x10");
}

#[test]
fn values_are_little_endian_in_memory() {
    let mut mem = mapped_mem();
    let p: MutPtr<u32> = Ptr::from_bits(0x2001);
    mem.write(p, 0x1234_5678u32);
    assert_eq!(mem.bytes_at(p.cast::<u8>(), 4), vec![0x78, 0x56, 0x34, 0x12]);
    assert_eq!(mem.read(p.cast::<u16>()), 0x5678);
    mem.write(p.cast::<i16>(), -2i16);
    assert_eq!(mem.bytes_at(p.cast::<u8>(), 2), vec![0xfe, 0xff]);
    assert_eq!(mem.read(p.cast::<i16>()), -2);
    mem.write(p.cast::<i64>(), i64::MIN);
    assert_eq!(mem.read(p.cast::<i64>()), i64::MIN);
    assert_eq!(mem.read(p.cast::<u64>()), 1 << 63);
    mem.write(p.cast::<i8>(), -128i8);
    assert_eq!(mem.read(p.cast::<u8>()), 128);
    mem.write(p.cast::<i32>(), -1i32);
    assert_eq!(mem.read(p.cast::<u32>()), u32::MAX);
    mem.write(p.cast::<bool>(), true);
    assert_eq!(mem.read(p.cast::<u8>()), 1);
    mem.write(p.cast::<u8>(), 7);
    assert!(mem.read(p.cast::<bool>()));
    let inner: MutPtr<u8> = Ptr::from_bits(0xabcd);
    mem.write(p.cast::<MutPtr<u8>>(), inner);
    assert_eq!(mem.read(p.cast::<MutPtr<u8>>()).to_bits(), 0xabcd);
    mem.write(p.cast::<u64>(), 0x0102_0304_0506_0708u64);
    assert_eq!(mem.read(p.cast::<u64>()), 0x0102_0304_0506_0708);
}

#[test]
fn null_page_reads_zero_and_swallows_writes() {
    let mut mem = mapped_mem();
    let p: MutPtr<u32> = Ptr::from_bits(0x10);
    mem.write(p, 0xdead_beefu32);
    assert_eq!(mem.read(p), 0);
    assert_eq!(mem.bytes_at(p.cast::<u8>(), 4), vec![0; 4]);
    // What stands in for missing memory ends with its page.
    assert_eq!(mem.bytes_at(Ptr::<u8, false>::from_bits(0xffe), 100).len(), 2);
    assert_eq!(mem.bytes_at(Ptr::<u8, false>::from_bits(0xffff_fff0), 0x20), vec![0; 16]);
    // The sink keeps what was last written, where nobody looks.
    assert_eq!(mem.bytes_at_mut(p.cast(), 4).to_vec(), vec![0xef, 0xbe, 0xad, 0xde]);
    // Without the check, the null page is ordinary memory.
    assert_eq!(mem.unchecked_bytes_at(p.cast::<u8>(), 4), vec![0; 4]);
    assert_eq!(mem.unchecked_bytes_at(Ptr::<u8, true>::from_bits(u32::MAX), 2), vec![0]);
}

#[test]
fn debugger_access_is_fallible() {
    let mut mem = mapped_mem();
    mem.write(Ptr::<u8, true>::from_bits(0x3000), 5);
    assert_eq!(mem.get_bytes_fallible(Ptr::from_bits(0x3000), 2), Some(vec![5, 0]));
    assert_eq!(mem.get_bytes_fallible(Ptr::from_bits(0x8), 2), Some(vec![0, 0]));
    assert_eq!(mem.get_bytes_fallible(Ptr::from_bits(u32::MAX), 2), None);
    assert!(mem.get_bytes_fallible_mut(Ptr::from_bits(0x8), 2).is_none());
    assert!(mem.get_bytes_fallible_mut(Ptr::from_bits(u32::MAX), 2).is_none());
    mem.get_bytes_fallible_mut(Ptr::from_bits(0x3000), 2).unwrap()[1] = 6;
    assert_eq!(mem.get_bytes_fallible(Ptr::from_bits(0x3000), 2), Some(vec![5, 6]));
}

#[test]
fn typed_slices_count_elements() {
    let mut mem = mapped_mem();
    let p: MutPtr<u32> = Ptr::from_bits(0x4000);
    mem.ptr_at_mut(p, 2)[4] = 9;
    assert_eq!(mem.ptr_at(p, 2), vec![0, 0, 0, 0, 9, 0, 0, 0]);
    assert_eq!(mem.unchecked_ptr_at(p, 1), vec![0; 4]);
}

#[test]
fn allocations_are_lowest_first_and_apart() {
    let mut mem = mapped_mem();
    let a = mem.allocate(1).to_bits();
    let b = mem.allocate(17).to_bits();
    let c = mem.allocate(0).to_bits();
    assert_eq!((a, b, c), (0x1000, 0x1010, 0x1030));
    assert_eq!(mem.malloc_size(Ptr::from_bits(a)), 16);
    assert_eq!(mem.malloc_size(Ptr::from_bits(b)), 32);
    assert_eq!(mem.malloc_size(Ptr::from_bits(a + 1)), 0);
    assert_eq!(mem.malloc_size(ConstVoidPtr::null()), 0);
    assert!(mem.is_known_allocation(b));
    assert!(!mem.is_known_allocation(b + 16));
    mem.free(Ptr::from_bits(b));
    assert!(!mem.is_known_allocation(b));
    // The gap is used again.
    assert_eq!(mem.allocate(32).to_bits(), b);
    assert_eq!(mem.live_allocations(), vec![(a, 16), (b, 32), (c, 16)]);
    assert!(!mem.can_allocate(u32::MAX));
    assert!(mem.can_allocate(0x1000_0000));
}

#[test]
fn reservations_are_kept_clear() {
    let mut mem = mapped_mem();
    assert!(mem.can_reserve(0x1000, 0x100));
    mem.reserve(0x1000, 0x100);
    assert!(!mem.can_reserve(0x10ff, 1));
    assert!(mem.can_reserve(0x1000, 0));
    mem.reserve(0x1000, 0);
    assert_eq!(mem.allocate(16).to_bits(), 0x1100);
    // The stack of the main thread is taken from the start.
    assert!(!mem.can_reserve(Mem::MAIN_THREAD_STACK_LOW_END, 1));
    assert!(mem.can_reserve(Mem::MAIN_THREAD_STACK_LOW_END - 1, 1));
    assert_eq!(mem.null_segment_size(), PAGE_SIZE);
}

#[test]
fn freed_or_fresh_memory_is_zero() {
    let mut mem = mapped_mem();
    let p = mem.allocate(32);
    mem.bytes_at_mut(p.cast(), 32).fill(7);
    mem.free(p);
    assert_eq!(mem.bytes_at(p.cast::<u8>(), 32), vec![0; 32]);

    mem.set_zero_memory_on_free(false);
    let p = mem.allocate(32);
    mem.bytes_at_mut(p.cast(), 32).fill(7);
    mem.free(p);
    assert_eq!(mem.bytes_at(p.cast::<u8>(), 32), vec![7; 32]);
    assert_eq!(mem.allocate(32).to_bits(), p.to_bits());
    assert_eq!(mem.bytes_at(p.cast::<u8>(), 32), vec![0; 32]);

    mem.bytes_at_mut(p.cast(), 32).fill(7);
    mem.set_zero_memory_on_free(true);
    let q = mem.calloc(20);
    assert_eq!(mem.bytes_at(q.cast::<u8>(), 20), vec![0; 20]);
}

#[test]
fn freeing_garbage_is_ignored() {
    let mut mem = mapped_mem();
    let p = mem.allocate(16);
    mem.write(p.cast::<u8>(), 3);
    mem.free(MutVoidPtr::null());
    mem.free(Ptr::from_bits(MACH_TASK_SELF));
    mem.free(Ptr::from_bits(p.to_bits() + 4));
    assert!(mem.is_known_allocation(p.to_bits()));
    assert_eq!(mem.read(p.cast::<u8>()), 3);
    mem.free(p);
    mem.free(p);
    assert!(mem.live_allocations().is_empty());
}

#[test]
fn realloc_keeps_the_bytes() {
    let mut mem = mapped_mem();
    let p = mem.realloc(MutVoidPtr::null(), 16);
    mem.bytes_at_mut(p.cast(), 16).fill(9);
    assert_eq!(mem.realloc(p, 10).to_bits(), p.to_bits());
    let q = mem.realloc(p, 100);
    assert_ne!(q.to_bits(), p.to_bits());
    assert_eq!(mem.bytes_at(q.cast::<u8>(), 16), vec![9; 16]);
    assert_eq!(mem.malloc_size(q.cast_const()), 112);
    assert!(!mem.is_known_allocation(p.to_bits()));
    assert_eq!(mem.bytes_at(p.cast::<u8>(), 16), vec![0; 16]);
}

#[test]
fn memmove_handles_overlap_and_nonsense() {
    let mut mem = mapped_mem();
    for i in 0..8u32 {
        mem.write(Ptr::<u8, true>::from_bits(0x5000 + i), i as u8);
    }
    mem.memmove(Ptr::from_bits(0x5002), Ptr::from_bits(0x5000), 6);
    assert_eq!(mem.bytes_at(Ptr::<u8, true>::from_bits(0x5000), 8), vec![0, 1, 0, 1, 2, 3, 4, 5]);
    mem.memmove(Ptr::from_bits(0x5000), Ptr::from_bits(0x5003), 4);
    let now = vec![1, 2, 3, 4, 2, 3, 4, 5];
    assert_eq!(mem.bytes_at(Ptr::<u8, true>::from_bits(0x5000), 8), now);
    mem.memmove(Ptr::from_bits(0x5000), Ptr::from_bits(0x6000), 0x8000_0000);
    mem.memmove(Ptr::from_bits(0x5000), ConstVoidPtr::null(), 4);
    mem.memmove(Ptr::from_bits(0x5000), Ptr::from_bits(0xffff_fffe), 4);
    mem.memmove(Ptr::from_bits(0xffff_fffe), Ptr::from_bits(0x5000), 4);
    assert_eq!(mem.bytes_at(Ptr::<u8, true>::from_bits(0x5000), 8), now);
}

#[test]
fn c_strings_round_trip() {
    let mut mem = mapped_mem();
    let p = mem.alloc_and_write_cstr(b"hello");
    assert_eq!(mem.cstr_at(p), b"hello".to_vec());
    assert_eq!(mem.cstr_at_utf8(p), Ok("hello".to_string()));
    assert_eq!(mem.cstr_at_with_max_len(p, 3), b"hel".to_vec());
    assert_eq!(mem.cstr_at_with_max_len(p, 0), Vec::<u8>::new());
    let bad = mem.alloc_and_write_cstr(&[0x66, 0xff]);
    assert_eq!(mem.cstr_at_utf8(bad), Err(vec![0x66, 0xff]));
    let q = mem.alloc_and_write(0x0102u16);
    assert_eq!(mem.read(q), 0x0102);
    assert_eq!(mem.cstr_at(ConstPtr::<u8>::null()), Vec::<u8>::new());
}

#[test]
fn unterminated_strings_are_cut_off() {
    let mut mem = mapped_mem();
    let p: MutPtr<u8> = Ptr::from_bits(0x10_0000);
    mem.bytes_at_mut(p, 70_000).fill(b'x');
    assert_eq!(mem.cstr_at(p).len(), 65_536);
    assert_eq!(mem.cstr_at_with_max_len(p, 70_001).len(), 70_000);
}

#[test]
fn wide_strings_replace_what_is_no_character() {
    let mut mem = mapped_mem();
    let p: MutPtr<u32> = Ptr::from_bits(0x7000);
    for (i, code) in [0x48, 0x1f600, 0xd800, 0x11_0000, 0].iter().enumerate() {
        mem.write(p + i as u32, *code as u32);
    }
    assert_eq!(mem.wcstr_at(p), "H\u{1f600}\u{fffd}\u{fffd}");
}

#[test]
fn strings_at_the_end_of_memory_are_missing() {
    let mut mem = Mem::new();
    for addr in [0xffff_fffeu32, 0xffff_ffff, 0, 1] {
        mem.write(Ptr::<u8, true>::from_bits(addr), b'a');
    }
    // The scan wraps around, the bytes don't.
    assert_eq!(mem.cstr_at(Ptr::<u8, true>::from_bits(0xffff_fffe)), vec![0, 0]);
}

#[test]
fn host_addresses_translate() {
    let mem = Mem::new();
    assert!(mem.is_host_ptr_in_guest_mem(1000, 1000));
    assert!(mem.is_host_ptr_in_guest_mem(1000, 1000 + 0xffff_ffff));
    assert!(!mem.is_host_ptr_in_guest_mem(1000, 1000 + 0x1_0000_0000));
    assert!(!mem.is_host_ptr_in_guest_mem(1000, 999));
    assert_eq!(mem.host_ptr_to_guest_ptr(1000, 1234).to_bits(), 234);
}

#[test]
fn null_accesses_are_logged_once_and_not_forever() {
    let mut log = NullAccessLog::new();
    assert_eq!(log.record(4, false), NullAccessReport::Logged { sites: 1 });
    assert_eq!(log.record(4, false), NullAccessReport::Silent);
    assert_eq!(log.record(4, true), NullAccessReport::Logged { sites: 2 });
    for i in 2..MAX_UNIQUE_LOGS {
        assert_eq!(log.record(1000 + i as u32, false), NullAccessReport::Logged { sites: i + 1 });
    }
    assert_eq!(log.record(9999, false), NullAccessReport::Silenced);
    assert_eq!(log.record(9999, false), NullAccessReport::Silent);
    assert_eq!(log.record(8888, true), NullAccessReport::Silent);
    assert_eq!(access_context(8, false), " (likely nil ObjC object field access — returning zero)");
    assert_eq!(access_context(8, true), " (likely nil ObjC object field write — discarding)");
    assert_eq!(access_context(0x1000, true), " — returning stub page");
}

#[test]
fn the_notice_comes_once() {
    let mut log = NullAccessLog::new();
    // A read just below the end of memory is an access like any other.
    assert_eq!(log.record(0xffff_fffe, false), NullAccessReport::Logged { sites: 1 });
    for i in 1..MAX_UNIQUE_LOGS {
        assert_eq!(log.record(i as u32, true), NullAccessReport::Logged { sites: i + 1 });
    }
    assert_eq!(log.record(0xffff_fffe, false), NullAccessReport::Silent);
    assert_eq!(log.record(5, true), NullAccessReport::Silent);
    let reports: Vec<NullAccessReport> = (0..100).map(|i| log.record(0x2000 + i, false)).collect();
    assert_eq!(reports[0], NullAccessReport::Silenced);
    assert!(reports[1..].iter().all(|r| *r == NullAccessReport::Silent));
}

#[test]
fn known_allocations_are_those_handed_out() {
    let mut mem = mapped_mem();
    let a = mem.allocate(40).to_bits();
    let b = mem.calloc(100).to_bits();
    let c = mem.alloc_and_write(7u32).to_bits();
    let d = mem.alloc_and_write_cstr(b"text").to_bits();
    let e = mem.realloc(Ptr::null(), 24).to_bits();
    for (base, size) in [(a, 40), (b, 100), (c, 4), (d, 5), (e, 24)] {
        assert!(mem.is_known_allocation(base));
        assert!(mem.malloc_size(Ptr::from_bits(base)) >= size);
        assert!(!mem.is_known_allocation(base + 1));
        assert_eq!(mem.malloc_size(Ptr::from_bits(base + 1)), 0);
    }
    assert!(!mem.is_known_allocation(0));
    assert_eq!(mem.malloc_size(Ptr::null()), 0);
    // Made smaller, the block keeps its size; made larger, it is moved.
    assert_eq!(mem.realloc(Ptr::from_bits(b), 10).to_bits(), b);
    assert!(mem.malloc_size(Ptr::from_bits(b)) >= 100);
    let moved = mem.realloc(Ptr::from_bits(b), 1000).to_bits();
    assert!(mem.is_known_allocation(moved) && !mem.is_known_allocation(b));
    assert!(mem.malloc_size(Ptr::from_bits(moved)) >= 1000);
    mem.free(Ptr::from_bits(a));
    mem.write(Ptr::<u32, true>::from_bits(c), 9);
    assert!(!mem.is_known_allocation(a) && mem.is_known_allocation(c));
    assert_eq!(mem.malloc_size(Ptr::from_bits(a)), 0);
    mem.free(Ptr::from_bits(c + 1));
    assert!(mem.is_known_allocation(c));
}

#[test]
fn unchecked_access_sees_the_null_segment() {
    let mut mem = Mem::new();
    mem.write(Ptr::<u32, true>::from_bits(0x10), 0x0403_0201);
    mem.write(Ptr::<u32, true>::from_bits(0x2000), 0x0807_0605);
    mem.set_null_segment_size(PAGE_SIZE);
    let low: ConstPtr<u8> = Ptr::from_bits(0x10);
    assert_eq!(mem.unchecked_ptr_at(low, 4), vec![1, 2, 3, 4]);
    assert_eq!(mem.ptr_at(low, 4), vec![0; 4]);
    let high: ConstPtr<u8> = Ptr::from_bits(0x2000);
    assert_eq!(mem.unchecked_ptr_at(high, 4), vec![5, 6, 7, 8]);
    assert_eq!(mem.ptr_at(high, 4), mem.unchecked_ptr_at(high, 4));
    let start = 0x10_0000usize;
    for addr in [0x10, 0x2000, 0xffff_ffffu32] {
        let host = start + addr as usize;
        assert!(mem.is_host_ptr_in_guest_mem(start, host));
        assert_eq!(mem.host_ptr_to_guest_ptr(start, host).to_bits(), addr);
    }
}

#[test]
fn strings_are_the_longest_runs_within_the_limit() {
    let mut mem = mapped_mem();
    let p = mem.alloc_and_write_cstr(b"hello");
    for limit in 0..8u32 {
        let expected = &b"hello"[..(limit as usize).min(5)];
        assert_eq!(mem.cstr_at_with_max_len(p, limit), expected.to_vec());
    }
    let empty = mem.alloc_and_write_cstr(b"");
    assert_eq!(mem.cstr_at_with_max_len(empty, 3), Vec::<u8>::new());
}

#[test]
fn reserved_memory_is_never_handed_out() {
    let mut mem = mapped_mem();
    let (start, len) = (0x1_0000u32, 0x3_0000u32);
    mem.reserve(start, len);
    mem.reserve(0x9000, 0);
    let apart = |base: u32, size: u32| base + size <= start || start + len <= base;
    let mut live = vec![];
    for round in 0..40u32 {
        let size = 0x800 + round * 0x100;
        let base = match round % 3 {
            0 => mem.allocate(size).to_bits(),
            1 => mem.calloc(size).to_bits(),
            _ => {
                let old = mem.allocate(16);
                mem.realloc(old, size).to_bits()
            }
        };
        assert!(apart(base, size));
        live.push(base);
        if round % 4 == 3 {
            mem.free(Ptr::from_bits(live.remove(0)));
        }
        mem.write(Ptr::<u32, true>::from_bits(start), round);
        mem.set_zero_memory_on_free(round % 2 == 0);
    }
    assert!(mem.live_allocations().iter().all(|&(base, size)| apart(base, size)));
    assert!(!mem.can_reserve(start, 16));
}

#[test]
fn what_is_allocated_and_written_is_read_back() {
    let mut mem = mapped_mem();
    let first = mem.alloc_and_write(0x0102_0304u32);
    let text = mem.alloc_and_write_cstr(b"text");
    let second = mem.alloc_and_write(0xfffeu16);
    assert_eq!(mem.read(first), 0x0102_0304);
    assert_eq!(mem.cstr_at(text), b"text".to_vec());
    assert_eq!(mem.read(text + 4), 0);
    assert_eq!(mem.read(second), 0xfffe);
    assert!(mem.malloc_size(text.cast_void().cast_const()) >= 5);
    assert!(mem.malloc_size(second.cast_void().cast_const()) >= 2);
    let bases = [first.to_bits(), text.to_bits(), second.to_bits()];
    assert!(bases[0] != bases[1] && bases[1] != bases[2] && bases[0] != bases[2]);
}

#[test]
fn missing_memory_and_bad_moves_are_explained() {
    let mem = mapped_mem();
    assert_eq!(mem.missing(PAGE_SIZE, 4), None);
    assert_eq!(mem.missing(0xffff_fffc, 4), None);
    assert_eq!(mem.missing(PAGE_SIZE - 1, 0), Some(MissingMemory::NullSegment));
    assert_eq!(mem.missing(0xffff_fffd, 4), Some(MissingMemory::PastEnd));
    let problem = |dest: u32, src: u32, size: u32| {
        Mem::move_problem(MutVoidPtr::from_bits(dest), ConstVoidPtr::from_bits(src), size)
    };
    assert_eq!(problem(0x2000, 0x3000, 16), None);
    assert_eq!(problem(0x2000, 0, 0), None);
    assert_eq!(problem(0x2000, 0x3000, 0x8000_0000), Some(MoveProblem::NegativeSize));
    assert_eq!(problem(0x2000, 0, 1), Some(MoveProblem::NullSource));
    assert_eq!(problem(0x2000, 0xffff_fff8, 16), Some(MoveProblem::PastEnd));
    assert_eq!(problem(0xffff_fff8, 0x2000, 16), Some(MoveProblem::PastEnd));
}

#[test]
fn storage_grows_where_it_is_written() {
    let mut mem = mapped_mem();
    let a: MutPtr<u8> = Ptr::from_bits(0x2_0000);
    let b: MutPtr<u8> = Ptr::from_bits(0x2_3000);
    mem.write(a, 1);
    mem.write(b, 2);
    // A range over both, and what lies between.
    let all = mem.bytes_at_mut(a, 0x4000);
    assert_eq!((all[0], all[0x3000], all[0x1800]), (1, 2, 0));
    all[0x1800] = 3;
    assert_eq!(mem.read(Ptr::<u8, true>::from_bits(0x2_1800)), 3);
    let copy = mem.bytes_at(a, 0x3001);
    assert_eq!((copy[0], copy[0x1800], copy[0x3000]), (1, 3, 2));
    mem.calloc(16);
}
