use touchhle::mem::{Mem, MutVoidPtr, PAGE_SIZE};
use touchhle::trainer::value::Shown;
use touchhle::trainer::{
    apply_bulk, plan_bulk, search_all, BulkError, SearchResult, Trainer, TrainerReply, VType,
    BULK_CONFIRM_TIMEOUT,
};
use touchhle::trainer_ui::TrainerCmd;

fn memory(size: u32) -> (Mem, u32) {
    let mut mem = Mem::new();
    mem.set_null_segment_size(PAGE_SIZE);
    let ptr = mem.allocate(size);
    (mem, ptr.to_bits())
}

fn hit(addr: u32, vtype: VType, bits: u64) -> SearchResult {
    SearchResult { addr, vtype, bits, changed: false }
}

#[test]
fn integers_may_have_signs_and_hex_prefixes() {
    assert_eq!(VType::I32.parse("+5"), Some(5));
    assert_eq!(VType::U8.parse("-0"), Some(0));
    assert_eq!(VType::U16.parse("0xFfFf"), Some(65535));
    assert_eq!(VType::U16.parse("0x10000"), None);
    assert_eq!(VType::U32.parse("0x"), None);
    assert_eq!(VType::U32.parse("0X1"), None);
    assert_eq!(VType::U32.parse("0xg"), None);
    assert_eq!(VType::U32.parse("12a"), None);
    assert_eq!(VType::U32.parse(""), None);
    assert_eq!(VType::U32.parse("-"), None);
    assert_eq!(VType::U32.parse("99999999999999999999999999999999999999999"), None);
    assert_eq!(VType::F32.parse("0x7fc00000"), Some(0x7fc00000));
    assert_eq!(VType::F32.parse("0x100000000"), None);
    assert_eq!(VType::Auto.parse("1"), None);
}

#[test]
fn types_cycle_and_have_names() {
    let mut t = VType::I32;
    let mut names = Vec::new();
    for _ in 0..8 {
        names.push(t.name());
        t = t.next();
    }
    assert_eq!(t, VType::I32);
    assert_eq!(names, ["I32", "F32", "AUTO", "U8", "I8", "U16", "I16", "U32"]);
    assert_eq!(VType::Auto.size(), 0);
}

#[test]
fn values_are_shown_as_numbers() {
    assert_eq!(VType::I8.shown(255), Shown::Integer(-1));
    assert_eq!(VType::I8.shown(127), Shown::Integer(127));
    assert_eq!(VType::U8.shown(255), Shown::Integer(255));
    assert_eq!(VType::I32.shown(0x8000_0000), Shown::Integer(-2147483648));
    assert_eq!(VType::F32.shown(0x3f80_0000), Shown::Float(0x3f80_0000));
    assert_eq!(VType::U8.shown(0x1ff), Shown::Integer(255));
    assert_eq!(VType::I16.shown(0x1_8000), Shown::Integer(-32768));
    assert_eq!(VType::F32.shown(0x1_3f80_0000), Shown::Float(0x3f80_0000));
    assert_eq!(VType::Auto.shown(0), Shown::Nothing);
}

#[test]
fn search_finds_every_address_in_order() {
    let (mut mem, base) = memory(16);
    let other = mem.allocate(16).to_bits();
    for addr in [other + 12, base + 1, base + 5, other + 13] {
        assert!(VType::U8.write_at(&mut mem, addr, 7));
    }
    let found = search_all(&mem, VType::U8, "7", None);
    let addrs: Vec<u32> = found.iter().map(|r| r.addr).collect();
    assert_eq!(addrs, [base + 1, base + 5, other + 12, other + 13]);
    assert!(found.iter().all(|r| r.bits == 7 && !r.changed));
    // A value across two blocks is not in either.
    assert!(VType::U32.write_at(&mut mem, base + 14, 0x0102_0304));
    assert!(search_all(&mem, VType::U32, "0x1020304", None).is_empty());
    assert!(search_all(&mem, VType::U8, "nonsense", None).is_empty());
}

#[test]
fn refining_notes_changes_and_keeps_types() {
    let (mut mem, base) = memory(32);
    assert!(VType::U16.write_at(&mut mem, base, 300));
    assert!(VType::U16.write_at(&mut mem, base + 4, 300));
    let earlier = [
        hit(base, VType::U16, 299),
        hit(base + 4, VType::U16, 300),
        hit(base, VType::I16, 300),
        hit(0, VType::U16, 300),
    ];
    let refined = search_all(&mem, VType::U16, "300", Some(&earlier));
    assert_eq!(
        refined,
        [
            SearchResult { addr: base, vtype: VType::U16, bits: 300, changed: true },
            hit(base + 4, VType::U16, 300),
        ]
    );
    assert_eq!(search_all(&mem, VType::Auto, "300", Some(&earlier)).len(), 3);
}

#[test]
fn rejections_say_why() {
    let (mut mem, base) = memory(32);
    assert!(VType::U8.write_at(&mut mem, base, 5));
    let good = hit(base, VType::U8, 5);
    let plan = |hits: &[SearchResult], t: VType, text: &str, safe: bool| {
        plan_bulk(&mem, hits, t, text, safe).err()
    };
    assert_eq!(plan(&[], VType::U8, "1", false), Some(BulkError::NoResults));
    assert_eq!(plan(&[good], VType::I32, "1", false), Some(BulkError::TypeMismatch));
    assert_eq!(plan(&[good], VType::U8, "256", false), Some(BulkError::DoesNotFit));
    assert_eq!(
        plan(&[hit(base + 32, VType::U8, 0)], VType::U8, "1", false),
        Some(BulkError::NotAllocated)
    );
    assert_eq!(
        plan(&[hit(base, VType::U8, 6)], VType::U8, "1", false),
        Some(BulkError::ValueChanged)
    );
    assert_eq!(plan(&[good], VType::U8, "5", true), Some(BulkError::NothingToWrite));
    assert_eq!(plan(&[good], VType::U8, "5", false), None);
    // The first thing that is wrong counts.
    assert_eq!(
        plan(&[hit(base, VType::U8, 6), hit(base, VType::U16, 0)], VType::U8, "1", false),
        Some(BulkError::ValueChanged)
    );
    assert_eq!(BulkError::NothingToWrite.message(), "SET ALL: NO SAFE MATCHES");
    for error in [
        BulkError::NoResults,
        BulkError::TypeMismatch,
        BulkError::DoesNotFit,
        BulkError::NotAllocated,
        BulkError::ValueChanged,
    ] {
        assert!(error.message().starts_with("SET ALL: "));
    }
}

#[test]
fn results_that_changed_stop_a_bulk_edit() {
    let (mut mem, base) = memory(32);
    let mut hits = [hit(base, VType::U8, 0)];
    let plan = plan_bulk(&mem, &hits, VType::U8, "1", true).unwrap();
    hits[0].bits = 3;
    assert_eq!(apply_bulk(&mut mem, &mut hits, &plan), Err(BulkError::ValueChanged));
    assert_eq!(apply_bulk(&mut mem, &mut [], &plan), Err(BulkError::ValueChanged));
    hits[0].bits = 0;
    hits[0].changed = true;
    assert_eq!(apply_bulk(&mut mem, &mut hits, &plan), Ok(1));
    assert_eq!(hits[0], SearchResult { changed: true, ..hit(base, VType::U8, 1) });
}

fn set_all(confirm: bool) -> TrainerCmd {
    TrainerCmd::SetAll { vtype: VType::U8, text: "9".to_string(), confirm, safe_mode: true }
}

#[test]
fn previews_expire_at_the_limit() {
    let (mut mem, base) = memory(16);
    let mut trainer = Trainer::new(true);
    trainer.state.results = vec![hit(base, VType::U8, 0)];
    let reply = trainer.handle_command_at(&mut mem, set_all(false), 100);
    assert!(matches!(reply, TrainerReply::Preview { writes: 1, skipped: 0 }));
    let reply = trainer.handle_command_at(&mut mem, set_all(true), 100 + BULK_CONFIRM_TIMEOUT);
    assert!(matches!(reply, TrainerReply::Preview { .. }));
    assert_eq!(VType::U8.read_at(&mem, base), Some(0));
    let reply = trainer.handle_command_at(&mut mem, set_all(true), 99 + 2 * BULK_CONFIRM_TIMEOUT);
    assert!(matches!(reply, TrainerReply::Written { count: 1 }));
    assert_eq!(VType::U8.read_at(&mem, base), Some(9));
    assert_eq!(trainer.state.results[0].bits, 9);
}

#[test]
fn searching_drops_a_preview() {
    let (mut mem, base) = memory(16);
    for command in [
        TrainerCmd::Search { vtype: VType::U8, text: "0".to_string() },
        TrainerCmd::Refine { vtype: VType::U8, text: "0".to_string() },
        TrainerCmd::Reset,
        TrainerCmd::CancelBulk,
    ] {
        let mut trainer = Trainer::new(true);
        trainer.state.results = vec![hit(base, VType::U8, 0)];
        trainer.handle_command_at(&mut mem, set_all(false), 0);
        assert!(trainer.state.pending_bulk.is_some());
        trainer.handle_command_at(&mut mem, command, 0);
        assert!(trainer.state.pending_bulk.is_none());
    }
}

#[test]
fn commands_are_answered() {
    let (mut mem, base) = memory(16);
    assert!(VType::U8.write_at(&mut mem, base + 3, 200));
    let mut trainer = Trainer::new(true);
    let search = |text: &str| TrainerCmd::Search { vtype: VType::U8, text: text.to_string() };
    let reply = trainer.handle_command(&mut mem, search("200"));
    assert!(matches!(reply, TrainerReply::Found { count: 1 }));
    assert_eq!(trainer.state.results, [hit(base + 3, VType::U8, 200)]);
    let reply = trainer.handle_command(&mut mem, TrainerCmd::Dump);
    assert!(matches!(reply, TrainerReply::Other { cmd: TrainerCmd::Dump }));
    let too_large =
        TrainerCmd::SetAll { vtype: VType::U8, text: "256".to_string(), confirm: false, safe_mode: false };
    let reply = trainer.handle_command(&mut mem, too_large);
    assert!(matches!(reply, TrainerReply::Rejected { error: BulkError::DoesNotFit }));
    let reply = trainer.handle_command(&mut mem, TrainerCmd::Reset);
    assert!(matches!(reply, TrainerReply::Cleared));
    assert!(trainer.state.results.is_empty());

    let mut off = Trainer::new(false);
    let reply = off.handle_command(&mut mem, search("200"));
    assert!(matches!(reply, TrainerReply::Ignored));
    assert!(off.state.results.is_empty());
    mem.free(MutVoidPtr::from_bits(base));
}
