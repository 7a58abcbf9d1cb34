use sftrace::arch::x86_64::{Args, ReturnValue};
use sftrace::events::{
    build_event, dur2u64, flush_current_thread, record_alloc, record_entry, record_exit,
    record_tailcall, Local,
};
use sftrace::flags::{FuncFlag, FuncId};
use sftrace::layout::{AllocEvent, Event, Kind};

fn args(rdi: u64) -> Args {
    Args {
        r11: 0,
        r10: 0,
        r9: 0,
        r8: 0,
        rcx: 0,
        rsi: 0,
        rdx: 0,
        rax: 0,
        rdi,
        xmm7: 0,
        xmm6: 0,
        xmm5: 0,
        xmm4: 0,
        xmm3: 0,
        xmm2: 0,
        xmm1: 0,
        xmm0: 0,
    }
}

fn rv(rax: u64) -> ReturnValue {
    ReturnValue { rax, rdx: 0, xmm0: 0, xmm1: 0 }
}

#[test]
fn recorder_flush_threshold() {
    let mut local = Local::with_cap(64);
    let mut file: Vec<Vec<u8>> = Vec::new();
    for n in 0u8..3 {
        let mut line = vec![n; 20];
        let mut out = Vec::new();
        assert!(!local.record(&mut line, &mut out));
        assert!(out.is_empty());
        assert!(line.is_empty());
    }
    assert_eq!(local.pending(), 60);

    let mut line = vec![3u8; 20];
    let mut out = Vec::new();
    assert!(local.record(&mut line, &mut out));
    assert_eq!(out.len(), 60);
    file.push(out);
    assert_eq!(local.pending(), 20);

    let mut out = Vec::new();
    local.flush(&mut out);
    file.push(out);
    assert_eq!(local.pending(), 0);

    assert_eq!(file.len(), 2);
    let mut first = vec![0u8; 20];
    first.extend_from_slice(&[1u8; 20]);
    first.extend_from_slice(&[2u8; 20]);
    assert_eq!(file[0], first);
    assert_eq!(file[1], vec![3u8; 20]);
}

#[test]
fn recorder_fills_buffer_to_the_cap() {
    let mut local = Local::with_cap(64);
    let mut out = Vec::new();
    assert!(!local.record(&mut vec![1u8; 40], &mut out));
    assert!(!local.record(&mut vec![2u8; 24], &mut out));
    assert_eq!(local.pending(), 64);
    assert!(local.record(&mut vec![3u8; 1], &mut out));
    assert_eq!(out.len(), 64);
    assert_eq!(local.pending(), 1);
}

#[test]
fn recorder_never_writes_more_than_the_cap() {
    let mut local = Local::new();
    let mut written: Vec<usize> = Vec::new();
    let mut stream: Vec<u8> = Vec::new();
    let mut expected: Vec<u8> = Vec::new();
    for n in 0..2000usize {
        let mut line = vec![(n % 251) as u8; 1 + n % 300];
        expected.extend_from_slice(&line);
        let mut out = Vec::new();
        if local.record(&mut line, &mut out) {
            written.push(out.len());
        }
        stream.extend_from_slice(&out);
        assert!(local.pending() <= 4096);
    }
    let mut out = Vec::new();
    local.flush(&mut out);
    written.push(out.len());
    stream.extend_from_slice(&out);
    assert!(written.len() > 10);
    assert!(written.iter().all(|&n| n <= 4096));
    assert_eq!(stream, expected);
}

#[test]
fn recorder_thread_id_is_kept() {
    let mut local = Local::new();
    assert_eq!(local.tid(), None);
    assert_eq!(local.ensure_tid(4), 4);
    assert_eq!(local.tid(), Some(4));
    assert_eq!(local.ensure_tid(9), 4);
    assert_eq!(local.tid(), Some(4));
}

#[test]
fn recorder_reserve_keeps_content() {
    let mut local = Local::with_cap(16);
    let mut out = Vec::new();
    local.record(&mut vec![7u8; 5], &mut out);
    local.reserve(1000);
    assert_eq!(local.pending(), 5);
    local.flush(&mut out);
    assert_eq!(out, vec![7u8; 5]);
}

#[test]
fn recorder_notes_that_room_was_set_aside() {
    let mut local = Local::new();
    assert!(!local.has_reserved());
    local.reserve(4096);
    assert!(local.has_reserved());
    assert_eq!(local.pending(), 0);
    assert_eq!(local.tid(), None);

    let mut local = Local::with_cap(64);
    assert!(!local.has_reserved());
    let mut out = Vec::new();
    local.record(&mut vec![1u8; 3], &mut out);
    assert!(local.has_reserved());
    local.flush(&mut out);
    assert!(local.has_reserved());
}

#[test]
fn flush_current_thread_without_recorder_does_nothing() {
    let mut slot: Option<Local> = None;
    let mut out = vec![1u8];
    assert!(!flush_current_thread(&mut slot, &mut out));
    assert_eq!(out, vec![1u8]);
    assert!(slot.is_none());
}

#[test]
fn flush_current_thread_hands_out_the_buffer() {
    let mut local = Local::new();
    local.ensure_tid(3);
    let mut out = Vec::new();
    local.record(&mut vec![5u8; 9], &mut out);
    let mut slot = Some(local);
    assert!(flush_current_thread(&mut slot, &mut out));
    assert_eq!(out, vec![5u8; 9]);
    let local = slot.unwrap();
    assert_eq!(local.pending(), 0);
    assert_eq!(local.tid(), Some(3));
}

#[test]
fn entry_event_keeps_args_only_with_log() {
    let plain = FuncId::pack(41, FuncFlag::empty()).unwrap().raw();
    let logged = FuncId::pack(41, FuncFlag::log()).unwrap().raw();

    let event: Event<Args, ReturnValue, AllocEvent> = record_entry(plain, args(7), 100, 1);
    assert_eq!(event.kind, Kind::Entry);
    assert_eq!(event.func_id, 41);
    assert_eq!(event.time, 100);
    assert_eq!(event.tid, 1);
    assert_eq!(event.args, None);
    assert_eq!(event.return_value, None);
    assert_eq!(event.alloc_event, None);

    let event: Event<Args, ReturnValue, AllocEvent> = record_entry(logged, args(7), 100, 1);
    assert_eq!(event.func_id, 41);
    assert_eq!(event.args, Some(args(7)));
    assert_eq!(event.return_value, None);
}

#[test]
fn exit_event_keeps_return_value_only_with_log() {
    let plain = FuncId::pack(0, FuncFlag::empty()).unwrap().raw();
    let logged = FuncId::pack(0, FuncFlag::log()).unwrap().raw();

    let event: Event<Args, ReturnValue, AllocEvent> = record_exit(plain, rv(3), 5, 2);
    assert_eq!(event.kind, Kind::Exit);
    assert_eq!(event.func_id, 0);
    assert_eq!(event.return_value, None);

    let event: Event<Args, ReturnValue, AllocEvent> = record_exit(logged, rv(3), 5, 2);
    assert_eq!(event.return_value, Some(rv(3)));
    assert_eq!(event.args, None);
}

#[test]
fn tailcall_event_carries_nothing() {
    let logged = FuncId::pack(12, FuncFlag::log()).unwrap().raw();
    let event: Event<Args, ReturnValue, AllocEvent> = record_tailcall(logged, 8, 3);
    assert_eq!(event.kind, Kind::TailCall);
    assert_eq!(event.func_id, 12);
    assert_eq!(event.args, None);
    assert_eq!(event.return_value, None);
    assert_eq!(event.alloc_event, None);
}

#[test]
fn build_event_drops_what_the_kind_does_not_carry() {
    let logged = FuncId::pack(2, FuncFlag::log()).unwrap().raw();
    let payload = AllocEvent { size: 1, align: 2, ptr: 3 };
    let event = build_event(Kind::Exit, logged, 1, 1, Some(args(1)), Some(rv(2)), Some(payload));
    assert_eq!(event.args, None);
    assert_eq!(event.return_value, Some(rv(2)));
    assert_eq!(event.alloc_event, None);
    let event = build_event(Kind::Entry, logged, 1, 1, Some(args(1)), Some(rv(2)), Some(payload));
    assert_eq!(event.args, Some(args(1)));
    assert_eq!(event.return_value, None);
    let event = build_event(Kind::Alloc, logged, 1, 1, Some(args(1)), Some(rv(2)), Some(payload));
    assert_eq!(event.func_id, 0);
    assert_eq!(event.args, None);
    assert_eq!(event.return_value, None);
    assert_eq!(event.alloc_event, Some(payload));
    // An unset identifier names function 0 and logs nothing.
    let event = build_event(Kind::Entry, 0x0100_0000, 1, 1, Some(args(1)), Some(rv(2)), None);
    assert_eq!(event.func_id, 0);
    assert_eq!(event.args, None);
}

#[test]
fn alloc_event_kinds() {
    let kinds = [Kind::Alloc, Kind::Dealloc, Kind::ReallocAlloc, Kind::ReallocDealloc];
    for hook in 1u8..=4 {
        let event: Event<Args, ReturnValue, AllocEvent> =
            record_alloc(hook, 24, 8, 0x7f00_1000, 77, 2);
        assert_eq!(event.kind, kinds[(hook - 1) as usize]);
        assert_eq!(event.func_id, 0);
        assert_eq!(event.time, 77);
        assert_eq!(event.tid, 2);
        assert_eq!(event.alloc_event, Some(AllocEvent { size: 24, align: 8, ptr: 0x7f00_1000 }));
        assert_eq!(event.args, None);
        assert_eq!(event.return_value, None);
    }
}

#[test]
fn nanoseconds_keep_their_low_64_bits() {
    assert_eq!(dur2u64(0), 0);
    assert_eq!(dur2u64(1_500_000_000), 1_500_000_000);
    assert_eq!(dur2u64(u64::MAX as u128), u64::MAX);
    assert_eq!(dur2u64((1u128 << 64) + 5), 5);
}
