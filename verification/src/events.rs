//! The per-thread recorder: it makes the event records and gathers their
//! serialized lines in a buffer that is written out in whole pieces.

use crate::flags::{unpack_flag_spec, unpack_index_spec, FuncFlag, FuncId};
use crate::layout::{AllocEvent, Event, Kind};
use vstd::prelude::*;

verus! {

/// The soft cap of a recorder's buffer: the largest write that the
/// kernel does not tear.
pub const DEFAULT_CAP: usize = 4096;

/// The recorder of one thread.
pub struct Local {
    tid: Option<u32>,
    buf: Vec<u8>,
    cap: usize,
    reserved: bool,
}

/// What a recorder holds, as mathematics.
pub struct LocalState {
    /// The thread's id, once it has recorded an event.
    pub tid: Option<u32>,
    /// The lines gathered and not yet written.
    pub buf: Seq<u8>,
    /// The soft cap of the buffer.
    pub cap: nat,
    /// Whether room for the buffer has been set aside.
    pub reserved: bool,
}

impl LocalState {
    /// The buffer is within its cap.
    pub open spec fn wf(self) -> bool {
        self.buf.len() <= self.cap
    }

    /// Whether a line of the given length makes the buffer pass its cap.
    pub open spec fn overflows(self, line_len: nat) -> bool {
        self.buf.len() + line_len > self.cap
    }

    /// The recorder after it took a line: the line is alone in the
    /// buffer if the buffer had to be flushed, and at its end otherwise.
    /// By then room for the buffer has been set aside.
    pub open spec fn after_record(self, line: Seq<u8>) -> LocalState {
        if self.overflows(line.len()) {
            LocalState { buf: line, reserved: true, ..self }
        } else {
            LocalState { buf: self.buf + line, reserved: true, ..self }
        }
    }

    /// The recorder after it took the first `upto` lines.
    pub open spec fn after_lines(self, lines: Seq<Seq<u8>>, upto: int) -> LocalState
        decreases upto,
    {
        if upto <= 0 {
            self
        } else {
            self.after_lines(lines, upto - 1).after_record(lines[upto - 1])
        }
    }

    /// The pieces written to the file while the first `upto` lines were
    /// taken, in order.
    pub open spec fn writes(self, lines: Seq<Seq<u8>>, upto: int) -> Seq<Seq<u8>>
        decreases upto,
    {
        if upto <= 0 {
            Seq::empty()
        } else {
            let before = self.after_lines(lines, upto - 1);
            if before.overflows(lines[upto - 1].len()) {
                self.writes(lines, upto - 1).push(before.buf)
            } else {
                self.writes(lines, upto - 1)
            }
        }
    }
}

/// The first `upto` pieces joined end to end.
pub open spec fn joined_bytes(pieces: Seq<Seq<u8>>, upto: int) -> Seq<u8>
    decreases upto,
{
    if upto <= 0 {
        Seq::empty()
    } else {
        joined_bytes(pieces, upto - 1) + pieces[upto - 1]
    }
}

/// No piece written to the file is larger than the cap, as long as the
/// buffer starts within the cap and no single line is larger than it.
pub proof fn lemma_writes_within_cap(start: LocalState, lines: Seq<Seq<u8>>, upto: int)
    requires
        start.wf(),
        0 <= upto <= lines.len(),
        forall|i: int| 0 <= i < lines.len() ==> (#[trigger] lines[i]).len() <= start.cap,
    ensures
        start.after_lines(lines, upto).wf(),
        start.after_lines(lines, upto).cap == start.cap,
        forall|k: int|
            0 <= k < start.writes(lines, upto).len() ==> (#[trigger] start.writes(lines, upto)[k]).len()
                <= start.cap,
    decreases upto,
{
    if upto > 0 {
        lemma_writes_within_cap(start, lines, upto - 1);
        let before = start.after_lines(lines, upto - 1);
        assert(lines[upto - 1].len() <= start.cap);
        assert forall|k: int| 0 <= k < start.writes(lines, upto).len() implies (
        #[trigger] start.writes(lines, upto)[k]).len() <= start.cap by {
            if k < start.writes(lines, upto - 1).len() {
                assert(start.writes(lines, upto)[k] == start.writes(lines, upto - 1)[k]);
            }
        }
    }
}

/// The events of a thread reach the file in the order in which they were
/// recorded: the pieces written, followed by what the buffer still
/// holds, are what the buffer held at first followed by the lines.
pub proof fn lemma_stream_in_order(start: LocalState, lines: Seq<Seq<u8>>, upto: int)
    requires
        0 <= upto <= lines.len(),
    ensures
        joined_bytes(start.writes(lines, upto), start.writes(lines, upto).len() as int)
            + start.after_lines(lines, upto).buf == start.buf + joined_bytes(lines, upto),
    decreases upto,
{
    if upto > 0 {
        lemma_stream_in_order(start, lines, upto - 1);
        let before = start.after_lines(lines, upto - 1);
        let written = start.writes(lines, upto - 1);
        let line = lines[upto - 1];
        if before.overflows(line.len()) {
            let now = start.writes(lines, upto);
            assert(now == written.push(before.buf));
            lemma_joined_prefix(now, written, written.len() as int);
            assert(joined_bytes(now, now.len() as int) == joined_bytes(now, now.len() - 1)
                + before.buf);
            assert((start.buf + joined_bytes(lines, upto - 1)) + line =~= start.buf + (
            joined_bytes(lines, upto - 1) + line));
        } else {
            let head = joined_bytes(written, written.len() as int);
            assert(head + (before.buf + line) =~= (head + before.buf) + line);
            assert((start.buf + joined_bytes(lines, upto - 1)) + line =~= start.buf + (
            joined_bytes(lines, upto - 1) + line));
        }
    } else {
        assert(joined_bytes(start.writes(lines, upto), 0) + start.buf =~= start.buf
            + joined_bytes(lines, upto));
    }
}

/// Joining depends only on the pieces joined.
proof fn lemma_joined_prefix(a: Seq<Seq<u8>>, b: Seq<Seq<u8>>, upto: int)
    requires
        0 <= upto <= a.len(),
        upto <= b.len(),
        forall|i: int| 0 <= i < upto ==> a[i] == b[i],
    ensures
        joined_bytes(a, upto) == joined_bytes(b, upto),
    decreases upto,
{
    if upto > 0 {
        lemma_joined_prefix(a, b, upto - 1);
    }
}

impl View for Local {
    type V = LocalState;

    closed spec fn view(&self) -> LocalState {
        LocalState {
            tid: self.tid,
            buf: self.buf@,
            cap: self.cap as nat,
            reserved: self.reserved,
        }
    }
}

/// Nanoseconds as they are stored in an event: the low 64 bits.
pub fn dur2u64(nanos: u128) -> (time: u64)
    ensures
        time == nanos % 0x1_0000_0000_0000_0000,
{
    let low: u128 = nanos & 0xffff_ffff_ffff_ffff;
    assert(low == nanos % 0x1_0000_0000_0000_0000 && low <= 0xffff_ffff_ffff_ffff) by (bit_vector)
        requires
            low == nanos & 0xffff_ffff_ffff_ffff,
    ;
    low as u64
}

/// The sled index that an event names for a raw function identifier:
/// the index held in it, or 0 when the identifier is unset.
pub open spec fn event_func_id(raw: u32) -> u32 {
    if raw & 0x00ff_ffffu32 != 0 {
        unpack_index_spec(raw)
    } else {
        0
    }
}

/// Whether the function with the raw identifier is flagged LOG.
pub open spec fn logs(raw: u32) -> bool {
    raw & 0x00ff_ffffu32 != 0 && unpack_flag_spec(raw).log
}

/// The record of an event. Arguments are kept only on ENTRY, the return
/// value only on EXIT, and both only for a function flagged LOG; the
/// function index only for a call event, the allocator payload only for
/// an allocator event.
pub open spec fn event_spec<A, R>(
    kind: Kind,
    raw_func_id: u32,
    time: u64,
    tid: u32,
    args: Option<A>,
    return_value: Option<R>,
    alloc_event: Option<AllocEvent>,
) -> Event<A, R, AllocEvent> {
    Event {
        tid,
        func_id: if kind.is_call() {
            event_func_id(raw_func_id)
        } else {
            0
        },
        time,
        kind,
        args: if kind == Kind::Entry && logs(raw_func_id) {
            args
        } else {
            None
        },
        return_value: if kind == Kind::Exit && logs(raw_func_id) {
            return_value
        } else {
            None
        },
        alloc_event: if kind.is_call() {
            None
        } else {
            alloc_event
        },
    }
}

/// Makes the record of an event from what the trampoline or the
/// allocator hook hands over.
pub fn build_event<A, R>(
    kind: Kind,
    raw_func_id: u32,
    time: u64,
    tid: u32,
    args: Option<A>,
    return_value: Option<R>,
    alloc_event: Option<AllocEvent>,
) -> (event: Event<A, R, AllocEvent>)
    ensures
        event == event_spec(kind, raw_func_id, time, tid, args, return_value, alloc_event),
{
    let (func_id, flag) = match FuncId::from_raw(raw_func_id) {
        Some(id) => id.unpack(),
        None => (0, FuncFlag::empty()),
    };
    let is_call = match kind {
        Kind::Entry | Kind::Exit | Kind::TailCall => true,
        _ => false,
    };
    let is_entry = match kind {
        Kind::Entry => true,
        _ => false,
    };
    let is_exit = match kind {
        Kind::Exit => true,
        _ => false,
    };
    Event {
        tid,
        func_id: if is_call {
            func_id
        } else {
            0
        },
        time,
        kind,
        args: if is_entry && flag.log {
            args
        } else {
            None
        },
        return_value: if is_exit && flag.log {
            return_value
        } else {
            None
        },
        alloc_event: if is_call {
            None
        } else {
            alloc_event
        },
    }
}

/// The record of the entry to a function.
pub fn record_entry<A, R>(func_id: u32, args: A, time: u64, tid: u32) -> (event: Event<
    A,
    R,
    AllocEvent,
>)
    ensures
        event == event_spec(Kind::Entry, func_id, time, tid, Some(args), None::<R>, None),
{
    build_event(Kind::Entry, func_id, time, tid, Some(args), None, None)
}

/// The record of the exit from a function.
pub fn record_exit<A, R>(func_id: u32, return_value: R, time: u64, tid: u32) -> (event: Event<
    A,
    R,
    AllocEvent,
>)
    ensures
        event == event_spec(Kind::Exit, func_id, time, tid, None::<A>, Some(return_value), None),
{
    build_event(Kind::Exit, func_id, time, tid, None, Some(return_value), None)
}

/// The record of a tail call out of a function.
pub fn record_tailcall<A, R>(func_id: u32, time: u64, tid: u32) -> (event: Event<A, R, AllocEvent>)
    ensures
        event == event_spec(Kind::TailCall, func_id, time, tid, None::<A>, None::<R>, None),
{
    build_event(Kind::TailCall, func_id, time, tid, None, None, None)
}

/// The record of an allocator event. `kind` is the number that the
/// allocator hook passes: 1 alloc, 2 dealloc, 3 realloc-alloc,
/// 4 realloc-dealloc.
pub fn record_alloc<A, R>(kind: u8, size: usize, align: usize, ptr: usize, time: u64, tid: u32) -> (event:
    Event<A, R, AllocEvent>)
    requires
        1 <= kind <= 4,
    ensures
        event == event_spec(
            Kind::of_alloc_hook_spec(kind),
            0,
            time,
            tid,
            None::<A>,
            None::<R>,
            Some(AllocEvent { size: size as u64, align: align as u64, ptr: ptr as u64 }),
        ),
{
    let kind = if kind == 1 {
        Kind::Alloc
    } else if kind == 2 {
        Kind::Dealloc
    } else if kind == 3 {
        Kind::ReallocAlloc
    } else {
        Kind::ReallocDealloc
    };
    let event = AllocEvent { size: size as u64, align: align as u64, ptr: ptr as u64 };
    build_event(kind, 0, time, tid, None, None, Some(event))
}

impl Local {
    /// A recorder with the default cap, for a thread without an id yet.
    pub fn new() -> (local: Local)
        ensures
            local@ == (LocalState { tid: None, buf: Seq::empty(), cap: 4096, reserved: false }),
            local@.wf(),
    {
        Local { tid: None, buf: Vec::new(), cap: DEFAULT_CAP, reserved: false }
    }

    /// A recorder with the given cap.
    pub fn with_cap(cap: usize) -> (local: Local)
        ensures
            local@ == (LocalState {
                tid: None,
                buf: Seq::empty(),
                cap: cap as nat,
                reserved: false,
            }),
            local@.wf(),
    {
        Local { tid: None, buf: Vec::new(), cap, reserved: false }
    }

    /// The thread's id, once one was given.
    pub fn tid(&self) -> (tid: Option<u32>)
        ensures
            tid == self@.tid,
    {
        self.tid
    }

    /// The id of the thread: the one it has, or else `fresh`, which it
    /// keeps from now on.
    pub fn ensure_tid(&mut self, fresh: u32) -> (tid: u32)
        ensures
            tid == (match old(self)@.tid {
                Some(tid) => tid,
                None => fresh,
            }),
            final(self)@ == (LocalState { tid: Some(tid), ..old(self)@ }),
    {
        match self.tid {
            Some(tid) => tid,
            None => {
                self.tid = Some(fresh);
                fresh
            },
        }
    }

    /// The number of bytes gathered and not yet written.
    pub fn pending(&self) -> (n: usize)
        ensures
            n == self@.buf.len(),
    {
        self.buf.len()
    }

    /// Whether room for the buffer has been set aside.
    pub fn has_reserved(&self) -> (b: bool)
        ensures
            b == self@.reserved,
    {
        self.reserved
    }

    /// Sets room for `n` more bytes aside and notes that this was done,
    /// so that taking a line does not do it again. What is held does not
    /// change.
    pub fn reserve(&mut self, n: usize)
        ensures
            final(self)@ == (LocalState { reserved: true, ..old(self)@ }),
    {
        self.buf.reserve(n);
        self.reserved = true;
    }

    /// Takes the serialized line of one event.
    ///
    /// If the line would make the buffer pass its cap, the buffer is
    /// flushed first: its bytes are added to `out`, to be written to the
    /// trace file in one piece, and `true` is returned. The line is then
    /// put in the buffer and `line` is left empty. Nothing is lost or
    /// reordered: what was written, then the buffer, is the same stream
    /// with the line at its end.
    pub fn record(&mut self, line: &mut Vec<u8>, out: &mut Vec<u8>) -> (flushed: bool)
        ensures
            flushed == old(self)@.overflows(old(line)@.len()),
            final(self)@ == old(self)@.after_record(old(line)@),
            flushed ==> final(out)@ == old(out)@ + old(self)@.buf && final(self)@.buf == old(
                line,
            )@,
            !flushed ==> final(out)@ == old(out)@ && final(self)@.buf == old(self)@.buf + old(
                line,
            )@,
            final(out)@ + final(self)@.buf == old(out)@ + old(self)@.buf + old(line)@,
            final(line)@.len() == 0,
            final(self)@.tid == old(self)@.tid,
            final(self)@.cap == old(self)@.cap,
            old(line)@.len() <= old(self)@.cap ==> final(self)@.wf(),
            old(self)@.wf() ==> final(out)@.len() - old(out)@.len() <= old(self)@.cap,
    {
        if !self.reserved {
            self.reserve(self.cap);
        }
        let flushed = line.len() > self.cap || self.buf.len() > self.cap - line.len();
        if flushed {
            self.flush(out);
        }
        self.buf.append(line);
        assert(out@ + self@.buf =~= old(out)@ + old(self)@.buf + old(line)@);
        flushed
    }

    /// Hands the gathered bytes to `out`, to be written to the trace file
    /// in one piece, and empties the buffer.
    pub fn flush(&mut self, out: &mut Vec<u8>)
        ensures
            final(out)@ == old(out)@ + old(self)@.buf,
            final(self)@ == (LocalState { buf: Seq::empty(), ..old(self)@ }),
            old(self)@.wf() ==> final(out)@.len() - old(out)@.len() <= old(self)@.cap,
    {
        out.append(&mut self.buf);
    }
}

/// Flushes the recorder of the current thread, if the thread has one.
/// At shutdown the thread's recorder may be gone already: then there is
/// nothing to flush, and `false` is returned.
pub fn flush_current_thread(local: &mut Option<Local>, out: &mut Vec<u8>) -> (flushed: bool)
    ensures
        flushed == old(local).is_some(),
        match *old(local) {
            Some(before) => final(local).is_some() && final(out)@ == old(out)@ + before@.buf
                && final(local).unwrap()@ == (LocalState { buf: Seq::empty(), ..before@ }),
            None => final(local).is_none() && final(out)@ == old(out)@,
        },
{
    match local {
        Some(local) => {
            local.flush(out);
            true
        },
        None => false,
    }
}

} // verus!
