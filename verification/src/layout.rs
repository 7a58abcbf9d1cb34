//! The trace file: its signature, its metadata header and the event
//! records that follow.

use crate::bytes::le64;
use vstd::prelude::*;

verus! {

/// The signature `sf\0trace` read as a little-endian integer.
pub const SIGN_TRACE: u64 = 0x6563_6172_7400_6673;

/// The eight bytes with which every trace file starts: `sf\0trace`.
pub open spec fn sign_trace_bytes() -> Seq<u8> {
    seq![0x73u8, 0x66u8, 0x00u8, 0x74u8, 0x72u8, 0x61u8, 0x63u8, 0x65u8]
}

/// The signature constant and the signature bytes are the same thing.
pub proof fn lemma_sign_trace()
    ensures
        le64(SIGN_TRACE) == sign_trace_bytes(),
{
    let x: u64 = 0x6563_6172_7400_6673;
    assert((x & 0xff) as u8 == 0x73u8 && ((x >> 8u64) & 0xff) as u8 == 0x66u8 && ((x >> 16u64)
        & 0xff) as u8 == 0x00u8 && ((x >> 24u64) & 0xff) as u8 == 0x74u8 && ((x >> 32u64) & 0xff) as u8
        == 0x72u8 && ((x >> 40u64) & 0xff) as u8 == 0x61u8 && ((x >> 48u64) & 0xff) as u8 == 0x63u8
        && ((x >> 56u64) & 0xff) as u8 == 0x65u8) by (bit_vector)
        requires
            x == 0x6563_6172_7400_6673u64,
    ;
    assert(le64(SIGN_TRACE) =~= sign_trace_bytes());
}

/// The signature of a trace file, to be written before the metadata.
pub fn trace_signature() -> (sign: Vec<u8>)
    ensures
        sign@ == sign_trace_bytes(),
{
    let mut sign: Vec<u8> = Vec::new();
    sign.push(0x73);
    sign.push(0x66);
    sign.push(0x00);
    sign.push(0x74);
    sign.push(0x72);
    sign.push(0x61);
    sign.push(0x63);
    sign.push(0x65);
    assert(sign@ =~= sign_trace_bytes());
    sign
}

/// Whether `head`, the first bytes read from a file, is exactly the
/// signature of a trace file.
pub fn is_trace_signature(head: &[u8]) -> (ok: bool)
    ensures
        ok == (head@ == sign_trace_bytes()),
{
    if head.len() != 8 {
        return false;
    }
    let ok = head[0] == 0x73 && head[1] == 0x66 && head[2] == 0x00 && head[3] == 0x74 && head[4]
        == 0x72 && head[5] == 0x61 && head[6] == 0x63 && head[7] == 0x65;
    assert(ok ==> head@ =~= sign_trace_bytes());
    ok
}

/// What an event records.
#[derive(Clone, Copy, Debug, PartialEq, Eq, Structural)]
pub enum Kind {
    Entry,
    Exit,
    TailCall,
    Alloc,
    Dealloc,
    ReallocAlloc,
    ReallocDealloc,
}

impl Kind {
    /// The kind's number in an event record.
    pub open spec fn code_spec(self) -> u8 {
        match self {
            Kind::Entry => 1u8,
            Kind::Exit => 2u8,
            Kind::TailCall => 3u8,
            Kind::Alloc => 4u8,
            Kind::Dealloc => 5u8,
            Kind::ReallocAlloc => 6u8,
            Kind::ReallocDealloc => 7u8,
        }
    }

    /// Whether the kind is ENTRY, EXIT or TAIL_CALL.
    pub open spec fn is_call(self) -> bool {
        self == Kind::Entry || self == Kind::Exit || self == Kind::TailCall
    }

    /// Whether the kind makes memory live: ALLOC or REALLOC_ALLOC.
    pub open spec fn is_alloc(self) -> bool {
        self == Kind::Alloc || self == Kind::ReallocAlloc
    }

    /// The kind's number in an event record.
    pub fn code(self) -> (c: u8)
        ensures
            c == self.code_spec(),
            1 <= c <= 7,
    {
        match self {
            Kind::Entry => 1,
            Kind::Exit => 2,
            Kind::TailCall => 3,
            Kind::Alloc => 4,
            Kind::Dealloc => 5,
            Kind::ReallocAlloc => 6,
            Kind::ReallocDealloc => 7,
        }
    }

    /// The kind with the given number; `None` exactly for numbers outside
    /// 1 to 7.
    pub fn from_code(code: u8) -> (k: Option<Kind>)
        ensures
            k.is_some() <==> 1 <= code <= 7,
            k.is_some() ==> k.unwrap().code_spec() == code,
    {
        match code {
            1 => Some(Kind::Entry),
            2 => Some(Kind::Exit),
            3 => Some(Kind::TailCall),
            4 => Some(Kind::Alloc),
            5 => Some(Kind::Dealloc),
            6 => Some(Kind::ReallocAlloc),
            7 => Some(Kind::ReallocDealloc),
            _ => None,
        }
    }

    /// The kind of an allocator event, from the number that the allocator
    /// hook passes: 1 alloc, 2 dealloc, 3 realloc-alloc, 4 realloc-dealloc.
    pub open spec fn of_alloc_hook_spec(hook: u8) -> Kind
        recommends
            1 <= hook <= 4,
    {
        if hook == 1 {
            Kind::Alloc
        } else if hook == 2 {
            Kind::Dealloc
        } else if hook == 3 {
            Kind::ReallocAlloc
        } else {
            Kind::ReallocDealloc
        }
    }
}

/// The payload of an allocator event.
#[derive(Clone, Copy, Debug, PartialEq, Eq, Structural)]
pub struct AllocEvent {
    pub size: u64,
    pub align: u64,
    pub ptr: u64,
}

/// One event record. `func_id` is the 0-based sled index of the function
/// for call events and 0 for allocator events.
#[derive(Debug)]
pub struct Event<ARGS, RV, ALLOC> {
    pub tid: u32,
    pub func_id: u32,
    pub time: u64,
    pub kind: Kind,
    pub args: Option<ARGS>,
    pub return_value: Option<RV>,
    pub alloc_event: Option<ALLOC>,
}

/// The header that follows the signature of a trace file.
#[derive(Debug)]
pub struct Metadata {
    pub shlibid: Vec<u8>,
    pub pid: u32,
    pub shlib_base: u64,
    pub shlib_path: String,
}

/// A map read from a record as the list of its entries, in record order.
#[derive(Debug)]
pub struct VecMap<K, V> {
    pub vec: Vec<(K, V)>,
}

/// The register snapshot of an event as a reader finds it: the name and
/// the value of each register that was not zero.
#[derive(Debug)]
pub struct ArgsData(pub VecMap<String, u128>);

/// Whether a `func_id` field is left out of the record.
pub fn u32_is_zero(n: &u32) -> (b: bool)
    ensures
        b == (*n == 0),
{
    *n == 0
}

} // verus!
