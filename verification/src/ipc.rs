//! Single-producer single-consumer IPC rings in preallocated shared memory.
//!
//! The ring control block sits at offset 0 as little-endian fields
//! (`magic`, `name_hash`, `slot_count`, `slot_size`, `head`, `tail`,
//! `generation`, `reserved`); `slot_count` payload slots of `slot_size`
//! bytes follow it. One slot is always left free, so a ring holds at most
//! `slot_count - 1` frames. Every operation validates the control block
//! first and treats inconsistent indices as corruption.

use vstd::prelude::*;
use vstd::string::*;

use crate::bytes::{get_u32, get_u64, le_u16, le_u32, le_u64};
use crate::types::{align_up_spec, align_up_u64};

verus! {

/// Magic signature for IPC ring headers.
pub const IPC_RING_MAGIC: u64 = 0x4950_4352_494E_4748;

/// Fixed header size in bytes.
pub const IPC_RING_HEADER_BYTES: usize = 40;

/// Role flag: this partition is the producer.
pub const ROLE_PRODUCER: u32 = 1;

/// Role flag: this partition is the consumer.
pub const ROLE_CONSUMER: u32 = 2;

/// Page size used when placing IPC rings in guest/host physical maps.
pub const IPC_MAPPING_PAGE_SIZE: u64 = 4096;

/// FNV-1a 64-bit offset basis.
pub const FNV_OFFSET: u64 = 0xcbf29ce484222325;

/// FNV-1a 64-bit prime.
pub const FNV_PRIME: u64 = 0x00000100000001B3;

/// Errors operating on an IPC ring.
#[derive(Clone, Copy, Debug, PartialEq, Eq)]
pub enum IpcError {
    /// Shared memory is smaller than the fixed header.
    BufferTooSmall,
    /// Header magic or ABI version mismatch.
    InvalidHeader,
    /// Producer or consumer index exceeds `slot_count`.
    IndexOutOfRange,
    /// Header fields disagree with caller-provided channel parameters.
    ParameterMismatch,
    /// Ring state indicates corruption (policy: stop partition).
    CorruptionDetected,
    /// No free slot is available for a push.
    QueueFull,
    /// No slot is available for a pop.
    QueueEmpty,
    /// Slot payload would exceed the slot buffer.
    SlotTooSmall,
    /// Integer overflow computing layout sizes.
    Overflow,
}

impl IpcError {
    /// Returns a static diagnostic label.
    pub fn as_str(self) -> (r: &'static str)
        ensures
            r == ipc_error_label(self),
    {
        match self {
            IpcError::BufferTooSmall => "ipc buffer too small",
            IpcError::InvalidHeader => "ipc invalid header",
            IpcError::IndexOutOfRange => "ipc index out of range",
            IpcError::ParameterMismatch => "ipc parameter mismatch",
            IpcError::CorruptionDetected => "ipc corruption detected",
            IpcError::QueueFull => "ipc queue full",
            IpcError::QueueEmpty => "ipc queue empty",
            IpcError::SlotTooSmall => "ipc slot too small",
            IpcError::Overflow => "ipc overflow",
        }
    }
}

/// Diagnostic label of each IPC error.
pub open spec fn ipc_error_label(e: IpcError) -> &'static str {
    match e {
        IpcError::BufferTooSmall => "ipc buffer too small",
        IpcError::InvalidHeader => "ipc invalid header",
        IpcError::IndexOutOfRange => "ipc index out of range",
        IpcError::ParameterMismatch => "ipc parameter mismatch",
        IpcError::CorruptionDetected => "ipc corruption detected",
        IpcError::QueueFull => "ipc queue full",
        IpcError::QueueEmpty => "ipc queue empty",
        IpcError::SlotTooSmall => "ipc slot too small",
        IpcError::Overflow => "ipc overflow",
    }
}

/// Ring control block at the base of shared IPC memory.
#[derive(Clone, Copy, Debug, PartialEq, Eq)]
pub struct IpcRingHeader {
    /// Magic signature [`IPC_RING_MAGIC`].
    pub magic: u64,
    /// Stable channel name hash.
    pub name_hash: u64,
    /// Number of payload slots following the header.
    pub slot_count: u32,
    /// Maximum payload bytes per slot.
    pub slot_size: u32,
    /// Producer write index in `[0, slot_count)`.
    pub head: u32,
    /// Consumer read index in `[0, slot_count)`.
    pub tail: u32,
    /// Generation counter bumped on every initialisation.
    pub generation: u32,
    /// Reserved.
    pub reserved: u32,
}

/// FNV-1a hash of a byte sequence.
pub open spec fn fnv1a(s: Seq<u8>) -> u64
    decreases s.len(),
{
    if s.len() == 0 {
        FNV_OFFSET
    } else {
        let h = fnv1a(s.drop_last()) ^ (s.last() as u64);
        ((h as nat * FNV_PRIME as nat) % 0x1_0000_0000_0000_0000) as u64
    }
}

/// Computes the deterministic FNV-1a hash of a channel name's UTF-8 bytes.
pub fn ipc_name_hash(name: &str) -> (r: u64)
    ensures
        r == fnv1a(name.spec_bytes()),
{
    let bytes = name.as_bytes();
    let mut hash: u64 = FNV_OFFSET;
    let mut i: usize = 0;
    while i < bytes.len()
        invariant
            i <= bytes@.len(),
            hash == fnv1a(bytes@.subrange(0, i as int)),
        decreases bytes@.len() - i,
    {
        proof {
            assert(bytes@.subrange(0, i + 1).drop_last() =~= bytes@.subrange(0, i as int));
        }
        hash = hash ^ (bytes[i] as u64);
        hash = hash.wrapping_mul(FNV_PRIME);
        i = i + 1;
    }
    assert(bytes@.subrange(0, bytes@.len() as int) =~= bytes@);
    hash
}

/// Total shared bytes of a ring: header plus all slots.
pub open spec fn shared_bytes_spec(slot_count: u32, slot_size: u32) -> int {
    IPC_RING_HEADER_BYTES + slot_count * slot_size
}

/// Returns total shared bytes for a channel ring.
///
/// The result always fits in a `u64`, so this never fails.
pub fn compute_shared_bytes(slot_count: u32, slot_size: u32) -> (r: Result<u64, IpcError>)
    ensures
        r == Ok::<u64, IpcError>(shared_bytes_spec(slot_count, slot_size) as u64),
        shared_bytes_spec(slot_count, slot_size) <= u64::MAX,
{
    proof {
        lemma_shared_fits(slot_count, slot_size);
    }
    let payload = slot_count as u64 * slot_size as u64;
    Ok(IPC_RING_HEADER_BYTES as u64 + payload)
}

proof fn lemma_shared_fits(slot_count: u32, slot_size: u32)
    ensures
        shared_bytes_spec(slot_count, slot_size) <= u64::MAX,
        slot_count * slot_size <= 0xffff_fffe_0000_0001,
{
    assert(slot_count * slot_size <= 0xffff_ffff * 0xffff_ffff) by (nonlinear_arith)
        requires
            slot_count <= 0xffff_ffff,
            slot_size <= 0xffff_ffff,
    ;
}

/// Returns the page-rounded footprint for an IPC ring mapping, so that
/// consecutive channels placed by this size stay page-aligned.
pub fn ipc_mapping_bytes(shared_bytes: u64) -> (r: Result<u64, IpcError>)
    ensures
        align_up_spec(shared_bytes as int, IPC_MAPPING_PAGE_SIZE as int) <= u64::MAX ==> r == Ok::<
            u64,
            IpcError,
        >(align_up_spec(shared_bytes as int, IPC_MAPPING_PAGE_SIZE as int) as u64),
        align_up_spec(shared_bytes as int, IPC_MAPPING_PAGE_SIZE as int) > u64::MAX ==> r == Err::<
            u64,
            IpcError,
        >(IpcError::Overflow),
{
    match align_up_u64(shared_bytes, IPC_MAPPING_PAGE_SIZE) {
        Ok(v) => Ok(v),
        Err(_) => Err(IpcError::Overflow),
    }
}

// ---------------------------------------------------------------------------
// Byte-level model of the ring.
// ---------------------------------------------------------------------------

/// The control block encoded in the first 40 bytes of `b`.
#[verifier::opaque]
pub closed spec fn header_of(b: Seq<u8>) -> IpcRingHeader {
    IpcRingHeader {
        magic: le_u64(b, 0) as u64,
        name_hash: le_u64(b, 8) as u64,
        slot_count: le_u32(b, 16) as u32,
        slot_size: le_u32(b, 20) as u32,
        head: le_u32(b, 24) as u32,
        tail: le_u32(b, 28) as u32,
        generation: le_u32(b, 32) as u32,
        reserved: le_u32(b, 36) as u32,
    }
}

/// The error `validate_ring` reports for `b`, or `None` when the ring is valid.
pub open spec fn ring_error(b: Seq<u8>, name_hash: u64, slot_count: u32, slot_size: u32) -> Option<
    IpcError,
> {
    let h = header_of(b);
    if b.len() < shared_bytes_spec(slot_count, slot_size) {
        Some(IpcError::BufferTooSmall)
    } else if h.magic != IPC_RING_MAGIC {
        Some(IpcError::InvalidHeader)
    } else if h.name_hash != name_hash {
        Some(IpcError::ParameterMismatch)
    } else if h.slot_count != slot_count || h.slot_size != slot_size {
        Some(IpcError::ParameterMismatch)
    } else if h.head >= h.slot_count || h.tail >= h.slot_count {
        Some(IpcError::CorruptionDetected)
    } else {
        None
    }
}

/// Number of queued frames between `tail` and `head`.
pub open spec fn queued(h: IpcRingHeader) -> int {
    if h.head >= h.tail {
        h.head - h.tail
    } else {
        h.head + h.slot_count - h.tail
    }
}

/// Slot index of the `k`-th queued frame.
pub open spec fn queued_index(h: IpcRingHeader, k: int) -> int {
    if h.tail + k < h.slot_count {
        h.tail + k
    } else {
        h.tail + k - h.slot_count
    }
}

/// Byte offset of slot `idx`.
pub open spec fn slot_offset(idx: int, slot_size: int) -> int {
    IPC_RING_HEADER_BYTES + idx * slot_size
}

/// Bytes of slot `idx`.
pub open spec fn slot_bytes(b: Seq<u8>, idx: int, slot_size: int) -> Seq<u8> {
    b.subrange(slot_offset(idx, slot_size), slot_offset(idx, slot_size) + slot_size)
}

/// Queued frames from oldest to newest, each as the full slot bytes.
pub open spec fn ring_frames(b: Seq<u8>) -> Seq<Seq<u8>> {
    let h = header_of(b);
    Seq::new(
        queued(h) as nat,
        |k: int| slot_bytes(b, queued_index(h, k), h.slot_size as int),
    )
}

/// A payload zero-padded to a full slot.
pub open spec fn slot_image(payload: Seq<u8>, slot_size: int) -> Seq<u8> {
    payload + Seq::new((slot_size - payload.len()) as nat, |i: int| 0u8)
}

/// Bytes beyond the slot area, left untouched by ring operations.
pub open spec fn trailing_bytes(b: Seq<u8>) -> Seq<u8> {
    let h = header_of(b);
    b.subrange(shared_bytes_spec(h.slot_count, h.slot_size), b.len() as int)
}

proof fn lemma_slots_disjoint(i: int, j: int, n: int, ss: int)
    requires
        0 <= i < j < n,
        ss >= 0,
    ensures
        slot_offset(i, ss) + ss <= slot_offset(j, ss),
        slot_offset(j, ss) + ss <= IPC_RING_HEADER_BYTES + n * ss,
{
    assert(i * ss + ss <= j * ss) by (nonlinear_arith)
        requires
            i < j,
            ss >= 0,
    ;
    assert(j * ss + ss <= n * ss) by (nonlinear_arith)
        requires
            j < n,
            ss >= 0,
    ;
}

proof fn lemma_slot_in_bounds(i: int, n: int, ss: int)
    requires
        0 <= i < n,
        ss >= 0,
    ensures
        IPC_RING_HEADER_BYTES <= slot_offset(i, ss),
        slot_offset(i, ss) + ss <= IPC_RING_HEADER_BYTES + n * ss,
{
    assert(i * ss + ss <= n * ss) by (nonlinear_arith)
        requires
            i < n,
            ss >= 0,
    ;
    assert(i * ss >= 0) by (nonlinear_arith)
        requires
            i >= 0,
            ss >= 0,
    ;
}

fn read_header(backing: &[u8]) -> (r: IpcRingHeader)
    requires
        backing@.len() >= IPC_RING_HEADER_BYTES,
    ensures
        r == header_of(backing@),
{
    reveal(header_of);
    IpcRingHeader {
        magic: get_u64(backing, 0),
        name_hash: get_u64(backing, 8),
        slot_count: get_u32(backing, 16),
        slot_size: get_u32(backing, 20),
        head: get_u32(backing, 24),
        tail: get_u32(backing, 28),
        generation: get_u32(backing, 32),
        reserved: get_u32(backing, 36),
    }
}

proof fn lemma_le_u32_bytes(v: u32)
    ensures
        ({
            let b0 = (v % 256) as u8;
            let b1 = ((v / 256) % 256) as u8;
            let b2 = ((v / 65536) % 256) as u8;
            let b3 = (v / 16777216) as u8;
            b0 + b1 * 0x100 + (b2 + b3 * 0x100) * 0x1_0000 == v
        }),
{
    assert((v % 256) + ((v / 256) % 256) * 0x100 + (((v / 65536) % 256) + (v / 16777216) * 0x100)
        * 0x1_0000 == v) by (nonlinear_arith);
}

/// Writes `v` little-endian at `off`, leaving every other byte unchanged.
fn put_u32(backing: &mut [u8], off: usize, v: u32)
    requires
        off + 4 <= old(backing).len(),
    ensures
        final(backing)@.len() == old(backing)@.len(),
        le_u32(final(backing)@, off as int) == v,
        forall|i: int|
            0 <= i < old(backing)@.len() && !(off <= i < off + 4) ==> #[trigger] final(backing)@[i]
                == old(backing)@[i],
{
    proof {
        lemma_le_u32_bytes(v);
    }
    backing[off] = (v % 256) as u8;
    backing[off + 1] = ((v / 256) % 256) as u8;
    backing[off + 2] = ((v / 65536) % 256) as u8;
    backing[off + 3] = (v / 16777216) as u8;
}

proof fn lemma_le_u64_bytes(v: u64)
    ensures
        ({
            let lo = (v % 0x1_0000_0000) as u32;
            let hi = (v / 0x1_0000_0000) as u32;
            lo + hi * 0x1_0000_0000 == v
        }),
{
}

/// Writes `v` little-endian at `off`, leaving every other byte unchanged.
fn put_u64(backing: &mut [u8], off: usize, v: u64)
    requires
        off + 8 <= old(backing).len(),
    ensures
        final(backing)@.len() == old(backing)@.len(),
        le_u64(final(backing)@, off as int) == v,
        forall|i: int|
            0 <= i < old(backing)@.len() && !(off <= i < off + 8) ==> #[trigger] final(backing)@[i]
                == old(backing)@[i],
{
    let lo = (v % 0x1_0000_0000) as u32;
    let hi = (v / 0x1_0000_0000) as u32;
    put_u32(backing, off, lo);
    let ghost mid = backing@;
    put_u32(backing, off + 4, hi);
    proof {
        lemma_le_u64_bytes(v);
        assert(le_u32(backing@, off as int) == le_u32(mid, off as int));
    }
}

/// Validates a ring header and backing size against expected channel parameters.
pub fn validate_ring(backing: &[u8], name: &str, slot_count: u32, slot_size: u32) -> (r: Result<
    IpcRingHeader,
    IpcError,
>)
    ensures
        ring_error(backing@, fnv1a(name.spec_bytes()), slot_count, slot_size) matches Some(e)
            ==> r == Err::<IpcRingHeader, IpcError>(e),
        ring_error(backing@, fnv1a(name.spec_bytes()), slot_count, slot_size) is None ==> r
            == Ok::<IpcRingHeader, IpcError>(header_of(backing@)),
{
    let required = match compute_shared_bytes(slot_count, slot_size) {
        Ok(v) => v,
        Err(e) => return Err(e),
    };
    if (backing.len() as u64) < required {
        return Err(IpcError::BufferTooSmall);
    }
    let header = read_header(backing);
    if header.magic != IPC_RING_MAGIC {
        return Err(IpcError::InvalidHeader);
    }
    if header.name_hash != ipc_name_hash(name) {
        return Err(IpcError::ParameterMismatch);
    }
    if header.slot_count != slot_count || header.slot_size != slot_size {
        return Err(IpcError::ParameterMismatch);
    }
    if header.head >= header.slot_count || header.tail >= header.slot_count {
        return Err(IpcError::CorruptionDetected);
    }
    Ok(header)
}

/// Returns true when the ring has at least one unconsumed slot.
pub fn ring_has_pending_frame(backing: &[u8], name: &str, slot_count: u32, slot_size: u32) -> (r:
    Result<bool, IpcError>)
    ensures
        ring_error(backing@, fnv1a(name.spec_bytes()), slot_count, slot_size) matches Some(e)
            ==> r == Err::<bool, IpcError>(e),
        ring_error(backing@, fnv1a(name.spec_bytes()), slot_count, slot_size) is None ==> r
            == Ok::<bool, IpcError>(ring_frames(backing@).len() > 0),
{
    let header = validate_ring(backing, name, slot_count, slot_size)?;
    Ok(header.head != header.tail)
}


/// A validated ring has no free slot left for a push.
pub open spec fn ring_full(h: IpcRingHeader) -> bool {
    queued(h) + 1 == h.slot_count
}

/// `h` with its producer index replaced.
pub open spec fn with_head(h: IpcRingHeader, head: u32) -> IpcRingHeader {
    IpcRingHeader { head, ..h }
}

/// `h` with its consumer index replaced.
pub open spec fn with_tail(h: IpcRingHeader, tail: u32) -> IpcRingHeader {
    IpcRingHeader { tail, ..h }
}

/// Index that follows `i` in a ring of `n` slots.
pub open spec fn next_index(i: int, n: int) -> int {
    if i + 1 == n {
        0
    } else {
        i + 1
    }
}

/// The control block written by `init_ring`.
pub open spec fn initial_header(
    name_hash: u64,
    slot_count: u32,
    slot_size: u32,
    old_generation: u32,
) -> IpcRingHeader {
    IpcRingHeader {
        magic: IPC_RING_MAGIC,
        name_hash,
        slot_count,
        slot_size,
        head: 0,
        tail: 0,
        generation: ((old_generation + 1) % 0x1_0000_0000) as u32,
        reserved: 0,
    }
}

proof fn lemma_unchanged_le(old: Seq<u8>, new: Seq<u8>, off: int, n: int)
    requires
        new.len() == old.len(),
        0 <= off,
        off + n <= old.len(),
        forall|i: int| off <= i < off + n ==> #[trigger] new[i] == old[i],
    ensures
        n >= 4 ==> le_u32(new, off) == le_u32(old, off),
        n >= 8 ==> le_u64(new, off) == le_u64(old, off),
{
    if n >= 4 {
        assert(new[off] == old[off]);
        assert(new[off + 1] == old[off + 1]);
        assert(new[off + 2] == old[off + 2]);
        assert(new[off + 3] == old[off + 3]);
    }
    if n >= 8 {
        assert(new[off + 4] == old[off + 4]);
        assert(new[off + 5] == old[off + 5]);
        assert(new[off + 6] == old[off + 6]);
        assert(new[off + 7] == old[off + 7]);
    }
}

proof fn lemma_queued_bounds(h: IpcRingHeader, k: int)
    requires
        h.head < h.slot_count,
        h.tail < h.slot_count,
        0 <= k < queued(h),
    ensures
        0 <= queued(h) < h.slot_count,
        0 <= queued_index(h, k) < h.slot_count,
        queued_index(h, k) != h.head,
{
}

proof fn lemma_slot_unchanged(old: Seq<u8>, new: Seq<u8>, idx: int, other: int, n: int, ss: int)
    requires
        new.len() == old.len(),
        0 <= idx < n,
        0 <= other < n,
        idx != other,
        ss >= 0,
        IPC_RING_HEADER_BYTES + n * ss <= old.len(),
        forall|i: int|
            0 <= i < old.len() && !(slot_offset(other, ss) <= i < slot_offset(other, ss) + ss)
                && !(24 <= i < 32) ==> #[trigger] new[i] == old[i],
    ensures
        slot_bytes(new, idx, ss) == slot_bytes(old, idx, ss),
{
    lemma_slot_in_bounds(idx, n, ss);
    if idx < other {
        lemma_slots_disjoint(idx, other, n, ss);
    } else {
        lemma_slots_disjoint(other, idx, n, ss);
    }
    assert(slot_bytes(new, idx, ss) =~= slot_bytes(old, idx, ss));
}

proof fn lemma_header_generation(b: Seq<u8>)
    ensures
        header_of(b).generation == le_u32(b, 32) as u32,
{
    reveal(header_of);
}

/// Encodes `h` into the first 40 bytes, leaving the rest unchanged.
#[verifier::rlimit(60)]
fn write_header(backing: &mut [u8], h: IpcRingHeader)
    requires
        old(backing).len() >= IPC_RING_HEADER_BYTES,
    ensures
        final(backing)@.len() == old(backing)@.len(),
        header_of(final(backing)@) == h,
        forall|i: int|
            IPC_RING_HEADER_BYTES <= i < old(backing)@.len() ==> #[trigger] final(backing)@[i]
                == old(backing)@[i],
{
    proof {
        reveal(header_of);
    }
    put_u64(backing, 0, h.magic);
    let ghost b0 = backing@;
    put_u64(backing, 8, h.name_hash);
    let ghost b1 = backing@;
    put_u32(backing, 16, h.slot_count);
    let ghost b2 = backing@;
    put_u32(backing, 20, h.slot_size);
    let ghost b3 = backing@;
    put_u32(backing, 24, h.head);
    let ghost b4 = backing@;
    put_u32(backing, 28, h.tail);
    let ghost b5 = backing@;
    put_u32(backing, 32, h.generation);
    let ghost b6 = backing@;
    put_u32(backing, 36, h.reserved);
    proof {
        let f = backing@;
        assert forall|i: int| 0 <= i < 36 implies #[trigger] f[i] == b6[i] by {}
        assert forall|i: int| 0 <= i < 32 implies #[trigger] f[i] == b5[i] by {
            assert(b6[i] == b5[i]);
        }
        assert forall|i: int| 0 <= i < 28 implies #[trigger] f[i] == b4[i] by {
            assert(b6[i] == b5[i]);
            assert(b5[i] == b4[i]);
        }
        assert forall|i: int| 0 <= i < 24 implies #[trigger] f[i] == b3[i] by {
            assert(b6[i] == b5[i]);
            assert(b5[i] == b4[i]);
            assert(b4[i] == b3[i]);
        }
        assert forall|i: int| 0 <= i < 20 implies #[trigger] f[i] == b2[i] by {
            assert(b6[i] == b5[i]);
            assert(b5[i] == b4[i]);
            assert(b4[i] == b3[i]);
            assert(b3[i] == b2[i]);
        }
        assert forall|i: int| 0 <= i < 16 implies #[trigger] f[i] == b1[i] by {
            assert(b6[i] == b5[i]);
            assert(b5[i] == b4[i]);
            assert(b4[i] == b3[i]);
            assert(b3[i] == b2[i]);
            assert(b2[i] == b1[i]);
        }
        assert forall|i: int| 0 <= i < 8 implies #[trigger] f[i] == b0[i] by {
            assert(b6[i] == b5[i]);
            assert(b5[i] == b4[i]);
            assert(b4[i] == b3[i]);
            assert(b3[i] == b2[i]);
            assert(b2[i] == b1[i]);
            assert(b1[i] == b0[i]);
        }
        lemma_unchanged_le(b0, f, 0, 8);
        lemma_unchanged_le(b1, f, 8, 8);
        lemma_unchanged_le(b2, f, 16, 4);
        lemma_unchanged_le(b3, f, 20, 4);
        lemma_unchanged_le(b4, f, 24, 4);
        lemma_unchanged_le(b5, f, 28, 4);
        lemma_unchanged_le(b6, f, 32, 4);
    }
}

/// Initializes a ring in shared memory: writes a fresh control block for the
/// channel, empties the ring and bumps the generation counter.
pub fn init_ring(backing: &mut [u8], name: &str, slot_count: u32, slot_size: u32) -> (r: Result<
    IpcRingHeader,
    IpcError,
>)
    ensures
        old(backing)@.len() < shared_bytes_spec(slot_count, slot_size) ==> r == Err::<
            IpcRingHeader,
            IpcError,
        >(IpcError::BufferTooSmall) && final(backing)@ == old(backing)@,
        old(backing)@.len() >= shared_bytes_spec(slot_count, slot_size) ==> {
            let h = initial_header(
                fnv1a(name.spec_bytes()),
                slot_count,
                slot_size,
                header_of(old(backing)@).generation,
            );
            &&& r == Ok::<IpcRingHeader, IpcError>(h)
            &&& final(backing)@.len() == old(backing)@.len()
            &&& header_of(final(backing)@) == h
            &&& final(backing)@.subrange(40, final(backing)@.len() as int) == old(backing)@.subrange(
                40,
                old(backing)@.len() as int,
            )
            &&& slot_count > 0 ==> ring_error(final(backing)@, fnv1a(name.spec_bytes()), slot_count, slot_size) is None
            &&& ring_frames(final(backing)@).len() == 0
        },
{
    let required = match compute_shared_bytes(slot_count, slot_size) {
        Ok(v) => v,
        Err(e) => return Err(e),
    };
    if (backing.len() as u64) < required {
        return Err(IpcError::BufferTooSmall);
    }
    let ghost old_b = backing@;
    let old_generation = get_u32(backing, 32);
    proof {
        lemma_header_generation(old_b);
    }
    let name_hash = ipc_name_hash(name);
    let generation = old_generation.wrapping_add(1);
    let header = IpcRingHeader {
        magic: IPC_RING_MAGIC,
        name_hash,
        slot_count,
        slot_size,
        head: 0,
        tail: 0,
        generation,
        reserved: 0,
    };
    write_header(backing, header);
    proof {
        assert(backing@.subrange(40, backing@.len() as int) =~= old_b.subrange(
            40,
            old_b.len() as int,
        ));
    }
    Ok(header)
}

/// Attempts to push one payload as producer; the payload is zero-padded to
/// a full slot.
pub fn try_push(
    backing: &mut [u8],
    name: &str,
    slot_count: u32,
    slot_size: u32,
    payload: &[u8],
) -> (r: Result<(), IpcError>)
    ensures
        payload@.len() > slot_size ==> r == Err::<(), IpcError>(IpcError::SlotTooSmall),
        payload@.len() <= slot_size ==> (ring_error(
            old(backing)@,
            fnv1a(name.spec_bytes()),
            slot_count,
            slot_size,
        ) matches Some(e) ==> r == Err::<(), IpcError>(e)),
        payload@.len() <= slot_size && ring_error(
            old(backing)@,
            fnv1a(name.spec_bytes()),
            slot_count,
            slot_size,
        ) is None && ring_full(header_of(old(backing)@)) ==> r == Err::<(), IpcError>(
            IpcError::QueueFull,
        ),
        payload@.len() <= slot_size && ring_error(
            old(backing)@,
            fnv1a(name.spec_bytes()),
            slot_count,
            slot_size,
        ) is None && !ring_full(header_of(old(backing)@)) ==> r is Ok,
        r is Err ==> final(backing)@ == old(backing)@,
        r is Ok ==> {
            let h = header_of(old(backing)@);
            &&& payload@.len() <= slot_size
            &&& ring_error(old(backing)@, fnv1a(name.spec_bytes()), slot_count, slot_size) is None
            &&& !ring_full(h)
            &&& final(backing)@.len() == old(backing)@.len()
            &&& header_of(final(backing)@) == with_head(h, next_index(h.head as int, h.slot_count as int) as u32)
            &&& ring_error(final(backing)@, fnv1a(name.spec_bytes()), slot_count, slot_size) is None
            &&& ring_frames(final(backing)@) == ring_frames(old(backing)@).push(
                slot_image(payload@, slot_size as int),
            )
            &&& trailing_bytes(final(backing)@) == trailing_bytes(old(backing)@)
            &&& slot_bytes(final(backing)@, h.head as int, slot_size as int) == slot_image(payload@, slot_size as int)
            &&& forall|p: int|
                0 <= p < old(backing)@.len() && !(24 <= p < 28) && !(slot_offset(h.head as int, slot_size as int) <= p
                    < slot_offset(h.head as int, slot_size as int) + slot_size) ==> #[trigger] final(backing)@[p]
                    == old(backing)@[p]
        },
{
    if payload.len() > slot_size as usize {
        return Err(IpcError::SlotTooSmall);
    }
    let header = validate_ring(backing, name, slot_count, slot_size)?;
    let ghost old_b = backing@;
    let ghost h = header;
    let next = if header.head + 1 == header.slot_count { 0 } else { header.head + 1 };
    if next == header.tail {
        return Err(IpcError::QueueFull);
    }
    proof {
        lemma_shared_fits(slot_count, slot_size);
        lemma_slot_in_bounds(h.head as int, slot_count as int, slot_size as int);
    }
    let blen = backing.len();
    let ss = slot_size as usize;
    let off: usize = IPC_RING_HEADER_BYTES + (header.head as usize) * ss;
    let plen = payload.len();
    let mut i: usize = 0;
    while i < ss
        invariant
            ss == slot_size,
            plen == payload@.len(),
            plen <= ss,
            off == slot_offset(h.head as int, ss as int),
            off + ss <= old_b.len(),
            backing@.len() == old_b.len(),
            off + ss <= backing.len(),
            i <= ss,
            forall|p: int|
                0 <= p < old_b.len() && !(off <= p < off + i) ==> #[trigger] backing@[p] == old_b[p],
            forall|p: int|
                0 <= p < i ==> #[trigger] backing@[off + p] == slot_image(payload@, ss as int)[p],
        decreases ss - i,
    {
        if i < plen {
            backing[off + i] = payload[i];
        } else {
            backing[off + i] = 0;
        }
        i = i + 1;
    }
    let ghost mid = backing@;
    put_u32(backing, 24, next);
    proof {
        lemma_push_frames(old_b, mid, backing@, payload@);
        let nb = backing@;
        assert forall|p: int| 0 <= p < ss implies #[trigger] slot_bytes(nb, h.head as int, ss as int)[p]
            == slot_image(payload@, ss as int)[p] by {
            assert(nb[off + p] == mid[off + p]);
        }
        assert(slot_bytes(nb, h.head as int, ss as int) =~= slot_image(payload@, ss as int));
        assert forall|p: int|
            0 <= p < old_b.len() && !(24 <= p < 28) && !(off <= p < off + ss) implies #[trigger] nb[p] == old_b[p] by {
            assert(nb[p] == mid[p]);
        }
    }
    Ok(())
}

#[verifier::rlimit(60)]
proof fn lemma_push_frames(old_b: Seq<u8>, mid: Seq<u8>, new_b: Seq<u8>, payload: Seq<u8>)
    requires
        old_b.len() == mid.len(),
        old_b.len() == new_b.len(),
        old_b.len() >= shared_bytes_spec(header_of(old_b).slot_count, header_of(old_b).slot_size),
        header_of(old_b).head < header_of(old_b).slot_count,
        header_of(old_b).tail < header_of(old_b).slot_count,
        !ring_full(header_of(old_b)),
        payload.len() <= header_of(old_b).slot_size,
        forall|p: int|
            0 <= p < old_b.len() && !(slot_offset(header_of(old_b).head as int, header_of(old_b).slot_size as int) <= p
                < slot_offset(header_of(old_b).head as int, header_of(old_b).slot_size as int) + header_of(old_b).slot_size)
                ==> #[trigger] mid[p] == old_b[p],
        forall|p: int|
            0 <= p < header_of(old_b).slot_size ==> #[trigger] mid[slot_offset(header_of(old_b).head as int, header_of(old_b).slot_size as int) + p]
                == slot_image(payload, header_of(old_b).slot_size as int)[p],
        forall|p: int| 0 <= p < old_b.len() && !(24 <= p < 28) ==> #[trigger] new_b[p] == mid[p],
        le_u32(new_b, 24) == next_index(header_of(old_b).head as int, header_of(old_b).slot_count as int),
    ensures
        header_of(new_b) == with_head(
            header_of(old_b),
            next_index(header_of(old_b).head as int, header_of(old_b).slot_count as int) as u32,
        ),
        ring_frames(new_b) == ring_frames(old_b).push(slot_image(payload, header_of(old_b).slot_size as int)),
        trailing_bytes(new_b) == trailing_bytes(old_b),
{
    reveal(header_of);
    let h = header_of(old_b);
    let sc = h.slot_count as int;
    let ssi = h.slot_size as int;
    lemma_shared_fits(h.slot_count, h.slot_size);
    lemma_slot_in_bounds(h.head as int, sc, ssi);
    let off = slot_offset(h.head as int, ssi);
    assert forall|p: int|
        0 <= p < old_b.len() && !(off <= p < off + ssi) && !(24 <= p < 32) implies #[trigger] new_b[p]
        == old_b[p] by {
        assert(new_b[p] == mid[p]);
    }
    lemma_unchanged_le(old_b, new_b, 0, 24);
    lemma_unchanged_le(old_b, new_b, 28, 12);
    lemma_unchanged_le(old_b, new_b, 32, 8);
    lemma_unchanged_le(old_b, new_b, 8, 16);
    lemma_unchanged_le(old_b, new_b, 16, 8);
    let nh = header_of(new_b);
    assert(nh == with_head(h, next_index(h.head as int, sc) as u32));
    let nf = ring_frames(new_b);
    let of = ring_frames(old_b);
    let img = slot_image(payload, ssi);
    assert(queued(nh) == queued(h) + 1);
    assert forall|k: int| 0 <= k < queued(h) implies #[trigger] nf[k] == of[k] by {
        lemma_queued_bounds(h, k);
        assert(queued_index(nh, k) == queued_index(h, k));
        lemma_slot_unchanged(old_b, new_b, queued_index(h, k), h.head as int, sc, ssi);
    }
    assert(queued_index(nh, queued(h)) == h.head);
    assert(slot_bytes(new_b, h.head as int, ssi) =~= img) by {
        assert forall|p: int| 0 <= p < ssi implies #[trigger] slot_bytes(new_b, h.head as int, ssi)[p]
            == img[p] by {
            assert(new_b[off + p] == mid[off + p]);
        }
    }
    assert(nf =~= of.push(img));
    assert(trailing_bytes(new_b) =~= trailing_bytes(old_b));
}

proof fn lemma_pop_frames(old_b: Seq<u8>, new_b: Seq<u8>)
    requires
        old_b.len() == new_b.len(),
        old_b.len() >= shared_bytes_spec(header_of(old_b).slot_count, header_of(old_b).slot_size),
        header_of(old_b).head < header_of(old_b).slot_count,
        header_of(old_b).tail < header_of(old_b).slot_count,
        header_of(old_b).head != header_of(old_b).tail,
        forall|p: int| 0 <= p < old_b.len() && !(28 <= p < 32) ==> #[trigger] new_b[p] == old_b[p],
        le_u32(new_b, 28) == next_index(
            header_of(old_b).tail as int,
            header_of(old_b).slot_count as int,
        ),
    ensures
        header_of(new_b) == with_tail(
            header_of(old_b),
            next_index(header_of(old_b).tail as int, header_of(old_b).slot_count as int) as u32,
        ),
        ring_frames(new_b) == ring_frames(old_b).drop_first(),
        trailing_bytes(new_b) == trailing_bytes(old_b),
{
    reveal(header_of);
    let h = header_of(old_b);
    lemma_unchanged_le(old_b, new_b, 0, 28);
    lemma_unchanged_le(old_b, new_b, 32, 8);
    lemma_unchanged_le(old_b, new_b, 8, 16);
    lemma_unchanged_le(old_b, new_b, 16, 8);
    lemma_unchanged_le(old_b, new_b, 24, 4);
    let nh = header_of(new_b);
    assert(nh == with_tail(h, next_index(h.tail as int, h.slot_count as int) as u32));
    let sc = h.slot_count as int;
    let ss = h.slot_size as int;
    lemma_shared_fits(h.slot_count, h.slot_size);
    let nf = ring_frames(new_b);
    let of = ring_frames(old_b);
    assert(queued(nh) == queued(h) - 1);
    assert forall|k: int| 0 <= k < queued(nh) implies #[trigger] nf[k] == of[k + 1] by {
        assert(queued_index(nh, k) == queued_index(h, k + 1));
        let idx = queued_index(h, k + 1);
        lemma_slot_in_bounds(idx, sc, ss);
        assert(slot_bytes(new_b, idx, ss) =~= slot_bytes(old_b, idx, ss));
    }
    assert(nf =~= of.drop_first());
    assert(trailing_bytes(new_b) =~= trailing_bytes(old_b));
}

/// Copies the first `min(out.len(), slot_size)` bytes of the oldest frame
/// into `out`.
fn copy_front(backing: &[u8], h: IpcRingHeader, out: &mut [u8]) -> (n: usize)
    requires
        backing@.len() >= shared_bytes_spec(h.slot_count, h.slot_size),
        h == header_of(backing@),
        h.head < h.slot_count,
        h.tail < h.slot_count,
        h.head != h.tail,
    ensures
        n == if old(out)@.len() < h.slot_size { old(out)@.len() as int } else { h.slot_size as int },
        final(out)@.len() == old(out)@.len(),
        final(out)@.subrange(0, n as int) == ring_frames(backing@)[0].subrange(0, n as int),
        final(out)@.subrange(n as int, final(out)@.len() as int) == old(out)@.subrange(
            n as int,
            old(out)@.len() as int,
        ),
{
    proof {
        lemma_shared_fits(h.slot_count, h.slot_size);
        lemma_slot_in_bounds(h.tail as int, h.slot_count as int, h.slot_size as int);
        assert(queued_index(h, 0) == h.tail);
    }
    let blen = backing.len();
    let ss = h.slot_size as usize;
    let off: usize = IPC_RING_HEADER_BYTES + (h.tail as usize) * ss;
    let n = if out.len() < ss { out.len() } else { ss };
    let ghost old_out = out@;
    let ghost frame = ring_frames(backing@)[0];
    assert(frame == slot_bytes(backing@, h.tail as int, h.slot_size as int));
    let mut i: usize = 0;
    while i < n
        invariant
            n <= ss,
            n <= old_out.len(),
            ss == h.slot_size,
            off == slot_offset(h.tail as int, ss as int),
            off + ss <= backing@.len(),
            off + ss <= backing.len(),
            frame == backing@.subrange(off as int, off + ss),
            out@.len() == old_out.len(),
            i <= n,
            forall|p: int| 0 <= p < i ==> #[trigger] out@[p] == frame[p],
            forall|p: int| i <= p < old_out.len() ==> #[trigger] out@[p] == old_out[p],
        decreases n - i,
    {
        out[i] = backing[off + i];
        i = i + 1;
    }
    proof {
        assert(out@.subrange(0, n as int) =~= frame.subrange(0, n as int));
        assert(out@.subrange(n as int, out@.len() as int) =~= old_out.subrange(
            n as int,
            old_out.len() as int,
        ));
    }
    n
}

/// Attempts to pop one frame as consumer, copying up to `out.len()` bytes of
/// the slot into `out`; returns the number of bytes copied.
pub fn try_pop(
    backing: &mut [u8],
    name: &str,
    slot_count: u32,
    slot_size: u32,
    out: &mut [u8],
) -> (r: Result<usize, IpcError>)
    ensures
        ring_error(old(backing)@, fnv1a(name.spec_bytes()), slot_count, slot_size) matches Some(e)
            ==> r == Err::<usize, IpcError>(e),
        ring_error(old(backing)@, fnv1a(name.spec_bytes()), slot_count, slot_size) is None
            && ring_frames(old(backing)@).len() == 0 ==> r == Err::<usize, IpcError>(
            IpcError::QueueEmpty,
        ),
        ring_error(old(backing)@, fnv1a(name.spec_bytes()), slot_count, slot_size) is None
            && ring_frames(old(backing)@).len() > 0 ==> r is Ok,
        r is Err ==> final(backing)@ == old(backing)@ && final(out)@ == old(out)@,
        r matches Ok(n) ==> {
            let h = header_of(old(backing)@);
            let frames = ring_frames(old(backing)@);
            &&& ring_error(old(backing)@, fnv1a(name.spec_bytes()), slot_count, slot_size) is None
            &&& frames.len() > 0
            &&& n == if old(out)@.len() < slot_size { old(out)@.len() as int } else { slot_size as int }
            &&& final(out)@.len() == old(out)@.len()
            &&& final(out)@.subrange(0, n as int) == frames[0].subrange(0, n as int)
            &&& final(out)@.subrange(n as int, final(out)@.len() as int) == old(out)@.subrange(
                n as int,
                old(out)@.len() as int,
            )
            &&& final(backing)@.len() == old(backing)@.len()
            &&& header_of(final(backing)@) == with_tail(h, next_index(h.tail as int, h.slot_count as int) as u32)
            &&& ring_error(final(backing)@, fnv1a(name.spec_bytes()), slot_count, slot_size) is None
            &&& ring_frames(final(backing)@) == frames.drop_first()
            &&& trailing_bytes(final(backing)@) == trailing_bytes(old(backing)@)
            &&& forall|p: int| 0 <= p < old(backing)@.len() && !(28 <= p < 32) ==> #[trigger] final(backing)@[p]
                == old(backing)@[p]
        },
{
    let header = validate_ring(backing, name, slot_count, slot_size)?;
    if header.head == header.tail {
        return Err(IpcError::QueueEmpty);
    }
    let ghost old_b = backing@;
    let n = copy_front(backing, header, out);
    let next = if header.tail + 1 == header.slot_count { 0 } else { header.tail + 1 };
    put_u32(backing, 28, next);
    proof {
        lemma_pop_frames(old_b, backing@);
    }
    Ok(n)
}

/// Reads the oldest frame without consuming it.
pub fn peek_front_payload(
    backing: &[u8],
    name: &str,
    slot_count: u32,
    slot_size: u32,
    out: &mut [u8],
) -> (r: Result<usize, IpcError>)
    ensures
        ring_error(backing@, fnv1a(name.spec_bytes()), slot_count, slot_size) matches Some(e)
            ==> r == Err::<usize, IpcError>(e),
        ring_error(backing@, fnv1a(name.spec_bytes()), slot_count, slot_size) is None
            && ring_frames(backing@).len() == 0 ==> r == Err::<usize, IpcError>(IpcError::QueueEmpty),
        ring_error(backing@, fnv1a(name.spec_bytes()), slot_count, slot_size) is None
            && ring_frames(backing@).len() > 0 ==> r is Ok,
        r is Err ==> final(out)@ == old(out)@,
        r matches Ok(n) ==> {
            let frames = ring_frames(backing@);
            &&& frames.len() > 0
            &&& n == if old(out)@.len() < slot_size { old(out)@.len() as int } else { slot_size as int }
            &&& final(out)@.len() == old(out)@.len()
            &&& final(out)@.subrange(0, n as int) == frames[0].subrange(0, n as int)
            &&& final(out)@.subrange(n as int, final(out)@.len() as int) == old(out)@.subrange(
                n as int,
                old(out)@.len() as int,
            )
        },
{
    let header = validate_ring(backing, name, slot_count, slot_size)?;
    if header.head == header.tail {
        return Err(IpcError::QueueEmpty);
    }
    let n = copy_front(backing, header, out);
    Ok(n)
}

/// Capacity: a valid ring always keeps one slot free, so it holds at most
/// `slot_count - 1` frames, and it is full exactly when it holds that many.
pub proof fn ring_keeps_one_slot_free(b: Seq<u8>, name_hash: u64, slot_count: u32, slot_size: u32)
    requires
        ring_error(b, name_hash, slot_count, slot_size) is None,
    ensures
        ring_frames(b).len() < slot_count,
        ring_full(header_of(b)) <==> ring_frames(b).len() + 1 == slot_count,
{
}

/// A payload written into a slot reads back unchanged, followed by zeros.
pub proof fn slot_image_keeps_payload(payload: Seq<u8>, slot_size: int)
    requires
        payload.len() <= slot_size,
    ensures
        slot_image(payload, slot_size).len() == slot_size,
        slot_image(payload, slot_size).subrange(0, payload.len() as int) == payload,
        forall|i: int| payload.len() <= i < slot_size ==> #[trigger] slot_image(payload, slot_size)[i] == 0,
{
    assert(slot_image(payload, slot_size).subrange(0, payload.len() as int) =~= payload);
}

/// FIFO order: after a push onto ring contents `before`, the oldest frame is
/// unchanged when there was one, or is the pushed frame on an empty ring; a
/// pop after the push removes that oldest frame and keeps the pushed frame last.
pub proof fn ring_push_pop_fifo(before: Seq<Seq<u8>>, pushed: Seq<Seq<u8>>, popped: Seq<Seq<u8>>, frame: Seq<u8>)
    requires
        pushed == before.push(frame),
        popped == pushed.drop_first(),
    ensures
        before.len() == 0 ==> pushed[0] == frame && popped.len() == 0,
        before.len() > 0 ==> pushed[0] == before[0] && popped == before.drop_first().push(frame),
{
    if before.len() > 0 {
        assert(popped =~= before.drop_first().push(frame));
    }
}

/// Slot images of payloads `ps[from..to]`, in order.
pub open spec fn images(ps: Seq<Seq<u8>>, from: int, to: int, slot_size: u32) -> Seq<Seq<u8>> {
    Seq::new((to - from) as nat, |j: int| slot_image(ps[from + j], slot_size as int))
}

proof fn lemma_pushes(bs: Seq<Seq<u8>>, ps: Seq<Seq<u8>>, slot_size: u32, i: int)
    requires
        0 <= i <= ps.len(),
        bs.len() > ps.len(),
        ring_frames(bs[0]).len() == 0,
        forall|q: int| 0 <= q < ps.len() ==> ring_frames(#[trigger] bs[q + 1]) == ring_frames(bs[q]).push(
            slot_image(ps[q], slot_size as int),
        ),
    ensures
        ring_frames(bs[i]) == images(ps, 0, i, slot_size),
    decreases i,
{
    if i == 0 {
        assert(ring_frames(bs[0]) =~= images(ps, 0, 0, slot_size));
    } else {
        lemma_pushes(bs, ps, slot_size, i - 1);
        assert(ring_frames(bs[(i - 1) + 1]) == ring_frames(bs[i - 1]).push(slot_image(ps[i - 1], slot_size as int)));
        assert(ring_frames(bs[i]) =~= images(ps, 0, i, slot_size));
    }
}

proof fn lemma_pops(bs: Seq<Seq<u8>>, ps: Seq<Seq<u8>>, slot_size: u32, i: int)
    requires
        0 <= i <= ps.len(),
        bs.len() == 2 * ps.len() + 1,
        ring_frames(bs[ps.len() as int]) == images(ps, 0, ps.len() as int, slot_size),
        forall|q: int| ps.len() <= q < 2 * ps.len() ==> ring_frames(#[trigger] bs[q + 1]) == ring_frames(bs[q]).drop_first(),
    ensures
        ring_frames(bs[ps.len() + i]) == images(ps, i, ps.len() as int, slot_size),
    decreases i,
{
    if i > 0 {
        lemma_pops(bs, ps, slot_size, i - 1);
        let q = ps.len() + i - 1;
        assert(ring_frames(bs[q + 1]) == ring_frames(bs[q]).drop_first());
        assert(ring_frames(bs[ps.len() + i]) =~= images(ps, i, ps.len() as int, slot_size));
    }
}

/// FIFO order and capacity over many steps: on a ring that starts empty,
/// pushing payloads `ps` one after another and then popping as many times
/// hands back their slot images in push order and leaves the ring empty.
/// With fewer payloads than slots, every one of these pushes finds room and
/// every pop finds a frame, so each is owed success; and after the pushes the
/// ring is full exactly when it holds one frame fewer than it has slots.
/// The states `bs` are the ring bytes before each step and after the last.
pub proof fn ring_fifo_over_steps(
    bs: Seq<Seq<u8>>,
    ps: Seq<Seq<u8>>,
    name_hash: u64,
    slot_count: u32,
    slot_size: u32,
)
    requires
        bs.len() == 2 * ps.len() + 1,
        ps.len() < slot_count,
        forall|q: int| 0 <= q < bs.len() ==> ring_error(#[trigger] bs[q], name_hash, slot_count, slot_size) is None,
        ring_frames(bs[0]).len() == 0,
        forall|q: int| 0 <= q < ps.len() ==> ring_frames(#[trigger] bs[q + 1]) == ring_frames(bs[q]).push(
            slot_image(ps[q], slot_size as int),
        ),
        forall|q: int| ps.len() <= q < 2 * ps.len() ==> ring_frames(#[trigger] bs[q + 1]) == ring_frames(bs[q]).drop_first(),
    ensures
        forall|q: int| 0 <= q < ps.len() ==> !ring_full(header_of(#[trigger] bs[q])),
        ring_full(header_of(bs[ps.len() as int])) <==> ps.len() + 1 == slot_count,
        forall|q: int|
            0 <= q < ps.len() ==> ring_frames(#[trigger] bs[ps.len() + q]).len() > 0 && ring_frames(
                bs[ps.len() + q],
            )[0] == slot_image(ps[q], slot_size as int),
        ring_frames(bs[2 * ps.len() as int]).len() == 0,
{
    let k = ps.len() as int;
    lemma_pushes(bs, ps, slot_size, k);
    assert forall|q: int| 0 <= q < ps.len() implies !ring_full(header_of(#[trigger] bs[q])) by {
        lemma_pushes(bs, ps, slot_size, q);
        assert(ring_error(bs[q], name_hash, slot_count, slot_size) is None);
        ring_keeps_one_slot_free(bs[q], name_hash, slot_count, slot_size);
    }
    assert(ring_error(bs[k], name_hash, slot_count, slot_size) is None);
    ring_keeps_one_slot_free(bs[k], name_hash, slot_count, slot_size);
    assert forall|q: int|
        0 <= q < ps.len() implies ring_frames(#[trigger] bs[ps.len() + q]).len() > 0 && ring_frames(
            bs[ps.len() + q],
        )[0] == slot_image(ps[q], slot_size as int) by {
        lemma_pops(bs, ps, slot_size, q);
    }
    lemma_pops(bs, ps, slot_size, k);
}

/// FNV-1a folds a name's bytes first to last: the empty name hashes to the
/// 64-bit offset basis 0xcbf29ce484222325, and appending a byte xors it into
/// the hash of the shorter name, then multiplies by the 64-bit FNV prime
/// 0x100000001b3 modulo 2^64.
pub proof fn name_hash_folds_bytes_in_order(s: Seq<u8>, b: u8)
    ensures
        fnv1a(Seq::<u8>::empty()) == 0xcbf29ce484222325u64,
        fnv1a(s.push(b)) as int == ((fnv1a(s) ^ (b as u64)) as int * 0x100000001b3int) % 0x1_0000_0000_0000_0000int,
{
    assert(s.push(b).drop_last() =~= s);
    assert(s.push(b).last() == b);
}

/// A ring accepted as valid carries the ring magic 0x4950_4352_494E_4748,
/// the caller's name hash and slot geometry, and head and tail inside the
/// ring, in a buffer that holds the 40-byte header and every slot.
pub proof fn valid_ring_carries_its_parameters(b: Seq<u8>, name_hash: u64, slot_count: u32, slot_size: u32)
    requires
        ring_error(b, name_hash, slot_count, slot_size) is None,
    ensures
        header_of(b).magic == 0x4950_4352_494E_4748u64,
        header_of(b).name_hash == name_hash,
        header_of(b).slot_count == slot_count,
        header_of(b).slot_size == slot_size,
        header_of(b).head < slot_count && header_of(b).tail < slot_count,
        b.len() >= 40 + slot_count as int * slot_size as int,
{
}

} // verus!
