//! Intel e1000 NIC MMIO device model: deterministic register decode for guest
//! BAR accesses, plus host-side frame queues for datapath injection and
//! extraction.

use vstd::prelude::*;

verus! {

/// Mapped MMIO BAR size.
pub const E1000_MMIO_SIZE: u32 = 128 * 1024;

/// Device control register.
pub const REG_CTRL: u32 = 0x0000;

/// Device status register.
pub const REG_STATUS: u32 = 0x0008;

/// Transmit descriptor head.
pub const REG_TDH: u32 = 0x0380;

/// Transmit descriptor tail.
pub const REG_TDT: u32 = 0x0388;

/// Maximum stored frame size.
pub const MAX_FRAME_BYTES: usize = 2048;

/// Maximum number of queued frames; the oldest is dropped beyond it.
pub const MAX_QUEUED_FRAMES: usize = 64;

/// Errors decoding e1000 MMIO accesses.
#[derive(Clone, Copy, Debug, PartialEq, Eq)]
pub enum E1000Error {
    /// Offset is not within the mapped BAR size.
    OffsetOutOfRange,
    /// Write to a read-only register.
    ReadOnlyRegister,
}

impl E1000Error {
    /// Returns a static diagnostic label.
    pub fn as_str(self) -> (r: &'static str)
        ensures
            self == E1000Error::OffsetOutOfRange ==> r == "e1000 mmio offset out of range",
            self == E1000Error::ReadOnlyRegister ==> r == "e1000 read-only register write",
    {
        match self {
            E1000Error::OffsetOutOfRange => "e1000 mmio offset out of range",
            E1000Error::ReadOnlyRegister => "e1000 read-only register write",
        }
    }
}

/// Bounded FIFO of Ethernet frames; frames longer than [`MAX_FRAME_BYTES`]
/// are truncated and the oldest frame is dropped when the queue is full.
#[derive(Clone, Debug, PartialEq, Eq)]
pub struct PacketQueue {
    frames: Vec<Vec<u8>>,
}

/// The bytes a queue stores for a pushed frame.
pub open spec fn stored_frame(frame: Seq<u8>) -> Seq<u8> {
    if frame.len() <= MAX_FRAME_BYTES {
        frame
    } else {
        frame.subrange(0, MAX_FRAME_BYTES as int)
    }
}

impl View for PacketQueue {
    type V = Seq<Seq<u8>>;

    closed spec fn view(&self) -> Seq<Seq<u8>> {
        Seq::new(self.frames@.len(), |i: int| self.frames@[i]@)
    }
}

impl PacketQueue {
    /// Creates an empty queue.
    pub fn new() -> (r: Self)
        ensures
            r@ == Seq::<Seq<u8>>::empty(),
    {
        let q = PacketQueue { frames: Vec::new() };
        assert(q@ =~= Seq::<Seq<u8>>::empty());
        q
    }

    /// Enqueues one frame (truncated to [`MAX_FRAME_BYTES`]), dropping the
    /// oldest frame when the queue already holds [`MAX_QUEUED_FRAMES`].
    pub fn push(&mut self, frame: &[u8])
        ensures
            final(self)@ == (if old(self)@.len() >= MAX_QUEUED_FRAMES {
                old(self)@.drop_first()
            } else {
                old(self)@
            }).push(stored_frame(frame@)),
    {
        let len = if frame.len() < MAX_FRAME_BYTES { frame.len() } else { MAX_FRAME_BYTES };
        let mut slot: Vec<u8> = Vec::new();
        let mut i: usize = 0;
        while i < len
            invariant
                len <= frame@.len(),
                i <= len,
                slot@ == frame@.subrange(0, i as int),
            decreases len - i,
        {
            slot.push(frame[i]);
            i = i + 1;
            proof {
                assert(slot@ =~= frame@.subrange(0, i as int));
            }
        }
        assert(slot@ =~= stored_frame(frame@));
        let ghost old_view = self@;
        let mut frames: Vec<Vec<u8>> = Vec::new();
        core::mem::swap(&mut frames, &mut self.frames);
        if frames.len() >= MAX_QUEUED_FRAMES {
            frames.remove(0);
        }
        frames.push(slot);
        self.frames = frames;
        proof {
            let expected = (if old_view.len() >= MAX_QUEUED_FRAMES {
                old_view.drop_first()
            } else {
                old_view
            }).push(stored_frame(frame@));
            assert(self@ =~= expected);
        }
    }

    /// Dequeues the oldest frame into `out`, returning the number of bytes
    /// copied (the smaller of the frame length and `out.len()`), or `None`
    /// when the queue is empty.
    pub fn pop(&mut self, out: &mut [u8]) -> (r: Option<usize>)
        ensures
            old(self)@.len() == 0 ==> r is None && final(self)@ == old(self)@ && final(out)@ == old(out)@,
            old(self)@.len() > 0 ==> {
                let f = old(self)@[0];
                let n = if f.len() < old(out)@.len() { f.len() } else { old(out)@.len() };
                &&& r == Some(n as usize)
                &&& final(self)@ == old(self)@.drop_first()
                &&& final(out)@.len() == old(out)@.len()
                &&& final(out)@.subrange(0, n as int) == f.subrange(0, n as int)
                &&& final(out)@.subrange(n as int, final(out)@.len() as int) == old(out)@.subrange(
                    n as int,
                    old(out)@.len() as int,
                )
            },
    {
        if self.frames.len() == 0 {
            return None;
        }
        let ghost old_view = self@;
        let ghost old_out = out@;
        let n = if self.frames[0].len() < out.len() { self.frames[0].len() } else { out.len() };
        let mut i: usize = 0;
        while i < n
            invariant
                self.frames@.len() > 0,
                old_view == self@,
                n <= self.frames@[0]@.len(),
                n <= old_out.len(),
                out@.len() == old_out.len(),
                i <= n,
                forall|p: int| 0 <= p < i ==> #[trigger] out@[p] == old_view[0][p],
                forall|p: int| i <= p < old_out.len() ==> #[trigger] out@[p] == old_out[p],
            decreases n - i,
        {
            out[i] = self.frames[0][i];
            i = i + 1;
        }
        let mut frames: Vec<Vec<u8>> = Vec::new();
        core::mem::swap(&mut frames, &mut self.frames);
        frames.remove(0);
        self.frames = frames;
        proof {
            assert(self@ =~= old_view.drop_first());
            assert(out@.subrange(0, n as int) =~= old_view[0].subrange(0, n as int));
            assert(out@.subrange(n as int, out@.len() as int) =~= old_out.subrange(
                n as int,
                old_out.len() as int,
            ));
        }
        Some(n)
    }

    /// Returns the number of queued frames.
    pub fn len(&self) -> (r: usize)
        ensures
            r == self@.len(),
    {
        self.frames.len()
    }

    /// Returns true when the queue is empty.
    pub fn is_empty(&self) -> (r: bool)
        ensures
            r == (self@.len() == 0),
    {
        self.frames.len() == 0
    }
}

impl Default for PacketQueue {
    fn default() -> (r: Self)
        ensures
            r@ == Seq::<Seq<u8>>::empty(),
    {
        PacketQueue::new()
    }
}

/// Runtime state for one emulated e1000 instance.
#[derive(Clone, Debug, PartialEq, Eq)]
pub struct E1000DeviceState {
    /// `REG_CTRL` value.
    pub ctrl: u32,
    /// `REG_STATUS` value.
    pub status: u32,
    /// `REG_TDH` value.
    pub tdh: u32,
    /// `REG_TDT` value.
    pub tdt: u32,
    /// Host-side RX queue for injected frames.
    pub rx_queue: PacketQueue,
    /// Host-side TX queue for extracted frames.
    pub tx_queue: PacketQueue,
}

/// Link-up bit of the status register.
pub const STATUS_LINK_UP: u32 = 0x0000_0080;

impl E1000DeviceState {
    /// Returns powered-link-up status suitable for guest driver probe.
    pub fn new_link_up() -> (r: Self)
        ensures
            r.ctrl == 0 && r.status == STATUS_LINK_UP && r.tdh == 0 && r.tdt == 0,
            r.rx_queue@.len() == 0 && r.tx_queue@.len() == 0,
    {
        E1000DeviceState {
            ctrl: 0,
            status: STATUS_LINK_UP,
            tdh: 0,
            tdt: 0,
            rx_queue: PacketQueue::new(),
            tx_queue: PacketQueue::new(),
        }
    }

    /// Injects one frame into the device RX queue.
    pub fn inject_rx_frame(&mut self, frame: &[u8])
        ensures
            final(self).rx_queue@ == (if old(self).rx_queue@.len() >= MAX_QUEUED_FRAMES {
                old(self).rx_queue@.drop_first()
            } else {
                old(self).rx_queue@
            }).push(stored_frame(frame@)),
            final(self).tx_queue == old(self).tx_queue,
            final(self).ctrl == old(self).ctrl && final(self).status == old(self).status,
            final(self).tdh == old(self).tdh && final(self).tdt == old(self).tdt,
    {
        self.rx_queue.push(frame);
    }

    /// Takes one received frame from the device RX queue.
    pub fn take_rx_frame(&mut self, out: &mut [u8]) -> (r: Option<usize>)
        ensures
            old(self).rx_queue@.len() == 0 ==> r is None && final(out)@ == old(out)@,
            old(self).rx_queue@.len() > 0 ==> {
                let f = old(self).rx_queue@[0];
                let n = if f.len() < old(out)@.len() { f.len() } else { old(out)@.len() };
                &&& r == Some(n as usize)
                &&& final(out)@.subrange(0, n as int) == f.subrange(0, n as int)
                &&& final(self).rx_queue@ == old(self).rx_queue@.drop_first()
            },
            final(self).tx_queue == old(self).tx_queue,
    {
        self.rx_queue.pop(out)
    }

    /// Enqueues one frame on the device TX queue.
    pub fn enqueue_tx_frame(&mut self, frame: &[u8])
        ensures
            final(self).tx_queue@ == (if old(self).tx_queue@.len() >= MAX_QUEUED_FRAMES {
                old(self).tx_queue@.drop_first()
            } else {
                old(self).tx_queue@
            }).push(stored_frame(frame@)),
            final(self).rx_queue == old(self).rx_queue,
    {
        self.tx_queue.push(frame);
    }

    /// Takes one transmitted frame from the device TX queue.
    pub fn take_tx_frame(&mut self, out: &mut [u8]) -> (r: Option<usize>)
        ensures
            old(self).tx_queue@.len() == 0 ==> r is None && final(out)@ == old(out)@,
            old(self).tx_queue@.len() > 0 ==> {
                let f = old(self).tx_queue@[0];
                let n = if f.len() < old(out)@.len() { f.len() } else { old(out)@.len() };
                &&& r == Some(n as usize)
                &&& final(out)@.subrange(0, n as int) == f.subrange(0, n as int)
                &&& final(self).tx_queue@ == old(self).tx_queue@.drop_first()
            },
            final(self).rx_queue == old(self).rx_queue,
    {
        self.tx_queue.pop(out)
    }
}

/// Value a register read returns.
pub open spec fn register_value(state: E1000DeviceState, offset: u32) -> u32 {
    if offset == REG_CTRL {
        state.ctrl
    } else if offset == REG_STATUS {
        state.status
    } else if offset == REG_TDH {
        state.tdh
    } else if offset == REG_TDT {
        state.tdt
    } else {
        0
    }
}

/// Reads a 32-bit MMIO register; unmodelled offsets inside the BAR read as zero.
pub fn mmio_read(state: &E1000DeviceState, offset: u32) -> (r: Result<u32, E1000Error>)
    ensures
        offset >= E1000_MMIO_SIZE ==> r == Err::<u32, E1000Error>(E1000Error::OffsetOutOfRange),
        offset < E1000_MMIO_SIZE ==> r == Ok::<u32, E1000Error>(register_value(*state, offset)),
{
    if offset >= E1000_MMIO_SIZE {
        return Err(E1000Error::OffsetOutOfRange);
    }
    let value = if offset == REG_CTRL {
        state.ctrl
    } else if offset == REG_STATUS {
        state.status
    } else if offset == REG_TDH {
        state.tdh
    } else if offset == REG_TDT {
        state.tdt
    } else {
        0
    };
    Ok(value)
}

/// Writes a 32-bit MMIO register; the status register is read-only and
/// writes to unmodelled offsets inside the BAR are ignored.
pub fn mmio_write(state: &mut E1000DeviceState, offset: u32, value: u32) -> (r: Result<
    (),
    E1000Error,
>)
    ensures
        offset >= E1000_MMIO_SIZE ==> r == Err::<(), E1000Error>(E1000Error::OffsetOutOfRange),
        offset < E1000_MMIO_SIZE && offset == REG_STATUS ==> r == Err::<(), E1000Error>(
            E1000Error::ReadOnlyRegister,
        ),
        offset < E1000_MMIO_SIZE && offset != REG_STATUS ==> r is Ok,
        r is Err ==> *final(state) == *old(state),
        r is Ok ==> offset < E1000_MMIO_SIZE && offset != REG_STATUS && *final(state) == (
        E1000DeviceState {
            ctrl: if offset == REG_CTRL { value } else { old(state).ctrl },
            tdh: if offset == REG_TDH { value } else { old(state).tdh },
            tdt: if offset == REG_TDT { value } else { old(state).tdt },
            ..*old(state)
        }),
{
    if offset >= E1000_MMIO_SIZE {
        return Err(E1000Error::OffsetOutOfRange);
    }
    if offset == REG_CTRL {
        state.ctrl = value;
    } else if offset == REG_STATUS {
        return Err(E1000Error::ReadOnlyRegister);
    } else if offset == REG_TDH {
        state.tdh = value;
    } else if offset == REG_TDT {
        state.tdt = value;
    }
    Ok(())
}

/// Law: a register write followed by a read of the same register returns
/// the written value for every writable register.
pub proof fn mmio_write_then_read(before: E1000DeviceState, after: E1000DeviceState, offset: u32, value: u32)
    requires
        offset == REG_CTRL || offset == REG_TDH || offset == REG_TDT,
        after == (E1000DeviceState {
            ctrl: if offset == REG_CTRL { value } else { before.ctrl },
            tdh: if offset == REG_TDH { value } else { before.tdh },
            tdt: if offset == REG_TDT { value } else { before.tdt },
            ..before
        }),
    ensures
        register_value(after, offset) == value,
        register_value(after, REG_STATUS) == before.status,
{
}

/// FIFO order of a packet queue below capacity: a pushed frame is stored at
/// the back, so the next pop still returns the oldest frame, or the pushed
/// frame (truncated to `MAX_FRAME_BYTES`) on an empty queue.
pub proof fn packet_queue_fifo(before: Seq<Seq<u8>>, pushed: Seq<Seq<u8>>, frame: Seq<u8>)
    requires
        before.len() < MAX_QUEUED_FRAMES,
        pushed == (if before.len() >= MAX_QUEUED_FRAMES {
            before.drop_first()
        } else {
            before
        }).push(stored_frame(frame)),
    ensures
        pushed.len() == before.len() + 1,
        before.len() == 0 ==> pushed[0] == stored_frame(frame),
        before.len() > 0 ==> pushed[0] == before[0] && pushed.drop_first() == before.drop_first().push(
            stored_frame(frame),
        ),
        frame.len() <= MAX_FRAME_BYTES ==> pushed.last() == frame,
{
    if before.len() > 0 {
        assert(pushed.drop_first() =~= before.drop_first().push(stored_frame(frame)));
    }
}

/// A full queue drops its oldest frame to make room.
pub proof fn packet_queue_drops_oldest_when_full(before: Seq<Seq<u8>>, pushed: Seq<Seq<u8>>, frame: Seq<u8>)
    requires
        before.len() >= MAX_QUEUED_FRAMES,
        pushed == (if before.len() >= MAX_QUEUED_FRAMES {
            before.drop_first()
        } else {
            before
        }).push(stored_frame(frame)),
    ensures
        pushed.len() == before.len(),
        pushed == before.drop_first().push(stored_frame(frame)),
{
}

} // verus!
