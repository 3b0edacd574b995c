use hypster::e1000::{
    mmio_read, mmio_write, E1000DeviceState, E1000Error, PacketQueue, E1000_MMIO_SIZE,
    MAX_FRAME_BYTES, MAX_QUEUED_FRAMES, REG_CTRL, REG_STATUS, REG_TDH, REG_TDT,
};

#[test]
fn status_is_readable_and_link_up_by_default() {
    let state = E1000DeviceState::new_link_up();
    let status = mmio_read(&state, REG_STATUS).expect("status");
    assert_eq!(status & 0x80, 0x80);
}

#[test]
fn status_write_is_rejected() {
    let mut state = E1000DeviceState::new_link_up();
    assert!(matches!(mmio_write(&mut state, REG_STATUS, 0), Err(E1000Error::ReadOnlyRegister)));
}

#[test]
fn out_of_range_access_is_rejected() {
    let state = E1000DeviceState::new_link_up();
    assert!(matches!(mmio_read(&state, E1000_MMIO_SIZE), Err(E1000Error::OffsetOutOfRange)));
}

#[test]
fn out_of_range_write_is_rejected_and_changes_nothing() {
    let mut state = E1000DeviceState::new_link_up();
    let before = state.clone();
    assert_eq!(mmio_write(&mut state, E1000_MMIO_SIZE, 7), Err(E1000Error::OffsetOutOfRange));
    assert_eq!(state, before);
}

#[test]
fn written_registers_read_back() {
    let mut state = E1000DeviceState::new_link_up();
    for (reg, value) in [(REG_CTRL, 0x1234u32), (REG_TDH, 5), (REG_TDT, 9)] {
        assert_eq!(mmio_write(&mut state, reg, value), Ok(()));
        assert_eq!(mmio_read(&state, reg), Ok(value));
    }
    assert_eq!(mmio_read(&state, REG_STATUS), Ok(0x80));
}

#[test]
fn unmodelled_offsets_read_zero_and_ignore_writes() {
    let mut state = E1000DeviceState::new_link_up();
    assert_eq!(mmio_write(&mut state, 0x100, 42), Ok(()));
    assert_eq!(mmio_read(&state, 0x100), Ok(0));
}

#[test]
fn queue_round_trip_preserves_payload() {
    let mut queue = PacketQueue::new();
    queue.push(b"frame-a");
    let mut out = [0u8; MAX_FRAME_BYTES];
    let len = queue.pop(&mut out).expect("pop");
    assert_eq!(&out[..len], b"frame-a");
}

#[test]
fn queue_is_fifo() {
    let mut queue = PacketQueue::new();
    queue.push(b"first");
    queue.push(b"second");
    assert_eq!(queue.len(), 2);
    let mut out = [0u8; 16];
    let n = queue.pop(&mut out).expect("first");
    assert_eq!(&out[..n], b"first");
    let n = queue.pop(&mut out).expect("second");
    assert_eq!(&out[..n], b"second");
    assert!(queue.is_empty());
    assert_eq!(queue.pop(&mut out), None);
}

#[test]
fn queue_drops_oldest_when_full() {
    let mut queue = PacketQueue::new();
    for i in 0..(MAX_QUEUED_FRAMES + 1) {
        queue.push(&[i as u8]);
    }
    assert_eq!(queue.len(), MAX_QUEUED_FRAMES);
    let mut out = [0u8; 4];
    let n = queue.pop(&mut out).expect("oldest kept");
    assert_eq!(&out[..n], &[1u8]);
}

#[test]
fn long_frames_are_truncated() {
    let mut queue = PacketQueue::new();
    let frame = vec![0xabu8; MAX_FRAME_BYTES + 10];
    queue.push(&frame);
    let mut out = vec![0u8; MAX_FRAME_BYTES + 10];
    assert_eq!(queue.pop(&mut out), Some(MAX_FRAME_BYTES));
}

#[test]
fn short_output_buffer_takes_prefix() {
    let mut queue = PacketQueue::new();
    queue.push(b"abcdef");
    let mut out = [0u8; 3];
    assert_eq!(queue.pop(&mut out), Some(3));
    assert_eq!(&out, b"abc");
    assert!(queue.is_empty());
}

#[test]
fn device_queues_are_independent() {
    let mut state = E1000DeviceState::new_link_up();
    state.inject_rx_frame(b"rx");
    state.enqueue_tx_frame(b"tx");
    let mut out = [0u8; 8];
    let n = state.take_tx_frame(&mut out).expect("tx");
    assert_eq!(&out[..n], b"tx");
    let n = state.take_rx_frame(&mut out).expect("rx");
    assert_eq!(&out[..n], b"rx");
    assert_eq!(state.take_rx_frame(&mut out), None);
}

#[test]
fn e1000_error_labels() {
    assert_eq!(E1000Error::OffsetOutOfRange.as_str(), "e1000 mmio offset out of range");
    assert_eq!(E1000Error::ReadOnlyRegister.as_str(), "e1000 read-only register write");
}
