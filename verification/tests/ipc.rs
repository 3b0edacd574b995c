use core::mem::{align_of, size_of};

use hypster::ipc::{
    compute_shared_bytes, init_ring, ipc_mapping_bytes, ipc_name_hash, peek_front_payload,
    ring_has_pending_frame, try_pop, try_push, validate_ring, IpcError, IpcRingHeader,
    IPC_MAPPING_PAGE_SIZE, IPC_RING_HEADER_BYTES, IPC_RING_MAGIC,
};

fn ring(slot_count: u32, slot_size: u32) -> Vec<u8> {
    vec![0u8; compute_shared_bytes(slot_count, slot_size).expect("bytes") as usize]
}

#[test]
fn ring_header_layout() {
    assert_eq!(size_of::<IpcRingHeader>(), 40);
    assert_eq!(align_of::<IpcRingHeader>(), 8);
}

#[test]
fn shared_bytes_matches_config_intent() {
    let bytes = compute_shared_bytes(256, 2048).expect("shared bytes");
    assert_eq!(bytes, IPC_RING_HEADER_BYTES as u64 + 256 * 2048);
}

#[test]
fn ipc_mapping_bytes_page_aligns_ring_header() {
    let bytes = compute_shared_bytes(256, 2048).expect("shared bytes");
    assert_eq!(bytes % IPC_MAPPING_PAGE_SIZE, 40);
    let mapped = ipc_mapping_bytes(bytes).expect("mapping bytes");
    assert_eq!(mapped % IPC_MAPPING_PAGE_SIZE, 0);
    assert!(mapped >= bytes);
}

#[test]
fn mapping_bytes_overflow_is_reported() {
    assert_eq!(ipc_mapping_bytes(u64::MAX), Err(IpcError::Overflow));
    assert_eq!(ipc_mapping_bytes(4096), Ok(4096));
    assert_eq!(ipc_mapping_bytes(4097), Ok(8192));
}

#[test]
fn peek_front_payload_does_not_advance_tail() {
    let mut backing = ring(4, 16);
    init_ring(&mut backing, "mid_to_out", 4, 16).expect("init");
    try_push(&mut backing, "mid_to_out", 4, 16, b"peek-me").expect("push");
    let mut out = [0u8; 16];
    let len = peek_front_payload(&backing, "mid_to_out", 4, 16, &mut out).expect("peek");
    assert_eq!(len, 16);
    assert_eq!(&out[..7], b"peek-me");
    let popped = try_pop(&mut backing, "mid_to_out", 4, 16, &mut out).expect("pop");
    assert_eq!(popped, 16);
    assert_eq!(&out[..7], b"peek-me");
}

#[test]
fn push_pop_round_trip() {
    let mut backing = ring(4, 16);
    init_ring(&mut backing, "in_to_mid", 4, 16).expect("init");
    try_push(&mut backing, "in_to_mid", 4, 16, b"hello").expect("push");
    let mut out = [0u8; 16];
    let len = try_pop(&mut backing, "in_to_mid", 4, 16, &mut out).expect("pop");
    assert_eq!(len, 16);
    assert_eq!(&out[..5], b"hello");
}

#[test]
fn corruption_detected_on_bad_head() {
    let mut backing = ring(4, 16);
    init_ring(&mut backing, "in_to_mid", 4, 16).expect("init");
    backing[24..28].copy_from_slice(&99u32.to_le_bytes());
    assert!(matches!(
        validate_ring(&backing, "in_to_mid", 4, 16),
        Err(IpcError::CorruptionDetected)
    ));
}

#[test]
fn corruption_detected_on_magic_mismatch() {
    let mut backing = ring(4, 16);
    init_ring(&mut backing, "in_to_mid", 4, 16).expect("init");
    backing[0] = 0;
    assert!(matches!(
        validate_ring(&backing, "in_to_mid", 4, 16),
        Err(IpcError::InvalidHeader)
    ));
}

#[test]
fn queue_full_when_one_slot_free_reserved() {
    let mut backing = ring(2, 8);
    init_ring(&mut backing, "mid_to_out", 2, 8).expect("init");
    try_push(&mut backing, "mid_to_out", 2, 8, b"a").expect("push1");
    assert!(matches!(
        try_push(&mut backing, "mid_to_out", 2, 8, b"b"),
        Err(IpcError::QueueFull)
    ));
}

#[test]
fn frames_come_out_in_push_order() {
    let mut backing = ring(4, 8);
    init_ring(&mut backing, "chain", 4, 8).expect("init");
    for payload in [&b"one"[..], b"two", b"three"] {
        try_push(&mut backing, "chain", 4, 8, payload).expect("push");
    }
    assert_eq!(try_push(&mut backing, "chain", 4, 8, b"four"), Err(IpcError::QueueFull));
    let mut out = [0u8; 8];
    for expected in [&b"one"[..], b"two", b"three"] {
        assert_eq!(try_pop(&mut backing, "chain", 4, 8, &mut out), Ok(8));
        assert_eq!(&out[..expected.len()], expected);
        assert!(out[expected.len()..].iter().all(|b| *b == 0));
    }
    assert_eq!(try_pop(&mut backing, "chain", 4, 8, &mut out), Err(IpcError::QueueEmpty));
}

#[test]
fn pop_on_fresh_ring_is_empty() {
    let mut backing = ring(4, 16);
    init_ring(&mut backing, "in_to_mid", 4, 16).expect("init");
    let mut out = [0u8; 16];
    assert_eq!(try_pop(&mut backing, "in_to_mid", 4, 16, &mut out), Err(IpcError::QueueEmpty));
    assert_eq!(ring_has_pending_frame(&backing, "in_to_mid", 4, 16), Ok(false));
}

#[test]
fn pending_frame_is_reported() {
    let mut backing = ring(4, 16);
    init_ring(&mut backing, "in_to_mid", 4, 16).expect("init");
    try_push(&mut backing, "in_to_mid", 4, 16, b"x").expect("push");
    assert_eq!(ring_has_pending_frame(&backing, "in_to_mid", 4, 16), Ok(true));
}

#[test]
fn oversized_payload_is_rejected() {
    let mut backing = ring(4, 4);
    init_ring(&mut backing, "in_to_mid", 4, 4).expect("init");
    assert_eq!(
        try_push(&mut backing, "in_to_mid", 4, 4, b"toolong"),
        Err(IpcError::SlotTooSmall)
    );
}

#[test]
fn short_output_buffer_takes_slot_prefix() {
    let mut backing = ring(4, 16);
    init_ring(&mut backing, "in_to_mid", 4, 16).expect("init");
    try_push(&mut backing, "in_to_mid", 4, 16, b"0123456789").expect("push");
    let mut out = [0u8; 4];
    assert_eq!(try_pop(&mut backing, "in_to_mid", 4, 16, &mut out), Ok(4));
    assert_eq!(&out, b"0123");
    assert_eq!(ring_has_pending_frame(&backing, "in_to_mid", 4, 16), Ok(false));
}

#[test]
fn init_rejects_small_backing() {
    let mut backing = vec![0u8; 40];
    assert_eq!(init_ring(&mut backing, "in_to_mid", 4, 16).err(), Some(IpcError::BufferTooSmall));
}

#[test]
fn init_writes_header_and_bumps_generation() {
    let mut backing = ring(4, 16);
    let first = init_ring(&mut backing, "in_to_mid", 4, 16).expect("init");
    assert_eq!(first.magic, IPC_RING_MAGIC);
    assert_eq!(first.name_hash, ipc_name_hash("in_to_mid"));
    assert_eq!((first.head, first.tail, first.generation), (0, 0, 1));
    let second = init_ring(&mut backing, "in_to_mid", 4, 16).expect("init");
    assert_eq!(second.generation, 2);
    assert_eq!(validate_ring(&backing, "in_to_mid", 4, 16), Ok(second));
}

#[test]
fn validate_rejects_other_channel_name() {
    let mut backing = ring(4, 16);
    init_ring(&mut backing, "in_to_mid", 4, 16).expect("init");
    assert_eq!(
        validate_ring(&backing, "mid_to_out", 4, 16),
        Err(IpcError::ParameterMismatch)
    );
}

#[test]
fn name_hash_is_fnv1a() {
    assert_eq!(ipc_name_hash(""), 0xcbf29ce484222325);
    assert_eq!(ipc_name_hash("a"), 0xaf63dc4c8601ec8c);
}
