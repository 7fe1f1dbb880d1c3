use scopehal_fx_bridge::fx3lafw::{
    producer_step, AcquisitionHandle, ProducerAction, TRANSFER_COUNT, TRANSFER_SIZE,
};
use scopehal_fx_bridge::words::{decode_buffer, decode_word, encode_word};
use std::sync::atomic::{AtomicBool, AtomicU64, Ordering};
use std::sync::{mpsc, Arc};

fn handle_with_buffers(buffers: Vec<Vec<u8>>, sample_bytes: usize) -> AcquisitionHandle {
    let (tx, rx) = mpsc::channel();
    for b in buffers {
        tx.send(b).unwrap();
    }
    drop(tx);
    AcquisitionHandle::new(
        rx,
        Arc::new(AtomicBool::new(false)),
        Arc::new(AtomicU64::new(0)),
        sample_bytes,
    )
}

#[test]
fn decode_word_little_endian() {
    assert_eq!(decode_word(&[0x01], 0, 1), 0x01);
    assert_eq!(decode_word(&[0x01, 0x02], 0, 2), 0x0201);
    assert_eq!(decode_word(&[0x01, 0x02, 0x03], 0, 3), 0x030201);
    assert_eq!(decode_word(&[0x01, 0x02, 0x03, 0x04], 0, 4), 0x04030201);
    assert_eq!(decode_word(&[0xff, 0x01, 0x02, 0x03, 0x04], 1, 4), 0x04030201);
}

#[test]
fn encode_word_inverts_decode() {
    // Re-encoding every decoded word reproduces the buffer exactly.
    let buf = vec![0x10, 0x32, 0x54, 0x76, 0x98, 0xba, 0xdc, 0xfe];
    for &width in &[1usize, 2, 4] {
        let words = decode_buffer(&buf, width);
        assert_eq!(words.len(), buf.len() / width);
        let mut rebuilt = Vec::new();
        for &w in &words {
            rebuilt.extend_from_slice(&encode_word(w, width));
        }
        assert_eq!(rebuilt, buf);
    }
}

#[test]
fn decode_buffer_counts_words() {
    let buf = vec![1, 2, 3, 4, 5, 6];
    assert_eq!(decode_buffer(&buf, 1), vec![1, 2, 3, 4, 5, 6]);
    assert_eq!(decode_buffer(&buf, 2), vec![0x0201, 0x0403, 0x0605]);
    assert_eq!(decode_buffer(&buf, 3), vec![0x030201, 0x060504]);
    // A trailing run shorter than one word is discarded.
    assert_eq!(decode_buffer(&buf, 4), vec![0x04030201]);
}

#[test]
fn buffers_consumed_in_order() {
    // Buffers sent as B1, B2, B3 come out of the decode sequence in that
    // same order.
    let mut h = handle_with_buffers(
        vec![vec![1, 0, 2, 0], vec![3, 0], vec![4, 0, 5, 0]],
        2,
    );
    assert_eq!(h.next(), Some(1));
    assert_eq!(h.next(), Some(2));
    assert_eq!(h.next(), Some(3));
    assert_eq!(h.next(), Some(4));
    assert_eq!(h.next(), Some(5));
    assert_eq!(h.next(), None);
}

#[test]
fn sequence_ends_when_channel_closed() {
    let mut h = handle_with_buffers(vec![], 2);
    assert_eq!(h.next(), None);
    // The sequence is terminal: it stays ended.
    assert_eq!(h.next(), None);
}

#[test]
fn trailing_partial_word_discarded() {
    let mut h = handle_with_buffers(vec![vec![1, 0, 2], vec![3, 0]], 2);
    assert_eq!(h.next(), Some(1));
    // The odd trailing byte of the first buffer is dropped.
    assert_eq!(h.next(), Some(3));
    assert_eq!(h.next(), None);
}

#[test]
fn words_from_consecutive_buffers() {
    let mut h = handle_with_buffers(
        vec![vec![0x78, 0x56, 0x34, 0x12], vec![0x01, 0x00, 0x00, 0x80]],
        4,
    );
    assert_eq!(h.next(), Some(0x12345678));
    assert_eq!(h.next(), Some(0x80000001));
    assert_eq!(h.next(), None);
}

#[test]
fn producer_delivers_and_counts() {
    assert_eq!(
        producer_step(false, true, TRANSFER_SIZE, 2),
        ProducerAction::Deliver { samples: (TRANSFER_SIZE / 2) as u64 }
    );
    assert_eq!(
        producer_step(false, true, 1024, 4),
        ProducerAction::Deliver { samples: 256 }
    );
}

#[test]
fn producer_stops_on_flag() {
    // Once the stop flag is observed, no further transfer is submitted.
    assert_eq!(producer_step(true, true, TRANSFER_SIZE, 2), ProducerAction::Exit);
    assert_eq!(producer_step(true, false, TRANSFER_SIZE, 2), ProducerAction::Exit);
}

#[test]
fn producer_stops_on_completion_error() {
    assert_eq!(producer_step(false, false, TRANSFER_SIZE, 2), ProducerAction::Exit);
}

#[test]
fn stop_request_sets_shared_flag() {
    let h = handle_with_buffers(vec![], 1);
    assert!(!h.stop.load(Ordering::Relaxed));
    h.request_stop();
    assert!(h.stop.load(Ordering::Relaxed));
}

#[test]
fn recorded_counter_is_shared() {
    let h = handle_with_buffers(vec![], 1);
    assert_eq!(h.recorded_samples(), 0);
    h.recorded.fetch_add(42, Ordering::Relaxed);
    assert_eq!(h.recorded_samples(), 42);
}

#[test]
fn queue_depth_constants() {
    assert_eq!(TRANSFER_COUNT, 16);
    assert_eq!(TRANSFER_SIZE, 1024 * 1024);
}
