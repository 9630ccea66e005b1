//! Tests of the send and receive engines: window filling, acknowledgement,
//! retransmission, duplicate handling and whole-transfer round trips.

use tftpserver::consts::{RECV_ACK_TIMEOUT_MS, RESEND_TIMEOUT_MS};
use tftpserver::loopback::{loopback_transfer, upload_then_download};
use tftpserver::recv::RecvStateMachine;
use tftpserver::send::{SendAction, SendStateMachine, WindowBuffer};
use tftpserver::session::build_ack_packet;
use tftpserver::timer::{OneshotTimer, Timeout};

fn data_frame(blk: u16, payload: &[u8]) -> Vec<u8> {
    let mut f = vec![0, 3, (blk >> 8) as u8, (blk & 0xFF) as u8];
    f.extend_from_slice(payload);
    f
}

#[test]
fn sender_builds_contiguous_window() {
    // Window block numbers are a contiguous run starting at acked + 1.
    let mut s = SendStateMachine::new(4, 3);
    assert!(s.needs_block());
    s.feed_block(vec![1, 2, 3, 4]);
    s.feed_block(vec![5, 6, 7, 8]);
    s.feed_block(vec![9]);
    assert!(!s.needs_block());
    let frames = s.send_data();
    assert_eq!(frames.len(), 3);
    assert_eq!(frames[0], data_frame(1, &[1, 2, 3, 4]));
    assert_eq!(frames[1], data_frame(2, &[5, 6, 7, 8]));
    assert_eq!(frames[2], data_frame(3, &[9]));
    assert_eq!(s.read_len(), 9);
    assert_eq!(s.fill_level(), 3);
}

#[test]
fn sender_ack_advances_and_ignores_spurious() {
    let mut s = SendStateMachine::new(4, 3);
    s.feed_block(vec![1, 2, 3, 4]);
    s.feed_block(vec![5, 6, 7, 8]);
    s.feed_block(vec![9, 10, 11, 12]);

    // A block far outside the window is ignored.
    s.ack(100);
    assert_eq!(s.fill_level(), 3);

    // ACK(2) retires the first two frames.
    s.ack(2);
    assert_eq!(s.fill_level(), 1);
    assert_eq!(s.send_data()[0], data_frame(3, &[9, 10, 11, 12]));

    // A duplicate of the same ACK changes nothing.
    s.ack(2);
    assert_eq!(s.fill_level(), 1);
}

#[test]
fn sender_ack_packet_requires_exact_ack() {
    let mut s = SendStateMachine::new(4, 2);
    s.feed_block(vec![1, 2, 3, 4]);
    s.feed_block(vec![5, 6, 7, 8]);

    // Wrong length, wrong opcode: ignored.
    s.ack_packet(&[0, 4, 0, 1, 0]);
    assert_eq!(s.fill_level(), 2);
    s.ack_packet(&[0, 3, 0, 1]);
    assert_eq!(s.fill_level(), 2);

    s.ack_packet(&build_ack_packet(1));
    assert_eq!(s.fill_level(), 1);
}

#[test]
fn sender_retransmits_then_times_out() {
    let mut s = SendStateMachine::new(4, 1);
    s.feed_block(vec![1, 2, 3, 4]);

    // The fresh window is emitted once.
    assert_eq!(s.next(0), SendAction::SendBuffer);
    // No progress: the first idle step arms the resend timer.
    assert_eq!(s.next(1), SendAction::NoOp);
    assert_eq!(s.next(RESEND_TIMEOUT_MS), SendAction::NoOp);
    // Past the resend timeout: one retransmit per elapsed interval.
    assert_eq!(s.next(RESEND_TIMEOUT_MS + 2), SendAction::SendBuffer);
    assert_eq!(s.next(2 * RESEND_TIMEOUT_MS + 3), SendAction::SendBuffer);
    assert_eq!(s.next(3 * RESEND_TIMEOUT_MS + 4), SendAction::SendBuffer);
    // The retry budget (3) is exhausted.
    assert_eq!(s.next(4 * RESEND_TIMEOUT_MS + 5), SendAction::Timeout);
}

#[test]
fn sender_completes_after_final_ack() {
    // A 0-byte upload: one empty DATA frame, acknowledged once.
    let mut s = SendStateMachine::new(512, 1);
    s.feed_block(vec![]);
    assert!(!s.needs_block());
    assert_eq!(s.next(0), SendAction::SendBuffer);
    assert_eq!(s.send_data()[0], data_frame(1, &[]));
    s.ack(1);
    assert_eq!(s.next(1), SendAction::End);
}

#[test]
fn receiver_single_window_delivers_and_acks() {
    let mut r = RecvStateMachine::new(4, 1);
    r.insert_frame(&data_frame(1, &[1, 2, 3, 4]), 0);
    assert_eq!(r.sync(0), Some(1));
    assert!(!r.is_end());
    r.insert_frame(&data_frame(2, &[5]), 0);
    assert_eq!(r.sync(0), Some(2));
    assert!(r.is_end());
    assert!(!r.is_timeout());
    assert_eq!(r.take_sink(), vec![1, 2, 3, 4, 5]);
}

#[test]
fn receiver_discards_duplicate_data() {
    // A duplicate DATA with the same block number is discarded, not
    // rewritten.
    let mut r = RecvStateMachine::new(4, 2);
    r.insert_frame(&data_frame(1, &[1, 1, 1, 1]), 0);
    r.insert_frame(&data_frame(1, &[9, 9, 9, 9]), 0);
    r.insert_frame(&data_frame(2, &[2, 2]), 0);
    assert_eq!(r.sync(0), Some(2));
    assert_eq!(r.take_sink(), vec![1, 1, 1, 1, 2, 2]);
    assert!(r.is_end());
}

#[test]
fn receiver_rejects_out_of_window_and_malformed() {
    let mut r = RecvStateMachine::new(4, 2);
    // Block 0 is a duplicate of the acknowledged point; block 3 is past
    // the window; an ACK and a runt are not DATA.
    r.insert_frame(&data_frame(0, &[7, 7, 7, 7]), 0);
    r.insert_frame(&data_frame(3, &[7, 7, 7, 7]), 0);
    r.insert_frame(&[0, 4, 0, 1], 0);
    r.insert_frame(&[0, 3], 0);
    assert_eq!(r.sync(0), None);
    assert_eq!(r.take_sink(), Vec::<u8>::new());
}

#[test]
fn receiver_buffers_out_of_order_window() {
    let mut r = RecvStateMachine::new(4, 2);
    // The network may reorder: block 2 before block 1.
    r.insert_frame(&data_frame(2, &[5, 6]), 0);
    assert_eq!(r.sync(0), None);
    r.insert_frame(&data_frame(1, &[1, 2, 3, 4]), 0);
    assert_eq!(r.sync(0), Some(2));
    assert_eq!(r.take_sink(), vec![1, 2, 3, 4, 5, 6]);
    assert!(r.is_end());
}

#[test]
fn receiver_dropped_data_causes_one_window_retransmit() {
    // One dropped DATA in a window of 2: the receiver holds the window,
    // re-ACKs its last point after the lost-ACK interval, and delivers
    // without duplication once the retransmitted window arrives.
    let blk = [1, 2, 3, 4];
    let mut r = RecvStateMachine::new(4, 2);
    r.insert_frame(&data_frame(1, &blk), 1000);
    // DATA(2) was dropped by the network; nothing completes the window.
    assert_eq!(r.sync(1000), None);

    // The sender retransmits both frames of the window; the duplicate of
    // block 1 is discarded, block 2 completes the window.
    r.insert_frame(&data_frame(1, &blk), 3100);
    r.insert_frame(&data_frame(2, &[9, 9]), 3100);
    assert_eq!(r.sync(3100), Some(2));
    assert_eq!(r.take_sink(), vec![1, 2, 3, 4, 9, 9]);
    assert!(r.is_end());
}

#[test]
fn upload_with_dropped_data_reacks_then_recovers() {
    // The session ACKs the write request; the peer's DATA(2) is dropped;
    // the receiver buffers DATA(1) only, re-ACKs its last point after the
    // lost-ACK interval, and completes once the window is retransmitted.
    let blk = [1, 2, 3, 4];
    let mut r = RecvStateMachine::new(4, 2);
    r.note_ack_sent(0);
    r.insert_frame(&data_frame(1, &blk), 10);
    assert_eq!(r.sync(10), None);
    assert_eq!(r.sync(RECV_ACK_TIMEOUT_MS), None);
    assert_eq!(r.sync(RECV_ACK_TIMEOUT_MS + 1), Some(0));
    // The sender's resend timer has retransmitted the whole window.
    r.insert_frame(&data_frame(1, &blk), RECV_ACK_TIMEOUT_MS + 100);
    r.insert_frame(&data_frame(2, &[9, 9]), RECV_ACK_TIMEOUT_MS + 100);
    assert_eq!(r.sync(RECV_ACK_TIMEOUT_MS + 100), Some(2));
    assert_eq!(r.take_sink(), vec![1, 2, 3, 4, 9, 9]);
    assert!(r.is_end());
    assert!(!r.is_timeout());
}

#[test]
fn receiver_reacks_after_lost_ack_interval() {
    let blk = [1, 2, 3, 4];
    let mut r = RecvStateMachine::new(4, 1);
    r.insert_frame(&data_frame(1, &blk), 0);
    assert_eq!(r.sync(0), Some(1));
    // No further DATA: after the lost-ACK interval the same ACK goes out
    // again, and only once per interval.
    assert_eq!(r.sync(RECV_ACK_TIMEOUT_MS), None);
    assert_eq!(r.sync(RECV_ACK_TIMEOUT_MS + 1), Some(1));
    assert_eq!(r.sync(RECV_ACK_TIMEOUT_MS + 2), None);
    assert_eq!(r.sync(2 * RECV_ACK_TIMEOUT_MS + 2), Some(1));
}

#[test]
fn receiver_times_out_without_progress() {
    let mut r = RecvStateMachine::new(4, 1);
    // The first step arms the inactivity timer; nothing ever arrives.
    assert_eq!(r.sync(0), None);
    assert!(!r.is_end());
    // Inactivity past the overall timeout ends the transfer with a
    // failure and no further ACK.
    assert_eq!(r.sync(10_000), None);
    assert!(r.is_end());
    assert!(r.is_timeout());
    assert_eq!(r.sync(20_000), None);
}

#[test]
fn window_buffer_mirrors_sender_queue() {
    let mut w = WindowBuffer::new(4, 2);
    assert!(w.needs_block());
    w.feed_block(vec![1, 2, 3, 4]);
    w.feed_block(vec![5]);
    assert!(!w.needs_block());
    assert_eq!(w.fill_level(), 2);
    assert_eq!(w.send_data()[0], data_frame(1, &[1, 2, 3, 4]));
    assert_eq!(w.send_data()[1], data_frame(2, &[5]));
    assert!(!w.next());
    assert!(w.ack(2));
    assert!(!w.ack(2));
    assert_eq!(w.fill_level(), 0);
    assert!(w.next());
}

#[test]
fn loopback_roundtrips_byte_streams() {
    // The byte sequence written by the receiver equals the byte sequence
    // read by the sender, across block sizes and window sizes.
    let cases: Vec<(Vec<u8>, usize, usize)> = vec![
        (vec![], 512, 1),
        (vec![42], 512, 1),
        ((0..=255).collect(), 4, 1),
        ((0..=255).collect(), 4, 3),
        ((0..=255).collect(), 256, 2),
        ((0..200).map(|i| (i * 7) as u8).collect(), 3, 5),
    ];
    for (data, blksize, windowsize) in cases {
        let out = loopback_transfer(&data, blksize, windowsize);
        assert_eq!(out, data);
    }
}

#[test]
fn loopback_exact_multiple_of_blocksize() {
    // A stream of exactly k * blksize bytes still terminates (with a
    // zero-length final DATA frame inside the transfer).
    let data: Vec<u8> = (0..1024).map(|i| (i % 251) as u8).collect();
    let out = loopback_transfer(&data, 512, 1);
    assert_eq!(out, data);
    let out = loopback_transfer(&data, 256, 4);
    assert_eq!(out, data);
}

#[test]
fn loopback_wraps_past_block_65535() {
    // More than 65535 blocks: the 16-bit block number wraps and the
    // stream still comes through unchanged.
    let data: Vec<u8> = (0..70_000).map(|i| (i % 253) as u8).collect();
    let out = loopback_transfer(&data, 1, 16);
    assert_eq!(out, data);
}

#[test]
fn upload_then_download_is_identity() {
    let data: Vec<u8> = (0..1500).map(|i| (i % 97) as u8).collect();
    let out = upload_then_download(&data, 1024, 2, 512, 1);
    assert_eq!(out, data);
}

#[test]
fn zero_byte_upload_single_empty_frame() {
    // Upload of a 0-byte file: DATA(1, "") and ACK(1) end the session
    // with an empty file.
    let mut s = SendStateMachine::new(512, 1);
    let mut r = RecvStateMachine::new(512, 1);
    s.feed_block(vec![]);
    let frame = s.send_data()[0].clone();
    assert_eq!(frame, data_frame(1, &[]));
    r.insert_frame(&frame, 0);
    let ack = r.sync(0).unwrap();
    assert_eq!(ack, 1);
    assert!(r.is_end());
    s.ack(ack);
    assert_eq!(s.next(0), SendAction::End);
    assert_eq!(r.take_sink(), Vec::<u8>::new());
}

#[test]
fn download_512_byte_file_two_frames() {
    // A 512-byte file at the default block size: DATA(1, 512 bytes),
    // ACK(1), DATA(2, ""), ACK(2), done.
    let data: Vec<u8> = (0..512).map(|i| (i % 256) as u8).collect();
    let mut s = SendStateMachine::new(512, 1);
    let mut r = RecvStateMachine::new(512, 1);

    s.feed_block(data.clone());
    let f1 = s.send_data()[0].clone();
    assert_eq!(&f1[..4], &[0, 3, 0, 1]);
    assert_eq!(&f1[4..], &data[..]);
    r.insert_frame(&f1, 0);
    assert_eq!(r.sync(0), Some(1));
    assert!(!r.is_end());
    s.ack(1);

    s.feed_block(vec![]);
    let f2 = s.send_data()[0].clone();
    assert_eq!(f2, data_frame(2, &[]));
    r.insert_frame(&f2, 1);
    assert_eq!(r.sync(1), Some(2));
    assert!(r.is_end());
    s.ack(2);
    assert_eq!(s.next(1), SendAction::End);
    assert_eq!(r.take_sink(), data);
}

#[test]
fn download_1500_bytes_blksize_1024_window_2() {
    // 1500 bytes at blksize 1024, windowsize 2: DATA(1, 1024 bytes) and
    // DATA(2, 476 bytes) in one window, one ACK(2), done.
    let data: Vec<u8> = (0..1500).map(|i| (i % 101) as u8).collect();
    let mut s = SendStateMachine::new(1024, 2);
    let mut r = RecvStateMachine::new(1024, 2);

    s.feed_block(data[..1024].to_vec());
    s.feed_block(data[1024..].to_vec());
    assert!(!s.needs_block());
    let frames: Vec<Vec<u8>> = s.send_data().clone();
    assert_eq!(frames.len(), 2);
    assert_eq!(&frames[0][..4], &[0, 3, 0, 1]);
    assert_eq!(frames[0].len(), 4 + 1024);
    assert_eq!(&frames[1][..4], &[0, 3, 0, 2]);
    assert_eq!(frames[1].len(), 4 + 476);
    for f in &frames {
        r.insert_frame(f, 0);
    }
    assert_eq!(r.sync(0), Some(2));
    assert!(r.is_end());
    s.ack(2);
    assert_eq!(s.next(0), SendAction::End);
    assert_eq!(r.take_sink(), data);
}

#[test]
fn timers_arm_and_expire() {
    // A `Timeout` arms itself on the first query and fires at its limit.
    let mut t = Timeout::new(100);
    assert!(!t.is_timeout(50));
    assert!(!t.is_timeout(149));
    assert!(t.is_timeout(150));
    t.reset();
    assert!(!t.is_timeout(1000));
    assert!(t.is_timeout(1100));

    // A `OneshotTimer` fires strictly past its limit once armed.
    let mut o = OneshotTimer::new(100);
    assert!(!o.is_timeout(0));
    assert!(!o.is_timeout(100));
    assert!(!o.is_timeout(50));
    assert!(o.is_timeout(101));
    o.explicit_start(200);
    assert!(!o.is_timeout(300));
    assert!(o.is_timeout(301));
    o.reset();
    assert!(!o.is_timeout(5000));
}
