use cyphera_kernel::vfs::pipe::{
    Pipe, ReadStep, Wake, WriteStep, PIPE_CAPACITY, POLL_HUP, POLL_IN, POLL_OUT,
};
use cyphera_kernel::vfs::{InodeKind, OpenFlags, Stat, O_RDWR, O_WRONLY};
use std::sync::{Arc, Mutex};

#[test]
fn open_close_read_end_balanced() {
    let mut p = Pipe::new();
    assert_eq!((p.readers(), p.writers()), (0, 0));
    p.bump_open(true, false);
    assert_eq!((p.readers(), p.writers()), (1, 0));
    let (wake_r, wake_w) = p.drop_close(true, false);
    assert_eq!((p.readers(), p.writers()), (0, 0));
    assert_eq!((wake_r, wake_w), (false, true));
}

#[test]
fn open_close_write_end_balanced() {
    let mut p = Pipe::new();
    p.bump_open(false, true);
    assert_eq!((p.readers(), p.writers()), (0, 1));
    let (wake_r, wake_w) = p.drop_close(false, true);
    assert_eq!((p.readers(), p.writers()), (0, 0));
    assert_eq!((wake_r, wake_w), (true, false));
}

#[test]
fn open_close_rdwr_bumps_both() {
    let mut p = Pipe::new();
    p.bump_open(true, true);
    assert_eq!((p.readers(), p.writers()), (1, 1));
    let (wake_r, wake_w) = p.drop_close(true, true);
    assert_eq!((p.readers(), p.writers()), (0, 0));
    assert_eq!((wake_r, wake_w), (true, true));
}

#[test]
fn drop_close_saturates_at_zero() {
    let mut p = Pipe::new();
    p.bump_open(true, false);
    let _ = p.drop_close(true, false);
    let (wake_r, wake_w) = p.drop_close(true, false);
    assert_eq!((p.readers(), p.writers()), (0, 0));
    assert_eq!((wake_r, wake_w), (false, true));
}

#[test]
fn open_writers_increment_monotonically() {
    let mut p = Pipe::new();
    for i in 1..=32 {
        p.bump_open(false, true);
        assert_eq!(p.writers(), i);
        assert_eq!(p.readers(), 0);
    }
    for i in (1..=32).rev() {
        let (wake_r, _) = p.drop_close(false, true);
        assert_eq!(wake_r, i == 1);
    }
}

#[test]
fn peek_empty_returns_zero() {
    let p = Pipe::new();
    let mut buf = [0u8; 16];
    assert_eq!(p.peek_inner(&mut buf), 0);
    assert_eq!(p.buffered(), 0);
}

#[test]
fn peek_partial_buffer_does_not_consume() {
    let mut p = Pipe::new();
    p.bump_open(true, true);
    let _ = p.write_step(b"hello world");
    let mut buf = [0u8; 5];
    assert_eq!(p.peek_inner(&mut buf), 5);
    assert_eq!(&buf, b"hello");
    assert_eq!(p.buffered(), 11);
}

#[test]
fn peek_larger_buf_than_data_returns_data_len() {
    let mut p = Pipe::new();
    p.bump_open(true, true);
    let _ = p.write_step(b"abc");
    let mut buf = [0u8; 64];
    assert_eq!(p.peek_inner(&mut buf), 3);
    assert_eq!(&buf[..3], b"abc");
}

#[test]
fn write_step_broken_pipe_no_readers() {
    let mut p = Pipe::new();
    p.bump_open(false, true);
    match p.write_step(b"x") {
        WriteStep::BrokenPipe => {}
        _ => panic!("expected BrokenPipe with readers==0"),
    }
}

#[test]
fn write_step_writes_when_room() {
    let mut p = Pipe::new();
    p.bump_open(true, true);
    match p.write_step(b"hello") {
        WriteStep::Wrote(n) => assert_eq!(n, 5),
        _ => panic!("expected Wrote(5)"),
    }
    assert_eq!(p.buffered(), 5);
}

#[test]
fn write_step_would_park_when_full() {
    let mut p = Pipe::new();
    p.bump_open(true, true);
    let big: Vec<u8> = vec![0u8; Pipe::capacity()];
    match p.write_step(&big) {
        WriteStep::Wrote(n) => assert_eq!(n, Pipe::capacity()),
        _ => panic!("expected full-buffer Wrote"),
    }
    match p.write_step(b"more") {
        WriteStep::WouldPark => {}
        _ => panic!("expected WouldPark when buffer full"),
    }
}

#[test]
fn write_step_short_write_at_boundary() {
    let mut p = Pipe::new();
    p.bump_open(true, true);
    let prefill: Vec<u8> = vec![0u8; Pipe::capacity() - 3];
    let _ = p.write_step(&prefill);
    assert_eq!(p.buffered(), Pipe::capacity() - 3);
    match p.write_step(b"0123456789") {
        WriteStep::Wrote(n) => assert_eq!(n, 3),
        _ => panic!("expected Wrote(3) at near-full boundary"),
    }
    assert_eq!(p.buffered(), Pipe::capacity());
}

#[test]
fn read_step_eof_no_writers_empty() {
    let mut p = Pipe::new();
    let mut buf = [0u8; 4];
    match p.read_step(&mut buf) {
        ReadStep::Eof => {}
        _ => panic!("expected Eof on empty pipe with no writers"),
    }
}

#[test]
fn read_step_would_park_empty_with_writer() {
    let mut p = Pipe::new();
    p.bump_open(true, true);
    let mut buf = [0u8; 4];
    match p.read_step(&mut buf) {
        ReadStep::WouldPark => {}
        _ => panic!("expected WouldPark on empty pipe with writer"),
    }
}

#[test]
fn read_step_drains_when_data_present() {
    let mut p = Pipe::new();
    p.bump_open(true, true);
    let _ = p.write_step(b"abcdef");
    let mut buf = [0u8; 4];
    match p.read_step(&mut buf) {
        ReadStep::Drained(n) => assert_eq!(n, 4),
        _ => panic!("expected Drained(4)"),
    }
    assert_eq!(&buf, b"abcd");
    assert_eq!(p.buffered(), 2);
}

#[test]
fn read_step_drains_after_writers_close() {
    let mut p = Pipe::new();
    p.bump_open(true, true);
    let _ = p.write_step(b"final");
    let (wake_r, _) = p.drop_close(false, true);
    assert!(wake_r, "last-writer close should signal wake_readers");
    let mut buf = [0u8; 8];
    match p.read_step(&mut buf) {
        ReadStep::Drained(n) => assert_eq!(n, 5),
        _ => panic!("expected Drained before Eof"),
    }
    match p.read_step(&mut buf) {
        ReadStep::Eof => {}
        _ => panic!("expected Eof after drain"),
    }
}

#[test]
fn poll_fresh_pipe_writers_zero_eof_in() {
    let p = Pipe::new();
    let (in_, out_, hup) = p.poll_in_out_hup();
    assert!(in_, "writers==0 → IN");
    assert!(out_, "readers==0 → OUT");
    assert!(hup, "writers==0 + empty → HUP");
}

#[test]
fn poll_live_writer_empty_buf_not_in() {
    let mut p = Pipe::new();
    p.bump_open(true, true);
    let (in_, out_, hup) = p.poll_in_out_hup();
    assert!(!in_, "writer alive + empty buf → not IN");
    assert!(out_, "buf has room → OUT");
    assert!(!hup, "writer alive → not HUP");
}

#[test]
fn poll_full_buffer_in_but_not_out() {
    let mut p = Pipe::new();
    p.bump_open(true, true);
    let big: Vec<u8> = vec![0u8; Pipe::capacity()];
    let _ = p.write_step(&big);
    let (in_, out_, hup) = p.poll_in_out_hup();
    assert!(in_, "buf non-empty → IN");
    assert!(!out_, "buf full + readers alive → not OUT");
    assert!(!hup, "writer alive → not HUP");
}

#[test]
fn drop_pipe_no_uaf_on_outstanding_buffer() {
    let mut p = Pipe::new();
    for _ in 0..16 {
        p.bump_open(true, true);
        let _ = p.write_step(b"data");
        let _ = p.drop_close(true, true);
    }
    p.bump_open(true, true);
    let _ = p.write_step(b"lingering bytes never read");
    drop(p);
}

#[test]
fn clone_arc_observes_same_state() {
    let p = Arc::new(Mutex::new(Pipe::new()));
    let q = p.clone();
    p.lock().unwrap().bump_open(false, true);
    assert_eq!(q.lock().unwrap().writers(), 1);
    let _ = q.lock().unwrap().write_step(b"");
    assert_eq!(p.lock().unwrap().writers(), 1);
    let _ = p.lock().unwrap().drop_close(false, true);
    assert_eq!(q.lock().unwrap().writers(), 0);
}

#[test]
fn bytes_come_out_in_the_order_they_went_in() {
    let mut p = Pipe::new();
    p.bump_open(true, true);
    assert_eq!(p.write_step(b"ab"), WriteStep::Wrote(2));
    assert_eq!(p.write_step(b"cd"), WriteStep::Wrote(2));
    let mut buf = [0u8; 3];
    assert_eq!(p.read_step(&mut buf), ReadStep::Drained(3));
    assert_eq!(&buf, b"abc");
    let mut rest = [9u8; 3];
    assert_eq!(p.read_step(&mut rest), ReadStep::Drained(1));
    assert_eq!(&rest, &[b'd', 9, 9]);
}

#[test]
fn a_read_wakes_a_writer_and_a_write_a_reader() {
    let mut p = Pipe::new();
    p.bump_open(true, true);
    let (step, wake) = p.write_attempt(b"x");
    assert_eq!((step, wake), (WriteStep::Wrote(1), Wake::OneReader));
    let mut buf = [0u8; 1];
    let (step, wake) = p.read_attempt(&mut buf);
    assert_eq!((step, wake), (ReadStep::Drained(1), Wake::OneWriter));
    let (step, wake) = p.read_attempt(&mut buf);
    assert_eq!((step, wake), (ReadStep::WouldPark, Wake::Nobody));
}

#[test]
fn the_ends_of_a_pipe_follow_the_flags() {
    let mut p = Pipe::new();
    p.on_open(OpenFlags { bits: 0 });
    assert_eq!((p.readers(), p.writers()), (1, 0));
    p.on_open(OpenFlags { bits: O_WRONLY });
    assert_eq!((p.readers(), p.writers()), (1, 1));
    p.on_open(OpenFlags { bits: O_RDWR });
    assert_eq!((p.readers(), p.writers()), (2, 2));
    assert_eq!(p.on_close(OpenFlags { bits: O_RDWR }), (false, false));
    assert_eq!(p.on_close(OpenFlags { bits: O_WRONLY }), (true, false));
    assert_eq!(p.on_close(OpenFlags { bits: 0 }), (false, true));
    assert_eq!((p.readers(), p.writers()), (0, 0));
}

#[test]
fn a_pipe_tells_what_it_is_ready_for() {
    let mut p = Pipe::new();
    assert_eq!(p.poll(), POLL_IN | POLL_OUT | POLL_HUP);
    p.on_open(OpenFlags { bits: O_RDWR });
    assert_eq!(p.poll(), POLL_OUT);
    let _ = p.write_step(&vec![7u8; PIPE_CAPACITY]);
    assert_eq!(p.poll(), POLL_IN);
    assert_eq!(p.on_close(OpenFlags { bits: O_WRONLY }), (true, false));
    assert_eq!(p.poll(), POLL_IN);
}

#[test]
fn a_pipe_is_as_large_as_what_it_holds() {
    let mut p = Pipe::new();
    p.on_open(OpenFlags { bits: O_RDWR });
    let _ = p.write_step(&vec![1u8, 2, 3]);
    assert_eq!(p.stat(), Stat::fresh(InodeKind::Pipe, 3, 0o600));
}

#[test]
fn bytes_come_out_in_order_over_many_calls() {
    let mut p = Pipe::new();
    p.bump_open(true, true);
    let mut written = Vec::new();
    let mut read = Vec::new();
    for round in 0..50u8 {
        let data = vec![round; 3];
        if let WriteStep::Wrote(n) = p.write_step(&data) {
            written.extend_from_slice(&data[..n]);
        }
        let mut buf = [0u8; 2];
        if let ReadStep::Drained(n) = p.read_step(&mut buf) {
            read.extend_from_slice(&buf[..n]);
        }
    }
    assert_eq!(read.as_slice(), &written[..read.len()]);
    assert_eq!(p.buffered(), written.len() - read.len());
}
