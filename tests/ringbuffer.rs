use pf2::ringbuffer::{Ringbuffer, RingbufferError};
use pf2::sample::Sample;

fn sample_of(thread: u64) -> Sample {
    Sample {
        ruby_thread: thread,
        timestamp: 0,
        line_count: 0,
        frames: [0; 500],
        linenos: [0; 500],
        c_backtrace_pcs: [0; 1001],
    }
}

#[test]
fn test_ringbuffer() {
    let mut ringbuffer = Ringbuffer::new(2);
    assert_eq!(ringbuffer.pop(), None);

    let sample1 = Sample {
        ruby_thread: 1,
        timestamp: 0,
        line_count: 0,
        frames: [0; 500],
        linenos: [0; 500],
        c_backtrace_pcs: [0; 1001],
    };
    let sample2 = Sample {
        ruby_thread: 2,
        timestamp: 0,
        line_count: 0,
        frames: [0; 500],
        linenos: [0; 500],
        c_backtrace_pcs: [0; 1001],
    };

    ringbuffer.push(sample1).unwrap();
    ringbuffer.push(sample2).unwrap();

    assert_eq!(ringbuffer.pop().unwrap().ruby_thread, 1);
    assert_eq!(ringbuffer.pop().unwrap().ruby_thread, 2);
    assert_eq!(ringbuffer.pop(), None);
}

#[test]
fn test_ringbuffer_full() {
    let mut ringbuffer = Ringbuffer::new(1);
    let sample1 = Sample {
        ruby_thread: 1,
        timestamp: 0,
        line_count: 0,
        frames: [0; 500],
        linenos: [0; 500],
        c_backtrace_pcs: [0; 1001],
    };
    let sample2 = Sample {
        ruby_thread: 2,
        timestamp: 0,
        line_count: 0,
        frames: [0; 500],
        linenos: [0; 500],
        c_backtrace_pcs: [0; 1001],
    };

    ringbuffer.push(sample1).unwrap();
    assert_eq!(ringbuffer.push(sample2), Err(RingbufferError::Full));
}

#[test]
fn test_ringbuffer_write_a_lot() {
    let mut ringbuffer = Ringbuffer::new(2);
    let sample1 = Sample {
        ruby_thread: 1,
        timestamp: 0,
        line_count: 0,
        frames: [0; 500],
        linenos: [0; 500],
        c_backtrace_pcs: [0; 1001],
    };
    let sample2 = Sample {
        ruby_thread: 2,
        timestamp: 0,
        line_count: 0,
        frames: [0; 500],
        linenos: [0; 500],
        c_backtrace_pcs: [0; 1001],
    };
    let sample3 = Sample {
        ruby_thread: 3,
        timestamp: 0,
        line_count: 0,
        frames: [0; 500],
        linenos: [0; 500],
        c_backtrace_pcs: [0; 1001],
    };

    ringbuffer.push(sample1).unwrap();
    ringbuffer.pop().unwrap();
    ringbuffer.push(sample2).unwrap();
    ringbuffer.pop().unwrap();
    ringbuffer.push(sample3).unwrap();
    assert_eq!(ringbuffer.pop().unwrap().ruby_thread, 3);
}

#[test]
fn capacity_two_third_push_fails_then_push_after_pop() {
    let mut rb = Ringbuffer::new(2);
    assert_eq!(rb.push(sample_of(1)), Ok(()));
    assert_eq!(rb.push(sample_of(2)), Ok(()));
    assert_eq!(rb.push(sample_of(3)), Err(RingbufferError::Full));
    assert_eq!(rb.pop().unwrap().ruby_thread, 1);
    assert_eq!(rb.push(sample_of(4)), Ok(()));
    assert_eq!(rb.len(), 2);
}

#[test]
fn exactly_capacity_pushes_succeed() {
    for capacity in [0usize, 1, 3, 7] {
        let mut rb = Ringbuffer::new(capacity);
        assert_eq!(rb.capacity(), capacity);
        for i in 0..capacity {
            assert_eq!(rb.push(sample_of(i as u64)), Ok(()));
        }
        assert_eq!(rb.push(sample_of(99)), Err(RingbufferError::Full));
        assert_eq!(rb.len(), capacity);
    }
}

#[test]
fn fifo_order_across_wraparound() {
    let mut rb = Ringbuffer::new(3);
    let mut next_in: u64 = 0;
    let mut next_out: u64 = 0;
    for round in 0..20 {
        let pushes = 1 + round % 3;
        for _ in 0..pushes {
            if rb.len() < 3 {
                rb.push(sample_of(next_in)).unwrap();
                next_in += 1;
            }
        }
        let pops = 1 + (round + 1) % 2;
        for _ in 0..pops {
            match rb.pop() {
                Some(s) => {
                    assert_eq!(s.ruby_thread, next_out);
                    next_out += 1;
                }
                None => assert_eq!(next_in, next_out),
            }
        }
    }
    while let Some(s) = rb.pop() {
        assert_eq!(s.ruby_thread, next_out);
        next_out += 1;
    }
    assert_eq!(next_in, next_out);
}

#[test]
fn pop_on_empty_returns_none() {
    let mut rb = Ringbuffer::new(0);
    assert_eq!(rb.pop(), None);
    assert_eq!(rb.push(sample_of(1)), Err(RingbufferError::Full));
    assert_eq!(rb.pop(), None);
}

#[test]
fn buffered_references_list_threads_and_frames() {
    let mut rb = Ringbuffer::new(4);
    let mut s = sample_of(10);
    s.frames[0] = 100;
    s.frames[1] = 101;
    s.frames[3] = 999;
    rb.push(s).unwrap();
    rb.push(sample_of(20)).unwrap();
    assert_eq!(rb.references(), vec![10, 100, 101, 20]);
}
