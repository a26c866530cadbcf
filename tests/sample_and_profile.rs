use pf2::profile::{Profile, DEFAULT_RINGBUFFER_CAPACITY};
use pf2::sample::{record_native_pc, Sample, MAX_C_STACK_DEPTH, NATIVE_PCS_LEN};

fn sample_with(thread: u64, timestamp: u64, frames: &[u64]) -> Sample {
    let mut s = Sample {
        ruby_thread: thread,
        timestamp,
        line_count: frames.len() as i32,
        frames: [0; 500],
        linenos: [0; 500],
        c_backtrace_pcs: [0; 1001],
    };
    for (i, f) in frames.iter().enumerate() {
        s.frames[i] = *f;
        s.linenos[i] = 10 + i as i32;
    }
    s
}

#[test]
fn record_native_pc_appends_until_full() {
    let mut pcs = [0usize; NATIVE_PCS_LEN];
    assert_eq!(record_native_pc(&mut pcs, 0xaa), 0);
    assert_eq!(record_native_pc(&mut pcs, 0xbb), 0);
    assert_eq!(pcs[0], 2);
    assert_eq!(pcs[1], 0xaa);
    assert_eq!(pcs[2], 0xbb);
    for i in 2..MAX_C_STACK_DEPTH {
        assert_eq!(record_native_pc(&mut pcs, i), 0);
    }
    assert_eq!(pcs[0], MAX_C_STACK_DEPTH);
    let before = pcs;
    assert_eq!(record_native_pc(&mut pcs, 0xcc), 1);
    assert_eq!(pcs, before);
}

#[test]
fn sample_references_stop_at_first_empty_frame() {
    let mut s = sample_with(7, 0, &[1, 2, 3]);
    s.frames[5] = 42;
    assert_eq!(s.references(), vec![7, 1, 2, 3]);
    assert_eq!(sample_with(8, 0, &[]).references(), vec![8]);
}

#[test]
fn new_profile_is_empty() {
    let p = Profile::new(123, 456);
    assert_eq!(p.start_timestamp_ns, 123);
    assert_eq!(p.start_instant, 456);
    assert_eq!(p.end_instant, None);
    assert!(p.samples.is_empty());
    assert_eq!(p.temporary_sample_buffer.capacity(), DEFAULT_RINGBUFFER_CAPACITY);
    assert!(p.external_references().is_empty());
}

#[test]
fn flush_moves_samples_in_order_and_records_references() {
    let mut p = Profile::new(0, 0);
    p.temporary_sample_buffer.push(sample_with(1, 10, &[100, 101])).unwrap();
    p.temporary_sample_buffer.push(sample_with(2, 20, &[200])).unwrap();
    let mut refs = p.external_references();
    refs.sort();
    assert_eq!(refs, vec![1, 2, 100, 101, 200]);

    p.flush_temporary_sample_buffer();
    assert_eq!(p.samples.len(), 2);
    assert_eq!(p.samples[0].ruby_thread, 1);
    assert_eq!(p.samples[1].ruby_thread, 2);
    assert_eq!(p.temporary_sample_buffer.len(), 0);
    let mut known: Vec<u64> = p.known_values.iter().copied().collect();
    known.sort();
    assert_eq!(known, vec![1, 2, 100, 101, 200]);

    p.temporary_sample_buffer.push(sample_with(1, 30, &[300])).unwrap();
    p.finalize(40);
    assert_eq!(p.end_instant, Some(40));
    assert_eq!(p.samples.len(), 3);
    assert_eq!(p.samples[2].timestamp, 30);
    let mut refs = p.external_references();
    refs.sort();
    assert_eq!(refs, vec![1, 2, 100, 101, 200, 300]);
}
