use std::collections::HashMap;

use pf2::profile::Profile;
use pf2::profile_serializer::{
    calculate_id_for_c_frame, merged_stack, FrameTableEntryType, ProfileSerializer, ThreadProfile,
};
use pf2::sample::Sample;
use pf2::serialization::profile::{Function, FunctionImplementation, Location};
use pf2::serialization::serializer::{FrameSymbols, ProfileSerializer2};

fn ruby_fn(name: &str, file: &str, line: i32) -> Function {
    Function {
        implementation: FunctionImplementation::Ruby,
        name: Some(name.to_owned()),
        filename: Some(file.to_owned()),
        start_lineno: Some(line),
        start_address: None,
    }
}

fn native_fn(name: &str, addr: usize) -> Function {
    Function {
        implementation: FunctionImplementation::Native,
        name: Some(name.to_owned()),
        filename: None,
        start_lineno: None,
        start_address: Some(addr),
    }
}

fn sample_with(thread: u64, timestamp: u64, frames: &[(u64, i32)], pcs: &[usize]) -> Sample {
    let mut s = Sample {
        ruby_thread: thread,
        timestamp,
        line_count: frames.len() as i32,
        frames: [0; 500],
        linenos: [0; 500],
        c_backtrace_pcs: [0; 1001],
    };
    for (i, (f, l)) in frames.iter().enumerate() {
        s.frames[i] = *f;
        s.linenos[i] = *l;
    }
    s.c_backtrace_pcs[0] = pcs.len();
    for (i, pc) in pcs.iter().enumerate() {
        s.c_backtrace_pcs[i + 1] = *pc;
    }
    s
}

fn symbols() -> FrameSymbols {
    let mut ruby_frames = HashMap::new();
    ruby_frames.insert(1000, ruby_fn("Foo#bar", "foo.rb", 3));
    ruby_frames.insert(2000, ruby_fn("Object#main", "main.rb", 1));
    let mut native_pcs = HashMap::new();
    native_pcs.insert(0x10, native_fn("rb_vm_exec", 0x8));
    native_pcs.insert(0x20, native_fn("pf2_signal_handler", 0x18));
    FrameSymbols { ruby_frames, native_pcs }
}

fn finished_profile(samples: Vec<Sample>) -> Profile {
    let mut p = Profile::new(1_700_000_000_000_000_000, 1_000);
    for s in samples {
        p.temporary_sample_buffer.push(s).unwrap();
    }
    p.finalize(5_000);
    p
}

#[test]
fn identical_functions_share_an_index() {
    let mut ser = ProfileSerializer2::new();
    let a = ser.function_index_for(ruby_fn("Foo#bar", "foo.rb", 3));
    let b = ser.function_index_for(ruby_fn("Foo#baz", "foo.rb", 9));
    let c = ser.function_index_for(ruby_fn("Foo#bar", "foo.rb", 3));
    assert_eq!((a, b, c), (0, 1, 0));
    assert_eq!(ser.profile().functions.len(), 2);
    let d = ser.function_index_for(native_fn("Foo#bar", 1));
    assert_eq!(d, 2);
}

#[test]
fn locations_are_keyed_by_function_and_line() {
    let mut ser = ProfileSerializer2::new();
    let f = ser.function_index_for(ruby_fn("Foo#bar", "foo.rb", 3));
    let a = ser.location_index_for(f, 5);
    let b = ser.location_index_for(f, 6);
    let c = ser.location_index_for(f, 5);
    assert_eq!((a, b, c), (0, 1, 0));
    let x = Location { function_index: 0, lineno: 5, address: Some(0x99) };
    let y = Location { function_index: 0, lineno: 5, address: None };
    assert_eq!(x, y);
    assert_ne!(x, Location { function_index: 0, lineno: 6, address: Some(0x99) });
}

#[test]
fn two_samples_same_stack_share_tables_and_leaf() {
    let frames = [(1000, 7), (2000, 2)];
    let profile = finished_profile(vec![
        sample_with(42, 1_500, &frames, &[]),
        sample_with(42, 2_500, &frames, &[]),
    ]);
    let sym = symbols();

    let mut ser = ProfileSerializer2::new();
    ser.serialize(&profile, &sym);
    let out = ser.profile();
    assert_eq!(out.functions.len(), 2);
    assert_eq!(out.locations.len(), 2);
    assert_eq!(out.samples.len(), 2);
    assert_eq!(out.samples[0].stack, vec![0, 1]);
    assert_eq!(out.samples[1].stack, vec![0, 1]);
    assert_eq!(out.samples[0].elapsed_ns, 500);
    assert_eq!(out.samples[1].elapsed_ns, 1_500);
    assert_eq!(out.samples[0].ruby_thread_id, Some(42));
    assert_eq!(out.start_timestamp_ns, 1_700_000_000_000_000_000);
    assert_eq!(out.duration_ns, 4_000);

    let tree_profile = ProfileSerializer::serialize(&profile, &sym);
    let threads = tree_profile.threads();
    assert_eq!(threads.len(), 1);
    let t = &threads[0];
    assert_eq!(t.thread_id, 42);
    assert_eq!(t.stack_tree.len(), 3);
    assert_eq!(t.frame_table.len(), 2);
    assert_eq!(t.samples.len(), 2);
    assert_eq!(t.samples[0].stack_tree_id, t.samples[1].stack_tree_id);
    assert_eq!(t.samples[0].elapsed_ns, 500);
    assert_eq!(t.samples[1].elapsed_ns, 1_500);
}

#[test]
fn every_index_points_into_its_table() {
    let profile = finished_profile(vec![
        sample_with(1, 1_100, &[(1000, 7), (2000, 2)], &[0x10, 0x30]),
        sample_with(2, 1_200, &[(3000, 4)], &[0x10]),
        sample_with(1, 900, &[(2000, 2)], &[]),
    ]);
    let mut ser = ProfileSerializer2::new();
    ser.serialize(&profile, &symbols());
    let out = ser.profile();
    for s in out.samples.iter() {
        for &i in s.stack.iter().chain(s.native_stack.iter()) {
            assert!(i < out.locations.len());
        }
    }
    for l in out.locations.iter() {
        assert!(l.function_index < out.functions.len());
    }
    assert_eq!(out.samples[2].elapsed_ns, 0);
    // Unknown frames get placeholders.
    let unknown_ruby = &out.functions[out.locations[out.samples[1].stack[0]].function_index];
    assert_eq!(unknown_ruby.name, None);
    assert_eq!(unknown_ruby.implementation, FunctionImplementation::Ruby);
    let unknown_native = &out.functions[out.locations[out.samples[0].native_stack[1]].function_index];
    assert_eq!(unknown_native.name, None);
    assert_eq!(unknown_native.implementation, FunctionImplementation::Native);
}

#[test]
fn stack_tree_is_deterministic() {
    let make = || {
        finished_profile(vec![
            sample_with(1, 1_100, &[(1000, 7), (2000, 2)], &[0x10]),
            sample_with(2, 1_200, &[(2000, 2)], &[]),
            sample_with(1, 1_300, &[(3000, 4), (2000, 2)], &[]),
        ])
    };
    let a = ProfileSerializer::serialize(&make(), &symbols());
    let b = ProfileSerializer::serialize(&make(), &symbols());
    let ids = |s: &ProfileSerializer| -> Vec<(u64, Vec<(u64, u64, Vec<usize>)>, Vec<u64>)> {
        s.threads()
            .iter()
            .map(|t| {
                (
                    t.thread_id,
                    t.stack_tree.iter().map(|n| (n.node_id, n.frame_id, n.children.clone())).collect(),
                    t.frame_table.iter().map(|e| e.id).collect(),
                )
            })
            .collect()
    };
    assert_eq!(ids(&a), ids(&b));
    let threads = a.threads();
    assert_eq!(threads.len(), 2);
    // thread 1: root -> main(2000) -> {bar(1000) -> native, baz(3000)}
    assert_eq!(threads[0].stack_tree.len(), 5);
    assert_eq!(threads[0].stack_tree[0].node_id, 0);
    let node_ids: Vec<u64> = threads[0].stack_tree.iter().map(|n| n.node_id).collect();
    assert_eq!(node_ids, vec![0, 1, 2, 3, 5]);
    assert_eq!(threads[1].stack_tree[1].node_id, 4);
    assert_eq!(threads[0].samples[0].stack_tree_id, 3);
    assert_eq!(threads[0].samples[1].stack_tree_id, 5);
}

#[test]
fn merged_stack_puts_native_frames_first_and_skips_profiler_frames() {
    let s = sample_with(1, 0, &[(1000, 7), (9999, 1)], &[0x10, 0x20, 0x30]);
    let stack = merged_stack(&s, &symbols());
    let labels: Vec<&str> = stack.iter().map(|e| e.full_label.as_str()).collect();
    assert_eq!(labels, vec!["rb_vm_exec", "(no symbol information)", "Foo#bar", "(unknown)"]);
    assert_eq!(stack[0].entry_type, FrameTableEntryType::Native);
    assert_eq!(stack[0].id, calculate_id_for_c_frame(&"rb_vm_exec".to_owned()));
    assert_eq!(stack[0].address, Some(0x8));
    assert_eq!(stack[1].address, None);
    assert_eq!(stack[2].entry_type, FrameTableEntryType::Ruby);
    assert_eq!(stack[2].id, 1000);
    assert_eq!(stack[2].callsite_lineno, Some(7));
    assert_eq!(stack[2].function_first_lineno, Some(3));
    assert_eq!(stack[2].file_name, Some("foo.rb".to_owned()));
    assert_eq!(stack[3].file_name, Some("(unknown)".to_owned()));
}

#[test]
fn native_frame_ids_depend_on_the_name() {
    let a = calculate_id_for_c_frame(&"rb_vm_exec".to_owned());
    let b = calculate_id_for_c_frame(&"rb_vm_exec".to_owned());
    let c = calculate_id_for_c_frame(&"rb_yield".to_owned());
    assert_eq!(a, b);
    assert_ne!(a, c);
}

#[test]
fn empty_stack_records_no_sample() {
    let profile = finished_profile(vec![sample_with(3, 1_100, &[], &[])]);
    let tree_profile = ProfileSerializer::serialize(&profile, &symbols());
    assert_eq!(tree_profile.threads().len(), 1);
    assert_eq!(tree_profile.threads()[0].samples.len(), 0);
    assert_eq!(tree_profile.threads()[0].stack_tree.len(), 1);
}

#[test]
fn adding_a_stack_again_reuses_its_path() {
    let sym = symbols();
    let s = sample_with(9, 0, &[(1000, 7), (2000, 2)], &[0x10]);
    let mut thread = ThreadProfile::new(9);
    let mut sequence: u64 = 1;
    thread.add_stack(merged_stack(&s, &sym), 10, &mut sequence);
    assert_eq!(sequence, 4);
    assert_eq!(thread.stack_tree.len(), 4);
    assert_eq!(thread.frame_table.len(), 3);
    thread.add_stack(merged_stack(&s, &sym), 20, &mut sequence);
    assert_eq!(sequence, 4);
    assert_eq!(thread.stack_tree.len(), 4);
    assert_eq!(thread.frame_table.len(), 3);
    assert_eq!(thread.samples.len(), 2);
    assert_eq!(thread.samples[0].stack_tree_id, 3);
    assert_eq!(thread.samples[1].stack_tree_id, 3);
    assert_eq!(thread.samples[1].elapsed_ns, 20);
}
