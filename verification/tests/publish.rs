use distributed_pipeline::config::MainArg;
use distributed_pipeline::framing::{frame_values, units_to_frame, HEARTBEAT_GROUP, MAX_GROUP};
use distributed_pipeline::generator::{generation_limit, GeneratorState, EXPECTED_UNITS_PER_BEAT};
use distributed_pipeline::heartbeat::HeartbeatState;
use distributed_pipeline::sequence::SHUTDOWN_SIGNAL;
use distributed_pipeline::wire::{get_u64_be, put_u64_be};

#[test]
fn test_generator() {
    // A channel of 1024 values gives batches of 512.
    let mut state = GeneratorState::new(1024);
    assert_eq!(state.batch_size, 512);
    let mut batch = Vec::new();
    state.fill_batch(generation_limit(MainArg::default().beats), &mut batch);
    state.record_sent(batch.len(), batch.len());
    let messages: Vec<u64> = batch.clone();
    assert!(messages.len() >= 256);
    assert_eq!(messages[0], 0);
    assert_eq!(messages[1], 1);
    assert_eq!(state.next_value, 512);
    assert_eq!(state.total_generated, 512);
}

#[test]
fn generator_takes_back_unsent_values() {
    let mut state = GeneratorState::new(8);
    let mut batch = Vec::new();
    state.fill_batch(100, &mut batch);
    assert_eq!(batch, vec![0, 1, 2, 3]);
    // The channel took only three of the four.
    state.record_sent(batch.len(), 3);
    assert_eq!(state.next_value, 3);
    assert_eq!(state.total_generated, 3);
    state.fill_batch(100, &mut batch);
    assert_eq!(batch, vec![3, 4, 5, 6]);
    state.record_sent(batch.len(), 0);
    assert_eq!(state.next_value, 3);
    assert_eq!(state.total_generated, 3);
}

#[test]
fn generator_ends_stream_with_one_signal() {
    let limit = 10;
    let mut state = GeneratorState::new(8);
    let mut stream = Vec::new();
    let mut batch = Vec::new();
    for _ in 0..10 {
        if state.finished {
            break;
        }
        state.fill_batch(limit, &mut batch);
        // The channel takes at most three values per round.
        let sent = batch.len().min(3);
        stream.extend_from_slice(&batch[..sent]);
        state.record_sent(batch.len(), sent);
        if state.end_of_stream(limit) {
            stream.push(SHUTDOWN_SIGNAL);
        }
    }
    let mut expected: Vec<u64> = (0..10).collect();
    expected.push(SHUTDOWN_SIGNAL);
    assert_eq!(stream, expected);
    assert_eq!(state.total_generated, 10);
    // Nothing more comes after the signal.
    assert!(!state.end_of_stream(limit));
    state.fill_batch(limit, &mut batch);
    assert!(batch.is_empty());
}

#[test]
fn generation_limit_matches_beats() {
    assert_eq!(EXPECTED_UNITS_PER_BEAT, 1_000_000);
    assert_eq!(generation_limit(6000), 6_000_000_000);
    assert_eq!(generation_limit(0), 0);
    let mut state = GeneratorState::new(8);
    assert!(state.end_of_stream(0));
    assert!(!state.end_of_stream(0));
}

#[test]
fn test_heartbeat() {
    let mut args = MainArg::default();
    args.beats = 3;
    args.rate_ms = 10;
    let mut state = HeartbeatState::new();
    let mut results = Vec::new();
    loop {
        results.push(state.next_beat());
        if state.record_beat(args.beats) {
            results.push(SHUTDOWN_SIGNAL);
            break;
        }
    }
    assert!(results.len() >= 2);
    assert_eq!(results[0], 0);
    assert_eq!(results[1], 1);
    assert_eq!(results, vec![0, 1, 2, u64::MAX]);
}

#[test]
fn main_arg_defaults() {
    let args = MainArg::default();
    assert_eq!(args.rate_ms, 100);
    assert_eq!(args.beats, 6000);
}

#[test]
fn test_serialize() {
    let heartbeat = frame_values(&[0u64], HEARTBEAT_GROUP);
    assert_eq!(heartbeat.control, vec![8]);
    assert_eq!(heartbeat.payload, vec![0u8, 0, 0, 0, 0, 0, 0, 0]);
    let generator = frame_values(&[42u64], MAX_GROUP);
    assert_eq!(generator.control, vec![8]);
    assert_eq!(generator.payload, vec![0u8, 0, 0, 0, 0, 0, 0, 42]);
}

#[test]
fn publish_frames_fifteen() {
    let generator = frame_values(&[15u64], MAX_GROUP);
    assert_eq!(generator.payload, vec![0u8, 0, 0, 0, 0, 0, 0, 15]);
    let heartbeat = frame_values(&[0u64], HEARTBEAT_GROUP);
    assert_eq!(heartbeat.payload, vec![0u8, 0, 0, 0, 0, 0, 0, 0]);
}

#[test]
fn heartbeat_fragments_hold_five_values() {
    let values: Vec<u64> = (0..12).collect();
    let framed = frame_values(&values, HEARTBEAT_GROUP);
    assert_eq!(framed.control, vec![40, 40, 16]);
    assert_eq!(framed.payload.len(), 96);
    let exact: Vec<u64> = (0..10).collect();
    assert_eq!(frame_values(&exact, HEARTBEAT_GROUP).control, vec![40, 40]);
    assert_eq!(frame_values(&[], HEARTBEAT_GROUP).control, Vec::<i32>::new());
}

#[test]
fn generator_fragments_hold_max_group_values() {
    let values: Vec<u64> = (0..20000).collect();
    let framed = frame_values(&values, MAX_GROUP);
    assert_eq!(framed.control, vec![8 * 8188, 8 * 8188, 8 * (20000 - 2 * 8188)]);
    assert_eq!(framed.payload.len(), 160000);
}

#[test]
fn big_endian_bytes() {
    let mut out = Vec::new();
    put_u64_be(&mut out, 0x0102_0304_0506_0708);
    assert_eq!(out, vec![1, 2, 3, 4, 5, 6, 7, 8]);
    put_u64_be(&mut out, u64::MAX);
    assert_eq!(get_u64_be(&out, 0), 0x0102_0304_0506_0708);
    assert_eq!(get_u64_be(&out, 8), u64::MAX);
    assert_eq!(get_u64_be(&out, 1), 0x0203_0405_0607_08ff);
    assert_eq!(out[0..8], 0x0102_0304_0506_0708u64.to_be_bytes());
}

#[test]
fn units_are_bounded_by_batch_room_and_input() {
    assert_eq!(units_to_frame(512, 1000, 80000, 2000), 512);
    assert_eq!(units_to_frame(512, 10, 80000, 2000), 10);
    assert_eq!(units_to_frame(512, 1000, 80, 2000), 10);
    assert_eq!(units_to_frame(512, 1000, 87, 2000), 10);
    assert_eq!(units_to_frame(512, 1000, 80000, 3), 3);
    assert_eq!(units_to_frame(0, 1000, 80000, 3), 0);
}
