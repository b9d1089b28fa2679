use distributed_pipeline::deserialize::{payload_limit, DeserializeState, StreamKind};
use distributed_pipeline::framing::{decode_frames, frame_values, frames_fit, MAX_GROUP};
use distributed_pipeline::logger::{LoggerState, LOG_LIMIT};
use distributed_pipeline::sequence::{SequenceError, SHUTDOWN_SIGNAL};
use distributed_pipeline::worker::{
    expected_total, FizzBuzzMessage, WorkerState, CHANNEL_CAPACITY, VALUES_PER_HEARTBEAT,
};

fn serialize_numbers(nums: &[u64]) -> Vec<u8> {
    let mut bytes = Vec::with_capacity(nums.len() * 8);
    for &num in nums {
        bytes.extend_from_slice(&num.to_be_bytes());
    }
    bytes
}

#[test]
fn test_deserialize() {
    let mut state = DeserializeState::new();
    let mut payload = serialize_numbers(&[0, 1]);
    payload.extend(serialize_numbers(&[2, 3]));
    let lens = vec![16, 16];
    assert!(frames_fit(&lens, payload.len()));

    let words = decode_frames(&lens, &payload);
    let heartbeat_received = state.absorb(StreamKind::Heartbeat, &words).unwrap();
    assert_eq!(heartbeat_received.values, vec![0, 1, 2, 3], "Heartbeat stream did not receive expected sequence");
    assert!(!heartbeat_received.shutdown_requested);

    let words = decode_frames(&lens, &payload);
    let generator_received = state.absorb(StreamKind::Generator, &words).unwrap();
    assert_eq!(generator_received.values, vec![0, 1, 2, 3], "Generator stream did not receive expected sequence");
    assert_eq!(state.next_heartbeat, 4);
    assert_eq!(state.next_generator, 4);
}

#[test]
fn deserialize_refuses_out_of_order() {
    let mut state = DeserializeState::new();
    let r = state.absorb(StreamKind::Generator, &[0, 1, 3, 4]);
    let refused = r.err().unwrap();
    assert_eq!(refused.error, SequenceError { expected: 2, got: 3 });
    assert_eq!(refused.at, 2);
    assert!(!refused.shutdown_requested);
    // The numbers before the break are no longer due.
    assert_eq!(state.next_generator, 2);
    let r = state.absorb(StreamKind::Heartbeat, &[1]);
    assert_eq!(r.err().unwrap().error, SequenceError { expected: 0, got: 1 });
    assert_eq!(state.next_heartbeat, 0);
}

#[test]
fn deserialize_shuts_down_on_second_signal() {
    let mut state = DeserializeState::new();
    let a = state.absorb(StreamKind::Heartbeat, &[0, 1, SHUTDOWN_SIGNAL]).unwrap();
    assert_eq!(a.values, vec![0, 1]);
    assert!(!a.shutdown_requested);
    assert_eq!(state.shutdown_count, 1);
    let b = state.absorb(StreamKind::Generator, &[0, SHUTDOWN_SIGNAL, 1]).unwrap();
    assert_eq!(b.values, vec![0, 1]);
    assert!(b.shutdown_requested);
    assert_eq!(state.shutdown_count, 2);
    // A later signal does not ask again.
    let c = state.absorb(StreamKind::Generator, &[SHUTDOWN_SIGNAL]).unwrap();
    assert!(!c.shutdown_requested);
    assert_eq!(state.shutdown_count, 3);
}

#[test]
fn refused_batch_keeps_signals_before_break() {
    let mut state = DeserializeState::new();
    let a = state.absorb(StreamKind::Generator, &[0, SHUTDOWN_SIGNAL]).unwrap();
    assert!(!a.shutdown_requested);
    assert_eq!(state.shutdown_count, 1);
    let refused = state.absorb(StreamKind::Heartbeat, &[SHUTDOWN_SIGNAL, 5]).err().unwrap();
    assert_eq!(refused.error, SequenceError { expected: 0, got: 5 });
    assert_eq!(refused.at, 1);
    assert!(refused.shutdown_requested);
    assert_eq!(state.shutdown_count, 2);
    // A signal after the break is not counted.
    let refused = state.absorb(StreamKind::Heartbeat, &[7, SHUTDOWN_SIGNAL]).err().unwrap();
    assert!(!refused.shutdown_requested);
    assert_eq!(state.shutdown_count, 2);
}

#[test]
fn regrouped_fragments_keep_order() {
    // The publisher frames two batches; the subscriber takes the fragments
    // in other batches; the numbers come out in order all the same.
    let first = frame_values(&(0u64..7).collect::<Vec<_>>(), 5);
    let second = frame_values(&(7u64..12).collect::<Vec<_>>(), 5);
    let mut lens = first.control.clone();
    lens.extend(second.control.iter());
    let mut payload = first.payload.clone();
    payload.extend(second.payload.iter());
    assert_eq!(lens, vec![40, 16, 40]);
    let mut state = DeserializeState::new();
    let a = state.absorb(StreamKind::Generator, &decode_frames(&lens[..1], &payload[..40])).unwrap();
    let b = state.absorb(StreamKind::Generator, &decode_frames(&lens[1..], &payload[40..])).unwrap();
    let mut all = a.values;
    all.extend(b.values);
    assert_eq!(all, (0u64..12).collect::<Vec<_>>());
    assert_eq!(decode_frames(&lens, &payload), (0u64..12).collect::<Vec<_>>());
}

#[test]
fn frames_read_back_partial_words() {
    // A fragment of 5 bytes spans one word; fragments of no length span none.
    let payload = serialize_numbers(&[7, 8, 9]);
    let lens = vec![5, 0, -3, 16];
    assert!(frames_fit(&lens, payload.len()));
    assert_eq!(decode_frames(&lens, &payload), vec![7, 8, 9]);
    assert!(!frames_fit(&[16, 9], payload.len()));
    assert!(frames_fit(&[24], 24));
    assert!(!frames_fit(&[24], 23));
}

#[test]
fn framing_round_trip() {
    let values: Vec<u64> = (1000..21000).collect();
    let framed = frame_values(&values, MAX_GROUP);
    assert!(frames_fit(&framed.control, framed.payload.len()));
    assert_eq!(decode_frames(&framed.control, &framed.payload), values);
}

#[test]
fn payload_limit_is_eight_bytes_per_value() {
    assert_eq!(payload_limit(100, 1000), 800);
    assert_eq!(payload_limit(100, 7), 56);
}

#[test]
fn fizzbuzz_rules() {
    assert_eq!(FizzBuzzMessage::new(0), FizzBuzzMessage::FizzBuzz);
    assert_eq!(FizzBuzzMessage::new(15), FizzBuzzMessage::FizzBuzz);
    assert_eq!(FizzBuzzMessage::new(3), FizzBuzzMessage::Fizz);
    assert_eq!(FizzBuzzMessage::new(9), FizzBuzzMessage::Fizz);
    assert_eq!(FizzBuzzMessage::new(5), FizzBuzzMessage::Buzz);
    assert_eq!(FizzBuzzMessage::new(10), FizzBuzzMessage::Buzz);
    assert_eq!(FizzBuzzMessage::new(7), FizzBuzzMessage::Value(7));
    assert_eq!(FizzBuzzMessage::new(u64::MAX), FizzBuzzMessage::FizzBuzz);
    assert_eq!(FizzBuzzMessage::default(), FizzBuzzMessage::FizzBuzz);
}

#[test]
fn subscribe_turns_fifteen_into_fizzbuzz() {
    let mut state = DeserializeState::new();
    let payload = serialize_numbers(&[0]);
    let words = decode_frames(&[8], &payload);
    let heart = state.absorb(StreamKind::Heartbeat, &words).unwrap();
    assert_eq!(heart.values, vec![0]);
    let mut worker = WorkerState::new();
    let values: Vec<u64> = (0..16).collect();
    let batch = worker.plan_batch(&values, expected_total(1)).unwrap();
    assert_eq!(batch.messages[15], FizzBuzzMessage::FizzBuzz);
    assert!(!batch.request_shutdown);
    worker.commit(batch.next);
    assert_eq!(worker.audit_position, 16);
}

#[test]
fn test_worker() {
    let mut worker = WorkerState::new();
    let num_beats = 4;
    let total_values = num_beats * VALUES_PER_HEARTBEAT;
    let values: Vec<u64> = (0..total_values).collect();
    let mut results: Vec<FizzBuzzMessage> = Vec::with_capacity(CHANNEL_CAPACITY);
    let mut shutdown = false;
    for chunk in values.chunks(VALUES_PER_HEARTBEAT as usize) {
        let batch = worker.plan_batch(chunk, expected_total(num_beats)).unwrap();
        worker.commit(batch.next);
        results.extend(batch.messages);
        shutdown = batch.request_shutdown;
    }
    assert_eq!(results.len(), total_values as usize, "Incorrect number of values processed");
    assert!(shutdown);
    assert_eq!(worker.heartbeats_processed, 4);
    assert_eq!(worker.values_processed, total_values);
    assert_eq!(results[3], FizzBuzzMessage::Fizz);
}

#[test]
fn worker_refuses_out_of_order() {
    let mut worker = WorkerState::new();
    let r = worker.plan_batch(&[0, 1, 2, 4], 10);
    assert_eq!(r.err(), Some(SequenceError { expected: 3, got: 4 }));
    assert_eq!(worker.audit_position, 0);
    assert_eq!(worker.heartbeats_processed, 0);
    let ok = worker.plan_batch(&[0, 1, 2], 3).unwrap();
    assert_eq!(ok.messages, vec![FizzBuzzMessage::FizzBuzz, FizzBuzzMessage::Value(1), FizzBuzzMessage::Value(2)]);
    assert!(ok.request_shutdown);
    assert_eq!(ok.next, WorkerState { heartbeats_processed: 1, values_processed: 3, audit_position: 3 });
    // Planned but not committed (the send did not happen): the batch is due again.
    assert_eq!(worker, WorkerState::new());
    let again = worker.plan_batch(&[0, 1, 2], 3).unwrap();
    worker.commit(again.next);
    assert_eq!(worker.audit_position, 3);
}

#[test]
fn expected_total_scales_beats() {
    assert_eq!(expected_total(6000), 6_000_000_000);
    assert_eq!(expected_total(0), 0);
}

#[test]
fn test_logger() {
    let mut logger = LoggerState::new();
    let logged = logger.on_message(Some(FizzBuzzMessage::Fizz));
    assert_eq!(logged, Some(FizzBuzzMessage::Fizz));
    assert_eq!(format!("Msg {:?}", logged.unwrap()), "Msg Fizz");
    let mut lines = 1;
    for i in 1..300u64 {
        if logger.on_message(Some(FizzBuzzMessage::new(i))).is_some() {
            lines += 1;
        }
    }
    assert_eq!(lines, LOG_LIMIT - 1);
    assert_eq!(logger.count, 300);
    // A wake-up without a message logs nothing but is counted.
    let mut fresh = LoggerState::new();
    assert_eq!(fresh.on_message(None), None);
    assert_eq!(fresh.count, 1);
}
