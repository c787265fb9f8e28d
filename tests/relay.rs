use beam::{step, RelayAction, RelayEvent, RelayFailure, RelayPhase, TransferOutcome};

/// Drives the relay over a whole upload and returns the bytes sent into the
/// channel, the outcomes reported and the final phase.
fn run_upload(chunks: Vec<Vec<u8>>) -> (Vec<u8>, Vec<TransferOutcome>, RelayPhase) {
    let mut events = vec![RelayEvent::Claimed];
    for c in chunks {
        events.push(RelayEvent::ChunkRead(c));
    }
    events.push(RelayEvent::EndOfBody);
    let mut phase = RelayPhase::PendingPair;
    let mut delivered = Vec::new();
    let mut outcomes = Vec::new();
    for event in events {
        let (next, action) = step(phase, event);
        phase = next;
        match action {
            RelayAction::Forward(c) => delivered.extend_from_slice(&c),
            RelayAction::Finish { outcome, .. } => outcomes.push(outcome),
            _ => {}
        }
    }
    (delivered, outcomes, phase)
}

#[test]
fn upload_of_text_arrives_whole() {
    let content = b"Hello, world!".to_vec();
    let (delivered, outcomes, phase) = run_upload(vec![content[..5].to_vec(), content[5..].to_vec()]);
    assert_eq!(delivered, content);
    assert_eq!(outcomes, vec![TransferOutcome::Success]);
    assert_eq!(phase, RelayPhase::Complete);
}

#[test]
fn empty_upload_arrives_empty() {
    let (delivered, outcomes, phase) = run_upload(vec![]);
    assert!(delivered.is_empty());
    assert_eq!(outcomes, vec![TransferOutcome::Success]);
    assert_eq!(phase, RelayPhase::Complete);
}

#[test]
fn large_binary_upload_arrives_whole() {
    let content: Vec<u8> = (0..200 * 1024u32).map(|i| ((i * 7 + 3) % 256) as u8).collect();
    assert!(String::from_utf8(content.clone()).is_err());
    let chunks: Vec<Vec<u8>> = content.chunks(1024).map(|c| c.to_vec()).collect();
    let (delivered, outcomes, _) = run_upload(chunks);
    assert_eq!(delivered, content);
    assert_eq!(outcomes.len(), 1);
}

#[test]
fn claim_starts_streaming() {
    let (phase, action) = step::<Vec<u8>>(RelayPhase::PendingPair, RelayEvent::Claimed);
    assert_eq!(phase, RelayPhase::Streaming);
    assert!(matches!(action, RelayAction::ReadNext));
}

#[test]
fn unclaimed_upload_times_out() {
    let (phase, action) = step::<Vec<u8>>(RelayPhase::PendingPair, RelayEvent::TimedOut);
    assert_eq!(phase, RelayPhase::Failed(RelayFailure::Timeout));
    assert!(matches!(
        action,
        RelayAction::Finish { outcome: TransferOutcome::Failure(RelayFailure::Timeout), error_marker: false }
    ));
    let (again, later) = step(phase, RelayEvent::ChunkRead(vec![1u8]));
    assert_eq!(again, phase);
    assert!(matches!(later, RelayAction::Ignore));
}

#[test]
fn dropped_ready_signal_fails() {
    let (phase, action) = step::<Vec<u8>>(RelayPhase::PendingPair, RelayEvent::ReadyDropped);
    assert_eq!(phase, RelayPhase::Failed(RelayFailure::ReadyDropped));
    assert!(matches!(
        action,
        RelayAction::Finish { outcome: TransferOutcome::Failure(RelayFailure::ReadyDropped), error_marker: false }
    ));
}

#[test]
fn downloader_leaving_is_success() {
    let (phase, action) = step::<Vec<u8>>(RelayPhase::Streaming, RelayEvent::ConsumerGone);
    assert_eq!(phase, RelayPhase::Complete);
    assert!(matches!(action, RelayAction::Finish { outcome: TransferOutcome::Success, error_marker: false }));
}

#[test]
fn read_error_puts_marker_and_fails() {
    let (phase, action) = step::<Vec<u8>>(RelayPhase::Streaming, RelayEvent::ReadFailed);
    assert_eq!(phase, RelayPhase::Failed(RelayFailure::ReadError));
    assert!(matches!(
        action,
        RelayAction::Finish { outcome: TransferOutcome::Failure(RelayFailure::ReadError), error_marker: true }
    ));
}

#[test]
fn chunk_is_forwarded_unchanged() {
    let (phase, action) = step(RelayPhase::Streaming, RelayEvent::ChunkRead(vec![0xffu8, 0x00, 0xfe]));
    assert_eq!(phase, RelayPhase::Streaming);
    match action {
        RelayAction::Forward(c) => assert_eq!(c, vec![0xffu8, 0x00, 0xfe]),
        _ => panic!("expected a forward"),
    }
}

#[test]
fn events_out_of_phase_are_ignored() {
    let (phase, action) = step(RelayPhase::PendingPair, RelayEvent::ChunkRead(vec![1u8]));
    assert_eq!(phase, RelayPhase::PendingPair);
    assert!(matches!(action, RelayAction::Ignore));
    let (phase, action) = step::<Vec<u8>>(RelayPhase::Streaming, RelayEvent::TimedOut);
    assert_eq!(phase, RelayPhase::Streaming);
    assert!(matches!(action, RelayAction::Ignore));
    let (phase, action) = step::<Vec<u8>>(RelayPhase::Complete, RelayEvent::EndOfBody);
    assert_eq!(phase, RelayPhase::Complete);
    assert!(matches!(action, RelayAction::Ignore));
}

#[test]
fn only_one_outcome_after_read_error() {
    let mut phase = RelayPhase::PendingPair;
    let mut outcomes = 0;
    let events = vec![
        RelayEvent::Claimed,
        RelayEvent::ChunkRead(vec![1u8]),
        RelayEvent::ReadFailed,
        RelayEvent::EndOfBody,
        RelayEvent::ConsumerGone,
    ];
    for e in events {
        let (next, action) = step(phase, e);
        phase = next;
        if matches!(action, RelayAction::Finish { .. }) {
            outcomes += 1;
        }
    }
    assert_eq!(outcomes, 1);
    assert_eq!(phase, RelayPhase::Failed(RelayFailure::ReadError));
}

#[test]
fn downloader_leaving_mid_stream_gets_a_prefix() {
    let events = vec![
        RelayEvent::Claimed,
        RelayEvent::ChunkRead(vec![1u8, 2]),
        RelayEvent::ChunkRead(vec![3u8]),
        RelayEvent::ConsumerGone,
        RelayEvent::ChunkRead(vec![4u8]),
    ];
    let mut phase = RelayPhase::PendingPair;
    let mut delivered = Vec::new();
    let mut outcomes = Vec::new();
    for e in events {
        let (next, action) = step(phase, e);
        phase = next;
        match action {
            RelayAction::Forward(c) => delivered.extend_from_slice(&c),
            RelayAction::Finish { outcome, .. } => outcomes.push(outcome),
            _ => {}
        }
    }
    assert_eq!(delivered, vec![1u8, 2, 3]);
    assert_eq!(outcomes, vec![TransferOutcome::Success]);
    assert_eq!(phase, RelayPhase::Complete);
}
