//! The relay coordinator of one transfer, as a pure state machine.
//!
//! The async side feeds it what happened (the downloader claimed the
//! session, a chunk was read, the downloader went away, ...) and performs
//! the action it answers with. Chunks are opaque to the machine: it hands
//! each one back unchanged, in the order it was read.

use vstd::prelude::*;

verus! {

/// Seconds an uploader waits for a downloader before giving up.
pub const RENDEZVOUS_TIMEOUT_SECS: u64 = 300;

/// Number of chunks the relay channel holds before a send waits.
pub const CHANNEL_CAPACITY: usize = 16;

/// Why a relay ended without delivering the whole upload.
#[derive(Clone, Copy, Debug, PartialEq, Eq, Structural)]
pub enum RelayFailure {
    /// No downloader claimed the session in time.
    Timeout,
    /// The readiness signal was dropped without being fired.
    ReadyDropped,
    /// Reading the upload body failed mid-stream.
    ReadError,
}

/// The single result a relay reports to the uploader.
#[derive(Clone, Copy, Debug, PartialEq, Eq, Structural)]
pub enum TransferOutcome {
    Success,
    Failure(RelayFailure),
}

/// Where a relay stands.
#[derive(Clone, Copy, Debug, PartialEq, Eq, Structural)]
pub enum RelayPhase {
    /// Registered, waiting for a downloader.
    PendingPair,
    /// Paired: chunks move from the upload to the download.
    Streaming,
    /// Ended normally (end of upload, or the downloader left).
    Complete,
    /// Ended in failure.
    Failed(RelayFailure),
}

/// What the async side observed.
pub enum RelayEvent<C> {
    /// The readiness signal fired: a downloader claimed the session.
    Claimed,
    /// The readiness signal was dropped unfired.
    ReadyDropped,
    /// The rendezvous timeout elapsed.
    TimedOut,
    /// A chunk of the upload body was read.
    ChunkRead(C),
    /// Sending into the channel failed: the downloader is gone.
    ConsumerGone,
    /// Reading the upload body failed.
    ReadFailed,
    /// The upload body ended.
    EndOfBody,
}

/// What the async side must do next.
pub enum RelayAction<C> {
    /// Start reading the upload body.
    ReadNext,
    /// Send this chunk into the channel, then read the next one.
    Forward(C),
    /// Stop. With `error_marker`, first put an error marker on the channel
    /// so the downloader sees the failure; then report `outcome`.
    Finish { outcome: TransferOutcome, error_marker: bool },
    /// Nothing to do: the event does not apply in this phase.
    Ignore,
}

impl RelayPhase {
    pub open spec fn is_terminal(self) -> bool {
        self is Complete || self is Failed
    }
}

/// The transition function of the relay.
pub open spec fn relay_step<C>(phase: RelayPhase, event: RelayEvent<C>) -> (RelayPhase, RelayAction<C>) {
    match phase {
        RelayPhase::PendingPair => match event {
            RelayEvent::Claimed => (RelayPhase::Streaming, RelayAction::ReadNext),
            RelayEvent::ReadyDropped => (
                RelayPhase::Failed(RelayFailure::ReadyDropped),
                RelayAction::Finish {
                    outcome: TransferOutcome::Failure(RelayFailure::ReadyDropped),
                    error_marker: false,
                },
            ),
            RelayEvent::TimedOut => (
                RelayPhase::Failed(RelayFailure::Timeout),
                RelayAction::Finish {
                    outcome: TransferOutcome::Failure(RelayFailure::Timeout),
                    error_marker: false,
                },
            ),
            _ => (phase, RelayAction::Ignore),
        },
        RelayPhase::Streaming => match event {
            RelayEvent::ChunkRead(c) => (RelayPhase::Streaming, RelayAction::Forward(c)),
            RelayEvent::ConsumerGone | RelayEvent::EndOfBody => (
                RelayPhase::Complete,
                RelayAction::Finish { outcome: TransferOutcome::Success, error_marker: false },
            ),
            RelayEvent::ReadFailed => (
                RelayPhase::Failed(RelayFailure::ReadError),
                RelayAction::Finish {
                    outcome: TransferOutcome::Failure(RelayFailure::ReadError),
                    error_marker: true,
                },
            ),
            _ => (phase, RelayAction::Ignore),
        },
        _ => (phase, RelayAction::Ignore),
    }
}

/// Takes one event in `phase` and returns the next phase with the action to
/// perform.
pub fn step<C>(phase: RelayPhase, event: RelayEvent<C>) -> (r: (RelayPhase, RelayAction<C>))
    ensures
        r == relay_step(phase, event),
{
    match phase {
        RelayPhase::PendingPair => match event {
            RelayEvent::Claimed => (RelayPhase::Streaming, RelayAction::ReadNext),
            RelayEvent::ReadyDropped => (
                RelayPhase::Failed(RelayFailure::ReadyDropped),
                RelayAction::Finish {
                    outcome: TransferOutcome::Failure(RelayFailure::ReadyDropped),
                    error_marker: false,
                },
            ),
            RelayEvent::TimedOut => (
                RelayPhase::Failed(RelayFailure::Timeout),
                RelayAction::Finish {
                    outcome: TransferOutcome::Failure(RelayFailure::Timeout),
                    error_marker: false,
                },
            ),
            _ => (phase, RelayAction::Ignore),
        },
        RelayPhase::Streaming => match event {
            RelayEvent::ChunkRead(c) => (RelayPhase::Streaming, RelayAction::Forward(c)),
            RelayEvent::ConsumerGone | RelayEvent::EndOfBody => (
                RelayPhase::Complete,
                RelayAction::Finish { outcome: TransferOutcome::Success, error_marker: false },
            ),
            RelayEvent::ReadFailed => (
                RelayPhase::Failed(RelayFailure::ReadError),
                RelayAction::Finish {
                    outcome: TransferOutcome::Failure(RelayFailure::ReadError),
                    error_marker: true,
                },
            ),
            _ => (phase, RelayAction::Ignore),
        },
        _ => (phase, RelayAction::Ignore),
    }
}

/// The phase reached and the actions produced by feeding `events`, in order,
/// to a relay that stands in `phase`.
pub open spec fn relay_run<C>(phase: RelayPhase, events: Seq<RelayEvent<C>>) -> (RelayPhase, Seq<RelayAction<C>>)
    decreases events.len(),
{
    if events.len() == 0 {
        (phase, Seq::empty())
    } else {
        let (next, action) = relay_step(phase, events[0]);
        let (last, rest) = relay_run(next, events.skip(1));
        (last, seq![action] + rest)
    }
}

/// The number of `Finish` actions, that is of outcomes reported.
pub open spec fn outcome_count<C>(actions: Seq<RelayAction<C>>) -> nat
    decreases actions.len(),
{
    if actions.len() == 0 {
        0
    } else {
        (if actions[0] is Finish { 1nat } else { 0nat }) + outcome_count(actions.skip(1))
    }
}

/// The chunks sent into the channel, in order.
pub open spec fn forwarded<C>(actions: Seq<RelayAction<C>>) -> Seq<C>
    decreases actions.len(),
{
    if actions.len() == 0 {
        Seq::empty()
    } else {
        let rest = forwarded(actions.skip(1));
        match actions[0] {
            RelayAction::Forward(c) => seq![c] + rest,
            _ => rest,
        }
    }
}

/// The chunks that `events` report read, in order.
pub open spec fn chunks_read<C>(events: Seq<RelayEvent<C>>) -> Seq<C>
    decreases events.len(),
{
    if events.len() == 0 {
        Seq::empty()
    } else {
        let rest = chunks_read(events.skip(1));
        match events[0] {
            RelayEvent::ChunkRead(c) => seq![c] + rest,
            _ => rest,
        }
    }
}

/// The events of a complete upload: a downloader claims the session, the
/// body is read chunk by chunk, and it ends.
pub open spec fn upload_events<C>(chunks: Seq<C>) -> Seq<RelayEvent<C>> {
    seq![RelayEvent::Claimed] + chunks.map_values(|c: C| RelayEvent::ChunkRead(c)) + seq![
        RelayEvent::EndOfBody,
    ]
}

/// A relay that has ended stays where it is and asks for nothing more.
pub proof fn lemma_terminal_absorbs<C>(phase: RelayPhase, events: Seq<RelayEvent<C>>)
    requires
        phase.is_terminal(),
    ensures
        relay_run(phase, events).0 == phase,
        outcome_count(relay_run(phase, events).1) == 0,
        forwarded(relay_run(phase, events).1) == Seq::<C>::empty(),
    decreases events.len(),
{
    if events.len() > 0 {
        lemma_terminal_absorbs(phase, events.skip(1));
        let actions = relay_run(phase, events).1;
        assert(actions.skip(1) =~= relay_run(phase, events.skip(1)).1);
    }
}

/// Each relay reports exactly one outcome: none while it has not ended, and
/// one once it has, however many events follow.
pub proof fn lemma_single_outcome<C>(events: Seq<RelayEvent<C>>)
    ensures
        outcome_count(relay_run(RelayPhase::PendingPair, events).1) == (if relay_run(
            RelayPhase::PendingPair,
            events,
        ).0.is_terminal() {
            1nat
        } else {
            0nat
        }),
{
    lemma_outcome_count_from(RelayPhase::PendingPair, events);
}

proof fn lemma_outcome_count_from<C>(phase: RelayPhase, events: Seq<RelayEvent<C>>)
    ensures
        outcome_count(relay_run(phase, events).1) == (if !phase.is_terminal() && relay_run(
            phase,
            events,
        ).0.is_terminal() {
            1nat
        } else {
            0nat
        }),
    decreases events.len(),
{
    if events.len() > 0 {
        let (next, action) = relay_step(phase, events[0]);
        let actions = relay_run(phase, events).1;
        assert(actions.skip(1) =~= relay_run(next, events.skip(1)).1);
        if next.is_terminal() {
            lemma_terminal_absorbs(next, events.skip(1));
        } else {
            lemma_outcome_count_from(next, events.skip(1));
        }
    }
}

proof fn lemma_streaming_forwards<C>(chunks: Seq<C>)
    ensures
        relay_run(
            RelayPhase::Streaming,
            chunks.map_values(|c: C| RelayEvent::ChunkRead(c)) + seq![RelayEvent::EndOfBody],
        ).0 == RelayPhase::Complete,
        forwarded(
            relay_run(
                RelayPhase::Streaming,
                chunks.map_values(|c: C| RelayEvent::ChunkRead(c)) + seq![RelayEvent::EndOfBody],
            ).1,
        ) == chunks,
        outcome_count(
            relay_run(
                RelayPhase::Streaming,
                chunks.map_values(|c: C| RelayEvent::ChunkRead(c)) + seq![RelayEvent::EndOfBody],
            ).1,
        ) == 1,
    decreases chunks.len(),
{
    let events = chunks.map_values(|c: C| RelayEvent::ChunkRead(c)) + seq![RelayEvent::EndOfBody];
    let actions = relay_run(RelayPhase::Streaming, events).1;
    if chunks.len() == 0 {
        assert(events =~= seq![RelayEvent::<C>::EndOfBody]);
        assert(events.skip(1) =~= Seq::<RelayEvent<C>>::empty());
        assert(relay_run(RelayPhase::Complete, events.skip(1)).1 =~= Seq::<RelayAction<C>>::empty());
        assert(actions.skip(1) =~= Seq::<RelayAction<C>>::empty());
        assert(forwarded(actions.skip(1)) =~= Seq::<C>::empty());
        assert(outcome_count(actions.skip(1)) == 0);
    } else {
        let tail = chunks.skip(1);
        let tail_events = tail.map_values(|c: C| RelayEvent::ChunkRead(c)) + seq![RelayEvent::EndOfBody];
        assert(events.skip(1) =~= tail_events);
        lemma_streaming_forwards(tail);
        assert(actions.skip(1) =~= relay_run(RelayPhase::Streaming, tail_events).1);
        assert(events[0] == RelayEvent::ChunkRead(chunks[0]));
        assert(chunks =~= seq![chunks[0]] + tail);
    }
}

/// An upload that is claimed and read to its end reaches the downloader
/// whole: the chunks sent into the channel are exactly the chunks read, in
/// the same order, and the uploader is told of success once.
pub proof fn lemma_upload_delivered<C>(chunks: Seq<C>)
    ensures
        relay_run(RelayPhase::PendingPair, upload_events(chunks)).0 == RelayPhase::Complete,
        forwarded(relay_run(RelayPhase::PendingPair, upload_events(chunks)).1) == chunks,
        outcome_count(relay_run(RelayPhase::PendingPair, upload_events(chunks)).1) == 1,
{
    let events = upload_events(chunks);
    let rest = chunks.map_values(|c: C| RelayEvent::ChunkRead(c)) + seq![RelayEvent::EndOfBody];
    assert(events.skip(1) =~= rest);
    lemma_streaming_forwards(chunks);
    let actions = relay_run(RelayPhase::PendingPair, events).1;
    assert(actions.skip(1) =~= relay_run(RelayPhase::Streaming, rest).1);
}

/// An upload that nobody claims before the rendezvous timeout fails with
/// `Timeout`, reported once, and nothing reaches the channel, whatever
/// happens afterwards.
pub proof fn lemma_unclaimed_times_out<C>(later: Seq<RelayEvent<C>>)
    ensures
        relay_run(RelayPhase::PendingPair, seq![RelayEvent::TimedOut] + later).0
            == RelayPhase::Failed(RelayFailure::Timeout),
        relay_run(RelayPhase::PendingPair, seq![RelayEvent::TimedOut] + later).1[0]
            == (RelayAction::<C>::Finish {
            outcome: TransferOutcome::Failure(RelayFailure::Timeout),
            error_marker: false,
        }),
        outcome_count(relay_run(RelayPhase::PendingPair, seq![RelayEvent::TimedOut] + later).1) == 1,
        forwarded(relay_run(RelayPhase::PendingPair, seq![RelayEvent::TimedOut] + later).1)
            == Seq::<C>::empty(),
{
    let events = seq![RelayEvent::TimedOut] + later;
    assert(events.skip(1) =~= later);
    lemma_terminal_absorbs(RelayPhase::Failed(RelayFailure::Timeout), later);
    let actions = relay_run(RelayPhase::PendingPair, events).1;
    assert(actions.skip(1) =~= relay_run(RelayPhase::Failed(RelayFailure::Timeout), later).1);
}

/// Once paired, the relay sends the downloader the chunks it reads in the
/// order it reads them, inventing, dropping and repeating none, until it
/// ends; what it sent is then a prefix of what was read, and all of it
/// when the upload ran to its end.
pub proof fn lemma_forwarded_prefix_of_read<C>(phase: RelayPhase, events: Seq<RelayEvent<C>>)
    requires
        phase == RelayPhase::Streaming || phase.is_terminal(),
    ensures
        forwarded(relay_run(phase, events).1).len() <= chunks_read(events).len(),
        forwarded(relay_run(phase, events).1) == chunks_read(events).take(
            forwarded(relay_run(phase, events).1).len() as int,
        ),
        phase == RelayPhase::Streaming && relay_run(phase, events).0 == RelayPhase::Streaming
            ==> forwarded(relay_run(phase, events).1) == chunks_read(events),
    decreases events.len(),
{
    let (last, actions) = relay_run(phase, events);
    if phase.is_terminal() {
        lemma_terminal_absorbs(phase, events);
        assert(chunks_read(events).take(0) =~= Seq::<C>::empty());
    } else if events.len() == 0 {
        assert(chunks_read(events).take(0) =~= Seq::<C>::empty());
    } else {
        let (next, action) = relay_step(phase, events[0]);
        let rest = events.skip(1);
        assert(actions.skip(1) =~= relay_run(next, rest).1);
        lemma_forwarded_prefix_of_read(next, rest);
        let f = forwarded(relay_run(next, rest).1);
        let r = chunks_read(rest);
        match events[0] {
            RelayEvent::ChunkRead(c) => {
                assert(forwarded(actions) =~= seq![c] + f);
                assert(chunks_read(events) =~= seq![c] + r);
                assert(chunks_read(events).take(f.len() as int + 1) =~= seq![c] + r.take(f.len() as int));
            },
            _ => {
                assert(forwarded(actions) =~= f);
                assert(chunks_read(events) =~= r);
                if next.is_terminal() {
                    lemma_terminal_absorbs(next, rest);
                }
            },
        }
    }
}

} // verus!
