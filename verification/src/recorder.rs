//! Recording: the decisions of the capture loop, one read attempt at a time,
//! and the loop itself over a store in memory.

use vstd::prelude::*;
use crate::codec::encoded;
use crate::journal::{has_key, lemma_put_facts, put, Pairs};
use crate::pgn_of;
use crate::store::Store;

verus! {

/// Where a recording stands.
#[derive(Debug, Clone, Copy, PartialEq, Eq, Structural)]
pub enum Phase {
    /// Not started.
    Idle,
    /// Reading frames.
    Capturing,
    /// Stopped: the limit of frames is reached.
    LimitReached,
    /// Stopped: the caller cancelled.
    Cancelled,
    /// Stopped: a read failed for good.
    Failed,
}

/// What one read attempt on the bus gave.
#[derive(Debug)]
pub enum ReadOutcome {
    /// A frame, with the capture key it was given.
    Frame { key: u128, id: u32, payload: Vec<u8> },
    /// Nothing within the timeout, or an interrupted read: try again.
    Transient,
    /// Any other failure.
    Fatal,
}

/// A read outcome with its payload as a sequence of bytes.
pub enum Read {
    Frame { key: u128, id: u32, payload: Seq<u8> },
    Transient,
    Fatal,
}

impl View for ReadOutcome {
    type V = Read;

    open spec fn view(&self) -> Read {
        match self {
            ReadOutcome::Frame { key, id, payload } => Read::Frame {
                key: *key,
                id: *id,
                payload: payload@,
            },
            ReadOutcome::Transient => Read::Transient,
            ReadOutcome::Fatal => Read::Fatal,
        }
    }
}

/// What the caller does after a read attempt.
#[derive(Debug, Clone, Copy, PartialEq, Eq, Structural)]
pub enum Action {
    /// Store the frame in the journal and in its PGN's index.
    Store,
    /// Read again; nothing was captured.
    Retry,
    /// Give up and report the failure.
    Abort,
    /// Nothing: the recorder is not capturing.
    Rest,
}

/// The state of a recording.
#[derive(Debug, Clone, Copy, PartialEq, Eq, Structural)]
pub struct Recorder {
    pub phase: Phase,
    /// Frames captured so far; retried reads do not count.
    pub captured: usize,
    /// Stop once this many frames are captured.
    pub limit: Option<usize>,
}

/// The limit is reached with `captured` frames.
pub open spec fn limit_met(limit: Option<usize>, captured: int) -> bool {
    limit is Some && captured >= limit->Some_0
}

/// The count after one more frame; it stays at the largest value that the
/// machine can hold.
pub open spec fn one_more(captured: usize) -> usize {
    if captured < usize::MAX {
        (captured + 1) as usize
    } else {
        captured
    }
}

impl Recorder {
    /// The state after a read attempt gave `read`.
    pub open spec fn after(self, read: Read) -> Recorder {
        if self.phase != Phase::Capturing {
            self
        } else {
            match read {
                Read::Transient => self,
                Read::Fatal => Recorder { phase: Phase::Failed, ..self },
                Read::Frame { .. } => Recorder {
                    phase: if limit_met(self.limit, one_more(self.captured) as int) {
                        Phase::LimitReached
                    } else {
                        Phase::Capturing
                    },
                    captured: one_more(self.captured),
                    limit: self.limit,
                },
            }
        }
    }

    /// What the caller does after a read attempt gave `read`.
    pub open spec fn action_for(self, read: Read) -> Action {
        if self.phase != Phase::Capturing {
            Action::Rest
        } else {
            match read {
                Read::Transient => Action::Retry,
                Read::Fatal => Action::Abort,
                Read::Frame { .. } => Action::Store,
            }
        }
    }

    /// A recorder that has not started.
    pub fn new(limit: Option<usize>) -> (r: Recorder)
        ensures
            r == (Recorder { phase: Phase::Idle, captured: 0, limit }),
    {
        Recorder { phase: Phase::Idle, captured: 0, limit }
    }

    /// Starts capturing. A recorder that has started already is left as it
    /// is.
    pub fn start(&mut self)
        ensures
            old(self).phase == Phase::Idle ==> *final(self) == (Recorder {
                phase: Phase::Capturing,
                ..*old(self)
            }),
            old(self).phase != Phase::Idle ==> *final(self) == *old(self),
    {
        if self.phase == Phase::Idle {
            self.phase = Phase::Capturing;
        }
    }

    /// Polls the cancellation flag, once per pass of the loop and before the
    /// read: a capturing recorder stops when the flag is set. Returns whether
    /// to read on.
    pub fn poll(&mut self, cancelled: bool) -> (go_on: bool)
        ensures
            old(self).phase == Phase::Capturing && cancelled ==> *final(self) == (Recorder {
                phase: Phase::Cancelled,
                ..*old(self)
            }),
            !(old(self).phase == Phase::Capturing && cancelled) ==> *final(self) == *old(self),
            go_on == (final(self).phase == Phase::Capturing),
    {
        if self.phase == Phase::Capturing && cancelled {
            self.phase = Phase::Cancelled;
        }
        self.phase == Phase::Capturing
    }

    /// Takes the outcome of one read attempt. A frame counts and is to be
    /// stored, and the recording stops when the count has reached the limit;
    /// a transient failure changes nothing; any other failure ends the
    /// recording.
    pub fn step(&mut self, outcome: &ReadOutcome) -> (action: Action)
        ensures
            *final(self) == old(self).after(outcome@),
            action == old(self).action_for(outcome@),
    {
        if self.phase != Phase::Capturing {
            return Action::Rest;
        }
        match outcome {
            ReadOutcome::Transient => Action::Retry,
            ReadOutcome::Fatal => {
                self.phase = Phase::Failed;
                Action::Abort
            },
            ReadOutcome::Frame { .. } => {
                if self.captured < usize::MAX {
                    self.captured = self.captured + 1;
                }
                match self.limit {
                    Some(c) => {
                        if self.captured >= c {
                            self.phase = Phase::LimitReached;
                        }
                    },
                    None => {},
                }
                Action::Store
            },
        }
    }
}

/// The read outcomes as plain values.
pub open spec fn views(reads: Seq<ReadOutcome>) -> Seq<Read> {
    reads.map_values(|r: ReadOutcome| r@)
}

/// The number of frames among the first `n` read outcomes.
pub open spec fn frames_in(reads: Seq<Read>, n: int) -> int
    decreases n,
{
    if n <= 0 {
        0
    } else {
        frames_in(reads, n - 1) + if reads[n - 1] is Frame {
            1int
        } else {
            0int
        }
    }
}

/// The recording ends with read `i`: it failed for good, or it gave the
/// frame that reaches the limit.
pub open spec fn stops_after(reads: Seq<Read>, limit: Option<usize>, i: int) -> bool {
    reads[i] is Fatal || (reads[i] is Frame && limit_met(limit, frames_in(reads, i + 1)))
}

/// The journal after the frames among the first `n` read outcomes are
/// stored.
pub open spec fn journal_after(journal: Pairs, reads: Seq<Read>, n: int) -> Pairs
    decreases n,
{
    if n <= 0 {
        journal
    } else {
        let before = journal_after(journal, reads, n - 1);
        match reads[n - 1] {
            Read::Frame { key, id, payload } => put(before, key, encoded(id, payload)),
            _ => before,
        }
    }
}

/// The index of `pgn` after the frames of that PGN among the first `n` read
/// outcomes are stored.
pub open spec fn index_after(index: Pairs, pgn: u32, reads: Seq<Read>, n: int) -> Pairs
    decreases n,
{
    if n <= 0 {
        index
    } else {
        let before = index_after(index, pgn, reads, n - 1);
        match reads[n - 1] {
            Read::Frame { key, id, payload } => if pgn_of(id) == pgn {
                put(before, key, encoded(id, payload))
            } else {
                before
            },
            _ => before,
        }
    }
}

/// The PGNs with an index after the frames among the first `n` read outcomes
/// are stored: each new PGN is added behind those that were there.
pub open spec fn pgns_after(pgns: Seq<u32>, reads: Seq<Read>, n: int) -> Seq<u32>
    decreases n,
{
    if n <= 0 {
        pgns
    } else {
        let before = pgns_after(pgns, reads, n - 1);
        match reads[n - 1] {
            Read::Frame { key, id, payload } => if before.contains(pgn_of(id)) {
                before
            } else {
                before.push(pgn_of(id))
            },
            _ => before,
        }
    }
}

/// No two frames share a capture key, among themselves or with a frame of
/// the journal.
pub open spec fn keys_distinct(journal: Pairs, reads: Seq<Read>) -> bool {
    &&& forall|i: int, j: int|
        0 <= i < j < reads.len() && reads[i] is Frame && reads[j] is Frame ==> reads[i]->key
            != reads[j]->key
    &&& forall|k: int, i: int|
        0 <= k < journal.len() && 0 <= i < reads.len() && reads[i] is Frame ==> journal[k].0
            != reads[i]->key
}

/// A PGN that no frame among the first `n` read outcomes carries keeps its
/// index as it was: nothing is recorded for it.
pub proof fn lemma_index_untouched(index: Pairs, pgn: u32, reads: Seq<Read>, n: int)
    requires
        0 <= n <= reads.len(),
        forall|i: int| 0 <= i < n && reads[i] is Frame ==> pgn_of(reads[i]->id) != pgn,
    ensures
        index_after(index, pgn, reads, n) == index,
    decreases n,
{
    if n > 0 {
        lemma_index_untouched(index, pgn, reads, n - 1);
    }
}

/// How a recording ended.
#[derive(Debug, Clone, Copy, PartialEq, Eq, Structural)]
pub struct Summary {
    /// Why it stopped.
    pub phase: Phase,
    /// Frames captured.
    pub captured: usize,
    /// Read attempts made.
    pub consumed: usize,
    /// PGNs with an index in the store.
    pub pgns: usize,
}

/// Records into `store` from the outcomes of successive read attempts, which
/// end where the caller cancelled. Each frame is stored in the journal and
/// in its PGN's index; transient failures are passed over; the recording
/// stops with the first fatal failure, or with the frame that reaches the
/// limit, and is cancelled when the outcomes run out before that.
pub fn record(store: &mut Store, limit: Option<usize>, reads: &Vec<ReadOutcome>) -> (summary:
    Summary)
    requires
        old(store).wf(),
    ensures
        final(store).wf(),
        summary.consumed <= reads@.len(),
        forall|i: int| 0 <= i < summary.consumed - 1 ==> !stops_after(views(reads@), limit, i),
        summary.consumed < reads@.len() ==> summary.consumed > 0 && stops_after(
            views(reads@),
            limit,
            summary.consumed - 1,
        ),
        summary.captured == frames_in(views(reads@), summary.consumed as int),
        summary.phase == if summary.consumed > 0 && stops_after(
            views(reads@),
            limit,
            summary.consumed - 1,
        ) {
            if views(reads@)[summary.consumed - 1] is Fatal {
                Phase::Failed
            } else {
                Phase::LimitReached
            }
        } else {
            Phase::Cancelled
        },
        final(store).journal() == journal_after(
            old(store).journal(),
            views(reads@),
            summary.consumed as int,
        ),
        forall|q: u32| #[trigger]
            final(store).index(q) == index_after(
                old(store).index(q),
                q,
                views(reads@),
                summary.consumed as int,
            ),
        final(store).pgns() == pgns_after(
            old(store).pgns(),
            views(reads@),
            summary.consumed as int,
        ),
        summary.pgns == final(store).pgns().len(),
        old(store).mirrored() && keys_distinct(old(store).journal(), views(reads@))
            ==> final(store).mirrored() && final(store).journal().len() == summary.captured
            + old(store).journal().len(),
{
    let ghost rs = views(reads@);
    let ghost start = *store;
    let mut recorder = Recorder::new(limit);
    recorder.start();
    let mut at: usize = 0;
    while at < reads.len() && recorder.phase == Phase::Capturing
        invariant
            at <= reads@.len(),
            rs == views(reads@),
            rs.len() == reads@.len(),
            start == *old(store),
            store.wf(),
            recorder.limit == limit,
            recorder.captured == frames_in(rs, at as int),
            recorder.captured <= at,
            forall|i: int| 0 <= i < at - 1 ==> !stops_after(rs, limit, i),
            recorder.phase == Phase::Capturing ==> (at > 0 ==> !stops_after(rs, limit, at - 1)),
            recorder.phase != Phase::Capturing ==> at > 0 && stops_after(rs, limit, at - 1)
                && recorder.phase == if rs[at - 1] is Fatal {
                Phase::Failed
            } else {
                Phase::LimitReached
            },
            store.journal() == journal_after(start.journal(), rs, at as int),
            forall|q: u32| #[trigger]
                store.index(q) == index_after(start.index(q), q, rs, at as int),
            store.pgns() == pgns_after(start.pgns(), rs, at as int),
            start.mirrored() && keys_distinct(start.journal(), rs) ==> store.mirrored()
                && store.journal().len() == start.journal().len() + recorder.captured
                && forall|k: int, i: int|
                0 <= k < store.journal().len() && at <= i < rs.len() && rs[i] is Frame
                    ==> store.journal()[k].0 != rs[i]->key,
        decreases reads@.len() - at,
    {
        let ghost before = *store;
        let outcome = &reads[at];
        assert(rs[at as int] == outcome@);
        match (recorder.step(outcome), outcome) {
            (Action::Store, ReadOutcome::Frame { key, id, payload }) => {
                proof {
                    if start.mirrored() && keys_distinct(start.journal(), rs) {
                        assert(!has_key(before.journal(), *key)) by {
                            if has_key(before.journal(), *key) {
                                let k = choose|k: int|
                                    0 <= k < before.journal().len() && before.journal()[k].0
                                        == *key;
                                assert(before.journal()[k].0 != rs[at as int]->key);
                            }
                        }
                    }
                    lemma_put_facts(before.journal(), *key, encoded(*id, payload@));
                    before.lemma_knows_is_listed(pgn_of(*id));
                }
                store.record_frame(*key, *id, payload.as_slice());
                proof {
                    let e = (*key, encoded(*id, payload@));
                    if start.mirrored() && keys_distinct(start.journal(), rs) {
                        assert forall|k: int, i: int|
                            0 <= k < store.journal().len() && at + 1 <= i < rs.len()
                                && rs[i] is Frame implies store.journal()[k].0 != rs[i]->key by {
                            let x = store.journal()[k];
                            assert(store.journal().contains(x));
                            if x != e {
                                assert(before.journal().contains(x));
                                let k0 = choose|k0: int|
                                    0 <= k0 < before.journal().len() && before.journal()[k0] == x;
                                assert(before.journal()[k0].0 != rs[i]->key);
                            }
                        }
                    }
                }
            },
            _ => {},
        }
        at += 1;
    }
    if recorder.phase == Phase::Capturing {
        let _ = recorder.poll(true);
    }
    let names = store.list_pgn_names();
    Summary { phase: recorder.phase, captured: recorder.captured, consumed: at, pgns: names.len() }
}

} // verus!
