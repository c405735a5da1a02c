//! Playback: the journal's frames, in the order of their keys, as the bus
//! will carry them.

use vstd::prelude::*;
use crate::codec::{be4_value, decode, encoded, lemma_decode_encode};
use crate::journal::Tree;

verus! {

/// Longest payload of a classic CAN frame.
pub const MAX_PAYLOAD: usize = 8;

/// Highest arbitration ID of the extended frame format: 29 bits.
pub const MAX_ID: u32 = 0x1FFF_FFFF;

/// A frame as the bus carries it.
#[derive(Debug)]
pub struct Frame {
    pub id: u32,
    pub payload: Vec<u8>,
}

impl View for Frame {
    type V = (u32, Seq<u8>);

    open spec fn view(&self) -> (u32, Seq<u8>) {
        (self.id, self.payload@)
    }
}

/// Why a frame cannot go on the bus.
#[derive(Debug, Clone, Copy, PartialEq, Eq, Structural)]
pub enum FrameFault {
    /// The payload is longer than eight bytes.
    TooMuchData,
    /// The arbitration ID needs more than 29 bits.
    IdTooLarge,
}

/// Why playback stopped.
#[derive(Debug, Clone, Copy, PartialEq, Eq, Structural)]
pub enum PlaybackError {
    /// The record under this key is shorter than an arbitration ID.
    CorruptRecord { key: u128 },
    /// The record under this key decodes to a frame that the bus cannot carry.
    Unsendable { key: u128, fault: FrameFault },
}

/// What a stored record gives on playback.
pub open spec fn replayed(record: Seq<u8>) -> Result<(u32, Seq<u8>), Option<FrameFault>> {
    if record.len() < 4 {
        Err(None)
    } else if record.len() > 12 {
        Err(Some(FrameFault::TooMuchData))
    } else if be4_value(record) > 0x1FFF_FFFF {
        Err(Some(FrameFault::IdTooLarge))
    } else {
        Ok((be4_value(record), record.subrange(4, record.len() as int)))
    }
}

/// The playback error for the record under `key`.
pub open spec fn playback_error(key: u128, fault: Option<FrameFault>) -> PlaybackError {
    match fault {
        None => PlaybackError::CorruptRecord { key },
        Some(f) => PlaybackError::Unsendable { key, fault: f },
    }
}

/// A frame that the bus can carry is replayed from its record as it was
/// recorded: the same ID and the same payload.
pub proof fn lemma_replay_of_encoded(id: u32, payload: Seq<u8>)
    requires
        id <= 0x1FFF_FFFF,
        payload.len() <= 8,
    ensures
        replayed(encoded(id, payload)) is Ok,
        replayed(encoded(id, payload))->Ok_0 == (id, payload),
{
    lemma_decode_encode(id, payload);
}

/// Builds the bus frame with `socketcan::CANFrame::new`, as a data frame
/// without the remote and error flags, and reads its ID and data back with
/// `CANFrame::id` and `CANFrame::data`. The constructor refuses more than
/// eight bytes of data first, then an ID above 29 bits; what it accepts, the
/// frame gives back unchanged.
#[verifier::external_body]
fn can_frame(id: u32, data: &[u8]) -> (r: Result<Frame, FrameFault>)
    ensures
        data@.len() > 8 ==> r is Err && r->Err_0 == FrameFault::TooMuchData,
        data@.len() <= 8 && id > 0x1FFF_FFFF ==> r is Err && r->Err_0 == FrameFault::IdTooLarge,
        data@.len() <= 8 && id <= 0x1FFF_FFFF ==> r is Ok && r->Ok_0@ == (id, data@),
{
    match socketcan::CANFrame::new(id, data, false, false) {
        Ok(f) => Ok(Frame { id: f.id(), payload: f.data().to_vec() }),
        Err(socketcan::ConstructionError::TooMuchData) => Err(FrameFault::TooMuchData),
        Err(socketcan::ConstructionError::IDTooLarge) => Err(FrameFault::IdTooLarge),
    }
}

/// The bus frame of one stored record.
pub fn frame_of(key: u128, record: &[u8]) -> (r: Result<Frame, PlaybackError>)
    ensures
        match replayed(record@) {
            Ok(f) => r is Ok && r->Ok_0@ == f,
            Err(fault) => r is Err && r->Err_0 == playback_error(key, fault),
        },
{
    match decode(record) {
        Err(_) => Err(PlaybackError::CorruptRecord { key }),
        Ok((id, payload)) => {
            match can_frame(id, payload.as_slice()) {
                Ok(frame) => Ok(frame),
                Err(fault) => Err(PlaybackError::Unsendable { key, fault }),
            }
        },
    }
}

/// The frames to emit: one per journal entry, in ascending order of the
/// keys, each with the ID and payload that were recorded. Playback fails at
/// the first record that gives no frame, with that record's key. The pause
/// between frames is the caller's and has no part in what is emitted.
pub fn playback(journal: &Tree) -> (r: Result<Vec<Frame>, PlaybackError>)
    ensures
        r is Ok <==> forall|i: int|
            0 <= i < journal@.len() ==> replayed(#[trigger] journal@[i].1) is Ok,
        r is Ok ==> r->Ok_0@.len() == journal@.len() && forall|i: int|
            0 <= i < journal@.len() ==> replayed(journal@[i].1)->Ok_0 == #[trigger] r->Ok_0@[i]@,
        r is Err ==> exists|i: int|
            0 <= i < journal@.len() && replayed(#[trigger] journal@[i].1) is Err && r->Err_0
                == playback_error(journal@[i].0, replayed(journal@[i].1)->Err_0) && forall|j: int|
                0 <= j < i ==> replayed(#[trigger] journal@[j].1) is Ok,
{
    let mut frames: Vec<Frame> = Vec::new();
    let mut at: usize = 0;
    while at < journal.count()
        invariant
            at <= journal@.len(),
            frames@.len() == at,
            forall|i: int| 0 <= i < at ==> replayed(#[trigger] journal@[i].1) is Ok,
            forall|i: int|
                0 <= i < at ==> replayed(journal@[i].1)->Ok_0 == #[trigger] frames@[i]@,
        decreases journal@.len() - at,
    {
        let entry = journal.entry(at);
        match frame_of(entry.key, entry.record.as_slice()) {
            Ok(frame) => {
                frames.push(frame);
            },
            Err(e) => {
                assert(replayed(journal@[at as int].1) is Err);
                return Err(e);
            },
        }
        at += 1;
    }
    Ok(frames)
}

} // verus!
