//! The session reader's decision logic.
//!
//! A dedicated host thread performs blocking reads from the pseudoterminal
//! master descriptor and hands each outcome to `reader_step`, which updates
//! the shared terminal buffer and tells the host what to do next: keep
//! reading, reap the child and stop (end of stream), or just stop (read
//! error, keeping whatever was read so far).

use vstd::prelude::*;
use crate::buffer::{TermBuffer, utf8_lossy};

verus! {

/// One outcome of a blocking read from the pseudoterminal master.
pub enum ReadEvent {
    /// A read returned these bytes (a successful read of nonzero length).
    Data(Vec<u8>),
    /// A read returned zero bytes: the remote end closed.
    Eof,
    /// A read failed.
    ReadError,
}

/// What the reader thread must do after handling one event.
#[derive(Clone, Copy, PartialEq, Eq, Structural, Debug)]
pub enum ReaderAction {
    /// Issue the next blocking read.
    KeepReading,
    /// Block until the child process exits, discard its status, and stop.
    ReapChildAndStop,
    /// Stop reading; the buffer keeps whatever was read so far.
    StopReading,
}

impl ReaderAction {
    /// Whether the reader thread terminates on this action.
    pub open spec fn stops(self) -> bool {
        self != ReaderAction::KeepReading
    }
}

/// Handles one read outcome: data is decoded and appended to the shared
/// buffer, end of stream reaps the child, a read error only stops the
/// thread. The buffer changes exactly on data events, by exactly the
/// decoded bytes, in the order the events arrive.
pub fn reader_step(buf: &mut TermBuffer, event: &ReadEvent) -> (action: ReaderAction)
    ensures
        match event {
            ReadEvent::Data(bytes) => final(buf)@ == old(buf)@ + utf8_lossy(bytes@) && action
                == ReaderAction::KeepReading,
            ReadEvent::Eof => final(buf)@ == old(buf)@ && action == ReaderAction::ReapChildAndStop,
            ReadEvent::ReadError => final(buf)@ == old(buf)@ && action
                == ReaderAction::StopReading,
        },
{
    match event {
        ReadEvent::Data(bytes) => {
            buf.append_bytes(bytes.as_slice());
            ReaderAction::KeepReading
        },
        ReadEvent::Eof => ReaderAction::ReapChildAndStop,
        ReadEvent::ReadError => ReaderAction::StopReading,
    }
}

} // verus!
