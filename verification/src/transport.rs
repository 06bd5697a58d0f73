//! The byte-stream capability the protocol engine talks through.
//!
//! A transport is an already-open, exclusively-owned bidirectional byte
//! stream with blocking reads under a short fixed timeout.  Its ghost
//! model is the log of messages exchanged so far: every write appends a
//! `Sent` entry holding exactly the bytes handed over, every read appends
//! a `Recv` entry holding exactly the bytes that came back.  The
//! contracts of the session functions are stated over this log, which
//! makes the command framing byte-exact.

use vstd::prelude::*;

use crate::M65Error;

verus! {

/// One entry of a transport's exchange log.
#[verifier::ext_equal]
pub enum WireEvent {
    /// The engine wrote these bytes to the device.
    Sent(Seq<u8>),
    /// The device handed these bytes back.
    Recv(Seq<u8>),
}

/// A bidirectional byte stream plus the fixed delays the protocol needs.
///
/// The library ships no implementation that performs real I/O; an
/// application supplies an adapter over its serial line, and tests supply
/// in-memory doubles.  Delays are routed through the transport so that a
/// real adapter can sleep while a test double uses a zero clock.
pub trait Transport: Sized {
    /// The messages exchanged so far, newest last.
    ///
    /// The default stands for implementations outside the verifier's
    /// reach, which carry no ghost state; a verified implementation
    /// defines its own log.
    open spec fn log(&self) -> Seq<WireEvent> {
        Seq::empty()
    }

    /// Write all of `data`, blocking until it is handed off.
    ///
    /// A failed write logs no message: the log records completed
    /// exchanges only, so a failure leaves it as it was.
    fn write_bytes(&mut self, data: &[u8]) -> (r: Result<(), M65Error>)
        ensures
            r is Ok ==> final(self).log() == old(self).log().push(WireEvent::Sent(data@)),
            r is Err ==> r->Err_0 == M65Error::Transport && final(self).log() == old(self).log(),
    ;

    /// Read up to `max` bytes, blocking until the read timeout passes.
    /// Fewer bytes than `max`, or none, mean the device sent no more.
    /// A failed read logs no message.
    fn read_bytes(&mut self, max: usize) -> (r: Result<Vec<u8>, M65Error>)
        ensures
            r is Ok ==> r->Ok_0@.len() <= max && final(self).log() == old(self).log().push(
                WireEvent::Recv(r->Ok_0@),
            ),
            r is Err ==> r->Err_0 == M65Error::Transport && final(self).log() == old(self).log(),
    ;

    /// Let the given number of milliseconds pass.
    fn wait_ms(&mut self, ms: u64)
        ensures
            final(self).log() == old(self).log(),
    ;
}

} // verus!
