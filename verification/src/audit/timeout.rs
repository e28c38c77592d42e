//! The buffered sink: what a hand-off to a bounded buffer means to the writer.

use super::writer::SinkError;
use vstd::prelude::*;
use vstd::string::*;

verus! {

/// The number of events buffered per sink before new ones are dropped.
pub const DEFAULT_CAPACITY: usize = 1024;

/// How handing an event to the buffer of a sink ended.
#[derive(Clone, Copy, Debug, PartialEq, Eq, Structural)]
pub enum HandOff {
    /// The event is in the buffer.
    Queued,
    /// The buffer is full.
    Full,
    /// The worker behind the buffer is gone.
    Gone,
    /// The sink was closed.
    Closed,
    /// The sender's lock is poisoned.
    Poisoned,
}

/// A sink whose events go through a bounded buffer, so that it never blocks the writer.
#[derive(Clone, Copy, Debug)]
pub struct TimeoutSink {
    /// The name of the sink behind the buffer.
    pub name: &'static str,
    /// The number of events that the buffer holds.
    pub capacity: usize,
}

impl TimeoutSink {
    /// The sink with the default capacity.
    pub fn new(name: &'static str) -> (r: Self)
        ensures
            r.name@ == name@,
            r.capacity == DEFAULT_CAPACITY,
    {
        TimeoutSink::with_capacity(name, DEFAULT_CAPACITY)
    }

    /// The sink with an explicit capacity, at least one.
    pub fn with_capacity(name: &'static str, capacity: usize) -> (r: Self)
        ensures
            r.name@ == name@,
            r.capacity == if capacity == 0 {
                1
            } else {
                capacity
            },
    {
        TimeoutSink {
            name,
            capacity: if capacity == 0 {
                1
            } else {
                capacity
            },
        }
    }

    /// What the writer is told of a hand-off: only a queued event is a success.
    pub fn answer(&self, how: HandOff) -> (r: Result<(), SinkError>)
        ensures
            r is Ok <==> how is Queued,
            r matches Err(e) ==> e.sink@ == self.name@ && e.message@ == match how {
                HandOff::Full => "buffer full; event dropped"@,
                HandOff::Gone => "worker gone"@,
                HandOff::Closed => "sink closed"@,
                _ => "sender poisoned"@,
            },
    {
        let message = match how {
            HandOff::Queued => {
                return Ok(());
            },
            HandOff::Full => "buffer full; event dropped",
            HandOff::Gone => "worker gone",
            HandOff::Closed => "sink closed",
            HandOff::Poisoned => "sender poisoned",
        };
        Err(SinkError { sink: self.name, message: message.to_owned() })
    }
}

} // verus!
