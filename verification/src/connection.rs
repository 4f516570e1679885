//! The per-connection state machine: phases {Reading, Writing, Flushing},
//! advanced by one bounded unit of I/O per call. The I/O itself happens
//! outside this library; each of its observable results reaches the machine
//! as a plain [`IoEvent`], and `advance` computes the next state and the
//! outcome for every possible result.

use vstd::prelude::*;
use crate::detector::{detect, ends_with_terminator};
use crate::response::{response_bytes, RESPONSE_LEN};

verus! {

/// Capacity of the request buffer: a request longer than this without a
/// terminator is rejected as oversized (see `outcome_of`).
pub const REQUEST_CAPACITY: usize = 1024;

/// At most this many bytes of I/O are attempted per phase per `advance`
/// call, so that many connections sharing one thread interleave fairly.
pub const IO_CHUNK: usize = 5;

/// The phase a connection currently occupies, with its payload.
#[derive(Clone, Debug, PartialEq)]
pub enum Phase {
    Reading { request: Vec<u8> },
    Writing { written: usize },
    Flushing,
}

/// One connection's state-machine state.
#[derive(Clone, Debug, PartialEq)]
pub struct Connection {
    phase: Phase,
}

/// Mathematical model of a connection: the phase with its payload as a
/// sequence or an integer.
pub enum ConnView {
    Reading { data: Seq<u8> },
    Writing { written: int },
    Flushing,
}

impl View for Connection {
    type V = ConnView;

    closed spec fn view(&self) -> ConnView {
        match self.phase {
            Phase::Reading { request } => ConnView::Reading { data: request@ },
            Phase::Writing { written } => ConnView::Writing { written: written as int },
            Phase::Flushing => ConnView::Flushing,
        }
    }
}

/// The observable result of one non-blocking I/O attempt, handed to
/// `advance` as a plain value.
#[derive(Clone, Debug, PartialEq)]
pub enum IoEvent {
    /// A read returned these bytes (at least one).
    DataRead { data: Vec<u8> },
    /// A write accepted this many bytes (at least one).
    BytesWritten { count: usize },
    /// A flush completed.
    Flushed,
    /// A read or write returned zero bytes: the peer closed.
    Closed,
    /// The operation would block; nothing happened.
    WouldBlock,
    /// Any other I/O error: fatal for this connection only.
    IoFailed,
}

/// Mathematical model of an `IoEvent`.
pub enum EventView {
    DataRead { data: Seq<u8> },
    BytesWritten { count: int },
    Flushed,
    Closed,
    WouldBlock,
    IoFailed,
}

impl View for IoEvent {
    type V = EventView;

    open spec fn view(&self) -> EventView {
        match self {
            IoEvent::DataRead { data } => EventView::DataRead { data: data@ },
            IoEvent::BytesWritten { count } => EventView::BytesWritten { count: *count as int },
            IoEvent::Flushed => EventView::Flushed,
            IoEvent::Closed => EventView::Closed,
            IoEvent::WouldBlock => EventView::WouldBlock,
            IoEvent::IoFailed => EventView::IoFailed,
        }
    }
}

/// Result of advancing a connection once.
#[derive(Clone, Copy, Debug, PartialEq, Eq, Structural)]
pub enum Outcome {
    /// Still live; retry on the next iteration.
    Pending,
    /// Done (response fully delivered, or peer closed early): discard.
    Finished,
    /// Unrecoverable error on this connection: discard.
    Failed,
}

/// The I/O the event loop should attempt next for a connection.
#[derive(Clone, Copy, Debug, PartialEq, Eq, Structural)]
pub enum Action {
    /// Read up to `max` bytes into the request buffer.
    Read { max: usize },
    /// Write the canned response bytes in `start..end`.
    Write { start: usize, end: usize },
    /// Flush buffered output.
    Flush,
}

/// Well-formedness of a connection state: the request buffer never exceeds
/// its capacity, and a writing connection still has bytes left to write.
pub open spec fn conn_wf(c: ConnView) -> bool {
    match c {
        ConnView::Reading { data } => data.len() <= REQUEST_CAPACITY,
        ConnView::Writing { written } => 0 <= written < response_bytes().len(),
        ConnView::Flushing => true,
    }
}

/// An event that the given state can receive: the event's kind matches the
/// phase, and its size respects the per-call I/O bound and the remaining
/// room of the buffer it touches.
pub open spec fn compatible(c: ConnView, ev: EventView) -> bool {
    match c {
        ConnView::Reading { data } => match ev {
            EventView::DataRead { data: d } => {
                1 <= d.len() <= IO_CHUNK && data.len() + d.len() <= REQUEST_CAPACITY
            },
            EventView::Closed => true,
            EventView::WouldBlock => true,
            EventView::IoFailed => true,
            _ => false,
        },
        ConnView::Writing { written } => match ev {
            EventView::BytesWritten { count } => {
                1 <= count <= IO_CHUNK && written + count <= response_bytes().len()
            },
            EventView::Closed => true,
            EventView::WouldBlock => true,
            EventView::IoFailed => true,
            _ => false,
        },
        ConnView::Flushing => match ev {
            EventView::Flushed => true,
            EventView::WouldBlock => true,
            EventView::IoFailed => true,
            _ => false,
        },
    }
}

/// The state after one `advance` call: bytes read are appended, and the
/// terminator moves Reading to Writing; bytes written are counted, and a
/// complete response moves Writing to Flushing; every other event leaves
/// the state unchanged.
pub open spec fn step(c: ConnView, ev: EventView) -> ConnView {
    match c {
        ConnView::Reading { data } => match ev {
            EventView::DataRead { data: d } => {
                let grown = data + d;
                if ends_with_terminator(grown) {
                    ConnView::Writing { written: 0 }
                } else {
                    ConnView::Reading { data: grown }
                }
            },
            _ => c,
        },
        ConnView::Writing { written } => match ev {
            EventView::BytesWritten { count } => {
                if written + count == response_bytes().len() {
                    ConnView::Flushing
                } else {
                    ConnView::Writing { written: written + count }
                }
            },
            _ => c,
        },
        ConnView::Flushing => c,
    }
}

/// The outcome of one `advance` call: the peer closing or a completed flush
/// finishes the connection, an I/O error fails it, and a request that fills
/// the buffer to capacity without a terminator is rejected as oversized
/// (explicit failure rather than overrun); everything else is pending.
pub open spec fn outcome_of(c: ConnView, ev: EventView) -> Outcome {
    match ev {
        EventView::Closed => Outcome::Finished,
        EventView::IoFailed => Outcome::Failed,
        EventView::WouldBlock => Outcome::Pending,
        EventView::Flushed => Outcome::Finished,
        EventView::DataRead { data: d } => match c {
            ConnView::Reading { data } => {
                let grown = data + d;
                if ends_with_terminator(grown) {
                    Outcome::Pending
                } else if grown.len() == REQUEST_CAPACITY {
                    Outcome::Failed
                } else {
                    Outcome::Pending
                }
            },
            _ => Outcome::Pending,
        },
        EventView::BytesWritten { count: _ } => Outcome::Pending,
    }
}

/// The I/O to attempt next for a state: read into the remaining buffer
/// room, write the next window of the response, or flush; each capped at
/// `IO_CHUNK` bytes.
pub open spec fn action_of(c: ConnView) -> Action {
    match c {
        ConnView::Reading { data } => {
            let space = REQUEST_CAPACITY - data.len();
            Action::Read { max: (if space < IO_CHUNK { space } else { IO_CHUNK as int }) as usize }
        },
        ConnView::Writing { written } => {
            let stop = written + IO_CHUNK;
            Action::Write {
                start: written as usize,
                end: (if stop < response_bytes().len() {
                    stop
                } else {
                    response_bytes().len() as int
                }) as usize,
            }
        },
        ConnView::Flushing => Action::Flush,
    }
}

/// A well-formed state stays well formed under any event it can receive.
pub proof fn lemma_step_wf(c: ConnView, ev: EventView)
    requires
        conn_wf(c),
        compatible(c, ev),
    ensures
        conn_wf(step(c, ev)),
{
}

impl Connection {
    pub open spec fn wf(&self) -> bool {
        conn_wf(self@)
    }

    /// A fresh connection: Reading, with an empty buffer.
    pub fn new() -> (c: Connection)
        ensures
            c@ == (ConnView::Reading { data: Seq::<u8>::empty() }),
            c.wf(),
    {
        Connection { phase: Phase::Reading { request: Vec::new() } }
    }

    /// Whether this state can receive the given event.
    pub fn accepts(&self, ev: &IoEvent) -> (r: bool)
        ensures
            r == compatible(self@, ev@),
    {
        match (&self.phase, ev) {
            (Phase::Reading { request }, IoEvent::DataRead { data }) => {
                1 <= data.len() && data.len() <= IO_CHUNK
                    && request.len() <= REQUEST_CAPACITY - data.len()
            },
            (Phase::Reading { request: _ }, IoEvent::Closed) => true,
            (Phase::Reading { request: _ }, IoEvent::WouldBlock) => true,
            (Phase::Reading { request: _ }, IoEvent::IoFailed) => true,
            (Phase::Writing { written }, IoEvent::BytesWritten { count }) => {
                1 <= *count && *count <= IO_CHUNK && *written <= RESPONSE_LEN - *count
            },
            (Phase::Writing { written: _ }, IoEvent::Closed) => true,
            (Phase::Writing { written: _ }, IoEvent::WouldBlock) => true,
            (Phase::Writing { written: _ }, IoEvent::IoFailed) => true,
            (Phase::Flushing, IoEvent::Flushed) => true,
            (Phase::Flushing, IoEvent::WouldBlock) => true,
            (Phase::Flushing, IoEvent::IoFailed) => true,
            _ => false,
        }
    }

    /// The I/O the event loop should attempt next for this connection.
    pub fn next_action(&self) -> (a: Action)
        requires
            self.wf(),
        ensures
            a == action_of(self@),
    {
        match &self.phase {
            Phase::Reading { request } => {
                let space = REQUEST_CAPACITY - request.len();
                Action::Read { max: if space < IO_CHUNK { space } else { IO_CHUNK } }
            },
            Phase::Writing { written } => {
                let stop = *written + IO_CHUNK;
                Action::Write {
                    start: *written,
                    end: if stop < RESPONSE_LEN { stop } else { RESPONSE_LEN },
                }
            },
            Phase::Flushing => Action::Flush,
        }
    }

    /// Advance this connection by the result of one bounded I/O attempt.
    /// A would-block event leaves the state byte-for-byte unchanged.
    pub fn advance(&mut self, ev: IoEvent) -> (o: Outcome)
        requires
            old(self).wf(),
            compatible(old(self)@, ev@),
        ensures
            final(self)@ == step(old(self)@, ev@),
            o == outcome_of(old(self)@, ev@),
            final(self).wf(),
    {
        match ev {
            IoEvent::WouldBlock => Outcome::Pending,
            IoEvent::Closed => Outcome::Finished,
            IoEvent::IoFailed => Outcome::Failed,
            IoEvent::Flushed => Outcome::Finished,
            IoEvent::DataRead { data } => self.absorb_read(data),
            IoEvent::BytesWritten { count } => self.absorb_written(count),
        }
    }

    /// Append freshly read bytes; move to Writing if the terminator has
    /// arrived, and reject an oversized request that fills the buffer
    /// without one.
    fn absorb_read(&mut self, data: Vec<u8>) -> (o: Outcome)
        requires
            old(self).wf(),
            compatible(old(self)@, EventView::DataRead { data: data@ }),
        ensures
            final(self)@ == step(old(self)@, EventView::DataRead { data: data@ }),
            o == outcome_of(old(self)@, EventView::DataRead { data: data@ }),
            final(self).wf(),
    {
        let mut incoming = data;
        match &mut self.phase {
            Phase::Reading { request } => {
                request.append(&mut incoming);
            },
            _ => {},
        }
        let (terminated, full) = match &self.phase {
            Phase::Reading { request } => {
                (detect(request.as_slice(), request.len()), request.len() == REQUEST_CAPACITY)
            },
            _ => (false, false),
        };
        if terminated {
            self.phase = Phase::Writing { written: 0 };
            Outcome::Pending
        } else if full {
            Outcome::Failed
        } else {
            Outcome::Pending
        }
    }

    /// Count bytes written; move to Flushing once the whole canned response
    /// has been handed to the transport.
    fn absorb_written(&mut self, count: usize) -> (o: Outcome)
        requires
            old(self).wf(),
            compatible(old(self)@, EventView::BytesWritten { count: count as int }),
        ensures
            final(self)@ == step(old(self)@, EventView::BytesWritten { count: count as int }),
            o == outcome_of(old(self)@, EventView::BytesWritten { count: count as int }),
            final(self).wf(),
    {
        match &mut self.phase {
            Phase::Writing { written } => {
                *written = *written + count;
            },
            _ => {},
        }
        let complete = match &self.phase {
            Phase::Writing { written } => *written == RESPONSE_LEN,
            _ => false,
        };
        if complete {
            self.phase = Phase::Flushing;
        }
        Outcome::Pending
    }

    /// The connection is in the Reading phase.
    pub fn is_reading(&self) -> (r: bool)
        ensures
            r == (self@ is Reading),
    {
        match &self.phase {
            Phase::Reading { request: _ } => true,
            _ => false,
        }
    }

    /// The connection is in the Writing phase.
    pub fn is_writing(&self) -> (r: bool)
        ensures
            r == (self@ is Writing),
    {
        match &self.phase {
            Phase::Writing { written: _ } => true,
            _ => false,
        }
    }

    /// The connection is in the Flushing phase.
    pub fn is_flushing(&self) -> (r: bool)
        ensures
            r == (self@ is Flushing),
    {
        match &self.phase {
            Phase::Flushing => true,
            _ => false,
        }
    }

    /// Bytes accumulated so far while Reading.
    pub fn bytes_read(&self) -> (n: usize)
        requires
            self@ is Reading,
        ensures
            n == self@->Reading_data.len(),
    {
        match &self.phase {
            Phase::Reading { request } => request.len(),
            _ => 0,
        }
    }

    /// Bytes of the canned response handed to the transport so far while
    /// Writing.
    pub fn bytes_written(&self) -> (n: usize)
        requires
            self@ is Writing,
        ensures
            n == self@->Writing_written,
    {
        match &self.phase {
            Phase::Writing { written } => *written,
            _ => 0,
        }
    }
}

} // verus!
