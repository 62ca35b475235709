//! The fan-in channel: many producers, one consumer, first in first out.

use crate::record::{CapturedLine, LineView};
use std::collections::VecDeque;
use vstd::prelude::*;

verus! {

/// The lines of `queue` as contracts see them, in the same order.
pub open spec fn line_views(queue: Seq<CapturedLine>) -> Seq<LineView> {
    queue.map_values(|line: CapturedLine| line@)
}

/// The channel that carries captured lines from the port readers to the
/// writer. It keeps the lines in the order in which they arrived and counts
/// the producer handles that are still open: the coordinator's own, which
/// the channel is made with, and one for each reader.
pub struct FanIn {
    queue: VecDeque<CapturedLine>,
    producers: usize,
}

/// What the consumer gets when it asks the channel for the next line.
#[derive(Clone, Debug, PartialEq, Eq)]
pub enum Received {
    /// The line that has waited longest.
    Line(CapturedLine),
    /// Nothing is queued, but a producer may still send: the consumer waits.
    Empty,
    /// Nothing is queued and no producer is left: the end of the stream.
    Closed,
}

impl FanIn {
    /// The lines that were sent and not yet received, oldest first.
    pub closed spec fn pending(&self) -> Seq<LineView> {
        line_views(self.queue@)
    }

    /// The number of producer handles that are open.
    pub closed spec fn open_producers(&self) -> nat {
        self.producers as nat
    }

    /// Whether the stream has ended: nothing queued, no producer left.
    pub open spec fn is_closed(&self) -> bool {
        self.pending().len() == 0 && self.open_producers() == 0
    }

    /// A new channel: empty, with the one handle that its maker holds.
    pub fn new() -> (channel: FanIn)
        ensures
            channel.pending() == Seq::<LineView>::empty(),
            channel.open_producers() == 1,
    {
        FanIn { queue: VecDeque::new(), producers: 1 }
    }

    /// The number of producer handles that are open.
    pub fn producer_count(&self) -> (count: usize)
        ensures
            count == self.open_producers(),
    {
        self.producers
    }

    /// The number of lines that wait to be received.
    pub fn pending_len(&self) -> (len: usize)
        ensures
            len == self.pending().len(),
    {
        self.queue.len()
    }

    /// Opens one more producer handle.
    pub fn add_producer(&mut self)
        requires
            old(self).open_producers() < usize::MAX,
        ensures
            final(self).open_producers() == old(self).open_producers() + 1,
            final(self).pending() == old(self).pending(),
    {
        self.producers = self.producers + 1;
    }

    /// Closes one producer handle, if any is open.
    pub fn drop_producer(&mut self)
        ensures
            final(self).open_producers() == if old(self).open_producers() > 0 {
                old(self).open_producers() - 1
            } else {
                0
            },
            final(self).pending() == old(self).pending(),
    {
        if self.producers > 0 {
            self.producers = self.producers - 1;
        }
    }

    /// Sends `line`. It is accepted, and queued behind all that was sent
    /// before, if and only if a producer handle is open; a channel without
    /// producers stays as it is.
    pub fn send(&mut self, line: CapturedLine) -> (accepted: bool)
        ensures
            accepted == (old(self).open_producers() > 0),
            final(self).open_producers() == old(self).open_producers(),
            final(self).pending() == if accepted {
                old(self).pending().push(line@)
            } else {
                old(self).pending()
            },
    {
        if self.producers == 0 {
            return false;
        }
        self.queue.push_back(line);
        true
    }

    /// Takes the next line for the consumer: the oldest one queued, if there
    /// is one; else `Closed` where no producer is left, `Empty` where one is.
    pub fn receive(&mut self) -> (received: Received)
        ensures
            final(self).open_producers() == old(self).open_producers(),
            match received {
                Received::Line(line) => {
                    &&& old(self).pending().len() > 0
                    &&& line@ == old(self).pending()[0]
                    &&& final(self).pending() == old(self).pending().drop_first()
                },
                Received::Empty => {
                    &&& old(self).pending().len() == 0
                    &&& old(self).open_producers() > 0
                    &&& final(self).pending() == old(self).pending()
                },
                Received::Closed => {
                    &&& old(self).is_closed()
                    &&& final(self).pending() == old(self).pending()
                },
            },
    {
        match self.queue.pop_front() {
            Some(line) => Received::Line(line),
            None => {
                if self.producers == 0 {
                    Received::Closed
                } else {
                    Received::Empty
                }
            },
        }
    }
}

} // verus!
