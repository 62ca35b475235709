//! The reader of one port: the states it passes through, what it can meet
//! and what it then does, and how the bytes of a port become lines.

use crate::error::{PortOpenError, PortOpenErrorView};
use vstd::prelude::*;
use vstd::utf8::{decode_utf8, valid_utf8};

verus! {

/// Where the reader of one port stands.
#[derive(Clone, Copy, Debug, PartialEq, Eq, Structural)]
pub enum ReaderState {
    /// Started, its port not opened yet.
    Idle,
    /// Its port is open and it reads.
    Reading,
    /// Its port could not be opened; it has ended.
    Failed,
    /// Its port reached the end of input or failed to read; it has ended.
    Finished,
}

/// What the reader of a port has met.
#[derive(Clone, Debug, PartialEq, Eq)]
pub enum ReaderEvent {
    /// The port was opened.
    Opened,
    /// The port could not be opened; the text is what the transport said.
    OpenFailed(String),
    /// A line was read and decoded.
    Line(String),
    /// A line was read that is no valid text.
    Undecodable,
    /// The port has no more input.
    EndOfInput,
    /// Reading the port failed.
    ReadFailed,
}

/// What a reader has met, as contracts see it.
pub enum ReaderEventView {
    Opened,
    OpenFailed(Seq<char>),
    Line(Seq<char>),
    Undecodable,
    EndOfInput,
    ReadFailed,
}

impl View for ReaderEvent {
    type V = ReaderEventView;

    open spec fn view(&self) -> ReaderEventView {
        match self {
            ReaderEvent::Opened => ReaderEventView::Opened,
            ReaderEvent::OpenFailed(description) => ReaderEventView::OpenFailed(description@),
            ReaderEvent::Line(text) => ReaderEventView::Line(text@),
            ReaderEvent::Undecodable => ReaderEventView::Undecodable,
            ReaderEvent::EndOfInput => ReaderEventView::EndOfInput,
            ReaderEvent::ReadFailed => ReaderEventView::ReadFailed,
        }
    }
}

/// What a reader does next.
#[derive(Clone, Debug, PartialEq, Eq)]
pub enum ReaderAction {
    /// Read the next line.
    Read,
    /// Report that the port could not be opened, and end.
    Report(PortOpenError),
    /// End.
    Stop,
    /// The event cannot happen to this reader as it stands, or there is no
    /// such reader; nothing was changed.
    Rejected,
}

/// What a reader does next, as contracts see it.
pub enum ReaderActionView {
    Read,
    Report(PortOpenErrorView),
    Stop,
    Rejected,
}

impl View for ReaderAction {
    type V = ReaderActionView;

    open spec fn view(&self) -> ReaderActionView {
        match self {
            ReaderAction::Read => ReaderActionView::Read,
            ReaderAction::Report(error) => ReaderActionView::Report(error@),
            ReaderAction::Stop => ReaderActionView::Stop,
            ReaderAction::Rejected => ReaderActionView::Rejected,
        }
    }
}

/// What one read of a port has brought.
#[derive(Clone, Debug, PartialEq, Eq)]
pub enum ReadOutcome {
    /// These bytes.
    Bytes(Vec<u8>),
    /// The end of the input.
    End,
    /// Nothing yet: the read gave up waiting or was interrupted, and the
    /// port may still give more.
    NotReady,
    /// A failure of the port.
    Failed,
}

/// What one read has brought, as contracts see it.
pub enum ReadOutcomeView {
    Bytes(Seq<u8>),
    End,
    NotReady,
    Failed,
}

impl View for ReadOutcome {
    type V = ReadOutcomeView;

    open spec fn view(&self) -> ReadOutcomeView {
        match self {
            ReadOutcome::Bytes(chunk) => ReadOutcomeView::Bytes(chunk@),
            ReadOutcome::End => ReadOutcomeView::End,
            ReadOutcome::NotReady => ReadOutcomeView::NotReady,
            ReadOutcome::Failed => ReadOutcomeView::Failed,
        }
    }
}

/// Why a read of a port has brought no bytes and no end of input.
#[derive(Clone, Copy, Debug, PartialEq, Eq, Structural)]
pub enum ReadFault {
    /// The read gave up waiting for bytes.
    TimedOut,
    /// The read would have had to wait and was told not to.
    WouldBlock,
    /// The read was interrupted before it had brought anything.
    Interrupted,
    /// Anything else: the port is gone or broken.
    Other,
}

/// What a read that ended with `fault` has brought: a port that only had
/// nothing to give in time is not ready and may still give more; with any
/// other fault the port has failed.
pub open spec fn fault_outcome(fault: ReadFault) -> ReadOutcomeView {
    match fault {
        ReadFault::TimedOut => ReadOutcomeView::NotReady,
        ReadFault::WouldBlock => ReadOutcomeView::NotReady,
        ReadFault::Interrupted => ReadOutcomeView::NotReady,
        ReadFault::Other => ReadOutcomeView::Failed,
    }
}

impl ReadOutcome {
    /// What a read that ended with `fault` has brought.
    pub fn of_fault(fault: ReadFault) -> (outcome: ReadOutcome)
        ensures
            outcome@ == fault_outcome(fault),
    {
        match fault {
            ReadFault::TimedOut => ReadOutcome::NotReady,
            ReadFault::WouldBlock => ReadOutcome::NotReady,
            ReadFault::Interrupted => ReadOutcome::NotReady,
            ReadFault::Other => ReadOutcome::Failed,
        }
    }
}

/// The byte that ends a line.
pub const LINE_FEED: u8 = 10;

/// The byte that may stand before the line feed and is then no part of the
/// line.
pub const CARRIAGE_RETURN: u8 = 13;

/// The bytes of `stream` that stand behind its last line feed: the line that
/// is not ended yet.
pub open spec fn unfinished(stream: Seq<u8>) -> Seq<u8>
    decreases stream.len(),
{
    if stream.len() == 0 || stream.last() == LINE_FEED {
        Seq::empty()
    } else {
        unfinished(stream.drop_last()).push(stream.last())
    }
}

/// The lines of `stream` that a line feed has ended, in order, each without
/// its line feed.
pub open spec fn frames(stream: Seq<u8>) -> Seq<Seq<u8>>
    decreases stream.len(),
{
    if stream.len() == 0 {
        Seq::empty()
    } else if stream.last() == LINE_FEED {
        frames(stream.drop_last()).push(unfinished(stream.drop_last()))
    } else {
        frames(stream.drop_last())
    }
}

/// The lines `lines` written out again, each ended by a line feed.
pub open spec fn rejoined(lines: Seq<Seq<u8>>) -> Seq<u8>
    decreases lines.len(),
{
    if lines.len() == 0 {
        Seq::empty()
    } else {
        rejoined(lines.drop_last()) + lines.last().push(LINE_FEED)
    }
}

/// Whether `bytes` holds no line feed.
pub open spec fn no_line_feed(bytes: Seq<u8>) -> bool {
    forall|i: int| 0 <= i < bytes.len() ==> bytes[i] != LINE_FEED
}

/// A line without the carriage return that may end it.
pub open spec fn without_carriage_return(line: Seq<u8>) -> Seq<u8> {
    if line.len() > 0 && line.last() == CARRIAGE_RETURN {
        line.drop_last()
    } else {
        line
    }
}

/// What a reader has met when it has read the bytes `bytes` as one line: the
/// text they encode, or a line that is no text.
pub open spec fn decoded(bytes: Seq<u8>) -> ReaderEventView {
    if valid_utf8(bytes) {
        ReaderEventView::Line(decode_utf8(bytes))
    } else {
        ReaderEventView::Undecodable
    }
}

/// What a reader has met with each of the ended lines `lines`.
pub open spec fn line_events(lines: Seq<Seq<u8>>) -> Seq<ReaderEventView> {
    lines.map_values(|line: Seq<u8>| decoded(without_carriage_return(line)))
}

/// What a reader meets, if anything, with the bytes left over when the
/// input ends: they are a last line, taken as it stands.
pub open spec fn last_event(rest: Seq<u8>) -> Option<ReaderEventView> {
    if rest.len() == 0 {
        None
    } else {
        Some(decoded(rest))
    }
}

/// The events that end a reader whose input has ended with `rest` behind
/// the last line feed: the last line, if there is one, and the end itself.
pub open spec fn closing_events(rest: Seq<u8>) -> Seq<ReaderEventView> {
    match last_event(rest) {
        Some(event) => seq![event, ReaderEventView::EndOfInput],
        None => seq![ReaderEventView::EndOfInput],
    }
}

/// What a reader that reads meets through one read, when `carried` is what
/// its port has left unfinished before: the lines that the bytes end; at
/// the end of input the last line and the end; after a failure the failure;
/// and nothing where the port is not ready.
pub open spec fn read_events(carried: Seq<u8>, outcome: ReadOutcomeView) -> Seq<ReaderEventView> {
    match outcome {
        ReadOutcomeView::Bytes(chunk) => line_events(frames(carried + chunk)),
        ReadOutcomeView::End => closing_events(carried),
        ReadOutcomeView::NotReady => Seq::empty(),
        ReadOutcomeView::Failed => seq![ReaderEventView::ReadFailed],
    }
}

/// What a reader that reads does after one read: it reads on after bytes
/// and where the port is not ready, and ends at the end of input and after
/// a failure.
pub open spec fn read_action(outcome: ReadOutcomeView) -> ReaderActionView {
    match outcome {
        ReadOutcomeView::Bytes(_) => ReaderActionView::Read,
        ReadOutcomeView::End => ReaderActionView::Stop,
        ReadOutcomeView::NotReady => ReaderActionView::Read,
        ReadOutcomeView::Failed => ReaderActionView::Stop,
    }
}

/// What a port has left unfinished after one read, when `carried` is what
/// it had left before. At the end of input nothing is left: what was
/// carried has become the last line.
pub open spec fn carried_after(carried: Seq<u8>, outcome: ReadOutcomeView) -> Seq<u8> {
    match outcome {
        ReadOutcomeView::Bytes(chunk) => unfinished(carried + chunk),
        ReadOutcomeView::End => Seq::empty(),
        ReadOutcomeView::NotReady => carried,
        ReadOutcomeView::Failed => carried,
    }
}

/// The events `events` as contracts see them, in the same order.
pub open spec fn event_views(events: Seq<ReaderEvent>) -> Seq<ReaderEventView> {
    events.map_values(|event: ReaderEvent| event@)
}

/// The framing takes nothing away and adds nothing: the ended lines, each
/// with its line feed, and the unfinished line behind them are the stream;
/// and no line holds a line feed.
pub proof fn lemma_frames_rejoin(stream: Seq<u8>)
    ensures
        rejoined(frames(stream)) + unfinished(stream) == stream,
        no_line_feed(unfinished(stream)),
        forall|i: int| 0 <= i < frames(stream).len() ==> no_line_feed(#[trigger] frames(stream)[i]),
    decreases stream.len(),
{
    if stream.len() > 0 {
        let before = stream.drop_last();
        let whole = rejoined(frames(before)) + unfinished(before);
        lemma_frames_rejoin(before);
        if stream.last() == LINE_FEED {
            assert(frames(stream).drop_last() =~= frames(before));
        }
        assert(rejoined(frames(stream)) + unfinished(stream) =~= whole.push(stream.last()));
    }
}

/// Bytes without a line feed end no line and are all unfinished.
pub proof fn lemma_frames_of_unfinished(bytes: Seq<u8>)
    requires
        no_line_feed(bytes),
    ensures
        frames(bytes) == Seq::<Seq<u8>>::empty(),
        unfinished(bytes) == bytes,
    decreases bytes.len(),
{
    if bytes.len() > 0 {
        lemma_frames_of_unfinished(bytes.drop_last());
    }
}

/// The framing does not depend on how the stream is cut into chunks: the
/// lines of two chunks are the lines of the first, then those of the second
/// with the unfinished line of the first before it.
pub proof fn lemma_frames_of_chunks(first: Seq<u8>, second: Seq<u8>)
    ensures
        frames(first + second) == frames(first) + frames(unfinished(first) + second),
        unfinished(first + second) == unfinished(unfinished(first) + second),
    decreases second.len(),
{
    let carried = unfinished(first);
    if second.len() == 0 {
        lemma_frames_rejoin(first);
        lemma_frames_of_unfinished(carried);
    } else {
        let shorter = second.drop_last();
        lemma_frames_of_chunks(first, shorter);
        assert((first + second).drop_last() =~= first + shorter);
        assert((carried + second).drop_last() =~= carried + shorter);
    }
}

/// Calls `String::from_utf8`, which gives the text that the bytes encode
/// if they are valid UTF-8 and fails if they are not.
#[verifier::external_body]
fn text_of(bytes: Vec<u8>) -> (text: Option<String>)
    ensures
        text is Some <==> valid_utf8(bytes@),
        text matches Some(t) ==> t@ == decode_utf8(bytes@),
{
    String::from_utf8(bytes).ok()
}

/// Decodes the bytes of one line.
fn decode(bytes: Vec<u8>) -> (event: ReaderEvent)
    ensures
        event@ == decoded(bytes@),
{
    match text_of(bytes) {
        Some(text) => ReaderEvent::Line(text),
        None => ReaderEvent::Undecodable,
    }
}

/// Cuts the bytes that come from a port into lines. The bytes may come in
/// chunks of any size; a line that a chunk does not end is kept until a
/// later chunk ends it.
pub struct LineFramer {
    partial: Vec<u8>,
}

impl LineFramer {
    /// The bytes received since the last line feed.
    pub closed spec fn carried(&self) -> Seq<u8> {
        self.partial@
    }

    /// What holds of every framer: the line it carries is not ended.
    pub open spec fn wf(&self) -> bool {
        no_line_feed(self.carried())
    }

    /// A framer that has received nothing.
    pub fn new() -> (framer: LineFramer)
        ensures
            framer.wf(),
            framer.carried() == Seq::<u8>::empty(),
    {
        LineFramer { partial: Vec::new() }
    }

    /// Takes the next chunk of bytes and returns, in order, one event for
    /// each line that the chunk has ended: the line's text, without its
    /// line feed and without a carriage return before it, or the note that
    /// the line is no valid text. What stands behind the last line feed is
    /// carried over.
    pub fn feed(&mut self, chunk: &[u8]) -> (events: Vec<ReaderEvent>)
        requires
            old(self).wf(),
        ensures
            final(self).wf(),
            event_views(events@) == line_events(frames(old(self).carried() + chunk@)),
            final(self).carried() == unfinished(old(self).carried() + chunk@),
    {
        let ghost start = self.partial@;
        let mut events: Vec<ReaderEvent> = Vec::new();
        let mut i: usize = 0;
        proof {
            lemma_frames_of_unfinished(start);
        }
        while i < chunk.len()
            invariant
                i <= chunk.len(),
                event_views(events@) == line_events(frames(start + chunk@.take(i as int))),
                self.partial@ == unfinished(start + chunk@.take(i as int)),
            decreases chunk.len() - i,
        {
            let byte: u8 = chunk[i];
            let ghost before = start + chunk@.take(i as int);
            let ghost after = start + chunk@.take(i + 1);
            assert(after.drop_last() =~= before);
            if byte == LINE_FEED {
                let mut line: Vec<u8> = Vec::new();
                std::mem::swap(&mut self.partial, &mut line);
                let ghost whole = line@;
                if line.len() > 0 && line[line.len() - 1] == CARRIAGE_RETURN {
                    line.pop();
                }
                let ghost earlier = events@;
                events.push(decode(line));
                assert(event_views(events@) =~= event_views(earlier).push(
                    decoded(without_carriage_return(whole)),
                ));
                assert(line_events(frames(after)) =~= line_events(frames(before)).push(
                    decoded(without_carriage_return(whole)),
                ));
            } else {
                self.partial.push(byte);
            }
            i = i + 1;
        }
        proof {
            assert(chunk@.take(chunk.len() as int) =~= chunk@);
            lemma_frames_rejoin(start + chunk@);
        }
        events
    }

    /// Ends the input. Bytes that no line feed has ended are a last line,
    /// taken as it stands; with none carried there is no such line.
    pub fn finish(self) -> (last: Option<ReaderEvent>)
        ensures
            match last {
                Some(event) => last_event(self.carried()) == Some(event@),
                None => last_event(self.carried()) is None,
            },
    {
        if self.partial.len() == 0 {
            None
        } else {
            Some(decode(self.partial))
        }
    }
}

} // verus!
