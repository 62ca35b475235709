//! The pipeline of one run: port readers that feed the fan-in channel, the
//! writer that drains it into the output store, and the coordinator that
//! starts them and sees the run to its end.
//!
//! The program around this crate does the waiting: it opens the devices,
//! reads them, and appends to the file. After each such step it tells the
//! pipeline what happened and is told what to do next.

use crate::channel::{FanIn, Received};
use crate::clock::{seconds_spec, timestamp};
use crate::error::{ConfigurationError, PortOpenError};
use crate::model::{
    lemma_initial, lemma_live_readers_update, lemma_reader_step,
    lemma_release_handle, lemma_writer_step, live_readers, Phase, PipelineView, WriterStep,
};
use crate::port::{port_views, PortSpec, MAX_PORTS};
use crate::reader::{
    carried_after, closing_events, event_views, frames, line_events, read_action, read_events,
    unfinished, LineFramer, ReadOutcome, ReaderAction, ReaderActionView, ReaderEvent,
    ReaderEventView, ReaderState,
};
use crate::record::{output_file_name, CapturedLine, LineView, Record, RecordView};
use std::time::Duration;
use vstd::prelude::*;

verus! {

/// The pipeline of one run: the configured ports and their readers, the
/// fan-in channel, and the account of what was sent and what was written.
pub struct Pipeline {
    ports: Vec<PortSpec>,
    readers: Vec<ReaderState>,
    channel: FanIn,
    owner_attached: bool,
    finished: bool,
    started_at: u64,
    sent: Ghost<Seq<LineView>>,
    stored: Ghost<Seq<RecordView>>,
}

impl View for Pipeline {
    type V = PipelineView;

    closed spec fn view(&self) -> PipelineView {
        PipelineView {
            ports: port_views(self.ports@),
            readers: self.readers@,
            owner_attached: self.owner_attached,
            pending: self.channel.pending(),
            finished: self.finished,
            started_at: self.started_at,
            sent: self.sent@,
            stored: self.stored@,
        }
    }
}

impl Pipeline {
    /// Whether the channel counts one open handle for the coordinator, while
    /// it holds its own, and one for each reader that has not ended.
    pub closed spec fn handles_agree(&self) -> bool {
        self.channel.open_producers() == live_readers(self.readers@) + if self.owner_attached {
            1nat
        } else {
            0nat
        }
    }

    /// What holds of every pipeline that `new` has made, whatever was done
    /// with it since.
    pub open spec fn wf(&self) -> bool {
        self.handles_agree() && self@.wf()
    }

    /// Makes the pipeline of a run that started at `started_at` and reads
    /// from `ports`: constructs the channel and starts one reader for each
    /// port, each with a handle of its own. A run takes one to eight ports;
    /// for none, and for more, nothing is made.
    pub fn new(ports: Vec<PortSpec>, started_at: u64) -> (made: Result<
        Pipeline,
        ConfigurationError,
    >)
        ensures
            match made {
                Ok(pipeline) => {
                    &&& 1 <= ports.len() <= MAX_PORTS
                    &&& pipeline.wf()
                    &&& pipeline@ == PipelineView::initial(port_views(ports@), started_at)
                },
                Err(error) => {
                    ||| ports.len() == 0 && error == ConfigurationError::NoPorts
                    ||| ports.len() > MAX_PORTS && error == ConfigurationError::TooManyPorts
                },
            },
    {
        let count: usize = ports.len();
        if count == 0 {
            return Err(ConfigurationError::NoPorts);
        }
        if count > MAX_PORTS {
            return Err(ConfigurationError::TooManyPorts);
        }
        let mut readers: Vec<ReaderState> = Vec::new();
        let mut channel = FanIn::new();
        let mut started: usize = 0;
        while started < count
            invariant
                started <= count <= MAX_PORTS,
                readers@ =~= Seq::new(started as nat, |i: int| ReaderState::Idle),
                channel.open_producers() == 1 + started,
                channel.pending() == Seq::<LineView>::empty(),
            decreases count - started,
        {
            channel.add_producer();
            readers.push(ReaderState::Idle);
            started = started + 1;
        }
        let pipeline = Pipeline {
            ports,
            readers,
            channel,
            owner_attached: true,
            finished: false,
            started_at,
            sent: Ghost(Seq::empty()),
            stored: Ghost(Seq::empty()),
        };
        proof {
            lemma_initial(port_views(ports@), started_at);
        }
        Ok(pipeline)
    }

    /// The configured ports, in the order in which they were given.
    pub fn ports(&self) -> (ports: &Vec<PortSpec>)
        ensures
            port_views(ports@) == self@.ports,
    {
        &self.ports
    }

    /// The state of the reader of port `index`, if there is such a port.
    pub fn reader_state(&self, index: usize) -> (state: Option<ReaderState>)
        ensures
            state == if index < self@.readers.len() {
                Some(self@.readers[index as int])
            } else {
                None
            },
    {
        if index < self.readers.len() {
            Some(self.readers[index])
        } else {
            None
        }
    }

    /// The number of lines that wait in the channel.
    pub fn pending_len(&self) -> (len: usize)
        ensures
            len == self@.pending.len(),
    {
        self.channel.pending_len()
    }

    /// The name of the one output store of this run.
    pub fn store_name(&self) -> (name: String)
        ensures
            name@ == self@.store_name(),
    {
        output_file_name(self.started_at)
    }

    /// The phase of the run.
    pub fn phase(&self) -> (phase: Phase)
        requires
            self.wf(),
        ensures
            phase == self@.phase(),
    {
        if self.owner_attached {
            Phase::Starting
        } else if self.channel.producer_count() > 0 {
            Phase::Running
        } else if !self.finished {
            Phase::Draining
        } else {
            Phase::Stopped
        }
    }

    /// The coordinator lets go of its own handle of the channel, which it
    /// does once every reader is started. Until then the channel cannot
    /// end, however many readers have.
    pub fn release_handle(&mut self)
        requires
            old(self).wf(),
        ensures
            final(self).wf(),
            final(self)@ == old(self)@.release_handle(),
    {
        if self.owner_attached {
            self.owner_attached = false;
            self.channel.drop_producer();
        }
        proof {
            lemma_release_handle(old(self)@);
        }
    }

    /// Tells the pipeline what the reader of port `index` has met, and
    /// returns what that reader does next. A line is tagged with the port's
    /// identifier and sent into the channel; a line that is no text is
    /// passed over; a port that cannot be opened, or has come to its end,
    /// ends its own reader and closes that reader's handle.
    pub fn reader_step(&mut self, index: usize, event: ReaderEvent) -> (action: ReaderAction)
        requires
            old(self).wf(),
        ensures
            final(self).wf(),
            final(self)@ == old(self)@.reader_step(index as int, event@),
            action@ == old(self)@.reader_action(index as int, event@),
    {
        proof {
            lemma_reader_step(self@, index as int, event@);
        }
        if index >= self.readers.len() {
            return ReaderAction::Rejected;
        }
        let state = self.readers[index];
        proof {
            lemma_live_readers_update(self.readers@, index as int, ReaderState::Reading);
            lemma_live_readers_update(self.readers@, index as int, ReaderState::Failed);
            lemma_live_readers_update(self.readers@, index as int, ReaderState::Finished);
        }
        match state {
            ReaderState::Idle => match event {
                ReaderEvent::Opened => {
                    self.readers.set(index, ReaderState::Reading);
                    ReaderAction::Read
                },
                ReaderEvent::OpenFailed(description) => {
                    self.readers.set(index, ReaderState::Failed);
                    self.channel.drop_producer();
                    ReaderAction::Report(
                        PortOpenError {
                            identifier: self.ports[index].identifier.clone(),
                            description,
                        },
                    )
                },
                _ => ReaderAction::Rejected,
            },
            ReaderState::Reading => match event {
                ReaderEvent::Line(text) => {
                    let line = CapturedLine::new(self.ports[index].identifier.clone(), text);
                    let ghost tagged = line@;
                    // A reader that reads holds a handle, so the channel
                    // takes the line.
                    let accepted = self.channel.send(line);
                    assert(accepted);
                    self.sent = Ghost(self.sent@.push(tagged));
                    ReaderAction::Read
                },
                ReaderEvent::Undecodable => ReaderAction::Read,
                ReaderEvent::EndOfInput => {
                    self.readers.set(index, ReaderState::Finished);
                    self.channel.drop_producer();
                    ReaderAction::Stop
                },
                ReaderEvent::ReadFailed => {
                    self.readers.set(index, ReaderState::Finished);
                    self.channel.drop_producer();
                    ReaderAction::Stop
                },
                _ => ReaderAction::Rejected,
            },
            _ => ReaderAction::Rejected,
        }
    }

    /// Hands the reader of port `index` the next chunk of bytes from its
    /// port. The chunk goes through `framer`, which holds what that port has
    /// left unfinished, and each line that the chunk ends is dealt with as
    /// `reader_step` deals with it: text is sent, what is no text is passed
    /// over. A reader that does not read is told so and nothing is changed,
    /// the framer neither.
    pub fn reader_feed(&mut self, index: usize, framer: &mut LineFramer, chunk: &[u8]) -> (action:
        ReaderAction)
        requires
            old(self).wf(),
            old(framer).wf(),
        ensures
            final(self).wf(),
            final(framer).wf(),
            old(self)@.reads(index as int) ==> {
                &&& action@ == ReaderActionView::Read
                &&& final(framer).carried() == unfinished(old(framer).carried() + chunk@)
                &&& final(self)@ == old(self)@.reader_steps(
                    index as int,
                    line_events(frames(old(framer).carried() + chunk@)),
                )
            },
            !old(self)@.reads(index as int) ==> {
                &&& action@ == ReaderActionView::Rejected
                &&& final(framer).carried() == old(framer).carried()
                &&& final(self)@ == old(self)@
            },
    {
        if index >= self.readers.len() {
            return ReaderAction::Rejected;
        }
        match self.readers[index] {
            ReaderState::Reading => {},
            _ => {
                return ReaderAction::Rejected;
            },
        }
        let events = framer.feed(chunk);
        let ghost met = event_views(events@);
        for event in each: events
            invariant
                met == event_views(events@),
                each.seq() == events@,
                self.wf(),
                self@ == old(self)@.reader_steps(index as int, met.take(each.index() as int)),
        {
            assert(met.take(each.index() + 1).drop_last() =~= met.take(each.index() as int));
            let _ = self.reader_step(index, event);
        }
        assert(met.take(events@.len() as int) =~= met);
        ReaderAction::Read
    }

    /// Ends the reader of port `index` at the end of its input. What
    /// `framer` still holds is the port's last line and is dealt with as a
    /// line; then the reader ends and its handle is closed. A reader that
    /// does not read is told so and nothing is changed.
    pub fn reader_end(&mut self, index: usize, framer: LineFramer) -> (action: ReaderAction)
        requires
            old(self).wf(),
        ensures
            final(self).wf(),
            old(self)@.reads(index as int) ==> {
                &&& action@ == ReaderActionView::Stop
                &&& final(self)@ == old(self)@.reader_steps(
                    index as int,
                    closing_events(framer.carried()),
                )
            },
            !old(self)@.reads(index as int) ==> {
                &&& action@ == ReaderActionView::Rejected
                &&& final(self)@ == old(self)@
            },
    {
        if index >= self.readers.len() {
            return ReaderAction::Rejected;
        }
        match self.readers[index] {
            ReaderState::Reading => {},
            _ => {
                return ReaderAction::Rejected;
            },
        }
        let ghost closing = closing_events(framer.carried());
        let ghost none = Seq::<ReaderEventView>::empty();
        assert(self@.reader_steps(index as int, none) == self@);
        match framer.finish() {
            Some(last) => {
                proof {
                    let one = seq![last@];
                    assert(one.drop_last() =~= none);
                    assert(self@.reader_steps(index as int, one) == self@.reader_step(
                        index as int,
                        last@,
                    ));
                    assert(closing.drop_last() =~= one);
                }
                let _ = self.reader_step(index, last);
            },
            None => {
                assert(closing.drop_last() =~= none);
            },
        }
        self.reader_step(index, ReaderEvent::EndOfInput)
    }

    /// Whether the reader of port `index` has its port open and reads.
    pub fn reads(&self, index: usize) -> (reads: bool)
        ensures
            reads == self@.reads(index as int),
    {
        if index >= self.readers.len() {
            return false;
        }
        match self.readers[index] {
            ReaderState::Reading => true,
            _ => false,
        }
    }

    /// Tells the pipeline what one read of port `index` has brought, and
    /// returns what that port's reader does next. Bytes go through `framer`
    /// as in `reader_feed`, and the reader reads on. Where the port is not
    /// ready nothing happens and the reader reads again. The end of input
    /// ends the reader as in `reader_end`, with what `framer` holds as the
    /// last line. A failure ends the reader; what `framer` holds is then no
    /// line. A reader that does not read is told so and nothing is changed,
    /// the framer neither.
    pub fn reader_read(&mut self, index: usize, framer: &mut LineFramer, outcome: ReadOutcome) -> (action:
        ReaderAction)
        requires
            old(self).wf(),
            old(framer).wf(),
        ensures
            final(self).wf(),
            final(framer).wf(),
            old(self)@.reads(index as int) ==> {
                &&& action@ == read_action(outcome@)
                &&& final(framer).carried() == carried_after(old(framer).carried(), outcome@)
                &&& final(self)@ == old(self)@.reader_steps(
                    index as int,
                    read_events(old(framer).carried(), outcome@),
                )
            },
            !old(self)@.reads(index as int) ==> {
                &&& action@ == ReaderActionView::Rejected
                &&& final(framer).carried() == old(framer).carried()
                &&& final(self)@ == old(self)@
            },
    {
        if !self.reads(index) {
            return ReaderAction::Rejected;
        }
        let ghost none = Seq::<ReaderEventView>::empty();
        assert(self@.reader_steps(index as int, none) == self@);
        match outcome {
            ReadOutcome::Bytes(chunk) => self.reader_feed(index, framer, chunk.as_slice()),
            ReadOutcome::End => {
                let mut last = LineFramer::new();
                std::mem::swap(framer, &mut last);
                self.reader_end(index, last)
            },
            ReadOutcome::NotReady => ReaderAction::Read,
            ReadOutcome::Failed => {
                assert(seq![ReaderEventView::ReadFailed].drop_last() =~= none);
                self.reader_step(index, ReaderEvent::ReadFailed)
            },
        }
    }

    /// The writer's next step at time `now`: the oldest line in the channel
    /// becomes a record stamped `now`, to be appended to the output store;
    /// with nothing queued the writer waits, or, once no handle is open,
    /// finishes.
    pub fn writer_step(&mut self, now: u64) -> (step: WriterStep)
        requires
            old(self).wf(),
        ensures
            final(self).wf(),
            final(self)@ == old(self)@.writer_step(now),
            step@ == old(self)@.writer_output(now),
    {
        proof {
            lemma_writer_step(self@, now);
        }
        match self.channel.receive() {
            Received::Line(line) => {
                let record = Record::stamp(line, now);
                self.stored = Ghost(self.stored@.push(record@));
                WriterStep::Append(record)
            },
            Received::Empty => WriterStep::Wait,
            Received::Closed => {
                self.finished = true;
                WriterStep::Finish
            },
        }
    }

    /// The writer's next step, stamped by the clock: as `writer_step`, with
    /// the time read from the system clock. The clock is read only when a
    /// line waits to be taken, once for that line, so that the record bears
    /// the time at which it left the channel. If the clock then stands
    /// before the epoch there is no time to stamp with: nothing is taken
    /// and `None` is returned.
    pub fn writer_turn(&mut self) -> (step: Option<WriterStep>)
        requires
            old(self).wf(),
        ensures
            final(self).wf(),
            old(self)@.pending.len() == 0 ==> {
                &&& step matches Some(taken)
                &&& taken@ == old(self)@.writer_output(0)
                &&& final(self)@ == old(self)@.writer_step(0)
            },
            old(self)@.pending.len() > 0 ==> exists|reading: Option<Duration>|
                match #[trigger] seconds_spec(reading) {
                    Some(now) => {
                        &&& step matches Some(taken)
                        &&& taken@ == old(self)@.writer_output(now)
                        &&& final(self)@ == old(self)@.writer_step(now)
                    },
                    None => step is None && final(self)@ == old(self)@,
                },
    {
        if self.channel.pending_len() == 0 {
            return Some(self.writer_step(0));
        }
        match timestamp() {
            Some(now) => Some(self.writer_step(now)),
            None => None,
        }
    }
}

} // verus!
