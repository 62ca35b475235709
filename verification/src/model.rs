//! The pipeline as a state machine: what it is made of at any moment, the
//! steps that readers, writer and coordinator take, and what holds of every
//! run because of them.

use crate::error::PortOpenErrorView;
use crate::port::{PortSpecView, MAX_PORTS};
use crate::reader::{line_events, ReaderActionView, ReaderEventView, ReaderState};
use crate::record::{stamped, store_name, LineView, Record, RecordView};
use vstd::prelude::*;

verus! {

/// Where the whole pipeline stands.
#[derive(Clone, Copy, Debug, PartialEq, Eq, Structural)]
pub enum Phase {
    /// The readers are started; the coordinator still holds its own handle
    /// of the channel.
    Starting,
    /// The coordinator has let go of its handle and a reader is still at
    /// work.
    Running,
    /// The last reader has ended; the writer takes what is still queued.
    Draining,
    /// The writer has met the end of the stream.
    Stopped,
}

/// What the writer does next.
#[derive(Clone, Debug, PartialEq, Eq)]
pub enum WriterStep {
    /// Append this record to the output store.
    Append(Record),
    /// Nothing is queued yet: wait until a reader has sent or ended.
    Wait,
    /// The stream has ended: flush and close the output store.
    Finish,
}

/// What the writer does next, as contracts see it.
pub enum WriterStepView {
    Append(RecordView),
    Wait,
    Finish,
}

impl View for WriterStep {
    type V = WriterStepView;

    open spec fn view(&self) -> WriterStepView {
        match self {
            WriterStep::Append(record) => WriterStepView::Append(record@),
            WriterStep::Wait => WriterStepView::Wait,
            WriterStep::Finish => WriterStepView::Finish,
        }
    }
}

/// Whether a reader in `state` holds a producer handle of the channel.
pub open spec fn holds_handle(state: ReaderState) -> bool {
    state is Idle || state is Reading
}

/// How many of `readers` hold a producer handle.
pub open spec fn live_readers(readers: Seq<ReaderState>) -> nat
    decreases readers.len(),
{
    if readers.len() == 0 {
        0
    } else {
        live_readers(readers.drop_last()) + if holds_handle(readers.last()) {
            1nat
        } else {
            0nat
        }
    }
}

/// The captured lines that `stored` was made of, in the same order.
pub open spec fn recorded_lines(stored: Seq<RecordView>) -> Seq<LineView> {
    stored.map_values(|record: RecordView| record.line())
}

/// The test whether a line came from the port `identifier`.
pub open spec fn is_from(identifier: Seq<char>) -> spec_fn(LineView) -> bool {
    |line: LineView| line.source_identifier == identifier
}

/// Those of `lines` that came from the port `identifier`, in the same order.
pub open spec fn from_port(lines: Seq<LineView>, identifier: Seq<char>) -> Seq<LineView> {
    lines.filter(is_from(identifier))
}

/// Whether `identifier` is that of one of `ports`.
pub open spec fn names_port(ports: Seq<PortSpecView>, identifier: Seq<char>) -> bool {
    exists|k: int| 0 <= k < ports.len() && #[trigger] ports[k].identifier == identifier
}

/// The place of a phase in the order in which a run passes through them.
pub open spec fn phase_rank(phase: Phase) -> nat {
    match phase {
        Phase::Starting => 0,
        Phase::Running => 1,
        Phase::Draining => 2,
        Phase::Stopped => 3,
    }
}

/// The pipeline as contracts see it.
#[verifier::ext_equal]
pub struct PipelineView {
    /// The configured ports.
    pub ports: Seq<PortSpecView>,
    /// The state of the reader of each port.
    pub readers: Seq<ReaderState>,
    /// Whether the coordinator still holds its own handle of the channel.
    pub owner_attached: bool,
    /// The lines in the channel, oldest first.
    pub pending: Seq<LineView>,
    /// Whether the writer has met the end of the stream.
    pub finished: bool,
    /// When the run started, in seconds since the epoch.
    pub started_at: u64,
    /// Every line that a reader has sent, in the order of arrival.
    pub sent: Seq<LineView>,
    /// Every record that was handed out for the output store, in order.
    pub stored: Seq<RecordView>,
}

impl PipelineView {
    /// How many readers hold a producer handle.
    pub open spec fn live(self) -> nat {
        live_readers(self.readers)
    }

    /// Whether the channel has ended: no handle is open and nothing is
    /// queued.
    pub open spec fn end_of_stream(self) -> bool {
        !self.owner_attached && self.live() == 0 && self.pending.len() == 0
    }

    /// What holds of the pipeline at every moment of a run.
    pub open spec fn wf(self) -> bool {
        &&& 1 <= self.ports.len() <= MAX_PORTS
        &&& self.readers.len() == self.ports.len()
        &&& recorded_lines(self.stored) + self.pending == self.sent
        &&& forall|i: int|
            0 <= i < self.sent.len() ==> names_port(
                self.ports,
                #[trigger] self.sent[i].source_identifier,
            )
        &&& self.finished ==> self.end_of_stream()
    }

    /// The phase of the run.
    pub open spec fn phase(self) -> Phase {
        if self.owner_attached {
            Phase::Starting
        } else if self.live() > 0 {
            Phase::Running
        } else if !self.finished {
            Phase::Draining
        } else {
            Phase::Stopped
        }
    }

    /// The name of the one output store of the run.
    pub open spec fn store_name(self) -> Seq<char> {
        store_name(self.started_at)
    }

    /// The pipeline as it is made: a reader started for each port, the
    /// channel empty, nothing written.
    pub open spec fn initial(ports: Seq<PortSpecView>, started_at: u64) -> PipelineView {
        PipelineView {
            ports,
            readers: Seq::new(ports.len(), |i: int| ReaderState::Idle),
            owner_attached: true,
            pending: Seq::empty(),
            finished: false,
            started_at,
            sent: Seq::empty(),
            stored: Seq::empty(),
        }
    }

    /// The pipeline after the coordinator has let go of its handle.
    pub open spec fn release_handle(self) -> PipelineView {
        PipelineView { owner_attached: false, ..self }
    }

    /// The line that the reader of port `index` sends for `text`.
    pub open spec fn tagged(self, index: int, text: Seq<char>) -> LineView {
        LineView { source_identifier: self.ports[index].identifier, text }
    }

    /// The pipeline after the reader of port `index` has met `event`.
    pub open spec fn reader_step(self, index: int, event: ReaderEventView) -> PipelineView {
        if 0 <= index < self.readers.len() {
            match (self.readers[index], event) {
                (ReaderState::Idle, ReaderEventView::Opened) => PipelineView {
                    readers: self.readers.update(index, ReaderState::Reading),
                    ..self
                },
                (ReaderState::Idle, ReaderEventView::OpenFailed(_)) => PipelineView {
                    readers: self.readers.update(index, ReaderState::Failed),
                    ..self
                },
                (ReaderState::Reading, ReaderEventView::Line(text)) => PipelineView {
                    pending: self.pending.push(self.tagged(index, text)),
                    sent: self.sent.push(self.tagged(index, text)),
                    ..self
                },
                (ReaderState::Reading, ReaderEventView::EndOfInput) => PipelineView {
                    readers: self.readers.update(index, ReaderState::Finished),
                    ..self
                },
                (ReaderState::Reading, ReaderEventView::ReadFailed) => PipelineView {
                    readers: self.readers.update(index, ReaderState::Finished),
                    ..self
                },
                _ => self,
            }
        } else {
            self
        }
    }

    /// What the reader of port `index` does after it has met `event`.
    pub open spec fn reader_action(self, index: int, event: ReaderEventView) -> ReaderActionView {
        if 0 <= index < self.readers.len() {
            match (self.readers[index], event) {
                (ReaderState::Idle, ReaderEventView::Opened) => ReaderActionView::Read,
                (ReaderState::Idle, ReaderEventView::OpenFailed(description)) => {
                    ReaderActionView::Report(
                        PortOpenErrorView {
                            identifier: self.ports[index].identifier,
                            description,
                        },
                    )
                },
                (ReaderState::Reading, ReaderEventView::Line(_)) => ReaderActionView::Read,
                (ReaderState::Reading, ReaderEventView::Undecodable) => ReaderActionView::Read,
                (ReaderState::Reading, ReaderEventView::EndOfInput) => ReaderActionView::Stop,
                (ReaderState::Reading, ReaderEventView::ReadFailed) => ReaderActionView::Stop,
                _ => ReaderActionView::Rejected,
            }
        } else {
            ReaderActionView::Rejected
        }
    }

    /// Whether the reader of port `index` has its port open and reads.
    pub open spec fn reads(self, index: int) -> bool {
        0 <= index < self.readers.len() && self.readers[index] is Reading
    }

    /// The pipeline after the reader of port `index` has met `events`, one
    /// after the other.
    pub open spec fn reader_steps(self, index: int, events: Seq<ReaderEventView>) -> PipelineView
        decreases events.len(),
    {
        if events.len() == 0 {
            self
        } else {
            self.reader_steps(index, events.drop_last()).reader_step(index, events.last())
        }
    }

    /// The lines that the reader of port `index` sends when it meets
    /// `events` while it reads: one for each line of text among them, in
    /// order, tagged with the port's identifier.
    pub open spec fn lines_of(self, index: int, events: Seq<ReaderEventView>) -> Seq<LineView>
        decreases events.len(),
    {
        if events.len() == 0 {
            Seq::empty()
        } else {
            match events.last() {
                ReaderEventView::Line(text) => self.lines_of(index, events.drop_last()).push(
                    self.tagged(index, text),
                ),
                _ => self.lines_of(index, events.drop_last()),
            }
        }
    }

    /// The pipeline after the writer has taken its next step at time `now`.
    pub open spec fn writer_step(self, now: u64) -> PipelineView {
        if self.pending.len() > 0 {
            PipelineView {
                pending: self.pending.drop_first(),
                stored: self.stored.push(stamped(self.pending[0], now)),
                ..self
            }
        } else if self.end_of_stream() {
            PipelineView { finished: true, ..self }
        } else {
            self
        }
    }

    /// What the writer does in its next step at time `now`.
    pub open spec fn writer_output(self, now: u64) -> WriterStepView {
        if self.pending.len() > 0 {
            WriterStepView::Append(stamped(self.pending[0], now))
        } else if self.end_of_stream() {
            WriterStepView::Finish
        } else {
            WriterStepView::Wait
        }
    }
}

/// A change of one reader's state changes the number of handles by that
/// reader's own handle and no other.
pub proof fn lemma_live_readers_update(readers: Seq<ReaderState>, index: int, state: ReaderState)
    requires
        0 <= index < readers.len(),
    ensures
        live_readers(readers.update(index, state)) + (if holds_handle(readers[index]) {
            1nat
        } else {
            0nat
        }) == live_readers(readers) + (if holds_handle(state) {
            1nat
        } else {
            0nat
        }),
    decreases readers.len(),
{
    let changed = readers.update(index, state);
    if index == readers.len() - 1 {
        assert(changed.drop_last() =~= readers.drop_last());
    } else {
        lemma_live_readers_update(readers.drop_last(), index, state);
        assert(changed.drop_last() =~= readers.drop_last().update(index, state));
    }
}

/// Readers that have all just been started all hold a handle.
pub proof fn lemma_live_readers_all_idle(count: nat)
    ensures
        live_readers(Seq::new(count, |i: int| ReaderState::Idle)) == count,
    decreases count,
{
    if count > 0 {
        let all = Seq::new(count, |i: int| ReaderState::Idle);
        lemma_live_readers_all_idle((count - 1) as nat);
        assert(all.drop_last() =~= Seq::new((count - 1) as nat, |i: int| ReaderState::Idle));
    }
}

/// Whether `events` are such as lines of a stream give: text, or the note
/// that a line is no text.
pub open spec fn all_lines(events: Seq<ReaderEventView>) -> bool {
    forall|k: int|
        0 <= k < events.len() ==> (#[trigger] events[k]) is Line || events[k] is Undecodable
}

/// What the ended lines of a stream give a reader is text, or the note that
/// a line is no text, and nothing else.
pub proof fn lemma_line_events_are_lines(lines: Seq<Seq<u8>>)
    ensures
        all_lines(line_events(lines)),
{
}

/// A pipeline made for one to eight ports is in order and in its first
/// phase, with one output store named after the start of the run.
pub proof fn lemma_initial(ports: Seq<PortSpecView>, started_at: u64)
    requires
        1 <= ports.len() <= MAX_PORTS,
    ensures
        PipelineView::initial(ports, started_at).wf(),
        PipelineView::initial(ports, started_at).phase() == Phase::Starting,
        PipelineView::initial(ports, started_at).live() == ports.len(),
        PipelineView::initial(ports, started_at).store_name() == store_name(started_at),
{
    lemma_live_readers_all_idle(ports.len());
}

/// When the coordinator lets go of its handle the pipeline stays in order,
/// moves to no earlier phase, and loses nothing.
pub proof fn lemma_release_handle(v: PipelineView)
    requires
        v.wf(),
    ensures
        v.release_handle().wf(),
        phase_rank(v.release_handle().phase()) >= phase_rank(v.phase()),
        v.release_handle().sent == v.sent,
        v.release_handle().stored == v.stored,
        v.release_handle().pending == v.pending,
        v.release_handle().store_name() == v.store_name(),
        v.release_handle().ports == v.ports,
{
}

/// Whatever a reader meets, the pipeline stays in order and moves to no
/// earlier phase; nothing that was written is touched, and the output store
/// stays the same one.
pub proof fn lemma_reader_step(v: PipelineView, index: int, event: ReaderEventView)
    requires
        v.wf(),
    ensures
        v.reader_step(index, event).wf(),
        phase_rank(v.reader_step(index, event).phase()) >= phase_rank(v.phase()),
        v.reader_step(index, event).stored == v.stored,
        v.reader_step(index, event).ports == v.ports,
        v.reader_step(index, event).store_name() == v.store_name(),
        v.reader_step(index, event).live() <= v.live(),
        v.sent.is_prefix_of(v.reader_step(index, event).sent),
{
    if 0 <= index < v.readers.len() {
        lemma_live_readers_update(v.readers, index, ReaderState::Reading);
        lemma_live_readers_update(v.readers, index, ReaderState::Failed);
        lemma_live_readers_update(v.readers, index, ReaderState::Finished);
    }
}

/// Whatever the writer does, the pipeline stays in order and moves to no
/// earlier phase; the readers and what they have sent are not touched, and
/// the output store is only ever appended to.
pub proof fn lemma_writer_step(v: PipelineView, now: u64)
    requires
        v.wf(),
    ensures
        v.writer_step(now).wf(),
        phase_rank(v.writer_step(now).phase()) >= phase_rank(v.phase()),
        v.writer_step(now).sent == v.sent,
        v.writer_step(now).readers == v.readers,
        v.writer_step(now).ports == v.ports,
        v.writer_step(now).store_name() == v.store_name(),
        v.stored.is_prefix_of(v.writer_step(now).stored),
        v.writer_step(now).stored.len() <= v.stored.len() + 1,
{
    let w = v.writer_step(now);
    if v.pending.len() > 0 {
        assert(recorded_lines(w.stored) + w.pending =~= recorded_lines(v.stored) + v.pending);
    }
}

/// With nothing queued, what the writer does and what becomes of the
/// pipeline do not depend on the time.
pub proof fn lemma_idle_writer_ignores_time(v: PipelineView, now: u64, later: u64)
    requires
        v.pending.len() == 0,
    ensures
        v.writer_step(now) == v.writer_step(later),
        v.writer_output(now) == v.writer_output(later),
{
}

/// One step of a run: something that a reader, the writer or the
/// coordinator does.
pub enum Step {
    /// The coordinator lets go of its handle.
    Release,
    /// The reader of a port meets an event.
    Reader(int, ReaderEventView),
    /// The writer takes its next step at a time.
    Writer(u64),
}

impl PipelineView {
    /// The pipeline after one step.
    pub open spec fn step(self, step: Step) -> PipelineView {
        match step {
            Step::Release => self.release_handle(),
            Step::Reader(index, event) => self.reader_step(index, event),
            Step::Writer(now) => self.writer_step(now),
        }
    }

    /// The pipeline after `steps`, taken one after the other.
    pub open spec fn run(self, steps: Seq<Step>) -> PipelineView
        decreases steps.len(),
    {
        if steps.len() == 0 {
            self
        } else {
            self.run(steps.drop_last()).step(steps.last())
        }
    }
}

/// Whatever readers, writer and coordinator do, and in whatever order, the
/// pipeline stays in order: it moves to no earlier phase, what was sent and
/// what was written is only added to, and the output store stays the one
/// that was named at the start.
pub proof fn lemma_run(v: PipelineView, steps: Seq<Step>)
    requires
        v.wf(),
    ensures
        v.run(steps).wf(),
        phase_rank(v.run(steps).phase()) >= phase_rank(v.phase()),
        v.sent.is_prefix_of(v.run(steps).sent),
        v.stored.is_prefix_of(v.run(steps).stored),
        v.run(steps).ports == v.ports,
        v.run(steps).store_name() == v.store_name(),
    decreases steps.len(),
{
    if steps.len() > 0 {
        let before = v.run(steps.drop_last());
        lemma_run(v, steps.drop_last());
        match steps.last() {
            Step::Release => lemma_release_handle(before),
            Step::Reader(index, event) => lemma_reader_step(before, index, event),
            Step::Writer(now) => lemma_writer_step(before, now),
        }
    }
}

/// A pipeline made for one to eight ports is in order at every moment of
/// every run, and has throughout the one output store that was named
/// after the start of the run.
pub proof fn lemma_every_run(ports: Seq<PortSpecView>, started_at: u64, steps: Seq<Step>)
    requires
        1 <= ports.len() <= MAX_PORTS,
    ensures
        PipelineView::initial(ports, started_at).run(steps).wf(),
        PipelineView::initial(ports, started_at).run(steps).store_name() == store_name(started_at),
        PipelineView::initial(ports, started_at).run(steps).ports == ports,
{
    lemma_initial(ports, started_at);
    lemma_run(PipelineView::initial(ports, started_at), steps);
}

/// A line as it arrives at the channel: the text, and the reader that sent
/// it, named by the place of its port among the configured ports.
pub struct Arrival {
    pub reader: int,
    pub text: Seq<char>,
}

/// The texts in `arrived` that came from the reader `reader`, in the order
/// in which they arrived.
pub open spec fn texts_from(arrived: Seq<Arrival>, reader: int) -> Seq<Seq<char>>
    decreases arrived.len(),
{
    if arrived.len() == 0 {
        Seq::empty()
    } else if arrived.last().reader == reader {
        texts_from(arrived.drop_last(), reader).push(arrived.last().text)
    } else {
        texts_from(arrived.drop_last(), reader)
    }
}

impl PipelineView {
    /// The lines that arrive at the channel in the course of `steps`, in the
    /// order of arrival: one for each line of text that a reader meets while
    /// it reads.
    pub open spec fn arrivals(self, steps: Seq<Step>) -> Seq<Arrival>
        decreases steps.len(),
    {
        if steps.len() == 0 {
            Seq::empty()
        } else {
            let earlier = self.arrivals(steps.drop_last());
            match steps.last() {
                Step::Reader(index, ReaderEventView::Line(text)) => {
                    if self.run(steps.drop_last()).reads(index) {
                        earlier.push(Arrival { reader: index, text })
                    } else {
                        earlier
                    }
                },
                _ => earlier,
            }
        }
    }

    /// The captured lines that `arrived` are, each tagged with the
    /// identifier of its reader's port.
    pub open spec fn tag_all(self, arrived: Seq<Arrival>) -> Seq<LineView> {
        arrived.map_values(|arrival: Arrival| self.tagged(arrival.reader, arrival.text))
    }
}

/// What was sent in a run is what arrived in it, in the order of arrival,
/// and every arrival is from one of the readers.
pub proof fn lemma_sent_is_what_arrived(v: PipelineView, steps: Seq<Step>)
    requires
        v.wf(),
    ensures
        v.run(steps).sent == v.sent + v.tag_all(v.arrivals(steps)),
        forall|k: int|
            0 <= k < v.arrivals(steps).len() ==> 0 <= (#[trigger] v.arrivals(steps)[k]).reader
                < v.ports.len(),
    decreases steps.len(),
{
    if steps.len() > 0 {
        lemma_sent_is_what_arrived(v, steps.drop_last());
        lemma_run(v, steps.drop_last());
    }
}

/// The output store of a run that has stopped holds what arrived in the
/// run: one record for each arrival, in the order of arrival, with the
/// arrival's text and the identifier of its reader's port.
pub proof fn lemma_store_is_what_arrived(
    ports: Seq<PortSpecView>,
    started_at: u64,
    steps: Seq<Step>,
)
    requires
        1 <= ports.len() <= MAX_PORTS,
        PipelineView::initial(ports, started_at).run(steps).phase() == Phase::Stopped,
    ensures
        recorded_lines(PipelineView::initial(ports, started_at).run(steps).stored)
            == PipelineView::initial(ports, started_at).tag_all(
            PipelineView::initial(ports, started_at).arrivals(steps),
        ),
{
    let v = PipelineView::initial(ports, started_at);
    lemma_every_run(ports, started_at, steps);
    lemma_sent_is_what_arrived(v, steps);
    lemma_every_line_recorded_once(v.run(steps));
}

/// The events that `steps` bring to the reader `reader`, in order.
pub open spec fn offered(steps: Seq<Step>, reader: int) -> Seq<ReaderEventView>
    decreases steps.len(),
{
    if steps.len() == 0 {
        Seq::empty()
    } else {
        match steps.last() {
            Step::Reader(index, event) => {
                if index == reader {
                    offered(steps.drop_last(), reader).push(event)
                } else {
                    offered(steps.drop_last(), reader)
                }
            },
            _ => offered(steps.drop_last(), reader),
        }
    }
}

/// The texts of the lines of text among `events`, in order.
pub open spec fn texts_in(events: Seq<ReaderEventView>) -> Seq<Seq<char>>
    decreases events.len(),
{
    if events.len() == 0 {
        Seq::empty()
    } else {
        match events.last() {
            ReaderEventView::Line(text) => texts_in(events.drop_last()).push(text),
            _ => texts_in(events.drop_last()),
        }
    }
}

/// All that a reader meets whose port opens, gives `lines` and comes to its
/// end.
pub open spec fn whole_life(lines: Seq<ReaderEventView>) -> Seq<ReaderEventView> {
    seq![ReaderEventView::Opened] + lines + seq![ReaderEventView::EndOfInput]
}

/// A reader that has so far met the beginning of such a life, whatever
/// else has happened in between, stands where that beginning leaves it, and
/// every line of text that it has met has arrived at the channel, in order.
pub proof fn lemma_reader_life(
    v: PipelineView,
    steps: Seq<Step>,
    reader: int,
    lines: Seq<ReaderEventView>,
)
    requires
        v.wf(),
        0 <= reader < v.readers.len(),
        v.readers[reader] is Idle,
        all_lines(lines),
        offered(steps, reader).is_prefix_of(whole_life(lines)),
    ensures
        v.run(steps).readers.len() == v.readers.len(),
        v.run(steps).readers[reader] == (if offered(steps, reader).len() == 0 {
            ReaderState::Idle
        } else if offered(steps, reader).len() <= lines.len() + 1 {
            ReaderState::Reading
        } else {
            ReaderState::Finished
        }),
        texts_from(v.arrivals(steps), reader) == texts_in(offered(steps, reader)),
    decreases steps.len(),
{
    if steps.len() > 0 {
        let earlier = steps.drop_last();
        let life = whole_life(lines);
        let met = offered(earlier, reader);
        assert(met.is_prefix_of(life));
        lemma_reader_life(v, earlier, reader, lines);
        lemma_run(v, earlier);
        let arrived = v.arrivals(earlier);
        match steps.last() {
            Step::Reader(index, event) => {
                if index == reader {
                    let now_met = offered(steps, reader);
                    assert(now_met.drop_last() =~= met);
                    assert(now_met[met.len() as int] == life[met.len() as int]);
                    if 1 <= met.len() <= lines.len() {
                        match event {
                            ReaderEventView::Line(text) => {
                                let arrival = Arrival { reader, text };
                                assert(arrived.push(arrival).drop_last() =~= arrived);
                            },
                            _ => {},
                        }
                    }
                } else {
                    match event {
                        ReaderEventView::Line(text) => {
                            let arrival = Arrival { reader: index, text };
                            assert(arrived.push(arrival).drop_last() =~= arrived);
                        },
                        _ => {},
                    }
                }
            },
            _ => {},
        }
    }
}

/// How many of `arrived` have come from the first `readers` readers.
pub open spec fn arrivals_from_first(arrived: Seq<Arrival>, readers: int) -> int
    decreases readers,
{
    if readers <= 0 {
        0
    } else {
        arrivals_from_first(arrived, readers - 1) + texts_from(arrived, readers - 1).len()
    }
}

/// One more arrival is one more line from its own reader and from no other.
proof fn lemma_one_more_arrival(arrived: Seq<Arrival>, next: Arrival, readers: int)
    ensures
        arrivals_from_first(arrived.push(next), readers) == arrivals_from_first(arrived, readers)
            + (if 0 <= next.reader < readers {
            1int
        } else {
            0int
        }),
    decreases readers,
{
    if readers > 0 {
        lemma_one_more_arrival(arrived, next, readers - 1);
        assert(arrived.push(next).drop_last() =~= arrived);
    }
}

/// Every arrival is counted with its own reader and with no other: what
/// has arrived is, in number, what the readers have sent.
pub proof fn lemma_arrivals_counted(arrived: Seq<Arrival>, readers: int)
    requires
        forall|k: int| 0 <= k < arrived.len() ==> 0 <= (#[trigger] arrived[k]).reader < readers,
    ensures
        arrived.len() == arrivals_from_first(arrived, readers),
    decreases arrived.len(),
{
    if arrived.len() == 0 {
        lemma_no_arrivals(arrived, readers);
    } else {
        let earlier = arrived.drop_last();
        lemma_arrivals_counted(earlier, readers);
        lemma_one_more_arrival(earlier, arrived.last(), readers);
        assert(earlier.push(arrived.last()) =~= arrived);
    }
}

/// Where nothing has arrived no reader has sent anything.
proof fn lemma_no_arrivals(arrived: Seq<Arrival>, readers: int)
    requires
        arrived.len() == 0,
    ensures
        arrivals_from_first(arrived, readers) == 0,
    decreases readers,
{
    if readers > 0 {
        lemma_no_arrivals(arrived, readers - 1);
    }
}

/// Whatever the order in which the readers take their turns: when a run
/// has stopped in which a reader's port was opened, gave `lines` and came to
/// its end, the output store holds from that reader the lines of text among
/// `lines`, each once and in the order read; and the store holds one record
/// for each line that any reader has sent, and no other.
pub proof fn lemma_store_of_whole_lives(
    ports: Seq<PortSpecView>,
    started_at: u64,
    steps: Seq<Step>,
    reader: int,
    lines: Seq<ReaderEventView>,
)
    requires
        1 <= ports.len() <= MAX_PORTS,
        0 <= reader < ports.len(),
        all_lines(lines),
        offered(steps, reader) == whole_life(lines),
        PipelineView::initial(ports, started_at).run(steps).phase() == Phase::Stopped,
    ensures
        ({
            let start = PipelineView::initial(ports, started_at);
            let arrived = start.arrivals(steps);
            &&& recorded_lines(start.run(steps).stored) == start.tag_all(arrived)
            &&& texts_from(arrived, reader) == texts_in(lines)
            &&& start.run(steps).stored.len() == arrivals_from_first(arrived, ports.len() as int)
        }),
{
    let start = PipelineView::initial(ports, started_at);
    let arrived = start.arrivals(steps);
    lemma_initial(ports, started_at);
    lemma_store_is_what_arrived(ports, started_at, steps);
    lemma_reader_life(start, steps, reader, lines);
    lemma_sent_is_what_arrived(start, steps);
    lemma_arrivals_counted(arrived, ports.len() as int);
    lemma_texts_in_life(lines);
}

/// Two ports, of which the first gives the lines `x1` and `x2` and the
/// second the line `y1` before each comes to its end: however their
/// readers and the writer take turns, the output store of the stopped run
/// holds these three lines and no other, `x1` before `x2`, and `y1` before,
/// between or behind them.
pub proof fn lemma_two_ports_three_lines(
    first: PortSpecView,
    second: PortSpecView,
    started_at: u64,
    steps: Seq<Step>,
    x1: Seq<char>,
    x2: Seq<char>,
    y1: Seq<char>,
)
    requires
        offered(steps, 0) == whole_life(
            seq![ReaderEventView::Line(x1), ReaderEventView::Line(x2)],
        ),
        offered(steps, 1) == whole_life(seq![ReaderEventView::Line(y1)]),
        PipelineView::initial(seq![first, second], started_at).run(steps).phase()
            == Phase::Stopped,
    ensures
        ({
            let written = recorded_lines(
                PipelineView::initial(seq![first, second], started_at).run(steps).stored,
            );
            let a1 = LineView { source_identifier: first.identifier, text: x1 };
            let a2 = LineView { source_identifier: first.identifier, text: x2 };
            let b1 = LineView { source_identifier: second.identifier, text: y1 };
            ||| written == seq![a1, a2, b1]
            ||| written == seq![a1, b1, a2]
            ||| written == seq![b1, a1, a2]
        }),
{
    let ports = seq![first, second];
    let start = PipelineView::initial(ports, started_at);
    let arrived = start.arrivals(steps);
    let from_first = seq![ReaderEventView::Line(x1), ReaderEventView::Line(x2)];
    let from_second = seq![ReaderEventView::Line(y1)];
    lemma_store_of_whole_lives(ports, started_at, steps, 0, from_first);
    lemma_store_of_whole_lives(ports, started_at, steps, 1, from_second);
    lemma_initial(ports, started_at);
    lemma_sent_is_what_arrived(start, steps);
    assert(texts_in(from_first) =~= seq![x1, x2]) by {
        reveal_with_fuel(texts_in, 3);
    }
    assert(texts_in(from_second) =~= seq![y1]) by {
        reveal_with_fuel(texts_in, 2);
    }
    assert(arrived.len() == 3) by {
        reveal_with_fuel(arrivals_from_first, 3);
    }
    assert(0 <= arrived[0].reader < 2 && 0 <= arrived[1].reader < 2 && 0 <= arrived[2].reader
        < 2);
    reveal_with_fuel(texts_from, 4);
    let from_a = texts_from(arrived, 0);
    let from_b = texts_from(arrived, 1);
    assert(from_a[0] == x1 && from_a[1] == x2 && from_b[0] == y1);
    let written = start.tag_all(arrived);
    let a1 = LineView { source_identifier: first.identifier, text: x1 };
    let a2 = LineView { source_identifier: first.identifier, text: x2 };
    let b1 = LineView { source_identifier: second.identifier, text: y1 };
    // The line of the second port is the last to arrive, the middle one or
    // the first.
    if arrived[2].reader == 1 {
        assert(written =~= seq![a1, a2, b1]);
    } else if arrived[1].reader == 1 {
        assert(written =~= seq![a1, b1, a2]);
    } else {
        assert(written =~= seq![b1, a1, a2]);
    }
}

/// Of all that a reader meets in its life only the lines are text.
proof fn lemma_texts_in_life(lines: Seq<ReaderEventView>)
    ensures
        texts_in(whole_life(lines)) == texts_in(lines),
    decreases lines.len(),
{
    let life = whole_life(lines);
    let opened = seq![ReaderEventView::Opened];
    assert(life.drop_last() =~= opened + lines);
    lemma_texts_after_opening(lines);
}

/// The opening of the port is no text.
proof fn lemma_texts_after_opening(lines: Seq<ReaderEventView>)
    ensures
        texts_in(seq![ReaderEventView::Opened] + lines) == texts_in(lines),
    decreases lines.len(),
{
    let opened = seq![ReaderEventView::Opened];
    if lines.len() == 0 {
        assert(texts_in(opened) == texts_in(opened.drop_last()));
    } else {
        lemma_texts_after_opening(lines.drop_last());
        assert((opened + lines).drop_last() =~= opened + lines.drop_last());
    }
}

/// No loss, no duplication: while the pipeline runs, the records written so
/// far are the lines sent so far, one record for one line and in the same
/// order, but for those still in the channel; once it has stopped, none is
/// left there.
pub proof fn lemma_every_line_recorded_once(v: PipelineView)
    requires
        v.wf(),
    ensures
        v.stored.len() + v.pending.len() == v.sent.len(),
        forall|i: int| 0 <= i < v.stored.len() ==> (#[trigger] v.stored[i]).line() == v.sent[i],
        forall|i: int|
            0 <= i < v.pending.len() ==> #[trigger] v.pending[i] == v.sent[v.stored.len() + i],
        v.phase() == Phase::Stopped ==> v.stored.len() == v.sent.len() && recorded_lines(v.stored)
            == v.sent,
{
}

/// A reader sends each line of text that it reads exactly once, in the
/// order read, and passes over the lines that are no text; its state and
/// the other readers stay as they are, and nothing written is touched.
pub proof fn lemma_lines_sent_once(v: PipelineView, index: int, events: Seq<ReaderEventView>)
    requires
        v.wf(),
        v.reads(index),
        all_lines(events),
    ensures
        v.reader_steps(index, events).wf(),
        v.reader_steps(index, events).sent == v.sent + v.lines_of(index, events),
        v.reader_steps(index, events).pending == v.pending + v.lines_of(index, events),
        v.reader_steps(index, events).readers == v.readers,
        v.reader_steps(index, events).stored == v.stored,
        v.reader_steps(index, events).ports == v.ports,
        v.reader_steps(index, events).owner_attached == v.owner_attached,
        v.reader_steps(index, events).finished == v.finished,
        v.reader_steps(index, events).started_at == v.started_at,
    decreases events.len(),
{
    if events.len() > 0 {
        let earlier = events.drop_last();
        lemma_lines_sent_once(v, index, earlier);
        lemma_reader_step(v.reader_steps(index, earlier), index, events.last());
    }
}

/// The order of each port is kept: the records of one port stand in the
/// output store in the order in which that port's lines were sent, and
/// those of its lines that are not written yet wait, in order, behind them.
pub proof fn lemma_port_order_kept(v: PipelineView, identifier: Seq<char>)
    requires
        v.wf(),
    ensures
        from_port(v.sent, identifier) == from_port(recorded_lines(v.stored), identifier)
            + from_port(v.pending, identifier),
        v.phase() == Phase::Stopped ==> from_port(recorded_lines(v.stored), identifier)
            == from_port(v.sent, identifier),
{
    Seq::filter_distributes_over_add(recorded_lines(v.stored), v.pending, is_from(identifier));
}

/// A port that cannot be opened takes nothing from the others: their
/// readers stand as before, nothing sent or written is lost, and whatever
/// another reader meets next is dealt with as if the failure had not been.
pub proof fn lemma_open_failure_is_local(
    v: PipelineView,
    failed: int,
    description: Seq<char>,
    other: int,
    event: ReaderEventView,
)
    requires
        v.wf(),
        0 <= failed < v.readers.len(),
        0 <= other < v.readers.len(),
        failed != other,
    ensures
        ({
            let w = v.reader_step(failed, ReaderEventView::OpenFailed(description));
            &&& w.wf()
            &&& w.readers[other] == v.readers[other]
            &&& w.sent == v.sent
            &&& w.pending == v.pending
            &&& w.stored == v.stored
            &&& w.reader_action(other, event) == v.reader_action(other, event)
            &&& w.reader_step(other, event).sent == v.reader_step(other, event).sent
            &&& w.reader_step(other, event).pending == v.reader_step(other, event).pending
            &&& w.reader_step(other, event).readers[other] == v.reader_step(
                other,
                event,
            ).readers[other]
        }),
{
    lemma_reader_step(v, failed, ReaderEventView::OpenFailed(description));
}

} // verus!
