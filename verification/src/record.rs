//! Captured lines, the records made of them, and how a record and the output
//! store's name are written.

use crate::numeral::{decimal, lemma_decimal_round_trip, push_decimal};
use vstd::prelude::*;
use vstd::string::*;

verus! {

/// One line of text as a port reader hands it on: the text, tagged with the
/// identifier of the port it came from.
#[derive(Clone, Debug, PartialEq, Eq)]
pub struct CapturedLine {
    pub source_identifier: String,
    pub text: String,
}

/// A captured line as contracts see it.
pub struct LineView {
    pub source_identifier: Seq<char>,
    pub text: Seq<char>,
}

impl View for CapturedLine {
    type V = LineView;

    open spec fn view(&self) -> LineView {
        LineView { source_identifier: self.source_identifier@, text: self.text@ }
    }
}

/// One entry of the output store: a captured line and the time, in seconds
/// since the epoch, at which the writer took it from the channel.
#[derive(Clone, Debug, PartialEq, Eq)]
pub struct Record {
    pub timestamp: u64,
    pub source_identifier: String,
    pub text: String,
}

/// A record as contracts see it.
pub struct RecordView {
    pub timestamp: u64,
    pub source_identifier: Seq<char>,
    pub text: Seq<char>,
}

impl View for Record {
    type V = RecordView;

    open spec fn view(&self) -> RecordView {
        RecordView {
            timestamp: self.timestamp,
            source_identifier: self.source_identifier@,
            text: self.text@,
        }
    }
}

impl RecordView {
    /// The captured line that this record was made of.
    pub open spec fn line(self) -> LineView {
        LineView { source_identifier: self.source_identifier, text: self.text }
    }

    /// The record as comma-separated text: timestamp, port identifier, line.
    /// The line is written as it came; a comma in it is not escaped.
    pub open spec fn row(self) -> Seq<char> {
        decimal(self.timestamp as nat) + seq![','] + self.source_identifier + seq![','] + self.text
    }
}

/// The record that `line` becomes when it is taken from the channel at
/// `timestamp`.
pub open spec fn stamped(line: LineView, timestamp: u64) -> RecordView {
    RecordView { timestamp, source_identifier: line.source_identifier, text: line.text }
}

impl CapturedLine {
    /// Tags `text` with the identifier of the port that produced it.
    pub fn new(source_identifier: String, text: String) -> (line: CapturedLine)
        ensures
            line@ == (LineView { source_identifier: source_identifier@, text: text@ }),
    {
        CapturedLine { source_identifier, text }
    }
}

impl Record {
    /// Makes the record of `line`, taken from the channel at `timestamp`.
    pub fn stamp(line: CapturedLine, timestamp: u64) -> (record: Record)
        ensures
            record@ == stamped(line@, timestamp),
            record@.line() == line@,
    {
        Record { timestamp, source_identifier: line.source_identifier, text: line.text }
    }

    /// The line that is appended to the output store for this record: its
    /// row, ended by a newline.
    pub fn to_line(&self) -> (out: String)
        ensures
            out@ == self@.row() + seq!['\n'],
    {
        let mut out = String::new();
        push_decimal(&mut out, self.timestamp);
        proof {
            reveal_strlit(",");
            reveal_strlit("\n");
        }
        out.append(",");
        out.append(self.source_identifier.as_str());
        out.append(",");
        out.append(self.text.as_str());
        out.append("\n");
        out
    }
}

/// The file name of the output store of a run that started at `started_at`
/// seconds since the epoch.
pub open spec fn store_name(started_at: u64) -> Seq<char> {
    decimal(started_at as nat) + seq!['.', 'c', 's', 'v']
}

/// Names the output store after the second at which the run started.
pub fn output_file_name(started_at: u64) -> (name: String)
    ensures
        name@ == store_name(started_at),
{
    let mut name = String::new();
    push_decimal(&mut name, started_at);
    proof {
        reveal_strlit(".csv");
    }
    name.append(".csv");
    name
}

/// Runs that start in different seconds write to differently named stores, so
/// a later run does not overwrite an earlier one.
pub proof fn lemma_store_names_differ(first: u64, second: u64)
    requires
        first != second,
    ensures
        store_name(first) != store_name(second),
{
    let a = decimal(first as nat);
    let b = decimal(second as nat);
    let suffix = seq!['.', 'c', 's', 'v'];
    if store_name(first) == store_name(second) {
        assert(a =~= (a + suffix).take(a.len() as int));
        assert(b =~= (b + suffix).take(b.len() as int));
        lemma_decimal_round_trip(first as nat);
        lemma_decimal_round_trip(second as nat);
    }
}

} // verus!
