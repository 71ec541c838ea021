//! A JSON export with one array of finishers per line; each finisher has a
//! rank, a name, a bib, and times written as clock text.  The export does
//! not tell the sex.

use crate::json::{
    duration_at, positive_at, records, records_of, rows, rows_of_text, text_at, Json, JsonView,
};
use crate::duration::Duration;
use crate::{Record, RecordView};
use vstd::prelude::*;
use vstd::string::StringSliceAdditionalSpecFns;

verus! {

/// A finisher.
#[derive(Debug)]
pub struct Placement {
    pub rank: u16,
    pub name: String,
    pub bib: String,
    pub time: Duration,
    pub pace: Duration,
}

/// A finisher in specifications.
pub struct PlacementView {
    pub rank: nat,
    pub name: Seq<char>,
    pub bib: Seq<char>,
    pub time: nat,
    pub pace: nat,
}

impl View for Placement {
    type V = PlacementView;

    open spec fn view(&self) -> PlacementView {
        PlacementView {
            rank: self.rank as nat,
            name: self.name@,
            bib: self.bib@,
            time: self.time@,
            pace: self.pace@,
        }
    }
}

impl DeepView for Placement {
    type V = PlacementView;

    open spec fn deep_view(&self) -> PlacementView {
        self@
    }
}

/// The finisher that the object `row` describes.  `rank` is a whole number
/// from 1 to 65535; `name` and `bib` are strings; `time` and `pace` are
/// strings that write durations.
pub open spec fn placement_of(row: JsonView) -> Option<PlacementView> {
    match (
        positive_at(row, "rank"@, 0xffff),
        text_at(row, "name"@),
        text_at(row, "bib"@),
        duration_at(row, "time"@),
        duration_at(row, "pace"@),
    ) {
        (Some(rank), Some(name), Some(bib), Some(time), Some(pace)) => Some(
            PlacementView { rank, name, bib, time, pace },
        ),
        _ => None,
    }
}

/// The finishers of the document `text`.
pub open spec fn placements_of(text: Seq<u8>) -> Option<Seq<PlacementView>> {
    match rows_of_text(text) {
        Some(rows) => records_of(rows, |row: JsonView| placement_of(row)),
        None => None,
    }
}

/// The finishers of the document `text` as records: the name, the time,
/// without a category.
pub open spec fn records_of_text(text: Seq<u8>) -> Option<Seq<RecordView>> {
    match placements_of(text) {
        Some(found) => Some(
            Seq::new(
                found.len(),
                |i: int|
                    RecordView {
                        name: found[i].name,
                        nanos: found[i].time,
                        category: None,
                    },
            ),
        ),
        None => None,
    }
}

/// Reads the finisher that `row` describes.
fn placement(row: &Json) -> (r: Option<Placement>)
    ensures
        r.deep_view() == placement_of(row@),
{
    match (
        row.positive("rank", 0xffff),
        row.text("name"),
        row.text("bib"),
        row.duration("time"),
        row.duration("pace"),
    ) {
        (Some(rank), Some(name), Some(bib), Some(time), Some(pace)) => Some(
            Placement { rank: rank as u16, name, bib, time, pace },
        ),
        _ => None,
    }
}

impl Placement {
    /// Reads the finishers of a document.
    pub fn results(contents: &str) -> (r: Option<Vec<Placement>>)
        ensures
            r.deep_view() == placements_of(contents.spec_bytes()),
    {
        match rows(contents) {
            Some(found) => records(&found, placement, Ghost(|row: JsonView| placement_of(row))),
            None => None,
        }
    }

    /// The finishers of a document as records.
    pub fn names_and_times(input: &str) -> (r: Option<Vec<Record>>)
        ensures
            r.deep_view() == records_of_text(input.spec_bytes()),
    {
        let found = match Placement::results(input) {
            Some(found) => found,
            None => {
                return None;
            },
        };
        let mut out: Vec<Record> = Vec::new();
        let mut i: usize = 0;
        while i < found.len()
            invariant
                i <= found.len(),
                out.len() == i,
                forall|j: int|
                    0 <= j < i ==> (#[trigger] out[j])@ == (RecordView {
                        name: found[j].name@,
                        nanos: found[j].time@,
                        category: None,
                    }),
            decreases found.len() - i,
        {
            out.push(
                Record {
                    name: found[i].name.clone(),
                    duration: found[i].time,
                    category: None,
                },
            );
            i += 1;
        }
        proof {
            assert(out.deep_view() =~= records_of_text(input.spec_bytes()).unwrap());
        }
        Some(out)
    }
}

} // verus!
