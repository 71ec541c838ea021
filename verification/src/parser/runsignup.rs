//! A JSON export with one array of finishers per line; each finisher has a
//! place, a name and a clock time, all strings.

use crate::duration::Duration;
use crate::json::{duration_at, records, records_of, rows, rows_of_text, text_at, Json, JsonView};
use crate::{Record, RecordView};
use vstd::prelude::*;
use vstd::string::StringSliceAdditionalSpecFns;

verus! {

/// A finisher.
#[derive(Debug)]
pub struct Placement {
    pub place: String,
    pub name: String,
    pub clock_time: Duration,
}

/// A finisher in specifications.
pub struct PlacementView {
    pub place: Seq<char>,
    pub name: Seq<char>,
    pub clock_nanos: nat,
}

impl View for Placement {
    type V = PlacementView;

    open spec fn view(&self) -> PlacementView {
        PlacementView { place: self.place@, name: self.name@, clock_nanos: self.clock_time@ }
    }
}

impl DeepView for Placement {
    type V = PlacementView;

    open spec fn deep_view(&self) -> PlacementView {
        self@
    }
}

/// The finisher that the object `row` describes: `place` and `name` are
/// strings, `clock_time` a string that writes a duration.
pub open spec fn placement_of(row: JsonView) -> Option<PlacementView> {
    match (text_at(row, "place"@), text_at(row, "name"@), duration_at(row, "clock_time"@)) {
        (Some(place), Some(name), Some(clock_nanos)) => Some(
            PlacementView { place, name, clock_nanos },
        ),
        _ => None,
    }
}

/// The finishers of the document `text`.
pub open spec fn placements_of(text: Seq<u8>) -> Option<Seq<PlacementView>> {
    match rows_of_text(text) {
        Some(rows) => records_of(rows, |row: JsonView| placement_of(row)),
        None => None,
    }
}

/// The finishers of the document `text` as records: the name and the clock
/// time, without a category.
pub open spec fn records_of_text(text: Seq<u8>) -> Option<Seq<RecordView>> {
    match placements_of(text) {
        Some(found) => Some(
            Seq::new(
                found.len(),
                |i: int|
                    RecordView { name: found[i].name, nanos: found[i].clock_nanos, category: None },
            ),
        ),
        None => None,
    }
}

/// Reads the finisher that `row` describes.
fn placement(row: &Json) -> (r: Option<Placement>)
    ensures
        r.deep_view() == placement_of(row@),
{
    match (row.text("place"), row.text("name"), row.duration("clock_time")) {
        (Some(place), Some(name), Some(clock_time)) => Some(Placement { place, name, clock_time }),
        _ => None,
    }
}

impl Placement {
    /// Reads the finishers of a document.
    pub fn results(contents: &str) -> (r: Option<Vec<Placement>>)
        ensures
            r.deep_view() == placements_of(contents.spec_bytes()),
    {
        match rows(contents) {
            Some(found) => records(&found, placement, Ghost(|row: JsonView| placement_of(row))),
            None => None,
        }
    }

    /// The finishers of a document as records.
    pub fn names_and_times(input: &str) -> (r: Option<Vec<Record>>)
        ensures
            r.deep_view() == records_of_text(input.spec_bytes()),
    {
        let found = match Placement::results(input) {
            Some(found) => found,
            None => {
                return None;
            },
        };
        let mut out: Vec<Record> = Vec::new();
        let mut i: usize = 0;
        while i < found.len()
            invariant
                i <= found.len(),
                out.len() == i,
                forall|j: int|
                    0 <= j < i ==> (#[trigger] out[j])@ == (RecordView {
                        name: found[j].name@,
                        nanos: found[j].clock_time@,
                        category: None,
                    }),
            decreases found.len() - i,
        {
            out.push(
                Record { name: found[i].name.clone(), duration: found[i].clock_time, category: None },
            );
            i += 1;
        }
        proof {
            assert(out.deep_view() =~= records_of_text(input.spec_bytes()).unwrap());
        }
        Some(out)
    }
}

} // verus!
