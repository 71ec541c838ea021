//! A JSON export with one array of finishers per line; each finisher has a
//! name, a sex, ranks overall, among the gender and in the division, and
//! times written as clock text.

use crate::category::{category_of, morf};
use crate::json::{
    duration_at, optional_positive_at, positive_at, records, records_of, rows, rows_of_text,
    text_at, Json, JsonView,
};
use crate::duration::Duration;
use crate::{Record, RecordView};
use vstd::prelude::*;
use vstd::string::StringSliceAdditionalSpecFns;

verus! {

/// A finisher.
#[derive(Debug)]
pub struct Placement {
    pub name: String,
    pub sex: String,
    pub age: Option<u8>,
    pub bib: String,
    pub hometown: String,
    pub rank: u16,
    pub gender_rank: Option<u16>,
    pub division_rank: u16,
    pub pace: Duration,
    pub time: Duration,
}

/// A finisher in specifications.
pub struct PlacementView {
    pub name: Seq<char>,
    pub sex: Seq<char>,
    pub age: Option<nat>,
    pub bib: Seq<char>,
    pub hometown: Seq<char>,
    pub rank: nat,
    pub gender_rank: Option<nat>,
    pub division_rank: nat,
    pub pace: nat,
    pub time: nat,
}

impl View for Placement {
    type V = PlacementView;

    open spec fn view(&self) -> PlacementView {
        PlacementView {
            name: self.name@,
            sex: self.sex@,
            age: match self.age { Some(n) => Some(n as nat), None => None },
            bib: self.bib@,
            hometown: self.hometown@,
            rank: self.rank as nat,
            gender_rank: match self.gender_rank { Some(n) => Some(n as nat), None => None },
            division_rank: self.division_rank as nat,
            pace: self.pace@,
            time: self.time@,
        }
    }
}

impl DeepView for Placement {
    type V = PlacementView;

    open spec fn deep_view(&self) -> PlacementView {
        self@
    }
}

/// The finisher that the object `row` describes.  `rank` and
/// `division_rank` are whole numbers from 1 to 65535; `name`, `sex`, `bib`
/// and `hometown` are strings; `pace` and `time` are strings that write
/// durations; `age` is a whole number from 1 to 255 and `gender_rank` one
/// from 1 to 65535, each of which may also be null or missing.
pub open spec fn placement_of(row: JsonView) -> Option<PlacementView> {
    match (
        text_at(row, "name"@),
        text_at(row, "sex"@),
        optional_positive_at(row, "age"@, 0xff),
        text_at(row, "bib"@),
        text_at(row, "hometown"@),
        positive_at(row, "rank"@, 0xffff),
        optional_positive_at(row, "gender_rank"@, 0xffff),
        positive_at(row, "division_rank"@, 0xffff),
        duration_at(row, "pace"@),
        duration_at(row, "time"@),
    ) {
        (Some(name), Some(sex), Some(age), Some(bib), Some(hometown), Some(rank), Some(gender_rank), Some(division_rank), Some(pace), Some(time)) => Some(
            PlacementView { name, sex, age, bib, hometown, rank, gender_rank, division_rank, pace, time },
        ),
        _ => None,
    }
}

/// The finishers of the document `text`.
pub open spec fn placements_of(text: Seq<u8>) -> Option<Seq<PlacementView>> {
    match rows_of_text(text) {
        Some(rows) => records_of(rows, |row: JsonView| placement_of(row)),
        None => None,
    }
}

/// The finishers of the document `text` as records: the name, the time,
/// and the category that the sex stands for.
pub open spec fn records_of_text(text: Seq<u8>) -> Option<Seq<RecordView>> {
    match placements_of(text) {
        Some(found) => Some(
            Seq::new(
                found.len(),
                |i: int|
                    RecordView {
                        name: found[i].name,
                        nanos: found[i].time,
                        category: category_of(found[i].sex),
                    },
            ),
        ),
        None => None,
    }
}

/// Reads the finisher that `row` describes.
fn placement(row: &Json) -> (r: Option<Placement>)
    ensures
        r.deep_view() == placement_of(row@),
{
    match (
        row.text("name"),
        row.text("sex"),
        row.optional_positive("age", 0xff),
        row.text("bib"),
        row.text("hometown"),
        row.positive("rank", 0xffff),
        row.optional_positive("gender_rank", 0xffff),
        row.positive("division_rank", 0xffff),
        row.duration("pace"),
        row.duration("time"),
    ) {
        (Some(name), Some(sex), Some(age), Some(bib), Some(hometown), Some(rank), Some(gender_rank), Some(division_rank), Some(pace), Some(time)) => Some(
            Placement { name, sex, age: match age { Some(n) => Some(n as u8), None => None }, bib, hometown, rank: rank as u16, gender_rank: match gender_rank { Some(n) => Some(n as u16), None => None }, division_rank: division_rank as u16, pace, time },
        ),
        _ => None,
    }
}

impl Placement {
    /// Reads the finishers of a document.
    pub fn results(contents: &str) -> (r: Option<Vec<Placement>>)
        ensures
            r.deep_view() == placements_of(contents.spec_bytes()),
    {
        match rows(contents) {
            Some(found) => records(&found, placement, Ghost(|row: JsonView| placement_of(row))),
            None => None,
        }
    }

    /// The finishers of a document as records.
    pub fn names_and_times(input: &str) -> (r: Option<Vec<Record>>)
        ensures
            r.deep_view() == records_of_text(input.spec_bytes()),
    {
        let found = match Placement::results(input) {
            Some(found) => found,
            None => {
                return None;
            },
        };
        let mut out: Vec<Record> = Vec::new();
        let mut i: usize = 0;
        while i < found.len()
            invariant
                i <= found.len(),
                out.len() == i,
                forall|j: int|
                    0 <= j < i ==> (#[trigger] out[j])@ == (RecordView {
                        name: found[j].name@,
                        nanos: found[j].time@,
                        category: category_of(found[j].sex@),
                    }),
            decreases found.len() - i,
        {
            out.push(
                Record {
                    name: found[i].name.clone(),
                    duration: found[i].time,
                    category: morf(found[i].sex.as_str()),
                },
            );
            i += 1;
        }
        proof {
            assert(out.deep_view() =~= records_of_text(input.spec_bytes()).unwrap());
        }
        Some(out)
    }
}

} // verus!
