//! A table in comma-separated values, read by the `csv` crate: two rows of
//! preamble, then one finisher per row, in eight columns: last name, first
//! name, sex, age, bib, time, division and place.  Division and place are
//! kept as they are written.

use crate::category::{category_of, morf};
use crate::duration::Duration;
use crate::parser::helpers::scraper::{duration_from, duration_in, positive_from, positive_in};
use crate::text::{full_name, name_of};
use crate::{deep, Record, RecordView};
use vstd::prelude::*;

verus! {

/// The rows that the `csv` crate reads from `text`, where no row is taken
/// for headers: the fields of each row, or nothing for a row that the
/// crate rejects, such as one that has not as many fields as the first.
pub uninterp spec fn csv_rows(text: Seq<char>) -> Seq<Option<Seq<Seq<char>>>>;

/// `csv::Reader::records`, on a reader made by `csv::ReaderBuilder` without
/// a header row: the fields of each row, or nothing for a row that is
/// rejected.
#[verifier::external_body]
fn read_rows(text: &str) -> (rows: Vec<Option<Vec<String>>>)
    ensures
        rows.deep_view() == csv_rows(text@),
{
    csv::ReaderBuilder::new()
        .has_headers(false)
        .from_reader(text.as_bytes())
        .records()
        .map(|row| row.ok().map(|fields| fields.iter().map(String::from).collect()))
        .collect()
}

/// A finisher.
#[derive(Debug)]
pub struct Placement {
    pub last_name: String,
    pub first_name: String,
    pub gender: String,
    pub age: u8,
    pub bib: u8,
    pub time: Duration,
    pub division: String,
    pub place: String,
}

/// A finisher in specifications.
pub struct PlacementView {
    pub last_name: Seq<char>,
    pub first_name: Seq<char>,
    pub gender: Seq<char>,
    pub age: nat,
    pub bib: nat,
    pub nanos: nat,
    pub division: Seq<char>,
    pub place: Seq<char>,
}

impl View for Placement {
    type V = PlacementView;

    open spec fn view(&self) -> PlacementView {
        PlacementView {
            last_name: self.last_name@,
            first_name: self.first_name@,
            gender: self.gender@,
            age: self.age as nat,
            bib: self.bib as nat,
            nanos: self.time@,
            division: self.division@,
            place: self.place@,
        }
    }
}

impl DeepView for Placement {
    type V = PlacementView;

    open spec fn deep_view(&self) -> PlacementView {
        self@
    }
}

/// The finisher that a row describes: the row was read, and has eight
/// fields at least; age and bib are positive numbers of 8 bits, the time is
/// a duration.
pub open spec fn placement_of(row: Option<Seq<Seq<char>>>) -> Option<PlacementView> {
    match row {
        Some(fields) if fields.len() >= 8 => match (
            positive_in(Some(fields[3]), 0xff),
            positive_in(Some(fields[4]), 0xff),
            duration_in(Some(fields[5])),
        ) {
            (Some(age), Some(bib), Some(nanos)) => Some(
                PlacementView {
                    last_name: fields[0],
                    first_name: fields[1],
                    gender: fields[2],
                    age,
                    bib,
                    nanos,
                    division: fields[6],
                    place: fields[7],
                },
            ),
            _ => None,
        },
        _ => None,
    }
}

/// The finishers that the rows from `from` on describe; none if one of
/// these rows describes none.
pub open spec fn placements_from(rows: Seq<Option<Seq<Seq<char>>>>, from: int) -> Option<
    Seq<PlacementView>,
>
    decreases rows.len() - from,
{
    if from < 0 || from >= rows.len() {
        Some(Seq::empty())
    } else {
        match (placement_of(rows[from]), placements_from(rows, from + 1)) {
            (Some(first), Some(rest)) => Some(seq![first] + rest),
            _ => None,
        }
    }
}

/// The finishers of the table `text`: those of its rows after the first
/// two.
pub open spec fn placements_of(text: Seq<char>) -> Option<Seq<PlacementView>> {
    placements_from(csv_rows(text), 2)
}

/// The finishers of the table `text` as records: first and last name with a
/// space between, the time, and the category that the sex stands for.
pub open spec fn records_of(text: Seq<char>) -> Option<Seq<RecordView>> {
    match placements_of(text) {
        Some(found) => Some(
            Seq::new(
                found.len(),
                |i: int|
                    RecordView {
                        name: full_name(found[i].first_name, found[i].last_name),
                        nanos: found[i].nanos,
                        category: category_of(found[i].gender),
                    },
            ),
        ),
        None => None,
    }
}

/// Reads the finisher that a row describes.
fn placement(row: &Option<Vec<String>>) -> (r: Option<Placement>)
    ensures
        r.deep_view() == placement_of(row.deep_view()),
{
    let fields = match row {
        Some(fields) => fields,
        None => {
            return None;
        },
    };
    if fields.len() < 8 {
        return None;
    }
    let age = positive_from(&Some(fields[3].clone()), 0xff);
    let bib = positive_from(&Some(fields[4].clone()), 0xff);
    let time = duration_from(&Some(fields[5].clone()));
    match (age, bib, time) {
        (Some(age), Some(bib), Some(time)) => Some(
            Placement {
                last_name: fields[0].clone(),
                first_name: fields[1].clone(),
                gender: fields[2].clone(),
                age: age as u8,
                bib: bib as u8,
                time,
                division: fields[6].clone(),
                place: fields[7].clone(),
            },
        ),
        _ => None,
    }
}

impl Placement {
    /// Reads the finishers of a table.
    #[verifier::loop_isolation(false)]
    pub fn results(contents: &str) -> (r: Option<Vec<Placement>>)
        ensures
            r.deep_view() == placements_of(contents@),
    {
        let rows = read_rows(contents);
        let mut found: Vec<Placement> = Vec::new();
        let mut i: usize = 2;
        proof {
            assert(found.deep_view() =~= Seq::empty());
        }
        while i < rows.len()
            invariant
                2 <= i,
                match placements_from(rows.deep_view(), i as int) {
                    Some(rest) => placements_from(rows.deep_view(), 2) == Some(
                        found.deep_view() + rest,
                    ),
                    None => placements_from(rows.deep_view(), 2).is_none(),
                },
            decreases rows.len() - i,
        {
            match placement(&rows[i]) {
                Some(row) => {
                    proof {
                        assert(rows.deep_view()[i as int] == rows[i as int].deep_view());
                        assert(deep(found@.push(row)) =~= found.deep_view() + seq![row@]);
                        match placements_from(rows.deep_view(), i + 1) {
                            Some(rest) => {
                                assert(found.deep_view() + (seq![row@] + rest) =~= deep(
                                    found@.push(row),
                                ) + rest);
                            },
                            None => {},
                        }
                    }
                    found.push(row);
                    proof {
                        assert(found.deep_view() =~= deep(found@));
                    }
                },
                None => {
                    proof {
                        assert(rows.deep_view()[i as int] == rows[i as int].deep_view());
                    }
                    return None;
                },
            }
            i += 1;
        }
        proof {
            assert(found.deep_view() + Seq::<PlacementView>::empty() =~= found.deep_view());
        }
        Some(found)
    }

    /// The finishers of a table as records.
    pub fn names_and_times(input: &str) -> (r: Option<Vec<Record>>)
        ensures
            r.deep_view() == records_of(input@),
    {
        let found = match Placement::results(input) {
            Some(found) => found,
            None => {
                return None;
            },
        };
        let mut out: Vec<Record> = Vec::new();
        let mut i: usize = 0;
        while i < found.len()
            invariant
                i <= found.len(),
                out.len() == i,
                forall|j: int|
                    0 <= j < i ==> (#[trigger] out[j])@ == (RecordView {
                        name: full_name(found[j].first_name@, found[j].last_name@),
                        nanos: found[j].time@,
                        category: category_of(found[j].gender@),
                    }),
            decreases found.len() - i,
        {
            let p = &found[i];
            out.push(
                Record {
                    name: name_of(p.first_name.as_str(), p.last_name.as_str()),
                    duration: p.time,
                    category: morf(p.gender.as_str()),
                },
            );
            i += 1;
        }
        proof {
            assert(out.deep_view() =~= records_of(input@).unwrap());
        }
        Some(out)
    }
}

} // verus!
