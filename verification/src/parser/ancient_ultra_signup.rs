//! A JSON export of one event: an array of entrants, each with a numeric
//! status and the elapsed time as a count of milliseconds written as text.

use crate::category::{category_of, morf};
use crate::duration::{parse_millis, Duration};
use crate::json::{
    is_number_at, json_of, number_at, parse, records, records_of, text_at, Json, JsonView,
};
use crate::text::{full_name, name_of};
use crate::{deep, Record, RecordView};
use vstd::prelude::*;
use vstd::utf8::encode_utf8;

verus! {

/// How an entrant's race ended.
#[derive(Clone, Copy, Debug, PartialEq, Eq, Structural)]
pub enum Status {
    Finished,
    DidNotFinish,
    DidNotStart,
    Disqualified,
}

impl Status {
    /// The status that the export writes as `code`.
    pub open spec fn of_code(code: nat) -> Option<Status> {
        if code == 1 {
            Some(Status::Finished)
        } else if code == 2 {
            Some(Status::DidNotFinish)
        } else if code == 3 {
            Some(Status::DidNotStart)
        } else if code == 5 {
            Some(Status::Disqualified)
        } else {
            None
        }
    }

    /// The status that the export writes as `code`: 1 finished, 2 did not
    /// finish, 3 did not start, 5 disqualified.
    pub fn from_code(code: u64) -> (status: Option<Status>)
        ensures
            status == Status::of_code(code as nat),
    {
        if code == 1 {
            Some(Status::Finished)
        } else if code == 2 {
            Some(Status::DidNotFinish)
        } else if code == 3 {
            Some(Status::DidNotStart)
        } else if code == 5 {
            Some(Status::Disqualified)
        } else {
            None
        }
    }
}

/// An entrant as the export writes it.
#[derive(Debug)]
pub struct PlacementJson {
    pub age: u8,
    pub age_rank: u16,
    pub agegroup: String,
    pub bib: String,
    pub city: String,
    pub drilldown: u8,
    pub firstname: String,
    pub formattime: String,
    pub gender: String,
    pub gender_place: u16,
    pub lastname: String,
    pub participant_id: u32,
    pub photo_count: u16,
    pub place: u16,
    pub prior_count: u16,
    pub race_count: u16,
    pub state: String,
    pub status: u8,
    pub time: String,
}

/// An entrant as the export writes it, in specifications.
pub struct PlacementJsonView {
    pub age: nat,
    pub age_rank: nat,
    pub agegroup: Seq<char>,
    pub bib: Seq<char>,
    pub city: Seq<char>,
    pub drilldown: nat,
    pub firstname: Seq<char>,
    pub formattime: Seq<char>,
    pub gender: Seq<char>,
    pub gender_place: nat,
    pub lastname: Seq<char>,
    pub participant_id: nat,
    pub photo_count: nat,
    pub place: nat,
    pub prior_count: nat,
    pub race_count: nat,
    pub state: Seq<char>,
    pub status: nat,
    pub time: Seq<char>,
}

impl View for PlacementJson {
    type V = PlacementJsonView;

    open spec fn view(&self) -> PlacementJsonView {
        PlacementJsonView {
            age: self.age as nat,
            age_rank: self.age_rank as nat,
            agegroup: self.agegroup@,
            bib: self.bib@,
            city: self.city@,
            drilldown: self.drilldown as nat,
            firstname: self.firstname@,
            formattime: self.formattime@,
            gender: self.gender@,
            gender_place: self.gender_place as nat,
            lastname: self.lastname@,
            participant_id: self.participant_id as nat,
            photo_count: self.photo_count as nat,
            place: self.place as nat,
            prior_count: self.prior_count as nat,
            race_count: self.race_count as nat,
            state: self.state@,
            status: self.status as nat,
            time: self.time@,
        }
    }
}

impl DeepView for PlacementJson {
    type V = PlacementJsonView;

    open spec fn deep_view(&self) -> PlacementJsonView {
        self@
    }
}

/// An entrant.
#[derive(Debug)]
pub struct Placement {
    pub age: u8,
    pub age_rank: u16,
    pub age_group: String,
    pub bib: String,
    pub city: String,
    pub first_name: String,
    pub gender: String,
    pub gender_place: u16,
    pub last_name: String,
    pub participant_id: u32,
    pub place: u16,
    pub state: String,
    pub status: Status,
    pub time: Duration,
    pub name: String,
}

/// An entrant in specifications.
pub struct PlacementView {
    pub age: nat,
    pub age_rank: nat,
    pub age_group: Seq<char>,
    pub bib: Seq<char>,
    pub city: Seq<char>,
    pub first_name: Seq<char>,
    pub gender: Seq<char>,
    pub gender_place: nat,
    pub last_name: Seq<char>,
    pub participant_id: nat,
    pub place: nat,
    pub state: Seq<char>,
    pub status: Status,
    pub nanos: nat,
    pub name: Seq<char>,
}

impl View for Placement {
    type V = PlacementView;

    open spec fn view(&self) -> PlacementView {
        PlacementView {
            age: self.age as nat,
            age_rank: self.age_rank as nat,
            age_group: self.age_group@,
            bib: self.bib@,
            city: self.city@,
            first_name: self.first_name@,
            gender: self.gender@,
            gender_place: self.gender_place as nat,
            last_name: self.last_name@,
            participant_id: self.participant_id as nat,
            place: self.place as nat,
            state: self.state@,
            status: self.status,
            nanos: self.time@,
            name: self.name@,
        }
    }
}

impl DeepView for Placement {
    type V = PlacementView;

    open spec fn deep_view(&self) -> PlacementView {
        self@
    }
}

/// The entrant that the object `row` writes.  The counts and ranks are whole
/// numbers that fit their width (8 bits for `age`, `drilldown` and
/// `status`, 32 for `participant_id`, 16 for the others), `runner_rank` is
/// a number, and the rest are strings.
pub open spec fn json_placement_of(row: JsonView) -> Option<PlacementJsonView> {
    match (
        (
            number_at(row, "age"@, 0xff),
            number_at(row, "age_rank"@, 0xffff),
            text_at(row, "agegroup"@),
            text_at(row, "bib"@),
            text_at(row, "city"@),
            number_at(row, "drilldown"@, 0xff),
            text_at(row, "firstname"@),
            text_at(row, "formattime"@),
            text_at(row, "gender"@),
            number_at(row, "gender_place"@, 0xffff),
        ),
        (
            text_at(row, "lastname"@),
            number_at(row, "participant_id"@, 0xffff_ffff),
            number_at(row, "photo_count"@, 0xffff),
            number_at(row, "place"@, 0xffff),
            number_at(row, "prior_count"@, 0xffff),
            number_at(row, "race_count"@, 0xffff),
            text_at(row, "state"@),
            number_at(row, "status"@, 0xff),
            text_at(row, "time"@),
        ),
    ) {
        (
            (
                Some(age),
                Some(age_rank),
                Some(agegroup),
                Some(bib),
                Some(city),
                Some(drilldown),
                Some(firstname),
                Some(formattime),
                Some(gender),
                Some(gender_place),
            ),
            (
                Some(lastname),
                Some(participant_id),
                Some(photo_count),
                Some(place),
                Some(prior_count),
                Some(race_count),
                Some(state),
                Some(status),
                Some(time),
            ),
        ) if is_number_at(row, "runner_rank"@) => Some(
            PlacementJsonView {
                age,
                age_rank,
                agegroup,
                bib,
                city,
                drilldown,
                firstname,
                formattime,
                gender,
                gender_place,
                lastname,
                participant_id,
                photo_count,
                place,
                prior_count,
                race_count,
                state,
                status,
                time,
            },
        ),
        _ => None,
    }
}

/// The entrant that `json` stands for: the status is the one that the code
/// writes, the time the count of milliseconds that the text writes, the
/// name the first and the last name with a space between.  None where the
/// code writes no status or the text no count.
pub open spec fn placement_from(json: PlacementJsonView) -> Option<PlacementView> {
    match (Status::of_code(json.status), parse_millis(encode_utf8(json.time))) {
        (Some(status), Some(nanos)) => Some(
            PlacementView {
                age: json.age,
                age_rank: json.age_rank,
                age_group: json.agegroup,
                bib: json.bib,
                city: json.city,
                first_name: json.firstname,
                gender: json.gender,
                gender_place: json.gender_place,
                last_name: json.lastname,
                participant_id: json.participant_id,
                place: json.place,
                state: json.state,
                status,
                nanos,
                name: full_name(json.firstname, json.lastname),
            },
        ),
        _ => None,
    }
}

/// The entrant that the object `row` describes.
pub open spec fn placement_of(row: JsonView) -> Option<PlacementView> {
    match json_placement_of(row) {
        Some(json) => placement_from(json),
        None => None,
    }
}

/// The entrants of the export `contents`: the export is one JSON array,
/// each item of which describes an entrant.
pub open spec fn placements_of(contents: Seq<char>) -> Option<Seq<PlacementView>> {
    match json_of(contents) {
        Some(JsonView::Array(rows)) => records_of(rows, |row: JsonView| placement_of(row)),
        _ => None,
    }
}

/// The finishers among `found` as records, in the order of `found`: the
/// name, the time, and the category that the gender stands for.
pub open spec fn finishers_among(found: Seq<PlacementView>) -> Seq<RecordView>
    decreases found.len(),
{
    if found.len() == 0 {
        Seq::empty()
    } else {
        let before = finishers_among(found.drop_last());
        if found.last().status == Status::Finished {
            before.push(
                RecordView {
                    name: found.last().name,
                    nanos: found.last().nanos,
                    category: category_of(found.last().gender),
                },
            )
        } else {
            before
        }
    }
}

/// The finishers of the export `input`.
pub open spec fn finishers_of(input: Seq<char>) -> Option<Seq<RecordView>> {
    match placements_of(input) {
        Some(found) => Some(finishers_among(found)),
        None => None,
    }
}

/// Reads the entrant that `row` writes.
fn json_placement(row: &Json) -> (r: Option<PlacementJson>)
    ensures
        r.deep_view() == json_placement_of(row@),
{
    if !row.is_number("runner_rank") {
        return None;
    }
    match (
        (
            row.number("age", 0xff),
            row.number("age_rank", 0xffff),
            row.text("agegroup"),
            row.text("bib"),
            row.text("city"),
            row.number("drilldown", 0xff),
            row.text("firstname"),
            row.text("formattime"),
            row.text("gender"),
            row.number("gender_place", 0xffff),
        ),
        (
            row.text("lastname"),
            row.number("participant_id", 0xffff_ffff),
            row.number("photo_count", 0xffff),
            row.number("place", 0xffff),
            row.number("prior_count", 0xffff),
            row.number("race_count", 0xffff),
            row.text("state"),
            row.number("status", 0xff),
            row.text("time"),
        ),
    ) {
        (
            (
                Some(age),
                Some(age_rank),
                Some(agegroup),
                Some(bib),
                Some(city),
                Some(drilldown),
                Some(firstname),
                Some(formattime),
                Some(gender),
                Some(gender_place),
            ),
            (
                Some(lastname),
                Some(participant_id),
                Some(photo_count),
                Some(place),
                Some(prior_count),
                Some(race_count),
                Some(state),
                Some(status),
                Some(time),
            ),
        ) => Some(
            PlacementJson {
                age: age as u8,
                age_rank: age_rank as u16,
                agegroup,
                bib,
                city,
                drilldown: drilldown as u8,
                firstname,
                formattime,
                gender,
                gender_place: gender_place as u16,
                lastname,
                participant_id: participant_id as u32,
                photo_count: photo_count as u16,
                place: place as u16,
                prior_count: prior_count as u16,
                race_count: race_count as u16,
                state,
                status: status as u8,
                time,
            },
        ),
        _ => None,
    }
}

/// Reads the entrant that `row` describes.
fn placement(row: &Json) -> (r: Option<Placement>)
    ensures
        r.deep_view() == placement_of(row@),
{
    match json_placement(row) {
        Some(json) => Placement::from(json),
        None => None,
    }
}

impl Placement {
    /// The entrant that `json` stands for.
    pub fn from(json: PlacementJson) -> (r: Option<Placement>)
        ensures
            r.deep_view() == placement_from(json@),
    {
        let age = json.age;
        let age_rank = json.age_rank;
        let age_group = json.agegroup;
        let bib = json.bib;
        let city = json.city;
        let first_name = json.firstname;
        let gender = json.gender;
        let gender_place = json.gender_place;
        let last_name = json.lastname;
        let participant_id = json.participant_id;
        let place = json.place;
        let state = json.state;
        let status = match Status::from_code(json.status as u64) {
            Some(status) => status,
            None => {
                return None;
            },
        };
        let time = match Duration::parse_millis(json.time.as_str().as_bytes()) {
            Some(time) => time,
            None => {
                return None;
            },
        };
        let name = name_of(first_name.as_str(), last_name.as_str());
        Some(
            Placement {
                age,
                age_rank,
                age_group,
                bib,
                city,
                first_name,
                gender,
                gender_place,
                last_name,
                participant_id,
                place,
                state,
                status,
                time,
                name,
            },
        )
    }

    /// Reads the entrants of an export.
    pub fn results(contents: &str) -> (r: Option<Vec<Placement>>)
        ensures
            r.deep_view() == placements_of(contents@),
    {
        let value = match parse(contents) {
            Some(value) => value,
            None => {
                return None;
            },
        };
        match value.items() {
            Some(rows) => records(rows, placement, Ghost(|row: JsonView| placement_of(row))),
            None => None,
        }
    }

    /// The finishers of an export as records.
    pub fn names_and_times(input: &str) -> (r: Option<Vec<Record>>)
        ensures
            r.deep_view() == finishers_of(input@),
    {
        let found = match Placement::results(input) {
            Some(found) => found,
            None => {
                return None;
            },
        };
        let mut out: Vec<Record> = Vec::new();
        let mut i: usize = 0;
        proof {
            assert(found.deep_view().subrange(0, 0) =~= Seq::empty());
            assert(out.deep_view() =~= Seq::empty());
        }
        while i < found.len()
            invariant
                i <= found.len(),
                out.deep_view() == finishers_among(found.deep_view().subrange(0, i as int)),
            decreases found.len() - i,
        {
            proof {
                let next = found.deep_view().subrange(0, i + 1);
                assert(next.drop_last() =~= found.deep_view().subrange(0, i as int));
                assert(next.last() == found[i as int]@);
            }
            let p = &found[i];
            if p.status == Status::Finished {
                let record = Record {
                    name: p.name.clone(),
                    duration: p.time,
                    category: morf(p.gender.as_str()),
                };
                proof {
                    assert(deep(out@.push(record)) =~= out.deep_view().push(record@));
                }
                out.push(record);
                proof {
                    assert(out.deep_view() =~= deep(out@));
                }
            }
            i += 1;
        }
        proof {
            assert(found.deep_view().subrange(0, i as int) =~= found.deep_view());
        }
        Some(out)
    }
}

} // verus!
