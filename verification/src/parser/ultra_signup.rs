//! A JSON export of an event's entrants in groups by how their race ended:
//! an array of pairs, each a heading (status and count) and an array of
//! entrants.  The finishers are the entrants of the group with the status
//! `Finishers`.

use crate::category::{category_of, morf};
use crate::duration::Duration;
use crate::json::{
    duration_at, is_number_at, items_of, json_of, number_at, optional_text_at, parse, positive_at,
    records, records_of, text_at, Json, JsonView,
};
use crate::text::{full_name, name_of, str_eq};
use crate::{Record, RecordView};
use vstd::prelude::*;

verus! {

/// An entrant.
#[derive(Debug)]
pub struct Placement {
    pub place: u16,
    pub first: String,
    pub last: String,
    pub city: Option<String>,
    pub state: Option<String>,
    pub age: u8,
    pub gender: String,
    pub gp: u16,
    pub time: Duration,
}

/// An entrant in specifications.
pub struct PlacementView {
    pub place: nat,
    pub first: Seq<char>,
    pub last: Seq<char>,
    pub city: Option<Seq<char>>,
    pub state: Option<Seq<char>>,
    pub age: nat,
    pub gender: Seq<char>,
    pub gp: nat,
    pub nanos: nat,
}

impl View for Placement {
    type V = PlacementView;

    open spec fn view(&self) -> PlacementView {
        PlacementView {
            place: self.place as nat,
            first: self.first@,
            last: self.last@,
            city: self.city.deep_view(),
            state: self.state.deep_view(),
            age: self.age as nat,
            gender: self.gender@,
            gp: self.gp as nat,
            nanos: self.time@,
        }
    }
}

impl DeepView for Placement {
    type V = PlacementView;

    open spec fn deep_view(&self) -> PlacementView {
        self@
    }
}

/// How the race of the entrants of a group ended.
#[derive(Clone, Copy, Debug, PartialEq, Eq, Structural)]
pub enum Status {
    Finishers,
    DidNotFinish,
    DidNotStart,
    Disqualified,
    UnofficialFinish,
}

/// The status that `name` names.
pub open spec fn status_of(name: Seq<char>) -> Option<Status> {
    if name == "Finishers"@ {
        Some(Status::Finishers)
    } else if name == "DidNotFinish"@ {
        Some(Status::DidNotFinish)
    } else if name == "DidNotStart"@ {
        Some(Status::DidNotStart)
    } else if name == "Disqualified"@ {
        Some(Status::Disqualified)
    } else if name == "UnofficialFinish"@ {
        Some(Status::UnofficialFinish)
    } else {
        None
    }
}

/// The status that `name` names.
fn status_named(name: &str) -> (r: Option<Status>)
    ensures
        r == status_of(name@),
{
    if str_eq(name, "Finishers") {
        Some(Status::Finishers)
    } else if str_eq(name, "DidNotFinish") {
        Some(Status::DidNotFinish)
    } else if str_eq(name, "DidNotStart") {
        Some(Status::DidNotStart)
    } else if str_eq(name, "Disqualified") {
        Some(Status::Disqualified)
    } else if str_eq(name, "UnofficialFinish") {
        Some(Status::UnofficialFinish)
    } else {
        None
    }
}

/// The heading of a group.
#[derive(Debug)]
pub struct StatusWithCount {
    pub status: Status,
    pub count: u16,
}

/// A group: its heading and its entrants.
#[derive(Debug)]
pub struct Group {
    pub heading: StatusWithCount,
    pub placements: Vec<Placement>,
}

/// A group in specifications.
pub struct GroupView {
    pub status: Status,
    pub count: nat,
    pub placements: Seq<PlacementView>,
}

impl View for Group {
    type V = GroupView;

    open spec fn view(&self) -> GroupView {
        GroupView {
            status: self.heading.status,
            count: self.heading.count as nat,
            placements: self.placements.deep_view(),
        }
    }
}

impl DeepView for Group {
    type V = GroupView;

    open spec fn deep_view(&self) -> GroupView {
        self@
    }
}

/// The groups of an export, in the order of the export.
#[derive(Debug)]
pub struct StatusesWithPlacements(pub Vec<Group>);

/// The entrant that the object `row` describes.  `place` and `gp` are whole
/// numbers from 0 to 65535, `age` one from 1 to 255; `first`, `last` and
/// `gender` are strings; `time` is a string that writes a duration; `rank`
/// is a number; `city` and `state` are strings, or null, or missing.
pub open spec fn placement_of(row: JsonView) -> Option<PlacementView> {
    match (
        number_at(row, "place"@, 0xffff),
        text_at(row, "first"@),
        text_at(row, "last"@),
        optional_text_at(row, "city"@),
        optional_text_at(row, "state"@),
        positive_at(row, "age"@, 0xff),
        text_at(row, "gender"@),
        number_at(row, "gp"@, 0xffff),
        duration_at(row, "time"@),
    ) {
        (
            Some(place),
            Some(first),
            Some(last),
            Some(city),
            Some(state),
            Some(age),
            Some(gender),
            Some(gp),
            Some(nanos),
        ) if is_number_at(row, "rank"@) => Some(
            PlacementView { place, first, last, city, state, age, gender, gp, nanos },
        ),
        _ => None,
    }
}

/// The heading that the object `value` describes: `status` names a status,
/// `count` is a whole number from 0 to 65535.
pub open spec fn heading_of(value: JsonView) -> Option<(Status, nat)> {
    match (text_at(value, "status"@), number_at(value, "count"@, 0xffff)) {
        (Some(name), Some(count)) => match status_of(name) {
            Some(status) => Some((status, count)),
            None => None,
        },
        _ => None,
    }
}

/// The group that `pair` describes: an array of a heading and an array of
/// entrants, and nothing more.
pub open spec fn group_of(pair: JsonView) -> Option<GroupView> {
    match items_of(pair) {
        Some(parts) if parts.len() == 2 => match (heading_of(parts[0]), items_of(parts[1])) {
            (Some((status, count)), Some(rows)) => match records_of(
                rows,
                |row: JsonView| placement_of(row),
            ) {
                Some(placements) => Some(GroupView { status, count, placements }),
                None => None,
            },
            _ => None,
        },
        _ => None,
    }
}

/// The groups of the export `contents`: the export is one JSON array, each
/// item of which describes a group.
pub open spec fn groups_of(contents: Seq<char>) -> Option<Seq<GroupView>> {
    match json_of(contents) {
        Some(JsonView::Array(pairs)) => records_of(pairs, |pair: JsonView| group_of(pair)),
        _ => None,
    }
}

/// The finishers of the first group at or after `from` whose status is
/// `Finishers`: each entrant's first and last name with a space between,
/// the time, and the category that the gender stands for.
pub open spec fn finishers_from(groups: Seq<GroupView>, from: int) -> Option<Seq<RecordView>>
    decreases groups.len() - from,
{
    if from < 0 || from >= groups.len() {
        None
    } else if groups[from].status == Status::Finishers {
        Some(
            Seq::new(
                groups[from].placements.len(),
                |i: int|
                    RecordView {
                        name: full_name(
                            groups[from].placements[i].first,
                            groups[from].placements[i].last,
                        ),
                        nanos: groups[from].placements[i].nanos,
                        category: category_of(groups[from].placements[i].gender),
                    },
            ),
        )
    } else {
        finishers_from(groups, from + 1)
    }
}

/// The finishers of the export `input`.
pub open spec fn finishers_of(input: Seq<char>) -> Option<Seq<RecordView>> {
    match groups_of(input) {
        Some(groups) => finishers_from(groups, 0),
        None => None,
    }
}

/// Reads the entrant that `row` describes.
fn placement(row: &Json) -> (r: Option<Placement>)
    ensures
        r.deep_view() == placement_of(row@),
{
    if !row.is_number("rank") {
        return None;
    }
    match (
        row.number("place", 0xffff),
        row.text("first"),
        row.text("last"),
        row.optional_text("city"),
        row.optional_text("state"),
        row.positive("age", 0xff),
        row.text("gender"),
        row.number("gp", 0xffff),
        row.duration("time"),
    ) {
        (
            Some(place),
            Some(first),
            Some(last),
            Some(city),
            Some(state),
            Some(age),
            Some(gender),
            Some(gp),
            Some(time),
        ) => Some(
            Placement {
                place: place as u16,
                first,
                last,
                city,
                state,
                age: age as u8,
                gender,
                gp: gp as u16,
                time,
            },
        ),
        _ => None,
    }
}

/// Reads the heading that `value` describes.
fn heading(value: &Json) -> (r: Option<StatusWithCount>)
    ensures
        match r {
            Some(h) => heading_of(value@) == Some((h.status, h.count as nat)),
            None => heading_of(value@).is_none(),
        },
{
    match (value.text("status"), value.number("count", 0xffff)) {
        (Some(name), Some(count)) => match status_named(name.as_str()) {
            Some(status) => Some(StatusWithCount { status, count: count as u16 }),
            None => None,
        },
        _ => None,
    }
}

/// Reads the group that `pair` describes.
fn group(pair: &Json) -> (r: Option<Group>)
    ensures
        r.deep_view() == group_of(pair@),
{
    let parts = match pair.items() {
        Some(parts) => parts,
        None => {
            return None;
        },
    };
    if parts.len() != 2 {
        return None;
    }
    let found = match heading(&parts[0]) {
        Some(found) => found,
        None => {
            return None;
        },
    };
    let rows = match parts[1].items() {
        Some(rows) => rows,
        None => {
            return None;
        },
    };
    match records(rows, placement, Ghost(|row: JsonView| placement_of(row))) {
        Some(placements) => Some(Group { heading: found, placements }),
        None => None,
    }
}

impl StatusesWithPlacements {
    /// Reads the groups of an export.
    pub fn results(contents: &str) -> (r: Option<StatusesWithPlacements>)
        ensures
            match r {
                Some(found) => groups_of(contents@) == Some(found.0.deep_view()),
                None => groups_of(contents@).is_none(),
            },
    {
        let value = match parse(contents) {
            Some(value) => value,
            None => {
                return None;
            },
        };
        let pairs = match value.items() {
            Some(pairs) => pairs,
            None => {
                return None;
            },
        };
        match records(pairs, group, Ghost(|pair: JsonView| group_of(pair))) {
            Some(groups) => Some(StatusesWithPlacements(groups)),
            None => None,
        }
    }

    /// The finishers of an export: the entrants of its first group with the
    /// status `Finishers`.
    pub fn names_and_times(input: &str) -> (r: Option<Vec<Record>>)
        ensures
            r.deep_view() == finishers_of(input@),
    {
        let found = match StatusesWithPlacements::results(input) {
            Some(found) => found,
            None => {
                return None;
            },
        };
        let groups = found.0;
        let mut g: usize = 0;
        while g < groups.len()
            invariant
                g <= groups.len(),
                groups_of(input@) == Some(groups.deep_view()),
                finishers_from(groups.deep_view(), 0) == finishers_from(
                    groups.deep_view(),
                    g as int,
                ),
            decreases groups.len() - g,
        {
            if groups[g].heading.status == Status::Finishers {
                let placements = &groups[g].placements;
                let mut records: Vec<Record> = Vec::new();
                let mut i: usize = 0;
                while i < placements.len()
                    invariant
                        i <= placements.len(),
                        records.len() == i,
                        forall|j: int|
                            0 <= j < i ==> (#[trigger] records[j])@ == (RecordView {
                                name: full_name(placements[j].first@, placements[j].last@),
                                nanos: placements[j].time@,
                                category: category_of(placements[j].gender@),
                            }),
                    decreases placements.len() - i,
                {
                    let p = &placements[i];
                    records.push(
                        Record {
                            name: name_of(p.first.as_str(), p.last.as_str()),
                            duration: p.time,
                            category: morf(p.gender.as_str()),
                        },
                    );
                    i += 1;
                }
                proof {
                    assert(records.deep_view() =~= finishers_from(
                        groups.deep_view(),
                        g as int,
                    ).unwrap());
                }
                return Some(records);
            }
            g += 1;
        }
        None
    }
}

} // verus!
