//! A saved results page whose table rows are told apart by class and whose
//! cells name their column in an `aria-describedby` attribute.
//!
//! A row of class `listghead_0` is a heading, `Status - count`, and opens a
//! group.  Every other row whose first cell is described by `list_results`
//! is an entrant of the group that is open; its remaining cells are read by
//! the columns they name.

use crate::category::category_of;
use crate::duration::{parse_duration, Duration};
use crate::html::{
    attribute, attribute_of, has_class, has_class_of, parse_document, parsed, select, select_below,
    selected, selected_below, selector, selector_of, texts, texts_of,
};
use crate::parser::helpers::scraper::{number_from, number_in};
use crate::scan::{find, find_from, is_float, is_float_text, parse_unsigned, slice_of, unsigned};
use crate::text::{decode_lossy, full_name, join, joined, lossy_text, name_of, str_eq};
use crate::{deep, Record, RecordView};
use vstd::prelude::*;
use vstd::string::StringSliceAdditionalSpecFns;
use vstd::utf8::encode_utf8;

verus! {

/// A column that a cell can name.
#[derive(Clone, Copy, Debug, PartialEq, Eq, Structural, Hash)]
pub enum Field {
    Place,
    First,
    Last,
    City,
    State,
    Age,
    Gender,
    Gp,
    Time,
    Rank,
}

/// The column that a cell names by the value `key` of its
/// `aria-describedby` attribute.
pub open spec fn aria_field(key: Seq<char>) -> Option<Field> {
    if key == "list_place"@ {
        Some(Field::Place)
    } else if key == "list_firstname"@ {
        Some(Field::First)
    } else if key == "list_lastname"@ {
        Some(Field::Last)
    } else if key == "list_city"@ {
        Some(Field::City)
    } else if key == "list_state"@ {
        Some(Field::State)
    } else if key == "list_age"@ {
        Some(Field::Age)
    } else if key == "list_gender"@ {
        Some(Field::Gender)
    } else if key == "list_gender_place"@ {
        Some(Field::Gp)
    } else if key == "list_formattime"@ {
        Some(Field::Time)
    } else if key == "list_runner_rank"@ {
        Some(Field::Rank)
    } else {
        None
    }
}

/// The column that a cell names by the value `key` of its
/// `aria-describedby` attribute.
fn field_for(key: &str) -> (field: Option<Field>)
    ensures
        field == aria_field(key@),
{
    if str_eq(key, "list_place") {
        Some(Field::Place)
    } else if str_eq(key, "list_firstname") {
        Some(Field::First)
    } else if str_eq(key, "list_lastname") {
        Some(Field::Last)
    } else if str_eq(key, "list_city") {
        Some(Field::City)
    } else if str_eq(key, "list_state") {
        Some(Field::State)
    } else if str_eq(key, "list_age") {
        Some(Field::Age)
    } else if str_eq(key, "list_gender") {
        Some(Field::Gender)
    } else if str_eq(key, "list_gender_place") {
        Some(Field::Gp)
    } else if str_eq(key, "list_formattime") {
        Some(Field::Time)
    } else if str_eq(key, "list_runner_rank") {
        Some(Field::Rank)
    } else {
        None
    }
}

impl Field {
    /// The position of the column among the ten.
    pub open spec fn index_spec(self) -> int {
        match self {
            Field::Place => 0,
            Field::First => 1,
            Field::Last => 2,
            Field::City => 3,
            Field::State => 4,
            Field::Age => 5,
            Field::Gender => 6,
            Field::Gp => 7,
            Field::Time => 8,
            Field::Rank => 9,
        }
    }

    fn index(self) -> (i: usize)
        ensures
            i == self.index_spec(),
            i < 10,
    {
        match self {
            Field::Place => 0,
            Field::First => 1,
            Field::Last => 2,
            Field::City => 3,
            Field::State => 4,
            Field::Age => 5,
            Field::Gender => 6,
            Field::Gp => 7,
            Field::Time => 8,
            Field::Rank => 9,
        }
    }
}

/// The column that `cell` names, if it names one.
pub open spec fn cell_field(cell: scraper::ElementRef<'static>) -> Option<Field> {
    match attribute_of(cell, "aria-describedby"@) {
        Some(key) => aria_field(key),
        None => None,
    }
}

/// The text that `cells` give for the column `field`: all the text of the
/// last cell that names it.
pub open spec fn value_for(cells: Seq<scraper::ElementRef<'static>>, field: Field) -> Option<
    Seq<char>,
>
    decreases cells.len(),
{
    if cells.len() == 0 {
        None
    } else if cell_field(cells.last()) == Some(field) {
        Some(joined(texts_of(cells.last())))
    } else {
        value_for(cells.drop_last(), field)
    }
}

/// An entrant.
#[derive(Debug)]
pub struct Placement {
    pub place: u16,
    pub first: String,
    pub last: String,
    pub city: Option<String>,
    pub state: Option<String>,
    pub age: u8,
    pub gender: String,
    pub gp: u16,
    pub time: Duration,
    pub rank: String,
}

/// An entrant in specifications.
pub struct PlacementView {
    pub place: nat,
    pub first: Seq<char>,
    pub last: Seq<char>,
    pub city: Option<Seq<char>>,
    pub state: Option<Seq<char>>,
    pub age: nat,
    pub gender: Seq<char>,
    pub gp: nat,
    pub nanos: nat,
    pub rank: Seq<char>,
}

impl View for Placement {
    type V = PlacementView;

    open spec fn view(&self) -> PlacementView {
        PlacementView {
            place: self.place as nat,
            first: self.first@,
            last: self.last@,
            city: self.city.deep_view(),
            state: self.state.deep_view(),
            age: self.age as nat,
            gender: self.gender@,
            gp: self.gp as nat,
            nanos: self.time@,
            rank: self.rank@,
        }
    }
}

impl DeepView for Placement {
    type V = PlacementView;

    open spec fn deep_view(&self) -> PlacementView {
        self@
    }
}

/// The time that stands for an entrant who did not finish, in nanoseconds:
/// 9,999,999 seconds.
pub open spec fn unfinished_nanos() -> nat {
    9_999_999 * 1_000_000_000
}

/// The entrant that the cells of a row describe.  Place, age, place among
/// the gender, rank, gender and both names must be there and well formed:
/// the places numbers of 16 bits, the age a positive number of 8 bits, the
/// rank a number with a fraction.  An entrant with place 0 among all and
/// among the gender did not finish and gets the time that stands for that;
/// for every other, the time must be there and be a duration.  City and
/// state may be missing.
pub open spec fn placement_of(cells: Seq<scraper::ElementRef<'static>>) -> Option<PlacementView> {
    match (
        number_in(value_for(cells, Field::Place), 0xffff),
        number_in(value_for(cells, Field::Age), 0xff),
        number_in(value_for(cells, Field::Gp), 0xffff),
        value_for(cells, Field::Rank),
        value_for(cells, Field::Gender),
        value_for(cells, Field::First),
        value_for(cells, Field::Last),
    ) {
        (Some(place), Some(age), Some(gp), Some(rank), Some(gender), Some(first), Some(last))
            if age > 0 && is_float_text(encode_utf8(rank)) => {
            let time = if place == 0 && gp == 0 {
                Some(unfinished_nanos())
            } else {
                match value_for(cells, Field::Time) {
                    Some(text) => parse_duration(encode_utf8(text)),
                    None => None,
                }
            };
            match time {
                Some(nanos) => Some(
                    PlacementView {
                        place,
                        first,
                        last,
                        city: value_for(cells, Field::City),
                        state: value_for(cells, Field::State),
                        age,
                        gender,
                        gp,
                        nanos,
                        rank,
                    },
                ),
                None => None,
            }
        },
        _ => None,
    }
}

/// The texts that `cells` give for the ten columns.
fn column_values(cells: &Vec<scraper::ElementRef>) -> (values: Vec<Option<String>>)
    ensures
        values.len() == 10,
        forall|field: Field| #[trigger]
            values[field.index_spec()].deep_view() == value_for(cells@, field),
{
    let mut values: Vec<Option<String>> = Vec::new();
    let mut k: usize = 0;
    while k < 10
        invariant
            k <= 10,
            values.len() == k,
            forall|j: int| 0 <= j < k ==> (#[trigger] values[j]).is_none(),
        decreases 10 - k,
    {
        values.push(None);
        k += 1;
    }
    let ghost all = cells@;
    let mut i: usize = 0;
    proof {
        assert(all.subrange(0, 0) =~= Seq::empty());
    }
    while i < cells.len()
        invariant
            i <= cells.len(),
            values.len() == 10,
            all == cells@,
            forall|field: Field| #[trigger]
                values[field.index_spec()].deep_view() == value_for(
                    all.subrange(0, i as int),
                    field,
                ),
        decreases cells.len() - i,
    {
        let cell = cells[i];
        let ghost before = all.subrange(0, i as int);
        let ghost after = all.subrange(0, i + 1);
        proof {
            assert(after.drop_last() =~= before);
            assert(after.last() == cell);
        }
        let key = attribute(cell, "aria-describedby");
        let field = match &key {
            Some(key) => field_for(key.as_str()),
            None => None,
        };
        match field {
            Some(field) => {
                let text = join(&texts(cell));
                let ghost old_values = values@;
                values.set(field.index(), Some(text));
                proof {
                    assert forall|other: Field| #[trigger]
                        values[other.index_spec()].deep_view() == value_for(after, other) by {
                        if other != field {
                            assert(values[other.index_spec()] == old_values[other.index_spec()]);
                        }
                    }
                }
            },
            None => {},
        }
        i += 1;
    }
    proof {
        assert(all.subrange(0, i as int) =~= all);
    }
    values
}

/// Takes the text out of a slot of `values`.
fn take_value(values: &mut Vec<Option<String>>, field: Field) -> (text: Option<String>)
    requires
        old(values).len() == 10,
    ensures
        final(values).len() == 10,
        text.deep_view() == old(values)[field.index_spec()].deep_view(),
        forall|j: int|
            0 <= j < 10 && j != field.index_spec() ==> final(values)[j] == old(values)[j],
{
    let mut taken: Option<String> = None;
    let i = field.index();
    let ghost before = values@;
    match &values[i] {
        Some(text) => {
            taken = Some(text.clone());
        },
        None => {},
    }
    values.set(i, None);
    taken
}

impl Placement {
    /// Reads an entrant from the cells of a row that come after the first.
    pub fn from_list_result(tds: &Vec<scraper::ElementRef>) -> (r: Option<Placement>)
        ensures
            r.deep_view() == placement_of(tds@),
    {
        let mut values = column_values(tds);
        let ghost tail = tds@;
        proof {
            assert(values[Field::Place.index_spec()].deep_view() == value_for(tail, Field::Place));
            assert(values[Field::First.index_spec()].deep_view() == value_for(tail, Field::First));
            assert(values[Field::Last.index_spec()].deep_view() == value_for(tail, Field::Last));
            assert(values[Field::City.index_spec()].deep_view() == value_for(tail, Field::City));
            assert(values[Field::State.index_spec()].deep_view() == value_for(tail, Field::State));
            assert(values[Field::Age.index_spec()].deep_view() == value_for(tail, Field::Age));
            assert(values[Field::Gender.index_spec()].deep_view() == value_for(
                tail,
                Field::Gender,
            ));
            assert(values[Field::Gp.index_spec()].deep_view() == value_for(tail, Field::Gp));
            assert(values[Field::Time.index_spec()].deep_view() == value_for(tail, Field::Time));
            assert(values[Field::Rank.index_spec()].deep_view() == value_for(tail, Field::Rank));
        }
        let place = match number_from(&values[0], 0xffff) {
            Some(n) => n as u16,
            None => {
                return None;
            },
        };
        let age = match number_from(&values[5], 0xff) {
            Some(n) => n as u8,
            None => {
                return None;
            },
        };
        if age == 0 {
            return None;
        }
        let gp = match number_from(&values[7], 0xffff) {
            Some(n) => n as u16,
            None => {
                return None;
            },
        };
        let rank_ok = match &values[9] {
            Some(rank) => is_float(rank.as_str().as_bytes()),
            None => false,
        };
        if !rank_ok {
            return None;
        }
        let time = if place == 0 && gp == 0 {
            Duration::new_hour_min_sec(0, 0, 9_999_999)
        } else {
            let read = match &values[8] {
                Some(text) => Duration::parse(text.as_str().as_bytes()),
                None => None,
            };
            match read {
                Some(time) => time,
                None => {
                    return None;
                },
            }
        };
        let state = take_value(&mut values, Field::State);
        let city = take_value(&mut values, Field::City);
        let gender = match take_value(&mut values, Field::Gender) {
            Some(text) => text,
            None => {
                return None;
            },
        };
        let first = match take_value(&mut values, Field::First) {
            Some(text) => text,
            None => {
                return None;
            },
        };
        let last = match take_value(&mut values, Field::Last) {
            Some(text) => text,
            None => {
                return None;
            },
        };
        let rank = match take_value(&mut values, Field::Rank) {
            Some(text) => text,
            None => {
                return None;
            },
        };
        Some(Placement { place, first, last, city, state, age, gender, gp, time, rank })
    }
}

} // verus!

verus! {

/// The heading of a group: how its entrants ended, and how many they are.
#[derive(Debug)]
pub struct StatusWithCount {
    pub status: String,
    pub count: u16,
}

/// A group: its heading and its entrants.
#[derive(Debug)]
pub struct Group {
    pub heading: StatusWithCount,
    pub placements: Vec<Placement>,
}

/// A group in specifications.
pub struct GroupView {
    pub status: Seq<char>,
    pub count: nat,
    pub placements: Seq<PlacementView>,
}

impl View for Group {
    type V = GroupView;

    open spec fn view(&self) -> GroupView {
        GroupView {
            status: self.heading.status@,
            count: self.heading.count as nat,
            placements: self.placements.deep_view(),
        }
    }
}

impl DeepView for Group {
    type V = GroupView;

    open spec fn deep_view(&self) -> GroupView {
        self@
    }
}

/// The groups of a page, in the order of the page.
#[derive(Debug)]
pub struct StatusesWithPlacements(pub Vec<Group>);

/// What a heading says: the text is `status - count`, with ` - ` in it just
/// once and `count` a number of 16 bits.
pub open spec fn heading_of(text: Seq<u8>) -> Option<(Seq<char>, nat)> {
    match find_from(text, " - ".spec_bytes(), 0) {
        Some(at) => {
            let rest = at + " - ".spec_bytes().len();
            match (
                find_from(text, " - ".spec_bytes(), rest),
                parse_unsigned(text.subrange(rest, text.len() as int), 0xffff),
            ) {
                (None, Some(count)) => Some((lossy_text(text.subrange(0, at)), count)),
                _ => None,
            }
        },
        None => None,
    }
}

/// The entrant that a row describes: its first cell is described by
/// `list_results`, and the cells after it describe an entrant.
pub open spec fn row_placement(
    row: scraper::ElementRef<'static>,
    td: scraper::Selector,
) -> Option<PlacementView> {
    let cells = selected_below(row, td);
    if cells.len() > 0 && attribute_of(cells[0], "aria-describedby"@) == Some("list_results"@) {
        placement_of(cells.subrange(1, cells.len() as int))
    } else {
        None
    }
}

/// `groups` with `placement` added to the last group.
pub open spec fn with_placement(groups: Seq<GroupView>, placement: PlacementView) -> Seq<
    GroupView,
> {
    groups.drop_last().push(
        GroupView {
            status: groups.last().status,
            count: groups.last().count,
            placements: groups.last().placements.push(placement),
        },
    )
}

/// The groups that `rows` make, or none while no heading has been seen.  A
/// row of class `listghead_0` with a well-formed heading opens a group; any
/// other row that describes an entrant adds the entrant to the group that
/// is open; rows that do neither are passed over.
pub open spec fn groups_of(rows: Seq<scraper::ElementRef<'static>>, td: scraper::Selector) -> Option<
    Seq<GroupView>,
>
    decreases rows.len(),
{
    if rows.len() == 0 {
        None
    } else {
        let before = groups_of(rows.drop_last(), td);
        let row = rows.last();
        if has_class_of(row, "listghead_0"@) {
            match heading_of(encode_utf8(joined(texts_of(row)))) {
                Some((status, count)) => Some(
                    (match before {
                        Some(groups) => groups,
                        None => Seq::empty(),
                    }).push(GroupView { status, count, placements: Seq::empty() }),
                ),
                None => before,
            }
        } else {
            match (before, row_placement(row, td)) {
                (Some(groups), Some(placement)) if groups.len() > 0 => Some(
                    with_placement(groups, placement),
                ),
                _ => before,
            }
        }
    }
}

/// The rows of `bodies`, body after body.
pub open spec fn rows_of(bodies: Seq<scraper::ElementRef<'static>>, tr: scraper::Selector) -> Seq<
    scraper::ElementRef<'static>,
>
    decreases bodies.len(),
{
    if bodies.len() == 0 {
        Seq::empty()
    } else {
        rows_of(bodies.drop_last(), tr) + selected_below(bodies.last(), tr)
    }
}

/// The groups of the page `contents`: those of the `tr` rows of its `tbody`
/// elements.
pub open spec fn page_groups(contents: Seq<char>) -> Option<Seq<GroupView>> {
    match (selector_of("tbody"@), selector_of("tr"@), selector_of("td"@)) {
        (Some(tbody), Some(tr), Some(td)) => groups_of(
            rows_of(selected(parsed(contents), tbody), tr),
            td,
        ),
        _ => None,
    }
}

/// The finishers of the first group at or after `from` whose status is
/// `Finishers`: each entrant's first and last name with a space between,
/// the time, and the category that the gender stands for.
pub open spec fn finishers_from(groups: Seq<GroupView>, from: int) -> Option<Seq<RecordView>>
    decreases groups.len() - from,
{
    if from < 0 || from >= groups.len() {
        None
    } else if groups[from].status == "Finishers"@ {
        Some(
            Seq::new(
                groups[from].placements.len(),
                |i: int|
                    RecordView {
                        name: full_name(
                            groups[from].placements[i].first,
                            groups[from].placements[i].last,
                        ),
                        nanos: groups[from].placements[i].nanos,
                        category: category_of(groups[from].placements[i].gender),
                    },
            ),
        )
    } else {
        finishers_from(groups, from + 1)
    }
}

/// The finishers of the page `input`.
pub open spec fn page_finishers(input: Seq<char>) -> Option<Seq<RecordView>> {
    match page_groups(input) {
        Some(groups) => finishers_from(groups, 0),
        None => None,
    }
}

/// Reads a heading.
fn heading(text: &[u8]) -> (r: Option<StatusWithCount>)
    ensures
        match r {
            Some(h) => heading_of(text@) == Some((h.status@, h.count as nat)),
            None => heading_of(text@).is_none(),
        },
{
    let separator = " - ".as_bytes();
    let at = match find(text, separator, 0) {
        Some(at) => at,
        None => {
            return None;
        },
    };
    let rest = at + separator.len();
    if find(text, separator, rest).is_some() {
        return None;
    }
    match unsigned(slice_of(text, rest, text.len()), 0xffff) {
        Some(count) => Some(
            StatusWithCount { status: decode_lossy(slice_of(text, 0, at)), count: count as u16 },
        ),
        None => None,
    }
}

/// The state of reading the rows of a page: the groups that are closed, and
/// the heading and entrants of the one that is open.
pub open spec fn groups_so_far(
    closed: Seq<Group>,
    open: Option<StatusWithCount>,
    current: Seq<Placement>,
) -> Option<Seq<GroupView>> {
    match open {
        Some(heading) => Some(
            deep(closed).push(
                GroupView {
                    status: heading.status@,
                    count: heading.count as nat,
                    placements: deep(current),
                },
            ),
        ),
        None => None,
    }
}

impl StatusesWithPlacements {
    /// Reads the groups of a page.
    pub fn results(contents: &str) -> (r: Option<StatusesWithPlacements>)
        ensures
            match r {
                Some(found) => page_groups(contents@) == Some(found.0.deep_view()),
                None => page_groups(contents@).is_none(),
            },
    {
        let (tbody, tr, td) = match (selector("tbody"), selector("tr"), selector("td")) {
            (Some(tbody), Some(tr), Some(td)) => (tbody, tr, td),
            _ => {
                return None;
            },
        };
        let document = parse_document(contents);
        let bodies = select(&document, &tbody);
        let mut closed: Vec<Group> = Vec::new();
        let mut open: Option<StatusWithCount> = None;
        let mut current: Vec<Placement> = Vec::new();
        let mut b: usize = 0;
        proof {
            assert(bodies@.subrange(0, 0) =~= Seq::empty());
        }
        while b < bodies.len()
            invariant
                b <= bodies.len(),
                open.is_none() ==> closed.len() == 0,
                groups_of(rows_of(bodies@.subrange(0, b as int), tr), td) == groups_so_far(
                    closed@,
                    open,
                    current@,
                ),
            decreases bodies.len() - b,
        {
            let rows = select_below(bodies[b], &tr);
            let ghost done = rows_of(bodies@.subrange(0, b as int), tr);
            proof {
                let next = bodies@.subrange(0, b + 1);
                assert(next.drop_last() =~= bodies@.subrange(0, b as int));
                assert(next.last() == bodies@[b as int]);
                assert(done + rows@.subrange(0, 0) =~= done);
            }
            let mut r: usize = 0;
            while r < rows.len()
                invariant
                    r <= rows.len(),
                    open.is_none() ==> closed.len() == 0,
                    groups_of(done + rows@.subrange(0, r as int), td) == groups_so_far(
                        closed@,
                        open,
                        current@,
                    ),
                decreases rows.len() - r,
            {
                let row = rows[r];
                proof {
                    let next = done + rows@.subrange(0, r + 1);
                    assert(next.drop_last() =~= done + rows@.subrange(0, r as int));
                    assert(next.last() == row);
                }
                if has_class(row, "listghead_0") {
                    let text = join(&texts(row));
                    match heading(text.as_str().as_bytes()) {
                        Some(found) => {
                            match open {
                                Some(last) => {
                                    proof {
                                        assert(deep(closed@.push(Group { heading: last, placements: current })) =~= deep(closed@).push(
                                            GroupView {
                                                status: last.status@,
                                                count: last.count as nat,
                                                placements: deep(current@),
                                            },
                                        ));
                                    }
                                    closed.push(Group { heading: last, placements: current });
                                },
                                None => {
                                    proof {
                                        assert(deep(closed@) =~= Seq::empty());
                                    }
                                },
                            }
                            open = Some(found);
                            current = Vec::new();
                            proof {
                                assert(deep(current@) =~= Seq::empty());
                            }
                        },
                        None => {},
                    }
                } else if open.is_some() {
                    let mut cells = select_below(row, &td);
                    if cells.len() > 0 {
                        let ghost all = cells@;
                        let first = cells.remove(0);
                        proof {
                            assert(cells@ =~= all.subrange(1, all.len() as int));
                        }
                        let described = attribute(first, "aria-describedby");
                        let listed = match &described {
                            Some(key) => str_eq(key.as_str(), "list_results"),
                            None => false,
                        };
                        if listed {
                            match Placement::from_list_result(&cells) {
                                Some(placement) => {
                                    proof {
                                        let groups = groups_so_far(closed@, open, current@).unwrap();
                                        assert(deep(current@.push(placement))
                                            =~= deep(current@).push(placement@));
                                        assert(groups.drop_last() =~= deep(closed@));
                                    }
                                    current.push(placement);
                                },
                                None => {},
                            }
                        }
                    }
                }
                r += 1;
            }
            proof {
                assert(rows@.subrange(0, r as int) =~= rows@);
            }
            b += 1;
        }
        proof {
            assert(bodies@.subrange(0, b as int) =~= bodies@);
        }
        match open {
            Some(last) => {
                proof {
                    assert(deep(closed@.push(Group { heading: last, placements: current }))
                        =~= deep(closed@).push(
                        GroupView {
                            status: last.status@,
                            count: last.count as nat,
                            placements: deep(current@),
                        },
                    ));
                }
                closed.push(Group { heading: last, placements: current });
                Some(StatusesWithPlacements(closed))
            },
            None => None,
        }
    }

    /// The finishers of a page: the entrants of its first group whose
    /// status is `Finishers`.
    pub fn names_and_times(input: &str) -> (r: Option<Vec<Record>>)
        ensures
            match r {
                Some(records) => page_finishers(input@) == Some(records.deep_view()),
                None => page_finishers(input@).is_none(),
            },
    {
        let found = match StatusesWithPlacements::results(input) {
            Some(found) => found,
            None => {
                return None;
            },
        };
        let groups = found.0;
        let mut g: usize = 0;
        while g < groups.len()
            invariant
                g <= groups.len(),
                page_groups(input@) == Some(groups.deep_view()),
                finishers_from(groups.deep_view(), 0) == finishers_from(
                    groups.deep_view(),
                    g as int,
                ),
            decreases groups.len() - g,
        {
            if str_eq(groups[g].heading.status.as_str(), "Finishers") {
                let placements = &groups[g].placements;
                let mut records: Vec<Record> = Vec::new();
                let mut i: usize = 0;
                while i < placements.len()
                    invariant
                        i <= placements.len(),
                        records.len() == i,
                        forall|j: int|
                            0 <= j < i ==> (#[trigger] records[j])@ == (RecordView {
                                name: full_name(placements[j].first@, placements[j].last@),
                                nanos: placements[j].time@,
                                category: category_of(placements[j].gender@),
                            }),
                    decreases placements.len() - i,
                {
                    let p = &placements[i];
                    records.push(
                        Record {
                            name: name_of(p.first.as_str(), p.last.as_str()),
                            duration: p.time,
                            category: crate::category::morf(p.gender.as_str()),
                        },
                    );
                    i += 1;
                }
                proof {
                    assert(records.deep_view() =~= finishers_from(
                        groups.deep_view(),
                        g as int,
                    ).unwrap());
                }
                return Some(records);
            }
            g += 1;
        }
        None
    }
}

} // verus!
