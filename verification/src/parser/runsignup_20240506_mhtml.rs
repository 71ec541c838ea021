//! A saved results page with one table, `resultsTable`, whose columns are
//! found by the text of their headers and whose name cell holds the first
//! and the last name in elements of their own.

use crate::category::category_of_code;
use crate::html::{
    first_text, first_text_of, parse_document, parsed, select, select_below, selected,
    selected_below, selector, selector_of,
};
use crate::parser::helpers::scraper::{
    cell_text, column_of, duration_from, duration_in, fields_for_indexes, first_texts, get_str,
    last_index_of, positive_from, positive_in,
};
use crate::text::{full_name, name_of};
use crate::{deep, MaleOrFemale, Record, RecordView};
use crate::duration::Duration;
use vstd::prelude::*;

verus! {

/// A column of the table.
#[derive(Clone, Copy, Debug, PartialEq, Eq, Structural, Hash)]
pub enum Field {
    Place,
    Bib,
    Name,
    Gender,
    GenderPlace,
    Age,
    City,
    State,
    ChipTime,
    Pace,
}

impl Field {
    /// The header of the column.
    pub open spec fn label_spec(self) -> Seq<char> {
        match self {
            Field::Place => "Place"@,
            Field::Bib => "Bib"@,
            Field::Name => "Name"@,
            Field::Gender => "Gender"@,
            Field::GenderPlace => "Gender Place"@,
            Field::Age => "Age"@,
            Field::City => "City"@,
            Field::State => "State"@,
            Field::ChipTime => "Chip Time"@,
            Field::Pace => "Pace"@,
        }
    }

    /// The header of the column.
    pub fn label(self) -> (label: &'static str)
        ensures
            label@ == self.label_spec(),
    {
        match self {
            Field::Place => "Place",
            Field::Bib => "Bib",
            Field::Name => "Name",
            Field::Gender => "Gender",
            Field::GenderPlace => "Gender Place",
            Field::Age => "Age",
            Field::City => "City",
            Field::State => "State",
            Field::ChipTime => "Chip Time",
            Field::Pace => "Pace",
        }
    }
}

/// The position of the column `field` in a table with the header texts
/// `headers`.
pub open spec fn offset_of(headers: Seq<Option<Seq<char>>>, field: Field) -> Option<int> {
    last_index_of(headers, field.label_spec())
}

/// A finisher.
#[derive(Debug)]
pub struct Placement {
    pub place: u16,
    pub bib: u16,
    pub first_name: String,
    pub last_name: String,
    pub gender: MaleOrFemale,
    pub gender_place: u16,
    pub age: u8,
    pub city: Option<String>,
    pub state: Option<String>,
    pub chip_time: Duration,
    pub pace: Duration,
}

/// A finisher in specifications.
pub struct PlacementView {
    pub place: nat,
    pub bib: nat,
    pub first_name: Seq<char>,
    pub last_name: Seq<char>,
    pub gender: MaleOrFemale,
    pub gender_place: nat,
    pub age: nat,
    pub city: Option<Seq<char>>,
    pub state: Option<Seq<char>>,
    pub chip_nanos: nat,
    pub pace_nanos: nat,
}

impl View for Placement {
    type V = PlacementView;

    open spec fn view(&self) -> PlacementView {
        PlacementView {
            place: self.place as nat,
            bib: self.bib as nat,
            first_name: self.first_name@,
            last_name: self.last_name@,
            gender: self.gender,
            gender_place: self.gender_place as nat,
            age: self.age as nat,
            city: self.city.deep_view(),
            state: self.state.deep_view(),
            chip_nanos: self.chip_time@,
            pace_nanos: self.pace@,
        }
    }
}

impl DeepView for Placement {
    type V = PlacementView;

    open spec fn deep_view(&self) -> PlacementView {
        self@
    }
}

/// The first text of the first element below cell `idx` that `part`
/// selects.
pub open spec fn part_text(
    cells: Seq<scraper::ElementRef<'static>>,
    idx: int,
    part: scraper::Selector,
) -> Option<Seq<char>> {
    if 0 <= idx < cells.len() && selected_below(cells[idx], part).len() > 0 {
        first_text_of(selected_below(cells[idx], part)[0])
    } else {
        None
    }
}

/// The category that the text `text` names by its one-letter code, if
/// `text` is there.
pub open spec fn code_in(text: Option<Seq<char>>) -> Option<MaleOrFemale> {
    match text {
        Some(code) => category_of_code(code),
        None => None,
    }
}

/// The selectors that the extractor works with.
pub struct Selectors {
    pub table: scraper::Selector,
    pub header: scraper::Selector,
    pub row: scraper::Selector,
    pub cell: scraper::Selector,
    pub first_name: scraper::Selector,
    pub last_name: scraper::Selector,
}

/// The selectors that the extractor works with, if `scraper` reads them
/// all.
pub open spec fn selectors_spec() -> Option<Selectors> {
    match (
        selector_of("table#resultsTable"@),
        selector_of("thead th"@),
        selector_of("tbody tr"@),
        selector_of("td"@),
        selector_of(".participantName__name__firstName"@),
        selector_of(".participantName__name__lastName"@),
    ) {
        (Some(table), Some(header), Some(row), Some(cell), Some(first_name), Some(last_name)) => {
            Some(Selectors { table, header, row, cell, first_name, last_name })
        },
        _ => None,
    }
}

/// The finisher that the cells of a row describe, in a table with the header
/// texts `headers`, each column of which is there.  Place, bib and place
/// among the gender are positive numbers of 16 bits, the age a positive
/// number of 8 bits, the gender a one-letter code, chip time and pace
/// durations; both parts of the name must be there.  City and state may be
/// missing.
pub open spec fn row_of(
    cells: Seq<scraper::ElementRef<'static>>,
    headers: Seq<Option<Seq<char>>>,
    with: Selectors,
) -> Option<PlacementView> {
    let at = |field: Field| offset_of(headers, field).unwrap();
    match (
        positive_in(cell_text(cells, at(Field::Place)), 0xffff),
        positive_in(cell_text(cells, at(Field::Bib)), 0xffff),
        part_text(cells, at(Field::Name), with.first_name),
        part_text(cells, at(Field::Name), with.last_name),
        code_in(cell_text(cells, at(Field::Gender))),
        positive_in(cell_text(cells, at(Field::GenderPlace)), 0xffff),
        positive_in(cell_text(cells, at(Field::Age)), 0xff),
        duration_in(cell_text(cells, at(Field::ChipTime))),
        duration_in(cell_text(cells, at(Field::Pace))),
    ) {
        (
            Some(place),
            Some(bib),
            Some(first_name),
            Some(last_name),
            Some(gender),
            Some(gender_place),
            Some(age),
            Some(chip_nanos),
            Some(pace_nanos),
        ) => Some(
            PlacementView {
                place,
                bib,
                first_name,
                last_name,
                gender,
                gender_place,
                age,
                city: cell_text(cells, at(Field::City)),
                state: cell_text(cells, at(Field::State)),
                chip_nanos,
                pace_nanos,
            },
        ),
        _ => None,
    }
}

/// The finishers that `rows` describe, rows that describe none left out.
pub open spec fn rows_of(
    rows: Seq<scraper::ElementRef<'static>>,
    headers: Seq<Option<Seq<char>>>,
    with: Selectors,
) -> Seq<PlacementView>
    decreases rows.len(),
{
    if rows.len() == 0 {
        Seq::empty()
    } else {
        let before = rows_of(rows.drop_last(), headers, with);
        match row_of(selected_below(rows.last(), with.cell), headers, with) {
            Some(placement) => before.push(placement),
            None => before,
        }
    }
}

/// The finishers of the table `table`: none where a column is missing or no
/// row describes a finisher.
pub open spec fn table_placements(table: scraper::ElementRef<'static>, with: Selectors) -> Option<
    Seq<PlacementView>,
> {
    let headers = first_texts(selected_below(table, with.header));
    if forall|field: Field| (#[trigger] offset_of(headers, field)).is_some() {
        let found = rows_of(selected_below(table, with.row), headers, with);
        if found.len() > 0 {
            Some(found)
        } else {
            None
        }
    } else {
        None
    }
}

/// The finishers of the page `input`: those of its first table with the id
/// `resultsTable`.
pub open spec fn page_placements(input: Seq<char>) -> Option<Seq<PlacementView>> {
    match selectors_spec() {
        Some(with) => {
            let tables = selected(parsed(input), with.table);
            if tables.len() > 0 {
                table_placements(tables[0], with)
            } else {
                None
            }
        },
        None => None,
    }
}

/// The finishers of the page `input` as records: first and last name with a
/// space between, the chip time, and the gender.
pub open spec fn page_records(input: Seq<char>) -> Option<Seq<RecordView>> {
    match page_placements(input) {
        Some(found) => Some(
            Seq::new(
                found.len(),
                |i: int|
                    RecordView {
                        name: full_name(found[i].first_name, found[i].last_name),
                        nanos: found[i].chip_nanos,
                        category: Some(found[i].gender),
                    },
            ),
        ),
        None => None,
    }
}

/// Reads the selectors that the extractor works with.
fn selectors() -> (r: Option<Selectors>)
    ensures
        r == selectors_spec(),
{
    match (
        selector("table#resultsTable"),
        selector("thead th"),
        selector("tbody tr"),
        selector("td"),
        selector(".participantName__name__firstName"),
        selector(".participantName__name__lastName"),
    ) {
        (Some(table), Some(header), Some(row), Some(cell), Some(first_name), Some(last_name)) => {
            Some(Selectors { table, header, row, cell, first_name, last_name })
        },
        _ => None,
    }
}

/// The first text of the first element below cell `idx` that `part`
/// selects.
fn get_part(cells: &Vec<scraper::ElementRef>, idx: usize, part: &scraper::Selector) -> (text:
    Option<String>)
    ensures
        text.deep_view() == part_text(cells@, idx as int, *part),
{
    if idx < cells.len() {
        let found = select_below(cells[idx], part);
        if found.len() > 0 {
            first_text(found[0])
        } else {
            None
        }
    } else {
        None
    }
}

/// The positions of the ten columns.
pub struct Offsets {
    pub place: usize,
    pub bib: usize,
    pub name: usize,
    pub gender: usize,
    pub gender_place: usize,
    pub age: usize,
    pub city: usize,
    pub state: usize,
    pub chip_time: usize,
    pub pace: usize,
}

impl Offsets {
    /// The positions are those of the columns in a table with the header
    /// texts `headers`.
    pub open spec fn agrees(self, headers: Seq<Option<Seq<char>>>) -> bool {
        &&& offset_of(headers, Field::Place) == Some(self.place as int)
        &&& offset_of(headers, Field::Bib) == Some(self.bib as int)
        &&& offset_of(headers, Field::Name) == Some(self.name as int)
        &&& offset_of(headers, Field::Gender) == Some(self.gender as int)
        &&& offset_of(headers, Field::GenderPlace) == Some(self.gender_place as int)
        &&& offset_of(headers, Field::Age) == Some(self.age as int)
        &&& offset_of(headers, Field::City) == Some(self.city as int)
        &&& offset_of(headers, Field::State) == Some(self.state as int)
        &&& offset_of(headers, Field::ChipTime) == Some(self.chip_time as int)
        &&& offset_of(headers, Field::Pace) == Some(self.pace as int)
    }
}

/// Finds the ten columns by their headers.
fn offsets(headers: &Vec<Option<String>>) -> (r: Option<Offsets>)
    ensures
        match r {
            Some(found) => found.agrees(headers.deep_view()),
            None => exists|field: Field| (#[trigger] offset_of(headers.deep_view(), field)).is_none(),
        },
{
    let place = column_of(headers, Field::Place.label());
    let bib = column_of(headers, Field::Bib.label());
    let name = column_of(headers, Field::Name.label());
    let gender = column_of(headers, Field::Gender.label());
    let gender_place = column_of(headers, Field::GenderPlace.label());
    let age = column_of(headers, Field::Age.label());
    let city = column_of(headers, Field::City.label());
    let state = column_of(headers, Field::State.label());
    let chip_time = column_of(headers, Field::ChipTime.label());
    let pace = column_of(headers, Field::Pace.label());
    match (place, bib, name, gender, gender_place, age, city, state, chip_time, pace) {
        (
            Some(place),
            Some(bib),
            Some(name),
            Some(gender),
            Some(gender_place),
            Some(age),
            Some(city),
            Some(state),
            Some(chip_time),
            Some(pace),
        ) => Some(
            Offsets { place, bib, name, gender, gender_place, age, city, state, chip_time, pace },
        ),
        _ => {
            proof {
                let h = headers.deep_view();
                assert(offset_of(h, Field::Place).is_none() || offset_of(h, Field::Bib).is_none()
                    || offset_of(h, Field::Name).is_none() || offset_of(h, Field::Gender).is_none()
                    || offset_of(h, Field::GenderPlace).is_none() || offset_of(
                    h,
                    Field::Age,
                ).is_none() || offset_of(h, Field::City).is_none() || offset_of(
                    h,
                    Field::State,
                ).is_none() || offset_of(h, Field::ChipTime).is_none() || offset_of(
                    h,
                    Field::Pace,
                ).is_none());
            }
            None
        },
    }
}

/// Reads the finisher that the cells of a row describe.
fn placement(
    cells: &Vec<scraper::ElementRef>,
    at: &Offsets,
    with: &Selectors,
    Ghost(headers): Ghost<Seq<Option<Seq<char>>>>,
) -> (r: Option<Placement>)
    requires
        at.agrees(headers),
    ensures
        r.deep_view() == row_of(cells@, headers, *with),
{
    let place = positive_from(&get_str(cells, at.place), 0xffff);
    let bib = positive_from(&get_str(cells, at.bib), 0xffff);
    let first_name = get_part(cells, at.name, &with.first_name);
    let last_name = get_part(cells, at.name, &with.last_name);
    let gender = match get_str(cells, at.gender) {
        Some(code) => MaleOrFemale::from_code(code.as_str()),
        None => None,
    };
    let gender_place = positive_from(&get_str(cells, at.gender_place), 0xffff);
    let age = positive_from(&get_str(cells, at.age), 0xff);
    let chip_time = duration_from(&get_str(cells, at.chip_time));
    let pace = duration_from(&get_str(cells, at.pace));
    match (place, bib, first_name, last_name, gender, gender_place, age, chip_time, pace) {
        (
            Some(place),
            Some(bib),
            Some(first_name),
            Some(last_name),
            Some(gender),
            Some(gender_place),
            Some(age),
            Some(chip_time),
            Some(pace),
        ) => Some(
            Placement {
                place: place as u16,
                bib: bib as u16,
                first_name,
                last_name,
                gender,
                gender_place: gender_place as u16,
                age: age as u8,
                city: get_str(cells, at.city),
                state: get_str(cells, at.state),
                chip_time,
                pace,
            },
        ),
        _ => None,
    }
}

impl Placement {
    /// Reads the finishers of a table.
    pub fn placements(table: scraper::ElementRef, with: &Selectors) -> (r: Option<Vec<Placement>>)
        ensures
            r.deep_view() == table_placements(table, *with),
    {
        let headers = fields_for_indexes(table, &with.header);
        let at = match offsets(&headers) {
            Some(at) => at,
            None => {
                return None;
            },
        };
        proof {
            let h = headers.deep_view();
            assert forall|field: Field| (#[trigger] offset_of(h, field)).is_some() by {
                match field {
                    Field::Place => {},
                    Field::Bib => {},
                    Field::Name => {},
                    Field::Gender => {},
                    Field::GenderPlace => {},
                    Field::Age => {},
                    Field::City => {},
                    Field::State => {},
                    Field::ChipTime => {},
                    Field::Pace => {},
                }
            }
        }
        let rows = select_below(table, &with.row);
        let mut found: Vec<Placement> = Vec::new();
        let mut i: usize = 0;
        proof {
            assert(rows@.subrange(0, 0) =~= Seq::empty());
            assert(found.deep_view() =~= Seq::empty());
        }
        while i < rows.len()
            invariant
                i <= rows.len(),
                at.agrees(headers.deep_view()),
                found.deep_view() == rows_of(rows@.subrange(0, i as int), headers.deep_view(), *with),
            decreases rows.len() - i,
        {
            proof {
                let next = rows@.subrange(0, i + 1);
                assert(next.drop_last() =~= rows@.subrange(0, i as int));
                assert(next.last() == rows@[i as int]);
            }
            let cells = select_below(rows[i], &with.cell);
            match placement(&cells, &at, with, Ghost(headers.deep_view())) {
                Some(p) => {
                    proof {
                        assert(deep(found@.push(p)) =~= deep(found@).push(p@));
                        assert(found.deep_view() =~= deep(found@));
                    }
                    found.push(p);
                    proof {
                        assert(found.deep_view() =~= deep(found@));
                    }
                },
                None => {},
            }
            i += 1;
        }
        proof {
            assert(rows@.subrange(0, i as int) =~= rows@);
        }
        if found.len() > 0 {
            Some(found)
        } else {
            None
        }
    }

    /// Reads the finishers of a page.
    pub fn results(input: &str) -> (r: Option<Vec<Placement>>)
        ensures
            r.deep_view() == page_placements(input@),
    {
        let with = match selectors() {
            Some(with) => with,
            None => {
                return None;
            },
        };
        let document = parse_document(input);
        let tables = select(&document, &with.table);
        if tables.len() > 0 {
            Placement::placements(tables[0], &with)
        } else {
            None
        }
    }

    /// The finishers of a page as records.
    pub fn names_and_times(input: &str) -> (r: Option<Vec<Record>>)
        ensures
            r.deep_view() == page_records(input@),
    {
        let found = match Placement::results(input) {
            Some(found) => found,
            None => {
                return None;
            },
        };
        let mut records: Vec<Record> = Vec::new();
        let mut i: usize = 0;
        while i < found.len()
            invariant
                i <= found.len(),
                records.len() == i,
                forall|j: int|
                    0 <= j < i ==> (#[trigger] records[j])@ == (RecordView {
                        name: full_name(found[j].first_name@, found[j].last_name@),
                        nanos: found[j].chip_time@,
                        category: Some(found[j].gender),
                    }),
            decreases found.len() - i,
        {
            let p = &found[i];
            records.push(
                Record {
                    name: name_of(p.first_name.as_str(), p.last_name.as_str()),
                    duration: p.chip_time,
                    category: Some(p.gender),
                },
            );
            i += 1;
        }
        proof {
            assert(records.deep_view() =~= page_records(input@).unwrap());
        }
        Some(records)
    }
}

} // verus!
