//! A saved results page with one table, `MainTable`, that gives each
//! finisher a rank among the finishers of the same sex (`rank/count`) but
//! does not name the sex.  The sex is told from the counts.

use crate::category::{count_of_rank, count_views, gender_count, infer_categories, inferred_category};
use crate::duration::Duration;
use crate::html::{
    parse_document, parsed, select, select_below, selected, selected_below, selector,
    selector_of,
};
use crate::parser::helpers::scraper::{
    cell_text, column_of, duration_from, duration_in, fields_for_indexes, first_texts, get_str,
    last_index_of, positive_from, positive_in,
};
use crate::scan::copy_range;
use crate::{deep, Record, RecordView};
use vstd::prelude::*;
use vstd::utf8::encode_utf8;

verus! {

/// A column of the table.
#[derive(Clone, Copy, Debug, PartialEq, Eq, Structural, Hash)]
pub enum Field {
    Place,
    Bib,
    Name,
    CityState,
    GenderRank,
    FinalTime,
    Pace,
}

impl Field {
    /// The header of the column.
    pub open spec fn label_spec(self) -> Seq<char> {
        match self {
            Field::Place => "Place"@,
            Field::Bib => "Bib"@,
            Field::Name => "Name"@,
            Field::CityState => "City, ST"@,
            Field::GenderRank => "Gender"@,
            Field::FinalTime => "Final Time"@,
            Field::Pace => "Pace"@,
        }
    }

    /// The header of the column.
    pub fn label(self) -> (label: &'static str)
        ensures
            label@ == self.label_spec(),
    {
        match self {
            Field::Place => "Place",
            Field::Bib => "Bib",
            Field::Name => "Name",
            Field::CityState => "City, ST",
            Field::GenderRank => "Gender",
            Field::FinalTime => "Final Time",
            Field::Pace => "Pace",
        }
    }
}

/// The position of the column `field` in a table with the header texts
/// `headers`.
pub open spec fn offset_of(headers: Seq<Option<Seq<char>>>, field: Field) -> Option<int> {
    last_index_of(headers, field.label_spec())
}

/// A finisher.
#[derive(Debug)]
pub struct Placement {
    pub place: u16,
    pub bib: u16,
    pub name: String,
    pub city_state: Option<String>,
    pub gender_rank: String,
    pub final_time: Duration,
    pub pace: Duration,
}

/// A finisher in specifications.
pub struct PlacementView {
    pub place: nat,
    pub bib: nat,
    pub name: Seq<char>,
    pub city_state: Option<Seq<char>>,
    pub gender_rank: Seq<char>,
    pub final_nanos: nat,
    pub pace_nanos: nat,
}

impl View for Placement {
    type V = PlacementView;

    open spec fn view(&self) -> PlacementView {
        PlacementView {
            place: self.place as nat,
            bib: self.bib as nat,
            name: self.name@,
            city_state: self.city_state.deep_view(),
            gender_rank: self.gender_rank@,
            final_nanos: self.final_time@,
            pace_nanos: self.pace@,
        }
    }
}

impl DeepView for Placement {
    type V = PlacementView;

    open spec fn deep_view(&self) -> PlacementView {
        self@
    }
}

/// The selectors that the extractor works with.
pub struct Selectors {
    pub table: scraper::Selector,
    pub header: scraper::Selector,
    pub row: scraper::Selector,
    pub cell: scraper::Selector,
}

/// The selectors that the extractor works with, if `scraper` reads them
/// all.
pub open spec fn selectors_spec() -> Option<Selectors> {
    match (
        selector_of("table.MainTable"@),
        selector_of("thead th"@),
        selector_of("tbody tr"@),
        selector_of("td"@),
    ) {
        (Some(table), Some(header), Some(row), Some(cell)) => Some(
            Selectors { table, header, row, cell },
        ),
        _ => None,
    }
}

/// Reads the selectors that the extractor works with.
fn selectors() -> (r: Option<Selectors>)
    ensures
        r == selectors_spec(),
{
    match (selector("table.MainTable"), selector("thead th"), selector("tbody tr"), selector("td")) {
        (Some(table), Some(header), Some(row), Some(cell)) => Some(
            Selectors { table, header, row, cell },
        ),
        _ => None,
    }
}

/// The finisher that the cells of a row describe, in a table with the header
/// texts `headers`, each column of which is there.  Place and bib are
/// positive numbers of 16 bits, final time and pace durations; name and rank
/// among the gender must be there.  City and state may be missing.
pub open spec fn row_of(cells: Seq<scraper::ElementRef<'static>>, headers: Seq<Option<Seq<char>>>) -> Option<
    PlacementView,
> {
    let at = |field: Field| offset_of(headers, field).unwrap();
    match (
        positive_in(cell_text(cells, at(Field::Place)), 0xffff),
        positive_in(cell_text(cells, at(Field::Bib)), 0xffff),
        cell_text(cells, at(Field::Name)),
        cell_text(cells, at(Field::GenderRank)),
        duration_in(cell_text(cells, at(Field::FinalTime))),
        duration_in(cell_text(cells, at(Field::Pace))),
    ) {
        (
            Some(place),
            Some(bib),
            Some(name),
            Some(gender_rank),
            Some(final_nanos),
            Some(pace_nanos),
        ) => Some(
            PlacementView {
                place,
                bib,
                name,
                city_state: cell_text(cells, at(Field::CityState)),
                gender_rank,
                final_nanos,
                pace_nanos,
            },
        ),
        _ => None,
    }
}

/// The finishers that `rows` describe, rows that describe none left out.
pub open spec fn rows_of(
    rows: Seq<scraper::ElementRef<'static>>,
    headers: Seq<Option<Seq<char>>>,
    cell: scraper::Selector,
) -> Seq<PlacementView>
    decreases rows.len(),
{
    if rows.len() == 0 {
        Seq::empty()
    } else {
        let before = rows_of(rows.drop_last(), headers, cell);
        match row_of(selected_below(rows.last(), cell), headers) {
            Some(placement) => before.push(placement),
            None => before,
        }
    }
}

/// The finishers of the table `table`: none where a column is missing or no
/// row describes a finisher.
pub open spec fn table_placements(table: scraper::ElementRef<'static>, with: Selectors) -> Option<
    Seq<PlacementView>,
> {
    let headers = first_texts(selected_below(table, with.header));
    if forall|field: Field| (#[trigger] offset_of(headers, field)).is_some() {
        let found = rows_of(selected_below(table, with.row), headers, with.cell);
        if found.len() > 0 {
            Some(found)
        } else {
            None
        }
    } else {
        None
    }
}

/// The finishers of a document: those of its first table of class
/// `MainTable`.
pub open spec fn document_placements(document: scraper::Html, with: Selectors) -> Option<
    Seq<PlacementView>,
> {
    let tables = selected(document, with.table);
    if tables.len() > 0 {
        table_placements(tables[0], with)
    } else {
        None
    }
}

/// The counts among which `found` are ranked.
pub open spec fn counts_of(found: Seq<PlacementView>) -> Seq<Option<Seq<u8>>> {
    Seq::new(found.len(), |i: int| count_of_rank(encode_utf8(found[i].gender_rank)))
}

/// The finishers of the page `input` as records: the name, the final time,
/// and the sex category as the counts of the page tell it.
pub open spec fn page_records(input: Seq<char>) -> Option<Seq<RecordView>> {
    match selectors_spec() {
        Some(with) => match document_placements(parsed(input), with) {
            Some(found) => Some(
                Seq::new(
                    found.len(),
                    |i: int|
                        RecordView {
                            name: found[i].name,
                            nanos: found[i].final_nanos,
                            category: inferred_category(counts_of(found), counts_of(found)[i]),
                        },
                ),
            ),
            None => None,
        },
        None => None,
    }
}

/// The positions of the seven columns.
pub struct Offsets {
    pub place: usize,
    pub bib: usize,
    pub name: usize,
    pub city_state: usize,
    pub gender_rank: usize,
    pub final_time: usize,
    pub pace: usize,
}

impl Offsets {
    /// The positions are those of the columns in a table with the header
    /// texts `headers`.
    pub open spec fn agrees(self, headers: Seq<Option<Seq<char>>>) -> bool {
        &&& offset_of(headers, Field::Place) == Some(self.place as int)
        &&& offset_of(headers, Field::Bib) == Some(self.bib as int)
        &&& offset_of(headers, Field::Name) == Some(self.name as int)
        &&& offset_of(headers, Field::CityState) == Some(self.city_state as int)
        &&& offset_of(headers, Field::GenderRank) == Some(self.gender_rank as int)
        &&& offset_of(headers, Field::FinalTime) == Some(self.final_time as int)
        &&& offset_of(headers, Field::Pace) == Some(self.pace as int)
    }
}

/// Finds the seven columns by their headers.
fn offsets(headers: &Vec<Option<String>>) -> (r: Option<Offsets>)
    ensures
        match r {
            Some(found) => found.agrees(headers.deep_view()),
            None => exists|field: Field| (#[trigger] offset_of(headers.deep_view(), field)).is_none(),
        },
{
    let place = column_of(headers, Field::Place.label());
    let bib = column_of(headers, Field::Bib.label());
    let name = column_of(headers, Field::Name.label());
    let city_state = column_of(headers, Field::CityState.label());
    let gender_rank = column_of(headers, Field::GenderRank.label());
    let final_time = column_of(headers, Field::FinalTime.label());
    let pace = column_of(headers, Field::Pace.label());
    match (place, bib, name, city_state, gender_rank, final_time, pace) {
        (
            Some(place),
            Some(bib),
            Some(name),
            Some(city_state),
            Some(gender_rank),
            Some(final_time),
            Some(pace),
        ) => Some(Offsets { place, bib, name, city_state, gender_rank, final_time, pace }),
        _ => {
            proof {
                let h = headers.deep_view();
                assert(offset_of(h, Field::Place).is_none() || offset_of(h, Field::Bib).is_none()
                    || offset_of(h, Field::Name).is_none() || offset_of(
                    h,
                    Field::CityState,
                ).is_none() || offset_of(h, Field::GenderRank).is_none() || offset_of(
                    h,
                    Field::FinalTime,
                ).is_none() || offset_of(h, Field::Pace).is_none());
            }
            None
        },
    }
}

/// Reads the finisher that the cells of a row describe.
fn placement(
    cells: &Vec<scraper::ElementRef>,
    at: &Offsets,
    Ghost(headers): Ghost<Seq<Option<Seq<char>>>>,
) -> (r: Option<Placement>)
    requires
        at.agrees(headers),
    ensures
        r.deep_view() == row_of(cells@, headers),
{
    let place = positive_from(&get_str(cells, at.place), 0xffff);
    let bib = positive_from(&get_str(cells, at.bib), 0xffff);
    let name = get_str(cells, at.name);
    let gender_rank = get_str(cells, at.gender_rank);
    let final_time = duration_from(&get_str(cells, at.final_time));
    let pace = duration_from(&get_str(cells, at.pace));
    match (place, bib, name, gender_rank, final_time, pace) {
        (Some(place), Some(bib), Some(name), Some(gender_rank), Some(final_time), Some(pace)) => {
            Some(
                Placement {
                    place: place as u16,
                    bib: bib as u16,
                    name,
                    city_state: get_str(cells, at.city_state),
                    gender_rank,
                    final_time,
                    pace,
                },
            )
        },
        _ => None,
    }
}

/// Reads the finishers of a table.
pub fn placements(table: scraper::ElementRef, with: &Selectors) -> (r: Option<Vec<Placement>>)
    ensures
        r.deep_view() == table_placements(table, *with),
{
    let headers = fields_for_indexes(table, &with.header);
    let at = match offsets(&headers) {
        Some(at) => at,
        None => {
            return None;
        },
    };
    proof {
        let h = headers.deep_view();
        assert forall|field: Field| (#[trigger] offset_of(h, field)).is_some() by {
            match field {
                Field::Place => {},
                Field::Bib => {},
                Field::Name => {},
                Field::CityState => {},
                Field::GenderRank => {},
                Field::FinalTime => {},
                Field::Pace => {},
            }
        }
    }
    let rows = select_below(table, &with.row);
    let mut found: Vec<Placement> = Vec::new();
    let mut i: usize = 0;
    proof {
        assert(rows@.subrange(0, 0) =~= Seq::empty());
        assert(found.deep_view() =~= Seq::empty());
    }
    while i < rows.len()
        invariant
            i <= rows.len(),
            at.agrees(headers.deep_view()),
            found.deep_view() == rows_of(rows@.subrange(0, i as int), headers.deep_view(), with.cell),
        decreases rows.len() - i,
    {
        proof {
            let next = rows@.subrange(0, i + 1);
            assert(next.drop_last() =~= rows@.subrange(0, i as int));
            assert(next.last() == rows@[i as int]);
        }
        let cells = select_below(rows[i], &with.cell);
        match placement(&cells, &at, Ghost(headers.deep_view())) {
            Some(p) => {
                proof {
                    assert(deep(found@.push(p)) =~= deep(found@).push(p@));
                    assert(found.deep_view() =~= deep(found@));
                }
                found.push(p);
                proof {
                    assert(found.deep_view() =~= deep(found@));
                }
            },
            None => {},
        }
        i += 1;
    }
    proof {
        assert(rows@.subrange(0, i as int) =~= rows@);
    }
    if found.len() > 0 {
        Some(found)
    } else {
        None
    }
}

impl Placement {
    /// Reads the finishers of a document.
    pub fn results(document: &scraper::Html, with: &Selectors) -> (r: Option<Vec<Placement>>)
        ensures
            r.deep_view() == document_placements(*document, *with),
    {
        let tables = select(document, &with.table);
        if tables.len() > 0 {
            placements(tables[0], with)
        } else {
            None
        }
    }
}

/// The finishers of a page as records.
pub fn names_and_times(input: &str) -> (r: Option<Vec<Record>>)
    ensures
        r.deep_view() == page_records(input@),
{
    let with = match selectors() {
        Some(with) => with,
        None => {
            return None;
        },
    };
    let document = parse_document(input);
    let found = match Placement::results(&document, &with) {
        Some(found) => found,
        None => {
            return None;
        },
    };
    let mut counts: Vec<Option<Vec<u8>>> = Vec::new();
    let mut i: usize = 0;
    while i < found.len()
        invariant
            i <= found.len(),
            counts.len() == i,
            forall|j: int|
                0 <= j < i ==> match #[trigger] counts[j] {
                    Some(count) => count_of_rank(encode_utf8(found[j].gender_rank@)) == Some(
                        count@,
                    ),
                    None => count_of_rank(encode_utf8(found[j].gender_rank@)).is_none(),
                },
        decreases found.len() - i,
    {
        let rank = found[i].gender_rank.as_str().as_bytes();
        let count = match gender_count(rank) {
            Some(count) => Some(copy_range(count, 0, count.len())),
            None => None,
        };
        proof {
            if count.is_some() {
                assert(count.unwrap()@ =~= count_of_rank(rank@).unwrap());
            }
        }
        counts.push(count);
        i += 1;
    }
    proof {
        assert(count_views(counts@) =~= counts_of(found.deep_view()));
    }
    let categories = infer_categories(&counts);
    let mut records: Vec<Record> = Vec::new();
    let mut i: usize = 0;
    while i < found.len()
        invariant
            i <= found.len(),
            records.len() == i,
            categories.len() == found.len(),
            forall|j: int|
                0 <= j < i ==> (#[trigger] records[j])@ == (RecordView {
                    name: found[j].name@,
                    nanos: found[j].final_time@,
                    category: categories[j],
                }),
        decreases found.len() - i,
    {
        let p = &found[i];
        records.push(Record { name: p.name.clone(), duration: p.final_time, category: categories[i] });
        i += 1;
    }
    proof {
        assert(records.deep_view() =~= page_records(input@).unwrap());
    }
    Some(records)
}

} // verus!
