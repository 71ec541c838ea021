//! A saved results page whose first table body holds one finisher per row
//! and whose header row names the columns.  A row that cannot be read makes
//! the whole page unreadable.

use crate::category::{category_of, morf};
use crate::duration::Duration;
use crate::html::{
    first_text, first_text_of, parse_document, parsed, select, select_below, selected,
    selected_below, selector, selector_of,
};
use crate::parser::helpers::scraper::{
    column_of, duration_from, duration_in, first_texts, get_first_texts, last_index_of,
    number_from, number_in, positive_from, positive_in,
};
use crate::{deep, Record, RecordView};
use vstd::prelude::*;

verus! {

/// A finisher.
#[derive(Debug)]
pub struct Placement {
    pub bib: String,
    pub name: String,
    pub age: u8,
    pub gender: String,
    pub age_group: String,
    pub city: Option<String>,
    pub state: Option<String>,
    pub chip_time: Duration,
    pub place: u16,
}

/// A finisher in specifications.
pub struct PlacementView {
    pub bib: Seq<char>,
    pub name: Seq<char>,
    pub age: nat,
    pub gender: Seq<char>,
    pub age_group: Seq<char>,
    pub city: Option<Seq<char>>,
    pub state: Option<Seq<char>>,
    pub chip_nanos: nat,
    pub place: nat,
}

impl View for Placement {
    type V = PlacementView;

    open spec fn view(&self) -> PlacementView {
        PlacementView {
            bib: self.bib@,
            name: self.name@,
            age: self.age as nat,
            gender: self.gender@,
            age_group: self.age_group@,
            city: self.city.deep_view(),
            state: self.state.deep_view(),
            chip_nanos: self.chip_time@,
            place: self.place as nat,
        }
    }
}

impl DeepView for Placement {
    type V = PlacementView;

    open spec fn deep_view(&self) -> PlacementView {
        self@
    }
}

/// The selectors that the extractor works with.
pub struct Selectors {
    pub body: scraper::Selector,
    pub row: scraper::Selector,
    pub cell: scraper::Selector,
    pub header_row: scraper::Selector,
    pub header: scraper::Selector,
}

/// The selectors that the extractor works with, if `scraper` reads them
/// all.
pub open spec fn selectors_spec() -> Option<Selectors> {
    match (
        selector_of("tbody"@),
        selector_of("tr"@),
        selector_of("td"@),
        selector_of("thead tr"@),
        selector_of("th>div>span"@),
    ) {
        (Some(body), Some(row), Some(cell), Some(header_row), Some(header)) => Some(
            Selectors { body, row, cell, header_row, header },
        ),
        _ => None,
    }
}

/// Reads the selectors that the extractor works with.
fn selectors() -> (r: Option<Selectors>)
    ensures
        r == selectors_spec(),
{
    match (
        selector("tbody"),
        selector("tr"),
        selector("td"),
        selector("thead tr"),
        selector("th>div>span"),
    ) {
        (Some(body), Some(row), Some(cell), Some(header_row), Some(header)) => Some(
            Selectors { body, row, cell, header_row, header },
        ),
        _ => None,
    }
}

/// The columns of a page, found by the texts of its headers.
pub struct ColumnMapper {
    pub headers: Vec<Option<String>>,
}

/// The headers of a page: the first texts of the header cells of its first
/// header row, if there is such a row and each of its header cells holds
/// text.
pub open spec fn page_headers(document: scraper::Html, with: Selectors) -> Option<
    Seq<Option<Seq<char>>>,
> {
    let rows = selected(document, with.header_row);
    if rows.len() > 0 {
        let headers = first_texts(selected_below(rows[0], with.header));
        if forall|i: int| 0 <= i < headers.len() ==> (#[trigger] headers[i]).is_some() {
            Some(headers)
        } else {
            None
        }
    } else {
        None
    }
}

impl ColumnMapper {
    /// Finds the columns of a page.
    #[verifier::loop_isolation(false)]
    pub fn from_document(document: &scraper::Html, with: &Selectors) -> (r: Option<ColumnMapper>)
        ensures
            match r {
                Some(mapper) => page_headers(*document, *with) == Some(mapper.headers.deep_view()),
                None => page_headers(*document, *with).is_none(),
            },
    {
        let rows = select(document, &with.header_row);
        if rows.len() == 0 {
            return None;
        }
        let headers = get_first_texts(&select_below(rows[0], &with.header));
        let mut i: usize = 0;
        while i < headers.len()
            invariant
                i <= headers.len(),
                forall|j: int| 0 <= j < i ==> (#[trigger] headers.deep_view()[j]).is_some(),
            decreases headers.len() - i,
        {
            if headers[i].is_none() {
                proof {
                    assert(headers.deep_view()[i as int].is_none());
                }
                return None;
            }
            i += 1;
        }
        Some(ColumnMapper { headers })
    }
}

/// The texts of the cells of a row: the first text of each, or the empty
/// text for a cell without text.
pub open spec fn row_values(cells: Seq<scraper::ElementRef<'static>>) -> Seq<Seq<char>> {
    Seq::new(
        cells.len(),
        |i: int|
            match first_text_of(cells[i]) {
                Some(text) => text,
                None => Seq::empty(),
            },
    )
}

/// The text of a row in the column whose header is `key`.
pub open spec fn value_of(values: Seq<Seq<char>>, headers: Seq<Option<Seq<char>>>, key: Seq<char>) -> Option<
    Seq<char>,
> {
    match last_index_of(headers, key) {
        Some(i) if i < values.len() => Some(values[i]),
        _ => None,
    }
}

/// The texts of the cells of a row.
pub struct ColumnValues {
    pub values: Vec<String>,
}

impl ColumnValues {
    /// Reads the texts of the cells of the row `e`.
    pub fn from_element(cell: &scraper::Selector, e: scraper::ElementRef) -> (r: ColumnValues)
        ensures
            r.values.deep_view() == row_values(selected_below(e, *cell)),
    {
        let cells = select_below(e, cell);
        let mut values: Vec<String> = Vec::new();
        let mut i: usize = 0;
        while i < cells.len()
            invariant
                i <= cells.len(),
                values.len() == i,
                forall|j: int|
                    0 <= j < i ==> (#[trigger] values[j])@ == row_values(cells@)[j],
            decreases cells.len() - i,
        {
            let text = match first_text(cells[i]) {
                Some(text) => text,
                None => String::new(),
            };
            values.push(text);
            i += 1;
        }
        proof {
            assert(values.deep_view() =~= row_values(cells@));
        }
        ColumnValues { values }
    }

    /// The text in the column whose header is `key`.
    pub fn value(&self, mapper: &ColumnMapper, key: &str) -> (text: Option<String>)
        ensures
            text.deep_view() == value_of(
                self.values.deep_view(),
                mapper.headers.deep_view(),
                key@,
            ),
    {
        match column_of(&mapper.headers, key) {
            Some(i) => if i < self.values.len() {
                Some(self.values[i].clone())
            } else {
                None
            },
            None => None,
        }
    }

    /// The positive number of at most `max` in the column whose header is
    /// `key`.
    pub fn parsed_value(&self, mapper: &ColumnMapper, key: &str, max: u64) -> (r: Option<u64>)
        ensures
            match r {
                Some(n) => positive_in(
                    value_of(self.values.deep_view(), mapper.headers.deep_view(), key@),
                    max as nat,
                ) == Some(n as nat) && 0 < n <= max,
                None => positive_in(
                    value_of(self.values.deep_view(), mapper.headers.deep_view(), key@),
                    max as nat,
                ).is_none(),
            },
    {
        positive_from(&self.value(mapper, key), max)
    }
}

/// The finisher that a row with the texts `values` describes.  Bib, name,
/// gender and age group must be there, the age a positive number of 8 bits,
/// the chip time a duration, the place a number of 16 bits.  City and state
/// may be missing.
pub open spec fn row_of(values: Seq<Seq<char>>, headers: Seq<Option<Seq<char>>>) -> Option<
    PlacementView,
> {
    match (
        value_of(values, headers, "Bib"@),
        value_of(values, headers, "Name"@),
        positive_in(value_of(values, headers, "Age"@), 0xff),
        value_of(values, headers, "Gender"@),
        value_of(values, headers, "Age Group"@),
        duration_in(value_of(values, headers, "Chip Time"@)),
        number_in(value_of(values, headers, "Overall Place"@), 0xffff),
    ) {
        (
            Some(bib),
            Some(name),
            Some(age),
            Some(gender),
            Some(age_group),
            Some(chip_nanos),
            Some(place),
        ) => Some(
            PlacementView {
                bib,
                name,
                age,
                gender,
                age_group,
                city: value_of(values, headers, "City"@),
                state: value_of(values, headers, "State"@),
                chip_nanos,
                place,
            },
        ),
        _ => None,
    }
}

/// The finishers that `rows` describe, if each row describes one.
pub open spec fn rows_of(
    rows: Seq<scraper::ElementRef<'static>>,
    headers: Seq<Option<Seq<char>>>,
    with: Selectors,
) -> Option<Seq<PlacementView>>
    decreases rows.len(),
{
    if rows.len() == 0 {
        Some(Seq::empty())
    } else {
        match (
            rows_of(rows.drop_last(), headers, with),
            row_of(row_values(selected_below(rows.last(), with.cell)), headers),
        ) {
            (Some(before), Some(placement)) => Some(before.push(placement)),
            _ => None,
        }
    }
}

/// The finishers of a document: the rows of its first table body, read by
/// the headers of its first header row.
pub open spec fn document_placements(document: scraper::Html, with: Selectors) -> Option<
    Seq<PlacementView>,
> {
    let bodies = selected(document, with.body);
    if bodies.len() > 0 {
        match page_headers(document, with) {
            Some(headers) => rows_of(selected_below(bodies[0], with.row), headers, with),
            None => None,
        }
    } else {
        None
    }
}

/// The finishers of the page `input` as records: the name, the chip time,
/// and the category that the gender stands for.
pub open spec fn page_records(input: Seq<char>) -> Option<Seq<RecordView>> {
    match selectors_spec() {
        Some(with) => match document_placements(parsed(input), with) {
            Some(found) => Some(
                Seq::new(
                    found.len(),
                    |i: int|
                        RecordView {
                            name: found[i].name,
                            nanos: found[i].chip_nanos,
                            category: category_of(found[i].gender),
                        },
                ),
            ),
            None => None,
        },
        None => None,
    }
}

/// Reads the finisher that a row describes.
fn placement(values: &ColumnValues, mapper: &ColumnMapper) -> (r: Option<Placement>)
    ensures
        r.deep_view() == row_of(values.values.deep_view(), mapper.headers.deep_view()),
{
    let bib = values.value(mapper, "Bib");
    let name = values.value(mapper, "Name");
    let age = values.parsed_value(mapper, "Age", 0xff);
    let gender = values.value(mapper, "Gender");
    let age_group = values.value(mapper, "Age Group");
    let chip_time = duration_from(&values.value(mapper, "Chip Time"));
    let place = number_from(&values.value(mapper, "Overall Place"), 0xffff);
    match (bib, name, age, gender, age_group, chip_time, place) {
        (
            Some(bib),
            Some(name),
            Some(age),
            Some(gender),
            Some(age_group),
            Some(chip_time),
            Some(place),
        ) => Some(
            Placement {
                bib,
                name,
                age: age as u8,
                gender,
                age_group,
                city: values.value(mapper, "City"),
                state: values.value(mapper, "State"),
                chip_time,
                place: place as u16,
            },
        ),
        _ => None,
    }
}

impl Placement {
    /// Reads the finishers of a document.
    #[verifier::loop_isolation(false)]
    pub fn results(document: &scraper::Html, with: &Selectors) -> (r: Option<Vec<Placement>>)
        ensures
            r.deep_view() == document_placements(*document, *with),
    {
        let bodies = select(document, &with.body);
        if bodies.len() == 0 {
            return None;
        }
        let mapper = match ColumnMapper::from_document(document, with) {
            Some(mapper) => mapper,
            None => {
                return None;
            },
        };
        let rows = select_below(bodies[0], &with.row);
        let mut found: Vec<Placement> = Vec::new();
        let mut i: usize = 0;
        proof {
            assert(rows@.subrange(0, 0) =~= Seq::empty());
            assert(found.deep_view() =~= Seq::empty());
        }
        while i < rows.len()
            invariant
                i <= rows.len(),
                rows_of(rows@.subrange(0, i as int), mapper.headers.deep_view(), *with) == Some(
                    found.deep_view(),
                ),
            decreases rows.len() - i,
        {
            proof {
                let next = rows@.subrange(0, i + 1);
                assert(next.drop_last() =~= rows@.subrange(0, i as int));
                assert(next.last() == rows@[i as int]);
            }
            let values = ColumnValues::from_element(&with.cell, rows[i]);
            match placement(&values, &mapper) {
                Some(p) => {
                    proof {
                        assert(deep(found@.push(p)) =~= deep(found@).push(p@));
                        assert(found.deep_view() =~= deep(found@));
                    }
                    found.push(p);
                    proof {
                        assert(found.deep_view() =~= deep(found@));
                    }
                },
                None => {
                    proof {
                        lemma_unreadable_row(rows@, i + 1, mapper.headers.deep_view(), *with);
                    }
                    return None;
                },
            }
            i += 1;
        }
        proof {
            assert(rows@.subrange(0, i as int) =~= rows@);
        }
        Some(found)
    }

    /// The finishers of a page as records.
    pub fn names_and_times(input: &str) -> (r: Option<Vec<Record>>)
        ensures
            r.deep_view() == page_records(input@),
    {
        let with = match selectors() {
            Some(with) => with,
            None => {
                return None;
            },
        };
        let document = parse_document(input);
        let found = match Placement::results(&document, &with) {
            Some(found) => found,
            None => {
                return None;
            },
        };
        let mut records: Vec<Record> = Vec::new();
        let mut i: usize = 0;
        while i < found.len()
            invariant
                i <= found.len(),
                records.len() == i,
                forall|j: int|
                    0 <= j < i ==> (#[trigger] records[j])@ == (RecordView {
                        name: found[j].name@,
                        nanos: found[j].chip_time@,
                        category: category_of(found[j].gender@),
                    }),
            decreases found.len() - i,
        {
            let p = &found[i];
            records.push(
                Record {
                    name: p.name.clone(),
                    duration: p.chip_time,
                    category: morf(p.gender.as_str()),
                },
            );
            i += 1;
        }
        proof {
            assert(records.deep_view() =~= page_records(input@).unwrap());
        }
        Some(records)
    }
}

/// Rows of which a leading part cannot be read cannot be read.
proof fn lemma_unreadable_row(
    rows: Seq<scraper::ElementRef<'static>>,
    k: int,
    headers: Seq<Option<Seq<char>>>,
    with: Selectors,
)
    requires
        0 <= k <= rows.len(),
        rows_of(rows.subrange(0, k), headers, with).is_none(),
    ensures
        rows_of(rows, headers, with).is_none(),
    decreases rows.len() - k,
{
    if k < rows.len() {
        let next = rows.subrange(0, k + 1);
        assert(next.drop_last() =~= rows.subrange(0, k));
        lemma_unreadable_row(rows, k + 1, headers, with);
    } else {
        assert(rows.subrange(0, k) =~= rows);
    }
}

} // verus!
