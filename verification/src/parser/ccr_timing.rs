//! Fixed-width reports of a multi-discipline race, with sections for
//! soloists, pairs and teams.
//!
//! A section begins at an anchor line.  In it, blocks follow one another,
//! each a heading line (`CATEGORY: ` or `DIVISION: `), two lines of column
//! titles, and rows of fixed-width columns.  Lines between blocks that are
//! neither a heading nor an anchor are passed over.

use crate::duration::{max_nanos, parse_clock, Duration};
use crate::order::{
    is_sorted_of, lemma_sorted_length, lemma_sorted_of, lemma_sorted_of_is_sorted, sorted_distinct,
    sorted_of, Ordered,
};
use crate::parser::take_until_and_consume;
use crate::scan::{
    blank, decimal_below, is_blank, parse_decimal_below, skip_spaces, skip_spaces_back,
    skip_whitespace, slice_of, tag, tag_at, trim_end, trimmed, trimmed_slice, until_and_consume,
};
use crate::text::{decode_lossy, lossy_text};
use crate::{deep, Record, RecordView};
use vstd::prelude::*;
use vstd::string::StringSliceAdditionalSpecFns;

verus! {

/// The column by which a section's placements are ordered.
#[derive(Clone, Copy, Debug, PartialEq, Eq, Structural)]
pub enum Sort {
    Total,
    ShoeDown,
}

/// One row of the report.
#[derive(Clone, Debug)]
pub struct Placement {
    pub category: String,
    pub category_place: u16,
    pub name: String,
    pub bike_up: Option<Duration>,
    pub run_up: Option<Duration>,
    pub ski_up: Option<Duration>,
    pub shoe_up: Option<Duration>,
    pub total_up: Option<Duration>,
    pub shoe_down: Option<Duration>,
    pub ski_down: Option<Duration>,
    pub run_down: Option<Duration>,
    pub bike_down: Option<Duration>,
    pub total_down: Option<Duration>,
    pub total: Duration,
    pub bib: u16,
}

/// A row in specifications.  `splits` holds the ten time columns before the
/// total, in the order of the report, each in nanoseconds or absent.
pub struct PlacementView {
    pub category: Seq<char>,
    pub category_place: nat,
    pub name: Seq<char>,
    pub splits: Seq<Option<nat>>,
    pub total: nat,
    pub bib: nat,
}

/// An optional duration in nanoseconds.
pub open spec fn opt_nanos(d: Option<Duration>) -> Option<nat> {
    match d {
        Some(d) => Some(d@),
        None => None,
    }
}

impl View for Placement {
    type V = PlacementView;

    open spec fn view(&self) -> PlacementView {
        PlacementView {
            category: self.category@,
            category_place: self.category_place as nat,
            name: self.name@,
            splits: seq![
                opt_nanos(self.bike_up),
                opt_nanos(self.run_up),
                opt_nanos(self.ski_up),
                opt_nanos(self.shoe_up),
                opt_nanos(self.total_up),
                opt_nanos(self.shoe_down),
                opt_nanos(self.ski_down),
                opt_nanos(self.run_down),
                opt_nanos(self.bike_down),
                opt_nanos(self.total_down),
            ],
            total: self.total@,
            bib: self.bib as nat,
        }
    }
}

impl DeepView for Placement {
    type V = PlacementView;

    open spec fn deep_view(&self) -> PlacementView {
        self@
    }
}

/// The line ending of the report.
pub open spec fn crlf() -> Seq<u8> {
    "\r\n".spec_bytes()
}

/// The offset just after the line ending that follows `at`.
pub open spec fn line_end(text: Seq<u8>, at: int) -> Option<int> {
    match until_and_consume(text, crlf(), at) {
        Some((_, next)) => Some(next),
        None => None,
    }
}

/// A heading line at `at`: an optional `<pre>`, then `CATEGORY: ` and the
/// category's name, or `DIVISION: ` and a name that is passed over.  Gives
/// the category's name, if the line has one, and the offset of the next
/// line.
pub open spec fn heading_at(text: Seq<u8>, at: int) -> Option<(Option<Seq<u8>>, int)> {
    let start = match tag_at(text, "<pre>".spec_bytes(), at) {
        Some(next) => next,
        None => at,
    };
    match tag_at(text, "CATEGORY: ".spec_bytes(), start) {
        Some(label) => match until_and_consume(text, crlf(), label) {
            Some((end, next)) => Some((Some(text.subrange(label, end)), next)),
            None => None,
        },
        None => match tag_at(text, "DIVISION: ".spec_bytes(), start) {
            Some(label) => match line_end(text, label) {
                Some(next) => Some((None, next)),
                None => None,
            },
            None => None,
        },
    }
}

/// A line at `at` that is neither a heading nor an anchor: the offset of the
/// next line.
pub open spec fn junk_line_at(text: Seq<u8>, at: int) -> Option<int> {
    if heading_at(text, at).is_some() || tag_at(text, "<h3><a name=\"".spec_bytes(), at).is_some() {
        None
    } else {
        line_end(text, at)
    }
}

/// The offset of the first line at or after `at` that is a heading or an
/// anchor, or that does not end.
pub open spec fn skip_junk(text: Seq<u8>, at: int) -> int
    decreases text.len() - at,
{
    match junk_line_at(text, at) {
        Some(next) if at < next <= text.len() => skip_junk(text, next),
        _ => at,
    }
}

/// The width of the name column: 21 under a category heading, 25 under a
/// division heading, where the category stands at the end of each row.
pub open spec fn name_width(header: Option<Seq<u8>>) -> int {
    if header.is_none() {
        25
    } else {
        21
    }
}

/// The offset of time column `i` in a row whose first time column is at
/// `first`.  A column is 7 wide; one space follows it, two after the fourth
/// and after the ninth.
pub open spec fn column_start(first: int, i: int) -> int {
    first + 8 * i + if i > 3 {
        1int
    } else {
        0int
    } + if i > 8 {
        1int
    } else {
        0int
    }
}

/// The 7 bytes of time column `i`.
pub open spec fn column(text: Seq<u8>, first: int, i: int) -> Seq<u8> {
    text.subrange(column_start(first, i), column_start(first, i) + 7)
}

/// The bytes between time column `i` and what follows it.
pub open spec fn gap(text: Seq<u8>, first: int, i: int) -> Seq<u8> {
    text.subrange(column_start(first, i) + 7, column_start(first, i + 1))
}

/// What a time column says: nothing where it is blank, else the clock text
/// after its leading spaces.
pub open spec fn split_of(field: Seq<u8>) -> Option<Option<nat>> {
    if blank(field) {
        Some(None)
    } else {
        match parse_clock(field.subrange(skip_spaces(field, 0), field.len() as int)) {
            Some(nanos) => Some(Some(nanos)),
            None => None,
        }
    }
}

/// What a right-justified number column says: a number of 16 bits.
pub open spec fn number_of(field: Seq<u8>) -> Option<nat> {
    parse_decimal_below(field.subrange(skip_spaces(field, 0), field.len() as int), 0x10000)
}

/// A row at `at` under a heading that gave `header`.  Gives the row and the
/// offset of the next line.
pub open spec fn row_at(text: Seq<u8>, at: int, header: Option<Seq<u8>>) -> Option<
    (PlacementView, int),
> {
    let first = at + 7 + name_width(header);
    let bib_at = column_start(first, 11);
    let tail = bib_at + 6;
    let rest = if header.is_none() {
        tail + 14
    } else {
        tail
    };
    if at < 0 || rest > text.len() {
        None
    } else {
        let end = match tag_at(text, "</pre>".spec_bytes(), rest) {
            Some(next) => next,
            None => rest,
        };
        let category = match header {
            Some(name) => name,
            None => text.subrange(tail, skip_spaces_back(text, tail, tail + 14)),
        };
        match (
            number_of(text.subrange(at, at + 5)),
            split_of(column(text, first, 10)),
            number_of(text.subrange(bib_at, bib_at + 5)),
            tag_at(text, crlf(), end),
        ) {
            (Some(place), Some(Some(total)), Some(bib), Some(next)) if text[at + 5] == 0x20
                && text[first - 1] == 0x20 && text[bib_at + 5] == 0x20 && (forall|i: int|
                0 <= i < 11 ==> blank(#[trigger] gap(text, first, i))) && (forall|i: int|
                0 <= i < 10 ==> split_of(#[trigger] column(text, first, i)).is_some()) => Some(
                (
                    PlacementView {
                        category: lossy_text(category),
                        category_place: place,
                        name: lossy_text(trimmed(text.subrange(at + 6, first - 1))),
                        splits: Seq::new(10, |i: int| split_of(column(text, first, i)).unwrap()),
                        total,
                        bib,
                    },
                    next,
                ),
            ),
            _ => None,
        }
    }
}

/// The rows that follow one another from `at` on, and the offset after the
/// last of them.
pub open spec fn rows_from(text: Seq<u8>, at: int, header: Option<Seq<u8>>) -> (
    Seq<PlacementView>,
    int,
)
    decreases text.len() - at,
{
    match row_at(text, at, header) {
        Some((row, next)) if at < next <= text.len() => {
            let (rows, end) = rows_from(text, next, header);
            (seq![row] + rows, end)
        },
        _ => (Seq::empty(), at),
    }
}

/// A block at `at`: a heading, two lines that are passed over, and rows.
pub open spec fn block_at(text: Seq<u8>, at: int) -> Option<(Seq<PlacementView>, int)> {
    match heading_at(text, at) {
        Some((header, titles)) => match junk_line_at(text, titles) {
            Some(rule) => match junk_line_at(text, rule) {
                Some(rows) => Some(rows_from(text, rows, header)),
                None => None,
            },
            None => None,
        },
        None => None,
    }
}

/// The rows of the blocks that follow one another from `at` on, with lines
/// before each block passed over, and the offset after the last block.
pub open spec fn blocks_from(text: Seq<u8>, at: int) -> (Seq<PlacementView>, int)
    decreases text.len() - at,
{
    match block_at(text, skip_junk(text, at)) {
        Some((rows, next)) if at < next <= text.len() => {
            let (more, end) = blocks_from(text, next);
            (rows + more, end)
        },
        _ => (Seq::empty(), at),
    }
}

/// The offset of the line after the first anchor line for `anchor` at or
/// after `at`.
pub open spec fn section_at(text: Seq<u8>, at: int, anchor: Seq<u8>) -> Option<int> {
    match until_and_consume(text, anchor, at) {
        Some((_, next)) => line_end(text, next),
        None => None,
    }
}

/// The three sections of a report.
pub struct ResultsView {
    pub soloists: Seq<PlacementView>,
    pub pairs: Seq<PlacementView>,
    pub teams: Seq<PlacementView>,
}

/// The sections of the report `text`, and the offset after the last block
/// of the last section.
pub open spec fn report_of(text: Seq<u8>) -> Option<(ResultsView, int)> {
    match section_at(text, 0, "<h3><a name=\"solo age groups\"".spec_bytes()) {
        Some(solo) => {
            let (soloists, after_solo) = blocks_from(text, solo);
            match section_at(text, after_solo, "<h3><a name=\"pairs age groups\"".spec_bytes()) {
                Some(pair) => {
                    let (pairs, after_pairs) = blocks_from(text, pair);
                    match section_at(
                        text,
                        after_pairs,
                        "<h3><a name=\"team age groups\"".spec_bytes(),
                    ) {
                        Some(team) => {
                            let (teams, end) = blocks_from(text, team);
                            Some((ResultsView { soloists, pairs, teams }, end))
                        },
                        None => None,
                    }
                },
                None => None,
            }
        },
        None => None,
    }
}

} // verus!

verus! {

/// The heading's category as specifications see it.
pub open spec fn header_view(header: Option<&[u8]>) -> Option<Seq<u8>> {
    match header {
        Some(name) => Some(name@),
        None => None,
    }
}

/// The offset just after the line ending that follows `at`.
fn line_after(text: &[u8], at: usize) -> (r: Option<usize>)
    ensures
        match r {
            Some(next) => line_end(text@, at as int) == Some(next as int) && at <= next
                <= text@.len(),
            None => line_end(text@, at as int).is_none(),
        },
{
    match take_until_and_consume(text, "\r\n".as_bytes(), at) {
        Some((_, next)) => Some(next),
        None => None,
    }
}

/// Reads a heading line at `at`.
fn heading<'a>(text: &'a [u8], at: usize) -> (r: Option<(Option<&'a [u8]>, usize)>)
    ensures
        match r {
            Some((header, next)) => heading_at(text@, at as int) == Some(
                (header_view(header), next as int),
            ) && at <= next <= text@.len(),
            None => heading_at(text@, at as int).is_none(),
        },
{
    let start = match tag(text, "<pre>".as_bytes(), at) {
        Some(next) => next,
        None => at,
    };
    match tag(text, "CATEGORY: ".as_bytes(), start) {
        Some(label) => match take_until_and_consume(text, "\r\n".as_bytes(), label) {
            Some((end, next)) => Some((Some(slice_of(text, label, end)), next)),
            None => None,
        },
        None => match tag(text, "DIVISION: ".as_bytes(), start) {
            Some(label) => match line_after(text, label) {
                Some(next) => Some((None, next)),
                None => None,
            },
            None => None,
        },
    }
}

/// Reads a line at `at` that is neither a heading nor an anchor.
pub fn junk_line(text: &[u8], at: usize) -> (r: Option<usize>)
    ensures
        match r {
            Some(next) => junk_line_at(text@, at as int) == Some(next as int) && at <= next
                <= text@.len(),
            None => junk_line_at(text@, at as int).is_none(),
        },
{
    if heading(text, at).is_some() || tag(text, "<h3><a name=\"".as_bytes(), at).is_some() {
        None
    } else {
        line_after(text, at)
    }
}

/// Passes over the lines from `at` on that are neither headings nor
/// anchors.
fn skip_junk_lines(text: &[u8], at: usize) -> (r: usize)
    ensures
        r == skip_junk(text@, at as int),
        at <= r,
{
    let mut here = at;
    loop
        invariant
            at <= here,
            skip_junk(text@, at as int) == skip_junk(text@, here as int),
        ensures
            here == skip_junk(text@, at as int),
            at <= here,
        decreases text.len() - here,
    {
        match junk_line(text, here) {
            Some(next) => {
                if next > here {
                    here = next;
                } else {
                    break ;
                }
            },
            None => {
                break ;
            },
        }
    }
    here
}

/// Reads a time column.
pub fn optional_duration(field: &[u8]) -> (r: Option<Option<Duration>>)
    ensures
        match r {
            Some(d) => split_of(field@) == Some(opt_nanos(d)) && (d matches Some(d) ==> d.wf()),
            None => split_of(field@).is_none(),
        },
{
    if is_blank(field) {
        Some(None)
    } else {
        let start = skip_whitespace(field, 0);
        match Duration::parse_clock(slice_of(field, start, field.len())) {
            Some(d) => Some(Some(d)),
            None => None,
        }
    }
}

/// Reads a right-justified number column.
fn right_justified_number(field: &[u8]) -> (r: Option<u16>)
    ensures
        match r {
            Some(n) => number_of(field@) == Some(n as nat),
            None => number_of(field@).is_none(),
        },
{
    let start = skip_whitespace(field, 0);
    match decimal_below(slice_of(field, start, field.len()), 0x10000) {
        Some(n) => Some(n as u16),
        None => None,
    }
}

/// The offset of time column `i` in a row whose first time column is at
/// `first`.
fn column_offset(first: usize, i: usize) -> (at: usize)
    requires
        i <= 11,
        first + 90 <= usize::MAX,
    ensures
        at == column_start(first as int, i as int),
{
    first + 8 * i + if i > 3 {
        1
    } else {
        0
    } + if i > 8 {
        1
    } else {
        0
    }
}

/// Reads a row at `at`.  Under a category heading `header` is the
/// category's name; under a division heading it is `None`, and the category
/// is read from the end of the row.
pub fn placement(text: &[u8], at: usize, header: Option<&[u8]>) -> (r: Option<(Placement, usize)>)
    ensures
        match r {
            Some((row, next)) => row_at(text@, at as int, header_view(header)) == Some(
                (row@, next as int),
            ) && at < next <= text@.len(),
            None => row_at(text@, at as int, header_view(header)).is_none(),
        },
{
    let width: usize = if header.is_none() {
        25
    } else {
        21
    };
    let row_len: usize = 103 + width + if header.is_none() {
        14
    } else {
        0
    };
    if at > text.len() || text.len() - at < row_len {
        return None;
    }
    let first = at + 7 + width;
    let bib_at = first + 90;
    let tail = bib_at + 6;
    let rest = at + row_len;
    let end = match tag(text, "</pre>".as_bytes(), rest) {
        Some(next) => next,
        None => rest,
    };
    let next = match tag(text, "\r\n".as_bytes(), end) {
        Some(next) => next,
        None => {
            return None;
        },
    };
    if text[at + 5] != 0x20 || text[first - 1] != 0x20 || text[bib_at + 5] != 0x20 {
        return None;
    }
    let place = match right_justified_number(slice_of(text, at, at + 5)) {
        Some(place) => place,
        None => {
            return None;
        },
    };
    let bib = match right_justified_number(slice_of(text, bib_at, bib_at + 5)) {
        Some(bib) => bib,
        None => {
            return None;
        },
    };
    let mut splits: Vec<Option<Duration>> = Vec::new();
    let mut i: usize = 0;
    while i < 11
        invariant
            i <= 11,
            splits.len() == i,
            first + 90 <= text.len(),
            first == at + 7 + name_width(header_view(header)),
            forall|j: int| 0 <= j < i ==> blank(#[trigger] gap(text@, first as int, j)),
            forall|j: int|
                0 <= j < i ==> split_of(#[trigger] column(text@, first as int, j)) == Some(
                    opt_nanos(splits@[j]),
                ),
        decreases 11 - i,
    {
        let start = column_offset(first, i);
        let after = column_offset(first, i + 1);
        if !is_blank(slice_of(text, start + 7, after)) {
            proof {
                assert(!blank(gap(text@, first as int, i as int)));
            }
            return None;
        }
        match optional_duration(slice_of(text, start, start + 7)) {
            Some(split) => {
                splits.push(split);
            },
            None => {
                proof {
                    assert(split_of(column(text@, first as int, i as int)).is_none());
                }
                return None;
            },
        }
        i += 1;
    }
    let total = match splits[10] {
        Some(total) => total,
        None => {
            proof {
                assert(split_of(column(text@, first as int, 10)) == Some(opt_nanos(splits@[10])));
            }
            return None;
        },
    };
    let category = match header {
        Some(name) => decode_lossy(name),
        None => decode_lossy(slice_of(text, tail, trim_end(text, tail, tail + 14))),
    };
    let name = decode_lossy(trimmed_slice(slice_of(text, at + 6, first - 1)));
    let row = Placement {
        category,
        category_place: place,
        name,
        bike_up: splits[0],
        run_up: splits[1],
        ski_up: splits[2],
        shoe_up: splits[3],
        total_up: splits[4],
        shoe_down: splits[5],
        ski_down: splits[6],
        run_down: splits[7],
        bike_down: splits[8],
        total_down: splits[9],
        total,
        bib,
    };
    proof {
        let expected = row_at(text@, at as int, header_view(header));
        assert(split_of(column(text@, first as int, 10)) == Some(opt_nanos(splits@[10])));
        assert forall|j: int| 0 <= j < 10 implies split_of(
            #[trigger] column(text@, first as int, j),
        ).is_some() by {}
        assert(expected.is_some());
        assert(row@.splits =~= expected.unwrap().0.splits) by {
            assert forall|j: int| 0 <= j < 10 implies row@.splits[j] == split_of(
                column(text@, first as int, j),
            ).unwrap() by {
                assert(split_of(column(text@, first as int, j)) == Some(opt_nanos(splits@[j])));
            }
        }
    }
    Some((row, next))
}

} // verus!

verus! {

/// The three sections of a report.
#[derive(Debug)]
pub struct Results {
    pub soloists: Vec<Placement>,
    pub pairs: Vec<Placement>,
    pub teams: Vec<Placement>,
}

impl View for Results {
    type V = ResultsView;

    open spec fn view(&self) -> ResultsView {
        ResultsView {
            soloists: deep(self.soloists@),
            pairs: deep(self.pairs@),
            teams: deep(self.teams@),
        }
    }
}

/// Reads the rows that follow one another from `at` on.
fn rows(text: &[u8], at: usize, header: Option<&[u8]>) -> (r: (Vec<Placement>, usize))
    ensures
        rows_from(text@, at as int, header_view(header)) == (deep(r.0@), r.1 as int),
        at <= r.1 <= text@.len() || r.1 == at,
{
    let mut found: Vec<Placement> = Vec::new();
    let mut here = at;
    loop
        invariant
            at <= here,
            here <= text@.len() || here == at,
            rows_from(text@, at as int, header_view(header)) == (
                deep(found@) + rows_from(text@, here as int, header_view(header)).0,
                rows_from(text@, here as int, header_view(header)).1,
            ),
        ensures
            rows_from(text@, at as int, header_view(header)) == (
                deep(found@),
                here as int,
            ),
            at <= here,
            here <= text@.len() || here == at,
        decreases text.len() - here,
    {
        match placement(text, here, header) {
            Some((row, next)) => {
                proof {
                    let rest = rows_from(text@, next as int, header_view(header)).0;
                    assert(deep(found@.push(row)) =~= deep(found@) + seq![
                        row@,
                    ]);
                    assert(deep(found@) + (seq![row@] + rest) =~= deep(
                        found@.push(row),
                    ) + rest);
                }
                found.push(row);
                here = next;
            },
            None => {
                proof {
                    assert(deep(found@) + Seq::<PlacementView>::empty()
                        =~= deep(found@));
                }
                break ;
            },
        }
    }
    (found, here)
}

/// Reads a block at `at`: a heading, two lines that are passed over, and
/// rows.
pub fn category_block(text: &[u8], at: usize) -> (r: Option<(Vec<Placement>, usize)>)
    ensures
        match r {
            Some((rows, next)) => block_at(text@, at as int) == Some(
                (deep(rows@), next as int),
            ) && at <= next <= text@.len(),
            None => block_at(text@, at as int).is_none(),
        },
{
    let (header, titles) = match heading(text, at) {
        Some(found) => found,
        None => {
            return None;
        },
    };
    let rule = match junk_line(text, titles) {
        Some(next) => next,
        None => {
            return None;
        },
    };
    let first_row = match junk_line(text, rule) {
        Some(next) => next,
        None => {
            return None;
        },
    };
    Some(rows(text, first_row, header))
}

/// Reads the blocks that follow one another from `at` on, passing over the
/// lines before each.
fn all_category_blocks(text: &[u8], at: usize) -> (r: (Vec<Placement>, usize))
    ensures
        blocks_from(text@, at as int) == (deep(r.0@), r.1 as int),
        at <= r.1,
{
    let mut found: Vec<Placement> = Vec::new();
    let mut here = at;
    loop
        invariant
            at <= here,
            blocks_from(text@, at as int) == (
                deep(found@) + blocks_from(text@, here as int).0,
                blocks_from(text@, here as int).1,
            ),
        ensures
            blocks_from(text@, at as int) == (deep(found@), here as int),
            at <= here,
        decreases text.len() - here,
    {
        let start = skip_junk_lines(text, here);
        match category_block(text, start) {
            Some((mut rows, next)) => {
                if next > here {
                    proof {
                        let rest = blocks_from(text@, next as int).0;
                        assert(deep(found@ + rows@) =~= deep(found@)
                            + deep(rows@));
                        assert(deep(found@) + (deep(rows@) + rest)
                            =~= deep(found@ + rows@) + rest);
                    }
                    found.append(&mut rows);
                    here = next;
                } else {
                    proof {
                        assert(deep(found@) + Seq::<PlacementView>::empty()
                            =~= deep(found@));
                    }
                    break ;
                }
            },
            None => {
                proof {
                    assert(deep(found@) + Seq::<PlacementView>::empty()
                        =~= deep(found@));
                }
                break ;
            },
        }
    }
    (found, here)
}

/// Passes over the text up to and with the first anchor line for `anchor`.
fn discard_through(text: &[u8], at: usize, anchor: &[u8]) -> (r: Option<usize>)
    ensures
        match r {
            Some(next) => section_at(text@, at as int, anchor@) == Some(next as int),
            None => section_at(text@, at as int, anchor@).is_none(),
        },
{
    match take_until_and_consume(text, anchor, at) {
        Some((_, next)) => line_after(text, next),
        None => None,
    }
}

/// Reads a report: the sections for soloists, pairs and teams, in that
/// order.  Also gives the offset after the last block of the last section.
pub fn results(input: &[u8]) -> (r: Option<(Results, usize)>)
    ensures
        match r {
            Some((results, end)) => report_of(input@) == Some((results@, end as int)),
            None => report_of(input@).is_none(),
        },
{
    let solo = match discard_through(input, 0, "<h3><a name=\"solo age groups\"".as_bytes()) {
        Some(at) => at,
        None => {
            return None;
        },
    };
    let (soloists, after_solo) = all_category_blocks(input, solo);
    let pair = match discard_through(
        input,
        after_solo,
        "<h3><a name=\"pairs age groups\"".as_bytes(),
    ) {
        Some(at) => at,
        None => {
            return None;
        },
    };
    let (pairs, after_pairs) = all_category_blocks(input, pair);
    let team = match discard_through(
        input,
        after_pairs,
        "<h3><a name=\"team age groups\"".as_bytes(),
    ) {
        Some(at) => at,
        None => {
            return None;
        },
    };
    let (teams, end) = all_category_blocks(input, team);
    Some((Results { soloists, pairs, teams }, end))
}

/// The soloists of a report as finishers: the name and the total time of
/// each, in the order of the report, none with a sex category.
pub open spec fn soloists_of(text: Seq<u8>) -> Option<Seq<RecordView>> {
    match report_of(text) {
        Some((results, _)) => Some(
            Seq::new(
                results.soloists.len(),
                |i: int|
                    RecordView {
                        name: results.soloists[i].name,
                        nanos: results.soloists[i].total,
                        category: None,
                    },
            ),
        ),
        None => None,
    }
}

impl Results {
    /// Reads a report.
    pub fn results(contents: &str) -> (r: Option<Results>)
        ensures
            match r {
                Some(results) => report_of(contents.spec_bytes()) matches Some((view, _))
                    && results@ == view,
                None => report_of(contents.spec_bytes()).is_none(),
            },
    {
        match results(contents.as_bytes()) {
            Some((results, _)) => Some(results),
            None => None,
        }
    }
}

impl Placement {
    /// The soloists of the report `input`, each with name and total time.
    pub fn soloist_names_and_times(input: &str) -> (r: Option<Vec<Record>>)
        ensures
            r.deep_view() == soloists_of(input.spec_bytes()),
    {
        let results = match Results::results(input) {
            Some(results) => results,
            None => {
                return None;
            },
        };
        let mut records: Vec<Record> = Vec::new();
        let mut i: usize = 0;
        while i < results.soloists.len()
            invariant
                i <= results.soloists.len(),
                records.len() == i,
                forall|j: int|
                    0 <= j < i ==> (#[trigger] records@[j])@ == (RecordView {
                        name: results.soloists@[j].name@,
                        nanos: results.soloists@[j].total@,
                        category: None,
                    }),
            decreases results.soloists.len() - i,
        {
            let soloist = &results.soloists[i];
            records.push(
                Record { name: soloist.name.clone(), duration: soloist.total, category: None },
            );
            i += 1;
        }
        proof {
            assert(records.deep_view() =~= soloists_of(input.spec_bytes()).unwrap());
        }
        Some(records)
    }
}

} // verus!

verus! {

/// A row with the key by which it is ordered and its position among the
/// rows of its section.
#[derive(Debug)]
pub struct Keyed {
    pub key: u128,
    pub position: usize,
    pub placement: Placement,
}

/// A row with its key and position, in specifications.
pub struct KeyedView {
    pub key: nat,
    pub position: nat,
    pub row: PlacementView,
}

impl View for Keyed {
    type V = KeyedView;

    open spec fn view(&self) -> KeyedView {
        KeyedView { key: self.key as nat, position: self.position as nat, row: self.placement@ }
    }
}

impl DeepView for Keyed {
    type V = KeyedView;

    open spec fn deep_view(&self) -> KeyedView {
        self@
    }
}

impl Ordered for Keyed {
    /// By key, the smaller first; under one key by position.
    open spec fn before(a: KeyedView, b: KeyedView) -> bool {
        if a.key != b.key {
            a.key < b.key
        } else {
            a.position < b.position
        }
    }

    fn is_before(&self, other: &Keyed) -> (r: bool) {
        if self.key != other.key {
            self.key < other.key
        } else {
            self.position < other.position
        }
    }

    proof fn lemma_irreflexive(a: KeyedView) {
    }

    proof fn lemma_transitive(a: KeyedView, b: KeyedView, c: KeyedView) {
    }
}

/// The key of `row` under `sort`, in nanoseconds: the total time, or the
/// time of the descent on snowshoes; a row without that time has a key
/// beyond every time.
pub open spec fn sort_key(row: PlacementView, sort: Sort) -> nat {
    match sort {
        Sort::Total => row.total,
        Sort::ShoeDown => match row.splits[5] {
            Some(nanos) => nanos,
            None => max_nanos() + 1,
        },
    }
}

/// The rows of a section, each with its key under `sort` and its position.
pub open spec fn keyed(rows: Seq<PlacementView>, sort: Sort) -> Seq<KeyedView> {
    Seq::new(
        rows.len(),
        |k: int| KeyedView { key: sort_key(rows[k], sort), position: k as nat, row: rows[k] },
    )
}

/// The rows of `keyed`, without their keys.
pub open spec fn unkeyed(keyed: Seq<KeyedView>) -> Seq<PlacementView> {
    Seq::new(keyed.len(), |k: int| keyed[k].row)
}

/// The rows of a section ordered by their keys under `sort`, rows with one
/// key in the order in which they stood.
pub open spec fn sorted_section(rows: Seq<PlacementView>, sort: Sort) -> Seq<PlacementView> {
    unkeyed(sorted_of::<Keyed>(keyed(rows, sort)))
}

/// `out` holds the rows of `rows` in the order of their keys under `sort`,
/// and `from` tells where each came from: row `i` of `out` is row `from[i]`
/// of `rows`; no row is taken twice, so that, both being equally long, every
/// row is taken; the keys do not fall along `out`; and rows with one key
/// stand as they stood in `rows`.
pub open spec fn in_order_of(
    out: Seq<PlacementView>,
    rows: Seq<PlacementView>,
    sort: Sort,
    from: Seq<int>,
) -> bool {
    &&& out.len() == rows.len()
    &&& from.len() == rows.len()
    &&& forall|i: int|
        0 <= i < out.len() ==> 0 <= #[trigger] from[i] < rows.len() && out[i] == rows[from[i]]
    &&& forall|i: int, j: int|
        0 <= i < j < out.len() ==> #[trigger] from[i] != #[trigger] from[j] && (sort_key(
            out[i],
            sort,
        ) < sort_key(out[j], sort) || (sort_key(out[i], sort) == sort_key(out[j], sort) && from[i]
            < from[j]))
}

/// A section that is ordered holds the rows that it held, each once, the
/// keys not falling, rows with one key in the order in which they stood.
pub proof fn lemma_sorted_section(rows: Seq<PlacementView>, sort: Sort) -> (from: Seq<int>)
    ensures
        in_order_of(sorted_section(rows, sort), rows, sort, from),
{
    let with_keys = keyed(rows, sort);
    assert forall|i: int, j: int|
        0 <= i < with_keys.len() && 0 <= j < with_keys.len() implies Keyed::before(
        #[trigger] with_keys[i],
        #[trigger] with_keys[j],
    ) || Keyed::before(with_keys[j], with_keys[i]) || with_keys[i] == with_keys[j] by {}
    lemma_sorted_of_is_sorted::<Keyed>(with_keys);
    let sorted = sorted_of::<Keyed>(with_keys);
    assert(with_keys.no_duplicates());
    lemma_sorted_length::<Keyed>(sorted, with_keys);
    let from = Seq::new(sorted.len(), |i: int| sorted[i].position as int);
    let out = sorted_section(rows, sort);
    assert forall|i: int| 0 <= i < sorted.len() implies 0 <= sorted[i].position < rows.len()
        && #[trigger] sorted[i] == with_keys[sorted[i].position as int] by {
        assert(sorted.contains(sorted[i]));
        assert(with_keys.contains(sorted[i]));
        let p = choose|p: int| 0 <= p < with_keys.len() && with_keys[p] == sorted[i];
        assert(with_keys[p].position == p);
    }
    assert forall|i: int| 0 <= i < out.len() implies 0 <= #[trigger] from[i] < rows.len() && out[i]
        == rows[from[i]] by {
        assert(sorted[i] == with_keys[sorted[i].position as int]);
    }
    assert forall|i: int, j: int| 0 <= i < j < out.len() implies #[trigger] from[i]
        != #[trigger] from[j] && (sort_key(out[i], sort) < sort_key(out[j], sort) || (sort_key(
        out[i],
        sort,
    ) == sort_key(out[j], sort) && from[i] < from[j])) by {
        assert(sorted[i] == with_keys[sorted[i].position as int]);
        assert(sorted[j] == with_keys[sorted[j].position as int]);
        assert(Keyed::before(sorted[i], sorted[j]));
    }
    from
}

/// The key of `row` under `sort`.
fn key_of(row: &Placement, sort: Sort) -> (key: u128)
    ensures
        key == sort_key(row@, sort),
{
    match sort {
        Sort::Total => row.total.as_nanos(),
        Sort::ShoeDown => match row.shoe_down {
            Some(time) => time.as_nanos(),
            None => {
                let longest = Duration::max().as_nanos();
                longest + 1
            },
        },
    }
}

/// Orders the rows of a section by their keys under `sort`.
fn sort_section(rows: Vec<Placement>, sort: Sort) -> (out: Vec<Placement>)
    ensures
        out.deep_view() == sorted_section(rows.deep_view(), sort),
{
    let ghost all = rows.deep_view();
    let mut rest = rows;
    let mut with_keys: Vec<Keyed> = Vec::new();
    proof {
        assert(rest.deep_view() =~= all);
    }
    loop
        invariant
            rest.len() <= all.len(),
            rest.deep_view() == all.subrange(0, rest.len() as int),
            with_keys.len() == all.len() - rest.len(),
            forall|j: int|
                0 <= j < with_keys.len() ==> (#[trigger] with_keys[j])@ == keyed(all, sort)[all.len()
                    - 1 - j],
        ensures
            with_keys.len() == all.len(),
            forall|j: int|
                0 <= j < with_keys.len() ==> (#[trigger] with_keys[j])@ == keyed(all, sort)[all.len()
                    - 1 - j],
        decreases rest.len(),
    {
        let ghost before = rest.deep_view();
        let position = rest.len();
        match rest.pop() {
            Some(placement) => {
                proof {
                    assert(before[position - 1] == placement@);
                    assert(rest.deep_view() =~= all.subrange(0, rest.len() as int));
                }
                let key = key_of(&placement, sort);
                with_keys.push(Keyed { key, position: position - 1, placement });
            },
            None => {
                break ;
            },
        }
    }
    proof {
        let k = keyed(all, sort);
        let w = with_keys.deep_view();
        assert forall|i: int, j: int| 0 <= i < w.len() && 0 <= j < w.len() implies Keyed::before(
            #[trigger] w[i],
            #[trigger] w[j],
        ) || Keyed::before(w[j], w[i]) || w[i] == w[j] by {
            assert(w[i] == with_keys[i]@ && w[j] == with_keys[j]@);
        }
        assert forall|x: KeyedView| w.contains(x) <==> k.contains(x) by {
            if w.contains(x) {
                let i = choose|i: int| 0 <= i < w.len() && w[i] == x;
                assert(w[i] == with_keys[i]@);
                assert(k[all.len() - 1 - i] == x);
            }
            if k.contains(x) {
                let i = choose|i: int| 0 <= i < k.len() && k[i] == x;
                assert(w[all.len() - 1 - i] == with_keys[all.len() - 1 - i]@);
            }
        }
    }
    let mut sorted = sorted_distinct(with_keys);
    proof {
        let k = keyed(all, sort);
        assert(is_sorted_of::<Keyed>(sorted.deep_view(), k));
        assert forall|i: int, j: int| 0 <= i < k.len() && 0 <= j < k.len() implies Keyed::before(
            #[trigger] k[i],
            #[trigger] k[j],
        ) || Keyed::before(k[j], k[i]) || k[i] == k[j] by {}
        lemma_sorted_of::<Keyed>(sorted.deep_view(), k);
    }
    let ghost target = sorted.deep_view();
    let mut out: Vec<Placement> = Vec::new();
    proof {
        assert(out.deep_view() =~= unkeyed(target).subrange(target.len() as int, target.len() as int));
    }
    loop
        invariant
            sorted.len() <= target.len(),
            sorted.deep_view() == target.subrange(0, sorted.len() as int),
            out.deep_view() == unkeyed(target).subrange(
                sorted.len() as int,
                target.len() as int,
            ),
        ensures
            out.deep_view() == unkeyed(target),
        decreases sorted.len(),
    {
        let ghost before = sorted.deep_view();
        let ghost out_before = out.deep_view();
        let n = sorted.len();
        match sorted.pop() {
            Some(item) => {
                proof {
                    assert(before[n - 1] == item@);
                    assert(sorted.deep_view() =~= target.subrange(0, sorted.len() as int));
                    assert(deep(out@.insert(0, item.placement)) =~= seq![item.placement@]
                        + out_before);
                    assert(seq![item.placement@] + out_before =~= unkeyed(target).subrange(
                        n - 1,
                        target.len() as int,
                    ));
                }
                out.insert(0, item.placement);
                proof {
                    assert(out.deep_view() =~= deep(out@));
                }
            },
            None => {
                proof {
                    assert(unkeyed(target).subrange(0, target.len() as int) =~= unkeyed(target));
                }
                break ;
            },
        }
    }
    out
}

impl Results {
    /// The report with the rows of each section ordered by `key`, rows
    /// with one key in the order in which they stood.
    pub fn sort_by(self, key: Sort) -> (r: Results)
        ensures
            r@.soloists == sorted_section(self@.soloists, key),
            r@.pairs == sorted_section(self@.pairs, key),
            r@.teams == sorted_section(self@.teams, key),
            exists|from: Seq<int>| in_order_of(r@.soloists, self@.soloists, key, from),
            exists|from: Seq<int>| in_order_of(r@.pairs, self@.pairs, key, from),
            exists|from: Seq<int>| in_order_of(r@.teams, self@.teams, key, from),
    {
        let ghost before = self@;
        proof {
            assert(self.soloists.deep_view() =~= deep(self.soloists@));
            assert(self.pairs.deep_view() =~= deep(self.pairs@));
            assert(self.teams.deep_view() =~= deep(self.teams@));
        }
        let soloists = sort_section(self.soloists, key);
        let pairs = sort_section(self.pairs, key);
        let teams = sort_section(self.teams, key);
        proof {
            assert(soloists.deep_view() =~= deep(soloists@));
            assert(pairs.deep_view() =~= deep(pairs@));
            assert(teams.deep_view() =~= deep(teams@));
        }
        let r = Results { soloists, pairs, teams };
        proof {
            let from_soloists = lemma_sorted_section(before.soloists, key);
            let from_pairs = lemma_sorted_section(before.pairs, key);
            let from_teams = lemma_sorted_section(before.teams, key);
            assert(in_order_of(r@.soloists, before.soloists, key, from_soloists));
            assert(in_order_of(r@.pairs, before.pairs, key, from_pairs));
            assert(in_order_of(r@.teams, before.teams, key, from_teams));
        }
        r
    }
}

} // verus!
