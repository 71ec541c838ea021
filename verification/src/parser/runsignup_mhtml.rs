//! A saved results page read without regard to its tags: each cell is found
//! by its `class` attribute alone, so that what lies between the cells of
//! interest is passed over.

use crate::category::{category_of, morf};
use crate::duration::{parse_duration, Duration};
use crate::parser::take_until_and_consume;
use crate::scan::{slice_of, tag, tag_at, until_and_consume};
use crate::text::{decode_lossy, full_name, lossy_text, name_of};
use crate::{deep, Record, RecordView};
use vstd::prelude::*;
use vstd::string::StringSliceAdditionalSpecFns;

verus! {

/// A finisher.
#[derive(Debug)]
pub struct Placement {
    pub place: String,
    pub name: String,
    pub gender: String,
    pub time: Duration,
}

/// A finisher in specifications.
pub struct PlacementView {
    pub place: Seq<char>,
    pub name: Seq<char>,
    pub gender: Seq<char>,
    pub nanos: nat,
}

impl View for Placement {
    type V = PlacementView;

    open spec fn view(&self) -> PlacementView {
        PlacementView {
            place: self.place@,
            name: self.name@,
            gender: self.gender@,
            nanos: self.time@,
        }
    }
}

impl DeepView for Placement {
    type V = PlacementView;

    open spec fn deep_view(&self) -> PlacementView {
        self@
    }
}

/// The content of the next element, at or after `at`, that is marked by
/// `marker` (its `class` attribute as it is written): all from the `>` that
/// follows the marker to the next `closing`.  Gives the offsets between
/// which the content lies and the offset after `closing`.
pub open spec fn inside_tag_at(text: Seq<u8>, at: int, marker: Seq<u8>, closing: Seq<u8>) -> Option<
    (int, int, int),
> {
    match until_and_consume(text, marker, at) {
        Some((_, a)) => match until_and_consume(text, ">".spec_bytes(), a) {
            Some((_, from)) => match until_and_consume(text, closing, from) {
                Some((to, next)) => Some((from, to, next)),
                None => None,
            },
            None => None,
        },
        None => None,
    }
}

/// The opening of the next row at or after `at`: all up to and with `<tr`,
/// and all up to and with the next `>`.
pub open spec fn tr_line_at(text: Seq<u8>, at: int) -> Option<int> {
    match until_and_consume(text, "<tr".spec_bytes(), at) {
        Some((_, a)) => match until_and_consume(text, ">".spec_bytes(), a) {
            Some((_, next)) => Some(next),
            None => None,
        },
        None => None,
    }
}

/// The name in the content of a name cell: the contents of the elements
/// marked as first and as last name, in that order, with a space between.
pub open spec fn name_of_cell(content: Seq<u8>) -> Option<Seq<char>> {
    match inside_tag_at(
        content,
        0,
        "class=\"participantName__name__firstName\"".spec_bytes(),
        "</div>".spec_bytes(),
    ) {
        Some((first_from, first_to, a)) => match inside_tag_at(
            content,
            a,
            "class=\"participantName__name__lastName\"".spec_bytes(),
            "</div>".spec_bytes(),
        ) {
            Some((last_from, last_to, _)) => Some(
                full_name(
                    lossy_text(content.subrange(first_from, first_to)),
                    lossy_text(content.subrange(last_from, last_to)),
                ),
            ),
            None => None,
        },
        None => None,
    }
}

/// A row at or after `at`: the opening of a row, then the cells marked
/// `place` and `participantName`, straight after the latter a plain cell
/// with the gender, then the cell marked `time`, which must write a
/// duration, and all that follows up to and with `</tr>`.
pub open spec fn placement_at(text: Seq<u8>, at: int) -> Option<(PlacementView, int)> {
    match tr_line_at(text, at) {
        Some(a) => match inside_tag_at(
            text,
            a,
            "class=\"place\"".spec_bytes(),
            "</td>".spec_bytes(),
        ) {
            Some((place_from, place_to, b)) => match inside_tag_at(
                text,
                b,
                "class=\"participantName\"".spec_bytes(),
                "</td>".spec_bytes(),
            ) {
                Some((name_from, name_to, c)) => match tag_at(text, "<td>".spec_bytes(), c) {
                    Some(gender_from) => match until_and_consume(
                        text,
                        "</td>".spec_bytes(),
                        gender_from,
                    ) {
                        Some((gender_to, d)) => match inside_tag_at(
                            text,
                            d,
                            "class=\"time\"".spec_bytes(),
                            "</td>".spec_bytes(),
                        ) {
                            Some((time_from, time_to, e)) => match (
                                name_of_cell(text.subrange(name_from, name_to)),
                                parse_duration(text.subrange(time_from, time_to)),
                                until_and_consume(text, "</tr>".spec_bytes(), e),
                            ) {
                                (Some(name), Some(nanos), Some((_, next))) => Some(
                                    (
                                        PlacementView {
                                            place: lossy_text(text.subrange(place_from, place_to)),
                                            name,
                                            gender: lossy_text(
                                                text.subrange(gender_from, gender_to),
                                            ),
                                            nanos,
                                        },
                                        next,
                                    ),
                                ),
                                _ => None,
                            },
                            None => None,
                        },
                        None => None,
                    },
                    None => None,
                },
                None => None,
            },
            None => None,
        },
        None => None,
    }
}

/// The rows that follow one another from `at` on.
pub open spec fn rows_from(text: Seq<u8>, at: int) -> Seq<PlacementView>
    decreases text.len() - at,
{
    match placement_at(text, at) {
        Some((row, next)) if at < next <= text.len() => seq![row] + rows_from(text, next),
        _ => Seq::empty(),
    }
}

/// The finishers of the page `text`: the rows after the first `<tbody>`, of
/// which there must be one at least.
pub open spec fn placements_of(text: Seq<u8>) -> Option<Seq<PlacementView>> {
    match until_and_consume(text, "<tbody>".spec_bytes(), 0) {
        Some((_, body)) if rows_from(text, body).len() > 0 => Some(rows_from(text, body)),
        _ => None,
    }
}

/// The finishers of the page `text` as records: the name, the time, and the
/// category that the gender stands for.
pub open spec fn records_of(text: Seq<u8>) -> Option<Seq<RecordView>> {
    match placements_of(text) {
        Some(found) => Some(
            Seq::new(
                found.len(),
                |i: int|
                    RecordView {
                        name: found[i].name,
                        nanos: found[i].nanos,
                        category: category_of(found[i].gender),
                    },
            ),
        ),
        None => None,
    }
}

/// Reads the content of the next element that is marked by `marker`.
fn inside_tag(text: &[u8], at: usize, marker: &[u8], closing: &[u8]) -> (r: Option<
    (usize, usize, usize),
>)
    ensures
        match r {
            Some((from, to, next)) => inside_tag_at(text@, at as int, marker@, closing@) == Some(
                (from as int, to as int, next as int),
            ) && at <= from <= to <= next <= text.len(),
            None => inside_tag_at(text@, at as int, marker@, closing@).is_none(),
        },
{
    let a = match take_until_and_consume(text, marker, at) {
        Some((_, a)) => a,
        None => {
            return None;
        },
    };
    let from = match take_until_and_consume(text, ">".as_bytes(), a) {
        Some((_, from)) => from,
        None => {
            return None;
        },
    };
    match take_until_and_consume(text, closing, from) {
        Some((to, next)) => Some((from, to, next)),
        None => None,
    }
}

/// Reads the opening of the next row.
fn tr_line(text: &[u8], at: usize) -> (r: Option<usize>)
    ensures
        match r {
            Some(next) => tr_line_at(text@, at as int) == Some(next as int) && at <= next
                <= text.len(),
            None => tr_line_at(text@, at as int).is_none(),
        },
{
    match take_until_and_consume(text, "<tr".as_bytes(), at) {
        Some((_, a)) => match take_until_and_consume(text, ">".as_bytes(), a) {
            Some((_, next)) => Some(next),
            None => None,
        },
        None => None,
    }
}

/// Reads the name in the content of a name cell.
fn name(content: &[u8]) -> (r: Option<String>)
    ensures
        r.deep_view() == name_of_cell(content@),
{
    let (first_from, first_to, a) = match inside_tag(
        content,
        0,
        "class=\"participantName__name__firstName\"".as_bytes(),
        "</div>".as_bytes(),
    ) {
        Some(found) => found,
        None => {
            return None;
        },
    };
    let (last_from, last_to, _) = match inside_tag(
        content,
        a,
        "class=\"participantName__name__lastName\"".as_bytes(),
        "</div>".as_bytes(),
    ) {
        Some(found) => found,
        None => {
            return None;
        },
    };
    let first = decode_lossy(slice_of(content, first_from, first_to));
    let last = decode_lossy(slice_of(content, last_from, last_to));
    Some(name_of(first.as_str(), last.as_str()))
}

/// Reads a row.
fn placement(text: &[u8], at: usize) -> (r: Option<(Placement, usize)>)
    ensures
        match r {
            Some((row, next)) => placement_at(text@, at as int) == Some((row@, next as int))
                && at <= next <= text.len(),
            None => placement_at(text@, at as int).is_none(),
        },
{
    let a = match tr_line(text, at) {
        Some(a) => a,
        None => {
            return None;
        },
    };
    let (place_from, place_to, b) = match inside_tag(
        text,
        a,
        "class=\"place\"".as_bytes(),
        "</td>".as_bytes(),
    ) {
        Some(found) => found,
        None => {
            return None;
        },
    };
    let (name_from, name_to, c) = match inside_tag(
        text,
        b,
        "class=\"participantName\"".as_bytes(),
        "</td>".as_bytes(),
    ) {
        Some(found) => found,
        None => {
            return None;
        },
    };
    let gender_from = match tag(text, "<td>".as_bytes(), c) {
        Some(found) => found,
        None => {
            return None;
        },
    };
    let (gender_to, d) = match take_until_and_consume(text, "</td>".as_bytes(), gender_from) {
        Some(found) => found,
        None => {
            return None;
        },
    };
    let (time_from, time_to, e) = match inside_tag(
        text,
        d,
        "class=\"time\"".as_bytes(),
        "</td>".as_bytes(),
    ) {
        Some(found) => found,
        None => {
            return None;
        },
    };
    let name = match name(slice_of(text, name_from, name_to)) {
        Some(found) => found,
        None => {
            return None;
        },
    };
    let time = match Duration::parse(slice_of(text, time_from, time_to)) {
        Some(found) => found,
        None => {
            return None;
        },
    };
    let next = match take_until_and_consume(text, "</tr>".as_bytes(), e) {
        Some((_, next)) => next,
        None => {
            return None;
        },
    };
    Some(
        (
            Placement {
                place: decode_lossy(slice_of(text, place_from, place_to)),
                name,
                gender: decode_lossy(slice_of(text, gender_from, gender_to)),
                time,
            },
            next,
        ),
    )
}

impl Placement {
    /// Reads the finishers of a page.
    pub fn results(contents: &str) -> (r: Option<Vec<Placement>>)
        ensures
            r.deep_view() == placements_of(contents.spec_bytes()),
    {
        let text = contents.as_bytes();
        let body = match take_until_and_consume(text, "<tbody>".as_bytes(), 0) {
            Some((_, body)) => body,
            None => {
                return None;
            },
        };
        let mut found: Vec<Placement> = Vec::new();
        let mut here = body;
        proof {
            assert(found.deep_view() =~= Seq::empty());
        }
        loop
            invariant
                body <= here <= text.len(),
                rows_from(text@, body as int) == found.deep_view() + rows_from(
                    text@,
                    here as int,
                ),
            ensures
                rows_from(text@, body as int) == found.deep_view(),
            decreases text.len() - here,
        {
            match placement(text, here) {
                Some((row, next)) => {
                    if next > here {
                        proof {
                            let rest = rows_from(text@, next as int);
                            assert(deep(found@.push(row)) =~= found.deep_view() + seq![row@]);
                            assert(found.deep_view() + (seq![row@] + rest) =~= deep(
                                found@.push(row),
                            ) + rest);
                        }
                        found.push(row);
                        proof {
                            assert(found.deep_view() =~= deep(found@));
                        }
                        here = next;
                    } else {
                        proof {
                            assert(found.deep_view() + Seq::<PlacementView>::empty()
                                =~= found.deep_view());
                        }
                        break ;
                    }
                },
                None => {
                    proof {
                        assert(found.deep_view() + Seq::<PlacementView>::empty()
                            =~= found.deep_view());
                    }
                    break ;
                },
            }
        }
        if found.len() > 0 {
            Some(found)
        } else {
            None
        }
    }

    /// The finishers of a page as records.
    pub fn names_and_times(input: &str) -> (r: Option<Vec<Record>>)
        ensures
            r.deep_view() == records_of(input.spec_bytes()),
    {
        let found = match Placement::results(input) {
            Some(found) => found,
            None => {
                return None;
            },
        };
        let mut out: Vec<Record> = Vec::new();
        let mut i: usize = 0;
        while i < found.len()
            invariant
                i <= found.len(),
                out.len() == i,
                forall|j: int|
                    0 <= j < i ==> (#[trigger] out[j])@ == (RecordView {
                        name: found[j].name@,
                        nanos: found[j].time@,
                        category: category_of(found[j].gender@),
                    }),
            decreases found.len() - i,
        {
            let p = &found[i];
            out.push(
                Record {
                    name: p.name.clone(),
                    duration: p.time,
                    category: morf(p.gender.as_str()),
                },
            );
            i += 1;
        }
        proof {
            assert(out.deep_view() =~= records_of(input.spec_bytes()).unwrap());
        }
        Some(out)
    }
}

} // verus!
