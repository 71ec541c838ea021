//! A results page with one table, `racetable`, of plain rows and cells.
//! Heading rows stand among the rows of finishers and are passed over; the
//! time columns come in two shapes.

use crate::duration::{parse_duration, Duration};
use crate::order::{is_sorted_of, sort_and_dedup, sorted_of};
use crate::parser::take_until_and_consume;
use crate::scan::{
    decimal_at_most, find, find_from, parse_decimal_below, parse_unsigned, skip_digit_run,
    skip_digits, skip_spaces, skip_whitespace, slice_of, tag, tag_at, trim, trim_range, unsigned,
    until_and_consume,
};
use crate::text::{decode_lossy, lossy_text};
use crate::{deep, MaleOrFemale, Record, RecordView};
use vstd::prelude::*;
use vstd::string::StringSliceAdditionalSpecFns;
use vstd::utf8::encode_utf8;

verus! {

/// A finisher.
#[derive(Debug)]
pub struct Placement {
    pub place: u16,
    pub name: String,
    pub city: Option<String>,
    pub bib: String,
    pub age: Option<u8>,
    pub gender: Option<MaleOrFemale>,
    pub age_group_place: Option<String>,
    pub chip_time: Duration,
    pub gun_time: Option<Duration>,
    pub pace: Option<String>,
}

/// A finisher in specifications.
pub struct PlacementView {
    pub place: nat,
    pub name: Seq<char>,
    pub city: Option<Seq<char>>,
    pub bib: Seq<char>,
    pub age: Option<nat>,
    pub gender: Option<MaleOrFemale>,
    pub age_group_place: Option<Seq<char>>,
    pub chip_nanos: nat,
    pub gun_nanos: Option<nat>,
    pub pace: Option<Seq<char>>,
}

impl View for Placement {
    type V = PlacementView;

    open spec fn view(&self) -> PlacementView {
        PlacementView {
            place: self.place as nat,
            name: self.name@,
            city: self.city.deep_view(),
            bib: self.bib@,
            age: match self.age {
                Some(age) => Some(age as nat),
                None => None,
            },
            gender: self.gender,
            age_group_place: self.age_group_place.deep_view(),
            chip_nanos: self.chip_time@,
            gun_nanos: match self.gun_time {
                Some(time) => Some(time@),
                None => None,
            },
            pace: self.pace.deep_view(),
        }
    }
}

impl DeepView for Placement {
    type V = PlacementView;

    open spec fn deep_view(&self) -> PlacementView {
        self@
    }
}

/// White space and `<tr>` at `at`.
pub open spec fn tr_at(text: Seq<u8>, at: int) -> Option<int> {
    tag_at(text, "<tr>".spec_bytes(), skip_spaces(text, at))
}

/// White space and `</tr>` at `at`.
pub open spec fn close_tr_at(text: Seq<u8>, at: int) -> Option<int> {
    tag_at(text, "</tr>".spec_bytes(), skip_spaces(text, at))
}

/// A cell at `at`: white space, `<td` and all up to `>`, the content,
/// `</td>`.  Gives the content without the white space around it and the
/// offset after the cell.
pub open spec fn td_at(text: Seq<u8>, at: int) -> Option<(Seq<u8>, int)> {
    match tag_at(text, "<td".spec_bytes(), skip_spaces(text, at)) {
        Some(a) => match until_and_consume(text, ">".spec_bytes(), a) {
            Some((_, from)) => match until_and_consume(text, "</td>".spec_bytes(), from) {
                Some((to, next)) => Some(
                    (text.subrange(trim_range(text, from, to).0, trim_range(text, from, to).1), next),
                ),
                None => None,
            },
            None => None,
        },
        None => None,
    }
}

/// A cell at `at` that writes a duration.
pub open spec fn td_duration_at(text: Seq<u8>, at: int) -> Option<(nat, int)> {
    match td_at(text, at) {
        Some((content, next)) => match parse_duration(content) {
            Some(nanos) => Some((nanos, next)),
            None => None,
        },
        None => None,
    }
}

/// The opening of a navigation cell at `at`: `<td`, with `colspan="`
/// somewhere before the `>` that closes the tag.  Gives the offset after
/// `<td`.
pub open spec fn navigation_open_td_at(text: Seq<u8>, at: int) -> Option<int> {
    match tag_at(text, "<td".spec_bytes(), at) {
        Some(a) => match find_from(text, ">".spec_bytes(), a) {
            Some(end) if a <= end <= text.len() && find_from(
                text.subrange(a, end),
                "colspan=\"".spec_bytes(),
                0,
            ).is_some() => Some(a),
            _ => None,
        },
        None => None,
    }
}

/// A heading cell at `at`: white space, then a cell whose class begins
/// with `h` or a navigation cell, and all up to and with `</td>`.
pub open spec fn heading_td_at(text: Seq<u8>, at: int) -> Option<int> {
    let start = skip_spaces(text, at);
    let opened = match tag_at(text, "<td class=h".spec_bytes(), start) {
        Some(a) => Some(a),
        None => navigation_open_td_at(text, start),
    };
    match opened {
        Some(a) => match until_and_consume(text, "</td>".spec_bytes(), a) {
            Some((_, next)) => Some(next),
            None => None,
        },
        None => None,
    }
}

/// The offset after the heading cells that follow one another from `at`
/// on.
pub open spec fn heading_tds_from(text: Seq<u8>, at: int) -> int
    decreases text.len() - at,
{
    match heading_td_at(text, at) {
        Some(next) if at < next <= text.len() => heading_tds_from(text, next),
        _ => at,
    }
}

/// A heading row at `at`: `<tr>`, one heading cell or more, `</tr>`.
pub open spec fn heading_tr_at(text: Seq<u8>, at: int) -> Option<int> {
    match tr_at(text, skip_spaces(text, at)) {
        Some(a) => match heading_td_at(text, a) {
            Some(b) if a < b <= text.len() => close_tr_at(text, heading_tds_from(text, b)),
            _ => None,
        },
        None => None,
    }
}

/// The offset after the heading rows that follow one another from `at` on.
pub open spec fn heading_trs_from(text: Seq<u8>, at: int) -> int
    decreases text.len() - at,
{
    match heading_tr_at(text, at) {
        Some(next) if at < next <= text.len() => heading_trs_from(text, next),
        _ => at,
    }
}

/// The sex that the content of a cell begins with: `M`, `F` or `X`.
pub open spec fn gender_of(content: Seq<u8>) -> Option<MaleOrFemale> {
    if content.len() == 0 {
        None
    } else if content[0] == 0x4d {
        Some(MaleOrFemale::Male)
    } else if content[0] == 0x46 {
        Some(MaleOrFemale::Female)
    } else if content[0] == 0x58 {
        Some(MaleOrFemale::NonBinary)
    } else {
        None
    }
}

/// The gender at `at`: a cell whose content begins with the letter of a
/// sex.  Where the next cell does not, there is no gender and nothing is
/// consumed.
pub open spec fn gender_at(text: Seq<u8>, at: int) -> (Option<MaleOrFemale>, int) {
    match td_at(text, at) {
        Some((content, next)) if gender_of(content).is_some() => (gender_of(content), next),
        _ => (None, at),
    }
}

/// A cell at `at`, if there is one; where there is none, nothing is
/// consumed.
pub open spec fn optional_td_at(text: Seq<u8>, at: int) -> (Option<Seq<u8>>, int) {
    match td_at(text, at) {
        Some((content, next)) => (Some(content), next),
        None => (None, at),
    }
}

/// The chip time and the gun time at `at`, in the first of two shapes that
/// fits: a cell that is passed over, if there is one, then two cells with
/// durations, chip time and gun time; or a cell with the chip time and, if
/// the next cell writes a duration, that as the gun time.
pub open spec fn chip_and_gun_time_at(text: Seq<u8>, at: int) -> Option<(nat, Option<nat>, int)> {
    let three = match td_duration_at(text, optional_td_at(text, at).1) {
        Some((chip, a)) => match td_duration_at(text, a) {
            Some((gun, next)) => Some((chip, Some(gun), next)),
            None => None,
        },
        None => None,
    };
    match three {
        Some(found) => Some(found),
        None => match td_duration_at(text, at) {
            Some((chip, a)) => match td_duration_at(text, a) {
                Some((gun, next)) => Some((chip, Some(gun), next)),
                None => Some((chip, None, a)),
            },
            None => None,
        },
    }
}

/// What a cell says that may be empty.
pub open spec fn optional_text(content: Seq<u8>) -> Option<Seq<char>> {
    if content.len() == 0 {
        None
    } else {
        Some(lossy_text(content))
    }
}

/// The age that a cell writes: a positive number of 8 bits, or none where
/// the cell writes anything else.
pub open spec fn age_of(content: Seq<u8>) -> Option<nat> {
    match parse_unsigned(content, 0xff) {
        Some(n) if n > 0 => Some(n),
        _ => None,
    }
}

/// A row of a finisher at `at`: heading rows, which are passed over, then
/// `<tr>`, the cells for place (a positive number of 16 bits), name, city,
/// bib and age, a cell for the gender and one for the place in the age
/// group, either of which may be missing, the times, a cell for the pace,
/// which may be missing, and `</tr>`.
pub open spec fn placement_at(text: Seq<u8>, at: int) -> Option<(PlacementView, int)> {
    match tr_at(text, heading_trs_from(text, at)) {
        Some(a) => match td_at(text, a) {
            Some((place, b)) => match td_at(text, b) {
                Some((name, c)) => match td_at(text, c) {
                    Some((city, d)) => match td_at(text, d) {
                        Some((bib, e)) => match td_at(text, e) {
                            Some((age, f)) => {
                                let (gender, g) = gender_at(text, f);
                                let (age_group_place, h) = optional_td_at(text, g);
                                match chip_and_gun_time_at(text, h) {
                                    Some((chip_nanos, gun_nanos, i)) => {
                                        let (pace, j) = optional_td_at(text, i);
                                        match (
                                            parse_unsigned(place, 0xffff),
                                            close_tr_at(text, j),
                                        ) {
                                            (Some(place), Some(next)) if place > 0 => Some(
                                                (
                                                    PlacementView {
                                                        place,
                                                        name: lossy_text(name),
                                                        city: optional_text(city),
                                                        bib: lossy_text(bib),
                                                        age: age_of(age),
                                                        gender,
                                                        age_group_place: match age_group_place {
                                                            Some(text) => Some(lossy_text(text)),
                                                            None => None,
                                                        },
                                                        chip_nanos,
                                                        gun_nanos,
                                                        pace: match pace {
                                                            Some(text) => Some(lossy_text(text)),
                                                            None => None,
                                                        },
                                                    },
                                                    next,
                                                ),
                                            ),
                                            _ => None,
                                        }
                                    },
                                    None => None,
                                }
                            },
                            None => None,
                        },
                        None => None,
                    },
                    None => None,
                },
                None => None,
            },
            None => None,
        },
        None => None,
    }
}

/// The rows of finishers that follow one another from `at` on.
pub open spec fn rows_from(text: Seq<u8>, at: int) -> Seq<PlacementView>
    decreases text.len() - at,
{
    match placement_at(text, at) {
        Some((row, next)) if at < next <= text.len() => seq![row] + rows_from(text, next),
        _ => Seq::empty(),
    }
}

/// The opening of the table of results.
pub open spec fn table_opening() -> Seq<u8> {
    "<table border=0 cellpadding=0 cellspacing=0 class=\"racetable\">".spec_bytes()
}

/// The finishers of the page `text`: the rows after the opening of the
/// table of results, of which there must be one at least.
pub open spec fn placements_of(text: Seq<u8>) -> Option<Seq<PlacementView>> {
    match until_and_consume(text, table_opening(), 0) {
        Some((_, first)) if rows_from(text, first).len() > 0 => Some(rows_from(text, first)),
        _ => None,
    }
}

/// The finishers of the page `text` as records, in the order of the page:
/// the name, the chip time, and the gender.
pub open spec fn records_of(text: Seq<u8>) -> Option<Seq<RecordView>> {
    match placements_of(text) {
        Some(found) => Some(
            Seq::new(
                found.len(),
                |i: int|
                    RecordView {
                        name: found[i].name,
                        nanos: found[i].chip_nanos,
                        category: found[i].gender,
                    },
            ),
        ),
        None => None,
    }
}

/// The finishers of the page `text` as records, in the order of finishers,
/// each once.
pub open spec fn sorted_records_of(text: Seq<u8>) -> Option<Seq<RecordView>> {
    match records_of(text) {
        Some(found) => Some(sorted_of::<Record>(found)),
        None => None,
    }
}

} // verus!

verus! {

/// Reads white space and `<tr>`.
fn tr(text: &[u8], at: usize) -> (r: Option<usize>)
    requires
        at <= text.len(),
    ensures
        match r {
            Some(next) => tr_at(text@, at as int) == Some(next as int) && at <= next <= text.len(),
            None => tr_at(text@, at as int).is_none(),
        },
{
    tag(text, "<tr>".as_bytes(), skip_whitespace(text, at))
}

/// Reads white space and `</tr>`.
fn close_tr(text: &[u8], at: usize) -> (r: Option<usize>)
    requires
        at <= text.len(),
    ensures
        match r {
            Some(next) => close_tr_at(text@, at as int) == Some(next as int) && at <= next
                <= text.len(),
            None => close_tr_at(text@, at as int).is_none(),
        },
{
    tag(text, "</tr>".as_bytes(), skip_whitespace(text, at))
}

/// Reads a cell.
fn td<'a>(text: &'a [u8], at: usize) -> (r: Option<(&'a [u8], usize)>)
    requires
        at <= text.len(),
    ensures
        match r {
            Some((content, next)) => td_at(text@, at as int) == Some((content@, next as int))
                && at < next <= text.len(),
            None => td_at(text@, at as int).is_none(),
        },
{
    let a = match tag(text, "<td".as_bytes(), skip_whitespace(text, at)) {
        Some(a) => a,
        None => {
            return None;
        },
    };
    let from = match take_until_and_consume(text, ">".as_bytes(), a) {
        Some((_, from)) => from,
        None => {
            return None;
        },
    };
    proof {
        reveal_strlit(">");
        assert(">"@.len() == 1);
        assert(">".is_ascii()) by {
            assert(">"@[0] == '>');
        }
        vstd::string::is_ascii_spec_bytes(">");
    }
    match take_until_and_consume(text, "</td>".as_bytes(), from) {
        Some((to, next)) => {
            let (inner_from, inner_to) = trim(text, from, to);
            Some((slice_of(text, inner_from, inner_to), next))
        },
        None => None,
    }
}

/// Reads a cell that writes a duration.
fn td_duration(text: &[u8], at: usize) -> (r: Option<(Duration, usize)>)
    requires
        at <= text.len(),
    ensures
        match r {
            Some((time, next)) => td_duration_at(text@, at as int) == Some((time@, next as int))
                && at < next <= text.len() && time.wf(),
            None => td_duration_at(text@, at as int).is_none(),
        },
{
    match td(text, at) {
        Some((content, next)) => match Duration::parse(content) {
            Some(time) => Some((time, next)),
            None => None,
        },
        None => None,
    }
}

/// Reads the opening of a navigation cell.
fn navigation_open_td(text: &[u8], at: usize) -> (r: Option<usize>)
    requires
        at <= text.len(),
    ensures
        match r {
            Some(next) => navigation_open_td_at(text@, at as int) == Some(next as int) && at
                <= next <= text.len(),
            None => navigation_open_td_at(text@, at as int).is_none(),
        },
{
    let a = match tag(text, "<td".as_bytes(), at) {
        Some(a) => a,
        None => {
            return None;
        },
    };
    match find(text, ">".as_bytes(), a) {
        Some(end) => {
            if find(slice_of(text, a, end), "colspan=\"".as_bytes(), 0).is_some() {
                Some(a)
            } else {
                None
            }
        },
        None => None,
    }
}

/// Reads a heading cell.
fn heading_td(text: &[u8], at: usize) -> (r: Option<usize>)
    requires
        at <= text.len(),
    ensures
        match r {
            Some(next) => heading_td_at(text@, at as int) == Some(next as int) && at <= next
                <= text.len(),
            None => heading_td_at(text@, at as int).is_none(),
        },
{
    let start = skip_whitespace(text, at);
    let opened = match tag(text, "<td class=h".as_bytes(), start) {
        Some(a) => Some(a),
        None => navigation_open_td(text, start),
    };
    match opened {
        Some(a) => match take_until_and_consume(text, "</td>".as_bytes(), a) {
            Some((_, next)) => Some(next),
            None => None,
        },
        None => None,
    }
}

/// Reads a heading row.
fn heading_tr(text: &[u8], at: usize) -> (r: Option<usize>)
    requires
        at <= text.len(),
    ensures
        match r {
            Some(next) => heading_tr_at(text@, at as int) == Some(next as int) && at <= next
                <= text.len(),
            None => heading_tr_at(text@, at as int).is_none(),
        },
{
    let a = match tr(text, skip_whitespace(text, at)) {
        Some(a) => a,
        None => {
            return None;
        },
    };
    let b = match heading_td(text, a) {
        Some(b) => b,
        None => {
            return None;
        },
    };
    if b <= a {
        return None;
    }
    let mut here = b;
    loop
        invariant
            b <= here <= text.len(),
            heading_tds_from(text@, b as int) == heading_tds_from(text@, here as int),
        ensures
            b <= here <= text.len(),
            here == heading_tds_from(text@, b as int),
        decreases text.len() - here,
    {
        match heading_td(text, here) {
            Some(next) => {
                if next > here {
                    here = next;
                } else {
                    break ;
                }
            },
            None => {
                break ;
            },
        }
    }
    close_tr(text, here)
}

/// Passes over the heading rows from `at` on.
fn heading_trs(text: &[u8], at: usize) -> (r: usize)
    requires
        at <= text.len(),
    ensures
        r == heading_trs_from(text@, at as int),
        at <= r <= text.len(),
{
    let mut here = at;
    loop
        invariant
            at <= here <= text.len(),
            heading_trs_from(text@, at as int) == heading_trs_from(text@, here as int),
        ensures
            at <= here <= text.len(),
            here == heading_trs_from(text@, at as int),
        decreases text.len() - here,
    {
        match heading_tr(text, here) {
            Some(next) => {
                if next > here {
                    here = next;
                } else {
                    break ;
                }
            },
            None => {
                break ;
            },
        }
    }
    here
}

/// The sex that the content of a cell begins with.
fn gender(content: &[u8]) -> (r: Option<MaleOrFemale>)
    ensures
        r == gender_of(content@),
{
    if content.len() == 0 {
        None
    } else if content[0] == 0x4d {
        Some(MaleOrFemale::Male)
    } else if content[0] == 0x46 {
        Some(MaleOrFemale::Female)
    } else if content[0] == 0x58 {
        Some(MaleOrFemale::NonBinary)
    } else {
        None
    }
}

/// Reads the chip time and the gun time.
fn chip_and_gun_time(text: &[u8], at: usize) -> (r: Option<(Duration, Option<Duration>, usize)>)
    requires
        at <= text.len(),
    ensures
        match r {
            Some((chip, gun, next)) => chip_and_gun_time_at(text@, at as int) == Some(
                (
                    chip@,
                    match gun {
                        Some(gun) => Some(gun@),
                        None => None,
                    },
                    next as int,
                ),
            ) && at < next <= text.len(),
            None => chip_and_gun_time_at(text@, at as int).is_none(),
        },
{
    let skipped = match td(text, at) {
        Some((_, next)) => next,
        None => at,
    };
    let three = match td_duration(text, skipped) {
        Some((chip, a)) => match td_duration(text, a) {
            Some((gun, next)) => Some((chip, Some(gun), next)),
            None => None,
        },
        None => None,
    };
    match three {
        Some(found) => Some(found),
        None => match td_duration(text, at) {
            Some((chip, a)) => match td_duration(text, a) {
                Some((gun, next)) => Some((chip, Some(gun), next)),
                None => Some((chip, None, a)),
            },
            None => None,
        },
    }
}

/// Reads what a cell says that may be empty.
fn optional_content(content: &[u8]) -> (r: Option<String>)
    ensures
        r.deep_view() == optional_text(content@),
{
    if content.len() == 0 {
        None
    } else {
        Some(decode_lossy(content))
    }
}

/// Reads a row of a finisher.
fn placement(text: &[u8], at: usize) -> (r: Option<(Placement, usize)>)
    requires
        at <= text.len(),
    ensures
        match r {
            Some((row, next)) => placement_at(text@, at as int) == Some((row@, next as int))
                && at < next <= text.len(),
            None => placement_at(text@, at as int).is_none(),
        },
{
    let a = match tr(text, heading_trs(text, at)) {
        Some(a) => a,
        None => {
            return None;
        },
    };
    let (place, b) = match td(text, a) {
        Some(found) => found,
        None => {
            return None;
        },
    };
    let (name, c) = match td(text, b) {
        Some(found) => found,
        None => {
            return None;
        },
    };
    let (city, d) = match td(text, c) {
        Some(found) => found,
        None => {
            return None;
        },
    };
    let (bib, e) = match td(text, d) {
        Some(found) => found,
        None => {
            return None;
        },
    };
    let (age, f) = match td(text, e) {
        Some(found) => found,
        None => {
            return None;
        },
    };
    let (gender, g) = match td(text, f) {
        Some((content, next)) => match gender(content) {
            Some(found) => (Some(found), next),
            None => (None, f),
        },
        None => (None, f),
    };
    let (age_group_place, h) = match td(text, g) {
        Some((content, next)) => (Some(decode_lossy(content)), next),
        None => (None, g),
    };
    let (chip_time, gun_time, i) = match chip_and_gun_time(text, h) {
        Some(found) => found,
        None => {
            return None;
        },
    };
    let (pace, j) = match td(text, i) {
        Some((content, next)) => (Some(decode_lossy(content)), next),
        None => (None, i),
    };
    let place = match unsigned(place, 0xffff) {
        Some(place) => place,
        None => {
            return None;
        },
    };
    if place == 0 {
        return None;
    }
    let next = match close_tr(text, j) {
        Some(next) => next,
        None => {
            return None;
        },
    };
    let age = match unsigned(age, 0xff) {
        Some(age) => if age > 0 {
            Some(age as u8)
        } else {
            None
        },
        None => None,
    };
    Some(
        (
            Placement {
                place: place as u16,
                name: decode_lossy(name),
                city: optional_content(city),
                bib: decode_lossy(bib),
                age,
                gender,
                age_group_place,
                chip_time,
                gun_time,
                pace,
            },
            next,
        ),
    )
}

impl Placement {
    /// Reads the finishers of a page.
    pub fn results(contents: &str) -> (r: Option<Vec<Placement>>)
        ensures
            r.deep_view() == placements_of(contents.spec_bytes()),
    {
        let text = contents.as_bytes();
        let first = match take_until_and_consume(
            text,
            "<table border=0 cellpadding=0 cellspacing=0 class=\"racetable\">".as_bytes(),
            0,
        ) {
            Some((_, first)) => first,
            None => {
                return None;
            },
        };
        let mut found: Vec<Placement> = Vec::new();
        let mut here = first;
        proof {
            assert(found.deep_view() =~= Seq::empty());
        }
        loop
            invariant
                first <= here <= text.len(),
                rows_from(text@, first as int) == found.deep_view() + rows_from(
                    text@,
                    here as int,
                ),
            ensures
                rows_from(text@, first as int) == found.deep_view(),
            decreases text.len() - here,
        {
            match placement(text, here) {
                Some((row, next)) => {
                    proof {
                        let rest = rows_from(text@, next as int);
                        assert(deep(found@.push(row)) =~= found.deep_view() + seq![row@]);
                        assert(found.deep_view() + (seq![row@] + rest) =~= deep(
                            found@.push(row),
                        ) + rest);
                    }
                    found.push(row);
                    proof {
                        assert(found.deep_view() =~= deep(found@));
                    }
                    here = next;
                },
                None => {
                    proof {
                        assert(found.deep_view() + Seq::<PlacementView>::empty()
                            =~= found.deep_view());
                    }
                    break ;
                },
            }
        }
        if found.len() > 0 {
            Some(found)
        } else {
            None
        }
    }

    /// The finishers of a page as records, in the order of finishers, each
    /// once.
    pub fn names_and_times(input: &str) -> (r: Option<Vec<Record>>)
        ensures
            r.deep_view() == sorted_records_of(input.spec_bytes()),
            r matches Some(out) ==> is_sorted_of::<Record>(
                out.deep_view(),
                records_of(input.spec_bytes()).unwrap(),
            ),
    {
        let found = match Placement::results(input) {
            Some(found) => found,
            None => {
                return None;
            },
        };
        let mut out: Vec<Record> = Vec::new();
        let mut i: usize = 0;
        while i < found.len()
            invariant
                i <= found.len(),
                out.len() == i,
                forall|j: int|
                    0 <= j < i ==> (#[trigger] out[j])@ == (RecordView {
                        name: found[j].name@,
                        nanos: found[j].chip_time@,
                        category: found[j].gender,
                    }),
            decreases found.len() - i,
        {
            let p = &found[i];
            out.push(Record { name: p.name.clone(), duration: p.chip_time, category: p.gender });
            i += 1;
        }
        proof {
            assert(out.deep_view() =~= records_of(input.spec_bytes()).unwrap());
        }
        Some(sort_and_dedup(out))
    }
}

/// An age group: open to all ages, or a range of ages, both ends within.
#[derive(Clone, Copy, Debug, PartialEq, Eq, Structural)]
pub enum AgeGroup {
    Open,
    AgeGroup { start: u8, end: u8 },
}

/// A place in an age group.
#[derive(Clone, Copy, Debug, PartialEq, Eq, Structural)]
pub struct AgeGroupPlace {
    pub place: u16,
    pub age_group: AgeGroup,
}

/// The positive number of at most `max` that the digits of `text` from `at`
/// on write, and the offset after them.
pub open spec fn digits_at(text: Seq<u8>, at: int, max: nat) -> Option<(nat, int)> {
    if 0 <= at <= skip_digits(text, at) <= text.len() {
        match parse_decimal_below(text.subrange(at, skip_digits(text, at)), max + 1) {
            Some(n) if n > 0 => Some((n, skip_digits(text, at))),
            _ => None,
        }
    } else {
        None
    }
}

/// The age group at `at`: `Open`, or two ages with a hyphen between, each a
/// positive number of 8 bits that white space may precede.
pub open spec fn age_group_at(text: Seq<u8>, at: int) -> Option<AgeGroup> {
    if tag_at(text, "Open".spec_bytes(), at).is_some() {
        Some(AgeGroup::Open)
    } else {
        match digits_at(text, skip_spaces(text, at), 0xff) {
            Some((start, hyphen)) => match tag_at(text, "-".spec_bytes(), hyphen) {
                Some(second) => match digits_at(text, skip_spaces(text, second), 0xff) {
                    Some((end, _)) => Some(AgeGroup::AgeGroup { start: start as u8, end: end as u8 }),
                    None => None,
                },
                None => None,
            },
            None => None,
        }
    }
}

/// The place in an age group that `content` begins with: a place, which is
/// a positive number of 16 bits, a colon, and an age group.
pub open spec fn age_group_place_of(content: Seq<u8>) -> Option<AgeGroupPlace> {
    match digits_at(content, 0, 0xffff) {
        Some((place, colon)) => match tag_at(content, ":".spec_bytes(), colon) {
            Some(group) => match age_group_at(content, group) {
                Some(age_group) => Some(AgeGroupPlace { place: place as u16, age_group }),
                None => None,
            },
            None => None,
        },
        None => None,
    }
}

/// Reads a positive number of at most `max` from the digits at `at`.
fn digits(text: &[u8], at: usize, max: u64) -> (r: Option<(u64, usize)>)
    requires
        at <= text.len(),
    ensures
        match r {
            Some((n, next)) => digits_at(text@, at as int, max as nat) == Some(
                (n as nat, next as int),
            ) && 0 < n <= max && at <= next <= text.len(),
            None => digits_at(text@, at as int, max as nat).is_none(),
        },
{
    let end = skip_digit_run(text, at);
    match decimal_at_most(slice_of(text, at, end), max) {
        Some(n) => if n > 0 {
            Some((n, end))
        } else {
            None
        },
        None => None,
    }
}

/// Reads the age group at `at`.
fn age_group(text: &[u8], at: usize) -> (r: Option<AgeGroup>)
    requires
        at <= text.len(),
    ensures
        r == age_group_at(text@, at as int),
{
    if tag(text, "Open".as_bytes(), at).is_some() {
        return Some(AgeGroup::Open);
    }
    let (start, hyphen) = match digits(text, skip_whitespace(text, at), 0xff) {
        Some(found) => found,
        None => {
            return None;
        },
    };
    let second = match tag(text, "-".as_bytes(), hyphen) {
        Some(second) => second,
        None => {
            return None;
        },
    };
    match digits(text, skip_whitespace(text, second), 0xff) {
        Some((end, _)) => Some(AgeGroup::AgeGroup { start: start as u8, end: end as u8 }),
        None => None,
    }
}

/// Reads the place in an age group that `content` begins with.
pub fn age_group_place(content: &[u8]) -> (r: Option<AgeGroupPlace>)
    ensures
        r == age_group_place_of(content@),
{
    let (place, colon) = match digits(content, 0, 0xffff) {
        Some(found) => found,
        None => {
            return None;
        },
    };
    let group = match tag(content, ":".as_bytes(), colon) {
        Some(group) => group,
        None => {
            return None;
        },
    };
    match age_group(content, group) {
        Some(age_group) => Some(AgeGroupPlace { place: place as u16, age_group }),
        None => None,
    }
}

impl Placement {
    /// The place in the age group, where the cell for it writes one.
    pub fn age_group_place(&self) -> (r: Option<AgeGroupPlace>)
        ensures
            r == match self.age_group_place {
                Some(text) => age_group_place_of(encode_utf8(text@)),
                None => None,
            },
    {
        match &self.age_group_place {
            Some(text) => age_group_place(text.as_str().as_bytes()),
            None => None,
        }
    }
}

} // verus!
