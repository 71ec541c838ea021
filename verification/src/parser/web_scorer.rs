//! A results page whose table rows hold one finisher each, in cells that
//! are told apart by class: `r-place`, `r-bibnumber`, `r-racername`,
//! `r-category`, `r-age`, `r-gender` and `r-finish-time`, in that order.
//! The page may hold several table bodies.

use crate::category::{category_of, morf};
use crate::duration::{parse_duration, Duration};
use crate::parser::take_until_and_consume;
use crate::scan::{
    find, find_from, parse_unsigned, skip_spaces, skip_whitespace, slice_of, tag, tag_at, trimmed,
    trimmed_slice, unsigned, until_and_consume,
};
use crate::text::{decode_lossy, html_decoded, html_text, lossy_text, str_eq};
use crate::{deep, Record, RecordView};
use vstd::prelude::*;
use vstd::string::StringSliceAdditionalSpecFns;
use vstd::utf8::encode_utf8;

verus! {

/// A finisher.
#[derive(Debug)]
pub struct Placement {
    pub place: u16,
    pub bib: Option<String>,
    pub name: String,
    pub team: Option<String>,
    pub category: Option<String>,
    pub age: Option<u8>,
    pub gender: Option<String>,
    pub finish_time: Duration,
}

/// A finisher in specifications.
pub struct PlacementView {
    pub place: nat,
    pub bib: Option<Seq<char>>,
    pub name: Seq<char>,
    pub team: Option<Seq<char>>,
    pub category: Option<Seq<char>>,
    pub age: Option<nat>,
    pub gender: Option<Seq<char>>,
    pub nanos: nat,
}

impl View for Placement {
    type V = PlacementView;

    open spec fn view(&self) -> PlacementView {
        PlacementView {
            place: self.place as nat,
            bib: self.bib.deep_view(),
            name: self.name@,
            team: self.team.deep_view(),
            category: self.category.deep_view(),
            age: match self.age {
                Some(age) => Some(age as nat),
                None => None,
            },
            gender: self.gender.deep_view(),
            nanos: self.finish_time@,
        }
    }
}

impl DeepView for Placement {
    type V = PlacementView;

    open spec fn deep_view(&self) -> PlacementView {
        self@
    }
}

/// The opening of a row at `at`: white space, `<tr class="`, the class up
/// to the closing quote, and `>` at the end of the line.  Gives the offset
/// of the next line.
pub open spec fn tr_line_at(text: Seq<u8>, at: int) -> Option<int> {
    match tag_at(text, "<tr class=\"".spec_bytes(), skip_spaces(text, at)) {
        Some(class) => match until_and_consume(text, "\"".spec_bytes(), class) {
            Some((_, quote)) => tag_at(text, ">\r\n".spec_bytes(), quote),
            None => None,
        },
        None => None,
    }
}

/// A cell of class `class` at `at`: white space, `<td class='`, the class,
/// `'>`, the content, `</td>`.  Gives the offsets between which the content
/// lies and the offset after the cell.
pub open spec fn inside_td_at(text: Seq<u8>, at: int, class: Seq<u8>) -> Option<(int, int, int)> {
    match tag_at(text, "<td class='".spec_bytes(), skip_spaces(text, at)) {
        Some(name) => match tag_at(text, class, name) {
            Some(quote) => match tag_at(text, "'>".spec_bytes(), quote) {
                Some(from) => match until_and_consume(text, "</td>".spec_bytes(), from) {
                    Some((to, next)) => Some((from, to, next)),
                    None => None,
                },
                None => None,
            },
            None => None,
        },
        None => None,
    }
}

/// What a cell says that may be empty: nothing where the content is white
/// space, else the content without the white space around it, entities
/// decoded.
pub open spec fn optional_text(content: Seq<u8>) -> Option<Seq<char>> {
    if trimmed(content).len() == 0 {
        None
    } else {
        Some(html_text(lossy_text(trimmed(content))))
    }
}

/// A cell of class `class` at `at` that may be empty.
pub open spec fn optional_inside_td_at(text: Seq<u8>, at: int, class: Seq<u8>) -> Option<
    (Option<Seq<char>>, int),
> {
    match inside_td_at(text, at, class) {
        Some((from, to, next)) => Some((optional_text(text.subrange(from, to)), next)),
        None => None,
    }
}

/// The place at `at`: a cell of class `r-place` that holds a number of 16
/// bits.
pub open spec fn place_at(text: Seq<u8>, at: int) -> Option<(nat, int)> {
    match inside_td_at(text, at, "r-place".spec_bytes()) {
        Some((from, to, next)) => match parse_unsigned(text.subrange(from, to), 0xffff) {
            Some(place) => Some((place, next)),
            None => None,
        },
        None => None,
    }
}

/// The bib at `at`: a cell of class `r-bibnumber`; a hyphen in a span of
/// class `no-diff-hyphen` stands for no bib.
pub open spec fn bib_at(text: Seq<u8>, at: int) -> Option<(Option<Seq<char>>, int)> {
    match optional_inside_td_at(text, at, "r-bibnumber".spec_bytes()) {
        Some((Some(bib), next)) if bib == "<span class='no-diff-hyphen'>-</span>"@ => Some(
            (None, next),
        ),
        other => other,
    }
}

/// The name and the team in the content of a name cell.  The name is what
/// comes before the span of class `team-name`, or the whole content where
/// there is no such span; the team is the content of that span, where the
/// span is closed and holds more than white space.  Entities are decoded in
/// both.
pub open spec fn name_and_team_of(content: Seq<u8>) -> (Seq<char>, Option<Seq<char>>) {
    let span = "<span class='team-name'>".spec_bytes();
    match find_from(content, span, 0) {
        Some(at) => {
            let name = html_text(lossy_text(content.subrange(0, at)));
            match until_and_consume(content, "</span>".spec_bytes(), at + span.len()) {
                Some((end, _)) => {
                    let team = html_text(lossy_text(content.subrange(at + span.len(), end)));
                    if trimmed(encode_utf8(team)).len() == 0 {
                        (name, None)
                    } else {
                        (name, Some(team))
                    }
                },
                None => (name, None),
            }
        },
        None => (html_text(lossy_text(content)), None),
    }
}

/// The age at `at`: a cell of class `r-age` that holds a number of 8 bits.
/// Where there is no such cell, there is no age and nothing is consumed.
pub open spec fn age_at(text: Seq<u8>, at: int) -> (Option<nat>, int) {
    match inside_td_at(text, at, "r-age".spec_bytes()) {
        Some((from, to, next)) => match parse_unsigned(text.subrange(from, to), 0xff) {
            Some(age) => (Some(age), next),
            None => (None, at),
        },
        None => (None, at),
    }
}

/// A row at `at`: the opening of the row, the cells for place, bib, name,
/// category, age (which may be missing), gender and finish time, and all
/// that follows up to and with `</tr>`.  The finish time must write a
/// duration.
pub open spec fn placement_at(text: Seq<u8>, at: int) -> Option<(PlacementView, int)> {
    match tr_line_at(text, at) {
        Some(a) => match place_at(text, a) {
            Some((place, b)) => match bib_at(text, b) {
                Some((bib, c)) => match inside_td_at(text, c, "r-racername".spec_bytes()) {
                    Some((name_from, name_to, d)) => match optional_inside_td_at(
                        text,
                        d,
                        "r-category".spec_bytes(),
                    ) {
                        Some((category, e)) => {
                            let (age, f) = age_at(text, e);
                            match optional_inside_td_at(text, f, "r-gender".spec_bytes()) {
                                Some((gender, g)) => match inside_td_at(
                                    text,
                                    g,
                                    "r-finish-time".spec_bytes(),
                                ) {
                                    Some((time_from, time_to, h)) => match (
                                        parse_duration(text.subrange(time_from, time_to)),
                                        until_and_consume(text, "</tr>".spec_bytes(), h),
                                    ) {
                                        (Some(nanos), Some((_, next))) => Some(
                                            (
                                                PlacementView {
                                                    place,
                                                    bib,
                                                    name: name_and_team_of(
                                                        text.subrange(name_from, name_to),
                                                    ).0,
                                                    team: name_and_team_of(
                                                        text.subrange(name_from, name_to),
                                                    ).1,
                                                    category,
                                                    age,
                                                    gender,
                                                    nanos,
                                                },
                                                next,
                                            ),
                                        ),
                                        _ => None,
                                    },
                                    None => None,
                                },
                                None => None,
                            }
                        },
                        None => None,
                    },
                    None => None,
                },
                None => None,
            },
            None => None,
        },
        None => None,
    }
}

/// The rows that follow one another from `at` on, and the offset after the
/// last of them.
pub open spec fn rows_from(text: Seq<u8>, at: int) -> (Seq<PlacementView>, int)
    decreases text.len() - at,
{
    match placement_at(text, at) {
        Some((row, next)) if at < next <= text.len() => {
            let (rows, end) = rows_from(text, next);
            (seq![row] + rows, end)
        },
        _ => (Seq::empty(), at),
    }
}

/// The rows of the table bodies from `at` on: each body begins after the
/// next `<tbody>` and holds at least one row; the first `<tbody>` that is
/// followed by no row ends the reading.
pub open spec fn bodies_from(text: Seq<u8>, at: int) -> Seq<PlacementView>
    decreases text.len() - at,
{
    match until_and_consume(text, "<tbody>".spec_bytes(), at) {
        Some((_, body)) => {
            let (rows, next) = rows_from(text, body);
            if rows.len() > 0 && at < next <= text.len() {
                rows + bodies_from(text, next)
            } else {
                Seq::empty()
            }
        },
        None => Seq::empty(),
    }
}

/// The finishers of the page `text`, if it holds any.
pub open spec fn placements_of(text: Seq<u8>) -> Option<Seq<PlacementView>> {
    if bodies_from(text, 0).len() > 0 {
        Some(bodies_from(text, 0))
    } else {
        None
    }
}

/// The finishers of the page `text` as records: the name, the finish time,
/// and the category that the gender stands for.
pub open spec fn records_of(text: Seq<u8>) -> Option<Seq<RecordView>> {
    match placements_of(text) {
        Some(found) => Some(
            Seq::new(
                found.len(),
                |i: int|
                    RecordView {
                        name: found[i].name,
                        nanos: found[i].nanos,
                        category: match found[i].gender {
                            Some(gender) => category_of(gender),
                            None => None,
                        },
                    },
            ),
        ),
        None => None,
    }
}

/// Reads the opening of a row.
pub fn tr_line(text: &[u8], at: usize) -> (r: Option<usize>)
    ensures
        match r {
            Some(next) => tr_line_at(text@, at as int) == Some(next as int) && at <= next
                <= text.len(),
            None => tr_line_at(text@, at as int).is_none(),
        },
{
    if at > text.len() {
        return None;
    }
    let class = match tag(text, "<tr class=\"".as_bytes(), skip_whitespace(text, at)) {
        Some(class) => class,
        None => {
            return None;
        },
    };
    match take_until_and_consume(text, "\"".as_bytes(), class) {
        Some((_, quote)) => tag(text, ">\r\n".as_bytes(), quote),
        None => None,
    }
}

/// Reads a cell of class `class`.
fn inside_td(text: &[u8], at: usize, class: &[u8]) -> (r: Option<(usize, usize, usize)>)
    requires
        at <= text.len(),
    ensures
        match r {
            Some((from, to, next)) => inside_td_at(text@, at as int, class@) == Some(
                (from as int, to as int, next as int),
            ) && at <= from <= to <= next <= text.len(),
            None => inside_td_at(text@, at as int, class@).is_none(),
        },
{
    let name = match tag(text, "<td class='".as_bytes(), skip_whitespace(text, at)) {
        Some(name) => name,
        None => {
            return None;
        },
    };
    let quote = match tag(text, class, name) {
        Some(quote) => quote,
        None => {
            return None;
        },
    };
    let from = match tag(text, "'>".as_bytes(), quote) {
        Some(from) => from,
        None => {
            return None;
        },
    };
    match take_until_and_consume(text, "</td>".as_bytes(), from) {
        Some((to, next)) => Some((from, to, next)),
        None => None,
    }
}

/// Reads what a cell says that may be empty.
fn optional_content(content: &[u8]) -> (r: Option<String>)
    ensures
        r.deep_view() == optional_text(content@),
{
    let inner = trimmed_slice(content);
    if inner.len() == 0 {
        None
    } else {
        Some(html_decoded(decode_lossy(inner).as_str()))
    }
}

/// Reads a cell of class `class` that may be empty.
fn optional_inside_td(text: &[u8], at: usize, class: &[u8]) -> (r: Option<(Option<String>, usize)>)
    requires
        at <= text.len(),
    ensures
        match r {
            Some((value, next)) => optional_inside_td_at(text@, at as int, class@) == Some(
                (value.deep_view(), next as int),
            ) && at <= next <= text.len(),
            None => optional_inside_td_at(text@, at as int, class@).is_none(),
        },
{
    match inside_td(text, at, class) {
        Some((from, to, next)) => Some((optional_content(slice_of(text, from, to)), next)),
        None => None,
    }
}

/// Reads the place.
pub fn place(text: &[u8], at: usize) -> (r: Option<(u16, usize)>)
    ensures
        match r {
            Some((place, next)) => place_at(text@, at as int) == Some((place as nat, next as int))
                && at <= next <= text.len(),
            None => place_at(text@, at as int).is_none(),
        },
{
    if at > text.len() {
        return None;
    }
    match inside_td(text, at, "r-place".as_bytes()) {
        Some((from, to, next)) => match unsigned(slice_of(text, from, to), 0xffff) {
            Some(place) => Some((place as u16, next)),
            None => None,
        },
        None => None,
    }
}

/// Reads the bib.
fn bib(text: &[u8], at: usize) -> (r: Option<(Option<String>, usize)>)
    requires
        at <= text.len(),
    ensures
        match r {
            Some((value, next)) => bib_at(text@, at as int) == Some(
                (value.deep_view(), next as int),
            ) && at <= next <= text.len(),
            None => bib_at(text@, at as int).is_none(),
        },
{
    match optional_inside_td(text, at, "r-bibnumber".as_bytes()) {
        Some((Some(bib), next)) => {
            if str_eq(bib.as_str(), "<span class='no-diff-hyphen'>-</span>") {
                Some((None, next))
            } else {
                Some((Some(bib), next))
            }
        },
        other => other,
    }
}

/// Reads the name and the team in the content of a name cell.
fn inner_name_and_team(content: &[u8]) -> (r: (String, Option<String>))
    ensures
        (r.0@, r.1.deep_view()) == name_and_team_of(content@),
{
    let span = "<span class='team-name'>".as_bytes();
    match find(content, span, 0) {
        Some(at) => {
            let name = html_decoded(decode_lossy(slice_of(content, 0, at)).as_str());
            match take_until_and_consume(content, "</span>".as_bytes(), at + span.len()) {
                Some((end, _)) => {
                    let team = html_decoded(
                        decode_lossy(slice_of(content, at + span.len(), end)).as_str(),
                    );
                    if trimmed_slice(team.as_str().as_bytes()).len() == 0 {
                        (name, None)
                    } else {
                        (name, Some(team))
                    }
                },
                None => (name, None),
            }
        },
        None => (html_decoded(decode_lossy(content).as_str()), None),
    }
}

/// Reads the age, if there is an age cell.
fn age(text: &[u8], at: usize) -> (r: (Option<u8>, usize))
    requires
        at <= text.len(),
    ensures
        age_at(text@, at as int) == (
            match r.0 {
                Some(age) => Some(age as nat),
                None => None,
            },
            r.1 as int,
        ),
        at <= r.1 <= text.len(),
{
    match inside_td(text, at, "r-age".as_bytes()) {
        Some((from, to, next)) => match unsigned(slice_of(text, from, to), 0xff) {
            Some(age) => (Some(age as u8), next),
            None => (None, at),
        },
        None => (None, at),
    }
}

/// Reads a row.
pub fn placement(text: &[u8], at: usize) -> (r: Option<(Placement, usize)>)
    ensures
        match r {
            Some((row, next)) => placement_at(text@, at as int) == Some((row@, next as int))
                && at <= next <= text.len(),
            None => placement_at(text@, at as int).is_none(),
        },
{
    let a = match tr_line(text, at) {
        Some(a) => a,
        None => {
            return None;
        },
    };
    let (place, b) = match place(text, a) {
        Some(found) => found,
        None => {
            return None;
        },
    };
    let (bib, c) = match bib(text, b) {
        Some(found) => found,
        None => {
            return None;
        },
    };
    let (name_from, name_to, d) = match inside_td(text, c, "r-racername".as_bytes()) {
        Some(found) => found,
        None => {
            return None;
        },
    };
    let (category, e) = match optional_inside_td(text, d, "r-category".as_bytes()) {
        Some(found) => found,
        None => {
            return None;
        },
    };
    let (age, f) = age(text, e);
    let (gender, g) = match optional_inside_td(text, f, "r-gender".as_bytes()) {
        Some(found) => found,
        None => {
            return None;
        },
    };
    let (time_from, time_to, h) = match inside_td(text, g, "r-finish-time".as_bytes()) {
        Some(found) => found,
        None => {
            return None;
        },
    };
    let finish_time = match Duration::parse(slice_of(text, time_from, time_to)) {
        Some(found) => found,
        None => {
            return None;
        },
    };
    let next = match take_until_and_consume(text, "</tr>".as_bytes(), h) {
        Some((_, next)) => next,
        None => {
            return None;
        },
    };
    let (name, team) = inner_name_and_team(slice_of(text, name_from, name_to));
    Some((Placement { place, bib, name, team, category, age, gender, finish_time }, next))
}

/// Reads the rows that follow one another from `at` on.
fn rows(text: &[u8], at: usize) -> (r: (Vec<Placement>, usize))
    requires
        at <= text.len(),
    ensures
        rows_from(text@, at as int) == (r.0.deep_view(), r.1 as int),
        at <= r.1 <= text.len(),
{
    let mut found: Vec<Placement> = Vec::new();
    let mut here = at;
    proof {
        assert(found.deep_view() =~= Seq::empty());
    }
    loop
        invariant
            at <= here <= text.len(),
            rows_from(text@, at as int) == (
                found.deep_view() + rows_from(text@, here as int).0,
                rows_from(text@, here as int).1,
            ),
        ensures
            rows_from(text@, at as int) == (found.deep_view(), here as int),
            at <= here <= text.len(),
        decreases text.len() - here,
    {
        match placement(text, here) {
            Some((row, next)) => {
                if next > here {
                    proof {
                        let rest = rows_from(text@, next as int).0;
                        assert(deep(found@.push(row)) =~= found.deep_view() + seq![row@]);
                        assert(found.deep_view() + (seq![row@] + rest) =~= deep(found@.push(row))
                            + rest);
                    }
                    found.push(row);
                    proof {
                        assert(found.deep_view() =~= deep(found@));
                    }
                    here = next;
                } else {
                    proof {
                        assert(found.deep_view() + Seq::<PlacementView>::empty()
                            =~= found.deep_view());
                    }
                    break ;
                }
            },
            None => {
                proof {
                    assert(found.deep_view() + Seq::<PlacementView>::empty()
                        =~= found.deep_view());
                }
                break ;
            },
        }
    }
    (found, here)
}

/// Reads the finishers of a page.
pub fn results(input: &[u8]) -> (r: Option<Vec<Placement>>)
    ensures
        r.deep_view() == placements_of(input@),
{
    let mut found: Vec<Placement> = Vec::new();
    let mut here: usize = 0;
    proof {
        assert(found.deep_view() =~= Seq::empty());
    }
    loop
        invariant
            here <= input.len(),
            bodies_from(input@, 0) == found.deep_view() + bodies_from(input@, here as int),
        ensures
            bodies_from(input@, 0) == found.deep_view(),
        decreases input.len() - here,
    {
        let body = match take_until_and_consume(input, "<tbody>".as_bytes(), here) {
            Some((_, body)) => body,
            None => {
                proof {
                    assert(found.deep_view() + Seq::<PlacementView>::empty()
                        =~= found.deep_view());
                }
                break ;
            },
        };
        let (mut more, next) = rows(input, body);
        if more.len() > 0 && next > here {
            proof {
                let rest = bodies_from(input@, next as int);
                assert(deep(found@ + more@) =~= found.deep_view() + more.deep_view());
                assert(found.deep_view() + (more.deep_view() + rest) =~= deep(found@ + more@)
                    + rest);
            }
            found.append(&mut more);
            proof {
                assert(found.deep_view() =~= deep(found@));
            }
            here = next;
        } else {
            proof {
                assert(found.deep_view() + Seq::<PlacementView>::empty() =~= found.deep_view());
            }
            break ;
        }
    }
    if found.len() > 0 {
        Some(found)
    } else {
        None
    }
}

impl Placement {
    /// Reads the finishers of a page.
    pub fn results(contents: &str) -> (r: Option<Vec<Placement>>)
        ensures
            r.deep_view() == placements_of(contents.spec_bytes()),
    {
        results(contents.as_bytes())
    }

    /// The finishers of a page as records.
    pub fn names_and_times(input: &str) -> (r: Option<Vec<Record>>)
        ensures
            r.deep_view() == records_of(input.spec_bytes()),
    {
        let found = match Placement::results(input) {
            Some(found) => found,
            None => {
                return None;
            },
        };
        let mut out: Vec<Record> = Vec::new();
        let mut i: usize = 0;
        while i < found.len()
            invariant
                i <= found.len(),
                out.len() == i,
                forall|j: int|
                    0 <= j < i ==> (#[trigger] out[j])@ == (RecordView {
                        name: found[j].name@,
                        nanos: found[j].finish_time@,
                        category: match found[j].gender {
                            Some(gender) => category_of(gender@),
                            None => None,
                        },
                    }),
            decreases found.len() - i,
        {
            let p = &found[i];
            let category = match &p.gender {
                Some(gender) => morf(gender.as_str()),
                None => None,
            };
            out.push(Record { name: p.name.clone(), duration: p.finish_time, category });
            i += 1;
        }
        proof {
            assert(out.deep_view() =~= records_of(input.spec_bytes()).unwrap());
        }
        Some(out)
    }
}

} // verus!
