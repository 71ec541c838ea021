//! A results listing with one finisher per line: ten fields, the first nine
//! each ended by a tab, the last, the age, by `<br>`.  The listing begins
//! after the heading that ends in `Age<br>`.

use crate::category::{category_of, morf};
use crate::duration::{parse_duration, Duration};
use crate::order::{is_sorted_of, sort_and_dedup, sorted_of};
use crate::parser::take_until_and_consume;
use crate::scan::{
    find, find_from, parse_unsigned, replace, replaced, slice_of, trimmed, trimmed_slice,
    unsigned, until_and_consume,
};
use crate::text::{decode_lossy, full_name, lossy_text, name_of};
use crate::{deep, Record, RecordView};
use vstd::prelude::*;
use vstd::string::StringSliceAdditionalSpecFns;

verus! {

/// A finisher.
#[derive(Debug)]
pub struct Placement {
    pub rank: u16,
    pub bib: String,
    pub time: Duration,
    pub first_name: String,
    pub last_name: String,
    pub age_group: String,
    pub city: String,
    pub state: String,
    pub gender: String,
    pub age: u8,
}

/// A finisher in specifications.
pub struct PlacementView {
    pub rank: nat,
    pub bib: Seq<char>,
    pub nanos: nat,
    pub first_name: Seq<char>,
    pub last_name: Seq<char>,
    pub age_group: Seq<char>,
    pub city: Seq<char>,
    pub state: Seq<char>,
    pub gender: Seq<char>,
    pub age: nat,
}

impl View for Placement {
    type V = PlacementView;

    open spec fn view(&self) -> PlacementView {
        PlacementView {
            rank: self.rank as nat,
            bib: self.bib@,
            nanos: self.time@,
            first_name: self.first_name@,
            last_name: self.last_name@,
            age_group: self.age_group@,
            city: self.city@,
            state: self.state@,
            gender: self.gender@,
            age: self.age as nat,
        }
    }
}

impl DeepView for Placement {
    type V = PlacementView;

    open spec fn deep_view(&self) -> PlacementView {
        self@
    }
}

/// What a field says: where it holds `&nbsp;`, the field with a space in
/// place of each and without the white space at its ends; else the field
/// as it stands.
pub open spec fn field_bytes(field: Seq<u8>) -> Seq<u8> {
    if find_from(field, "&nbsp;".spec_bytes(), 0).is_some() {
        trimmed(replaced(field, "&nbsp;".spec_bytes(), " ".spec_bytes()))
    } else {
        field
    }
}

/// The field at `at`, ended by a tab, and the offset after the tab.
pub open spec fn tab_at(text: Seq<u8>, at: int) -> Option<(Seq<u8>, int)> {
    match until_and_consume(text, "\t".spec_bytes(), at) {
        Some((end, next)) => Some((field_bytes(text.subrange(at, end)), next)),
        None => None,
    }
}

/// A positive number of at most `max` written by `field`.
pub open spec fn positive_of(field: Seq<u8>, max: nat) -> Option<nat> {
    match parse_unsigned(field, max) {
        Some(n) if n > 0 => Some(n),
        _ => None,
    }
}

/// A line at `at`: rank, bib, time, first name, last name, age group, city,
/// state and gender, each ended by a tab, and the age, ended by `<br>`.
/// The rank is a positive number of 16 bits, the age one of 8 bits, the
/// time a duration.
pub open spec fn placement_at(text: Seq<u8>, at: int) -> Option<(PlacementView, int)> {
    match tab_at(text, at) {
        Some((rank, a)) => match tab_at(text, a) {
            Some((bib, b)) => match tab_at(text, b) {
                Some((time, c)) => match tab_at(text, c) {
                    Some((first_name, d)) => match tab_at(text, d) {
                        Some((last_name, e)) => match tab_at(text, e) {
                            Some((age_group, f)) => match tab_at(text, f) {
                                Some((city, g)) => match tab_at(text, g) {
                                    Some((state, h)) => match tab_at(text, h) {
                                        Some((gender, i)) => match until_and_consume(
                                            text,
                                            "<br>".spec_bytes(),
                                            i,
                                        ) {
                                            Some((age_end, next)) => match (
                                                positive_of(rank, 0xffff),
                                                parse_duration(time),
                                                positive_of(text.subrange(i, age_end), 0xff),
                                            ) {
                                                (Some(rank), Some(nanos), Some(age)) => Some(
                                                    (
                                                        PlacementView {
                                                            rank,
                                                            bib: lossy_text(bib),
                                                            nanos,
                                                            first_name: lossy_text(first_name),
                                                            last_name: lossy_text(last_name),
                                                            age_group: lossy_text(age_group),
                                                            city: lossy_text(city),
                                                            state: lossy_text(state),
                                                            gender: lossy_text(gender),
                                                            age,
                                                        },
                                                        next,
                                                    ),
                                                ),
                                                _ => None,
                                            },
                                            None => None,
                                        },
                                        None => None,
                                    },
                                    None => None,
                                },
                                None => None,
                            },
                            None => None,
                        },
                        None => None,
                    },
                    None => None,
                },
                None => None,
            },
            None => None,
        },
        None => None,
    }
}

/// The lines that follow one another from `at` on.
pub open spec fn rows_from(text: Seq<u8>, at: int) -> Seq<PlacementView>
    decreases text.len() - at,
{
    match placement_at(text, at) {
        Some((row, next)) if at < next <= text.len() => seq![row] + rows_from(text, next),
        _ => Seq::empty(),
    }
}

/// The finishers of the listing `text`: the lines after the first
/// `Age<br>`, of which there must be one at least.
pub open spec fn placements_of(text: Seq<u8>) -> Option<Seq<PlacementView>> {
    match until_and_consume(text, "Age<br>".spec_bytes(), 0) {
        Some((_, first)) if rows_from(text, first).len() > 0 => Some(rows_from(text, first)),
        _ => None,
    }
}

/// The finishers of the listing `text` as records, in the order of the
/// listing: first and last name with a space between, the time, and the
/// category that the gender stands for.
pub open spec fn records_of(text: Seq<u8>) -> Option<Seq<RecordView>> {
    match placements_of(text) {
        Some(found) => Some(
            Seq::new(
                found.len(),
                |i: int|
                    RecordView {
                        name: full_name(found[i].first_name, found[i].last_name),
                        nanos: found[i].nanos,
                        category: category_of(found[i].gender),
                    },
            ),
        ),
        None => None,
    }
}

/// The finishers of the listing `text` as records, in the order of
/// finishers, each once.
pub open spec fn sorted_records_of(text: Seq<u8>) -> Option<Seq<RecordView>> {
    match records_of(text) {
        Some(found) => Some(sorted_of::<Record>(found)),
        None => None,
    }
}

/// Reads what a field says.
fn field_value(field: &[u8]) -> (value: Vec<u8>)
    ensures
        value@ == field_bytes(field@),
{
    if find(field, "&nbsp;".as_bytes(), 0).is_some() {
        let spaced = replace(field, "&nbsp;".as_bytes(), " ".as_bytes());
        let inner = trimmed_slice(spaced.as_slice());
        crate::scan::copy_range(inner, 0, inner.len())
    } else {
        crate::scan::copy_range(field, 0, field.len())
    }
}

/// Reads the field at `at`.
fn unparsed_tab(text: &[u8], at: usize) -> (r: Option<(Vec<u8>, usize)>)
    ensures
        match r {
            Some((value, next)) => tab_at(text@, at as int) == Some((value@, next as int)) && at
                < next <= text.len(),
            None => tab_at(text@, at as int).is_none(),
        },
{
    match take_until_and_consume(text, "\t".as_bytes(), at) {
        Some((end, next)) => {
            proof {
                reveal_strlit("\t");
                assert("\t"@.len() == 1);
                assert("\t".is_ascii()) by {
                    assert("\t"@[0] == '\t');
                }
                vstd::string::is_ascii_spec_bytes("\t");
            }
            Some((field_value(slice_of(text, at, end)), next))
        },
        None => None,
    }
}

/// Reads a positive number of at most `max`.
fn positive(field: &[u8], max: u64) -> (r: Option<u64>)
    ensures
        match r {
            Some(n) => positive_of(field@, max as nat) == Some(n as nat) && 0 < n <= max,
            None => positive_of(field@, max as nat).is_none(),
        },
{
    match unsigned(field, max) {
        Some(n) => if n > 0 {
            Some(n)
        } else {
            None
        },
        None => None,
    }
}

/// Reads a line.
fn placement(text: &[u8], at: usize) -> (r: Option<(Placement, usize)>)
    ensures
        match r {
            Some((row, next)) => placement_at(text@, at as int) == Some((row@, next as int))
                && at < next <= text.len(),
            None => placement_at(text@, at as int).is_none(),
        },
{
    let (rank, a) = match unparsed_tab(text, at) {
        Some(found) => found,
        None => {
            return None;
        },
    };
    let (bib, b) = match unparsed_tab(text, a) {
        Some(found) => found,
        None => {
            return None;
        },
    };
    let (time, c) = match unparsed_tab(text, b) {
        Some(found) => found,
        None => {
            return None;
        },
    };
    let (first_name, d) = match unparsed_tab(text, c) {
        Some(found) => found,
        None => {
            return None;
        },
    };
    let (last_name, e) = match unparsed_tab(text, d) {
        Some(found) => found,
        None => {
            return None;
        },
    };
    let (age_group, f) = match unparsed_tab(text, e) {
        Some(found) => found,
        None => {
            return None;
        },
    };
    let (city, g) = match unparsed_tab(text, f) {
        Some(found) => found,
        None => {
            return None;
        },
    };
    let (state, h) = match unparsed_tab(text, g) {
        Some(found) => found,
        None => {
            return None;
        },
    };
    let (gender, i) = match unparsed_tab(text, h) {
        Some(found) => found,
        None => {
            return None;
        },
    };
    let (age_end, next) = match take_until_and_consume(text, "<br>".as_bytes(), i) {
        Some(found) => found,
        None => {
            return None;
        },
    };
    match (
        positive(rank.as_slice(), 0xffff),
        Duration::parse(time.as_slice()),
        positive(slice_of(text, i, age_end), 0xff),
    ) {
        (Some(rank), Some(time), Some(age)) => Some(
            (
                Placement::new(
                    rank as u16,
                    decode_lossy(bib.as_slice()),
                    time,
                    decode_lossy(first_name.as_slice()),
                    decode_lossy(last_name.as_slice()),
                    decode_lossy(age_group.as_slice()),
                    decode_lossy(city.as_slice()),
                    decode_lossy(state.as_slice()),
                    decode_lossy(gender.as_slice()),
                    age as u8,
                ),
                next,
            ),
        ),
        _ => None,
    }
}

impl Placement {
    /// A finisher with the ten fields of a line.
    pub fn new(
        rank: u16,
        bib: String,
        time: Duration,
        first_name: String,
        last_name: String,
        age_group: String,
        city: String,
        state: String,
        gender: String,
        age: u8,
    ) -> (r: Placement)
        ensures
            r@ == (PlacementView {
                rank: rank as nat,
                bib: bib@,
                nanos: time@,
                first_name: first_name@,
                last_name: last_name@,
                age_group: age_group@,
                city: city@,
                state: state@,
                gender: gender@,
                age: age as nat,
            }),
    {
        Placement { rank, bib, time, first_name, last_name, age_group, city, state, gender, age }
    }

    /// The name: first and last name with a space between.
    pub fn name(&self) -> (name: String)
        ensures
            name@ == full_name(self.first_name@, self.last_name@),
    {
        name_of(self.first_name.as_str(), self.last_name.as_str())
    }

    /// Reads the finishers of a listing.
    pub fn results(contents: &str) -> (r: Option<Vec<Placement>>)
        ensures
            r.deep_view() == placements_of(contents.spec_bytes()),
    {
        let text = contents.as_bytes();
        let first = match take_until_and_consume(text, "Age<br>".as_bytes(), 0) {
            Some((_, first)) => first,
            None => {
                return None;
            },
        };
        let mut found: Vec<Placement> = Vec::new();
        let mut here = first;
        proof {
            assert(found.deep_view() =~= Seq::empty());
        }
        loop
            invariant
                first <= here <= text.len(),
                rows_from(text@, first as int) == found.deep_view() + rows_from(
                    text@,
                    here as int,
                ),
            ensures
                rows_from(text@, first as int) == found.deep_view(),
            decreases text.len() - here,
        {
            match placement(text, here) {
                Some((row, next)) => {
                    proof {
                        let rest = rows_from(text@, next as int);
                        assert(deep(found@.push(row)) =~= found.deep_view() + seq![row@]);
                        assert(found.deep_view() + (seq![row@] + rest) =~= deep(
                            found@.push(row),
                        ) + rest);
                    }
                    found.push(row);
                    proof {
                        assert(found.deep_view() =~= deep(found@));
                    }
                    here = next;
                },
                None => {
                    proof {
                        assert(found.deep_view() + Seq::<PlacementView>::empty()
                            =~= found.deep_view());
                    }
                    break ;
                },
            }
        }
        if found.len() > 0 {
            Some(found)
        } else {
            None
        }
    }

    /// The finishers of a listing as records, in the order of finishers,
    /// each once.
    pub fn names_and_times(input: &str) -> (r: Option<Vec<Record>>)
        ensures
            r.deep_view() == sorted_records_of(input.spec_bytes()),
            r matches Some(out) ==> is_sorted_of::<Record>(
                out.deep_view(),
                records_of(input.spec_bytes()).unwrap(),
            ),
    {
        let found = match Placement::results(input) {
            Some(found) => found,
            None => {
                return None;
            },
        };
        let mut out: Vec<Record> = Vec::new();
        let mut i: usize = 0;
        while i < found.len()
            invariant
                i <= found.len(),
                out.len() == i,
                forall|j: int|
                    0 <= j < i ==> (#[trigger] out[j])@ == (RecordView {
                        name: full_name(found[j].first_name@, found[j].last_name@),
                        nanos: found[j].time@,
                        category: category_of(found[j].gender@),
                    }),
            decreases found.len() - i,
        {
            let p = &found[i];
            out.push(
                Record { name: p.name(), duration: p.time, category: morf(p.gender.as_str()) },
            );
            i += 1;
        }
        proof {
            assert(out.deep_view() =~= records_of(input.spec_bytes()).unwrap());
        }
        Some(sort_and_dedup(out))
    }
}

} // verus!
