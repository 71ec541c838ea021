//! Tables whose columns are found by the text of their headers.

use crate::duration::{parse_duration, Duration};
use crate::html::{first_text, first_text_of, select_below, selected_below};
use crate::scan::{parse_unsigned, unsigned};
use crate::text::str_eq;
use vstd::prelude::*;
use vstd::utf8::encode_utf8;

verus! {

/// The first text of cell `idx` of `cells`; none where there is no such
/// cell or it holds no text.
pub open spec fn cell_text(cells: Seq<scraper::ElementRef<'static>>, idx: int) -> Option<
    Seq<char>,
> {
    if 0 <= idx < cells.len() {
        first_text_of(cells[idx])
    } else {
        None
    }
}

/// The first text of cell `idx` of `cells`.
pub fn get_str(cells: &Vec<scraper::ElementRef>, idx: usize) -> (text: Option<String>)
    ensures
        text.deep_view() == cell_text(cells@, idx as int),
{
    if idx < cells.len() {
        first_text(cells[idx])
    } else {
        None
    }
}

/// The first text of each of `elements`, or nothing for one without text.
pub open spec fn first_texts(elements: Seq<scraper::ElementRef<'static>>) -> Seq<
    Option<Seq<char>>,
> {
    Seq::new(elements.len(), |i: int| first_text_of(elements[i]))
}

/// The first text of each of `elements`.
pub fn get_first_texts(elements: &Vec<scraper::ElementRef>) -> (found: Vec<Option<String>>)
    ensures
        found.deep_view() == first_texts(elements@),
{
    let mut found: Vec<Option<String>> = Vec::new();
    let mut i: usize = 0;
    while i < elements.len()
        invariant
            i <= elements.len(),
            found.len() == i,
            forall|j: int| 0 <= j < i ==> (#[trigger] found[j]).deep_view() == first_text_of(elements[j]),
        decreases elements.len() - i,
    {
        found.push(first_text(elements[i]));
        i += 1;
    }
    proof {
        assert(found.deep_view() =~= first_texts(elements@));
    }
    found
}

/// The texts of the header cells of `table`, which `header` selects: the
/// first text of each, in the order of the columns.
pub fn fields_for_indexes(table: scraper::ElementRef, header: &scraper::Selector) -> (found: Vec<
    Option<String>,
>)
    ensures
        found.deep_view() == first_texts(selected_below(table, *header)),
{
    let cells = select_below(table, header);
    get_first_texts(&cells)
}

/// The column whose header is `label`: the last of them, where several
/// are.
pub open spec fn last_index_of(headers: Seq<Option<Seq<char>>>, label: Seq<char>) -> Option<int>
    decreases headers.len(),
{
    if headers.len() == 0 {
        None
    } else if headers.last() == Some(label) {
        Some(headers.len() - 1)
    } else {
        last_index_of(headers.drop_last(), label)
    }
}

/// The column whose header is `label`.
pub fn column_of(headers: &Vec<Option<String>>, label: &str) -> (r: Option<usize>)
    ensures
        match r {
            Some(i) => last_index_of(headers.deep_view(), label@) == Some(i as int) && i
                < headers.len(),
            None => last_index_of(headers.deep_view(), label@).is_none(),
        },
{
    let mut i = headers.len();
    proof {
        assert(headers.deep_view().subrange(0, i as int) =~= headers.deep_view());
    }
    while i > 0
        invariant
            i <= headers.len(),
            last_index_of(headers.deep_view(), label@) == last_index_of(
                headers.deep_view().subrange(0, i as int),
                label@,
            ),
        decreases i,
    {
        let ghost prefix = headers.deep_view().subrange(0, i as int);
        proof {
            assert(prefix.last() == headers[i - 1].deep_view());
            assert(prefix.drop_last() =~= headers.deep_view().subrange(0, i - 1));
        }
        let same = match &headers[i - 1] {
            Some(text) => str_eq(text.as_str(), label),
            None => false,
        };
        if same {
            return Some(i - 1);
        }
        i -= 1;
    }
    None
}

/// A number of at most `max` written by the text `text`, if `text` is there.
pub open spec fn number_in(text: Option<Seq<char>>, max: nat) -> Option<nat> {
    match text {
        Some(text) => parse_unsigned(encode_utf8(text), max),
        None => None,
    }
}

/// A positive number of at most `max` written by the text `text`, if `text`
/// is there.
pub open spec fn positive_in(text: Option<Seq<char>>, max: nat) -> Option<nat> {
    match number_in(text, max) {
        Some(n) if n > 0 => Some(n),
        _ => None,
    }
}

/// The duration, in nanoseconds, written by the text `text`, if `text` is
/// there.
pub open spec fn duration_in(text: Option<Seq<char>>) -> Option<nat> {
    match text {
        Some(text) => parse_duration(encode_utf8(text)),
        None => None,
    }
}

/// Reads `text` as a number of at most `max`, if it is there.
pub fn number_from(text: &Option<String>, max: u64) -> (r: Option<u64>)
    ensures
        match r {
            Some(n) => number_in(text.deep_view(), max as nat) == Some(n as nat) && n <= max,
            None => number_in(text.deep_view(), max as nat).is_none(),
        },
{
    match text {
        Some(text) => unsigned(text.as_str().as_bytes(), max),
        None => None,
    }
}

/// Reads `text` as a positive number of at most `max`, if it is there.
pub fn positive_from(text: &Option<String>, max: u64) -> (r: Option<u64>)
    ensures
        match r {
            Some(n) => positive_in(text.deep_view(), max as nat) == Some(n as nat) && 0 < n
                <= max,
            None => positive_in(text.deep_view(), max as nat).is_none(),
        },
{
    match number_from(text, max) {
        Some(n) => if n > 0 {
            Some(n)
        } else {
            None
        },
        None => None,
    }
}

/// Reads `text` as a duration, if it is there.
pub fn duration_from(text: &Option<String>) -> (r: Option<Duration>)
    ensures
        match r {
            Some(d) => duration_in(text.deep_view()) == Some(d@) && d.wf(),
            None => duration_in(text.deep_view()).is_none(),
        },
{
    match text {
        Some(text) => Duration::parse(text.as_str().as_bytes()),
        None => None,
    }
}

} // verus!
