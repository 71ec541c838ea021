//! Sex categories: from the labels that documents use, and, for documents
//! that give only a rank among a count of peers, from those counts.

use crate::scan::{find_byte, find_from, parse_unsigned, slice_of, unsigned};
use crate::text::{bytes_eq, str_eq};
use crate::MaleOrFemale;
use vstd::prelude::*;

verus! {

/// The category that a document's label stands for: `M` or `Male`, `F` or
/// `Female`, `X`.  Every other label, `U` and the empty one among them,
/// stands for no category.
pub open spec fn category_of(label: Seq<char>) -> Option<MaleOrFemale> {
    if label == "M"@ || label == "Male"@ {
        Some(MaleOrFemale::Male)
    } else if label == "F"@ || label == "Female"@ {
        Some(MaleOrFemale::Female)
    } else if label == "X"@ {
        Some(MaleOrFemale::NonBinary)
    } else {
        None
    }
}

/// The category that the one-letter code `code` stands for: `M`, `F` or
/// `X`.
pub open spec fn category_of_code(code: Seq<char>) -> Option<MaleOrFemale> {
    if code == "M"@ {
        Some(MaleOrFemale::Male)
    } else if code == "F"@ {
        Some(MaleOrFemale::Female)
    } else if code == "X"@ {
        Some(MaleOrFemale::NonBinary)
    } else {
        None
    }
}

/// The category that a document's label stands for.
pub fn morf(gender: &str) -> (category: Option<MaleOrFemale>)
    ensures
        category == category_of(gender@),
{
    if str_eq(gender, "M") || str_eq(gender, "Male") {
        Some(MaleOrFemale::Male)
    } else if str_eq(gender, "F") || str_eq(gender, "Female") {
        Some(MaleOrFemale::Female)
    } else if str_eq(gender, "X") {
        Some(MaleOrFemale::NonBinary)
    } else {
        None
    }
}

impl MaleOrFemale {
    /// The category that a one-letter code stands for.
    pub fn from_code(code: &str) -> (category: Option<MaleOrFemale>)
        ensures
            category == category_of_code(code@),
    {
        if str_eq(code, "M") {
            Some(MaleOrFemale::Male)
        } else if str_eq(code, "F") {
            Some(MaleOrFemale::Female)
        } else if str_eq(code, "X") {
            Some(MaleOrFemale::NonBinary)
        } else {
            None
        }
    }

    /// The one-letter code of the category.
    pub fn code(self) -> (code: &'static str)
        ensures
            category_of_code(code@) == Some(self),
    {
        proof {
            reveal_strlit("M");
            reveal_strlit("F");
            reveal_strlit("X");
            assert("M"@[0] == 'M' && "F"@[0] == 'F' && "X"@[0] == 'X');
        }
        match self {
            MaleOrFemale::Male => "M",
            MaleOrFemale::Female => "F",
            MaleOrFemale::NonBinary => "X",
        }
    }
}

/// The count in a rank written as `rank/count`: the text after the first
/// slash, up to the next slash if there is one.
pub open spec fn count_of_rank(rank: Seq<u8>) -> Option<Seq<u8>> {
    match find_from(rank, seq![0x2fu8], 0) {
        Some(slash) => match find_from(rank, seq![0x2fu8], slash + 1) {
            Some(next) => Some(rank.subrange(slash + 1, next)),
            None => Some(rank.subrange(slash + 1, rank.len() as int)),
        },
        None => None,
    }
}

/// The count in a rank written as `rank/count`.
pub fn gender_count(rank: &[u8]) -> (count: Option<&[u8]>)
    ensures
        match count {
            Some(count) => count_of_rank(rank@) == Some(count@),
            None => count_of_rank(rank@).is_none(),
        },
{
    match find_byte(rank, 0x2f, 0) {
        Some(slash) => match find_byte(rank, 0x2f, slash + 1) {
            Some(next) => Some(slice_of(rank, slash + 1, next)),
            None => Some(slice_of(rank, slash + 1, rank.len())),
        },
        None => None,
    }
}

/// The first of `counts` that is present, at or after `from`.
pub open spec fn first_count(counts: Seq<Option<Seq<u8>>>, from: int) -> Option<Seq<u8>>
    decreases counts.len() - from,
{
    if from < 0 || from >= counts.len() {
        None
    } else if counts[from].is_some() {
        counts[from]
    } else {
        first_count(counts, from + 1)
    }
}

/// The first of `counts`, at or after `from`, that is present and is not
/// `other`.
pub open spec fn first_other_count(counts: Seq<Option<Seq<u8>>>, other: Seq<u8>, from: int) -> Option<
    Seq<u8>,
>
    decreases counts.len() - from,
{
    if from < 0 || from >= counts.len() {
        None
    } else if counts[from].is_some() && counts[from].unwrap() != other {
        counts[from]
    } else {
        first_other_count(counts, other, from + 1)
    }
}

/// A count as a number: a positive number of 16 bits.
pub open spec fn count_value(count: Seq<u8>) -> Option<nat> {
    match parse_unsigned(count, 0xffff) {
        Some(n) if n > 0 => Some(n),
        _ => None,
    }
}

/// The counts that stand for the men and for the women of a document: the
/// first two different counts in it, the larger for the men; the first, if
/// they write the same number.  None where the document has fewer than two
/// different counts, or where one of the two is no positive number.
pub open spec fn male_and_female(counts: Seq<Option<Seq<u8>>>) -> Option<(Seq<u8>, Seq<u8>)> {
    match first_count(counts, 0) {
        Some(first) => match first_other_count(counts, first, 0) {
            Some(second) => match (count_value(first), count_value(second)) {
                (Some(a), Some(b)) => if a >= b {
                    Some((first, second))
                } else {
                    Some((second, first))
                },
                _ => None,
            },
            None => None,
        },
        None => None,
    }
}

/// The category of a finisher ranked among `count` peers, in a document
/// whose counts are `counts`: male or female where the count is that of the
/// men or of the women, non-binary where it is any other.  No category where
/// the finisher has no count or the document does not tell the two apart.
pub open spec fn inferred_category(counts: Seq<Option<Seq<u8>>>, count: Option<Seq<u8>>) -> Option<
    MaleOrFemale,
> {
    match (male_and_female(counts), count) {
        (Some((male, female)), Some(count)) => if count == male {
            Some(MaleOrFemale::Male)
        } else if count == female {
            Some(MaleOrFemale::Female)
        } else {
            Some(MaleOrFemale::NonBinary)
        },
        _ => None,
    }
}

/// The counts of `counts` as specifications see them.
pub open spec fn count_views(counts: Seq<Option<Vec<u8>>>) -> Seq<Option<Seq<u8>>> {
    Seq::new(
        counts.len(),
        |i: int|
            match counts[i] {
                Some(count) => Some(count@),
                None => None,
            },
    )
}

/// Reads a count as a number.
fn count_number(count: &[u8]) -> (r: Option<u16>)
    ensures
        match r {
            Some(n) => count_value(count@) == Some(n as nat),
            None => count_value(count@).is_none(),
        },
{
    match unsigned(count, 0xffff) {
        Some(n) => if n > 0 {
            Some(n as u16)
        } else {
            None
        },
        None => None,
    }
}

/// The positions in `counts` of the counts that stand for the men and for
/// the women.
pub fn male_and_female_counts(counts: &Vec<Option<Vec<u8>>>) -> (r: Option<(usize, usize)>)
    ensures
        match r {
            Some((male, female)) => {
                &&& male < counts.len() && female < counts.len()
                &&& counts[male as int].is_some() && counts[female as int].is_some()
                &&& male_and_female(count_views(counts@)) == Some(
                    (counts[male as int].unwrap()@, counts[female as int].unwrap()@),
                )
            },
            None => male_and_female(count_views(counts@)).is_none(),
        },
{
    let ghost views = count_views(counts@);
    let mut i: usize = 0;
    while i < counts.len() && counts[i].is_none()
        invariant
            i <= counts.len(),
            views == count_views(counts@),
            first_count(views, 0) == first_count(views, i as int),
        decreases counts.len() - i,
    {
        i += 1;
    }
    if i >= counts.len() {
        return None;
    }
    let first = i;
    let mut j: usize = 0;
    while j < counts.len() && !is_other(&counts[j], &counts[first])
        invariant
            j <= counts.len(),
            first < counts.len(),
            counts[first as int].is_some(),
            views == count_views(counts@),
            first_other_count(views, counts[first as int].unwrap()@, 0) == first_other_count(
                views,
                counts[first as int].unwrap()@,
                j as int,
            ),
        decreases counts.len() - j,
    {
        j += 1;
    }
    if j >= counts.len() {
        return None;
    }
    let second = j;
    let a = match &counts[first] {
        Some(count) => count_number(count.as_slice()),
        None => None,
    };
    let b = match &counts[second] {
        Some(count) => count_number(count.as_slice()),
        None => None,
    };
    match (a, b) {
        (Some(a), Some(b)) => if a >= b {
            Some((first, second))
        } else {
            Some((second, first))
        },
        _ => None,
    }
}

/// Whether `count` is present and is not the count `other`.
fn is_other(count: &Option<Vec<u8>>, other: &Option<Vec<u8>>) -> (r: bool)
    requires
        other.is_some(),
    ensures
        r == (count.is_some() && count.unwrap()@ != other.unwrap()@),
{
    match (count, other) {
        (Some(count), Some(other)) => !bytes_eq(count.as_slice(), other.as_slice()),
        _ => false,
    }
}

/// The categories of the finishers of a document that gives each a rank
/// among a count of peers, from those counts, in the order of `counts`.
pub fn infer_categories(counts: &Vec<Option<Vec<u8>>>) -> (categories: Vec<Option<MaleOrFemale>>)
    ensures
        categories.len() == counts.len(),
        forall|i: int|
            0 <= i < counts.len() ==> #[trigger] categories[i] == inferred_category(
                count_views(counts@),
                count_views(counts@)[i],
            ),
{
    let found = male_and_female_counts(counts);
    let mut categories: Vec<Option<MaleOrFemale>> = Vec::new();
    let mut i: usize = 0;
    while i < counts.len()
        invariant
            i <= counts.len(),
            categories.len() == i,
            match found {
                Some((male, female)) => {
                    &&& male < counts.len() && female < counts.len()
                    &&& counts[male as int].is_some() && counts[female as int].is_some()
                    &&& male_and_female(count_views(counts@)) == Some(
                        (counts[male as int].unwrap()@, counts[female as int].unwrap()@),
                    )
                },
                None => male_and_female(count_views(counts@)).is_none(),
            },
            forall|k: int|
                0 <= k < i ==> #[trigger] categories[k] == inferred_category(
                    count_views(counts@),
                    count_views(counts@)[k],
                ),
        decreases counts.len() - i,
    {
        let category = match (found, &counts[i]) {
            (Some((male, female)), Some(count)) => {
                let is_male = match &counts[male] {
                    Some(m) => bytes_eq(count.as_slice(), m.as_slice()),
                    None => false,
                };
                let is_female = match &counts[female] {
                    Some(f) => bytes_eq(count.as_slice(), f.as_slice()),
                    None => false,
                };
                if is_male {
                    Some(MaleOrFemale::Male)
                } else if is_female {
                    Some(MaleOrFemale::Female)
                } else {
                    Some(MaleOrFemale::NonBinary)
                }
            },
            _ => None,
        };
        categories.push(category);
        i += 1;
    }
    categories
}

} // verus!
