//! The table of results: for each person, by canonical name, the time in
//! each source, where the person is among the finishers of that source.
//!
//! A person enters the table with the first source that names them; from
//! then on only the slot of the source at hand changes.  A second time for
//! one person in one source replaces the first and is reported.

use crate::duration::Duration;
use crate::names::{canonical, canonical_name};
use crate::text::str_eq;
use crate::{deep, Record, RecordView};
use vstd::prelude::*;

verus! {

/// The times of one person, one slot per source.
#[derive(Debug)]
pub struct Entry {
    pub name: String,
    pub durations: Vec<Option<Duration>>,
}

/// The times of one person in specifications, in nanoseconds.
pub struct EntryView {
    pub name: Seq<char>,
    pub durations: Seq<Option<nat>>,
}

impl View for Entry {
    type V = EntryView;

    open spec fn view(&self) -> EntryView {
        EntryView {
            name: self.name@,
            durations: Seq::new(
                self.durations@.len(),
                |k: int|
                    match self.durations@[k] {
                        Some(d) => Some(d@),
                        None => None,
                    },
            ),
        }
    }
}

impl DeepView for Entry {
    type V = EntryView;

    open spec fn deep_view(&self) -> EntryView {
        self@
    }
}

/// A second time for one person in one source.
#[derive(Debug)]
pub struct Conflict {
    pub name: String,
    pub previous: Duration,
    pub new: Duration,
}

/// A second time for one person in one source, in specifications.
pub struct ConflictView {
    pub name: Seq<char>,
    pub previous: nat,
    pub new: nat,
}

impl View for Conflict {
    type V = ConflictView;

    open spec fn view(&self) -> ConflictView {
        ConflictView { name: self.name@, previous: self.previous@, new: self.new@ }
    }
}

impl DeepView for Conflict {
    type V = ConflictView;

    open spec fn deep_view(&self) -> ConflictView {
        self@
    }
}

/// The position in `entries` of the person `name`.
pub open spec fn position_of(entries: Seq<EntryView>, name: Seq<char>) -> Option<int>
    decreases entries.len(),
{
    if entries.len() == 0 {
        None
    } else if entries.last().name == name {
        Some(entries.len() - 1)
    } else {
        position_of(entries.drop_last(), name)
    }
}

/// No two of `entries` are for the same person.
pub open spec fn distinct_names(entries: Seq<EntryView>) -> bool {
    forall|i: int, j: int|
        0 <= i < j < entries.len() ==> (#[trigger] entries[i]).name != (#[trigger] entries[j]).name
}

/// Each of `entries` has `n` slots.
pub open spec fn all_of_width(entries: Seq<EntryView>, n: nat) -> bool {
    forall|i: int| 0 <= i < entries.len() ==> (#[trigger] entries[i]).durations.len() == n
}

/// The times of a person first seen in source `i` of `n`, with the time
/// `nanos`.
pub open spec fn fresh_row(n: nat, i: int, nanos: nat) -> Seq<Option<nat>> {
    Seq::new(
        n,
        |k: int|
            if k == i {
                Some(nanos)
            } else {
                None
            },
    )
}

/// The table after the finisher `name` of source `i` has been merged with
/// the time `nanos`: the slot `i` of the person with the canonical name of
/// `name` holds `nanos`; that person is added last where the table does not
/// have them yet; nothing else changes.
pub open spec fn merged_one(entries: Seq<EntryView>, n: nat, i: int, name: Seq<char>, nanos: nat) -> Seq<
    EntryView,
> {
    let person = canonical_name(name);
    match position_of(entries, person) {
        Some(k) => entries.update(
            k,
            EntryView { name: person, durations: entries[k].durations.update(i, Some(nanos)) },
        ),
        None => entries.push(EntryView { name: person, durations: fresh_row(n, i, nanos) }),
    }
}

/// The table after `records`, the finishers of source `i`, have been merged
/// in their order.
pub open spec fn merged(entries: Seq<EntryView>, n: nat, i: int, records: Seq<RecordView>) -> Seq<
    EntryView,
>
    decreases records.len(),
{
    if records.len() == 0 {
        entries
    } else {
        merged_one(
            merged(entries, n, i, records.drop_last()),
            n,
            i,
            records.last().name,
            records.last().nanos,
        )
    }
}

/// The second times that merging the finisher `name` of source `i` with
/// the time `nanos` reports: one, where the person's slot `i` holds a time
/// already.
pub open spec fn conflict_of(entries: Seq<EntryView>, i: int, name: Seq<char>, nanos: nat) -> Option<
    ConflictView,
> {
    let person = canonical_name(name);
    match position_of(entries, person) {
        Some(k) => match entries[k].durations[i] {
            Some(previous) => Some(ConflictView { name: person, previous, new: nanos }),
            None => None,
        },
        None => None,
    }
}

/// The second times that merging `records`, the finishers of source `i`,
/// reports, in the order of `records`.
pub open spec fn conflicts(entries: Seq<EntryView>, n: nat, i: int, records: Seq<RecordView>) -> Seq<
    ConflictView,
>
    decreases records.len(),
{
    if records.len() == 0 {
        Seq::empty()
    } else {
        let before = conflicts(entries, n, i, records.drop_last());
        match conflict_of(
            merged(entries, n, i, records.drop_last()),
            i,
            records.last().name,
            records.last().nanos,
        ) {
            Some(conflict) => before.push(conflict),
            None => before,
        }
    }
}

/// Where `position_of` finds a person, the person is there; where it finds
/// none, the person is nowhere in the table.
pub proof fn lemma_position_of(entries: Seq<EntryView>, name: Seq<char>)
    ensures
        match position_of(entries, name) {
            Some(k) => 0 <= k < entries.len() && entries[k].name == name,
            None => forall|j: int| 0 <= j < entries.len() ==> (#[trigger] entries[j]).name != name,
        },
    decreases entries.len(),
{
    if entries.len() > 0 && entries.last().name != name {
        lemma_position_of(entries.drop_last(), name);
        match position_of(entries.drop_last(), name) {
            Some(k) => {},
            None => {
                assert forall|j: int| 0 <= j < entries.len() implies (#[trigger] entries[j]).name
                    != name by {
                    if j < entries.len() - 1 {
                        assert(entries.drop_last()[j] == entries[j]);
                    }
                }
            },
        }
    }
}

/// Merging keeps the table well formed: the names stay distinct and every
/// row keeps its `n` slots.
pub proof fn lemma_merged_one_well_formed(
    entries: Seq<EntryView>,
    n: nat,
    i: int,
    name: Seq<char>,
    nanos: nat,
)
    requires
        distinct_names(entries),
        all_of_width(entries, n),
        0 <= i < n,
    ensures
        distinct_names(merged_one(entries, n, i, name, nanos)),
        all_of_width(merged_one(entries, n, i, name, nanos), n),
{
    lemma_position_of(entries, canonical_name(name));
}

/// Merging a finisher of source `i` keeps every person in place and
/// changes no slot but `i`.
pub proof fn lemma_merged_one_touches_its_source_only(
    entries: Seq<EntryView>,
    n: nat,
    i: int,
    name: Seq<char>,
    nanos: nat,
)
    requires
        all_of_width(entries, n),
        0 <= i < n,
    ensures
        entries.len() <= merged_one(entries, n, i, name, nanos).len(),
        forall|j: int|
            0 <= j < entries.len() ==> (#[trigger] merged_one(entries, n, i, name, nanos)[j]).name
                == entries[j].name,
        forall|j: int, k: int|
            0 <= j < entries.len() && 0 <= k < n && k != i ==> #[trigger] merged_one(
                entries,
                n,
                i,
                name,
                nanos,
            )[j].durations[k] == entries[j].durations[k],
{
    lemma_position_of(entries, canonical_name(name));
}

/// Merging the finishers of source `i` keeps every person in place and
/// changes no slot but `i`.
pub proof fn lemma_merged_touches_its_source_only(
    entries: Seq<EntryView>,
    n: nat,
    i: int,
    records: Seq<RecordView>,
)
    requires
        distinct_names(entries),
        all_of_width(entries, n),
        0 <= i < n,
    ensures
        distinct_names(merged(entries, n, i, records)),
        all_of_width(merged(entries, n, i, records), n),
        entries.len() <= merged(entries, n, i, records).len(),
        forall|j: int|
            0 <= j < entries.len() ==> (#[trigger] merged(entries, n, i, records)[j]).name
                == entries[j].name,
        forall|j: int, k: int|
            0 <= j < entries.len() && 0 <= k < n && k != i ==> #[trigger] merged(
                entries,
                n,
                i,
                records,
            )[j].durations[k] == entries[j].durations[k],
    decreases records.len(),
{
    if records.len() > 0 {
        let before = merged(entries, n, i, records.drop_last());
        lemma_merged_touches_its_source_only(entries, n, i, records.drop_last());
        lemma_merged_one_well_formed(before, n, i, records.last().name, records.last().nanos);
        lemma_merged_one_touches_its_source_only(
            before,
            n,
            i,
            records.last().name,
            records.last().nanos,
        );
        let after = merged(entries, n, i, records);
        assert forall|j: int| 0 <= j < entries.len() implies (#[trigger] after[j]).name
            == entries[j].name by {
            assert(after[j].name == before[j].name);
        }
        assert forall|j: int, k: int|
            0 <= j < entries.len() && 0 <= k < n && k != i implies #[trigger] after[j].durations[k]
            == entries[j].durations[k] by {
            assert(after[j].durations[k] == before[j].durations[k]);
        }
    }
}

/// The table of results.
pub struct ResultMatrix {
    sources: usize,
    entries: Vec<Entry>,
}

impl ResultMatrix {
    /// The table is well formed: no two rows are for the same person, and
    /// each row has a slot per source.
    pub closed spec fn wf(self) -> bool {
        &&& distinct_names(self.entries.deep_view())
        &&& all_of_width(self.entries.deep_view(), self.sources as nat)
    }

    /// The rows of the table, in the order in which the persons were first
    /// seen.
    pub closed spec fn rows(self) -> Seq<EntryView> {
        self.entries.deep_view()
    }

    /// The number of sources.
    pub closed spec fn width(self) -> nat {
        self.sources as nat
    }

    /// An empty table for `n` sources.
    pub fn new(n: usize) -> (table: ResultMatrix)
        ensures
            table.wf(),
            table.rows() == Seq::<EntryView>::empty(),
            table.width() == n,
    {
        let entries: Vec<Entry> = Vec::new();
        proof {
            assert(entries.deep_view() =~= Seq::empty());
        }
        ResultMatrix { sources: n, entries }
    }

    /// The number of sources.
    pub fn sources(&self) -> (n: usize)
        ensures
            n == self.width(),
    {
        self.sources
    }

    /// The rows of the table.
    pub fn entries(&self) -> (entries: &Vec<Entry>)
        ensures
            entries.deep_view() == self.rows(),
            self.wf() ==> distinct_names(self.rows()) && all_of_width(self.rows(), self.width()),
    {
        &self.entries
    }
}

impl ResultMatrix {
    /// The position of the person `name` in the table.
    fn find(&self, name: &str) -> (r: Option<usize>)
        ensures
            match r {
                Some(k) => position_of(self.rows(), name@) == Some(k as int) && k
                    < self.entries.len(),
                None => position_of(self.rows(), name@).is_none(),
            },
    {
        let mut k = self.entries.len();
        proof {
            assert(self.rows().subrange(0, k as int) =~= self.rows());
        }
        while k > 0
            invariant
                k <= self.entries.len(),
                position_of(self.rows(), name@) == position_of(
                    self.rows().subrange(0, k as int),
                    name@,
                ),
            decreases k,
        {
            proof {
                let prefix = self.rows().subrange(0, k as int);
                assert(prefix.last() == self.entries[k - 1]@);
                assert(prefix.drop_last() =~= self.rows().subrange(0, k - 1));
            }
            if str_eq(self.entries[k - 1].name.as_str(), name) {
                return Some(k - 1);
            }
            k -= 1;
        }
        None
    }

    /// Merges one finisher of source `i`.  Returns the time that the
    /// person had in this source already, if they had one.
    pub fn merge_one(&mut self, name: &str, duration: Duration, i: usize) -> (previous: Option<
        Conflict,
    >)
        requires
            old(self).wf(),
            i < old(self).width(),
        ensures
            final(self).wf(),
            final(self).width() == old(self).width(),
            final(self).rows() == merged_one(
                old(self).rows(),
                old(self).width(),
                i as int,
                name@,
                duration@,
            ),
            previous.deep_view() == conflict_of(old(self).rows(), i as int, name@, duration@),
    {
        proof {
            lemma_merged_one_well_formed(self.rows(), self.width(), i as int, name@, duration@);
        }
        let person = canonical(name);
        let ghost before = self.rows();
        match self.find(person.as_str()) {
            Some(k) => {
                let ghost old_entries = self.entries@;
                proof {
                    lemma_position_of(before, person@);
                    assert(before[k as int] == old_entries[k as int]@);
                }
                let mut entry = self.entries.remove(k);
                let previous = match entry.durations[i] {
                    Some(previous) => Some(
                        Conflict { name: person.clone(), previous, new: duration },
                    ),
                    None => None,
                };
                proof {
                    assert(before[k as int].durations.len() == self.sources);
                    assert(before[k as int] == entry@);
                }
                entry.durations.set(i, Some(duration));
                proof {
                    assert(entry@.durations =~= before[k as int].durations.update(
                        i as int,
                        Some(duration@),
                    ));
                    let after = deep(self.entries@.insert(k as int, entry));
                    let expected = before.update(
                        k as int,
                        EntryView {
                            name: person@,
                            durations: before[k as int].durations.update(
                                i as int,
                                Some(duration@),
                            ),
                        },
                    );
                    assert(after.len() == expected.len());
                    assert forall|j: int| 0 <= j < after.len() implies after[j] == expected[j] by {
                        if j < k {
                            assert(self.entries@.insert(k as int, entry)[j] == old_entries[j]);
                            assert(before[j] == old_entries[j]@);
                        } else if j > k {
                            assert(self.entries@.insert(k as int, entry)[j] == old_entries[j]);
                            assert(before[j] == old_entries[j]@);
                        }
                    }
                    assert(after =~= expected);
                }
                self.entries.insert(k, entry);
                proof {
                    assert(self.entries.deep_view() =~= deep(self.entries@));
                }
                previous
            },
            None => {
                let mut durations: Vec<Option<Duration>> = Vec::new();
                let mut k: usize = 0;
                while k < self.sources
                    invariant
                        k <= self.sources,
                        durations.len() == k,
                        i < self.sources,
                        forall|j: int|
                            0 <= j < k ==> #[trigger] durations[j] == if j == i {
                                Some(duration)
                            } else {
                                None::<Duration>
                            },
                    decreases self.sources - k,
                {
                    if k == i {
                        durations.push(Some(duration));
                    } else {
                        durations.push(None);
                    }
                    k += 1;
                }
                let entry = Entry { name: person, durations };
                proof {
                    assert(entry@.durations =~= fresh_row(
                        self.sources as nat,
                        i as int,
                        duration@,
                    ));
                    assert(deep(self.entries@.push(entry)) =~= before.push(entry@));
                }
                self.entries.push(entry);
                proof {
                    assert(self.entries.deep_view() =~= deep(self.entries@));
                }
                None
            },
        }
    }

    /// Merges the finishers of source `i` in their order.  Returns the
    /// second times that were replaced, in the order in which they were
    /// met.
    pub fn merge(&mut self, names_and_times: &Vec<Record>, i: usize) -> (replaced: Vec<Conflict>)
        requires
            old(self).wf(),
            i < old(self).width(),
        ensures
            final(self).wf(),
            final(self).width() == old(self).width(),
            final(self).rows() == merged(
                old(self).rows(),
                old(self).width(),
                i as int,
                names_and_times.deep_view(),
            ),
            replaced.deep_view() == conflicts(
                old(self).rows(),
                old(self).width(),
                i as int,
                names_and_times.deep_view(),
            ),
    {
        let ghost start = self.rows();
        let ghost n = self.width();
        let ghost all = names_and_times.deep_view();
        let mut replaced: Vec<Conflict> = Vec::new();
        let mut k: usize = 0;
        proof {
            assert(all.subrange(0, 0) =~= Seq::empty());
            assert(replaced.deep_view() =~= Seq::empty());
        }
        while k < names_and_times.len()
            invariant
                k <= names_and_times.len(),
                all == names_and_times.deep_view(),
                self.wf(),
                self.width() == n,
                i < n,
                self.rows() == merged(start, n, i as int, all.subrange(0, k as int)),
                replaced.deep_view() == conflicts(start, n, i as int, all.subrange(0, k as int)),
            decreases names_and_times.len() - k,
        {
            proof {
                let next = all.subrange(0, k + 1);
                assert(next.drop_last() =~= all.subrange(0, k as int));
                assert(next.last() == names_and_times[k as int]@);
            }
            let record = &names_and_times[k];
            match self.merge_one(record.name.as_str(), record.duration, i) {
                Some(conflict) => {
                    proof {
                        assert(deep(replaced@.push(conflict)) =~= replaced.deep_view().push(
                            conflict@,
                        ));
                    }
                    replaced.push(conflict);
                    proof {
                        assert(replaced.deep_view() =~= deep(replaced@));
                    }
                },
                None => {},
            }
            k += 1;
        }
        proof {
            assert(all.subrange(0, k as int) =~= all);
        }
        replaced
    }
}

} // verus!
