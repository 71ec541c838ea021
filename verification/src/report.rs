//! The leaderboard by total time: the persons who finished every source,
//! each with the sum of their times, the fastest first; and the run that
//! leads to it from the bytes of the sources.

use crate::dispatch::{read_source, records_of_source};
use crate::duration::{clock_text, lemma_clock_text_ascii, max_nanos, Duration};
use crate::merge::{
    all_of_width, conflicts, distinct_names, lemma_merged_touches_its_source_only, merged,
    Conflict, ConflictView, Entry, EntryView, ResultMatrix,
};
use crate::order::{
    is_sorted_of, lemma_bytes_irreflexive, lemma_bytes_total, lemma_bytes_transitive,
    sorted_distinct, sorted_of, text_before, text_less, total_among, Ordered,
};
use crate::scan::push_all;
use crate::text::{decode_lossy, is_ascii_bytes, lemma_ascii_text, lemma_same_bytes_same_text};
use crate::{deep, RecordView};
use vstd::prelude::*;
use vstd::utf8::{
    decode_utf8_encode_utf8, encode_utf8, encode_utf8_valid_utf8, valid_utf8, valid_utf8_concat,
};

verus! {

/// A row of the leaderboard: a person, their time in each source, and the
/// sum of these.
#[derive(Debug)]
pub struct TotalRow {
    pub total: Duration,
    pub name: String,
    pub times: Vec<Duration>,
}

/// A row of the leaderboard in specifications, the times in nanoseconds.
pub struct TotalRowView {
    pub total: nat,
    pub name: Seq<char>,
    pub times: Seq<nat>,
}

impl View for TotalRow {
    type V = TotalRowView;

    open spec fn view(&self) -> TotalRowView {
        TotalRowView { total: self.total@, name: self.name@, times: nanos_of(self.times@) }
    }
}

impl DeepView for TotalRow {
    type V = TotalRowView;

    open spec fn deep_view(&self) -> TotalRowView {
        self@
    }
}

/// The durations of `times` in nanoseconds.
pub open spec fn nanos_of(times: Seq<Duration>) -> Seq<nat> {
    Seq::new(times.len(), |k: int| times[k]@)
}

/// The person has a time in every source.
pub open spec fn is_complete(entry: EntryView) -> bool {
    forall|k: int| 0 <= k < entry.durations.len() ==> (#[trigger] entry.durations[k]).is_some()
}

/// The times of a person who has one in every source.
pub open spec fn present_times(entry: EntryView) -> Seq<nat> {
    Seq::new(entry.durations.len(), |k: int| entry.durations[k].unwrap())
}

/// The sum of `times`.
pub open spec fn sum_of(times: Seq<nat>) -> nat
    decreases times.len(),
{
    if times.len() == 0 {
        0
    } else {
        sum_of(times.drop_last()) + times.last()
    }
}

/// `nanos`, or the longest duration where `nanos` is longer than that.
pub open spec fn capped(nanos: nat) -> nat {
    if nanos <= max_nanos() {
        nanos
    } else {
        max_nanos()
    }
}

/// The row of a person who has a time in every source: the total is the
/// sum of the times, or the longest duration where the sum is longer.
pub open spec fn total_row(entry: EntryView) -> TotalRowView {
    TotalRowView {
        total: capped(sum_of(present_times(entry))),
        name: entry.name,
        times: present_times(entry),
    }
}

/// The rows of the persons of `entries` who have a time in every source,
/// in the order of `entries`.
pub open spec fn complete_rows(entries: Seq<EntryView>) -> Seq<TotalRowView>
    decreases entries.len(),
{
    if entries.len() == 0 {
        Seq::empty()
    } else if is_complete(entries.last()) {
        complete_rows(entries.drop_last()).push(total_row(entries.last()))
    } else {
        complete_rows(entries.drop_last())
    }
}

/// The order of the leaderboard: by total, the shorter first; under one
/// total by name.
pub open spec fn row_before(a: TotalRowView, b: TotalRowView) -> bool {
    if a.total != b.total {
        a.total < b.total
    } else {
        text_before(a.name, b.name)
    }
}

impl Ordered for TotalRow {
    open spec fn before(a: TotalRowView, b: TotalRowView) -> bool {
        row_before(a, b)
    }

    fn is_before(&self, other: &TotalRow) -> (r: bool) {
        if !self.total.is_same(&other.total) {
            self.total.is_less(&other.total)
        } else {
            text_less(self.name.as_str(), other.name.as_str())
        }
    }

    proof fn lemma_irreflexive(a: TotalRowView) {
        lemma_bytes_irreflexive(encode_utf8(a.name));
    }

    proof fn lemma_transitive(a: TotalRowView, b: TotalRowView, c: TotalRowView) {
        if a.total == b.total && b.total == c.total {
            lemma_bytes_transitive(encode_utf8(a.name), encode_utf8(b.name), encode_utf8(c.name));
        }
    }
}

/// Of two rows for different persons one comes before the other.
pub proof fn lemma_row_total(a: TotalRowView, b: TotalRowView)
    requires
        a.name != b.name,
    ensures
        row_before(a, b) || row_before(b, a),
{
    lemma_bytes_total(encode_utf8(a.name), encode_utf8(b.name));
    if encode_utf8(a.name) == encode_utf8(b.name) {
        lemma_same_bytes_same_text(a.name, b.name);
    }
}

/// The complete rows of a table are for persons of the table, in the
/// order of the table: row `i` is for a person at a position that grows
/// with `i`.
pub proof fn lemma_complete_rows_positions(entries: Seq<EntryView>) -> (at: Seq<int>)
    ensures
        at.len() == complete_rows(entries).len(),
        forall|i: int|
            0 <= i < at.len() ==> 0 <= #[trigger] at[i] < entries.len() && complete_rows(
                entries,
            )[i] == total_row(entries[at[i]]),
        forall|i: int, j: int| 0 <= i < j < at.len() ==> #[trigger] at[i] < #[trigger] at[j],
    decreases entries.len(),
{
    if entries.len() == 0 {
        Seq::empty()
    } else {
        let before = lemma_complete_rows_positions(entries.drop_last());
        assert forall|i: int| 0 <= i < before.len() implies entries.drop_last()[before[i]]
            == entries[before[i]] by {}
        if is_complete(entries.last()) {
            before.push(entries.len() - 1)
        } else {
            before
        }
    }
}

/// Among the complete rows of a table without two rows for one person, of
/// any two different rows one comes before the other.
pub proof fn lemma_complete_rows_total(entries: Seq<EntryView>)
    requires
        distinct_names(entries),
    ensures
        total_among::<TotalRow>(complete_rows(entries)),
{
    let rows = complete_rows(entries);
    let at = lemma_complete_rows_positions(entries);
    assert forall|i: int, j: int| 0 <= i < rows.len() && 0 <= j < rows.len() implies row_before(
        #[trigger] rows[i],
        #[trigger] rows[j],
    ) || row_before(rows[j], rows[i]) || rows[i] == rows[j] by {
        if i != j {
            if i < j {
                assert(at[i] < at[j]);
            } else {
                assert(at[j] < at[i]);
            }
            assert(entries[at[i]].name != entries[at[j]].name);
            lemma_row_total(rows[i], rows[j]);
        }
    }
}

/// The leaderboard of the table with the rows `entries`.
pub open spec fn leaderboard_of(entries: Seq<EntryView>) -> Seq<TotalRowView> {
    sorted_of::<TotalRow>(complete_rows(entries))
}

/// The leaderboard `rows` lists the person `name`.
pub open spec fn lists(rows: Seq<TotalRowView>, name: Seq<char>) -> bool {
    exists|i: int| 0 <= i < rows.len() && (#[trigger] rows[i]).name == name
}

/// The table with the rows `entries` has the person `name`, with a time in
/// every source.
pub open spec fn finished_all(entries: Seq<EntryView>, name: Seq<char>) -> bool {
    exists|k: int|
        0 <= k < entries.len() && (#[trigger] entries[k]).name == name && is_complete(entries[k])
}

/// A row is among the complete rows of a table just when it is the row of
/// a person of the table who has a time in every source.
pub proof fn lemma_complete_rows(entries: Seq<EntryView>, row: TotalRowView)
    ensures
        complete_rows(entries).contains(row) <==> exists|k: int|
            0 <= k < entries.len() && is_complete(#[trigger] entries[k]) && row == total_row(
                entries[k],
            ),
    decreases entries.len(),
{
    if entries.len() > 0 {
        let before = entries.drop_last();
        lemma_complete_rows(before, row);
        let rows = complete_rows(entries);
        if rows.contains(row) {
            let i = choose|i: int| 0 <= i < rows.len() && rows[i] == row;
            if is_complete(entries.last()) && i == rows.len() - 1 {
                assert(is_complete(entries[entries.len() - 1]));
            } else {
                assert(complete_rows(before)[i] == row);
                assert(complete_rows(before).contains(row));
                let k = choose|k: int|
                    0 <= k < before.len() && is_complete(#[trigger] before[k]) && row
                        == total_row(before[k]);
                assert(entries[k] == before[k]);
            }
        }
        if exists|k: int|
            0 <= k < entries.len() && is_complete(#[trigger] entries[k]) && row == total_row(
                entries[k],
            ) {
            let k = choose|k: int|
                0 <= k < entries.len() && is_complete(#[trigger] entries[k]) && row == total_row(
                    entries[k],
                );
            if k == entries.len() - 1 {
                assert(rows[rows.len() - 1] == row);
            } else {
                assert(before[k] == entries[k]);
                assert(complete_rows(before).contains(row));
                let i = choose|i: int|
                    0 <= i < complete_rows(before).len() && complete_rows(before)[i] == row;
                assert(rows[i] == row);
            }
        }
    }
}

/// A leaderboard lists a person just when the person has a time in every
/// source of the table.
pub proof fn lemma_listed_iff_finished_all(
    entries: Seq<EntryView>,
    rows: Seq<TotalRowView>,
    name: Seq<char>,
)
    requires
        is_sorted_of::<TotalRow>(rows, complete_rows(entries)),
    ensures
        lists(rows, name) <==> finished_all(entries, name),
{
    if lists(rows, name) {
        let i = choose|i: int| 0 <= i < rows.len() && (#[trigger] rows[i]).name == name;
        assert(rows.contains(rows[i]));
        lemma_complete_rows(entries, rows[i]);
        let k = choose|k: int|
            0 <= k < entries.len() && is_complete(#[trigger] entries[k]) && rows[i] == total_row(
                entries[k],
            );
        assert(entries[k].name == name && is_complete(entries[k]));
    }
    if finished_all(entries, name) {
        let k = choose|k: int|
            0 <= k < entries.len() && (#[trigger] entries[k]).name == name && is_complete(
                entries[k],
            );
        let row = total_row(entries[k]);
        lemma_complete_rows(entries, row);
        assert(is_complete(entries[k]) && row == total_row(entries[k]));
        assert(complete_rows(entries).contains(row));
        assert(rows.contains(row));
        let i = choose|i: int| 0 <= i < rows.len() && rows[i] == row;
        assert(rows[i].name == name);
    }
}

/// The row of the person of `entry`, if the person has a time in every
/// source.
fn row_for(entry: &Entry) -> (r: Option<TotalRow>)
    ensures
        match r {
            Some(row) => is_complete(entry@) && row@ == total_row(entry@),
            None => !is_complete(entry@),
        },
{
    let mut times: Vec<Duration> = Vec::new();
    let mut total = Duration::zero();
    let mut k: usize = 0;
    proof {
        assert(nanos_of(times@) =~= present_times(entry@).subrange(0, 0));
    }
    while k < entry.durations.len()
        invariant
            k <= entry.durations.len(),
            times.len() == k,
            forall|j: int| 0 <= j < k ==> (#[trigger] entry@.durations[j]).is_some(),
            nanos_of(times@) == present_times(entry@).subrange(0, k as int),
            total@ == capped(sum_of(nanos_of(times@))),
        decreases entry.durations.len() - k,
    {
        match entry.durations[k] {
            Some(time) => {
                proof {
                    let next = nanos_of(times@.push(time));
                    assert(entry@.durations[k as int] == Some(time@));
                    assert(next =~= present_times(entry@).subrange(0, k + 1));
                    assert(next.drop_last() =~= nanos_of(times@));
                    assert(next.last() == time@);
                }
                total = total.saturating_add(&time);
                times.push(time);
            },
            None => {
                proof {
                    assert(entry@.durations[k as int].is_none());
                }
                return None;
            },
        }
        k += 1;
    }
    proof {
        assert(present_times(entry@).subrange(0, k as int) =~= present_times(entry@));
    }
    Some(TotalRow { total, name: entry.name.clone(), times })
}

/// The leaderboard of `table`: a row for each person who has a time in
/// every source, ordered by total time, then by name.
pub fn leaderboard(table: &ResultMatrix) -> (rows: Vec<TotalRow>)
    requires
        table.wf(),
    ensures
        rows.deep_view() == leaderboard_of(table.rows()),
        is_sorted_of::<TotalRow>(rows.deep_view(), complete_rows(table.rows())),
        forall|name: Seq<char>|
            lists(rows.deep_view(), name) <==> finished_all(table.rows(), name),
{
    let entries = table.entries();
    let mut complete: Vec<TotalRow> = Vec::new();
    let mut k: usize = 0;
    proof {
        assert(entries.deep_view().subrange(0, 0) =~= Seq::empty());
        assert(complete.deep_view() =~= Seq::empty());
    }
    while k < entries.len()
        invariant
            k <= entries.len(),
            complete.deep_view() == complete_rows(entries.deep_view().subrange(0, k as int)),
        decreases entries.len() - k,
    {
        proof {
            let next = entries.deep_view().subrange(0, k + 1);
            assert(next.drop_last() =~= entries.deep_view().subrange(0, k as int));
            assert(next.last() == entries[k as int]@);
        }
        match row_for(&entries[k]) {
            Some(row) => {
                proof {
                    assert(deep(complete@.push(row)) =~= complete.deep_view().push(row@));
                }
                complete.push(row);
                proof {
                    assert(complete.deep_view() =~= deep(complete@));
                }
            },
            None => {},
        }
        k += 1;
    }
    proof {
        assert(entries.deep_view().subrange(0, k as int) =~= entries.deep_view());
    }
    proof {
        lemma_complete_rows_total(table.rows());
    }
    let rows = sorted_distinct(complete);
    proof {
        assert forall|name: Seq<char>|
            lists(rows.deep_view(), name) <==> finished_all(table.rows(), name) by {
            lemma_listed_iff_finished_all(table.rows(), rows.deep_view(), name);
        }
    }
    rows
}

/// The greater of `a` and `b`.
pub open spec fn larger(a: nat, b: nat) -> nat {
    if a >= b {
        a
    } else {
        b
    }
}

/// The width of the column of totals: the length of the longest total of
/// `rows` as clock text.
pub open spec fn total_width(rows: Seq<TotalRowView>) -> nat
    decreases rows.len(),
{
    if rows.len() == 0 {
        0
    } else {
        larger(total_width(rows.drop_last()), clock_text(rows.last().total).len())
    }
}

/// The width of the column of names: the length of the longest name of
/// `rows` in bytes.
pub open spec fn name_width(rows: Seq<TotalRowView>) -> nat
    decreases rows.len(),
{
    if rows.len() == 0 {
        0
    } else {
        larger(name_width(rows.drop_last()), encode_utf8(rows.last().name).len())
    }
}

/// The width of the column of source `j`: the length of the longest time
/// of `rows` in that source as clock text.
pub open spec fn time_width(rows: Seq<TotalRowView>, j: int) -> nat
    decreases rows.len(),
{
    if rows.len() == 0 {
        0
    } else if 0 <= j < rows.last().times.len() {
        larger(time_width(rows.drop_last(), j), clock_text(rows.last().times[j]).len())
    } else {
        time_width(rows.drop_last(), j)
    }
}

/// The widths of the columns of a leaderboard: of the totals, of the names,
/// and of the times of each source, of which there are as many as the
/// first row has times.
pub fn widths(results: &Vec<TotalRow>) -> (r: (usize, usize, Vec<usize>))
    ensures
        r.0 == total_width(results.deep_view()),
        r.1 == name_width(results.deep_view()),
        r.2.len() == if results.len() > 0 {
            results[0].times.len()
        } else {
            0
        },
        forall|j: int| 0 <= j < r.2.len() ==> #[trigger] r.2[j] == time_width(results.deep_view(), j),
{
    let n_elements = if results.len() > 0 {
        results[0].times.len()
    } else {
        0
    };
    let mut times_widths: Vec<usize> = Vec::new();
    let mut j: usize = 0;
    while j < n_elements
        invariant
            j <= n_elements,
            times_widths.len() == j,
            forall|i: int| 0 <= i < j ==> #[trigger] times_widths[i] == 0,
        decreases n_elements - j,
    {
        times_widths.push(0);
        j += 1;
    }
    let mut total: usize = 0;
    let mut name: usize = 0;
    let mut k: usize = 0;
    proof {
        assert(results.deep_view().subrange(0, 0) =~= Seq::empty());
    }
    while k < results.len()
        invariant
            k <= results.len(),
            times_widths.len() == n_elements,
            total == total_width(results.deep_view().subrange(0, k as int)),
            name == name_width(results.deep_view().subrange(0, k as int)),
            forall|i: int|
                0 <= i < n_elements ==> #[trigger] times_widths[i] == time_width(
                    results.deep_view().subrange(0, k as int),
                    i,
                ),
        decreases results.len() - k,
    {
        let row = &results[k];
        let ghost before = results.deep_view().subrange(0, k as int);
        let ghost after = results.deep_view().subrange(0, k + 1);
        proof {
            assert(after.drop_last() =~= before);
            assert(after.last() == row@);
        }
        let text = row.total.to_clock_text();
        if text.len() > total {
            total = text.len();
        }
        let name_len = row.name.as_str().as_bytes().len();
        if name_len > name {
            name = name_len;
        }
        let mut i: usize = 0;
        while i < n_elements
            invariant
                i <= n_elements,
                times_widths.len() == n_elements,
                after.drop_last() == before,
                after.last() == row@,
                after.len() > 0,
                forall|c: int|
                    0 <= c < i ==> #[trigger] times_widths[c] == time_width(after, c),
                forall|c: int|
                    i <= c < n_elements ==> #[trigger] times_widths[c] == time_width(before, c),
            decreases n_elements - i,
        {
            if i < row.times.len() {
                proof {
                    assert(row@.times[i as int] == row.times[i as int]@);
                }
                let text = row.times[i].to_clock_text();
                if text.len() > times_widths[i] {
                    times_widths.set(i, text.len());
                }
            }
            i += 1;
        }
        k += 1;
    }
    proof {
        assert(results.deep_view().subrange(0, k as int) =~= results.deep_view());
    }
    (total, name, times_widths)
}

/// `text` set flush right in a column `width` wide: spaces before it make
/// up the width; a text wider than the column stays as it is.
pub open spec fn padded(text: Seq<u8>, width: nat) -> Seq<u8> {
    if text.len() >= width {
        text
    } else {
        Seq::new((width - text.len()) as nat, |i: int| 0x20u8) + text
    }
}

/// The first `k` times of a row, each after a space and flush right in the
/// column of its source.
pub open spec fn times_text(times: Seq<nat>, widths: Seq<nat>, k: int) -> Seq<u8>
    decreases k,
{
    if k <= 0 || k > times.len() || k > widths.len() {
        Seq::empty()
    } else {
        times_text(times, widths, k - 1) + seq![0x20u8] + padded(
            clock_text(times[k - 1]),
            widths[k - 1],
        )
    }
}

/// The number of sources for which a row has a time and the leaderboard a
/// column.
pub open spec fn shown_times(times: Seq<nat>, widths: Seq<nat>) -> int {
    if times.len() <= widths.len() {
        times.len() as int
    } else {
        widths.len() as int
    }
}

/// A row of the leaderboard as a line: the name, the total and the time in
/// each source, each flush right in its column, a space between columns.
pub open spec fn line_of(row: TotalRowView, total: nat, name: nat, times: Seq<nat>) -> Seq<u8> {
    padded(encode_utf8(row.name), name) + seq![0x20u8] + padded(clock_text(row.total), total)
        + times_text(row.times, times, shown_times(row.times, times))
}

/// The widths of `widths` as specifications see them.
pub open spec fn naturals(widths: Seq<usize>) -> Seq<nat> {
    Seq::new(widths.len(), |k: int| widths[k] as nat)
}

/// Appends `text` to `out`, flush right in a column `width` wide.
fn push_padded(out: &mut Vec<u8>, text: &[u8], width: usize)
    ensures
        final(out)@ == old(out)@ + padded(text@, width as nat),
{
    let ghost start = out@;
    let mut k: usize = text.len();
    while k < width
        invariant
            text.len() <= k,
            text.len() < width ==> k <= width,
            text.len() >= width ==> k == text.len(),
            out@ == start + Seq::new((k - text.len()) as nat, |i: int| 0x20u8),
        decreases width - k,
    {
        out.push(0x20);
        proof {
            assert(out@ =~= start + Seq::new((k + 1 - text.len()) as nat, |i: int| 0x20u8));
        }
        k += 1;
    }
    push_all(out, text);
    proof {
        let spaces = Seq::new((k - text.len()) as nat, |i: int| 0x20u8);
        assert(out@ =~= start + (spaces + text@));
        if text.len() >= width {
            assert(spaces + text@ =~= text@);
        }
    }
}

/// Well-formed UTF-8 set flush right in a column is well-formed UTF-8.
proof fn lemma_padded_well_formed(text: Seq<u8>, width: nat)
    requires
        valid_utf8(text),
    ensures
        valid_utf8(padded(text, width)),
{
    if text.len() < width {
        let spaces = Seq::new((width - text.len()) as nat, |i: int| 0x20u8);
        assert(is_ascii_bytes(spaces));
        lemma_ascii_text(spaces);
        valid_utf8_concat(spaces, text);
    }
}

/// The times of a row, as a line shows them, are well-formed UTF-8.
proof fn lemma_times_text_well_formed(times: Seq<nat>, widths: Seq<nat>, k: int)
    ensures
        valid_utf8(times_text(times, widths, k)),
    decreases k,
{
    if k <= 0 || k > times.len() || k > widths.len() {
        assert(valid_utf8(Seq::<u8>::empty()));
    } else {
        let before = times_text(times, widths, k - 1);
        let time = clock_text(times[k - 1]);
        lemma_times_text_well_formed(times, widths, k - 1);
        lemma_clock_text_ascii(times[k - 1]);
        lemma_ascii_text(time);
        lemma_padded_well_formed(time, widths[k - 1]);
        assert(is_ascii_bytes(seq![0x20u8]));
        lemma_ascii_text(seq![0x20u8]);
        valid_utf8_concat(before, seq![0x20u8]);
        valid_utf8_concat(before + seq![0x20u8], padded(time, widths[k - 1]));
    }
}

/// A line of the leaderboard is well-formed UTF-8.
pub proof fn lemma_line_well_formed(row: TotalRowView, total: nat, name: nat, times: Seq<nat>)
    ensures
        valid_utf8(line_of(row, total, name, times)),
{
    let who = padded(encode_utf8(row.name), name);
    let sum = padded(clock_text(row.total), total);
    let rest = times_text(row.times, times, shown_times(row.times, times));
    encode_utf8_valid_utf8(row.name);
    lemma_padded_well_formed(encode_utf8(row.name), name);
    lemma_clock_text_ascii(row.total);
    lemma_ascii_text(clock_text(row.total));
    lemma_padded_well_formed(clock_text(row.total), total);
    lemma_times_text_well_formed(row.times, times, shown_times(row.times, times));
    assert(is_ascii_bytes(seq![0x20u8]));
    lemma_ascii_text(seq![0x20u8]);
    valid_utf8_concat(who, seq![0x20u8]);
    valid_utf8_concat(who + seq![0x20u8], sum);
    valid_utf8_concat(who + seq![0x20u8] + sum, rest);
}

/// A row of the leaderboard as a line.
pub fn line(row: &TotalRow, total_width: usize, name_width: usize, times_widths: &Vec<usize>) -> (text:
    String)
    ensures
        encode_utf8(text@) == line_of(
            row@,
            total_width as nat,
            name_width as nat,
            naturals(times_widths@),
        ),
{
    let mut out: Vec<u8> = Vec::new();
    push_padded(&mut out, row.name.as_str().as_bytes(), name_width);
    out.push(0x20);
    push_padded(&mut out, row.total.to_clock_text().as_slice(), total_width);
    let shown = if row.times.len() <= times_widths.len() {
        row.times.len()
    } else {
        times_widths.len()
    };
    let ghost head = out@;
    let ghost widths = naturals(times_widths@);
    let mut k: usize = 0;
    proof {
        assert(head =~= padded(encode_utf8(row@.name), name_width as nat) + seq![0x20u8] + padded(
            clock_text(row@.total),
            total_width as nat,
        ));
        assert(out@ =~= head + times_text(row@.times, widths, 0));
    }
    while k < shown
        invariant
            k <= shown,
            shown <= row.times.len(),
            shown <= times_widths.len(),
            widths == naturals(times_widths@),
            out@ == head + times_text(row@.times, widths, k as int),
        decreases shown - k,
    {
        let ghost before = out@;
        out.push(0x20);
        push_padded(&mut out, row.times[k].to_clock_text().as_slice(), times_widths[k]);
        proof {
            assert(row@.times[k as int] == row.times[k as int]@);
            assert(out@ =~= head + times_text(row@.times, widths, k + 1));
        }
        k += 1;
    }
    proof {
        assert(shown == shown_times(row@.times, widths));
        lemma_line_well_formed(row@, total_width as nat, name_width as nat, widths);
        decode_utf8_encode_utf8(out@);
    }
    decode_lossy(out.as_slice())
}

/// The leaderboard as lines, the columns as wide as their widest entry.
pub fn lines(results: &Vec<TotalRow>) -> (out: Vec<String>)
    ensures
        out.len() == results.len(),
        forall|i: int|
            0 <= i < out.len() ==> encode_utf8((#[trigger] out[i])@) == line_of(
                results[i]@,
                total_width(results.deep_view()),
                name_width(results.deep_view()),
                Seq::new(
                    if results.len() > 0 {
                        results[0].times.len() as nat
                    } else {
                        0
                    },
                    |j: int| time_width(results.deep_view(), j),
                ),
            ),
{
    let (total, name, times) = widths(results);
    let ghost columns = Seq::new(
        if results.len() > 0 {
            results[0].times.len() as nat
        } else {
            0
        },
        |j: int| time_width(results.deep_view(), j),
    );
    proof {
        assert(naturals(times@) =~= columns);
    }
    let mut out: Vec<String> = Vec::new();
    let mut i: usize = 0;
    while i < results.len()
        invariant
            i <= results.len(),
            out.len() == i,
            naturals(times@) == columns,
            forall|k: int|
                0 <= k < i ==> encode_utf8((#[trigger] out[k])@) == line_of(
                    results[k]@,
                    total as nat,
                    name as nat,
                    columns,
                ),
        decreases results.len() - i,
    {
        out.push(line(&results[i], total, name, &times));
        i += 1;
    }
    out
}

/// The sources of a run as specifications see them: the bytes of each, or
/// nothing for a source that is not read.
pub open spec fn source_views(sources: Seq<Option<Vec<u8>>>) -> Seq<Option<Seq<u8>>> {
    Seq::new(
        sources.len(),
        |i: int|
            match sources[i] {
                Some(bytes) => Some(bytes@),
                None => None,
            },
    )
}

/// The finishers of source `i`: those that the first extractor to find any
/// finds in its text; none for a source that is not read or in which no
/// extractor finds a finisher.
pub open spec fn source_records(sources: Seq<Option<Seq<u8>>>, i: int) -> Option<Seq<RecordView>> {
    match sources[i] {
        Some(bytes) => records_of_source(bytes),
        None => None,
    }
}

/// The table of results after the first `k` sources have been merged, each
/// into its own slot, in their order.
pub open spec fn table_upto(sources: Seq<Option<Seq<u8>>>, k: int) -> Seq<EntryView>
    decreases k,
{
    if k <= 0 || k > sources.len() {
        Seq::empty()
    } else {
        let before = table_upto(sources, k - 1);
        match source_records(sources, k - 1) {
            Some(records) => merged(before, sources.len(), k - 1, records),
            None => before,
        }
    }
}

/// The second times that merging the first `k` sources reports, in the
/// order in which they are met.
pub open spec fn replaced_upto(sources: Seq<Option<Seq<u8>>>, k: int) -> Seq<ConflictView>
    decreases k,
{
    if k <= 0 || k > sources.len() {
        Seq::empty()
    } else {
        let before = replaced_upto(sources, k - 1);
        match source_records(sources, k - 1) {
            Some(records) => before + conflicts(
                table_upto(sources, k - 1),
                sources.len(),
                k - 1,
                records,
            ),
            None => before,
        }
    }
}

/// Those of the first `k` sources that are read and in which no extractor
/// finds a finisher, by their positions.
pub open spec fn unread_upto(sources: Seq<Option<Seq<u8>>>, k: int) -> Seq<usize>
    decreases k,
{
    if k <= 0 || k > sources.len() {
        Seq::empty()
    } else {
        let before = unread_upto(sources, k - 1);
        if sources[k - 1].is_some() && source_records(sources, k - 1).is_none() {
            before.push((k - 1) as usize)
        } else {
            before
        }
    }
}

/// The table of results of a run over `sources`.
pub open spec fn table_of(sources: Seq<Option<Seq<u8>>>) -> Seq<EntryView> {
    table_upto(sources, sources.len() as int)
}

/// The leaderboard of a run over `sources`.
pub open spec fn total_times_of(sources: Seq<Option<Seq<u8>>>) -> Seq<TotalRowView> {
    leaderboard_of(table_of(sources))
}

/// The table of a run is well formed: no two rows are for the same person,
/// and each row has a slot per source.
pub proof fn lemma_table_upto_well_formed(sources: Seq<Option<Seq<u8>>>, k: int)
    ensures
        distinct_names(table_upto(sources, k)),
        all_of_width(table_upto(sources, k), sources.len()),
    decreases k,
{
    if 0 < k <= sources.len() {
        lemma_table_upto_well_formed(sources, k - 1);
        match source_records(sources, k - 1) {
            Some(records) => {
                lemma_merged_touches_its_source_only(
                    table_upto(sources, k - 1),
                    sources.len(),
                    k - 1,
                    records,
                );
            },
            None => {},
        }
    }
}

/// What a run over sources gives: the leaderboard, the second times that
/// were replaced while merging, and the positions of the sources in which
/// no extractor found a finisher.
#[derive(Debug)]
pub struct TotalTimes {
    pub rows: Vec<TotalRow>,
    pub replaced: Vec<Conflict>,
    pub unread: Vec<usize>,
}

/// Runs over `sources`, each the bytes of a source or nothing for a source
/// that is not read: the finishers of each source are extracted and merged
/// into the slot of the source, and the leaderboard is made of the table.
pub fn summarize_total_times(sources: &Vec<Option<Vec<u8>>>) -> (summary: TotalTimes)
    ensures
        summary.rows.deep_view() == total_times_of(source_views(sources@)),
        is_sorted_of::<TotalRow>(
            summary.rows.deep_view(),
            complete_rows(table_of(source_views(sources@))),
        ),
        forall|name: Seq<char>|
            lists(summary.rows.deep_view(), name) <==> finished_all(
                table_of(source_views(sources@)),
                name,
            ),
        summary.replaced.deep_view() == replaced_upto(
            source_views(sources@),
            sources.len() as int,
        ),
        summary.unread@ == unread_upto(source_views(sources@), sources.len() as int),
{
    let n = sources.len();
    let ghost views = source_views(sources@);
    let mut table = ResultMatrix::new(n);
    let mut replaced: Vec<Conflict> = Vec::new();
    let mut unread: Vec<usize> = Vec::new();
    let mut i: usize = 0;
    proof {
        assert(replaced.deep_view() =~= Seq::empty());
    }
    while i < n
        invariant
            i <= n,
            n == sources.len(),
            views == source_views(sources@),
            table.wf(),
            table.width() == n,
            table.rows() == table_upto(views, i as int),
            replaced.deep_view() == replaced_upto(views, i as int),
            unread@ == unread_upto(views, i as int),
        decreases n - i,
    {
        match &sources[i] {
            Some(bytes) => {
                proof {
                    assert(views[i as int] == Some(bytes@));
                }
                match read_source(bytes.as_slice()) {
                    Some(records) => {
                        let ghost before = replaced.deep_view();
                        let mut more = table.merge(&records, i);
                        proof {
                            assert(deep(replaced@ + more@) =~= before + more.deep_view());
                        }
                        replaced.append(&mut more);
                        proof {
                            assert(replaced.deep_view() =~= deep(replaced@));
                        }
                    },
                    None => {
                        unread.push(i);
                    },
                }
            },
            None => {
                proof {
                    assert(views[i as int].is_none());
                }
            },
        }
        i += 1;
    }
    let rows = leaderboard(&table);
    TotalTimes { rows, replaced, unread }
}

/// A run depends on the bytes of its sources alone: two runs over sources
/// with the same bytes give the same leaderboard, report the same second
/// times and leave the same sources unread.
pub proof fn lemma_same_sources_same_summary(
    first: Seq<Option<Seq<u8>>>,
    second: Seq<Option<Seq<u8>>>,
)
    requires
        first == second,
    ensures
        total_times_of(first) == total_times_of(second),
        replaced_upto(first, first.len() as int) == replaced_upto(second, second.len() as int),
        unread_upto(first, first.len() as int) == unread_upto(second, second.len() as int),
{
}

} // verus!
