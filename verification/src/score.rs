//! The points league: in each event a finisher scores the percentage that
//! the fastest time of their category is of their own time; a person keeps
//! the best score of the events of a series, and the scores of the series of
//! a season add up.

use crate::duration::Duration;
use crate::names::{canonical, canonical_name};
use crate::order::{is_sorted_of, sorted_distinct, sorted_of, total_among, Ordered};
use crate::text::str_eq;
use crate::{deep, MaleOrFemale, Record, RecordView};
use vstd::prelude::*;

verus! {

/// The bucket in which a finisher of the category `category` is scored:
/// the position of the category among the categories, where that is 0 (the
/// men) or 1 (the women); finishers of any other category, or of none, are
/// not scored.
pub open spec fn bucket_of(category: Option<MaleOrFemale>) -> Option<int> {
    match category {
        Some(category) if category.ordinal_spec() < 2 => Some(category.ordinal_spec() as int),
        _ => None,
    }
}

/// The fastest time, in nanoseconds, among the finishers of `records` in
/// the bucket `bucket`.
pub open spec fn fastest(records: Seq<RecordView>, bucket: int) -> Option<nat>
    decreases records.len(),
{
    if records.len() == 0 {
        None
    } else {
        let before = fastest(records.drop_last(), bucket);
        if bucket_of(records.last().category) == Some(bucket) {
            match before {
                Some(least) if least <= records.last().nanos => before,
                _ => Some(records.last().nanos),
            }
        } else {
            before
        }
    }
}

/// The points for a time of `own` nanoseconds where the fastest time is
/// `best`: a hundred times the fastest over the own time, rounded down; a
/// hundred for the fastest time itself.
pub open spec fn points_for(best: nat, own: nat) -> nat {
    if own == 0 || own <= best {
        100
    } else {
        100 * best / own
    }
}

/// A time equal to the fastest scores 100.
pub proof fn lemma_fastest_scores_100(best: nat)
    ensures
        points_for(best, best) == 100,
{
}

/// A time twice the fastest scores 50.
pub proof fn lemma_twice_fastest_scores_50(best: nat)
    requires
        best > 0,
    ensures
        points_for(best, 2 * best) == 50,
{
    assert(100 * best / (2 * best) == 50) by (nonlinear_arith)
        requires
            best > 0,
    ;
}

/// No time scores more than 100.
pub proof fn lemma_points_at_most_100(best: nat, own: nat)
    ensures
        points_for(best, own) <= 100,
{
    if own > 0 && own > best {
        assert(100 * best / own <= 100) by (nonlinear_arith)
            requires
                own > 0,
                best < own,
        ;
    }
}

/// The fastest time of a bucket is the time of one of its finishers, and
/// no finisher of the bucket has a shorter one; a bucket has no fastest
/// time only when it has no finisher.
pub proof fn lemma_fastest(records: Seq<RecordView>, bucket: int)
    ensures
        match fastest(records, bucket) {
            Some(least) => {
                &&& exists|i: int|
                    0 <= i < records.len() && bucket_of((#[trigger] records[i]).category) == Some(
                        bucket,
                    ) && records[i].nanos == least
                &&& forall|i: int|
                    0 <= i < records.len() && bucket_of((#[trigger] records[i]).category) == Some(
                        bucket,
                    ) ==> least <= records[i].nanos
            },
            None => forall|i: int|
                0 <= i < records.len() ==> bucket_of((#[trigger] records[i]).category) != Some(
                    bucket,
                ),
        },
    decreases records.len(),
{
    if records.len() > 0 {
        let before = records.drop_last();
        lemma_fastest(before, bucket);
        let last = records.len() - 1;
        assert forall|i: int| 0 <= i < before.len() implies before[i] == records[i] by {}
        match fastest(records, bucket) {
            Some(least) => {
                if bucket_of(records.last().category) == Some(bucket) && least
                    == records.last().nanos {
                    assert(records[last].nanos == least);
                } else {
                    let i = choose|i: int|
                        0 <= i < before.len() && bucket_of((#[trigger] before[i]).category)
                            == Some(bucket) && before[i].nanos == least;
                    assert(records[i].nanos == least);
                }
                assert forall|i: int|
                    0 <= i < records.len() && bucket_of((#[trigger] records[i]).category) == Some(
                        bucket,
                    ) implies least <= records[i].nanos by {
                    if i < last {
                        assert(before[i] == records[i]);
                    }
                }
            },
            None => {
                assert forall|i: int| 0 <= i < records.len() implies bucket_of(
                    (#[trigger] records[i]).category,
                ) != Some(bucket) by {
                    if i < last {
                        assert(before[i] == records[i]);
                    }
                }
            },
        }
    }
}

/// In an event every finisher with the fastest time of their bucket scores
/// 100, whether alone with that time or not.
pub proof fn lemma_fastest_of_bucket_scores_100(records: Seq<RecordView>, bucket: int, i: int)
    requires
        0 <= i < records.len(),
        bucket_of(records[i].category) == Some(bucket),
        fastest(records, bucket) == Some(records[i].nanos),
    ensures
        points_for(fastest(records, bucket).unwrap(), records[i].nanos) == 100,
{
}

/// What a person has scored in a series: the best points of an event, the
/// event in which they were scored, and the number of events in which the
/// person was scored.
#[derive(Clone, Copy, Debug, PartialEq, Eq, Structural)]
pub struct ScoreInfo {
    pub points: u16,
    pub path_index: usize,
    pub count: u32,
}

/// The score of one person.
#[derive(Debug)]
pub struct Score {
    pub name: String,
    pub info: ScoreInfo,
}

/// The score of one person in specifications.
pub struct ScoredView {
    pub name: Seq<char>,
    pub info: ScoreInfo,
}

impl View for Score {
    type V = ScoredView;

    open spec fn view(&self) -> ScoredView {
        ScoredView { name: self.name@, info: self.info }
    }
}

impl DeepView for Score {
    type V = ScoredView;

    open spec fn deep_view(&self) -> ScoredView {
        self@
    }
}

/// The position in `scores` of the person `name`.
pub open spec fn position_of(scores: Seq<ScoredView>, name: Seq<char>) -> Option<int>
    decreases scores.len(),
{
    if scores.len() == 0 {
        None
    } else if scores.last().name == name {
        Some(scores.len() - 1)
    } else {
        position_of(scores.drop_last(), name)
    }
}

/// No two of `scores` are for the same person.
pub open spec fn distinct_names(scores: Seq<ScoredView>) -> bool {
    forall|i: int, j: int|
        0 <= i < j < scores.len() ==> (#[trigger] scores[i]).name != (#[trigger] scores[j]).name
}

/// The score after one more event, `index`, with `points`: one event more
/// is counted, up to the largest count; where the points are more than the
/// best so far, they and the event replace the best.
pub open spec fn improved(info: ScoreInfo, points: nat, index: usize) -> ScoreInfo {
    let count = if info.count < u32::MAX {
        (info.count + 1) as u32
    } else {
        info.count
    };
    if points > info.points {
        ScoreInfo { points: points as u16, path_index: index, count }
    } else {
        ScoreInfo { points: info.points, path_index: info.path_index, count }
    }
}

/// The scores after the finisher `name` has scored `points` in the event
/// `index`: the score of the person with the canonical name of `name` is
/// improved; that person is added last, with one event counted, where the
/// scores do not have them yet.
pub open spec fn scored_one(scores: Seq<ScoredView>, name: Seq<char>, points: nat, index: usize) -> Seq<
    ScoredView,
> {
    let person = canonical_name(name);
    match position_of(scores, person) {
        Some(k) => scores.update(
            k,
            ScoredView { name: person, info: improved(scores[k].info, points, index) },
        ),
        None => scores.push(
            ScoredView {
                name: person,
                info: ScoreInfo { points: points as u16, path_index: index, count: 1 },
            },
        ),
    }
}

/// The scores after the first `k` finishers of the event `index` have been
/// scored.  A finisher of a bucket scores the points for their time against
/// the fastest time of the bucket in the whole event; other finishers are
/// passed over.
pub open spec fn scored_upto(scores: Seq<ScoredView>, records: Seq<RecordView>, k: int, index: usize) -> Seq<
    ScoredView,
>
    decreases k,
{
    if k <= 0 || k > records.len() {
        scores
    } else {
        let before = scored_upto(scores, records, k - 1, index);
        let record = records[k - 1];
        match bucket_of(record.category) {
            Some(bucket) => match fastest(records, bucket) {
                Some(best) => scored_one(before, record.name, points_for(best, record.nanos), index),
                None => before,
            },
            None => before,
        }
    }
}

/// The scores after the event `index`, with the finishers `records`, has
/// been scored.
pub open spec fn scored(scores: Seq<ScoredView>, records: Seq<RecordView>, index: usize) -> Seq<
    ScoredView,
> {
    scored_upto(scores, records, records.len() as int, index)
}

/// None of `scores` has more than a hundred points.
pub open spec fn within_hundred(scores: Seq<ScoredView>) -> bool {
    forall|k: int| 0 <= k < scores.len() ==> (#[trigger] scores[k]).info.points <= 100
}

/// Scoring an event gives nobody more than a hundred points.
pub proof fn lemma_scored_within_hundred(
    scores: Seq<ScoredView>,
    records: Seq<RecordView>,
    k: int,
    index: usize,
)
    requires
        within_hundred(scores),
    ensures
        within_hundred(scored_upto(scores, records, k, index)),
    decreases k,
{
    if 0 < k <= records.len() {
        let before = scored_upto(scores, records, k - 1, index);
        lemma_scored_within_hundred(scores, records, k - 1, index);
        let record = records[k - 1];
        match bucket_of(record.category) {
            Some(bucket) => match fastest(records, bucket) {
                Some(best) => {
                    lemma_points_at_most_100(best, record.nanos);
                    lemma_position_of(before, canonical_name(record.name));
                },
                None => {},
            },
            None => {},
        }
    }
}

/// Where `position_of` finds a person, the person is there; where it finds
/// none, the person is nowhere among the scores.
pub proof fn lemma_position_of(scores: Seq<ScoredView>, name: Seq<char>)
    ensures
        match position_of(scores, name) {
            Some(k) => 0 <= k < scores.len() && scores[k].name == name,
            None => forall|j: int| 0 <= j < scores.len() ==> (#[trigger] scores[j]).name != name,
        },
    decreases scores.len(),
{
    if scores.len() > 0 && scores.last().name != name {
        lemma_position_of(scores.drop_last(), name);
        match position_of(scores.drop_last(), name) {
            Some(k) => {},
            None => {
                assert forall|j: int| 0 <= j < scores.len() implies (#[trigger] scores[j]).name
                    != name by {
                    if j < scores.len() - 1 {
                        assert(scores.drop_last()[j] == scores[j]);
                    }
                }
            },
        }
    }
}

/// The scores of a series.
pub struct ScoreTable {
    entries: Vec<Score>,
}

impl ScoreTable {
    /// The scores, in the order in which the persons were first scored.
    pub closed spec fn rows(self) -> Seq<ScoredView> {
        self.entries.deep_view()
    }

    /// No two scores are for the same person, and nobody has more than a
    /// hundred points.
    pub closed spec fn wf(self) -> bool {
        &&& distinct_names(self.entries.deep_view())
        &&& within_hundred(self.entries.deep_view())
    }

    /// No scores.
    pub fn new() -> (table: ScoreTable)
        ensures
            table.wf(),
            table.rows() == Seq::<ScoredView>::empty(),
    {
        let entries: Vec<Score> = Vec::new();
        proof {
            assert(entries.deep_view() =~= Seq::empty());
        }
        ScoreTable { entries }
    }

    /// The scores.
    pub fn entries(&self) -> (entries: &Vec<Score>)
        ensures
            entries.deep_view() == self.rows(),
            self.wf() ==> distinct_names(self.rows()) && within_hundred(self.rows()),
    {
        &self.entries
    }

    /// The position of the person `name` among the scores.
    fn find(&self, name: &str) -> (r: Option<usize>)
        ensures
            match r {
                Some(k) => position_of(self.rows(), name@) == Some(k as int) && k
                    < self.entries.len(),
                None => position_of(self.rows(), name@).is_none(),
            },
    {
        let mut k = self.entries.len();
        proof {
            assert(self.rows().subrange(0, k as int) =~= self.rows());
        }
        while k > 0
            invariant
                k <= self.entries.len(),
                position_of(self.rows(), name@) == position_of(
                    self.rows().subrange(0, k as int),
                    name@,
                ),
            decreases k,
        {
            proof {
                let prefix = self.rows().subrange(0, k as int);
                assert(prefix.last() == self.entries[k - 1]@);
                assert(prefix.drop_last() =~= self.rows().subrange(0, k - 1));
            }
            if str_eq(self.entries[k - 1].name.as_str(), name) {
                return Some(k - 1);
            }
            k -= 1;
        }
        None
    }

    /// Scores `points`, a hundred at most, for the finisher `name` in the
    /// event `index`.
    pub fn score_one(&mut self, name: &str, points: u16, index: usize)
        requires
            old(self).wf(),
            points <= 100,
        ensures
            final(self).wf(),
            final(self).rows() == scored_one(old(self).rows(), name@, points as nat, index),
    {
        let person = canonical(name);
        let ghost before = self.rows();
        proof {
            lemma_position_of(before, person@);
        }
        match self.find(person.as_str()) {
            Some(k) => {
                let ghost old_entries = self.entries@;
                let old = self.entries.remove(k);
                let count = if old.info.count < u32::MAX {
                    old.info.count + 1
                } else {
                    old.info.count
                };
                let info = if points > old.info.points {
                    ScoreInfo { points, path_index: index, count }
                } else {
                    ScoreInfo { points: old.info.points, path_index: old.info.path_index, count }
                };
                let entry = Score { name: person, info };
                proof {
                    assert(before[k as int] == old_entries[k as int]@);
                    let after = deep(self.entries@.insert(k as int, entry));
                    let expected = scored_one(before, name@, points as nat, index);
                    assert(after.len() == expected.len());
                    assert forall|j: int| 0 <= j < after.len() implies after[j] == expected[j] by {
                        if j != k {
                            assert(self.entries@.insert(k as int, entry)[j] == old_entries[j]);
                            assert(before[j] == old_entries[j]@);
                        }
                    }
                    assert(after =~= expected);
                }
                self.entries.insert(k, entry);
                proof {
                    assert(self.entries.deep_view() =~= deep(self.entries@));
                }
            },
            None => {
                let entry = Score {
                    name: person,
                    info: ScoreInfo { points, path_index: index, count: 1 },
                };
                proof {
                    assert(deep(self.entries@.push(entry)) =~= before.push(entry@));
                }
                self.entries.push(entry);
                proof {
                    assert(self.entries.deep_view() =~= deep(self.entries@));
                }
            },
        }
    }
}

} // verus!

verus! {

/// The bucket in which a finisher of the category `category` is scored.
fn bucket(category: Option<MaleOrFemale>) -> (r: Option<usize>)
    ensures
        match r {
            Some(b) => bucket_of(category) == Some(b as int) && b < 2,
            None => bucket_of(category).is_none(),
        },
{
    match category {
        Some(category) => if category.ordinal() < 2 {
            Some(category.ordinal())
        } else {
            None
        },
        None => None,
    }
}

/// The fastest time among the finishers of `records` in the bucket `b`.
pub fn fastest_time(records: &Vec<Record>, b: usize) -> (r: Option<Duration>)
    ensures
        match r {
            Some(best) => fastest(records.deep_view(), b as int) == Some(best@),
            None => fastest(records.deep_view(), b as int).is_none(),
        },
{
    let mut best: Option<Duration> = None;
    let mut k: usize = 0;
    proof {
        assert(records.deep_view().subrange(0, 0) =~= Seq::empty());
    }
    while k < records.len()
        invariant
            k <= records.len(),
            match best {
                Some(best) => fastest(records.deep_view().subrange(0, k as int), b as int) == Some(
                    best@,
                ),
                None => fastest(records.deep_view().subrange(0, k as int), b as int).is_none(),
            },
        decreases records.len() - k,
    {
        proof {
            let next = records.deep_view().subrange(0, k + 1);
            assert(next.drop_last() =~= records.deep_view().subrange(0, k as int));
            assert(next.last() == records[k as int]@);
        }
        let record = &records[k];
        match bucket(record.category) {
            Some(own) => {
                if own == b {
                    let better = match &best {
                        Some(least) => record.duration.is_less(least),
                        None => true,
                    };
                    if better {
                        best = Some(record.duration);
                    }
                }
            },
            None => {},
        }
        k += 1;
    }
    proof {
        assert(records.deep_view().subrange(0, k as int) =~= records.deep_view());
    }
    best
}

/// The points for the time `own` where the fastest time is `best`.
pub fn points(best: &Duration, own: &Duration) -> (r: u16)
    ensures
        r == points_for(best@, own@),
        r <= 100,
{
    let best_nanos = best.as_nanos();
    let own_nanos = own.as_nanos();
    proof {
        lemma_points_at_most_100(best@, own@);
    }
    if own_nanos == 0 || own_nanos <= best_nanos {
        100
    } else {
        (100 * best_nanos / own_nanos) as u16
    }
}

impl ScoreTable {
    /// Scores the event `index`, with the finishers `records`.
    pub fn score_event(&mut self, records: &Vec<Record>, index: usize)
        requires
            old(self).wf(),
        ensures
            final(self).wf(),
            final(self).rows() == scored(old(self).rows(), records.deep_view(), index),
    {
        let ghost start = self.rows();
        let men = fastest_time(records, 0);
        let women = fastest_time(records, 1);
        let mut k: usize = 0;
        while k < records.len()
            invariant
                k <= records.len(),
                self.wf(),
                self.rows() == scored_upto(start, records.deep_view(), k as int, index),
                match men {
                    Some(best) => fastest(records.deep_view(), 0) == Some(best@),
                    None => fastest(records.deep_view(), 0).is_none(),
                },
                match women {
                    Some(best) => fastest(records.deep_view(), 1) == Some(best@),
                    None => fastest(records.deep_view(), 1).is_none(),
                },
            decreases records.len() - k,
        {
            let record = &records[k];
            proof {
                assert(records.deep_view()[k as int] == record@);
            }
            match bucket(record.category) {
                Some(b) => {
                    let best = if b == 0 {
                        men
                    } else {
                        women
                    };
                    match best {
                        Some(best) => {
                            self.score_one(
                                record.name.as_str(),
                                points(&best, &record.duration),
                                index,
                            );
                        },
                        None => {},
                    }
                },
                None => {},
            }
            k += 1;
        }
    }
}

/// A person in the ranking: the position at which the person stands in the
/// scores, the points and the number of events.
#[derive(Debug)]
pub struct Standing {
    pub position: usize,
    pub name: String,
    pub points: u64,
    pub count: u64,
}

/// A person in the ranking, in specifications.
pub struct StandingView {
    pub position: nat,
    pub name: Seq<char>,
    pub points: nat,
    pub count: nat,
}

impl View for Standing {
    type V = StandingView;

    open spec fn view(&self) -> StandingView {
        StandingView {
            position: self.position as nat,
            name: self.name@,
            points: self.points as nat,
            count: self.count as nat,
        }
    }
}

impl DeepView for Standing {
    type V = StandingView;

    open spec fn deep_view(&self) -> StandingView {
        self@
    }
}

/// The order of the ranking: by points, the more first; under equal points
/// by position in the scores.
pub open spec fn standing_before(a: StandingView, b: StandingView) -> bool {
    if a.points != b.points {
        a.points > b.points
    } else {
        a.position < b.position
    }
}

impl Ordered for Standing {
    open spec fn before(a: StandingView, b: StandingView) -> bool {
        standing_before(a, b)
    }

    fn is_before(&self, other: &Standing) -> (r: bool) {
        if self.points != other.points {
            self.points > other.points
        } else {
            self.position < other.position
        }
    }

    proof fn lemma_irreflexive(a: StandingView) {
    }

    proof fn lemma_transitive(a: StandingView, b: StandingView, c: StandingView) {
    }
}

/// Each of `standings` stands at its own position.
pub open spec fn positioned(standings: Seq<StandingView>) -> bool {
    forall|k: int| 0 <= k < standings.len() ==> (#[trigger] standings[k]).position == k
}

/// Of two persons at different positions one comes before the other.
pub proof fn lemma_standings_total(standings: Seq<StandingView>)
    requires
        positioned(standings),
    ensures
        total_among::<Standing>(standings),
{
}

/// The persons of `scores` as they stand before ranking: each at their
/// position, with their best points and their number of events.
pub open spec fn standings_of(scores: Seq<ScoredView>) -> Seq<StandingView> {
    Seq::new(
        scores.len(),
        |k: int|
            StandingView {
                position: k as nat,
                name: scores[k].name,
                points: scores[k].info.points as nat,
                count: scores[k].info.count as nat,
            },
    )
}

/// The ranking of the persons of `scores`: the most points first, persons
/// with equal points in the order in which they were first scored.
pub open spec fn ranking_of(scores: Seq<ScoredView>) -> Seq<StandingView> {
    sorted_of::<Standing>(standings_of(scores))
}

/// The rank of the person at position `i` of a ranking with the points
/// `points`: one more than the number of persons before them, but the rank
/// of the person before them where both have the same points.
pub open spec fn rank_at(points: Seq<nat>, i: int) -> nat
    decreases i,
{
    if i <= 0 {
        1
    } else if points[i - 1] == points[i] {
        rank_at(points, i - 1)
    } else {
        (i + 1) as nat
    }
}

/// The points of the persons of `ranking`.
pub open spec fn points_of(ranking: Seq<StandingView>) -> Seq<nat> {
    Seq::new(ranking.len(), |k: int| ranking[k].points)
}

/// The ranking of the persons of a series.
pub fn summarize_scores(table: &ScoreTable) -> (ranking: Vec<Standing>)
    ensures
        ranking.deep_view() == ranking_of(table.rows()),
        is_sorted_of::<Standing>(ranking.deep_view(), standings_of(table.rows())),
{
    let entries = table.entries();
    let mut all: Vec<Standing> = Vec::new();
    let mut k: usize = 0;
    while k < entries.len()
        invariant
            k <= entries.len(),
            all.len() == k,
            forall|j: int|
                0 <= j < k ==> (#[trigger] all[j])@ == standings_of(entries.deep_view())[j],
        decreases entries.len() - k,
    {
        let entry = &entries[k];
        all.push(
            Standing {
                position: k,
                name: entry.name.clone(),
                points: entry.info.points as u64,
                count: entry.info.count as u64,
            },
        );
        k += 1;
    }
    proof {
        assert(all.deep_view() =~= standings_of(table.rows()));
        lemma_standings_total(all.deep_view());
    }
    sorted_distinct(all)
}

/// The ranks of the persons of `ranking`, in its order.
pub fn ranks(ranking: &Vec<Standing>) -> (r: Vec<usize>)
    ensures
        r.len() == ranking.len(),
        forall|i: int|
            0 <= i < r.len() ==> #[trigger] r[i] == rank_at(points_of(ranking.deep_view()), i),
{
    let mut r: Vec<usize> = Vec::new();
    let mut k: usize = 0;
    while k < ranking.len()
        invariant
            k <= ranking.len(),
            r.len() == k,
            forall|i: int|
                0 <= i < k ==> #[trigger] r[i] == rank_at(points_of(ranking.deep_view()), i),
            forall|i: int| 0 <= i < k ==> 1 <= #[trigger] r[i] <= i + 1,
        decreases ranking.len() - k,
    {
        proof {
            assert(points_of(ranking.deep_view())[k as int] == ranking[k as int].points);
            if k > 0 {
                assert(points_of(ranking.deep_view())[k - 1] == ranking[k - 1].points);
            }
        }
        let rank = if k > 0 && ranking[k - 1].points == ranking[k].points {
            r[k - 1]
        } else {
            k + 1
        };
        r.push(rank);
        k += 1;
    }
    r
}

} // verus!

verus! {

/// What a person has scored in one series of a season.
#[derive(Clone, Copy, Debug, PartialEq, Eq, Structural)]
pub struct SeriesScore {
    pub series: usize,
    pub info: ScoreInfo,
}

/// The scores of one person in the series of a season.
#[derive(Debug)]
pub struct SeasonEntry {
    pub name: String,
    pub scores: Vec<SeriesScore>,
}

/// The scores of one person in the series of a season, in specifications.
pub struct SeasonEntryView {
    pub name: Seq<char>,
    pub scores: Seq<SeriesScore>,
}

impl View for SeasonEntry {
    type V = SeasonEntryView;

    open spec fn view(&self) -> SeasonEntryView {
        SeasonEntryView { name: self.name@, scores: self.scores@ }
    }
}

impl DeepView for SeasonEntry {
    type V = SeasonEntryView;

    open spec fn deep_view(&self) -> SeasonEntryView {
        self@
    }
}

/// The position in `entries` of the person `name`.
pub open spec fn season_position_of(entries: Seq<SeasonEntryView>, name: Seq<char>) -> Option<int>
    decreases entries.len(),
{
    if entries.len() == 0 {
        None
    } else if entries.last().name == name {
        Some(entries.len() - 1)
    } else {
        season_position_of(entries.drop_last(), name)
    }
}

/// No two of `entries` are for the same person.
pub open spec fn season_distinct_names(entries: Seq<SeasonEntryView>) -> bool {
    forall|i: int, j: int|
        0 <= i < j < entries.len() ==> (#[trigger] entries[i]).name != (#[trigger] entries[j]).name
}

/// Where `season_position_of` finds a person, the person is there; where it
/// finds none, the person is nowhere in the season.
pub proof fn lemma_season_position_of(entries: Seq<SeasonEntryView>, name: Seq<char>)
    ensures
        match season_position_of(entries, name) {
            Some(k) => 0 <= k < entries.len() && entries[k].name == name,
            None => forall|j: int| 0 <= j < entries.len() ==> (#[trigger] entries[j]).name != name,
        },
    decreases entries.len(),
{
    if entries.len() > 0 && entries.last().name != name {
        lemma_season_position_of(entries.drop_last(), name);
        match season_position_of(entries.drop_last(), name) {
            Some(k) => {},
            None => {
                assert forall|j: int| 0 <= j < entries.len() implies (#[trigger] entries[j]).name
                    != name by {
                    if j < entries.len() - 1 {
                        assert(entries.drop_last()[j] == entries[j]);
                    }
                }
            },
        }
    }
}

/// The season after the person `name` has been given the score `score` of
/// one series: the score is the last of the person's scores; the person is
/// added last where the season does not have them yet.
pub open spec fn added_one(entries: Seq<SeasonEntryView>, name: Seq<char>, score: SeriesScore) -> Seq<
    SeasonEntryView,
> {
    match season_position_of(entries, name) {
        Some(k) => entries.update(
            k,
            SeasonEntryView { name, scores: entries[k].scores.push(score) },
        ),
        None => entries.push(SeasonEntryView { name, scores: seq![score] }),
    }
}

/// The season after the first `k` of `scores`, the scores of the series
/// `series`, have been added.
pub open spec fn added_upto(
    entries: Seq<SeasonEntryView>,
    scores: Seq<ScoredView>,
    k: int,
    series: usize,
) -> Seq<SeasonEntryView>
    decreases k,
{
    if k <= 0 || k > scores.len() {
        entries
    } else {
        added_one(
            added_upto(entries, scores, k - 1, series),
            scores[k - 1].name,
            SeriesScore { series, info: scores[k - 1].info },
        )
    }
}

/// The season after the series `series`, with the scores `scores`, has been
/// added.
pub open spec fn added(entries: Seq<SeasonEntryView>, scores: Seq<ScoredView>, series: usize) -> Seq<
    SeasonEntryView,
> {
    added_upto(entries, scores, scores.len() as int, series)
}

/// The sum of the points of `scores`.
pub open spec fn total_points(scores: Seq<SeriesScore>) -> nat
    decreases scores.len(),
{
    if scores.len() == 0 {
        0
    } else {
        total_points(scores.drop_last()) + scores.last().info.points as nat
    }
}

/// The sum of the numbers of events of `scores`.
pub open spec fn total_count(scores: Seq<SeriesScore>) -> nat
    decreases scores.len(),
{
    if scores.len() == 0 {
        0
    } else {
        total_count(scores.drop_last()) + scores.last().info.count as nat
    }
}

/// `n`, or the largest number of 64 bits where `n` is larger.
pub open spec fn capped_u64(n: nat) -> nat {
    if n <= u64::MAX {
        n
    } else {
        u64::MAX as nat
    }
}

/// The persons of a season as they stand before ranking: each at their
/// position, with the sums of their points and of their numbers of events
/// over the series.
pub open spec fn season_standings_of(entries: Seq<SeasonEntryView>) -> Seq<StandingView> {
    Seq::new(
        entries.len(),
        |k: int|
            StandingView {
                position: k as nat,
                name: entries[k].name,
                points: capped_u64(total_points(entries[k].scores)),
                count: capped_u64(total_count(entries[k].scores)),
            },
    )
}

/// The ranking of the persons of a season: the most points first, persons
/// with equal points in the order in which they were first scored.
pub open spec fn season_ranking_of(entries: Seq<SeasonEntryView>) -> Seq<StandingView> {
    sorted_of::<Standing>(season_standings_of(entries))
}

/// The scores of a season, series by series.
pub struct Season {
    entries: Vec<SeasonEntry>,
}

/// `a` and `b` together, or the largest number of 64 bits where that is
/// less.
fn add_capped(a: u64, b: u64) -> (sum: u64)
    ensures
        sum == capped_u64((a + b) as nat),
{
    if a > u64::MAX - b {
        u64::MAX
    } else {
        a + b
    }
}

impl Season {
    /// The persons of the season, in the order in which they were first
    /// scored, each with their scores in the order of the series.
    pub closed spec fn rows(self) -> Seq<SeasonEntryView> {
        self.entries.deep_view()
    }

    /// No two entries are for the same person.
    pub closed spec fn wf(self) -> bool {
        season_distinct_names(self.entries.deep_view())
    }

    /// A season without series.
    pub fn new() -> (season: Season)
        ensures
            season.wf(),
            season.rows() == Seq::<SeasonEntryView>::empty(),
    {
        let entries: Vec<SeasonEntry> = Vec::new();
        proof {
            assert(entries.deep_view() =~= Seq::empty());
        }
        Season { entries }
    }

    /// The persons of the season.
    pub fn entries(&self) -> (entries: &Vec<SeasonEntry>)
        ensures
            entries.deep_view() == self.rows(),
            self.wf() ==> season_distinct_names(self.rows()),
    {
        &self.entries
    }

    /// The position of the person `name` in the season.
    fn find(&self, name: &str) -> (r: Option<usize>)
        ensures
            match r {
                Some(k) => season_position_of(self.rows(), name@) == Some(k as int) && k
                    < self.entries.len(),
                None => season_position_of(self.rows(), name@).is_none(),
            },
    {
        let mut k = self.entries.len();
        proof {
            assert(self.rows().subrange(0, k as int) =~= self.rows());
        }
        while k > 0
            invariant
                k <= self.entries.len(),
                season_position_of(self.rows(), name@) == season_position_of(
                    self.rows().subrange(0, k as int),
                    name@,
                ),
            decreases k,
        {
            proof {
                let prefix = self.rows().subrange(0, k as int);
                assert(prefix.last() == self.entries[k - 1]@);
                assert(prefix.drop_last() =~= self.rows().subrange(0, k - 1));
            }
            if str_eq(self.entries[k - 1].name.as_str(), name) {
                return Some(k - 1);
            }
            k -= 1;
        }
        None
    }

    /// Gives the person `name` the score `score` of one series.
    fn add_one(&mut self, name: &str, score: SeriesScore)
        requires
            old(self).wf(),
        ensures
            final(self).wf(),
            final(self).rows() == added_one(old(self).rows(), name@, score),
    {
        let ghost before = self.rows();
        proof {
            lemma_season_position_of(before, name@);
        }
        match self.find(name) {
            Some(k) => {
                let ghost old_entries = self.entries@;
                let mut entry = self.entries.remove(k);
                proof {
                    assert(before[k as int] == old_entries[k as int]@);
                    assert(before[k as int] == entry@);
                }
                entry.scores.push(score);
                let entry = SeasonEntry { name: name.to_owned(), scores: entry.scores };
                proof {
                    let after = deep(self.entries@.insert(k as int, entry));
                    let expected = added_one(before, name@, score);
                    assert(after.len() == expected.len());
                    assert forall|j: int| 0 <= j < after.len() implies after[j] == expected[j] by {
                        if j != k {
                            assert(self.entries@.insert(k as int, entry)[j] == old_entries[j]);
                            assert(before[j] == old_entries[j]@);
                        }
                    }
                    assert(after =~= expected);
                }
                self.entries.insert(k, entry);
                proof {
                    assert(self.entries.deep_view() =~= deep(self.entries@));
                }
            },
            None => {
                let mut scores: Vec<SeriesScore> = Vec::new();
                scores.push(score);
                let entry = SeasonEntry { name: name.to_owned(), scores };
                proof {
                    assert(entry@.scores =~= seq![score]);
                    assert(deep(self.entries@.push(entry)) =~= before.push(entry@));
                }
                self.entries.push(entry);
                proof {
                    assert(self.entries.deep_view() =~= deep(self.entries@));
                }
            },
        }
    }

    /// Adds the series `series` with the scores of `table`.
    pub fn add_series(&mut self, table: &ScoreTable, series: usize)
        requires
            old(self).wf(),
        ensures
            final(self).wf(),
            final(self).rows() == added(old(self).rows(), table.rows(), series),
    {
        let ghost start = self.rows();
        let scores = table.entries();
        let mut k: usize = 0;
        while k < scores.len()
            invariant
                k <= scores.len(),
                self.wf(),
                scores.deep_view() == table.rows(),
                self.rows() == added_upto(start, table.rows(), k as int, series),
            decreases scores.len() - k,
        {
            proof {
                assert(table.rows()[k as int] == scores[k as int]@);
            }
            self.add_one(scores[k].name.as_str(), SeriesScore { series, info: scores[k].info });
            k += 1;
        }
    }
}

/// The sums of the points and of the numbers of events of `scores`.
fn totals(scores: &Vec<SeriesScore>) -> (r: (u64, u64))
    ensures
        r.0 == capped_u64(total_points(scores@)),
        r.1 == capped_u64(total_count(scores@)),
{
    let mut points: u64 = 0;
    let mut count: u64 = 0;
    let mut k: usize = 0;
    proof {
        assert(scores@.subrange(0, 0) =~= Seq::empty());
    }
    while k < scores.len()
        invariant
            k <= scores.len(),
            points == capped_u64(total_points(scores@.subrange(0, k as int))),
            count == capped_u64(total_count(scores@.subrange(0, k as int))),
        decreases scores.len() - k,
    {
        proof {
            let next = scores@.subrange(0, k + 1);
            assert(next.drop_last() =~= scores@.subrange(0, k as int));
            assert(next.last() == scores@[k as int]);
        }
        points = add_capped(points, scores[k].info.points as u64);
        count = add_capped(count, scores[k].info.count as u64);
        k += 1;
    }
    proof {
        assert(scores@.subrange(0, k as int) =~= scores@);
    }
    (points, count)
}

/// The ranking of the persons of a season.
pub fn summarize_directories(season: &Season) -> (ranking: Vec<Standing>)
    ensures
        ranking.deep_view() == season_ranking_of(season.rows()),
        is_sorted_of::<Standing>(ranking.deep_view(), season_standings_of(season.rows())),
{
    let entries = season.entries();
    let mut all: Vec<Standing> = Vec::new();
    let mut k: usize = 0;
    while k < entries.len()
        invariant
            k <= entries.len(),
            all.len() == k,
            forall|j: int|
                0 <= j < k ==> (#[trigger] all[j])@ == season_standings_of(
                    entries.deep_view(),
                )[j],
        decreases entries.len() - k,
    {
        let entry = &entries[k];
        let (points, count) = totals(&entry.scores);
        all.push(Standing { position: k, name: entry.name.clone(), points, count });
        k += 1;
    }
    proof {
        assert(all.deep_view() =~= season_standings_of(season.rows()));
        lemma_standings_total(all.deep_view());
    }
    sorted_distinct(all)
}

} // verus!
