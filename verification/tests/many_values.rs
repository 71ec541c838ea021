use runs::duration::Duration;
use runs::merge::ResultMatrix;
use runs::order::sort_and_dedup;
use runs::report::leaderboard;
use runs::score::{points, ranks, summarize_scores, ScoreTable};
use runs::MaleOrFemale::{Female, Male, NonBinary};
use runs::Record;

/// A sequence of numbers that looks random and is the same on every run.
struct Numbers(u64);

impl Numbers {
    fn next(&mut self) -> u64 {
        self.0 = self.0.wrapping_mul(6364136223846793005).wrapping_add(1442695040888963407);
        self.0 >> 11
    }

    fn below(&mut self, limit: u64) -> u64 {
        self.next() % limit
    }
}

fn name(n: u64) -> String {
    ["Ann", "Bob", "Cy", "Dee", "Eve", "Fay", "Megan Devan", "Rae Devan", "deadhead", "Émile"][n as usize % 10]
        .to_string()
}

#[test]
fn many_durations_survive_writing_and_reading() {
    let mut numbers = Numbers(1);
    for _ in 0..2000 {
        let secs = match numbers.below(4) {
            0 => numbers.below(60),
            1 => numbers.below(3600),
            2 => numbers.below(1_000_000),
            _ => numbers.next(),
        };
        let nanos = numbers.below(1_000_000_000) as u32;
        let value = Duration::new(secs, nanos).unwrap();
        let text = value.to_text();
        let again = Duration::from_text(&text).unwrap();
        assert_eq!(again, Duration::new(secs, nanos / 100_000_000 * 100_000_000).unwrap(), "{text}");
        assert_eq!(Duration::parse_clock(text.as_bytes()), Some(again));
        assert_eq!(again.to_text(), text);
    }
}

#[test]
fn many_durations_are_ordered_as_their_nanoseconds() {
    let mut numbers = Numbers(2);
    let mut values: Vec<Duration> = (0..300)
        .map(|_| Duration::new(numbers.below(5), (numbers.below(5) * 250_000_000) as u32).unwrap())
        .collect();
    for a in &values {
        for b in &values {
            assert_eq!(a.is_less(b), a.as_nanos() < b.as_nanos());
            assert_eq!(a.cmp(b), a.as_nanos().cmp(&b.as_nanos()));
        }
    }
    values.sort();
    assert!(values.windows(2).all(|pair| pair[0].is_at_most(&pair[1])));
}

#[test]
fn many_records_are_sorted_as_the_standard_library_sorts_them() {
    let mut numbers = Numbers(3);
    for round in 0..50 {
        let records: Vec<Record> = (0..round)
            .map(|_| Record {
                name: name(numbers.next()),
                duration: Duration::new(numbers.below(3), 0).unwrap(),
                category: [None, Some(Male), Some(Female), Some(NonBinary)][numbers.below(4) as usize],
            })
            .collect();
        let mut expected = records.clone();
        expected.sort();
        expected.dedup();
        assert_eq!(sort_and_dedup(records), expected);
    }
}

#[test]
fn many_tables_list_just_those_who_finished_everything() {
    let mut numbers = Numbers(4);
    for _ in 0..30 {
        let sources = 1 + numbers.below(3) as usize;
        let mut table = ResultMatrix::new(sources);
        for source in 0..sources {
            let records: Vec<Record> = (0..numbers.below(12))
                .map(|_| Record {
                    name: name(numbers.next()),
                    duration: Duration::new(numbers.below(100), 0).unwrap(),
                    category: None,
                })
                .collect();
            table.merge(&records, source);
        }
        let rows = leaderboard(&table);
        for entry in table.entries() {
            assert_eq!(entry.durations.len(), sources);
            let complete = entry.durations.iter().all(|d| d.is_some());
            assert_eq!(rows.iter().filter(|row| row.name == entry.name).count(), complete as usize);
        }
        for row in &rows {
            let sum: u128 = row.times.iter().map(|t| t.as_nanos()).sum();
            assert_eq!(row.total.as_nanos(), sum);
        }
        assert!(rows
            .windows(2)
            .all(|pair| (pair[0].total, &pair[0].name) < (pair[1].total, &pair[1].name)));
        assert!(table.entries().iter().all(|entry| entry.name != "Megan Devan" && entry.name != "deadhead"));
    }
}

#[test]
fn many_events_score_within_a_hundred() {
    let mut numbers = Numbers(5);
    let mut table = ScoreTable::new();
    for event in 0..40 {
        let records: Vec<Record> = (0..numbers.below(10))
            .map(|_| Record {
                name: name(numbers.next()),
                duration: Duration::new(numbers.below(50), 0).unwrap(),
                category: [None, Some(Male), Some(Female), Some(NonBinary)][numbers.below(4) as usize],
            })
            .collect();
        for bucket in 0..2 {
            let fastest = records
                .iter()
                .filter(|r| r.category.map(|c| c.ordinal()) == Some(bucket))
                .map(|r| r.duration)
                .min();
            assert_eq!(runs::score::fastest_time(&records, bucket), fastest);
            if let Some(fastest) = fastest {
                for record in records.iter().filter(|r| r.category.map(|c| c.ordinal()) == Some(bucket)) {
                    let scored = points(&fastest, &record.duration);
                    assert!(scored <= 100);
                    assert_eq!(scored == 100, record.duration == fastest);
                }
            }
        }
        table.score_event(&records, event);
    }
    assert!(table.entries().iter().all(|score| score.info.points <= 100 && score.info.count >= 1));
    let ranking = summarize_scores(&table);
    assert_eq!(ranking.len(), table.entries().len());
    assert!(ranking.windows(2).all(|pair| pair[0].points > pair[1].points
        || (pair[0].points == pair[1].points && pair[0].position < pair[1].position)));
    let ranks = ranks(&ranking);
    for (i, rank) in ranks.iter().enumerate() {
        let better = ranking.iter().filter(|s| s.points > ranking[i].points).count();
        assert_eq!(*rank, better + 1);
    }
}
