use runs::duration::Duration;
use runs::score::{
    fastest_time, points, ranks, summarize_directories, summarize_scores, ScoreInfo, ScoreTable,
    Season, Standing,
};
use runs::MaleOrFemale::{self, Female, Male, NonBinary};
use runs::Record;

fn ms(m: u64, s: u64) -> Duration {
    Duration::new(m * 60 + s, 0).unwrap()
}

fn record(name: &str, duration: Duration, category: Option<MaleOrFemale>) -> Record {
    Record { name: name.to_string(), duration, category }
}

fn score_of<'a>(table: &'a ScoreTable, name: &str) -> Option<&'a ScoreInfo> {
    table.entries().iter().find(|e| e.name == name).map(|e| &e.info)
}

#[test]
fn points_are_the_percentage_of_the_fastest() {
    assert_eq!(points(&ms(20, 0), &ms(20, 0)), 100);
    assert_eq!(points(&ms(20, 0), &ms(40, 0)), 50);
    assert_eq!(points(&ms(20, 0), &ms(25, 0)), 80);
    assert_eq!(points(&ms(20, 0), &ms(30, 0)), 66);
    assert_eq!(points(&ms(20, 0), &Duration::new(1200, 1).unwrap()), 99);
    assert_eq!(points(&Duration::new(1, 500_000_000).unwrap(), &Duration::new(3, 0).unwrap()), 50);
    assert_eq!(points(&ms(0, 1), &Duration::max()), 0);
    assert_eq!(points(&Duration::zero(), &Duration::zero()), 100);
    assert_eq!(points(&Duration::zero(), &ms(0, 1)), 0);
    assert_eq!(points(&Duration::max(), &Duration::max()), 100);
    // A time shorter than the fastest does not score more than the fastest.
    assert_eq!(points(&ms(20, 0), &ms(10, 0)), 100);
}

#[test]
fn an_event_scores_each_bucket_against_its_fastest() {
    let records = vec![
        record("Ann", ms(20, 0), Some(Female)),
        record("Bea", ms(25, 0), Some(Female)),
        record("Carl", ms(18, 0), Some(Male)),
    ];
    assert_eq!(fastest_time(&records, 0), Some(ms(18, 0)));
    assert_eq!(fastest_time(&records, 1), Some(ms(20, 0)));
    assert_eq!(fastest_time(&records, 2), None);
    let mut table = ScoreTable::new();
    table.score_event(&records, 0);
    assert_eq!(table.entries().len(), 3);
    assert_eq!(score_of(&table, "Ann"), Some(&ScoreInfo { points: 100, path_index: 0, count: 1 }));
    assert_eq!(score_of(&table, "Bea"), Some(&ScoreInfo { points: 80, path_index: 0, count: 1 }));
    assert_eq!(score_of(&table, "Carl"), Some(&ScoreInfo { points: 100, path_index: 0, count: 1 }));
}

#[test]
fn an_event_scores_ties_and_passes_over_other_categories() {
    let records = vec![
        record("Dan", ms(40, 0), Some(Male)),
        record("Xan", ms(10, 0), Some(NonBinary)),
        record("Bob", ms(20, 0), Some(Male)),
        record("Uma", ms(5, 0), None),
        record("Carl", ms(20, 0), Some(Male)),
    ];
    let mut table = ScoreTable::new();
    table.score_event(&records, 4);
    assert_eq!(score_of(&table, "Bob").unwrap().points, 100);
    assert_eq!(score_of(&table, "Carl").unwrap().points, 100);
    assert_eq!(score_of(&table, "Dan").unwrap().points, 50);
    assert_eq!(score_of(&table, "Xan"), None);
    assert_eq!(score_of(&table, "Uma"), None);
    assert_eq!(fastest_time(&records, 1), None);
    let names: Vec<&str> = table.entries().iter().map(|e| e.name.as_str()).collect();
    assert_eq!(names, vec!["Dan", "Bob", "Carl"]);
}

#[test]
fn a_series_keeps_the_best_event_and_counts_all() {
    let mut table = ScoreTable::new();
    table.score_event(&vec![record("Ann", ms(20, 0), Some(Female)), record("Megan Devan", ms(25, 0), Some(Female))], 0);
    table.score_event(&vec![record("Rae Devan", ms(30, 0), Some(Female)), record("Ann", ms(40, 0), Some(Female))], 1);
    table.score_event(&vec![record("Rae Devan", ms(30, 0), Some(Female)), record("Bea", ms(30, 0), Some(Female))], 2);
    table.score_event(&vec![], 3);
    assert_eq!(score_of(&table, "Ann"), Some(&ScoreInfo { points: 100, path_index: 0, count: 2 }));
    assert_eq!(score_of(&table, "Rae Devan"), Some(&ScoreInfo { points: 100, path_index: 1, count: 3 }));
    assert_eq!(score_of(&table, "Megan Devan"), None);
    assert_eq!(score_of(&table, "Bea"), Some(&ScoreInfo { points: 100, path_index: 2, count: 1 }));
    // One name twice in one event counts twice.
    table.score_one("Ann", 7, 9);
    table.score_one("Ann", 7, 9);
    assert_eq!(score_of(&table, "Ann"), Some(&ScoreInfo { points: 100, path_index: 0, count: 4 }));

    let ranking = summarize_scores(&table);
    let names: Vec<&str> = ranking.iter().map(|s| s.name.as_str()).collect();
    assert_eq!(names, vec!["Ann", "Rae Devan", "Bea"]);
    assert_eq!(ranking[1].points, 100);
    assert_eq!(ranking[1].count, 3);
    assert_eq!(ranking[1].position, 1);
    assert_eq!(ranks(&ranking), vec![1, 1, 1]);
}

#[test]
fn a_series_ranks_by_points() {
    let mut table = ScoreTable::new();
    table.score_one("Low", 50, 0);
    table.score_one("Top", 100, 0);
    table.score_one("Mid", 80, 0);
    table.score_one("Also Mid", 80, 1);
    table.score_one("Zero", 0, 1);
    let ranking = summarize_scores(&table);
    let names: Vec<&str> = ranking.iter().map(|s| s.name.as_str()).collect();
    assert_eq!(names, vec!["Top", "Mid", "Also Mid", "Low", "Zero"]);
    assert_eq!(ranks(&ranking), vec![1, 2, 2, 4, 5]);
    assert!(summarize_scores(&ScoreTable::new()).is_empty());
    assert_eq!(ranks(&vec![]), Vec::<usize>::new());
}

#[test]
fn a_season_adds_up_its_series() {
    let mut first = ScoreTable::new();
    first.score_event(&vec![record("Ann", ms(20, 0), Some(Female)), record("Bea", ms(25, 0), Some(Female))], 0);
    first.score_event(&vec![record("Bea", ms(30, 0), Some(Female))], 1);
    let mut second = ScoreTable::new();
    second.score_event(&vec![record("Carl", ms(18, 0), Some(Male)), record("Bea", ms(40, 0), Some(Female)), record("Ann", ms(80, 0), Some(Female))], 0);
    let mut season = Season::new();
    season.add_series(&first, 0);
    season.add_series(&second, 1);
    season.add_series(&ScoreTable::new(), 2);
    let entries = season.entries();
    assert_eq!(entries.len(), 3);
    assert_eq!(entries[0].name, "Ann");
    assert_eq!(entries[0].scores.len(), 2);
    assert_eq!(entries[0].scores[1].series, 1);
    assert_eq!(entries[0].scores[1].info, ScoreInfo { points: 50, path_index: 0, count: 1 });
    assert_eq!(entries[1].name, "Bea");
    assert_eq!(entries[1].scores[0].info, ScoreInfo { points: 100, path_index: 1, count: 2 });
    assert_eq!(entries[2].name, "Carl");
    assert_eq!(entries[2].scores.len(), 1);

    let ranking = summarize_directories(&season);
    let shown: Vec<(&str, u64, u64)> = ranking.iter().map(|s| (s.name.as_str(), s.points, s.count)).collect();
    assert_eq!(shown, vec![("Bea", 200, 3), ("Ann", 150, 2), ("Carl", 100, 1)]);
    assert_eq!(ranks(&ranking), vec![1, 2, 3]);
    assert!(summarize_directories(&Season::new()).is_empty());
}

#[test]
fn ranks_are_shared_by_equal_points() {
    let standing = |position: usize, points: u64| Standing { position, name: format!("p{position}"), points, count: 1 };
    let ranking = vec![standing(3, 300), standing(0, 200), standing(2, 200), standing(5, 200), standing(1, 100), standing(4, 100), standing(6, 0)];
    assert_eq!(ranks(&ranking), vec![1, 2, 2, 2, 5, 5, 7]);
    assert_eq!(ranks(&vec![standing(0, 0), standing(1, 0)]), vec![1, 1]);
}
