use runs::duration::Duration;
use runs::json::{rows, Json};
use runs::parser::{ancient_ultra_signup, athlinks, chrono_track, its_your_race, runsignup, ultra_signup};
use runs::parser::ancient_ultra_signup::Status;
use runs::MaleOrFemale::{Female, Male};

fn hms(h: u32, m: u32, s: u32) -> Duration {
    Duration::new_hour_min_sec(h, m, s)
}

#[test]
fn json_rows_come_line_by_line() {
    let found = rows("\n [{\"a\": 1}, {\"a\": 2}] \r\n[]\n[{\"a\": 3}]\n\n").unwrap();
    assert_eq!(found.len(), 3);
    match found[2].get("a") {
        Some(Json::Number(Some(3))) => {}
        other => panic!("{other:?}"),
    }
    assert!(rows("").is_none());
    assert!(rows("[1]\n\n[2]").is_none());
    assert!(rows("{\"a\": 1}").is_none());
    assert!(rows("[1] [2]").is_none());
    assert!(rows("[1,]").is_none());
}

#[test]
fn json_members_are_read_by_kind() {
    let value = rows("[{\"t\": \"x\", \"n\": 7, \"f\": 7.5, \"m\": -7, \"z\": null, \"d\": \"1:00\", \"b\": true}]")
        .unwrap()
        .remove(0);
    assert_eq!(value.text("t"), Some("x".to_string()));
    assert_eq!(value.text("n"), None);
    assert_eq!(value.text("missing"), None);
    assert_eq!(value.optional_text("t"), Some(Some("x".to_string())));
    assert_eq!(value.optional_text("z"), Some(None));
    assert_eq!(value.optional_text("missing"), Some(None));
    assert_eq!(value.optional_text("n"), None);
    assert_eq!(value.number("n", 7), Some(7));
    assert_eq!(value.number("n", 6), None);
    assert_eq!(value.number("f", 100), None);
    assert_eq!(value.number("m", 100), None);
    assert_eq!(value.number("t", 100), None);
    assert_eq!(value.positive("n", 100), Some(7));
    assert_eq!(value.optional_positive("n", 100), Some(Some(7)));
    assert_eq!(value.optional_positive("z", 100), Some(None));
    assert_eq!(value.optional_positive("missing", 100), Some(None));
    assert_eq!(value.optional_positive("t", 100), None);
    assert_eq!(value.optional_positive("n", 6), None);
    assert!(value.is_number("n") && value.is_number("f") && value.is_number("m"));
    assert!(!value.is_number("t") && !value.is_number("z") && !value.is_number("missing"));
    assert_eq!(value.duration("d"), Some(Duration::new(60, 0).unwrap()));
    assert_eq!(value.duration("t"), None);
    assert_eq!(value.duration("n"), None);
    assert!(value.get("b").is_some());
    assert!(value.items().is_none());
    assert!(Json::Null.get("t").is_none());
}

#[test]
fn runsignup_reads_place_name_and_clock_time() {
    let text = "[{\"place\": \"1\", \"name\": \"Ann Able\", \"clock_time\": \"20:00\", \"bib\": \"7\"},\n {\"place\": \"2\", \"name\": \"Bob Baker\", \"clock_time\": \"1:10:00.5\"}]\n[{\"place\": \"3\", \"name\": \"Cy\", \"clock_time\": \"2:00:00\"}]\n";
    // An array may not run over several lines.
    assert!(runsignup::Placement::names_and_times(text).is_none());

    let text = "[{\"place\": \"1\", \"name\": \"Ann Able\", \"clock_time\": \"20:00\", \"bib\": \"7\"}, {\"place\": \"2\", \"name\": \"Bob Baker\", \"clock_time\": \"1:10:00.5\"}]\n[{\"place\": \"3\", \"name\": \"Cy\", \"clock_time\": \"2:00:00\"}]\n";
    let placements = runsignup::Placement::results(text).unwrap();
    assert_eq!(placements.len(), 3);
    assert_eq!(placements[1].place, "2");
    let records = runsignup::Placement::names_and_times(text).unwrap();
    assert_eq!(records.len(), 3);
    assert_eq!(records[0].name, "Ann Able");
    assert_eq!(records[0].duration, hms(0, 20, 0));
    assert_eq!(records[0].category, None);
    assert_eq!(records[1].duration, Duration::new(4200, 500_000_000).unwrap());
    assert_eq!(records[2].name, "Cy");

    assert!(runsignup::Placement::names_and_times("[{\"place\": 1, \"name\": \"A\", \"clock_time\": \"20:00\"}]").is_none());
    assert!(runsignup::Placement::names_and_times("[{\"place\": \"1\", \"name\": \"A\", \"clock_time\": \"soon\"}]").is_none());
    assert!(runsignup::Placement::names_and_times("[{\"place\": \"1\", \"name\": \"A\"}]").is_none());
    assert_eq!(runsignup::Placement::names_and_times("[]").unwrap().len(), 0);
}

const CHRONO: &str = "[{\"rank\": 1, \"name\": \"Ann Able\", \"bib\": \"7\", \"time\": \"20:00\", \"pace\": \"6:26\", \"hometown\": \"Taos\", \"age\": 33, \"sex\": \"F\", \"division\": \"F30\", \"division_rank\": 1}, {\"rank\": 2, \"name\": \"Bob Baker\", \"bib\": \"8\", \"time\": \"21:00\", \"pace\": \"6:46\", \"hometown\": \"\", \"age\": null, \"sex\": \"Male\", \"division\": \"M\", \"division_rank\": 1}]";

#[test]
fn chrono_track_reads_its_rows() {
    let placements = chrono_track::Placement::results(CHRONO).unwrap();
    assert_eq!(placements[0].rank, 1);
    assert_eq!(placements[0].age, Some(33));
    assert_eq!(placements[1].age, None);
    assert_eq!(placements[1].pace, Duration::new(406, 0).unwrap());
    let records = chrono_track::Placement::names_and_times(CHRONO).unwrap();
    assert_eq!(records.len(), 2);
    assert_eq!(records[0].name, "Ann Able");
    assert_eq!(records[0].duration, hms(0, 20, 0));
    assert_eq!(records[0].category, Some(Female));
    assert_eq!(records[1].category, Some(Male));

    assert!(chrono_track::Placement::names_and_times(&CHRONO.replace("\"rank\": 1,", "\"rank\": 0,")).is_none());
    assert!(chrono_track::Placement::names_and_times(&CHRONO.replace("\"age\": 33", "\"age\": 0")).is_none());
    assert!(chrono_track::Placement::names_and_times(&CHRONO.replace("\"age\": 33", "\"age\": 256")).is_none());
    assert!(chrono_track::Placement::names_and_times(&CHRONO.replace("\"division\": \"M\",", "")).is_none());
    // The same rows are no rows of the layouts that ask for more.
    assert!(athlinks::Placement::names_and_times(CHRONO).is_some());
    assert!(its_your_race::Placement::names_and_times(CHRONO).is_some());
    assert!(runsignup::Placement::names_and_times(CHRONO).is_none());
}

#[test]
fn athlinks_reads_its_rows() {
    let text = "[{\"name\": \"Ann Able\", \"sex\": \"F\", \"age\": 33, \"bib\": \"7\", \"hometown\": \"Taos\", \"rank\": 1, \"gender_rank\": 1, \"division_rank\": 1, \"pace\": \"6:26\", \"time\": \"20:00\"}, {\"name\": \"Uma\", \"sex\": \"U\", \"bib\": \"9\", \"hometown\": \"\", \"rank\": 2, \"gender_rank\": null, \"division_rank\": 2, \"pace\": \"7:00\", \"time\": \"22:00\"}]";
    let placements = athlinks::Placement::results(text).unwrap();
    assert_eq!(placements[0].gender_rank, Some(1));
    assert_eq!(placements[1].gender_rank, None);
    assert_eq!(placements[1].age, None);
    let records = athlinks::Placement::names_and_times(text).unwrap();
    assert_eq!(records[0].category, Some(Female));
    assert_eq!(records[1].name, "Uma");
    assert_eq!(records[1].category, None);
    assert_eq!(records[1].duration, hms(0, 22, 0));
    assert!(athlinks::Placement::names_and_times(&text.replace("\"gender_rank\": 1,", "\"gender_rank\": \"1\",")).is_none());
    assert!(chrono_track::Placement::names_and_times(text).is_none());
}

#[test]
fn its_your_race_reads_its_rows() {
    let text = "[{\"rank\": 1, \"name\": \"Ann Able\", \"bib\": \"7\", \"time\": \"20:00\", \"pace\": \"6:26\"}]\n[{\"rank\": 2, \"name\": \"Bob Baker\", \"bib\": \"8\", \"time\": \"1260000\", \"pace\": \"6:46\"}]";
    let records = its_your_race::Placement::names_and_times(text).unwrap();
    assert_eq!(records.len(), 2);
    assert_eq!(records[0].category, None);
    assert_eq!(records[1].duration, hms(0, 21, 0));
    assert!(its_your_race::Placement::names_and_times(&text.replace("\"bib\": \"7\", ", "")).is_none());
    assert!(its_your_race::Placement::names_and_times("not json").is_none());
}

fn entrant(place: u32, first: &str, last: &str, gender: &str, time: &str) -> String {
    format!(
        "{{\"place\": {place}, \"first\": \"{first}\", \"last\": \"{last}\", \"city\": \"Taos\", \"state\": null, \"age\": 33, \"gender\": \"{gender}\", \"gp\": {place}, \"time\": \"{time}\", \"rank\": 97.44}}"
    )
}

#[test]
fn ultra_signup_reads_the_group_of_finishers() {
    let text = format!(
        "[[{{\"status\": \"DidNotStart\", \"count\": 1}}, [{}]], [{{\"status\": \"Finishers\", \"count\": 2}}, [{}, {}]], [{{\"status\": \"Finishers\", \"count\": 1}}, [{}]]]",
        entrant(0, "Dee", "Ennes", "F", "0:00"),
        entrant(1, "Ann", "Able", "F", "4:33:25"),
        entrant(2, "Bob", "Baker", "M", "5:00:00"),
        entrant(3, "Cy", "Cole", "M", "6:00:00"),
    );
    let found = ultra_signup::StatusesWithPlacements::results(&text).unwrap();
    assert_eq!(found.0.len(), 3);
    assert_eq!(found.0[0].heading.status, ultra_signup::Status::DidNotStart);
    assert_eq!(found.0[1].heading.count, 2);
    assert_eq!(found.0[1].placements[0].city.as_deref(), Some("Taos"));
    assert_eq!(found.0[1].placements[0].state, None);
    let records = ultra_signup::StatusesWithPlacements::names_and_times(&text).unwrap();
    assert_eq!(records.len(), 2);
    assert_eq!(records[0].name, "Ann Able");
    assert_eq!(records[0].duration, hms(4, 33, 25));
    assert_eq!(records[0].category, Some(Female));
    assert_eq!(records[1].name, "Bob Baker");
    assert_eq!(records[1].category, Some(Male));

    // Every group must be well formed, also those that are passed over.
    assert!(ultra_signup::StatusesWithPlacements::names_and_times(&text.replace("DidNotStart", "Unknown")).is_none());
    assert!(ultra_signup::StatusesWithPlacements::names_and_times(&text.replace("\"rank\": 97.44", "\"rank\": \"97\"")).is_none());
    assert!(ultra_signup::StatusesWithPlacements::names_and_times(&text.replace("\"time\": \"0:00\"", "\"time\": \"\"")).is_none());
    // No group of finishers, no finishers.
    let none = format!("[[{{\"status\": \"Disqualified\", \"count\": 1}}, [{}]]]", entrant(0, "Dee", "Ennes", "F", "0:00"));
    assert!(ultra_signup::StatusesWithPlacements::results(&none).is_some());
    assert!(ultra_signup::StatusesWithPlacements::names_and_times(&none).is_none());
    assert!(ultra_signup::StatusesWithPlacements::names_and_times("[[1, 2, 3]]").is_none());
    assert!(ultra_signup::StatusesWithPlacements::names_and_times("{}").is_none());
}

fn ancient(first: &str, last: &str, gender: &str, status: u32, time: &str) -> String {
    format!(
        "{{\"age\": 30, \"age_rank\": 0, \"agegroup\": \"30-39\", \"bib\": \"1\", \"city\": \"Tucson\", \"drilldown\": 0, \"firstname\": \"{first}\", \"formattime\": \"4:33:25\", \"gender\": \"{gender}\", \"gender_place\": 1, \"lastname\": \"{last}\", \"participant_id\": 809059, \"photo_count\": 0, \"place\": 1, \"prior_count\": 0, \"race_count\": 0, \"runner_rank\": 97.44, \"state\": \"AZ\", \"status\": {status}, \"time\": \"{time}\"}}"
    )
}

#[test]
fn ancient_ultra_signup_reads_the_finished() {
    let text = format!(
        "[{}, {}, {}, {}]",
        ancient("Craig", "Curley", "M", 1, "16405000"),
        ancient("Dee", "Ennes", "F", 3, "0"),
        ancient("Ann", "Able", "F", 1, "18000500"),
        ancient("Dan", "Quit", "M", 2, "0"),
    );
    let placements = ancient_ultra_signup::Placement::results(&text).unwrap();
    assert_eq!(placements.len(), 4);
    assert_eq!(placements[0].name, "Craig Curley");
    assert_eq!(placements[0].status, ancient_ultra_signup::Status::Finished);
    assert_eq!(placements[0].time, hms(4, 33, 25));
    assert_eq!(placements[0].participant_id, 809059);
    assert_eq!(placements[1].status, ancient_ultra_signup::Status::DidNotStart);
    assert_eq!(placements[3].status, ancient_ultra_signup::Status::DidNotFinish);
    let records = ancient_ultra_signup::Placement::names_and_times(&text).unwrap();
    assert_eq!(records.len(), 2);
    assert_eq!(records[0].name, "Craig Curley");
    assert_eq!(records[0].category, Some(Male));
    assert_eq!(records[1].name, "Ann Able");
    assert_eq!(records[1].duration, Duration::new(18000, 500_000_000).unwrap());

    assert!(ancient_ultra_signup::Placement::names_and_times(&text.replace("\"status\": 3", "\"status\": 4")).is_none());
    assert!(ancient_ultra_signup::Placement::names_and_times(&text.replace("\"time\": \"16405000\"", "\"time\": \"4:33:25\"")).is_none());
    assert!(ancient_ultra_signup::Placement::names_and_times(&text.replace("\"age\": 30", "\"age\": 300")).is_none());
    assert!(ancient_ultra_signup::Placement::names_and_times(&text.replace("\"state\": \"AZ\", ", "")).is_none());
}

#[test]
fn ancient_ultra_signup_knows_the_status_codes() {
    assert_eq!(Status::from_code(1), Some(Status::Finished));
    assert_eq!(Status::from_code(2), Some(Status::DidNotFinish));
    assert_eq!(Status::from_code(3), Some(Status::DidNotStart));
    assert_eq!(Status::from_code(5), Some(Status::Disqualified));
    for code in [0, 4, 6, 255, 256] {
        assert_eq!(Status::from_code(code), None);
    }
}
