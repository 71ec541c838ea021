use runs::dispatch::{extract, format_at, names_and_times, read_source, Format};
use runs::document::{contents, plain_text, replace_breaks, working_text};
use runs::duration::Duration;
use runs::merge::ResultMatrix;
use runs::report::{leaderboard, lines, summarize_total_times, widths};
use runs::MaleOrFemale::Female;
use runs::Record;

fn hms(h: u32, m: u32, s: u32) -> Duration {
    Duration::new_hour_min_sec(h, m, s)
}

fn record(name: &str, duration: Duration) -> Record {
    Record { name: name.to_string(), duration, category: None }
}

const MHTML: &str = "From: <Saved by Blink>\r\nSnapshot-Content-Location: https://example.com/results\r\nSubject: Results\r\nDate: Mon, 6 May 2024 10:00:00 -0000\r\nMIME-Version: 1.0\r\nContent-Type: multipart/related;\r\n\ttype=\"text/html\";\r\n\tboundary=\"----MultipartBoundary--abc----\"\r\n\r\n\r\n------MultipartBoundary--abc----\r\nContent-Type: text/html\r\nContent-ID: <frame-1@mhtml.blink>\r\nContent-Transfer-Encoding: quoted-printable\r\nContent-Location: https://example.com/results\r\n\r\n<html><body><p>caf=C3=A9<br/>au lait</p></body></html>\r\n------MultipartBoundary--abc----\r\nContent-Type: text/css\r\nContent-Transfer-Encoding: quoted-printable\r\nContent-Location: https://example.com/style.css\r\n\r\np { color: red; }\r\n------MultipartBoundary--abc------\r\n";

#[test]
fn document_takes_the_page_out_of_a_saved_web_page() {
    let text = contents(MHTML.as_bytes());
    assert!(text.starts_with("<html><body><p>café\nau lait</p></body></html>"), "{text:?}");
    assert!(!text.contains("<br/>"));
    assert!(working_text(MHTML.as_bytes()).starts_with("<html><body><p>café<br/>au lait</p></body></html>"));
    assert!(!text.contains("MultipartBoundary"));
    assert!(!text.contains("color: red"));
}

#[test]
fn document_reads_other_sources_as_text() {
    assert_eq!(contents(b"plain text"), "plain text");
    assert_eq!(contents(b""), "");
    assert_eq!(contents(b"a<br/>b<br/>\r\n<br>c"), "a\nb\n\r\n<br>c");
    assert_eq!(contents(b"caf\xc3\xa9 \xff!"), "café \u{fffd}!");
    assert_eq!(plain_text(b"x<br/>\xff<br/>"), "x\n\u{fffd}\n");
    assert_eq!(working_text(b"a<br/>b"), "a<br/>b");
    assert_eq!(replace_breaks("a<br/>b<br/><br/>".to_string()), "a\nb\n\n");
    assert_eq!(replace_breaks("<br />é<BR/>".to_string()), "<br />é<BR/>");
    // The breaks are taken from left to right, and what is left holds none.
    assert_eq!(replace_breaks("<b<br/>r/>é<br/>ü".to_string()), "<b\nr/>é\nü");
    assert!(!replace_breaks("<br/<br/>><br/><br/>".to_string()).contains("<br/>"));
    assert_eq!(plain_text(MHTML.as_bytes()), MHTML.replace("<br/>", "\n"));
    // Without a sender a message is text like any other.
    let unsigned = MHTML.replace("From: <Saved by Blink>\r\n", "");
    assert_eq!(contents(unsigned.as_bytes()), unsigned.replace("<br/>", "\n"));
}

const CHRONO: &str = "[{\"rank\": 1, \"name\": \"Ann Able\", \"bib\": \"7\", \"time\": \"20:00\", \"pace\": \"6:26\", \"hometown\": \"Taos\", \"age\": 33, \"sex\": \"F\", \"division\": \"F30\", \"division_rank\": 1}]";
const ITS_YOUR_RACE: &str = "[{\"rank\": 1, \"name\": \"Ann Able\", \"bib\": \"7\", \"time\": \"20:00\", \"pace\": \"6:26\"}]";
const RUNSIGNUP: &str = "[{\"place\": \"1\", \"name\": \"Ann Able\", \"clock_time\": \"20:00\", \"rank\": 1, \"bib\": \"7\", \"time\": \"21:00\", \"pace\": \"6:26\"}]";

#[test]
fn dispatch_tries_the_layouts_in_order() {
    let order = [
        Format::UltraSignup,
        Format::CcrTiming,
        Format::WebScorer,
        Format::RunFit,
        Format::Runsignup20240506Mhtml,
        Format::Runsignup,
        Format::Athlinks,
        Format::ChronoTrack,
        Format::Taos,
        Format::AncientUltraSignup,
        Format::UltraSignupMhtml,
        Format::RunsignupMhtml,
        Format::RaceRoster,
        Format::ItsYourRace,
        Format::Csv,
        Format::RaceResultMhtml,
    ];
    for (i, format) in order.iter().enumerate() {
        assert_eq!(format_at(i), *format);
    }

    // Rows that two layouts read go to the one that is tried first.
    assert!(names_and_times(Format::ChronoTrack, CHRONO).is_some());
    assert!(names_and_times(Format::ItsYourRace, CHRONO).is_some());
    let records = extract(CHRONO).unwrap();
    assert_eq!(records.len(), 1);
    assert_eq!(records[0].category, Some(Female));
    let records = extract(ITS_YOUR_RACE).unwrap();
    assert_eq!(records[0].category, None);
    assert_eq!(records[0].duration, hms(0, 20, 0));
    let records = extract(RUNSIGNUP).unwrap();
    assert_eq!(records[0].duration, hms(0, 20, 0));
    assert_eq!(names_and_times(Format::ItsYourRace, RUNSIGNUP).unwrap()[0].duration, hms(0, 21, 0));
}

#[test]
fn dispatch_passes_over_what_no_layout_reads() {
    assert!(extract("").is_none());
    assert!(extract("no results here").is_none());
    // A layout that reads a document and finds no finisher does not decide.
    assert_eq!(names_and_times(Format::Runsignup, "[]").unwrap().len(), 0);
    assert_eq!(names_and_times(Format::Csv, "[]").unwrap().len(), 0);
    assert!(extract("[]").is_none());
    assert!(read_source(b"\xff\xfe").is_none());
}

#[test]
fn dispatch_reads_the_same_bytes_the_same_way() {
    let page = MHTML.replace(
        "<html><body><p>caf=C3=A9<br/>au lait</p></body></html>",
        "<table><tbody><tr><td class=3D\"place\">1</td><td class=3D\"participantName\"><div class=3D\"participantName__name__firstName\">Ann</div><div class=3D\"participantName__name__lastName\">Able</div></td><td>F</td><td class=3D\"time\">20:00</td></tr></tbody></table>",
    );
    for source in [CHRONO.as_bytes(), ITS_YOUR_RACE.as_bytes(), page.as_bytes(), b"nothing".as_slice()] {
        assert_eq!(read_source(source), read_source(source));
        assert_eq!(read_source(source), extract(&contents(source)));
    }
    let records = read_source(page.as_bytes()).unwrap();
    assert_eq!(records.len(), 1);
    assert_eq!(records[0].name, "Ann Able");
    assert_eq!(records[0].category, Some(Female));
    assert_eq!(records[0].duration, hms(0, 20, 0));
}

#[test]
fn merge_keeps_a_slot_per_source() {
    let mut table = ResultMatrix::new(3);
    assert_eq!(table.sources(), 3);
    assert!(table.entries().is_empty());
    let none = table.merge(&vec![record("Ann", hms(1, 0, 0)), record("Megan Devan", hms(1, 10, 0))], 0);
    assert!(none.is_empty());
    let none = table.merge(&vec![record("Rae Devan", hms(0, 55, 0)), record("Cy", hms(2, 0, 0))], 2);
    assert!(none.is_empty());
    let entries = table.entries();
    assert_eq!(entries.len(), 3);
    assert_eq!(entries[0].name, "Ann");
    assert_eq!(entries[0].durations, vec![Some(hms(1, 0, 0)), None, None]);
    assert_eq!(entries[1].name, "Rae Devan");
    assert_eq!(entries[1].durations, vec![Some(hms(1, 10, 0)), None, Some(hms(0, 55, 0))]);
    assert_eq!(entries[2].name, "Cy");
    assert_eq!(entries[2].durations, vec![None, None, Some(hms(2, 0, 0))]);
}

#[test]
fn merge_reports_a_second_time_and_keeps_it() {
    let mut table = ResultMatrix::new(2);
    let replaced = table.merge(
        &vec![
            record("Ann", hms(1, 0, 0)),
            record("Bob", hms(1, 5, 0)),
            record("Ann", hms(0, 59, 0)),
            record("Ann", hms(0, 59, 0)),
        ],
        1,
    );
    assert_eq!(replaced.len(), 2);
    assert_eq!(replaced[0].name, "Ann");
    assert_eq!(replaced[0].previous, hms(1, 0, 0));
    assert_eq!(replaced[0].new, hms(0, 59, 0));
    assert_eq!(replaced[1].previous, hms(0, 59, 0));
    assert_eq!(replaced[1].new, hms(0, 59, 0));
    assert_eq!(table.entries()[0].durations, vec![None, Some(hms(0, 59, 0))]);
    assert_eq!(table.entries().len(), 2);
    let previous = table.merge_one("Bob", hms(1, 6, 0), 1).unwrap();
    assert_eq!(previous.previous, hms(1, 5, 0));
    assert!(table.merge_one("Bob", hms(1, 6, 0), 0).is_none());
}

#[test]
fn total_times_list_who_finished_every_source() {
    let mut table = ResultMatrix::new(2);
    table.merge(&vec![record("Ann", hms(1, 0, 0)), record("Bob", hms(1, 10, 0))], 0);
    table.merge(&vec![record("Ann", hms(0, 55, 0))], 1);
    let rows = leaderboard(&table);
    assert_eq!(rows.len(), 1);
    assert_eq!(rows[0].name, "Ann");
    assert_eq!(rows[0].total, hms(1, 55, 0));
    assert_eq!(rows[0].total.to_text(), "1:55:00.0");
    assert_eq!(rows[0].times, vec![hms(1, 0, 0), hms(0, 55, 0)]);
    assert!(rows.iter().all(|row| row.name != "Bob"));
}

#[test]
fn total_times_are_ordered_by_total_then_name() {
    let mut table = ResultMatrix::new(2);
    table.merge(
        &vec![
            record("Dee", hms(1, 0, 0)),
            record("Cy", hms(0, 30, 0)),
            record("Bob", hms(1, 0, 0)),
            record("Ann", hms(2, 0, 0)),
            record("Eve", hms(0, 10, 0)),
        ],
        0,
    );
    table.merge(
        &vec![
            record("Ann", hms(2, 0, 0)),
            record("Bob", hms(0, 30, 0)),
            record("Cy", hms(1, 0, 0)),
            record("Dee", hms(0, 29, 59)),
            record("Fay", hms(0, 10, 0)),
        ],
        1,
    );
    let rows = leaderboard(&table);
    let names: Vec<&str> = rows.iter().map(|row| row.name.as_str()).collect();
    assert_eq!(names, vec!["Dee", "Bob", "Cy", "Ann"]);
    for name in ["Ann", "Bob", "Cy", "Dee", "Eve", "Fay"] {
        let complete = table.entries().iter().any(|e| e.name == name && e.durations.iter().all(|d| d.is_some()));
        assert_eq!(rows.iter().any(|row| row.name == name), complete, "{name}");
    }
    assert_eq!(widths(&rows), (9, 3, vec![9, 9]));
    assert_eq!(rows[0].total.to_text(), "1:29:59.0");

    let empty = ResultMatrix::new(0);
    assert!(leaderboard(&empty).is_empty());
    assert_eq!(widths(&vec![]), (0, 0, vec![]));
    let mut single = ResultMatrix::new(1);
    single.merge(&vec![record("Ann", Duration::max()), record("Bob", hms(0, 0, 1))], 0);
    let rows = leaderboard(&single);
    assert_eq!(rows.len(), 2);
    assert_eq!(rows[0].name, "Bob");
    assert_eq!(widths(&rows), (24, 3, vec![24]));
}

#[test]
fn total_of_times_stops_at_the_longest_duration() {
    let mut table = ResultMatrix::new(2);
    table.merge(&vec![record("Ann", Duration::max())], 0);
    table.merge(&vec![record("Ann", hms(0, 0, 1))], 1);
    let rows = leaderboard(&table);
    assert_eq!(rows[0].total, Duration::max());
}

#[test]
fn total_times_are_set_in_columns() {
    let mut table = ResultMatrix::new(2);
    table.merge(&vec![record("Ann", hms(1, 0, 0)), record("Roberta", hms(0, 9, 59)), record("Cy", hms(9, 0, 0))], 0);
    table.merge(&vec![record("Ann", hms(10, 55, 0)), record("Roberta", hms(0, 10, 1))], 1);
    let rows = leaderboard(&table);
    assert_eq!(widths(&rows), (10, 7, vec![9, 10]));
    assert_eq!(
        lines(&rows),
        vec!["Roberta    20:00.0    9:59.0    10:01.0", "    Ann 11:55:00.0 1:00:00.0 10:55:00.0"]
    );
    assert_eq!(runs::report::line(&rows[0], 0, 0, &vec![3]), "Roberta 20:00.0 9:59.0");
    assert_eq!(runs::report::line(&rows[0], 8, 9, &vec![]), "  Roberta  20:00.0");
    assert!(lines(&vec![]).is_empty());
}

#[test]
fn mode_follows_the_shape_of_the_arguments() {
    let total = runs::mode::Mode::TotalTimes;
    let series = runs::mode::Mode::Series;
    let season = runs::mode::Mode::Season;
    let select = runs::mode::select;
    assert_eq!(select(1, true, true), season);
    assert_eq!(select(1, true, false), series);
    assert_eq!(select(1, false, false), total);
    assert_eq!(select(1, false, true), total);
    assert_eq!(select(0, false, false), total);
    assert_eq!(select(0, true, true), total);
    assert_eq!(select(2, true, true), total);
    assert_eq!(select(2, true, false), total);
}

fn json_source(rows: &[(&str, &str)]) -> Option<Vec<u8>> {
    let rows: Vec<String> = rows
        .iter()
        .enumerate()
        .map(|(i, (name, time))| {
            format!("{{\"rank\": {}, \"name\": \"{name}\", \"bib\": \"{i}\", \"time\": \"{time}\", \"pace\": \"6:26\"}}", i + 1)
        })
        .collect();
    Some(format!("[{}]", rows.join(", ")).into_bytes())
}

#[test]
fn a_run_leads_from_the_bytes_of_the_sources_to_the_leaderboard() {
    let sources = vec![
        json_source(&[("Ann", "1:00:00"), ("Bob", "1:10:00")]),
        json_source(&[("Ann", "0:55:00")]),
    ];
    let summary = summarize_total_times(&sources);
    assert_eq!(summary.rows.len(), 1);
    assert_eq!(summary.rows[0].name, "Ann");
    assert_eq!(summary.rows[0].total, hms(1, 55, 0));
    assert_eq!(summary.rows[0].times, vec![hms(1, 0, 0), hms(0, 55, 0)]);
    assert!(summary.replaced.is_empty());
    assert!(summary.unread.is_empty());
    assert_eq!(lines(&summary.rows), vec!["Ann 1:55:00.0 1:00:00.0 55:00.0"]);
}

#[test]
fn a_run_reports_what_it_replaced_and_what_it_could_not_read() {
    let sources = vec![
        Some(b"nothing to read".to_vec()),
        json_source(&[("Megan Devan", "1:00:00"), ("Bob", "1:10:00"), ("Rae Devan", "0:59:00")]),
        None,
        json_source(&[("Bob", "2:00:00"), ("Rae Devan", "1:00:00")]),
        Some(Vec::new()),
    ];
    let summary = summarize_total_times(&sources);
    assert_eq!(summary.unread, vec![0, 4]);
    assert_eq!(summary.replaced.len(), 1);
    assert_eq!(summary.replaced[0].name, "Rae Devan");
    assert_eq!(summary.replaced[0].previous, hms(1, 0, 0));
    assert_eq!(summary.replaced[0].new, hms(0, 59, 0));
    // Nobody has a time in the sources that gave none.
    assert!(summary.rows.is_empty());

    let read: Vec<Option<Vec<u8>>> = vec![sources[1].clone(), sources[3].clone()];
    let summary = summarize_total_times(&read);
    let shown: Vec<(&str, Duration)> = summary.rows.iter().map(|row| (row.name.as_str(), row.total)).collect();
    assert_eq!(shown, vec![("Rae Devan", hms(1, 59, 0)), ("Bob", hms(3, 10, 0))]);
    assert!(summarize_total_times(&vec![]).rows.is_empty());
}

#[test]
fn a_run_over_the_same_bytes_gives_the_same_rows() {
    let sources = vec![
        json_source(&[("Ann", "1:00:00"), ("Bob", "1:10:00"), ("Ann", "1:00:01")]),
        Some(b"unread".to_vec()),
        json_source(&[("Bob", "0:55:00"), ("Ann", "0:55:00")]),
    ];
    let first = summarize_total_times(&sources);
    let second = summarize_total_times(&sources.clone());
    assert_eq!(lines(&first.rows), lines(&second.rows));
    assert_eq!(first.unread, second.unread);
    assert_eq!(first.replaced.len(), second.replaced.len());
    assert_eq!(first.rows.len(), 0);
    let two = vec![sources[0].clone(), sources[2].clone()];
    assert_eq!(
        lines(&summarize_total_times(&two).rows),
        vec!["Ann 1:55:01.0 1:00:01.0 55:00.0", "Bob 2:05:00.0 1:10:00.0 55:00.0"]
    );
}
