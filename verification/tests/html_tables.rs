use runs::duration::Duration;
use runs::parser::{race_result_mhtml, race_roster, runsignup_20240506_mhtml};
use runs::MaleOrFemale::{Female, Male, NonBinary};

fn hms(h: u32, m: u32, s: u32) -> Duration {
    Duration::new_hour_min_sec(h, m, s)
}

fn table(attributes: &str, headers: &[&str], rows: &[Vec<&str>]) -> String {
    let mut text = format!("<html><body><div>Results</div><table {attributes}><thead><tr>");
    for header in headers {
        text.push_str(&format!("<th>{header}</th>"));
    }
    text.push_str("</tr></thead><tbody>");
    for row in rows {
        text.push_str("<tr>");
        for cell in row {
            text.push_str(&format!("<td>{cell}</td>"));
        }
        text.push_str("</tr>");
    }
    text.push_str("</tbody></table></body></html>");
    text
}

const RESULT_HEADERS: [&str; 9] =
    ["Place", "Bib", "Name", "City, ST", "Country", "Gender", "13.1M", "Final Time", "Pace"];

fn result_rows() -> Vec<Vec<&'static str>> {
    vec![
        vec!["1", "12", "Carl Cole", "Taos, NM", "US", "1/228", "1:20:00", "2:45:00", "6:18"],
        vec!["2", "15", "Ann Able", "", "US", "1/70", "1:30:00", "3:00:00", "6:52"],
        vec!["3", "18", "Bob Baker", "Taos, NM", "US", "2/228", "1:31:00", "3:00:01", "6:52"],
        vec!["DNF", "19", "Dan Quit", "Taos, NM", "US", "3/228", "1:31:00", "", ""],
        vec!["4", "20", "Xan Xu", "Taos, NM", "US", "1/3", "1:40:00", "3:20:00", "7:38"],
        vec!["5", "21", "Bea Bell", "Taos, NM", "US", "2/70", "1:40:00", "3:20:00", "7:38"],
    ]
}

#[test]
fn race_result_reads_the_table_and_tells_the_sexes() {
    let text = table("class=\"MainTable\"", &RESULT_HEADERS, &result_rows());
    let records = race_result_mhtml::names_and_times(&text).unwrap();
    let names: Vec<&str> = records.iter().map(|r| r.name.as_str()).collect();
    assert_eq!(names, vec!["Carl Cole", "Ann Able", "Bob Baker", "Xan Xu", "Bea Bell"]);
    assert_eq!(records[0].duration, hms(2, 45, 0));
    assert_eq!(records[2].duration, hms(3, 0, 1));
    let categories: Vec<_> = records.iter().map(|r| r.category).collect();
    assert_eq!(categories, vec![Some(Male), Some(Female), Some(Male), Some(NonBinary), Some(Female)]);
}

#[test]
fn race_result_gives_no_category_where_the_counts_do_not_tell() {
    let mut rows = result_rows();
    rows.retain(|row| row[5].ends_with("/228"));
    let text = table("class=\"MainTable\"", &RESULT_HEADERS, &rows);
    let records = race_result_mhtml::names_and_times(&text).unwrap();
    assert_eq!(records.len(), 2);
    assert!(records.iter().all(|r| r.category.is_none()));

    let rows = vec![
        vec!["1", "12", "Carl Cole", "", "US", "first", "", "2:45:00", "6:18"],
        vec!["2", "15", "Ann Able", "", "US", "1/70", "", "3:00:00", "6:52"],
        vec!["3", "16", "Bea Bell", "", "US", "2/71", "", "3:00:00", "6:52"],
    ];
    let text = table("class=\"MainTable\"", &RESULT_HEADERS, &rows);
    let records = race_result_mhtml::names_and_times(&text).unwrap();
    let categories: Vec<_> = records.iter().map(|r| r.category).collect();
    assert_eq!(categories, vec![None, Some(Female), Some(Male)]);
}

#[test]
fn race_result_needs_its_table_its_columns_and_a_row() {
    let rows = result_rows();
    assert!(race_result_mhtml::names_and_times(&table("class=\"Other\"", &RESULT_HEADERS, &rows)).is_none());
    assert!(race_result_mhtml::names_and_times(&table("id=\"MainTable\"", &RESULT_HEADERS, &rows)).is_none());
    let mut headers = RESULT_HEADERS;
    headers[8] = "Speed";
    assert!(race_result_mhtml::names_and_times(&table("class=\"MainTable\"", &headers, &rows)).is_none());
    assert!(race_result_mhtml::names_and_times(&table("class=\"MainTable\"", &RESULT_HEADERS, &[])).is_none());
    let unreadable = vec![vec!["DNF", "19", "Dan Quit", "", "US", "3/228", "", "", ""]];
    assert!(race_result_mhtml::names_and_times(&table("class=\"MainTable\"", &RESULT_HEADERS, &unreadable)).is_none());
    assert!(race_result_mhtml::names_and_times("").is_none());

    // Of two tables the first decides.
    let two = format!(
        "{}{}",
        table("class=\"MainTable\"", &RESULT_HEADERS, &rows[..1]),
        table("class=\"MainTable\"", &RESULT_HEADERS, &rows)
    );
    assert_eq!(race_result_mhtml::names_and_times(&two).unwrap().len(), 1);
    // Of two columns with one header the last decides.
    let mut headers = RESULT_HEADERS;
    headers[6] = "Final Time";
    let records = race_result_mhtml::names_and_times(&table("class=\"MainTable\"", &headers, &rows)).unwrap();
    assert_eq!(records[0].duration, hms(2, 45, 0));
}

const SIGNUP_HEADERS: [&str; 10] =
    ["Place", "Bib", "Name", "Gender", "Gender Place", "Age", "City", "State", "Chip Time", "Pace"];

fn signup_name(first: &str, last: &str) -> String {
    format!(
        "<div class=\"participantName\"><div class=\"participantName__name\"><div class=\"participantName__name__firstName\">{first}</div><div class=\"participantName__name__lastName\">{last}</div></div></div>"
    )
}

#[test]
fn runsignup_20240506_reads_the_table() {
    let ann = signup_name("Ann", "Able");
    let bob = signup_name("Bob", "Baker");
    let nameless = "<div class=\"participantName__name__firstName\">Cy</div>".to_string();
    let rows = vec![
        vec!["1", "7", ann.as_str(), "F", "1", "33", "Taos", "NM", "20:00", "6:26"],
        vec!["2", "8", bob.as_str(), "M", "1", "40", "", "", "21:00.5", "6:46"],
        vec!["3", "9", nameless.as_str(), "M", "2", "41", "", "", "22:00", "7:00"],
        vec!["4", "10", ann.as_str(), "Female", "2", "33", "", "", "23:00", "7:10"],
        vec!["5", "0", ann.as_str(), "F", "3", "33", "", "", "23:00", "7:10"],
    ];
    let text = table("id=\"resultsTable\"", &SIGNUP_HEADERS, &rows);
    let placements = runsignup_20240506_mhtml::Placement::results(&text).unwrap();
    assert_eq!(placements.len(), 2);
    assert_eq!(placements[0].city.as_deref(), Some("Taos"));
    assert_eq!(placements[1].city, None);
    assert_eq!(placements[1].gender_place, 1);
    let records = runsignup_20240506_mhtml::Placement::names_and_times(&text).unwrap();
    assert_eq!(records.len(), 2);
    assert_eq!(records[0].name, "Ann Able");
    assert_eq!(records[0].duration, hms(0, 20, 0));
    assert_eq!(records[0].category, Some(Female));
    assert_eq!(records[1].name, "Bob Baker");
    assert_eq!(records[1].duration, Duration::new(1260, 500_000_000).unwrap());
    assert_eq!(records[1].category, Some(Male));

    assert!(runsignup_20240506_mhtml::Placement::names_and_times(&table("id=\"other\"", &SIGNUP_HEADERS, &rows)).is_none());
    let mut headers = SIGNUP_HEADERS;
    headers[4] = "Sex Place";
    assert!(runsignup_20240506_mhtml::Placement::names_and_times(&table("id=\"resultsTable\"", &headers, &rows)).is_none());
}

const ROSTER_HEADERS: [&str; 10] = [
    "Bib", "Name", "Age", "Gender", "Age Group", "City", "State", "Chip Time", "Overall Place", "Team",
];

fn roster(rows: &[Vec<&str>]) -> String {
    let headers: Vec<String> = ROSTER_HEADERS.iter().map(|h| format!("<div><span>{h}</span></div>")).collect();
    let headers: Vec<&str> = headers.iter().map(|h| h.as_str()).collect();
    table("", &headers, rows)
}

#[test]
fn race_roster_reads_every_row_or_none() {
    let rows = vec![
        vec!["7", "Ann Able", "33", "Female", "F30-39", "Taos", "NM", "3:00:00", "2", ""],
        vec!["8", "Bob Baker", "40", "M", "M40-49", "", "", "2:45:00", "1"],
        vec!["9", "Uma", "50", "", "", "", "", "4:00:00", "0", ""],
    ];
    let text = roster(&rows);
    let records = race_roster::Placement::names_and_times(&text).unwrap();
    assert_eq!(records.len(), 3);
    assert_eq!(records[0].name, "Ann Able");
    assert_eq!(records[0].duration, hms(3, 0, 0));
    assert_eq!(records[0].category, Some(Female));
    assert_eq!(records[1].category, Some(Male));
    assert_eq!(records[2].category, None);

    // One row that cannot be read spoils the page.
    let mut spoiled = rows.clone();
    spoiled.push(vec!["10", "Dan Quit", "", "M", "M40-49", "", "", "DNF", "", ""]);
    assert!(race_roster::Placement::names_and_times(&roster(&spoiled)).is_none());
    let mut short = rows.clone();
    short.push(vec!["10", "Dan Quit", "44"]);
    assert!(race_roster::Placement::names_and_times(&roster(&short)).is_none());
    // A page without rows has no finishers, and is read all the same.
    assert_eq!(race_roster::Placement::names_and_times(&roster(&[])).unwrap().len(), 0);
    // Headers of another shape are no headers.
    assert!(race_roster::Placement::names_and_times(&table("", &ROSTER_HEADERS, &rows)).is_none());
    assert!(race_roster::Placement::names_and_times("<p>nothing</p>").is_none());
}
