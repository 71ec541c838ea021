use runs::duration::Duration;
use runs::parser::ultra_signup_mhtml::StatusesWithPlacements;
use runs::MaleOrFemale;

fn cell(field: &str, text: &str) -> String {
    format!("<td aria-describedby=\"list_{field}\">{text}</td>")
}

fn row(place: &str, first: &str, last: &str, gender: &str, gp: &str, time: &str) -> String {
    let mut row = String::from("<tr class=\"ui-row\">");
    row.push_str(&cell("results", "results"));
    row.push_str(&cell("place", place));
    row.push_str(&cell("firstname", first));
    row.push_str(&cell("lastname", last));
    row.push_str(&cell("city", "Taos"));
    row.push_str(&cell("state", "NM"));
    row.push_str(&cell("age", "33"));
    row.push_str(&cell("gender", gender));
    row.push_str(&cell("gender_place", gp));
    row.push_str(&cell("formattime", time));
    row.push_str(&cell("runner_rank", "97.44"));
    row.push_str("</tr>");
    row
}

fn heading(text: &str) -> String {
    format!("<tr class=\"ListGHead_0\"><td colspan=\"9\"><b>{text}</b></td></tr>")
}

fn page(rows: &[String]) -> String {
    format!(
        "<html><body><table id=\"list\"><thead><tr><th>Results</th></tr></thead><tbody>{}</tbody></table></body></html>",
        rows.concat()
    )
}

#[test]
fn ultra_signup_mhtml_reads_the_finishers() {
    let text = page(&[
        row("9", "Early", "Bird", "M", "9", "1:00:00"),
        heading("Did Not Start - 1"),
        row("0", "Dee", "Ennes", "F", "0", ""),
        heading("Finishers - 2"),
        row("1", "Ann", "Able", "F", "1", "4:33:25"),
        row("2", "Bob", "Baker", "M", "1", "5:01:02.5"),
        row("x", "Bad", "Place", "M", "1", "5:00:00"),
        heading("Did Not Finish - 1"),
        row("0", "Cee", "Cole", "X", "0", "9:99"),
    ]);
    let found = StatusesWithPlacements::results(&text).unwrap();
    assert_eq!(found.0.len(), 3);
    assert_eq!(found.0[0].heading.status, "Did Not Start");
    assert_eq!(found.0[0].heading.count, 1);
    assert_eq!(found.0[0].placements.len(), 1);
    assert_eq!(found.0[0].placements[0].time, Duration::new(9_999_999, 0).unwrap());
    assert_eq!(found.0[1].placements.len(), 2);
    assert_eq!(found.0[1].placements[0].city.as_deref(), Some("Taos"));
    assert_eq!(found.0[1].placements[0].age, 33);
    assert_eq!(found.0[2].heading.status, "Did Not Finish");
    assert_eq!(found.0[2].placements.len(), 1);

    let records = StatusesWithPlacements::names_and_times(&text).unwrap();
    assert_eq!(records.len(), 2);
    assert_eq!(records[0].name, "Ann Able");
    assert_eq!(records[0].duration, Duration::new_hour_min_sec(4, 33, 25));
    assert_eq!(records[0].category, Some(MaleOrFemale::Female));
    assert_eq!(records[1].name, "Bob Baker");
    assert_eq!(records[1].duration, Duration::new(5 * 3600 + 62, 500_000_000).unwrap());
    assert_eq!(records[1].category, Some(MaleOrFemale::Male));
}

#[test]
fn ultra_signup_mhtml_needs_a_heading_and_finishers() {
    let no_heading = page(&[row("1", "Ann", "Able", "F", "1", "4:33:25")]);
    assert!(StatusesWithPlacements::results(&no_heading).is_none());
    assert!(StatusesWithPlacements::names_and_times(&no_heading).is_none());

    let no_finishers = page(&[heading("Did Not Start - 1"), row("0", "Dee", "Ennes", "F", "0", "")]);
    assert!(StatusesWithPlacements::results(&no_finishers).is_some());
    assert!(StatusesWithPlacements::names_and_times(&no_finishers).is_none());

    let bad_headings = page(&[heading("Finishers - two"), heading("Finishers - 1 - 2")]);
    assert!(StatusesWithPlacements::results(&bad_headings).is_none());
    assert!(StatusesWithPlacements::names_and_times("plain text").is_none());
}

#[test]
fn ultra_signup_mhtml_takes_the_last_cell_of_a_column() {
    let mut twice = row("1", "Ann", "Able", "F", "1", "4:33:25");
    twice = twice.replace("</tr>", &format!("{}</tr>", cell("lastname", "Baker")));
    let text = page(&[heading("Finishers - 1"), twice]);
    let records = StatusesWithPlacements::names_and_times(&text).unwrap();
    assert_eq!(records[0].name, "Ann Baker");
}
