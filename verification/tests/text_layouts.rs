use runs::duration::Duration;
use runs::parser::{csv, run_fit, runsignup_mhtml, taos};
use runs::MaleOrFemale::{Female, Male, NonBinary};

fn ms(m: u64, s: u64) -> Duration {
    Duration::new(m * 60 + s, 0).unwrap()
}

const RUN_FIT_OPENING: &str = "<html><table border=0 cellpadding=0 cellspacing=0 class=\"racetable\">\n";

fn run_fit_row(cells: &[&str]) -> String {
    let mut row = String::from("  <tr>\n");
    for cell in cells {
        row.push_str(&format!("    <td class=d01> {cell} </td>\n"));
    }
    row.push_str("  </tr>\n");
    row
}

#[test]
fn run_fit_reads_rows_between_headings() {
    let heading = "<tr><td class=h01>Place</td><td class=h01>Name</td></tr>\n";
    let banner = "<tr>\n<td class=d02 colspan=\"10\">Page 2</td></tr>\n";
    let text = format!(
        "{RUN_FIT_OPENING}{heading}{}{banner}{heading}{}{}{}</table>",
        run_fit_row(&["2", "Bob Baker", "Taos", "8", "40", "M", "1:M40", "21:00", "21:05", "6:46/M"]),
        run_fit_row(&["1", "Ann Able", "", "7", "", "F", "1:Open", "0:00", "20:00", "20:05", "6:26/M"]),
        run_fit_row(&["3", "Cy Cole", "Taos", "9", "41", "", "22:00"]),
        run_fit_row(&["2", "Bob Baker", "Taos", "8", "40", "M", "1:M40", "21:00", "21:05", "6:46/M"]),
    );
    let placements = run_fit::Placement::results(&text).unwrap();
    assert_eq!(placements.len(), 4);
    assert_eq!(placements[0].place, 2);
    assert_eq!(placements[0].city.as_deref(), Some("Taos"));
    assert_eq!(placements[0].age, Some(40));
    assert_eq!(placements[0].gender, Some(Male));
    assert_eq!(placements[0].age_group_place.as_deref(), Some("1:M40"));
    assert_eq!(placements[0].chip_time, ms(21, 0));
    assert_eq!(placements[0].gun_time, Some(ms(21, 5)));
    assert_eq!(placements[0].pace.as_deref(), Some("6:46/M"));
    // A time before the chip time is passed over.
    assert_eq!(placements[1].city, None);
    assert_eq!(placements[1].age, None);
    assert_eq!(placements[1].chip_time, ms(20, 0));
    assert_eq!(placements[1].gun_time, Some(ms(20, 5)));
    // An empty gender cell is taken for the place in the age group.
    assert_eq!(placements[2].gender, None);
    assert_eq!(placements[2].age_group_place.as_deref(), Some(""));
    assert_eq!(placements[2].chip_time, ms(22, 0));
    assert_eq!(placements[2].gun_time, None);
    assert_eq!(placements[2].pace, None);

    let records = run_fit::Placement::names_and_times(&text).unwrap();
    let names: Vec<&str> = records.iter().map(|r| r.name.as_str()).collect();
    assert_eq!(names, vec!["Ann Able", "Bob Baker", "Cy Cole"]);
    assert_eq!(records[0].category, Some(Female));
    assert_eq!(records[1].duration, ms(21, 0));
}

#[test]
fn run_fit_takes_the_first_shape_of_times_that_fits() {
    // Where the pace reads as a time, the first shape fits: the first cell
    // is passed over and the pace is taken for the gun time.
    let text = format!(
        "{RUN_FIT_OPENING}{}",
        run_fit_row(&["1", "Ann Able", "", "7", "33", "X", "1:Open", "20:00", "20:05", "6:26"]),
    );
    let placements = run_fit::Placement::results(&text).unwrap();
    assert_eq!(placements[0].gender, Some(NonBinary));
    assert_eq!(placements[0].chip_time, ms(20, 5));
    assert_eq!(placements[0].gun_time, Some(ms(6, 26)));
    assert_eq!(placements[0].pace, None);
}

#[test]
fn run_fit_needs_its_table_and_a_row() {
    let row = run_fit_row(&["1", "Ann Able", "", "7", "33", "F", "1:Open", "20:00", "20:05", "6:26/M"]);
    assert!(run_fit::Placement::names_and_times(&row).is_none());
    assert!(run_fit::Placement::names_and_times(RUN_FIT_OPENING).is_none());
    let zero = run_fit_row(&["0", "Ann Able", "", "7", "33", "F", "1:Open", "20:00", "20:05", "6:26/M"]);
    assert!(run_fit::Placement::names_and_times(&format!("{RUN_FIT_OPENING}{zero}")).is_none());
    let timeless = run_fit_row(&["1", "Ann Able", "", "7", "33", "F", "1:Open", "DNF"]);
    assert!(run_fit::Placement::names_and_times(&format!("{RUN_FIT_OPENING}{timeless}")).is_none());
    assert_eq!(run_fit::Placement::names_and_times(&format!("{RUN_FIT_OPENING}{row}{zero}")).unwrap().len(), 1);
}

#[test]
fn taos_reads_its_lines() {
    let text = "<html>Place\tBib\tTime\tFirst\tLast\tGroup\tCity\tState\tSex\tAge<br>1\t7\t21:00\tBob\tBaker\tM40\tTaos\tNM\tM\t40<br>2\t&nbsp;8&nbsp;\t20:00\t&nbsp;Ann\tAble&nbsp;&nbsp;\tF30\tEl&nbsp;Prado\tNM\tF\t33<br>1\t7\t21:00\tBob\tBaker\tM40\tTaos\tNM\tM\t40<br>\n4\t9\t22:00\tNever\tRead\tM40\tTaos\tNM\tM\t40<br>";
    let placements = taos::Placement::results(text).unwrap();
    assert_eq!(placements.len(), 3);
    assert_eq!(placements[1].rank, 2);
    assert_eq!(placements[1].bib, "8");
    assert_eq!(placements[1].first_name, "Ann");
    assert_eq!(placements[1].last_name, "Able");
    assert_eq!(placements[1].city, "El Prado");
    assert_eq!(placements[1].age, 33);
    assert_eq!(placements[1].name(), "Ann Able");
    let records = taos::Placement::names_and_times(text).unwrap();
    assert_eq!(records.len(), 2);
    assert_eq!(records[0].name, "Ann Able");
    assert_eq!(records[0].duration, ms(20, 0));
    assert_eq!(records[0].category, Some(Female));
    assert_eq!(records[1].name, "Bob Baker");
    assert_eq!(records[1].category, Some(Male));

    assert!(taos::Placement::names_and_times("Age<br>").is_none());
    assert!(taos::Placement::names_and_times("1\t7\t21:00\tBob\tBaker\tM40\tTaos\tNM\tM\t40<br>").is_none());
    assert!(taos::Placement::names_and_times("Age<br>0\t7\t21:00\tBob\tBaker\tM40\tTaos\tNM\tM\t40<br>").is_none());
    assert!(taos::Placement::names_and_times("Age<br>1\t7\t21:00\tBob\tBaker\tM40\tTaos\tNM\tM\tforty<br>").is_none());
    assert!(taos::Placement::names_and_times("Age<br>1\t7\tsoon\tBob\tBaker\tM40\tTaos\tNM\tM\t40<br>").is_none());
    assert!(taos::Placement::names_and_times("Age<br>1\t7\t21:00\tBob\tBaker\tM40\tTaos\tNM\tM\t40").is_none());
}

#[test]
fn taos_placement_is_made_of_its_fields() {
    let p = taos::Placement::new(
        3,
        "9".to_string(),
        ms(22, 0),
        "Cy".to_string(),
        "Cole".to_string(),
        "M40".to_string(),
        "Taos".to_string(),
        "NM".to_string(),
        "M".to_string(),
        41,
    );
    assert_eq!(p.rank, 3);
    assert_eq!(p.time, ms(22, 0));
    assert_eq!(p.name(), "Cy Cole");
    assert_eq!(p.age, 41);
}

fn signup_row(place: &str, first: &str, last: &str, gender: &str, time: &str) -> String {
    format!(
        "<tr class=\"row\" data-id=\"1\">\n<td class=\"place\">{place}</td><td class=\"bib\">7</td>\n<td class=\"participantName\"><div class=\"participantName__name\"><div class=\"participantName__name__firstName\">{first}</div> <div class=\"participantName__name__lastName\">{last}</div></div></td><td>{gender}</td>\n<td>Taos</td><td class=\"time\">{time}</td><td>6:26</td></tr>\n"
    )
}

#[test]
fn runsignup_mhtml_reads_cells_by_class() {
    let text = format!(
        "<table><thead><tr><th>Place</th></tr></thead><tbody>{}{}{}</tbody></table>",
        signup_row("1", "Ann", "Able", "F", "20:00"),
        signup_row("2", "Bob", "Baker", "M", "21:00.5"),
        signup_row("3", "Cy", "Cole", "M", "DNF"),
    );
    let records = runsignup_mhtml::Placement::names_and_times(&text).unwrap();
    assert_eq!(records.len(), 2);
    assert_eq!(records[0].name, "Ann Able");
    assert_eq!(records[0].duration, ms(20, 0));
    assert_eq!(records[0].category, Some(Female));
    assert_eq!(records[1].name, "Bob Baker");
    assert_eq!(records[1].duration, Duration::new(1260, 500_000_000).unwrap());
    let placements = runsignup_mhtml::Placement::results(&text).unwrap();
    assert_eq!(placements[1].place, "2");
    assert_eq!(placements[1].gender, "M");

    assert!(runsignup_mhtml::Placement::names_and_times(&signup_row("1", "Ann", "Able", "F", "20:00")).is_none());
    assert!(runsignup_mhtml::Placement::names_and_times("<tbody></tbody>").is_none());
    let spaced = format!("<tbody>{}", signup_row("1", "Ann", "Able", "F", "20:00").replace("</td><td>F", "</td> <td>F"));
    assert!(runsignup_mhtml::Placement::names_and_times(&spaced).is_none());
}

#[test]
fn csv_reads_the_rows_after_the_preamble() {
    let text = "Forever Young,,,,,,,\nLast name,First Name,G,Age,Bib,Time,Division,Place\nAble,Ann,F,33,7,20:00,Open,Overall Female\n\"Baker, Jr.\",Bob,M,40,8,21:00.5,Master,1st\nCole,Cy,U,41,9,1320000,,\n";
    let placements = csv::Placement::results(text).unwrap();
    assert_eq!(placements.len(), 3);
    assert_eq!(placements[0].division, "Open");
    assert_eq!(placements[0].place, "Overall Female");
    assert_eq!(placements[1].last_name, "Baker, Jr.");
    assert_eq!(placements[1].bib, 8);
    assert_eq!(placements[2].division, "");
    let records = csv::Placement::names_and_times(text).unwrap();
    assert_eq!(records[0].name, "Ann Able");
    assert_eq!(records[0].duration, ms(20, 0));
    assert_eq!(records[0].category, Some(Female));
    assert_eq!(records[1].name, "Bob Baker, Jr.");
    assert_eq!(records[1].duration, Duration::new(1260, 500_000_000).unwrap());
    assert_eq!(records[2].category, None);
    assert_eq!(records[2].duration, ms(22, 0));
}

#[test]
fn csv_rejects_a_table_with_a_row_that_cannot_be_read() {
    let preamble = "a,b,c,d,e,f,g,h\na,b,c,d,e,f,g,h\n";
    let good = "Able,Ann,F,33,7,20:00,Open,1st\n";
    assert_eq!(csv::Placement::names_and_times(&format!("{preamble}{good}")).unwrap().len(), 1);
    for bad in [
        "Able,Ann,F,0,7,20:00,Open,1st\n",
        "Able,Ann,F,33,256,20:00,Open,1st\n",
        "Able,Ann,F,33,7,soon,Open,1st\n",
        "Able,Ann,F,33,7,20:00,Open\n",
        "Able,Ann,F,33,7,20:00,Open,1st,more\n",
    ] {
        assert!(csv::Placement::names_and_times(&format!("{preamble}{good}{bad}")).is_none(), "{bad:?}");
    }
    // Rows of seven fields throughout are too short.
    assert!(csv::Placement::names_and_times("a,b,c,d,e,f,g\na,b,c,d,e,f,g\nAble,Ann,F,33,7,20:00,Open\n").is_none());
    // Nine fields throughout are read, the ninth set aside.
    assert_eq!(
        csv::Placement::names_and_times("a,b,c,d,e,f,g,h,i\na,b,c,d,e,f,g,h,i\nAble,Ann,F,33,7,20:00,Open,1st,x\n").unwrap().len(),
        1
    );
    // What is in the preamble does not matter; a table of preamble alone has no finishers.
    assert_eq!(csv::Placement::names_and_times("x\ny\n").unwrap().len(), 0);
    assert_eq!(csv::Placement::names_and_times("").unwrap().len(), 0);
}

#[test]
fn run_fit_reads_the_place_in_an_age_group() {
    let open = run_fit::age_group_place(b"3:Open").unwrap();
    assert_eq!(open.place, 3);
    assert_eq!(open.age_group, run_fit::AgeGroup::Open);
    let group = run_fit::age_group_place(b"12: 20- 29 and more").unwrap();
    assert_eq!(group.place, 12);
    assert_eq!(group.age_group, run_fit::AgeGroup::AgeGroup { start: 20, end: 29 });
    for text in ["", "Open", ":Open", "0:Open", "3:open", "3 :Open", "3:20", "3:20-", "3:0-29", "3:20-256", "65536:Open", "x"] {
        assert_eq!(run_fit::age_group_place(text.as_bytes()), None, "{text:?}");
    }
    let text = format!(
        "{RUN_FIT_OPENING}{}{}",
        run_fit_row(&["1", "Ann Able", "", "7", "33", "F", "1:30-39", "20:00", "20:05", "6:26/M"]),
        run_fit_row(&["2", "Bob Baker", "", "8", "40", "M", "first", "21:00", "21:05", "6:46/M"]),
    );
    let placements = run_fit::Placement::results(&text).unwrap();
    assert_eq!(
        placements[0].age_group_place(),
        Some(run_fit::AgeGroupPlace { place: 1, age_group: run_fit::AgeGroup::AgeGroup { start: 30, end: 39 } })
    );
    assert_eq!(placements[1].age_group_place(), None);
}
