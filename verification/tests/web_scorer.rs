use runs::duration::Duration;
use runs::parser::web_scorer::{place, placement, results, tr_line, Placement};
use runs::MaleOrFemale::{Female, Male};

#[test]
fn test_tr_line() {
    let line = "        <tr class=\"rowBg-mod0\">\r\n";

    assert_eq!(Some(line.len()), tr_line(line.as_bytes(), 0));
}

#[test]
fn web_scorer_test_place() {
    let line = "            <td class='r-place'>1</td><td class='r-bibnumber'><span class='no-diff-hyphen'>-</span></td><td class='r-racername'>deadhead<span class='team-name'></span></td><td class='r-category'></td><td class='r-gender'>M</td>\r\n";

    assert_eq!(1, place(line.as_bytes(), 0).unwrap().0);
    assert_eq!(line.find("<td class='r-bib").unwrap(), place(line.as_bytes(), 0).unwrap().1);
}

const LINES: &str = "        <tr class=\"rowBg-mod0\">\r\n            <td class='r-place'>1</td><td class='r-bibnumber'><span class='no-diff-hyphen'>-</span></td><td class='r-racername'>deadhead<span class='team-name'></span></td><td class='r-category'></td><td class='r-gender'>M</td>\r\n            \r\n            <td class='r-finish-time'>18:58.1</td><td class='r-difference'><span class='sel_ddDiffCol sel-D tabHide'><span class='no-diff-hyphen'>-</span></span><span class='sel_ddDiffCol sel-P tabHide'><span class='no-percent-hyphen'>-</span></span><span class='sel_ddDiffCol sel-WP tabHide'>100%</span><span class='sel_ddDiffCol sel-AP tabHide'>21.86%</span><span class='sel_ddDiffCol sel-MP tabHide'>22.24%</span></td>\r\n        </tr>\r\n";

#[test]
fn web_scorer_test_placement() {
    let (placement, next) = placement(LINES.as_bytes(), 0).unwrap();
    println!("placement = {:?}", placement);
    assert_eq!(&LINES[next..], "\r\n");
    assert_eq!(placement.place, 1);
    assert_eq!(placement.bib, None);
    assert_eq!(placement.name, "deadhead");
    assert_eq!(placement.team, None);
    assert_eq!(placement.category, None);
    assert_eq!(placement.age, None);
    assert_eq!(placement.gender.as_deref(), Some("M"));
    assert_eq!(placement.finish_time, Duration::new(1138, 100_000_000).unwrap());
}

fn row(place: &str, bib: &str, name: &str, age: Option<&str>, gender: &str, time: &str) -> String {
    let age = match age {
        Some(age) => format!("<td class='r-age'>{age}</td>"),
        None => String::new(),
    };
    format!(
        "  <tr class=\"rowBg-mod1\">\r\n    <td class='r-place'>{place}</td><td class='r-bibnumber'>{bib}</td><td class='r-racername'>{name}</td><td class='r-category'> Open </td>{age}<td class='r-gender'>{gender}</td>\r\n    <td class='r-finish-time'>{time}</td><td class='r-difference'>-</td>\r\n  </tr>\r\n"
    )
}

#[test]
fn web_scorer_reads_the_rows_of_every_body() {
    let text = format!(
        "<html><table><tbody>\r\n{}{}</tbody></table><p>between</p><table><tbody>{}</tbody></table><table><tbody></tbody></table><table><tbody>{}</tbody></table>",
        row("1", "7", "Ann &amp; Co<span class='team-name'>Team &lt;A&gt;</span>", Some("33"), "F", "20:00"),
        row("2", " 8 ", "Bob Baker", None, "Male", "1:00:00"),
        row("1", "", "Cy Cole<span class='team-name'>  </span>", None, "", "25:00"),
        row("9", "9", "Never Read", None, "M", "30:00"),
    );
    let placements = results(text.as_bytes()).unwrap();
    assert_eq!(placements.len(), 3);
    assert_eq!(placements[0].name, "Ann & Co");
    assert_eq!(placements[0].team.as_deref(), Some("Team <A>"));
    assert_eq!(placements[0].bib.as_deref(), Some("7"));
    assert_eq!(placements[0].category.as_deref(), Some("Open"));
    assert_eq!(placements[0].age, Some(33));
    assert_eq!(placements[1].bib.as_deref(), Some("8"));
    assert_eq!(placements[1].age, None);
    assert_eq!(placements[2].bib, None);
    assert_eq!(placements[2].team, None);
    assert_eq!(placements[2].gender, None);
    let records = Placement::names_and_times(&text).unwrap();
    assert_eq!(records.len(), 3);
    assert_eq!(records[0].name, "Ann & Co");
    assert_eq!(records[0].duration, Duration::new(1200, 0).unwrap());
    assert_eq!(records[0].category, Some(Female));
    assert_eq!(records[1].category, Some(Male));
    assert_eq!(records[2].category, None);
}

#[test]
fn web_scorer_takes_an_age_cell_without_a_number_for_no_row() {
    let text = format!(
        "<tbody>{}{}{}",
        row("1", "7", "Ann", Some("33"), "F", "20:00"),
        row("2", "8", "Bob", Some("x"), "M", "21:00"),
        row("3", "9", "Cy", Some("41"), "M", "22:00"),
    );
    assert_eq!(results(text.as_bytes()).unwrap().len(), 1);
}

#[test]
fn web_scorer_needs_a_body_with_a_row() {
    assert!(Placement::names_and_times("").is_none());
    assert!(Placement::names_and_times("<tbody></tbody>").is_none());
    assert!(Placement::names_and_times(&row("1", "7", "Ann", None, "F", "20:00")).is_none());
    let bad_time = format!("<tbody>{}", row("1", "7", "Ann", None, "F", "soon"));
    assert!(Placement::names_and_times(&bad_time).is_none());
    let bad_place = format!("<tbody>{}", row("first", "7", "Ann", None, "F", "20:00"));
    assert!(Placement::names_and_times(&bad_place).is_none());
    let good = format!("<tbody>{}", row("1", "7", "Ann", None, "F", "20:00"));
    assert_eq!(Placement::results(&good).unwrap().len(), 1);
    assert!(Placement::results(&good.replace("</tr>", "")).is_none());
}
