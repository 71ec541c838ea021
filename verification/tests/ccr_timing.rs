use runs::duration::Duration;
use runs::parser::ccr_timing::{
    category_block, junk_line, optional_duration, placement, results, Placement, Results, Sort,
};

const CATEGORY: &str = "CATEGORY: MALE 50-59\r\nPlace Name                  Bikeup  Runup   Skiup   Shoeup  Total Up Shoedn  Skidn   Rundn   Bikedn  Total Dn Total    Bib#    \r\n===== ===================== ======= ======= ======= ======= ======== ======= ======= ======= ======= ======== ======= ===== \r\n    1 Eric Black              59:27   53:41   35:49   22:09  2:51:04    9:42   18:55   46:17   52:33  2:07:26 4:58:30    45 \r\n    2 Peter Tempest           55:17   59:51   41:57   30:44  3:07:47   14:19   24:29   48:55   47:57  2:15:38 5:23:24   134 \r\n    3 Kenneth Gordon        1:03:20 1:01:55   43:07   29:28  3:17:48   13:38   30:30   45:23   52:24  2:21:55 5:39:43    73 \r\n    4 Frank Novotny         1:00:21 1:00:14   42:09   28:36  3:11:18   12:48   43:17   49:03   48:26  2:33:33 5:44:50   108 \r\n    5 Kevin Williams        1:05:53   55:01   46:30   32:30  3:19:53   12:31   29:55   47:06 1:00:08  2:29:39 5:49:32   144 \r\n    6 Clifford Matthews     5:05:05           47:35   31:21  3:30:01   10:33   30:42   53:50   50:18  2:25:22 5:55:22    99 \r\n\n    ";

const DIVISION: &str = "DIVISION: MIXED 30-39\r\n    1 Stranger Things             42:45   54:21   49:38   21:28  2:48:11           47:27   39:04   29:26  1:35:49 4:24:00   417 Team:MF30-39  \r\n    2 Team Drago                1:03:53   53:07   43:02   24:13  3:04:14   12:49   21:07   43:20   46:46  2:04:02 5:08:15   418 Team:MF30-39  \r\n    3 JHM Gym                   1:23:46   52:04   38:26   18:56  3:13:10    8:03   20:41   35:51   52:11  1:56:44 5:09:54   414 Team:MF30-39  \r\n    4 All Swedish No Finish     1:00:22   58:00   39:34   28:02  3:05:57   13:02   18:08   44:21   49:31  2:05:00 5:10:57   413 Team:MF30-39  \r\n    5 SaDaJoCla                 1:07:22   58:04   52:28   29:51  3:27:43   16:55   37:11   41:42   48:39  2:24:26 5:52:09   415 Team:MF30-39  \r\n    6 Three Legged Foxes        1:03:07   58:16   49:23   37:30  3:28:13   18:18   44:36   45:27   50:05  2:38:25 6:06:38   419 Team:MF30-39  \r\n    7 Self Inflicted Fitness    1:18:34 1:10:54   45:32   34:08  3:49:08   15:42                 5:26:12  2:55:39 6:44:46   416 Team:MF30-39  \r\n";

fn hms(h: u32, m: u32, s: u32) -> Duration {
    Duration::new_hour_min_sec(h, m, s)
}

#[test]
fn ccr_timing_test_junk_line() {
    let junk = "This is junk\r\n";
    let cat = "CATEGORY: MALE 01-19\r\n";

    println!("junk_line(junk) = {:?}", junk_line(junk.as_bytes(), 0));
    println!("junk_line(cat) = {:?}", junk_line(cat.as_bytes(), 0));
    assert_eq!(junk_line(junk.as_bytes(), 0), Some(junk.len()));
    assert_eq!(junk_line(cat.as_bytes(), 0), None);
}

#[test]
fn ccr_timing_test_category_block() {
    let (placements, next) = category_block(CATEGORY.as_bytes(), 0).unwrap();
    println!("placements = {:?}", placements);
    assert_eq!(placements.len(), 6);
    assert_eq!(&CATEGORY[next..], "\n    ");
    assert_eq!(placements[0].name, "Eric Black");
    assert_eq!(placements[0].category, "MALE 50-59");
    assert_eq!(placements[0].category_place, 1);
    assert_eq!(placements[0].bike_up, Some(hms(0, 59, 27)));
    assert_eq!(placements[0].total, hms(4, 58, 30));
    assert_eq!(placements[0].bib, 45);
    assert_eq!(placements[5].name, "Clifford Matthews");
    assert_eq!(placements[5].run_up, None);

    // Without title lines the first two rows are taken for them.
    let (placements, next) = category_block(DIVISION.as_bytes(), 0).unwrap();
    println!("placements = {:?}", placements);
    assert_eq!(next, DIVISION.len());
    assert_eq!(placements.len(), 5);
    assert_eq!(placements[0].name, "JHM Gym");
    assert_eq!(placements[0].category, "Team:MF30-39");
    assert_eq!(placements[4].name, "Self Inflicted Fitness");
    assert_eq!(placements[4].ski_down, None);
    assert_eq!(placements[4].run_down, None);
    assert_eq!(placements[4].bike_down, Some(hms(5, 26, 12)));
    assert_eq!(placements[4].bib, 416);
}

#[test]
fn ccr_timing_test_placement() {
    let line = "    6 Clifford Matthews     5:05:05           47:35   31:21  3:30:01   10:33   30:42   53:50   50:18  2:25:22 5:55:22    99 \r\n";
    let (placement, next) = placement(line.as_bytes(), 0, Some("MALE 50-59".as_bytes())).unwrap();
    println!("placement = {:?}", placement);
    assert_eq!(next, line.len());
    assert_eq!(placement.category, "MALE 50-59");
    assert_eq!(placement.category_place, 6);
    assert_eq!(placement.name, "Clifford Matthews");
    assert_eq!(placement.bike_up, Some(hms(5, 5, 5)));
    assert_eq!(placement.run_up, None);
    assert_eq!(placement.ski_up, Some(hms(0, 47, 35)));
    assert_eq!(placement.shoe_up, Some(hms(0, 31, 21)));
    assert_eq!(placement.total_up, Some(hms(3, 30, 1)));
    assert_eq!(placement.shoe_down, Some(hms(0, 10, 33)));
    assert_eq!(placement.ski_down, Some(hms(0, 30, 42)));
    assert_eq!(placement.run_down, Some(hms(0, 53, 50)));
    assert_eq!(placement.bike_down, Some(hms(0, 50, 18)));
    assert_eq!(placement.total_down, Some(hms(2, 25, 22)));
    assert_eq!(placement.total, hms(5, 55, 22));
    assert_eq!(placement.bib, 99);
}

#[test]
fn ccr_timing_test_optional_duration() {
    assert_eq!(None, optional_duration("       ".as_bytes()).unwrap());

    assert_eq!(
        Some(Duration::new_hour_min_sec(5, 6, 7)),
        optional_duration("5:06:07".as_bytes()).unwrap()
    );
}

#[test]
fn ccr_timing_rejects_a_row_without_total() {
    let line = "    6 Clifford Matthews     5:05:05           47:35   31:21  3:30:01   10:33   30:42   53:50   50:18  2:25:22            99 \r\n";
    assert!(placement(line.as_bytes(), 0, Some("MALE 50-59".as_bytes())).is_none());
    assert_eq!(optional_duration("5:06:0x".as_bytes()), None);
}

fn report() -> String {
    let titles = "Place Name  \r\n===== =====\r\n";
    let fixed = |place: &str, name: &str, total: &str, bib: &str| {
        let blank = "       ";
        format!(
            "{place:>5} {name:<21} {blank} {blank} {blank} {blank}  {blank} {blank} {blank} {blank} {blank}  {blank} {total:>7} {bib:>5} \r\n"
        )
    };
    let mut text = String::new();
    text.push_str("<html>\r\n<h3><a name=\"solo age groups\"></a>Solo</h3>\r\n");
    text.push_str("noise\r\n");
    text.push_str("<pre>CATEGORY: FEMALE 20-29\r\n");
    text.push_str(titles);
    text.push_str(&fixed("1", "Ann Able", "4:00:00", "7"));
    text.push_str(&fixed("2", "Bea Baker", "4:30:00", "8"));
    text.push_str("more noise\r\n");
    text.push_str("CATEGORY: MALE 20-29\r\n");
    text.push_str(titles);
    text.push_str(&fixed("1", "Carl Cole", "3:59:59", "9"));
    text.push_str("<h3><a name=\"pairs age groups\"></a>Pairs</h3>\r\n");
    text.push_str("CATEGORY: PAIRS\r\n");
    text.push_str(titles);
    text.push_str(&fixed("1", "Two Of Us", "5:00:00", "20"));
    text.push_str("<h3><a name=\"team age groups\"></a>Teams</h3>\r\n");
    text.push_str("</html>\r\n");
    text
}

#[test]
fn ccr_timing_reads_the_three_sections() {
    let text = report();
    let (results, _) = results(text.as_bytes()).unwrap();
    let names = |v: &Vec<Placement>| v.iter().map(|p| p.name.clone()).collect::<Vec<_>>();
    assert_eq!(names(&results.soloists), vec!["Ann Able", "Bea Baker", "Carl Cole"]);
    assert_eq!(results.soloists[2].category, "MALE 20-29");
    assert_eq!(names(&results.pairs), vec!["Two Of Us"]);
    assert!(results.teams.is_empty());

    let soloists = Placement::soloist_names_and_times(&text).unwrap();
    assert_eq!(soloists.len(), 3);
    assert_eq!(soloists[0].name, "Ann Able");
    assert_eq!(soloists[0].duration, hms(4, 0, 0));
    assert_eq!(soloists[0].category, None);
    assert_eq!(soloists[2].duration, hms(3, 59, 59));

    assert!(Results::results("no report at all").is_none());
    assert!(Placement::soloist_names_and_times("<h3><a name=\"solo age groups\"\r\n").is_none());
}

#[test]
fn ccr_timing_orders_the_sections() {
    let (placements, _) = category_block(CATEGORY.as_bytes(), 0).unwrap();
    let (pairs, _) = category_block(DIVISION.as_bytes(), 0).unwrap();
    let names = |v: &Vec<Placement>| v.iter().map(|p| p.name.clone()).collect::<Vec<_>>();
    let mut reversed = placements;
    reversed.reverse();
    let report = Results { soloists: reversed, pairs, teams: vec![] };
    let by_total = report.sort_by(Sort::Total);
    assert_eq!(
        names(&by_total.soloists),
        vec!["Eric Black", "Peter Tempest", "Kenneth Gordon", "Frank Novotny", "Kevin Williams", "Clifford Matthews"]
    );
    assert_eq!(names(&by_total.pairs), vec!["JHM Gym", "All Swedish No Finish", "SaDaJoCla", "Three Legged Foxes", "Self Inflicted Fitness"]);
    assert!(by_total.teams.is_empty());
    // By the descent on snowshoes: 9:42, 10:33, 12:31, 12:48, 13:38, 14:19.
    let by_shoe = by_total.sort_by(Sort::ShoeDown);
    assert_eq!(
        names(&by_shoe.soloists),
        vec!["Eric Black", "Clifford Matthews", "Kevin Williams", "Frank Novotny", "Kenneth Gordon", "Peter Tempest"]
    );
    assert_eq!(names(&by_shoe.pairs), vec!["JHM Gym", "All Swedish No Finish", "Self Inflicted Fitness", "SaDaJoCla", "Three Legged Foxes"]);
}

#[test]
fn ccr_timing_keeps_the_order_of_rows_with_one_key() {
    let line = |name: &str, shoe_down: &str| {
        let blank = "       ";
        format!(
            "    1 {name:<21} {blank} {blank} {blank} {blank}  {blank} {shoe_down:>7} {blank} {blank} {blank}  {blank} 1:00:00     1 \r\n"
        )
    };
    let text = format!("{}{}{}{}", line("Dee", ""), line("Cy", "10:00"), line("Bob", ""), line("Ann", "10:00"));
    let mut rows = vec![];
    let mut at = 0;
    while let Some((row, next)) = placement(text.as_bytes(), at, Some(b"ALL")) {
        rows.push(row);
        at = next;
    }
    assert_eq!(rows.len(), 4);
    let report = Results { soloists: rows, pairs: vec![], teams: vec![] };
    let names = |v: &Vec<Placement>| v.iter().map(|p| p.name.clone()).collect::<Vec<_>>();
    let by_shoe = report.sort_by(Sort::ShoeDown);
    assert_eq!(names(&by_shoe.soloists), vec!["Cy", "Ann", "Dee", "Bob"]);
    let by_total = by_shoe.sort_by(Sort::Total);
    assert_eq!(names(&by_total.soloists), vec!["Cy", "Ann", "Dee", "Bob"]);
}
