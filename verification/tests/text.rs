use runs::order::{bytes_less, sort_and_dedup, text_less};
use runs::text::{bytes_eq, html_decoded, join, name_of, str_eq};
use runs::duration::Duration;
use runs::MaleOrFemale::{Female, Male, NonBinary};
use runs::Record;

#[test]
fn text_compares() {
    assert!(str_eq("Ann", "Ann"));
    assert!(!str_eq("Ann", "ann"));
    assert!(!str_eq("Ann", "Anne"));
    assert!(str_eq("", ""));
    assert!(bytes_eq(b"ab", b"ab"));
    assert!(!bytes_eq(b"ab", b"ba"));
    assert!(!bytes_eq(b"ab", b"a"));
}

#[test]
fn text_joins() {
    assert_eq!(name_of("Ann", "Able"), "Ann Able");
    assert_eq!(name_of("", ""), " ");
    assert_eq!(join(&vec!["a".to_string(), "".to_string(), "bc".to_string()]), "abc");
    assert_eq!(join(&vec![]), "");
}

#[test]
fn text_decodes_entities() {
    assert_eq!(html_decoded("Tom &amp; Jerry"), "Tom & Jerry");
    assert_eq!(html_decoded("O&#39;Connor"), "O'Connor");
    assert_eq!(html_decoded("caf&eacute;"), "café");
    assert_eq!(html_decoded("plain"), "plain");
    // What cannot be decoded stays as it is.
    assert_eq!(html_decoded("R&D"), "R&D");
    assert_eq!(html_decoded("&nosuchentity;"), "&nosuchentity;");
}

#[test]
fn text_order_is_that_of_the_bytes() {
    let words = ["", "A", "Ann", "Anna", "B", "Zed", "a", "ab", "b", "é", "z"];
    for a in words {
        for b in words {
            assert_eq!(text_less(a, b), a < b, "{a:?} {b:?}");
            assert_eq!(bytes_less(a.as_bytes(), b.as_bytes()), a.as_bytes() < b.as_bytes());
        }
    }
}

fn record(name: &str, secs: u64, category: Option<runs::MaleOrFemale>) -> Record {
    Record { name: name.to_string(), duration: Duration::new(secs, 0).unwrap(), category }
}

#[test]
fn records_are_sorted_and_deduplicated() {
    let records = vec![
        record("Bob", 10, Some(Male)),
        record("Ann", 30, Some(Female)),
        record("Ann", 20, Some(Female)),
        record("Bob", 10, Some(Male)),
        record("Ann", 20, None),
        record("Ann", 20, Some(NonBinary)),
        record("Ann", 20, Some(Male)),
        record("Ann", 20, Some(Female)),
    ];
    let mut expected = records.clone();
    expected.sort();
    expected.dedup();
    assert_eq!(sort_and_dedup(records), expected);
    assert_eq!(expected.len(), 6);
    assert_eq!(sort_and_dedup(vec![]), vec![]);
}
