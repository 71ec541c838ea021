use runs::category::{gender_count, infer_categories, male_and_female_counts, morf};
use runs::MaleOrFemale::{self, Female, Male, NonBinary};

#[test]
fn category_reads_the_labels() {
    assert_eq!(morf("M"), Some(Male));
    assert_eq!(morf("Male"), Some(Male));
    assert_eq!(morf("F"), Some(Female));
    assert_eq!(morf("Female"), Some(Female));
    assert_eq!(morf("X"), Some(NonBinary));
    assert_eq!(morf("U"), None);
    assert_eq!(morf(""), None);
    assert_eq!(morf("m"), None);
    assert_eq!(morf("male"), None);
    assert_eq!(morf(" M"), None);
    assert_eq!(morf("Non-binary"), None);
}

#[test]
fn category_reads_and_writes_the_codes() {
    for category in [Male, Female, NonBinary] {
        assert_eq!(MaleOrFemale::from_code(category.code()), Some(category));
    }
    assert_eq!(Male.code(), "M");
    assert_eq!(Female.code(), "F");
    assert_eq!(NonBinary.code(), "X");
    assert_eq!(MaleOrFemale::from_code("Male"), None);
    assert_eq!(MaleOrFemale::from_code(""), None);
    assert_eq!(Male.ordinal(), 0);
    assert_eq!(Female.ordinal(), 1);
    assert_eq!(NonBinary.ordinal(), 2);
}

#[test]
fn category_takes_the_count_out_of_a_rank() {
    assert_eq!(gender_count(b"3/228"), Some(&b"228"[..]));
    assert_eq!(gender_count(b"3/228/x"), Some(&b"228"[..]));
    assert_eq!(gender_count(b"3/"), Some(&b""[..]));
    assert_eq!(gender_count(b"/"), Some(&b""[..]));
    assert_eq!(gender_count(b"3"), None);
    assert_eq!(gender_count(b""), None);
}

fn counts(texts: &[Option<&str>]) -> Vec<Option<Vec<u8>>> {
    texts.iter().map(|t| t.map(|t| t.as_bytes().to_vec())).collect()
}

#[test]
fn category_tells_the_sexes_by_their_counts() {
    let all = counts(&[Some("228"), Some("228"), Some("70"), Some("228"), Some("3"), None, Some("70")]);
    assert_eq!(male_and_female_counts(&all), Some((0, 2)));
    assert_eq!(
        infer_categories(&all),
        vec![Some(Male), Some(Male), Some(Female), Some(Male), Some(NonBinary), None, Some(Female)]
    );

    // The larger count is that of the men, whichever comes first.
    let all = counts(&[None, Some("70"), Some("228")]);
    assert_eq!(male_and_female_counts(&all), Some((2, 1)));
    assert_eq!(infer_categories(&all), vec![None, Some(Female), Some(Male)]);

    // Two texts for one number: the first is that of the men.
    let all = counts(&[Some("070"), Some("70")]);
    assert_eq!(male_and_female_counts(&all), Some((0, 1)));
}

#[test]
fn category_is_absent_where_the_counts_do_not_tell() {
    for texts in [
        vec![],
        vec![None, None],
        vec![Some("70"), Some("70"), None],
        vec![Some("70"), Some("x")],
        vec![Some("x"), Some("70")],
        vec![Some("0"), Some("70")],
        vec![Some("70000"), Some("70")],
    ] {
        let all = counts(&texts);
        assert_eq!(male_and_female_counts(&all), None, "{texts:?}");
        assert_eq!(infer_categories(&all), vec![None; texts.len()], "{texts:?}");
    }
}
