use runs::names::canonical;

#[test]
fn test_canonical() {
    assert_eq!(canonical("Megan Devan"), "Rae Devan");
}

#[test]
fn canonical_leaves_unknown_names_alone() {
    assert_eq!(canonical("Ann Able"), "Ann Able");
    assert_eq!(canonical("megan devan"), "megan devan");
    assert_eq!(canonical(" Megan Devan"), " Megan Devan");
    assert_eq!(canonical(""), "");
}

#[test]
fn canonical_knows_every_alias() {
    let table = [
        ("Rodrigo Romeradelafuente", "Rodrigo Romera"),
        ("Megan Devan", "Rae Devan"),
        ("Tim Shultz", "Timothy Shultz"),
        ("deadhead", "Clifford Matthews"),
        ("Deadhead", "Clifford Matthews"),
        ("Cliff Matthews", "Clifford Matthews"),
        ("Crystal Andersen", "Crystal Anderson"),
        ("Guil Marez", "Guill Marez"),
        ("Kim Brooks", "Kimberly Brooks"),
        ("Matt Hickey", "Matthew Hickey"),
        ("Ed Matteo", "Edward Matteo"),
        ("Greg Huey", "Gregory Huey"),
        ("Matthew Procter", "Matt Procter"),
        ("Kenneth Oconnor", "Kenneth O'Connor"),
        ("Michelle Bourret", "Suzanne Bourret"),
        ("Matthew Swanson", "Matt Swanson"),
        ("Jennifer Galasso", "Jenny Galasso"),
    ];
    for (alias, name) in table {
        assert_eq!(canonical(alias), name);
        assert_eq!(canonical(name), name);
        assert_eq!(canonical(&canonical(alias)), canonical(alias));
    }
}
