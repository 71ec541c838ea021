//! Canonical names: the one spelling under which a person is merged.

use crate::text::str_eq;
use vstd::prelude::*;

verus! {

/// The canonical spelling for a name that is a known alias.
pub open spec fn alias_of(name: Seq<char>) -> Option<Seq<char>> {
    if name == "Rodrigo Romeradelafuente"@ {
        Some("Rodrigo Romera"@)
    } else if name == "Megan Devan"@ {
        Some("Rae Devan"@)
    } else if name == "Tim Shultz"@ {
        Some("Timothy Shultz"@)
    } else if name == "deadhead"@ || name == "Deadhead"@ || name == "Cliff Matthews"@ {
        Some("Clifford Matthews"@)
    } else if name == "Crystal Andersen"@ {
        Some("Crystal Anderson"@)
    } else if name == "Guil Marez"@ {
        Some("Guill Marez"@)
    } else if name == "Kim Brooks"@ {
        Some("Kimberly Brooks"@)
    } else if name == "Matt Hickey"@ {
        Some("Matthew Hickey"@)
    } else if name == "Ed Matteo"@ {
        Some("Edward Matteo"@)
    } else if name == "Greg Huey"@ {
        Some("Gregory Huey"@)
    } else if name == "Matthew Procter"@ {
        Some("Matt Procter"@)
    } else if name == "Kenneth Oconnor"@ {
        Some("Kenneth O'Connor"@)
    } else if name == "Michelle Bourret"@ {
        Some("Suzanne Bourret"@)
    } else if name == "Matthew Swanson"@ {
        Some("Matt Swanson"@)
    } else if name == "Jennifer Galasso"@ {
        Some("Jenny Galasso"@)
    } else {
        None
    }
}

/// The name under which `name` is merged: the canonical spelling where
/// `name` is a known alias, `name` itself where it is not.
pub open spec fn canonical_name(name: Seq<char>) -> Seq<char> {
    match alias_of(name) {
        Some(canonical) => canonical,
        None => name,
    }
}

/// The canonical spelling for `name` where it is a known alias.  The match
/// is exact: case, white space and accents all count.
fn alias(name: &str) -> (r: Option<&'static str>)
    ensures
        match r {
            Some(canonical) => alias_of(name@) == Some(canonical@),
            None => alias_of(name@).is_none(),
        },
{
    if str_eq(name, "Rodrigo Romeradelafuente") {
        Some("Rodrigo Romera")
    } else if str_eq(name, "Megan Devan") {
        Some("Rae Devan")
    } else if str_eq(name, "Tim Shultz") {
        Some("Timothy Shultz")
    } else if str_eq(name, "deadhead") || str_eq(name, "Deadhead") || str_eq(
        name,
        "Cliff Matthews",
    ) {
        Some("Clifford Matthews")
    } else if str_eq(name, "Crystal Andersen") {
        Some("Crystal Anderson")
    } else if str_eq(name, "Guil Marez") {
        Some("Guill Marez")
    } else if str_eq(name, "Kim Brooks") {
        Some("Kimberly Brooks")
    } else if str_eq(name, "Matt Hickey") {
        Some("Matthew Hickey")
    } else if str_eq(name, "Ed Matteo") {
        Some("Edward Matteo")
    } else if str_eq(name, "Greg Huey") {
        Some("Gregory Huey")
    } else if str_eq(name, "Matthew Procter") {
        Some("Matt Procter")
    } else if str_eq(name, "Kenneth Oconnor") {
        Some("Kenneth O'Connor")
    } else if str_eq(name, "Michelle Bourret") {
        Some("Suzanne Bourret")
    } else if str_eq(name, "Matthew Swanson") {
        Some("Matt Swanson")
    } else if str_eq(name, "Jennifer Galasso") {
        Some("Jenny Galasso")
    } else {
        None
    }
}

/// The name under which `name_or_alias` is merged.
pub fn canonical(name_or_alias: &str) -> (name: String)
    ensures
        name@ == canonical_name(name_or_alias@),
{
    match alias(name_or_alias) {
        Some(canonical) => canonical.to_owned(),
        None => name_or_alias.to_owned(),
    }
}

/// A name that is no alias is its own canonical name.
pub proof fn lemma_canonical_of_unknown(name: Seq<char>)
    requires
        alias_of(name).is_none(),
    ensures
        canonical_name(name) == name,
{
}

/// No canonical spelling is itself an alias.
pub proof fn lemma_canonical_is_no_alias(name: Seq<char>)
    requires
        alias_of(name).is_some(),
    ensures
        alias_of(alias_of(name).unwrap()).is_none(),
{
    reveal_strlit("Rodrigo Romeradelafuente");
    reveal_strlit("Megan Devan");
    reveal_strlit("Tim Shultz");
    reveal_strlit("deadhead");
    reveal_strlit("Deadhead");
    reveal_strlit("Cliff Matthews");
    reveal_strlit("Crystal Andersen");
    reveal_strlit("Guil Marez");
    reveal_strlit("Kim Brooks");
    reveal_strlit("Matt Hickey");
    reveal_strlit("Ed Matteo");
    reveal_strlit("Greg Huey");
    reveal_strlit("Matthew Procter");
    reveal_strlit("Kenneth Oconnor");
    reveal_strlit("Michelle Bourret");
    reveal_strlit("Matthew Swanson");
    reveal_strlit("Jennifer Galasso");
    reveal_strlit("Rodrigo Romera");
    reveal_strlit("Rae Devan");
    reveal_strlit("Timothy Shultz");
    reveal_strlit("Clifford Matthews");
    reveal_strlit("Crystal Anderson");
    reveal_strlit("Guill Marez");
    reveal_strlit("Kimberly Brooks");
    reveal_strlit("Matthew Hickey");
    reveal_strlit("Edward Matteo");
    reveal_strlit("Gregory Huey");
    reveal_strlit("Matt Procter");
    reveal_strlit("Kenneth O'Connor");
    reveal_strlit("Suzanne Bourret");
    reveal_strlit("Matt Swanson");
    reveal_strlit("Jenny Galasso");
    assert("Rodrigo Romeradelafuente"@.len() == 24);
    assert("Megan Devan"@.len() == 11);
    assert("Tim Shultz"@.len() == 10);
    assert("deadhead"@.len() == 8);
    assert("Deadhead"@.len() == 8);
    assert("Cliff Matthews"@.len() == 14);
    assert("Crystal Andersen"@.len() == 16);
    assert("Guil Marez"@.len() == 10);
    assert("Kim Brooks"@.len() == 10);
    assert("Matt Hickey"@.len() == 11);
    assert("Ed Matteo"@.len() == 9);
    assert("Greg Huey"@.len() == 9);
    assert("Matthew Procter"@.len() == 15);
    assert("Kenneth Oconnor"@.len() == 15);
    assert("Michelle Bourret"@.len() == 16);
    assert("Matthew Swanson"@.len() == 15);
    assert("Jennifer Galasso"@.len() == 16);
    assert("Rodrigo Romera"@.len() == 14);
    assert("Rodrigo Romera"@[0] == 'R' && "Cliff Matthews"@[0] == 'C');
    assert(alias_of("Rodrigo Romera"@).is_none());
    assert("Rae Devan"@.len() == 9);
    assert("Rae Devan"@[0] == 'R' && "Ed Matteo"@[0] == 'E');
    assert("Rae Devan"@[0] == 'R' && "Greg Huey"@[0] == 'G');
    assert(alias_of("Rae Devan"@).is_none());
    assert("Timothy Shultz"@.len() == 14);
    assert("Timothy Shultz"@[0] == 'T' && "Cliff Matthews"@[0] == 'C');
    assert(alias_of("Timothy Shultz"@).is_none());
    assert("Clifford Matthews"@.len() == 17);
    assert(alias_of("Clifford Matthews"@).is_none());
    assert("Crystal Anderson"@.len() == 16);
    assert("Crystal Anderson"@[14] == 'o' && "Crystal Andersen"@[14] == 'e');
    assert("Crystal Anderson"@[0] == 'C' && "Michelle Bourret"@[0] == 'M');
    assert("Crystal Anderson"@[0] == 'C' && "Jennifer Galasso"@[0] == 'J');
    assert(alias_of("Crystal Anderson"@).is_none());
    assert("Guill Marez"@.len() == 11);
    assert("Guill Marez"@[0] == 'G' && "Megan Devan"@[0] == 'M');
    assert("Guill Marez"@[0] == 'G' && "Matt Hickey"@[0] == 'M');
    assert(alias_of("Guill Marez"@).is_none());
    assert("Kimberly Brooks"@.len() == 15);
    assert("Kimberly Brooks"@[0] == 'K' && "Matthew Procter"@[0] == 'M');
    assert("Kimberly Brooks"@[1] == 'i' && "Kenneth Oconnor"@[1] == 'e');
    assert("Kimberly Brooks"@[0] == 'K' && "Matthew Swanson"@[0] == 'M');
    assert(alias_of("Kimberly Brooks"@).is_none());
    assert("Matthew Hickey"@.len() == 14);
    assert("Matthew Hickey"@[0] == 'M' && "Cliff Matthews"@[0] == 'C');
    assert(alias_of("Matthew Hickey"@).is_none());
    assert("Edward Matteo"@.len() == 13);
    assert(alias_of("Edward Matteo"@).is_none());
    assert("Gregory Huey"@.len() == 12);
    assert(alias_of("Gregory Huey"@).is_none());
    assert("Matt Procter"@.len() == 12);
    assert(alias_of("Matt Procter"@).is_none());
    assert("Kenneth O'Connor"@.len() == 16);
    assert("Kenneth O'Connor"@[0] == 'K' && "Crystal Andersen"@[0] == 'C');
    assert("Kenneth O'Connor"@[0] == 'K' && "Michelle Bourret"@[0] == 'M');
    assert("Kenneth O'Connor"@[0] == 'K' && "Jennifer Galasso"@[0] == 'J');
    assert(alias_of("Kenneth O'Connor"@).is_none());
    assert("Suzanne Bourret"@.len() == 15);
    assert("Suzanne Bourret"@[0] == 'S' && "Matthew Procter"@[0] == 'M');
    assert("Suzanne Bourret"@[0] == 'S' && "Kenneth Oconnor"@[0] == 'K');
    assert("Suzanne Bourret"@[0] == 'S' && "Matthew Swanson"@[0] == 'M');
    assert(alias_of("Suzanne Bourret"@).is_none());
    assert("Matt Swanson"@.len() == 12);
    assert(alias_of("Matt Swanson"@).is_none());
    assert("Jenny Galasso"@.len() == 13);
    assert(alias_of("Jenny Galasso"@).is_none());
}

/// Canonicalising twice is canonicalising once.
pub proof fn lemma_canonical_idempotent(name: Seq<char>)
    ensures
        canonical_name(canonical_name(name)) == canonical_name(name),
{
    if alias_of(name).is_some() {
        lemma_canonical_is_no_alias(name);
    }
}

} // verus!
