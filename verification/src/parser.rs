//! One extractor per results layout, and what the extractors share.

pub mod ancient_ultra_signup;
pub mod athlinks;
pub mod ccr_timing;
pub mod chrono_track;
pub mod csv;
pub mod helpers;
pub mod its_your_race;
pub mod race_result_mhtml;
pub mod race_roster;
pub mod run_fit;
pub mod runsignup;
pub mod runsignup_20240506_mhtml;
pub mod runsignup_mhtml;
pub mod taos;
pub mod ultra_signup;
pub mod ultra_signup_mhtml;
pub mod web_scorer;

use crate::scan::{find, until_and_consume};
use vstd::prelude::*;

verus! {

/// Scans `hay` from `from` for `needle`.  Returns the offset at which the
/// needle begins, which ends the text before it, and the offset just after
/// the needle, at which scanning goes on.
pub fn take_until_and_consume(hay: &[u8], needle: &[u8], from: usize) -> (r: Option<
    (usize, usize),
>)
    ensures
        match r {
            Some((at, next)) => {
                &&& until_and_consume(hay@, needle@, from as int) == Some((at as int, next as int))
                &&& from <= at <= next <= hay@.len()
                &&& next == at + needle@.len()
            },
            None => until_and_consume(hay@, needle@, from as int).is_none(),
        },
{
    match find(hay, needle, from) {
        Some(at) => Some((at, at + needle.len())),
        None => None,
    }
}

} // verus!
