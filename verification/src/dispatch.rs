//! From a document to its finishers: the extractors are tried in a fixed
//! order, and the first that finds finishers decides.

use crate::document::{contents, contents_of};
use crate::parser::{
    ancient_ultra_signup, athlinks, ccr_timing, chrono_track, csv, its_your_race,
    race_result_mhtml, race_roster, run_fit, runsignup, runsignup_20240506_mhtml,
    runsignup_mhtml, taos, ultra_signup, ultra_signup_mhtml, web_scorer,
};
use crate::{Record, RecordView};
use vstd::prelude::*;
use vstd::utf8::encode_utf8;

verus! {

/// A layout of results that an extractor reads.
#[derive(Clone, Copy, Debug, PartialEq, Eq, Structural, Hash)]
pub enum Format {
    UltraSignup,
    CcrTiming,
    WebScorer,
    RunFit,
    Runsignup20240506Mhtml,
    Runsignup,
    Athlinks,
    ChronoTrack,
    Taos,
    AncientUltraSignup,
    UltraSignupMhtml,
    RunsignupMhtml,
    RaceRoster,
    ItsYourRace,
    Csv,
    RaceResultMhtml,
}

/// The layouts in the order in which they are tried.
pub open spec fn formats() -> Seq<Format> {
    seq![
        Format::UltraSignup,
        Format::CcrTiming,
        Format::WebScorer,
        Format::RunFit,
        Format::Runsignup20240506Mhtml,
        Format::Runsignup,
        Format::Athlinks,
        Format::ChronoTrack,
        Format::Taos,
        Format::AncientUltraSignup,
        Format::UltraSignupMhtml,
        Format::RunsignupMhtml,
        Format::RaceRoster,
        Format::ItsYourRace,
        Format::Csv,
        Format::RaceResultMhtml,
    ]
}

/// The finishers that the extractor of `format` finds in `text`.
pub open spec fn read_as(format: Format, text: Seq<char>) -> Option<Seq<RecordView>> {
    match format {
        Format::UltraSignup => ultra_signup::finishers_of(text),
        Format::CcrTiming => ccr_timing::soloists_of(encode_utf8(text)),
        Format::WebScorer => web_scorer::records_of(encode_utf8(text)),
        Format::RunFit => run_fit::sorted_records_of(encode_utf8(text)),
        Format::Runsignup20240506Mhtml => runsignup_20240506_mhtml::page_records(text),
        Format::Runsignup => runsignup::records_of_text(encode_utf8(text)),
        Format::Athlinks => athlinks::records_of_text(encode_utf8(text)),
        Format::ChronoTrack => chrono_track::records_of_text(encode_utf8(text)),
        Format::Taos => taos::sorted_records_of(encode_utf8(text)),
        Format::AncientUltraSignup => ancient_ultra_signup::finishers_of(text),
        Format::UltraSignupMhtml => ultra_signup_mhtml::page_finishers(text),
        Format::RunsignupMhtml => runsignup_mhtml::records_of(encode_utf8(text)),
        Format::RaceRoster => race_roster::page_records(text),
        Format::ItsYourRace => its_your_race::records_of_text(encode_utf8(text)),
        Format::Csv => csv::records_of(text),
        Format::RaceResultMhtml => race_result_mhtml::page_records(text),
    }
}

/// The finishers that decide for `text` among the layouts from position
/// `from` on: those of the first layout whose extractor finds one finisher
/// at least.
pub open spec fn first_match(text: Seq<char>, from: int) -> Option<Seq<RecordView>>
    decreases formats().len() - from,
{
    if from < 0 || from >= formats().len() {
        None
    } else {
        match read_as(formats()[from], text) {
            Some(found) if found.len() > 0 => Some(found),
            _ => first_match(text, from + 1),
        }
    }
}

/// The finishers of the document `text`; none where no extractor finds
/// any.
pub open spec fn extracted(text: Seq<char>) -> Option<Seq<RecordView>> {
    first_match(text, 0)
}

/// The finishers of a source with the bytes `bytes`.
pub open spec fn records_of_source(bytes: Seq<u8>) -> Option<Seq<RecordView>> {
    extracted(contents_of(bytes))
}

/// The layout at position `i` in the order in which the layouts are tried.
pub fn format_at(i: usize) -> (format: Format)
    requires
        i < 16,
    ensures
        format == formats()[i as int],
        formats().len() == 16,
{
    if i == 0 {
        Format::UltraSignup
    } else if i == 1 {
        Format::CcrTiming
    } else if i == 2 {
        Format::WebScorer
    } else if i == 3 {
        Format::RunFit
    } else if i == 4 {
        Format::Runsignup20240506Mhtml
    } else if i == 5 {
        Format::Runsignup
    } else if i == 6 {
        Format::Athlinks
    } else if i == 7 {
        Format::ChronoTrack
    } else if i == 8 {
        Format::Taos
    } else if i == 9 {
        Format::AncientUltraSignup
    } else if i == 10 {
        Format::UltraSignupMhtml
    } else if i == 11 {
        Format::RunsignupMhtml
    } else if i == 12 {
        Format::RaceRoster
    } else if i == 13 {
        Format::ItsYourRace
    } else if i == 14 {
        Format::Csv
    } else {
        Format::RaceResultMhtml
    }
}

/// Reads `text` with the extractor of `format`.
pub fn names_and_times(format: Format, text: &str) -> (r: Option<Vec<Record>>)
    ensures
        r.deep_view() == read_as(format, text@),
{
    match format {
        Format::UltraSignup => ultra_signup::StatusesWithPlacements::names_and_times(text),
        Format::CcrTiming => ccr_timing::Placement::soloist_names_and_times(text),
        Format::WebScorer => web_scorer::Placement::names_and_times(text),
        Format::RunFit => run_fit::Placement::names_and_times(text),
        Format::Runsignup20240506Mhtml => runsignup_20240506_mhtml::Placement::names_and_times(
            text,
        ),
        Format::Runsignup => runsignup::Placement::names_and_times(text),
        Format::Athlinks => athlinks::Placement::names_and_times(text),
        Format::ChronoTrack => chrono_track::Placement::names_and_times(text),
        Format::Taos => taos::Placement::names_and_times(text),
        Format::AncientUltraSignup => ancient_ultra_signup::Placement::names_and_times(text),
        Format::UltraSignupMhtml => ultra_signup_mhtml::StatusesWithPlacements::names_and_times(
            text,
        ),
        Format::RunsignupMhtml => runsignup_mhtml::Placement::names_and_times(text),
        Format::RaceRoster => race_roster::Placement::names_and_times(text),
        Format::ItsYourRace => its_your_race::Placement::names_and_times(text),
        Format::Csv => csv::Placement::names_and_times(text),
        Format::RaceResultMhtml => race_result_mhtml::names_and_times(text),
    }
}

/// The finishers of the document `text`: the extractors are tried in
/// order, and the first that finds a finisher decides.
pub fn extract(text: &str) -> (r: Option<Vec<Record>>)
    ensures
        r.deep_view() == extracted(text@),
        r matches Some(found) ==> found.len() > 0,
{
    let mut i: usize = 0;
    while i < 16
        invariant
            i <= 16,
            formats().len() == 16,
            first_match(text@, 0) == first_match(text@, i as int),
        decreases 16 - i,
    {
        match names_and_times(format_at(i), text) {
            Some(found) => {
                if found.len() > 0 {
                    return Some(found);
                }
            },
            None => {},
        }
        i += 1;
    }
    None
}

/// The finishers of a source with the bytes `bytes`.
pub fn read_source(bytes: &[u8]) -> (r: Option<Vec<Record>>)
    ensures
        r.deep_view() == records_of_source(bytes@),
        r matches Some(found) ==> found.len() > 0,
{
    let text = contents(bytes);
    extract(text.as_str())
}

/// The finishers of a source depend on its bytes alone: what is read from
/// the same bytes twice is the same.
pub proof fn lemma_same_bytes_same_records(
    bytes: Seq<u8>,
    first: Option<Seq<RecordView>>,
    second: Option<Seq<RecordView>>,
)
    requires
        first == records_of_source(bytes),
        second == records_of_source(bytes),
    ensures
        first == second,
{
}

} // verus!
