//! Race results from many timing services, merged into leaderboards.
//!
//! Each supported service publishes its results in a layout of its own.  An
//! extractor per layout turns a document into finishers (name, elapsed time,
//! optional sex category); the finishers of several documents are then merged
//! by canonical name and reported either as a total-time leaderboard or as a
//! percentage-of-fastest points league.
//!
//! The way of a source through the library:
//!
//! - [`document`] turns its bytes into text;
//! - [`dispatch`] tries the extractors of [`parser`] on the text, in a fixed
//!   order, and takes the finishers of the first that finds any;
//! - [`merge`] enters the finishers of each source into the table of
//!   results, and [`report`] makes the leaderboard by total time of it;
//! - or [`score`] scores the finishers of each event, and ranks the persons
//!   of a series or a season.
//!
//! Underneath are [`duration`] (elapsed time, read and written), [`names`]
//! (canonical names), [`category`] (sex categories), [`order`] (orders and
//! sorting), [`scan`] and [`text`] (text as bytes and as strings), and the
//! doors to the outside crates that read HTML ([`html`]) and JSON
//! ([`json`]).  [`mode`] tells which report the arguments ask for.

pub mod category;
pub mod dispatch;
pub mod document;
pub mod duration;
pub mod html;
pub mod json;
pub mod merge;
pub mod mode;
pub mod names;
pub mod order;
pub mod parser;
pub mod report;
pub mod scan;
pub mod score;
pub mod text;

use crate::duration::Duration;
use vstd::prelude::*;

verus! {

/// One finisher as an extractor hands it on: who, how long, and in which
/// category where the document says so.
#[derive(Clone, Debug, PartialEq, Eq, PartialOrd, Ord)]
pub struct Record {
    pub name: String,
    pub duration: Duration,
    pub category: Option<MaleOrFemale>,
}

/// A finisher in specifications: the name as characters, the time in
/// nanoseconds.
pub struct RecordView {
    pub name: Seq<char>,
    pub nanos: nat,
    pub category: Option<MaleOrFemale>,
}

impl View for Record {
    type V = RecordView;

    open spec fn view(&self) -> RecordView {
        RecordView { name: self.name@, nanos: self.duration@, category: self.category }
    }
}

impl DeepView for Record {
    type V = RecordView;

    open spec fn deep_view(&self) -> RecordView {
        self@
    }
}

/// The items of `items` as specifications see them.
pub open spec fn deep<T: DeepView>(items: Seq<T>) -> Seq<T::V> {
    Seq::new(items.len(), |i: int| items[i].deep_view())
}

/// The sex category a finisher was scored in.
#[derive(Clone, Copy, Debug, PartialEq, Eq, Structural, PartialOrd, Ord, Hash)]
pub enum MaleOrFemale {
    Male,
    Female,
    NonBinary,
}

impl MaleOrFemale {
    /// The position of the category among the scoring buckets.
    pub open spec fn ordinal_spec(self) -> nat {
        match self {
            MaleOrFemale::Male => 0,
            MaleOrFemale::Female => 1,
            MaleOrFemale::NonBinary => 2,
        }
    }

    /// The position of the category among the scoring buckets: 0 for male,
    /// 1 for female, 2 for non-binary.
    pub fn ordinal(self) -> (n: usize)
        ensures
            n == self.ordinal_spec(),
    {
        match self {
            MaleOrFemale::Male => 0,
            MaleOrFemale::Female => 1,
            MaleOrFemale::NonBinary => 2,
        }
    }
}

} // verus!
