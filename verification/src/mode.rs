//! Which report is asked for.

use vstd::prelude::*;

verus! {

/// How the sources are reported.
#[derive(Clone, Copy, Debug, PartialEq, Eq, Structural)]
pub enum Mode {
    /// Who finished every source, by total time.
    TotalTimes,
    /// The files of one directory as the events of a series.
    Series,
    /// The directories of one directory as the series of a season.
    Season,
}

/// The report that the arguments ask for.  A single argument that is a
/// directory asks for a points league: for a season where the first entry
/// of the directory is a directory itself, else for a series.  Anything
/// else asks for total times.
pub open spec fn mode_of(arguments: nat, only_is_directory: bool, first_is_directory: bool) -> Mode {
    if arguments == 1 && only_is_directory {
        if first_is_directory {
            Mode::Season
        } else {
            Mode::Series
        }
    } else {
        Mode::TotalTimes
    }
}

/// The report that the arguments ask for: `arguments` is their number,
/// `only_is_directory` says whether the only argument is a directory, and
/// `first_is_directory` whether the first entry of that directory is one.
pub fn select(arguments: usize, only_is_directory: bool, first_is_directory: bool) -> (mode: Mode)
    ensures
        mode == mode_of(arguments as nat, only_is_directory, first_is_directory),
{
    if arguments == 1 && only_is_directory {
        if first_is_directory {
            Mode::Season
        } else {
            Mode::Series
        }
    } else {
        Mode::TotalTimes
    }
}

} // verus!
