//! What the user asked for.

use vstd::prelude::*;
use crate::color::ColorScheme;

verus! {

/// The tree depth that stands for no limit.
pub const UNLIMITED_DEPTH: usize = usize::MAX;

/// The depth of a tree listing where none is given.
pub const DEFAULT_TREE_DEPTH: usize = 3;

/// The options of a listing. They are set once and then only read.
#[derive(Clone, Copy, Debug)]
pub struct Options {
    /// One entry per line.
    pub one_per_line: bool,
    /// Show entries whose name starts with a dot.
    pub all: bool,
    /// Set by the flag for all entries but `.` and `..`, which a listing
    /// never holds; it shows what `all` shows.
    pub almost_all: bool,
    /// Show directories only.
    pub dirs_only: bool,
    /// Show no directories.
    pub files_only: bool,
    /// Long format.
    pub long: bool,
    /// Print a summary after the listing.
    pub report: bool,
    /// `None` for a flat listing; for a tree, the number of levels to show,
    /// or `UNLIMITED_DEPTH`.
    pub tree_depth: Option<usize>,
    /// Mark entries with their version-control state.
    pub git_status: bool,
    /// Directories before everything else.
    pub sort_dirs_first: bool,
    /// Directories after everything else.
    pub sort_files_first: bool,
    /// Newest first.
    pub sort_time: bool,
    /// Sizes in units of 1024 rather than in bytes.
    pub human_readable: bool,
    /// The palette of the listing.
    pub color_scheme: ColorScheme,
}

impl Options {
    /// The options of a plain call: a flat listing in columns, sorted by
    /// name, sizes for the human reader, dark colours.
    pub open spec fn defaults() -> Options {
        Options {
            one_per_line: false,
            all: false,
            almost_all: false,
            dirs_only: false,
            files_only: false,
            long: false,
            report: false,
            tree_depth: None,
            git_status: false,
            sort_dirs_first: false,
            sort_files_first: false,
            sort_time: false,
            human_readable: true,
            color_scheme: ColorScheme::dark_colors(),
        }
    }
}

impl Default for Options {
    fn default() -> (opts: Self)
        ensures
            opts == Options::defaults(),
    {
        Options {
            one_per_line: false,
            all: false,
            almost_all: false,
            dirs_only: false,
            files_only: false,
            long: false,
            report: false,
            tree_depth: None,
            git_status: false,
            sort_dirs_first: false,
            sort_files_first: false,
            sort_time: false,
            human_readable: true,
            color_scheme: ColorScheme::dark(),
        }
    }
}

} // verus!
