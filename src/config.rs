use vstd::prelude::*;

verus! {

/// The display-affecting options of one listing run.
pub struct Cli {
    /// Paths to list; empty means the current directory.
    pub paths: Vec<String>,
    /// Show hidden names and the `.` / `..` pseudo-entries.
    pub all: bool,
    /// Show hidden names, without `.` and `..`.
    pub almost_all: bool,
    /// List directories themselves, not their contents.
    pub directory: bool,
    /// Descend into subdirectories.
    pub recursive: bool,
    /// Append a type indicator to each name.
    pub classify: bool,
    /// Long listing.
    pub long: bool,
    /// Long listing without group.
    pub long_o: bool,
    /// Long listing without owner.
    pub long_g: bool,
    /// In a long listing, omit group names.
    pub no_group: bool,
    /// In a long listing, omit owner names.
    pub no_owner: bool,
    /// Quote every name with double quotes.
    pub quote_name: bool,
    /// Output width in cells; zero means unlimited.
    pub width: Option<usize>,
    /// One name per line.
    pub one: bool,
    /// Names separated by NUL characters.
    pub zero: bool,
}

} // verus!
