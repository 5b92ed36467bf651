//! The display options that rendering reads.
use vstd::prelude::*;
use crate::join::char_string;

verus! {

/// The arrow shown between a link and its target by default.
pub const DEFAULT_SYMLINK_ARROW: char = '\u{21d2}';

/// Display options.
pub struct Flags {
    /// The text shown between a symbolic link and its target.
    pub symlink_arrow: String,
}

impl Flags {
    pub fn new(symlink_arrow: String) -> (r: Flags)
        ensures
            r.symlink_arrow@ == symlink_arrow@,
    {
        Flags { symlink_arrow }
    }
}

impl Default for Flags {
    fn default() -> (r: Flags)
        ensures
            r.symlink_arrow@ == seq![DEFAULT_SYMLINK_ARROW],
    {
        Flags { symlink_arrow: char_string(DEFAULT_SYMLINK_ARROW) }
    }
}

} // verus!
