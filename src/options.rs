use vstd::prelude::*;

verus! {

/// The filters of one walk, fixed for the whole of it.
#[derive(Clone, Copy, Debug, PartialEq, Eq)]
pub struct WalkOptions {
    /// Walk into hidden files and directories too (names with a leading `.`).
    pub include_hidden: bool,
    /// Leave out what the tree's ignore-pattern files exclude.
    pub respect_ignore_rules: bool,
}

impl Default for WalkOptions {
    /// Hidden entries are left out and ignore rules are respected.
    fn default() -> (r: Self)
        ensures
            !r.include_hidden,
            r.respect_ignore_rules,
    {
        WalkOptions { include_hidden: false, respect_ignore_rules: true }
    }
}

} // verus!
