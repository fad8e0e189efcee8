//! The settings a run works under, and the counts it keeps.

use vstd::prelude::*;

verus! {

/// What the planning and traversal logic reads of a run's configuration.
pub struct Opts {
    /// Where generated files are written.
    pub outpath: String,
    /// Where the markup says the generated files are found.
    pub prefix: String,
    /// The format to write in; empty to keep each input's own.
    pub extension: String,
    /// Keep the input's directory structure under `outpath`.
    pub is_nested: bool,
    /// Descend into directories found while walking.
    pub is_recurse: bool,
    /// Files of at most this many bytes are skipped.
    pub min_size: u64,
    /// The candidate widths, ascending; empty for the built-in table.
    pub sizes: Vec<u32>,
}

/// Counts kept over one run.
pub struct Metrics {
    /// Images fully processed.
    pub count: u32,
    /// Variants written, fallback ones included.
    pub resized: u32,
    /// Directory entries looked at.
    pub traversed: u32,
    /// Files skipped for being too small.
    pub skipped: u32,
}

impl Metrics {
    /// All counts at zero.
    pub fn new() -> (r: Metrics)
        ensures
            r.count == 0 && r.resized == 0 && r.traversed == 0 && r.skipped == 0,
    {
        Metrics { count: 0, resized: 0, traversed: 0, skipped: 0 }
    }

    /// Count one more directory entry looked at.
    pub fn record_traversed(&mut self)
        requires
            old(self).traversed < u32::MAX,
        ensures
            final(self).traversed == old(self).traversed + 1,
            final(self).count == old(self).count,
            final(self).resized == old(self).resized,
            final(self).skipped == old(self).skipped,
    {
        self.traversed = self.traversed + 1;
    }

    /// Count one more file skipped for its size.
    pub fn record_skipped(&mut self)
        requires
            old(self).skipped < u32::MAX,
        ensures
            final(self).skipped == old(self).skipped + 1,
            final(self).count == old(self).count,
            final(self).resized == old(self).resized,
            final(self).traversed == old(self).traversed,
    {
        self.skipped = self.skipped + 1;
    }

    /// Count one image whose fallback variant and `n` width variants were all
    /// written.
    pub fn record_image(&mut self, n: u32)
        requires
            old(self).count < u32::MAX,
            old(self).resized + 1 + n <= u32::MAX,
        ensures
            final(self).count == old(self).count + 1,
            final(self).resized == old(self).resized + 1 + n,
            final(self).traversed == old(self).traversed,
            final(self).skipped == old(self).skipped,
    {
        self.count = self.count + 1;
        self.resized = self.resized + 1 + n;
    }
}

} // verus!
