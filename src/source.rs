use vstd::prelude::*;

verus! {

/// A position in source text: one-based line and column.
#[derive(Copy, Clone, Debug, PartialEq, Eq, Structural)]
pub struct SrcLoc {
    pub line: usize,
    pub col: usize,
}

impl SrcLoc {
    pub fn new(line: usize, col: usize) -> (r: Self)
        ensures
            r.line == line,
            r.col == col,
    {
        SrcLoc { line, col }
    }
}

/// A span of source text: where it starts and how many characters it covers.
#[derive(Copy, Clone, Debug, PartialEq, Eq, Structural)]
pub struct SrcRange {
    pub loc: SrcLoc,
    pub len: usize,
}

impl SrcRange {
    pub fn new(loc: SrcLoc, len: usize) -> (r: Self)
        ensures
            r.loc == loc,
            r.len == len,
    {
        SrcRange { loc, len }
    }

    /// The same range, covering `n` more characters.
    pub fn grow_by(self, n: usize) -> (r: Self)
        requires
            self.len + n <= usize::MAX,
        ensures
            r.loc == self.loc,
            r.len == self.len + n,
    {
        SrcRange { loc: self.loc, len: self.len + n }
    }
}

} // verus!
