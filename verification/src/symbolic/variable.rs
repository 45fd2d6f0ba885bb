use vstd::prelude::*;

verus! {

/// Which witness table (or vector) a symbolic variable refers to.
///
/// `offset` is the row shift relative to the current row: `0` is the local
/// row and `1` is the next row.
#[derive(Clone, Copy, Debug, PartialEq, Eq, Structural, Hash)]
pub enum Entry {
    Preprocessed { offset: usize },
    Main { part_index: usize, offset: usize },
    Public,
    Permutation { offset: usize },
    Challenge,
    Exposed,
}

/// A reference to one cell of the witness: the table it lives in and the
/// column (or vector position) inside that table.
#[derive(Clone, Copy, Debug, PartialEq, Eq, Structural, Hash)]
pub struct SymbolicVariable {
    pub entry: Entry,
    pub index: usize,
}

impl Entry {
    /// The row shift carried by the entry, if it refers to a trace matrix.
    pub open spec fn spec_offset(self) -> Option<usize> {
        match self {
            Entry::Preprocessed { offset } => Some(offset),
            Entry::Main { offset, .. } => Some(offset),
            Entry::Permutation { offset } => Some(offset),
            Entry::Public => None,
            Entry::Challenge => None,
            Entry::Exposed => None,
        }
    }

    /// The row shift carried by the entry, if it refers to a trace matrix.
    pub fn offset(&self) -> (r: Option<usize>)
        ensures
            r == self.spec_offset(),
    {
        match self {
            Entry::Preprocessed { offset } => Some(*offset),
            Entry::Main { offset, .. } => Some(*offset),
            Entry::Permutation { offset } => Some(*offset),
            Entry::Public => None,
            Entry::Challenge => None,
            Entry::Exposed => None,
        }
    }
}

impl SymbolicVariable {
    pub fn new(entry: Entry, index: usize) -> (v: Self)
        ensures
            v.entry == entry,
            v.index == index,
    {
        SymbolicVariable { entry, index }
    }

    /// The algebraic degree of a variable, which is always one.
    pub open spec fn spec_degree_multiple(self) -> usize {
        1
    }

    /// The algebraic degree of a variable, which is always one.
    pub fn degree_multiple(&self) -> (d: usize)
        ensures
            d == self.spec_degree_multiple(),
    {
        1
    }
}

} // verus!
