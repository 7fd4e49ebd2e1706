//! The sources of candidate spellings: a dictionary, and a corrector that
//! tolerates typing errors.

use vstd::prelude::*;
use crate::algo::spelling::Candidate;

verus! {

/// Supplies the spellings that start at a position of the input.
pub trait Dictionary {
    /// The spellings that start at `position`. They depend on the position
    /// alone.
    spec fn spellings(&self, position: usize) -> Seq<Candidate>;

    fn lookup(&self, position: usize) -> (found: Vec<Candidate>)
        ensures
            found@ == self.spellings(position),
    ;
}

/// Supplies alternate spellings, for an input that may hold typing errors.
pub trait Corrector {
    /// The alternate spellings that start at `position`. They depend on the
    /// position alone.
    spec fn suggestions(&self, position: usize) -> Seq<Candidate>;

    fn suggest(&self, position: usize) -> (found: Vec<Candidate>)
        ensures
            found@ == self.suggestions(position),
    ;
}

/// The spellings that are looked up at `position`: the corrector's where
/// `corrected` holds and there is a corrector, the dictionary's otherwise.
pub open spec fn source<D: Dictionary, C: Corrector>(
    dictionary: &D,
    corrector: Option<&C>,
    position: usize,
    corrected: bool,
) -> Seq<Candidate> {
    if !corrected {
        dictionary.spellings(position)
    } else if corrector.is_some() {
        corrector.unwrap().suggestions(position)
    } else {
        Seq::empty()
    }
}

/// Spellings held in memory, one row of them for each position.
#[derive(Debug)]
pub struct SpellingTable {
    pub rows: Vec<Vec<Candidate>>,
}

impl SpellingTable {
    /// The row for `position`; empty behind the last row.
    pub open spec fn row(&self, position: usize) -> Seq<Candidate> {
        if position < self.rows@.len() {
            self.rows@[position as int]@
        } else {
            Seq::empty()
        }
    }

    pub fn new(rows: Vec<Vec<Candidate>>) -> (table: SpellingTable)
        ensures
            table.rows == rows,
    {
        SpellingTable { rows }
    }

    /// A copy of the row for `position`.
    pub fn fetch(&self, position: usize) -> (found: Vec<Candidate>)
        ensures
            found@ == self.row(position),
    {
        let mut found: Vec<Candidate> = Vec::new();
        if position < self.rows.len() {
            let row = &self.rows[position];
            let mut i: usize = 0;
            while i < row.len()
                invariant
                    i <= row@.len(),
                    found@ == row@.subrange(0, i as int),
                decreases row@.len() - i,
            {
                found.push(row[i]);
                i += 1;
                assert(found@ =~= row@.subrange(0, i as int));
            }
            assert(row@.subrange(0, i as int) =~= row@);
        }
        found
    }
}

impl Dictionary for SpellingTable {
    open spec fn spellings(&self, position: usize) -> Seq<Candidate> {
        self.row(position)
    }

    fn lookup(&self, position: usize) -> (found: Vec<Candidate>) {
        self.fetch(position)
    }
}

impl Corrector for SpellingTable {
    open spec fn suggestions(&self, position: usize) -> Seq<Candidate> {
        self.row(position)
    }

    fn suggest(&self, position: usize) -> (found: Vec<Candidate>) {
        self.fetch(position)
    }
}

} // verus!
