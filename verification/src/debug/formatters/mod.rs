//! How values are presented: as text, and by their children.
pub mod children;
pub mod choice;
pub mod map;
pub mod present;
pub mod scalar;
pub mod tree;
pub mod vector;

use vstd::prelude::*;

verus! {

/// How many children a value has.
#[derive(Debug, Clone, Copy, PartialEq, Eq, Structural)]
pub struct ChildCounts {
    /// The number of indexed children the variable has.
    ///
    /// Indexed children usually correspond to elements in container data types and
    /// usually have names like `[0]`, `[1]`, `[2]`, and so on.
    pub indexed: usize,
    /// The number of named children the variable has.
    ///
    /// Named children usually correspond to members in structured data types and have
    /// names corresponding to the names of those members.
    pub named: usize,
}

impl ChildCounts {
    /// Children counts for a variable with `indexed` indexed children and `named` named children.
    pub fn mixed(indexed: usize, named: usize) -> (r: Self)
        ensures
            r.indexed == indexed,
            r.named == named,
    {
        ChildCounts { indexed, named }
    }

    /// Children counts for a variable with `count` indexed children and no named children.
    pub fn indexed(count: usize) -> (r: Self)
        ensures
            r.indexed == count,
            r.named == 0,
    {
        ChildCounts { indexed: count, named: 0 }
    }

    /// Children counts for a variable with `count` named children and no indexed children.
    pub fn named(count: usize) -> (r: Self)
        ensures
            r.indexed == 0,
            r.named == count,
    {
        ChildCounts { indexed: 0, named: count }
    }

    /// Children counts for a variable with no children.
    pub fn none() -> (r: Self)
        ensures
            r.indexed == 0,
            r.named == 0,
    {
        ChildCounts { indexed: 0, named: 0 }
    }

    /// The number of all children.
    pub fn total(&self) -> (r: usize)
        requires
            self.indexed + self.named <= usize::MAX,
        ensures
            r == self.indexed + self.named,
    {
        self.indexed + self.named
    }

    /// Whether there are no children.
    pub fn is_empty(&self) -> (r: bool)
        ensures
            r == (self.indexed == 0 && self.named == 0),
    {
        self.indexed == 0 && self.named == 0
    }
}

impl Default for ChildCounts {
    fn default() -> (r: Self)
        ensures
            r.indexed == 0,
            r.named == 0,
    {
        ChildCounts::none()
    }
}

} // verus!
