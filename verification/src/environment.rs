//! What a formula is evaluated against.

use crate::grid::Grid;
use crate::model::{CellAddress, Value};
use vstd::prelude::*;

verus! {

/// A read-only view of the values that the cells held last.
pub struct Environment<'a> {
    grid: &'a Grid,
}

impl<'a> View for Environment<'a> {
    type V = Map<CellAddress, Result<Value, Seq<char>>>;

    closed spec fn view(&self) -> Map<CellAddress, Result<Value, Seq<char>>> {
        self.grid@
    }
}

impl<'a> Environment<'a> {
    pub fn new(grid: &'a Grid) -> (r: Environment<'a>)
        ensures
            r@ == grid@,
    {
        Environment { grid }
    }

    pub fn grid(&self) -> (r: &Grid)
        ensures
            r@ == self@,
    {
        self.grid
    }
}

} // verus!
