use vstd::prelude::*;

use crate::composite::{Composite, CompositeModel};

verus! {

/// One row of a table: an ordered sequence of cells.
///
/// A parsed row always has at least one cell: a terminating delimiter
/// produces no further cell during parsing, and the first cell is kept
/// even when it is empty.
#[derive(Debug, PartialEq, Eq)]
pub struct TableRow<'a> {
    pub cells: Vec<Composite<'a>>,
}

impl<'a> View for TableRow<'a> {
    type V = Seq<CompositeModel>;

    open spec fn view(&self) -> Seq<CompositeModel> {
        self.cells@.map_values(|c: Composite<'a>| c@)
    }
}

impl<'a> Clone for TableRow<'a> {
    /// The copy has the same value as the original.
    fn clone(&self) -> (r: Self)
        ensures
            r@ == self@,
    {
        let mut cells: Vec<Composite<'a>> = Vec::new();
        let mut i: usize = 0;
        while i < self.cells.len()
            invariant
                0 <= i <= self.cells.len(),
                cells@.len() == i,
                forall|j: int| 0 <= j < i ==> #[trigger] cells@[j]@ == self.cells@[j]@,
            decreases self.cells.len() - i,
        {
            let c = self.cells[i].clone();
            proof {
                assert(c@ == self.cells@[i as int]@);
            }
            cells.push(c);
            i += 1;
        }
        let r = TableRow { cells };
        proof {
            assert(r@ =~= self@);
        }
        r
    }
}

} // verus!
