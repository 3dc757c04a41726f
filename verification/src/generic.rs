use vstd::prelude::*;

use crate::square::traits::grid_of;

verus! {

/// Building a two-dimensional array by repeating one row.
pub trait ArrayFromDuplicatedRows<A>: Sized {
    /// The rows the built array holds.
    spec fn dup_rows_view(&self) -> Seq<Seq<A>>;

    /// An array of `count` copies of `row`.
    fn from_duplicated_rows(row: &Vec<A>, count: usize) -> (r: Self)
        ensures
            r.dup_rows_view().len() == count,
            forall|i: int| 0 <= i < count ==> (#[trigger] r.dup_rows_view()[i]) == row@,
    ;
}

impl<A: Copy> ArrayFromDuplicatedRows<A> for Vec<Vec<A>> {
    open spec fn dup_rows_view(&self) -> Seq<Seq<A>> {
        grid_of(self@)
    }

    fn from_duplicated_rows(row: &Vec<A>, count: usize) -> (r: Vec<Vec<A>>) {
        let w = row.len();
        let mut r: Vec<Vec<A>> = Vec::new();
        let mut i: usize = 0;
        while i < count
            invariant
                i <= count,
                w == row@.len(),
                r@.len() == i,
                forall|k: int| 0 <= k < i ==> (#[trigger] r@[k])@ == row@,
            decreases count - i,
        {
            let mut copy: Vec<A> = Vec::new();
            let mut t: usize = 0;
            while t < w
                invariant
                    t <= w,
                    w == row@.len(),
                    copy@.len() == t,
                    forall|u: int| 0 <= u < t ==> (#[trigger] copy@[u]) == row@[u],
                decreases w - t,
            {
                let v: A = row[t];
                copy.push(v);
                t += 1;
            }
            proof {
                assert(copy@ =~= row@);
            }
            r.push(copy);
            i += 1;
        }
        proof {
            assert(forall|i: int|
                0 <= i < count ==> (#[trigger] grid_of(r@)[i]) == r@[i]@);
        }
        r
    }
}

} // verus!
