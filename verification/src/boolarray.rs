use vstd::prelude::*;

verus! {

/// The number of `true` values in a boolean sequence.
pub open spec fn count_trues(s: Seq<bool>) -> int
    decreases s.len(),
{
    if s.len() == 0 {
        0
    } else {
        count_trues(s.drop_last()) + if s.last() {
            1int
        } else {
            0int
        }
    }
}

/// Summary queries over a one-dimensional boolean array.
pub trait ArrayWithBoolIterMethods {
    /// The boolean contents the queries speak about.
    spec fn bool_view(&self) -> Seq<bool>;

    /// True when at least one element is `true`.
    fn any(&self) -> (r: bool)
        ensures
            r == exists|i: int| 0 <= i < self.bool_view().len() && self.bool_view()[i],
    ;

    /// True when every element is `true`.
    fn all(&self) -> (r: bool)
        ensures
            r == forall|i: int| 0 <= i < self.bool_view().len() ==> self.bool_view()[i],
    ;

    /// The number of `true` elements.
    fn count(&self) -> (r: usize)
        ensures
            r == count_trues(self.bool_view()),
    ;

    /// The indices of the `true` elements, in ascending order.
    fn indices(&self) -> (r: Vec<usize>)
        ensures
            forall|t: int|
                0 <= t < r@.len() ==> (#[trigger] r@[t]) < self.bool_view().len()
                    && self.bool_view()[r@[t] as int],
            forall|t1: int, t2: int| 0 <= t1 < t2 < r@.len() ==> r@[t1] < r@[t2],
            forall|i: int|
                0 <= i < self.bool_view().len() && self.bool_view()[i] ==> r@.contains(i as usize),
    ;
}

impl ArrayWithBoolIterMethods for Vec<bool> {
    open spec fn bool_view(&self) -> Seq<bool> {
        self@
    }

    fn any(&self) -> (r: bool) {
        let n = self.len();
        let mut i: usize = 0;
        while i < n
            invariant
                i <= n,
                n == self@.len(),
                forall|k: int| 0 <= k < i ==> !self@[k],
            decreases n - i,
        {
            if self[i] {
                proof {
                    assert(self.bool_view()[i as int]);
                }
                return true;
            }
            i += 1;
        }
        proof {
            assert(forall|k: int| 0 <= k < n ==> !self.bool_view()[k]);
        }
        false
    }

    fn all(&self) -> (r: bool) {
        let n = self.len();
        let mut i: usize = 0;
        while i < n
            invariant
                i <= n,
                n == self@.len(),
                forall|k: int| 0 <= k < i ==> self@[k],
            decreases n - i,
        {
            if !self[i] {
                proof {
                    assert(!self.bool_view()[i as int]);
                }
                return false;
            }
            i += 1;
        }
        proof {
            assert(forall|k: int| 0 <= k < n ==> self.bool_view()[k]);
        }
        true
    }

    fn count(&self) -> (r: usize) {
        let n = self.len();
        let mut c: usize = 0;
        let mut i: usize = 0;
        while i < n
            invariant
                i <= n,
                n == self@.len(),
                c == count_trues(self@.subrange(0, i as int)),
                c <= i,
            decreases n - i,
        {
            proof {
                let pre = self@.subrange(0, i as int + 1);
                assert(pre.drop_last() =~= self@.subrange(0, i as int));
                assert(pre.last() == self@[i as int]);
            }
            if self[i] {
                c += 1;
            }
            i += 1;
        }
        proof {
            assert(self@.subrange(0, n as int) =~= self@);
        }
        c
    }

    fn indices(&self) -> (r: Vec<usize>) {
        let n = self.len();
        let mut r: Vec<usize> = Vec::new();
        let mut i: usize = 0;
        while i < n
            invariant
                i <= n,
                n == self@.len(),
                forall|t: int|
                    0 <= t < r@.len() ==> (#[trigger] r@[t]) < i && self@[r@[t] as int],
                forall|t1: int, t2: int| 0 <= t1 < t2 < r@.len() ==> r@[t1] < r@[t2],
                forall|k: int| 0 <= k < i && self@[k] ==> r@.contains(k as usize),
            decreases n - i,
        {
            if self[i] {
                let ghost old_r = r@;
                r.push(i);
                proof {
                    assert(r@[r@.len() - 1] == i);
                    assert forall|k: int| 0 <= k < i + 1 && self@[k] implies r@.contains(
                        k as usize,
                    ) by {
                        if k < i {
                            assert(old_r.contains(k as usize));
                            let t = choose|t: int|
                                0 <= t < old_r.len() && (#[trigger] old_r[t]) == (k as usize);
                            assert(r@[t] == k as usize);
                        } else {
                            assert(r@[r@.len() - 1] == k as usize);
                        }
                    }
                }
            }
            i += 1;
        }
        r
    }
}

/// Using a boolean array as a mask over an equally sized array: a function
/// is applied, element by element, exactly at the `true` positions.
pub trait ArrayWithBoolMaskMethods<A: Copy, F: Fn(A) -> A>: ArrayWithBoolIterMethods {
    /// Replace `array[i]` with `f(array[i])` wherever element `i` of the
    /// mask is `true`; every other element is left unchanged.
    fn mask_apply_inplace(&self, array: &mut Vec<A>, f: &F)
        requires
            old(array)@.len() == self.bool_view().len(),
            forall|i: int|
                0 <= i < old(array)@.len() && self.bool_view()[i] ==> call_requires(
                    *f,
                    ((#[trigger] old(array)@[i]),),
                ),
        ensures
            final(array)@.len() == old(array)@.len(),
            forall|i: int|
                0 <= i < old(array)@.len() && self.bool_view()[i] ==> call_ensures(
                    *f,
                    (old(array)@[i],),
                    (#[trigger] final(array)@[i]),
                ),
            forall|i: int|
                0 <= i < old(array)@.len() && !self.bool_view()[i] ==> (
                #[trigger] final(array)@[i]) == old(array)@[i],
    ;
}

impl<A: Copy, F: Fn(A) -> A> ArrayWithBoolMaskMethods<A, F> for Vec<bool> {
    fn mask_apply_inplace(&self, array: &mut Vec<A>, f: &F) {
        let n = array.len();
        let mut i: usize = 0;
        while i < n
            invariant
                i <= n,
                n == array@.len(),
                n == old(array)@.len(),
                n == self@.len(),
                forall|k: int|
                    0 <= k < n && self@[k] ==> call_requires(*f, ((#[trigger] old(array)@[k]),)),
                forall|k: int| i <= k < n ==> (#[trigger] array@[k]) == old(array)@[k],
                forall|k: int|
                    0 <= k < i && self@[k] ==> call_ensures(
                        *f,
                        (old(array)@[k],),
                        (#[trigger] array@[k]),
                    ),
                forall|k: int|
                    0 <= k < i && !self@[k] ==> (#[trigger] array@[k]) == old(array)@[k],
            decreases n - i,
        {
            if self[i] {
                let x: A = array[i];
                let y: A = f(x);
                array[i] = y;
            }
            i += 1;
        }
    }
}

} // verus!
