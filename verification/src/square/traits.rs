use vstd::prelude::*;

use rayon::iter::IntoParallelRefIterator;
use rayon::iter::ParallelIterator;

use super::super::primitives::InitValue;
use super::func::RowSlice;
use super::func::covering_chain;
use super::func::mirror_along_diagonal;
use super::func::partition_arith_fits;
use super::func::square_rows;
use super::func::trapizoid_slices_of_lower_half;

verus! {

/// Errors of the square-shaped pairwise computation.
#[derive(Clone, Copy, Debug, PartialEq, Eq, Structural)]
pub enum SquareArrayError {
    /// The rows of the input matrix do not all have the same length;
    /// detected before any work is scheduled.
    InvalidShape,
    /// The pairwise function returned a row vector of the wrong length for
    /// some row; fatal to the whole call, no partial matrix is returned.
    WorkerFailure,
}

/// The views of a matrix's rows: the grid of its cells.
pub open spec fn grid_of<A>(rows: Seq<Vec<A>>) -> Seq<Seq<A>> {
    rows.map_values(|r: Vec<A>| r@)
}

/// All rows of the grid have the same length as its first row.
pub open spec fn rect_grid<A>(g: Seq<Seq<A>>) -> bool {
    forall|i: int| 0 <= i < g.len() ==> (#[trigger] g[i]).len() == g[0].len()
}

/// Whether the caller asked for the upper triangle to be filled in;
/// mirroring is the default.
pub open spec fn mirror_requested(mirror: Option<bool>) -> bool {
    match mirror {
        Some(b) => b,
        None => true,
    }
}

/// The arguments handed to the pairwise function for row `i` of the grid
/// `g`: a borrow of row `i` itself and a borrow of the prefix of rows
/// `[0, i]`, so that the diagonal pair is always included.
pub open spec fn row_args<A>(g: Seq<Seq<A>>, i: int, r: &Vec<A>, p: &[Vec<A>]) -> bool {
    &&& r@ == g[i]
    &&& p@.len() == i + 1
    &&& forall|k: int| 0 <= k <= i ==> (#[trigger] p@[k])@ == g[k]
}

/// `out` is a value the pairwise function could return when called on the
/// arguments for row `i`.
pub open spec fn row_output<A, F: Fn(&Vec<A>, &[Vec<A>]) -> Vec<A>>(
    f: F,
    g: Seq<Seq<A>>,
    i: int,
    out: Seq<A>,
) -> bool {
    exists|r: &Vec<A>, p: &[Vec<A>], v: Vec<A>|
        row_args(g, i, r, p) && #[trigger] call_ensures(f, (r, p), v) && v@ == out
}

/// The pairwise function accepts the row arguments of every row of `g`.
pub open spec fn accepts_rows<A, F: Fn(&Vec<A>, &[Vec<A>]) -> Vec<A>>(
    f: F,
    g: Seq<Seq<A>>,
) -> bool {
    forall|i: int, r: &Vec<A>, p: &[Vec<A>]|
        0 <= i < g.len() && #[trigger] row_args(g, i, r, p) ==> call_requires(f, (r, p))
}

/// Every value the pairwise function can return for row `i` has the
/// required length `i + 1`: one cell per column of the lower triangle.
pub open spec fn sized_outputs<A, F: Fn(&Vec<A>, &[Vec<A>]) -> Vec<A>>(
    f: F,
    g: Seq<Seq<A>>,
) -> bool {
    forall|i: int, out: Seq<A>|
        0 <= i < g.len() && #[trigger] row_output(f, g, i, out) ==> out.len() == i + 1
}

/// The pairwise function is deterministic over the grid: any two values it
/// can return for the same row are equal.
pub open spec fn deterministic_rows<A, F: Fn(&Vec<A>, &[Vec<A>]) -> Vec<A>>(
    f: F,
    g: Seq<Seq<A>>,
) -> bool {
    forall|i: int, o1: Seq<A>, o2: Seq<A>|
        0 <= i < g.len() && #[trigger] row_output(f, g, i, o1) && #[trigger] row_output(
            f,
            g,
            i,
            o2,
        ) ==> o1 == o2
}

/// The contract of a finished pairwise result over the input grid `g`:
/// an `n×n` matrix whose row `i` holds, in columns `0..=i`, a vector the
/// pairwise function could return for row `i`; above the diagonal it holds
/// either the mirror image of the lower triangle or, when mirroring was not
/// requested, the untouched neutral fill.
pub open spec fn pairwise_result<A: InitValue, F: Fn(&Vec<A>, &[Vec<A>]) -> Vec<A>>(
    f: F,
    g: Seq<Seq<A>>,
    res: Seq<Seq<A>>,
    mirror: bool,
) -> bool {
    &&& res.len() == g.len()
    &&& forall|i: int| 0 <= i < res.len() ==> (#[trigger] res[i]).len() == g.len()
    &&& forall|i: int|
        0 <= i < res.len() ==> row_output(f, g, i, (#[trigger] res[i]).subrange(0, i + 1))
    &&& if mirror {
        forall|i: int, j: int| 0 <= i < j < res.len() ==> res[i][j] == res[j][i]
    } else {
        forall|i: int, j: int| 0 <= i < j < res.len() ==> (#[trigger] res[i][j]).is_init()
    }
}

/// What one worker hands back for one slice: either the checked row
/// vectors for the slice's rows in ascending order, or nothing because the
/// pairwise function returned a vector of the wrong length for some row.
pub open spec fn slice_block<A, F: Fn(&Vec<A>, &[Vec<A>]) -> Vec<A>>(
    f: F,
    g: Seq<Seq<A>>,
    sl: RowSlice,
    out: Option<Vec<Vec<A>>>,
) -> bool {
    match out {
        Some(rows) => {
            &&& rows@.len() == sl.end - sl.start + 1
            &&& forall|k: int|
                0 <= k < rows@.len() ==> row_output(f, g, sl.start + k, (#[trigger] rows@[k])@)
            &&& forall|k: int|
                0 <= k < rows@.len() ==> (#[trigger] rows@[k])@.len() == sl.start + k + 1
        },
        None => exists|i: int, bad: Seq<A>|
            0 <= i < g.len() && #[trigger] row_output(f, g, i, bad) && bad.len() != i + 1,
    }
}

/// Compute the pairwise row vectors for the rows `start..=end`, in
/// ascending order, checking that each returned vector has the required
/// length `row + 1`.
fn slice_rows<A, F>(arr: &Vec<Vec<A>>, start: usize, end: usize, f: &F) -> (out: Option<
    Vec<Vec<A>>,
>) where A: Copy, F: Fn(&Vec<A>, &[Vec<A>]) -> Vec<A>
    requires
        start <= end < arr@.len(),
        accepts_rows(*f, grid_of(arr@)),
    ensures
        slice_block(*f, grid_of(arr@), RowSlice { start, end }, out),
{
    let ghost g = grid_of(arr@);
    let n = arr.len();
    let mut rows: Vec<Vec<A>> = Vec::new();
    let mut i: usize = start;
    while i <= end
        invariant
            start <= i <= end + 1,
            end < n,
            n == arr@.len(),
            g == grid_of(arr@),
            accepts_rows(*f, g),
            rows@.len() == i - start,
            forall|k: int|
                0 <= k < rows@.len() ==> row_output(*f, g, start + k, (#[trigger] rows@[k])@),
            forall|k: int|
                0 <= k < rows@.len() ==> (#[trigger] rows@[k])@.len() == start + k + 1,
        decreases end + 1 - i,
    {
        let prefix: &[Vec<A>] = &arr.as_slice()[0..i + 1];
        let row: &Vec<A> = &prefix[i];
        proof {
            assert(row_args(g, i as int, row, prefix));
        }
        let v: Vec<A> = f(row, prefix);
        proof {
            assert(row_output(*f, g, i as int, v@));
        }
        if v.len() != i + 1 {
            proof {
                assert(row_output(*f, g, i as int, v@) && v@.len() != i + 1);
            }
            return None;
        }
        rows.push(v);
        i += 1;
    }
    Some(rows)
}

/// Relies on rayon's `par_iter().map(..).collect()` on a vector: the
/// closure is applied to every element, and collecting an indexed parallel
/// iterator into a `Vec` keeps the input's order.
#[verifier::external_body]
fn par_map_slices<A, F>(arr: &Vec<Vec<A>>, slices: &Vec<RowSlice>, f: &F) -> (out: Vec<
    Option<Vec<Vec<A>>>,
>) where
    A: Copy + Send + Sync,
    F: Fn(&Vec<A>, &[Vec<A>]) -> Vec<A> + Send + Sync,

    requires
        forall|k: int|
            0 <= k < slices@.len() ==> (#[trigger] slices@[k]).start <= slices@[k].end
                && slices@[k].end < arr@.len(),
        accepts_rows(*f, grid_of(arr@)),
    ensures
        out@.len() == slices@.len(),
        forall|k: int|
            0 <= k < out@.len() ==> slice_block(*f, grid_of(arr@), slices@[k], (#[trigger] out@[k])),
{
    slices.par_iter().map(|sl: &RowSlice| slice_rows(arr, sl.start, sl.end, f)).collect()
}

/// A square 2-dimensional result from applying a function between each
/// pair of rows of a matrix.
///
/// The pairwise function is evaluated only once per unordered pair of
/// rows: row `i` is paired with the prefix of rows `[0, i]`, and the
/// resulting vector of length `i + 1` fills columns `0..=i` of result row
/// `i`.  The triangular workload is split over up to `workers` parallel
/// workers by `trapizoid_slices_of_lower_half`.  When `mirror` is not
/// `Some(false)`, each lower-triangle cell is then copied to its transposed
/// position; otherwise the upper triangle keeps the neutral fill.
///
/// For this to produce the intended full matrix, `f(a, b)` must equal
/// `f(b, a)`: the engine never computes the pair `(j, i)` for `j > i`, it
/// only copies `(i, j)`.  That symmetry, and determinism of `f`, are the
/// caller's responsibility; `lemma_worker_count_independence` shows that a
/// deterministic `f` makes the mirrored result independent of `workers`.
pub fn from_mapped_array2_fn<A, F>(
    arr: &Vec<Vec<A>>,
    f: F,
    workers: usize,
    mirror: Option<bool>,
) -> (r: Result<Vec<Vec<A>>, SquareArrayError>) where
    A: Copy + InitValue + Send + Sync,
    F: Fn(&Vec<A>, &[Vec<A>]) -> Vec<A> + Send + Sync,

    requires
        workers >= 1,
        partition_arith_fits(arr@.len() as int, workers as int),
        accepts_rows(f, grid_of(arr@)),
    ensures
        match r {
            Ok(res) => rect_grid(grid_of(arr@)) && pairwise_result(
                f,
                grid_of(arr@),
                grid_of(res@),
                mirror_requested(mirror),
            ),
            Err(SquareArrayError::InvalidShape) => !rect_grid(grid_of(arr@)),
            Err(SquareArrayError::WorkerFailure) => rect_grid(grid_of(arr@)) && !sized_outputs(
                f,
                grid_of(arr@),
            ),
        },
        (r matches Err(SquareArrayError::InvalidShape)) <==> !rect_grid(grid_of(arr@)),
        rect_grid(grid_of(arr@)) && sized_outputs(f, grid_of(arr@)) ==> r is Ok,
{
    let ghost g = grid_of(arr@);
    let n = arr.len();

    // InvalidShape is detected before any work is scheduled.
    if n > 0 {
        let w = arr[0].len();
        let mut i: usize = 1;
        while i < n
            invariant
                1 <= i <= n,
                n == arr@.len(),
                g == grid_of(arr@),
                w == arr@[0]@.len(),
                forall|k: int| 0 <= k < i ==> (#[trigger] g[k]).len() == w,
            decreases n - i,
        {
            if arr[i].len() != w {
                proof {
                    assert(g[i as int].len() != g[0].len());
                }
                return Err(SquareArrayError::InvalidShape);
            }
            i += 1;
        }
    }
    proof {
        assert(rect_grid(g));
    }

    let slices = trapizoid_slices_of_lower_half(n, workers);
    let blocks = par_map_slices(arr, &slices, &f);

    let zero: A = A::init_value();
    let mut result: Vec<Vec<A>> = Vec::new();
    let mut si: usize = 0;
    while si < slices.len()
        invariant
            si <= slices@.len(),
            n == arr@.len(),
            g == grid_of(arr@),
            rect_grid(g),
            covering_chain(slices@, n as int),
            blocks@.len() == slices@.len(),
            forall|k: int|
                0 <= k < blocks@.len() ==> slice_block(f, g, slices@[k], (#[trigger] blocks@[k])),
            zero.is_init(),
            result@.len() == if si == 0 {
                0int
            } else {
                slices@[si - 1].end + 1
            },
            forall|i: int|
                0 <= i < result@.len() ==> (#[trigger] result@[i])@.len() == n,
            forall|i: int|
                0 <= i < result@.len() ==> row_output(
                    f,
                    g,
                    i,
                    (#[trigger] result@[i])@.subrange(0, i + 1),
                ),
            forall|i: int, j: int|
                0 <= i < result@.len() && i < j < n ==> ((#[trigger] result@[i]@[j])).is_init(),
        decreases slices@.len() - si,
    {
        let sl: RowSlice = slices[si];
        proof {
            if si > 0 {
                assert(slices@[si as int].start == slices@[si as int - 1].end + 1);
            }
            assert(sl.start == result@.len());
        }
        let block: &Option<Vec<Vec<A>>> = &blocks[si];
        match block {
            None => {
                return Err(SquareArrayError::WorkerFailure);
            },
            Some(rows) => {
                let m = rows.len();
                let mut k: usize = 0;
                while k < m
                    invariant
                        k <= m,
                        n == arr@.len(),
                        g == grid_of(arr@),
                        zero.is_init(),
                        m == rows@.len(),
                        sl.start + m == sl.end + 1,
                        sl.end < n,
                        forall|t: int|
                            0 <= t < m ==> row_output(f, g, sl.start + t, (#[trigger] rows@[t])@),
                        forall|t: int|
                            0 <= t < m ==> (#[trigger] rows@[t])@.len() == sl.start + t + 1,
                        result@.len() == sl.start + k,
                        forall|i: int|
                            0 <= i < result@.len() ==> (#[trigger] result@[i])@.len() == n,
                        forall|i: int|
                            0 <= i < result@.len() ==> row_output(
                                f,
                                g,
                                i,
                                (#[trigger] result@[i])@.subrange(0, i + 1),
                            ),
                        forall|i: int, j: int|
                            0 <= i < result@.len() && i < j < n ==> ((
                            #[trigger] result@[i]@[j])).is_init(),
                    decreases m - k,
                {
                    let src: &Vec<A> = &rows[k];
                    let row_index = result.len();
                    let src_len = src.len();
                    let mut row: Vec<A> = Vec::new();
                    let mut t: usize = 0;
                    while t < n
                        invariant
                            t <= n,
                            src_len == src@.len(),
                            src_len == row_index + 1,
                            row_index < n,
                            zero.is_init(),
                            row@.len() == t,
                            forall|u: int| 0 <= u < t && u < src_len ==> (#[trigger] row@[u])
                                == src@[u],
                            forall|u: int|
                                src_len <= u < t ==> ((#[trigger] row@[u])).is_init(),
                        decreases n - t,
                    {
                        if t < src_len {
                            let v: A = src[t];
                            row.push(v);
                        } else {
                            row.push(zero);
                        }
                        t += 1;
                    }
                    proof {
                        assert(row@.subrange(0, row_index + 1) =~= src@);
                    }
                    result.push(row);
                    proof {
                        assert((result@[row_index as int])@ == row@);
                        assert(row_output(f, g, row_index as int, row@.subrange(0, row_index + 1)));
                    }
                    k += 1;
                }
            },
        }
        si += 1;
    }

    proof {
        assert(result@.len() == n);
    }

    let do_mirror = match mirror {
        Some(b) => b,
        None => true,
    };
    if do_mirror {
        let ghost before = result@;
        proof {
            assert(square_rows(result@));
        }
        mirror_along_diagonal(&mut result);
        proof {
            assert forall|i: int|
                0 <= i < result@.len() implies row_output(
                f,
                g,
                i,
                (#[trigger] result@[i])@.subrange(0, i + 1),
            ) by {
                assert(result@[i]@.subrange(0, i + 1) =~= before[i]@.subrange(0, i + 1));
            }
            assert forall|i: int, j: int|
                0 <= i < j < result@.len() implies result@[i]@[j] == result@[j]@[i] by {
                assert(result@[i]@[j] == before[j]@[i]);
                assert(result@[j]@[i] == before[j]@[i]);
            }
        }
    }
    proof {
        assert(grid_of(result@).len() == result@.len());
        assert(forall|i: int|
            0 <= i < result@.len() ==> (#[trigger] grid_of(result@)[i]) == result@[i]@);
        assert(pairwise_result(f, g, grid_of(result@), mirror_requested(mirror)));
    }
    Ok(result)
}

/// Worker-count independence: a deterministic pairwise function pins every
/// lower-triangle row of the result, and mirroring pins the rest, so two
/// mirrored pairwise results over the same grid are equal cell for cell —
/// however many workers each of them used.
pub proof fn lemma_worker_count_independence<A, F>(
    f: F,
    g: Seq<Seq<A>>,
    r1: Seq<Seq<A>>,
    r2: Seq<Seq<A>>,
) where A: InitValue, F: Fn(&Vec<A>, &[Vec<A>]) -> Vec<A>
    requires
        deterministic_rows(f, g),
        pairwise_result(f, g, r1, true),
        pairwise_result(f, g, r2, true),
    ensures
        r1 =~~= r2,
{
    assert forall|i: int, j: int| 0 <= i < r1.len() && 0 <= j < r1.len() implies r1[i][j]
        == r2[i][j] by {
        assert(row_output(f, g, i, r1[i].subrange(0, i + 1)));
        assert(row_output(f, g, i, r2[i].subrange(0, i + 1)));
        assert(row_output(f, g, j, r1[j].subrange(0, j + 1)));
        assert(row_output(f, g, j, r2[j].subrange(0, j + 1)));
        if j <= i {
            assert(r1[i].subrange(0, i + 1) == r2[i].subrange(0, i + 1));
            assert(r1[i][j] == r1[i].subrange(0, i + 1)[j]);
            assert(r2[i][j] == r2[i].subrange(0, i + 1)[j]);
        } else {
            assert(r1[j].subrange(0, j + 1) == r2[j].subrange(0, j + 1));
            assert(r1[i][j] == r1[j][i]);
            assert(r2[i][j] == r2[j][i]);
            assert(r1[j][i] == r1[j].subrange(0, j + 1)[i]);
            assert(r2[j][i] == r2[j].subrange(0, j + 1)[i]);
        }
    }
}

} // verus!
