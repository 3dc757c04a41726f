use vstd::prelude::*;

verus! {

/// One contiguous, inclusive range `[start, end]` of row indices, handed to a
/// single worker of the square-shaped pairwise computation.
#[derive(Clone, Copy, Debug, PartialEq, Eq, Structural)]
pub struct RowSlice {
    pub start: usize,
    pub end: usize,
}

/// Whether `row` lies inside the inclusive slice `sl`.
pub open spec fn in_slice(sl: RowSlice, row: int) -> bool {
    sl.start <= row <= sl.end
}

/// Twice the triangular area covered by a slice.  Computing row `i` of a
/// lower-triangle pairwise result costs `i + 1` cells, so in the continuous
/// model the rows `[0, b)` cost an area of `b²/2`; a slice `[start, end]`
/// covers the doubled area `(end+1)² - start²`.
pub open spec fn doubled_area(sl: RowSlice) -> int {
    (sl.end + 1) * (sl.end + 1) - sl.start * sl.start
}

/// The slices form an ascending, contiguous chain that starts at row 0 and
/// covers exactly the rows `[0, hi)`, with no gaps and no overlaps.
pub open spec fn covering_chain(s: Seq<RowSlice>, hi: int) -> bool {
    &&& forall|k: int| 0 <= k < s.len() ==> (#[trigger] s[k]).start <= s[k].end
    &&& forall|k: int| 0 <= k < s.len() ==> (#[trigger] s[k]).end < hi
    &&& (s.len() > 0 ==> s[0].start == 0)
    &&& forall|k: int| 1 <= k < s.len() ==> (#[trigger] s[k]).start == s[k - 1].end + 1
    &&& if s.len() == 0 {
        hi == 0
    } else {
        s[s.len() - 1].end + 1 == hi
    }
}

/// The load-balance guarantee for one slice of `trapizoid_slices_of_lower_half`.
/// With `count` workers over `n` rows, the exact doubled target area per worker
/// is `n²/count`.  Every slice but the last covers strictly more than that
/// share, and exceeds it by at most one and a half rows' worth of area.  Both
/// inequalities are scaled (by `count`, resp. `4·count`) to stay in integers:
/// the second says `doubled_area - n²/count <= 3·end + 1`.
pub open spec fn balanced_slice(n: int, count: int, sl: RowSlice) -> bool {
    &&& count * doubled_area(sl) > n * n
    &&& 4 * count * doubled_area(sl) <= 4 * n * n + count * (12 * sl.end + 4)
}

/// Room needed by the intermediate arithmetic of the partition: the value
/// under the square root, `4·count·(start²·count + n²)`, is at its largest
/// below `4·n²·count·(count+1)`, which must fit in a `u128`.
pub open spec fn partition_arith_fits(n: int, count: int) -> bool {
    4 * n * n * count * (count + 1) <= u128::MAX
}

/// Integer square root by bisection: the greatest `r` with `r² <= x`.
fn isqrt_u128(x: u128) -> (r: u128)
    ensures
        r * r <= x,
        x < (r + 1) * (r + 1),
        r <= 0xFFFF_FFFF_FFFF_FFFF,
{
    let mut lo: u128 = 0;
    let mut hi: u128 = 0xFFFF_FFFF_FFFF_FFFF;
    proof {
        assert(x < (hi + 1) * (hi + 1)) by (nonlinear_arith)
            requires
                x <= u128::MAX,
                hi == 0xFFFF_FFFF_FFFF_FFFFu128,
        ;
    }
    while lo < hi
        invariant
            lo <= hi,
            hi <= 0xFFFF_FFFF_FFFF_FFFF,
            lo * lo <= x,
            x < (hi + 1) * (hi + 1),
        decreases hi - lo,
    {
        let mid: u128 = lo + (hi - lo + 1) / 2;
        proof {
            assert(mid * mid <= 0xFFFF_FFFF_FFFF_FFFF * 0xFFFF_FFFF_FFFF_FFFF)
                by (nonlinear_arith)
                requires
                    mid <= 0xFFFF_FFFF_FFFF_FFFFu128,
            ;
        }
        if mid * mid <= x {
            lo = mid;
        } else {
            hi = mid - 1;
        }
    }
    lo
}

/// Split the rows `[0, n)` of a lower-triangle computation into at most
/// `count` contiguous inclusive ranges of approximately equal triangular
/// area.
///
/// Row `i` costs `i + 1` cell computations, so splitting the rows evenly
/// would skew the load towards the workers holding high row indices.
/// Instead, each boundary is placed at the closest integer to the exact
/// solution of `area(start, boundary) == n²/(2·count)`, which lies
/// `round(sqrt(start² + n²/count) - start)` rows past `start`; the final
/// slice is clamped to end at row `n - 1`.
pub fn trapizoid_slices_of_lower_half(n: usize, count: usize) -> (r: Vec<RowSlice>)
    requires
        count >= 1,
        partition_arith_fits(n as int, count as int),
    ensures
        covering_chain(r@, n as int),
        n == 0 <==> r@.len() == 0,
        r@.len() <= count,
        forall|k: int| 0 <= k < r@.len() - 1 ==> balanced_slice(n as int, count as int, r@[k]),
        forall|k: int|
            0 <= k < r@.len() ==> (balanced_slice(n as int, count as int, r@[k]) || (
            #[trigger] r@[k]).end == n - 1),
{
    let mut result: Vec<RowSlice> = Vec::new();
    let mut n0: usize = 0;

    let ghost gn: int = n as int;
    let ghost gq: int = count as int;

    while n0 < n
        invariant
            count >= 1,
            partition_arith_fits(gn, gq),
            gn == n as int,
            gq == count as int,
            n0 <= n,
            covering_chain(result@, n0 as int),
            result@.len() <= count,
            gq * (n0 as int) * (n0 as int) >= result@.len() * (gn * gn + 1) || n0 == n,
            forall|k: int|
                0 <= k < result@.len() ==> (balanced_slice(gn, gq, result@[k]) || (
                #[trigger] result@[k]).end == gn - 1),
        decreases n - n0,
    {
        let ghost ga: int = n0 as int;
        let q128: u128 = count as u128;
        let n128: u128 = n as u128;
        let a128: u128 = n0 as u128;

        proof {
            assert(ga * ga <= u128::MAX && ga * ga * gq <= u128::MAX && gn * gn <= u128::MAX
                && ga * ga * gq + gn * gn <= u128::MAX && 4 * (ga * ga * gq + gn * gn)
                <= u128::MAX && 4 * (ga * ga * gq + gn * gn) * gq <= u128::MAX)
                by (nonlinear_arith)
                requires
                    4 * gn * gn * gq * (gq + 1) <= u128::MAX,
                    0 <= ga < gn,
                    gq >= 1,
            ;
        }
        let p128: u128 = a128 * a128 * q128 + n128 * n128;
        let x128: u128 = 4 * p128 * q128;
        let s128: u128 = isqrt_u128(x128);
        let ghost gp: int = p128 as int;
        let ghost gs: int = s128 as int;

        // The rounded boundary: rb = floor((s + q) / (2q)), the nearest
        // integer to sqrt(start² + n²/count).
        let rb128: u128 = (s128 + q128) / (2 * q128);
        let ghost grb: int = rb128 as int;

        proof {
            // s >= 2·start·count, so the boundary cannot fall before the cursor.
            assert((2 * ga * gq) * (2 * ga * gq) <= 4 * gp * gq) by (nonlinear_arith)
                requires
                    gp >= ga * ga * gq,
                    ga >= 0,
                    gq >= 1,
            ;
            assert(gs >= 2 * ga * gq) by (nonlinear_arith)
                requires
                    (gs + 1) * (gs + 1) > 4 * gp * gq,
                    (2 * ga * gq) * (2 * ga * gq) <= 4 * gp * gq,
                    gs >= 0,
                    ga >= 0,
                    gq >= 1,
            ;
            assert(2 * gq * grb <= gs + gq && gs + gq < 2 * gq * grb + 2 * gq)
                by (nonlinear_arith)
                requires
                    grb == (gs + gq) / (2 * gq),
                    gs >= 0,
                    gq >= 1,
            ;
            assert(grb >= ga) by (nonlinear_arith)
                requires
                    gs >= 2 * ga * gq,
                    gs + gq < 2 * gq * grb + 2 * gq,
                    gq >= 1,
                    ga >= 0,
                    grb >= 0,
            ;
        }

        let n1: usize = if rb128 >= (n as u128) - 1 {
            n - 1
        } else {
            rb128 as usize
        };
        let sl = RowSlice { start: n0, end: n1 };

        proof {
            assert(ga <= n1 as int && (n1 as int) < gn);
            if grb == n1 as int {
                // Unclamped boundary: the slice is balanced.
                assert(gq * (grb + 1) * (grb + 1) > gp) by (nonlinear_arith)
                    requires
                        4 * gp * gq < (gs + 1) * (gs + 1),
                        gs + 1 <= 2 * gq * grb + gq,
                        gq >= 1,
                        grb >= 0,
                        gs >= 0,
                ;
                assert(gq * doubled_area(sl) > gn * gn) by (nonlinear_arith)
                    requires
                        doubled_area(sl) == (grb + 1) * (grb + 1) - ga * ga,
                        gq * (grb + 1) * (grb + 1) > gp,
                        gp == ga * ga * gq + gn * gn,
                        gq >= 1,
                ;
                if grb >= 1 {
                    assert(4 * gp >= gq * (2 * grb - 1) * (2 * grb - 1)) by (nonlinear_arith)
                        requires
                            gs * gs <= 4 * gp * gq,
                            gs + gq >= 2 * gq * grb,
                            gq >= 1,
                            grb >= 1,
                            gs >= 0,
                    ;
                    assert(4 * gq * doubled_area(sl) <= 4 * gn * gn + gq * (12 * grb + 4))
                        by (nonlinear_arith)
                        requires
                            doubled_area(sl) == (grb + 1) * (grb + 1) - ga * ga,
                            4 * gp >= gq * (2 * grb - 1) * (2 * grb - 1),
                            gp == ga * ga * gq + gn * gn,
                            gq >= 1,
                            grb >= 1,
                    ;
                } else {
                    assert(ga == 0);
                    assert(4 * gq * doubled_area(sl) <= 4 * gn * gn + gq * (12 * grb + 4))
                        by (nonlinear_arith)
                        requires
                            doubled_area(sl) == (grb + 1) * (grb + 1) - ga * ga,
                            grb == 0,
                            ga == 0,
                            gn >= 1,
                            gq >= 1,
                    ;
                }
                assert(balanced_slice(gn, gq, sl));
            } else {
                assert(n1 == n - 1);
            }
        }

        let ghost old_slices = result@;
        result.push(sl);
        n0 = n1 + 1;

        proof {
            assert(result@ == old_slices.push(sl));
            assert(result@[result@.len() - 1] == sl);
            assert(forall|k: int| 0 <= k < old_slices.len() ==> result@[k] == old_slices[k]);
            assert(covering_chain(result@, n0 as int));

            if n0 < n {
                // The slice did not reach the final row, so it was not
                // clamped and consumed strictly more than its target share.
                assert(sl.end < gn - 1);
                assert(balanced_slice(gn, gq, sl));
                assert(gq * doubled_area(sl) >= gn * gn + 1);
                assert(gq * (n0 as int) * (n0 as int) >= result@.len() * (gn * gn + 1))
                    by (nonlinear_arith)
                    requires
                        gq * ((n0 as int) * (n0 as int) - ga * ga) >= gn * gn + 1,
                        gq * ga * ga >= (result@.len() - 1) * (gn * gn + 1),
                        gq >= 1,
                        n0 as int == sl.end + 1,
                        doubled_area(sl) == (n0 as int) * (n0 as int) - ga * ga,
                ;
            }
            // The number of slices can never exceed the worker count.
            assert(result@.len() <= count) by (nonlinear_arith)
                requires
                    gq * ga * ga >= (result@.len() - 1) * (gn * gn + 1),
                    0 <= ga < gn,
                    gq >= 1,
                    result@.len() >= 1,
                    count as int == gq,
            ;
        }
    }

    proof {
        assert forall|k: int| 0 <= k < result@.len() - 1 implies balanced_slice(
            gn,
            gq,
            result@[k],
        ) by {
            assert(result@[k + 1].start == result@[k].end + 1);
            assert(result@[k + 1].start <= result@[k + 1].end);
            assert(result@[k + 1].end < gn);
            assert(result@[k].end < gn - 1);
        }
    }
    result
}

proof fn lemma_chain_contains(s: Seq<RowSlice>, hi: int, row: int, j: int)
    requires
        covering_chain(s, hi),
        0 <= j < s.len(),
        0 <= row <= s[j].end,
    ensures
        exists|k: int| 0 <= k < s.len() && in_slice(#[trigger] s[k], row),
    decreases j,
{
    if row >= s[j].start {
        assert(in_slice(s[j], row));
    } else {
        assert(j >= 1) by {
            assert(s[0].start == 0);
        }
        assert(s[j].start == s[j - 1].end + 1);
        lemma_chain_contains(s, hi, row, j - 1);
    }
}

/// Every row index below `n` lies in exactly one slice of a chain that
/// covers `[0, n)`.
pub proof fn lemma_partition_covers(s: Seq<RowSlice>, n: int, row: int)
    requires
        covering_chain(s, n),
        0 <= row < n,
    ensures
        exists|k: int| 0 <= k < s.len() && in_slice(#[trigger] s[k], row),
        forall|k1: int, k2: int|
            0 <= k1 < s.len() && 0 <= k2 < s.len() && in_slice(s[k1], row) && in_slice(
                s[k2],
                row,
            ) ==> k1 == k2,
{
    assert(s.len() > 0);
    assert(row <= s[s.len() - 1].end);
    lemma_chain_contains(s, n, row, s.len() - 1);
    assert forall|k1: int, k2: int|
        0 <= k1 < s.len() && 0 <= k2 < s.len() && in_slice(s[k1], row) && in_slice(
            s[k2],
            row,
        ) implies k1 == k2 by {
        if k1 < k2 {
            lemma_chain_ordered(s, n, k1, k2);
        }
        if k2 < k1 {
            lemma_chain_ordered(s, n, k2, k1);
        }
    }
}

/// In a covering chain, the rows of an earlier slice all precede the rows of
/// a later one.
pub proof fn lemma_chain_ordered(s: Seq<RowSlice>, n: int, k1: int, k2: int)
    requires
        covering_chain(s, n),
        0 <= k1 < k2 < s.len(),
    ensures
        s[k1].end < s[k2].start,
    decreases k2 - k1,
{
    assert(s[k2].start == s[k2 - 1].end + 1);
    if k2 == k1 + 1 {
    } else {
        lemma_chain_ordered(s, n, k1, k2 - 1);
        assert(s[k2 - 1].start <= s[k2 - 1].end);
    }
}

/// All rows of a square matrix have the matrix's own length.
pub open spec fn square_rows<A>(g: Seq<Vec<A>>) -> bool {
    forall|i: int| 0 <= i < g.len() ==> (#[trigger] g[i])@.len() == g.len()
}

/// Mirror the lower triangle of a square matrix into its upper triangle:
/// for every `i > j`, set `m[j][i] = m[i][j]`.  The diagonal and the lower
/// triangle are left untouched.
pub fn mirror_along_diagonal<A: Copy>(m: &mut Vec<Vec<A>>)
    requires
        square_rows(old(m)@),
    ensures
        final(m)@.len() == old(m)@.len(),
        square_rows(final(m)@),
        forall|i: int, j: int|
            0 <= j <= i < final(m)@.len() ==> final(m)@[i]@[j] == old(m)@[i]@[j],
        forall|i: int, j: int|
            0 <= j < i < final(m)@.len() ==> final(m)@[j]@[i] == old(m)@[i]@[j],
{
    let n = m.len();
    let mut j: usize = 0;
    while j < n
        invariant
            n == old(m)@.len(),
            m@.len() == n,
            square_rows(old(m)@),
            j <= n,
            forall|i: int| j <= i < n ==> m@[i] == old(m)@[i],
            forall|jj: int| 0 <= jj < j ==> (#[trigger] m@[jj])@.len() == n,
            forall|jj: int, i: int|
                0 <= jj < j && 0 <= i <= jj ==> (#[trigger] m@[jj]@[i]) == old(m)@[jj]@[i],
            forall|jj: int, i: int|
                0 <= jj < j && jj < i < n ==> (#[trigger] m@[jj]@[i]) == old(m)@[i]@[jj],
        decreases n - j,
    {
        let mut row: Vec<A> = Vec::new();
        let mut i: usize = 0;
        while i < n
            invariant
                n == old(m)@.len(),
                m@.len() == n,
                square_rows(old(m)@),
                j < n,
                i <= n,
                forall|t: int| j <= t < n ==> m@[t] == old(m)@[t],
                row@.len() == i,
                forall|t: int|
                    0 <= t < i && t <= j ==> (#[trigger] row@[t]) == old(m)@[j as int]@[t],
                forall|t: int|
                    0 <= t < i && t > j ==> (#[trigger] row@[t]) == old(m)@[t]@[j as int],
            decreases n - i,
        {
            if i <= j {
                let v: A = m[j][i];
                row.push(v);
            } else {
                let v: A = m[i][j];
                row.push(v);
            }
            i += 1;
        }
        m[j] = row;
        j += 1;
    }
}

} // verus!
