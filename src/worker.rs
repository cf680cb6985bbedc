use vstd::prelude::*;
use crate::cell_matrix::{CellMatrix, neighbourhood, slot};

verus! {

/// The pairs `(a, b)` for each `b` of `bs` that is another body than `a`, in the order of `bs`.
pub open spec fn pairs_with(a: usize, bs: Seq<usize>) -> Seq<(usize, usize)>
    decreases bs.len(),
{
    if bs.len() == 0 {
        Seq::empty()
    } else {
        let rest = pairs_with(a, bs.drop_last());
        if bs.last() != a {
            rest.push((a, bs.last()))
        } else {
            rest
        }
    }
}

/// The pairs `(a, b)` with `a` from `as_` and `b` from `bs` that name two different
/// bodies, `a` in the outer order and `b` in the inner.
pub open spec fn all_pairs(as_: Seq<usize>, bs: Seq<usize>) -> Seq<(usize, usize)>
    decreases as_.len(),
{
    if as_.len() == 0 {
        Seq::empty()
    } else {
        all_pairs(as_.drop_last(), bs) + pairs_with(as_.last(), bs)
    }
}

/// Each pair of `pairs_with(a, bs)` is `a` with a body of `bs` other than `a`.
pub proof fn lemma_pairs_with_distinct(a: usize, bs: Seq<usize>)
    ensures
        forall|k: int|
            0 <= k < pairs_with(a, bs).len() ==> {
                let p = #[trigger] pairs_with(a, bs)[k];
                &&& p.0 == a
                &&& p.1 != a
                &&& bs.contains(p.1)
            },
    decreases bs.len(),
{
    if bs.len() > 0 {
        lemma_pairs_with_distinct(a, bs.drop_last());
        let rest = pairs_with(a, bs.drop_last());
        assert forall|k: int| 0 <= k < rest.len() implies bs.contains(#[trigger] rest[k].1) by {
            let j = choose|j: int| 0 <= j < bs.drop_last().len() && bs.drop_last()[j] == rest[k].1;
            assert(bs[j] == rest[k].1);
        }
        assert(bs[bs.len() - 1] == bs.last());
    }
}

/// No pair of `all_pairs(as_, bs)` tests a body against itself, even where a body of
/// `as_` is also listed in `bs`; each pair takes its first body from `as_` and its second
/// from `bs`.
pub proof fn lemma_no_self_pairs(as_: Seq<usize>, bs: Seq<usize>)
    ensures
        forall|k: int|
            0 <= k < all_pairs(as_, bs).len() ==> {
                let p = #[trigger] all_pairs(as_, bs)[k];
                &&& p.0 != p.1
                &&& as_.contains(p.0)
                &&& bs.contains(p.1)
            },
    decreases as_.len(),
{
    if as_.len() > 0 {
        lemma_no_self_pairs(as_.drop_last(), bs);
        lemma_pairs_with_distinct(as_.last(), bs);
        let front = all_pairs(as_.drop_last(), bs);
        let back = pairs_with(as_.last(), bs);
        assert forall|k: int| 0 <= k < all_pairs(as_, bs).len() implies {
            let p = #[trigger] all_pairs(as_, bs)[k];
            &&& p.0 != p.1
            &&& as_.contains(p.0)
            &&& bs.contains(p.1)
        } by {
            if k < front.len() {
                assert(all_pairs(as_, bs)[k] == front[k]);
                let j = choose|j: int|
                    0 <= j < as_.drop_last().len() && as_.drop_last()[j] == front[k].0;
                assert(as_[j] == front[k].0);
            } else {
                assert(all_pairs(as_, bs)[k] == back[k - front.len()]);
                assert(as_[as_.len() - 1] == as_.last());
            }
        }
    }
}

/// The pairs of bodies to test in one step of a collision pass over cell `(row, col)`:
/// each body of the cell against each other body of the cell's neighbourhood.
pub fn collision_pairs(matrix: &CellMatrix, row: usize, col: usize) -> (r: Vec<(usize, usize)>)
    requires
        matrix.wf(),
        row < matrix.height_spec(),
        col < matrix.width_spec(),
    ensures
        r@ == all_pairs(
            matrix@[slot(matrix.width_spec(), row as int, col as int)],
            neighbourhood(matrix@, matrix.height_spec(), matrix.width_spec(), row as int, col as int),
        ),
        forall|k: int| 0 <= k < r@.len() ==> (#[trigger] r@[k]).0 != r@[k].1,
{
    let cell = matrix.get_objects_in_cell(row, col);
    let near = matrix.get_objects_in_neighbouring_cells(row, col);
    let mut out: Vec<(usize, usize)> = Vec::new();
    let mut i: usize = 0;
    while i < cell.len()
        invariant
            i <= cell@.len(),
            out@ == all_pairs(cell@.take(i as int), near@),
        decreases cell@.len() - i,
    {
        let a = cell[i];
        let mut j: usize = 0;
        while j < near.len()
            invariant
                i < cell@.len(),
                a == cell@[i as int],
                j <= near@.len(),
                out@ == all_pairs(cell@.take(i as int), near@) + pairs_with(a, near@.take(j as int)),
            decreases near@.len() - j,
        {
            let b = near[j];
            proof {
                assert(near@.take(j + 1).drop_last() =~= near@.take(j as int));
                assert(near@.take(j + 1).last() == b);
            }
            if a != b {
                out.push((a, b));
            }
            j += 1;
        }
        proof {
            assert(near@.take(j as int) =~= near@);
            assert(cell@.take(i + 1).drop_last() =~= cell@.take(i as int));
            assert(cell@.take(i + 1).last() == a);
        }
        i += 1;
    }
    proof {
        assert(cell@.take(i as int) =~= cell@);
        lemma_no_self_pairs(cell@, near@);
    }
    out
}

/// The order in which to lock the two bodies of a pair: the lower index first, so that
/// any two threads that lock the same two bodies lock them in the same order.
pub fn lock_order(a: usize, b: usize) -> (r: (usize, usize))
    ensures
        r == (if a <= b {
            (a, b)
        } else {
            (b, a)
        }),
{
    if a <= b {
        (a, b)
    } else {
        (b, a)
    }
}

/// The first row of band `i` when `height` rows are shared among `n` threads: each band
/// has `height / n` rows, and the first `height % n` bands one row more.
pub open spec fn band_start(height: int, n: int, i: int) -> int {
    i * (height / n) + if i < height % n {
        i
    } else {
        height % n
    }
}

/// The rows of the grid that one worker thread resolves collisions in: `row_cnt` rows
/// from `start_index`, and one more where `extra_pass` is set.
#[derive(Copy, Clone, Debug, PartialEq, Eq, Structural)]
pub struct RowRange {
    pub start_index: u32,
    pub row_cnt: u32,
    pub extra_pass: bool,
}

/// The barrier that a worker joins after finishing a row.
#[derive(Copy, Clone, Debug, PartialEq, Eq, Structural)]
pub enum RoundBarrier {
    /// The barrier of the rounds that every thread takes part in.
    Regular,
    /// The barrier of the last round, which only threads with an extra row take part in.
    Extra,
}

impl RowRange {
    pub open spec fn total_spec(&self) -> int {
        self.row_cnt + if self.extra_pass {
            1int
        } else {
            0int
        }
    }

    /// The number of rows in the range.
    pub fn total(&self) -> (r: u64)
        ensures
            r == self.total_spec(),
    {
        self.row_cnt as u64 + if self.extra_pass {
            1
        } else {
            0
        }
    }

    /// The barrier to join after row `row`: the extra one after the extra row, the regular
    /// one after every other row.
    pub fn barrier_after(&self, row: u32) -> (r: RoundBarrier)
        ensures
            r == (if self.extra_pass && row + 1 == self.start_index + self.total_spec() {
                RoundBarrier::Extra
            } else {
                RoundBarrier::Regular
            }),
    {
        if self.extra_pass && row as u64 + 1 == self.start_index as u64 + self.total() {
            RoundBarrier::Extra
        } else {
            RoundBarrier::Regular
        }
    }
}

proof fn lemma_band_bounds(height: int, n: int, i: int)
    requires
        height >= 0,
        n > 0,
        0 <= i <= n,
    ensures
        0 <= band_start(height, n, i) <= height,
        i < n ==> band_start(height, n, i + 1) == band_start(height, n, i) + height / n + if i
            < height % n {
            1int
        } else {
            0int
        },
        band_start(height, n, n) == height,
{
    let q = height / n;
    let m = height % n;
    assert(height == n * q + m && 0 <= m < n) by (nonlinear_arith)
        requires
            n > 0,
            height >= 0,
            q == height / n,
            m == height % n,
    ;
    assert(0 <= i * q <= n * q) by (nonlinear_arith)
        requires
            0 <= i <= n,
            q >= 0,
    ;
    assert((i + 1) * q == i * q + q) by (nonlinear_arith);
    assert(n * q == i * q + (n - i) * q) by (nonlinear_arith);
    assert((n - i) * q >= 0) by (nonlinear_arith)
        requires
            i <= n,
            q >= 0,
    ;
    if i < n {
        assert((n - i) * q >= q) by (nonlinear_arith)
            requires
                i < n,
                q >= 0,
        ;
    }
}

/// Splits `height` grid rows among `thread_cnt` threads into contiguous bands: each band
/// has `height / thread_cnt` rows, and the first `height % thread_cnt` bands one more.
/// The bands follow each other from row 0 and end at row `height`.
pub fn partition_rows(height: u32, thread_cnt: u32) -> (r: Vec<RowRange>)
    requires
        thread_cnt > 0,
    ensures
        r@.len() == thread_cnt,
        forall|i: int|
            0 <= i < thread_cnt ==> {
                &&& (#[trigger] r@[i]).row_cnt == height / thread_cnt
                &&& r@[i].extra_pass == (i < height % thread_cnt)
                &&& r@[i].start_index == band_start(height as int, thread_cnt as int, i)
            },
        r@[0].start_index == 0,
        forall|i: int|
            0 <= i < thread_cnt - 1 ==> #[trigger] r@[i + 1].start_index == r@[i].start_index
                + r@[i].total_spec(),
        r@[thread_cnt - 1].start_index + r@[thread_cnt - 1].total_spec() == height,
{
    let rows_per_thread = height / thread_cnt;
    let remainder = height % thread_cnt;
    let mut out: Vec<RowRange> = Vec::new();
    let mut start_index: u32 = 0;
    let mut i: u32 = 0;
    while i < thread_cnt
        invariant
            thread_cnt > 0,
            rows_per_thread == height / thread_cnt,
            remainder == height % thread_cnt,
            i <= thread_cnt,
            out@.len() == i,
            start_index == band_start(height as int, thread_cnt as int, i as int),
            forall|j: int|
                0 <= j < i ==> {
                    &&& (#[trigger] out@[j]).row_cnt == height / thread_cnt
                    &&& out@[j].extra_pass == (j < height % thread_cnt)
                    &&& out@[j].start_index == band_start(height as int, thread_cnt as int, j)
                },
        decreases thread_cnt - i,
    {
        proof {
            lemma_band_bounds(height as int, thread_cnt as int, i as int);
            lemma_band_bounds(height as int, thread_cnt as int, i + 1);
        }
        let extra_pass = i < remainder;
        out.push(RowRange { start_index, row_cnt: rows_per_thread, extra_pass });
        start_index = start_index + rows_per_thread + if extra_pass {
            1
        } else {
            0
        };
        i += 1;
    }
    proof {
        assert forall|j: int| 0 <= j < thread_cnt - 1 implies #[trigger] out@[j + 1].start_index
            == out@[j].start_index + out@[j].total_spec() by {
            lemma_band_bounds(height as int, thread_cnt as int, j);
        }
        lemma_band_bounds(height as int, thread_cnt as int, thread_cnt - 1);
        lemma_band_bounds(height as int, thread_cnt as int, 0);
    }
    out
}

} // verus!
