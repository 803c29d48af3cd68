//! The covariance store: a square matrix over the flat error-state,
//! addressed exclusively through named sub-state blocks.
//!
//! The matrix is generic in its scalar; this crate does no arithmetic on
//! the entries, it guarantees the addressing: a block keyed by a pair of
//! sub-states is the rectangle of shape `(dst.dim, src.dim)` anchored at
//! `(dst.offset, src.offset)`, and writing one block touches nothing else.
use vstd::prelude::*;

verus! {

use crate::STATE_DIM;
use crate::layout::SubState;

/// A `STATE_DIM` by `STATE_DIM` matrix in row-major order.
pub struct Covariance<T> {
    pub data: Vec<T>,
}

impl<T: Copy> Covariance<T> {
    pub open spec fn wf(self) -> bool {
        self.data.len() == STATE_DIM * STATE_DIM
    }

    /// The entry in row `r`, column `c`.
    pub open spec fn entry(self, r: int, c: int) -> T {
        self.data[r * STATE_DIM + c]
    }

    /// A matrix with every entry set to `fill` (the zero of the caller's
    /// scalar, usually).
    pub fn new_filled(fill: T) -> (m: Covariance<T>)
        ensures
            m.wf(),
            forall|r: int, c: int|
                0 <= r < STATE_DIM && 0 <= c < STATE_DIM ==> #[trigger] m.entry(r, c) == fill,
    {
        let n = STATE_DIM * STATE_DIM;
        let mut data: Vec<T> = Vec::new();
        let mut i: usize = 0;
        while i < n
            invariant
                data.len() == i,
                i <= n,
                forall|k: int| 0 <= k < i ==> data[k] == fill,
            decreases n - i,
        {
            data.push(fill);
            i = i + 1;
        }
        let m = Covariance { data };
        proof {
            assert forall|r: int, c: int|
                0 <= r < STATE_DIM && 0 <= c < STATE_DIM implies #[trigger] m.entry(r, c)
                == fill by {
                lemma_flat_index_in_range(r, c);
            }
        }
        m
    }

    pub fn get(&self, r: usize, c: usize) -> (v: T)
        requires
            self.wf(),
            r < STATE_DIM,
            c < STATE_DIM,
        ensures
            v == self.entry(r as int, c as int),
    {
        proof {
            lemma_flat_index_in_range(r as int, c as int);
        }
        self.data[r * STATE_DIM + c]
    }

    pub fn set(&mut self, r: usize, c: usize, v: T)
        requires
            old(self).wf(),
            r < STATE_DIM,
            c < STATE_DIM,
        ensures
            final(self).wf(),
            final(self).entry(r as int, c as int) == v,
            forall|r2: int, c2: int|
                0 <= r2 < STATE_DIM && 0 <= c2 < STATE_DIM && !(r2 == r && c2 == c)
                    ==> #[trigger] final(self).entry(r2, c2) == old(self).entry(r2, c2),
    {
        proof {
            lemma_flat_index_in_range(r as int, c as int);
        }
        self.data.set(r * STATE_DIM + c, v);
        proof {
            assert forall|r2: int, c2: int|
                0 <= r2 < STATE_DIM && 0 <= c2 < STATE_DIM && !(r2 == r && c2 == c) implies #[trigger] self.entry(
                r2,
                c2,
            ) == old(self).entry(r2, c2) by {
                lemma_flat_index_in_range(r2, c2);
                lemma_flat_index_injective(r2, c2, r as int, c as int);
            }
        }
    }

    /// Read the block keyed by `(dst, src)`: the rectangle of shape
    /// `(dst.dim, src.dim)` at `(dst.offset, src.offset)`, row-major.
    /// With `dst == src` this is the sub-covariance of that sub-state;
    /// otherwise it is the cross-covariance (the sensitivity) of the pair.
    pub fn read_block(&self, dst: SubState, src: SubState) -> (b: Vec<T>)
        requires
            self.wf(),
        ensures
            b.len() == dst.spec_dim() * src.spec_dim(),
            forall|i: int, j: int|
                0 <= i < dst.spec_dim() && 0 <= j < src.spec_dim() ==> #[trigger] b[i
                    * src.spec_dim() + j] == self.entry(dst.spec_offset() + i, src.spec_offset()
                    + j),
    {
        let rows = dst.dim();
        let cols = src.dim();
        let ro = dst.offset();
        let co = src.offset();
        proof {
            lemma_sub_state_bounds(dst);
            lemma_sub_state_bounds(src);
        }
        let mut b: Vec<T> = Vec::new();
        let mut i: usize = 0;
        while i < rows
            invariant
                self.wf(),
                i <= rows,
                b.len() == i * cols,
                ro + rows <= STATE_DIM,
                co + cols <= STATE_DIM,
                rows == dst.spec_dim(),
                cols == src.spec_dim(),
                ro == dst.spec_offset(),
                co == src.spec_offset(),
                forall|i2: int, j2: int|
                    0 <= i2 < i && 0 <= j2 < cols ==> #[trigger] b[i2 * cols + j2] == self.entry(
                        ro + i2,
                        co + j2,
                    ),
            decreases rows - i,
        {
            let mut j: usize = 0;
            while j < cols
                invariant
                    self.wf(),
                    i < rows,
                    j <= cols,
                    b.len() == i * cols + j,
                    ro + rows <= STATE_DIM,
                    co + cols <= STATE_DIM,
                    rows == dst.spec_dim(),
                    cols == src.spec_dim(),
                    ro == dst.spec_offset(),
                    co == src.spec_offset(),
                    forall|i2: int, j2: int|
                        0 <= i2 < i && 0 <= j2 < cols ==> #[trigger] b[i2 * cols + j2]
                            == self.entry(ro + i2, co + j2),
                    forall|j2: int|
                        0 <= j2 < j ==> #[trigger] b[i * cols + j2] == self.entry(
                            ro + i as int,
                            co + j2,
                        ),
                decreases cols - j,
            {
                let v = self.get(ro + i, co + j);
                b.push(v);
                j = j + 1;
                proof {
                    lemma_row_major_prefix(i as int, j as int, cols as int);
                }
            }
            i = i + 1;
            proof {
                lemma_row_roll(i as int, cols as int);
            }
        }
        b
    }

    /// Overwrite the block keyed by `(dst, src)` with the row-major
    /// rectangle `vals`; every entry outside the block keeps its value.
    pub fn write_block(&mut self, dst: SubState, src: SubState, vals: &Vec<T>)
        requires
            old(self).wf(),
            vals.len() == dst.spec_dim() * src.spec_dim(),
        ensures
            final(self).wf(),
            forall|i: int, j: int|
                0 <= i < dst.spec_dim() && 0 <= j < src.spec_dim()
                    ==> #[trigger] final(self).entry(dst.spec_offset() + i, src.spec_offset() + j)
                    == vals[i * src.spec_dim() + j],
            forall|r: int, c: int|
                0 <= r < STATE_DIM && 0 <= c < STATE_DIM && !(dst.spec_offset() <= r
                    < dst.spec_end_offset() && src.spec_offset() <= c < src.spec_end_offset())
                    ==> #[trigger] final(self).entry(r, c) == old(self).entry(r, c),
    {
        let rows = dst.dim();
        let cols = src.dim();
        let ro = dst.offset();
        let co = src.offset();
        proof {
            lemma_sub_state_bounds(dst);
            lemma_sub_state_bounds(src);
        }
        let mut i: usize = 0;
        while i < rows
            invariant
                self.wf(),
                i <= rows,
                ro + rows <= STATE_DIM,
                co + cols <= STATE_DIM,
                rows == dst.spec_dim(),
                cols == src.spec_dim(),
                ro == dst.spec_offset(),
                co == src.spec_offset(),
                vals.len() == rows * cols,
                forall|i2: int, j2: int|
                    0 <= i2 < i && 0 <= j2 < cols ==> #[trigger] self.entry(ro + i2, co + j2)
                        == vals[i2 * cols + j2],
                forall|r: int, c: int|
                    0 <= r < STATE_DIM && 0 <= c < STATE_DIM && !(ro <= r < ro + i && co <= c < co
                        + cols) ==> #[trigger] self.entry(r, c) == old(self).entry(r, c),
            decreases rows - i,
        {
            let mut j: usize = 0;
            while j < cols
                invariant
                    self.wf(),
                    i < rows,
                    j <= cols,
                    ro + rows <= STATE_DIM,
                    co + cols <= STATE_DIM,
                    rows == dst.spec_dim(),
                    cols == src.spec_dim(),
                    ro == dst.spec_offset(),
                    co == src.spec_offset(),
                    vals.len() == rows * cols,
                    forall|i2: int, j2: int|
                        0 <= i2 < i && 0 <= j2 < cols ==> #[trigger] self.entry(ro + i2, co + j2)
                            == vals[i2 * cols + j2],
                    forall|j2: int|
                        0 <= j2 < j ==> #[trigger] self.entry(ro + i as int, co + j2) == vals[
                            i as int * cols + j2],
                    forall|r: int, c: int|
                        0 <= r < STATE_DIM && 0 <= c < STATE_DIM && !(ro <= r < ro + i + 1 && co
                            <= c < co + cols) ==> #[trigger] self.entry(r, c) == old(self).entry(
                            r,
                            c,
                        ),
                decreases cols - j,
            {
                proof {
                    lemma_row_major_index_in_range(i as int, j as int, rows as int, cols as int);
                }
                let v = vals[i * cols + j];
                self.set(ro + i, co + j, v);
                j = j + 1;
            }
            i = i + 1;
        }
    }

    /// Set the diagonal entries of the diagonal block of sub-state `s` to
    /// `v`, leaving every other entry of the matrix unchanged.
    pub fn fill_block_diagonal(&mut self, s: SubState, v: T)
        requires
            old(self).wf(),
        ensures
            final(self).wf(),
            forall|i: int|
                0 <= i < s.spec_dim() ==> #[trigger] final(self).entry(
                    s.spec_offset() + i,
                    s.spec_offset() + i,
                ) == v,
            forall|r: int, c: int|
                0 <= r < STATE_DIM && 0 <= c < STATE_DIM && !(s.spec_offset() <= r
                    < s.spec_end_offset() && c == r) ==> #[trigger] final(self).entry(r, c) == old(
                    self,
                ).entry(r, c),
    {
        let d = s.dim();
        let o = s.offset();
        proof {
            lemma_sub_state_bounds(s);
        }
        let mut i: usize = 0;
        while i < d
            invariant
                self.wf(),
                i <= d,
                o + d <= STATE_DIM,
                d == s.spec_dim(),
                o == s.spec_offset(),
                forall|i2: int|
                    0 <= i2 < i ==> #[trigger] self.entry(o + i2, o + i2) == v,
                forall|r: int, c: int|
                    0 <= r < STATE_DIM && 0 <= c < STATE_DIM && !(o <= r < o + i && c == r)
                        ==> #[trigger] self.entry(r, c) == old(self).entry(r, c),
            decreases d - i,
        {
            self.set(o + i, o + i, v);
            i = i + 1;
        }
    }
}

/// The slice of a flat state-length vector belonging to one sub-state:
/// the `s.dim` entries starting at `s.offset`. A state update dispatches
/// the correction vector through these slices, each sub-state applying
/// its own addition to its own slice.
pub fn sub_vector<T: Copy>(delta: &Vec<T>, s: SubState) -> (r: Vec<T>)
    requires
        delta@.len() == STATE_DIM,
    ensures
        r@.len() == s.spec_dim(),
        forall|i: int|
            0 <= i < s.spec_dim() ==> #[trigger] r@[i] == delta@[s.spec_offset() + i],
{
    let d = s.dim();
    let o = s.offset();
    proof {
        lemma_sub_state_bounds(s);
    }
    let mut r: Vec<T> = Vec::new();
    let mut i: usize = 0;
    while i < d
        invariant
            i <= d,
            delta@.len() == STATE_DIM,
            o + d <= STATE_DIM,
            d == s.spec_dim(),
            o == s.spec_offset(),
            r@.len() == i,
            forall|i2: int| 0 <= i2 < i ==> #[trigger] r@[i2] == delta@[o + i2],
        decreases d - i,
    {
        let v = delta[o + i];
        r.push(v);
        i = i + 1;
    }
    r
}

/// Flattened row-major indices stay inside the backing vector.
proof fn lemma_flat_index_in_range(r: int, c: int)
    requires
        0 <= r < STATE_DIM,
        0 <= c < STATE_DIM,
    ensures
        0 <= r * STATE_DIM + c < STATE_DIM * STATE_DIM,
{
    assert(0 <= r * STATE_DIM + c < STATE_DIM * STATE_DIM) by (nonlinear_arith)
        requires
            0 <= r < STATE_DIM,
            0 <= c < STATE_DIM,
            STATE_DIM == 24;
}

/// Distinct positions have distinct flattened indices.
proof fn lemma_flat_index_injective(r1: int, c1: int, r2: int, c2: int)
    requires
        0 <= r1 < STATE_DIM,
        0 <= c1 < STATE_DIM,
        0 <= r2 < STATE_DIM,
        0 <= c2 < STATE_DIM,
        !(r1 == r2 && c1 == c2),
    ensures
        r1 * STATE_DIM + c1 != r2 * STATE_DIM + c2,
{
    assert(r1 * STATE_DIM + c1 != r2 * STATE_DIM + c2) by (nonlinear_arith)
        requires
            0 <= r1 < STATE_DIM,
            0 <= c1 < STATE_DIM,
            0 <= r2 < STATE_DIM,
            0 <= c2 < STATE_DIM,
            !(r1 == r2 && c1 == c2),
            STATE_DIM == 24;
}

/// Every sub-state block fits inside the matrix.
proof fn lemma_sub_state_bounds(s: SubState)
    ensures
        0 <= s.spec_offset(),
        s.spec_offset() + s.spec_dim() <= STATE_DIM,
        s.spec_dim() >= 0,
{
    match s {
        SubState::Pose => {},
        SubState::Rotation => {},
        SubState::Position => {},
        SubState::Velocity => {},
        SubState::Gravity => {},
        SubState::AccWithBias => {},
        SubState::Acc => {},
        SubState::LinearAcc => {},
        SubState::AngularAcc => {},
        SubState::Bias => {},
        SubState::LinearAccBias => {},
        SubState::AngularAccBias => {},
    }
}

/// After pushing the `j`-th entry of row `i`, the buffer length is the
/// row-major index one past that entry.
proof fn lemma_row_major_prefix(i: int, j: int, cols: int)
    requires
        0 <= i,
        0 < j <= cols,
    ensures
        i * cols + (j - 1) + 1 == i * cols + j,
{
}

/// A completed row folds into the row-major prefix of the next row.
proof fn lemma_row_roll(i: int, cols: int)
    requires
        0 < i,
        0 <= cols,
    ensures
        (i - 1) * cols + cols == i * cols,
{
    assert((i - 1) * cols + cols == i * cols) by (nonlinear_arith);
}

/// A row-major index inside the rectangle is inside the flat buffer.
proof fn lemma_row_major_index_in_range(i: int, j: int, rows: int, cols: int)
    requires
        0 <= i < rows,
        0 <= j < cols,
    ensures
        0 <= i * cols + j < rows * cols,
{
    assert(0 <= i * cols + j < rows * cols) by (nonlinear_arith)
        requires
            0 <= i < rows,
            0 <= j < cols;
}

} // verus!
