//! The two-dimensional grid of workers and the numbering of its workers.
//!
//! The worker at column `x` and row `y` of a grid `width` columns wide has
//! the nonce `y * width + x`. The nonce is also the index of the worker's
//! slot in the score buffer of a round.

use vstd::prelude::*;
use vstd::arithmetic::div_mod::lemma_fundamental_div_mod_converse;
use crate::error::SearchError;

verus! {

/// The number of rows of the grid that a search dispatches.
pub const GRID_HEIGHT: u32 = 4;

/// A grid of `width * height` workers, with at least one worker.
#[derive(Clone, Copy, Debug)]
pub struct Grid {
    width: u32,
    height: u32,
}

impl Grid {
    /// The number of columns.
    pub closed spec fn columns(self) -> nat {
        self.width as nat
    }

    /// The number of rows.
    pub closed spec fn rows(self) -> nat {
        self.height as nat
    }

    /// A grid has at least one worker, and each dimension fits in 32 bits.
    pub open spec fn wf(self) -> bool {
        0 < self.columns() <= u32::MAX && 0 < self.rows() <= u32::MAX
    }

    #[verifier::type_invariant]
    spec fn inv(self) -> bool {
        self.wf()
    }

    /// The number of workers, which is the number of nonces and of score slots.
    pub open spec fn workers(self) -> nat {
        self.columns() * self.rows()
    }

    /// Whether the grid has a worker at column `x`, row `y`.
    pub open spec fn has_worker(self, x: nat, y: nat) -> bool {
        x < self.columns() && y < self.rows()
    }

    /// The nonce of the worker at column `x`, row `y`.
    pub open spec fn nonce_of(self, x: nat, y: nat) -> nat {
        y * self.columns() + x
    }

    /// The column of the worker with the given nonce.
    pub open spec fn column_of(self, nonce: nat) -> nat {
        nonce % self.columns()
    }

    /// The row of the worker with the given nonce.
    pub open spec fn row_of(self, nonce: nat) -> nat {
        nonce / self.columns()
    }

    /// Every worker's nonce is below the number of workers.
    pub proof fn lemma_nonce_in_range(self, x: nat, y: nat)
        requires
            self.has_worker(x, y),
        ensures
            self.nonce_of(x, y) < self.workers(),
    {
        let w = self.columns();
        let h = self.rows();
        assert(y * w + x < w * h) by (nonlinear_arith)
            requires
                x < w,
                y < h,
        ;
    }

    /// The nonce determines the worker: its column and row can be read back.
    pub proof fn lemma_worker_of_nonce(self, x: nat, y: nat)
        requires
            self.has_worker(x, y),
        ensures
            self.column_of(self.nonce_of(x, y)) == x,
            self.row_of(self.nonce_of(x, y)) == y,
    {
        let w = self.columns();
        assert(y * w == w * y) by (nonlinear_arith);
        lemma_fundamental_div_mod_converse((y * w + x) as int, w as int, y as int, x as int);
    }

    /// Every nonce below the number of workers belongs to a worker of the grid.
    pub proof fn lemma_nonce_of_worker(self, nonce: nat)
        requires
            self.columns() > 0,
            nonce < self.workers(),
        ensures
            self.has_worker(self.column_of(nonce), self.row_of(nonce)),
            self.nonce_of(self.column_of(nonce), self.row_of(nonce)) == nonce,
    {
        let w = self.columns();
        let h = self.rows();
        assert(nonce / w < h && (nonce / w) * w + nonce % w == nonce && nonce % w < w)
            by (nonlinear_arith)
            requires
                w > 0,
                nonce < w * h,
        ;
    }

    /// Two different workers never share a nonce, so their score slots never
    /// alias.
    pub proof fn lemma_slots_disjoint(self, x1: nat, y1: nat, x2: nat, y2: nat)
        requires
            self.has_worker(x1, y1),
            self.has_worker(x2, y2),
            x1 != x2 || y1 != y2,
        ensures
            self.nonce_of(x1, y1) != self.nonce_of(x2, y2),
    {
        self.lemma_worker_of_nonce(x1, y1);
        self.lemma_worker_of_nonce(x2, y2);
    }

    /// The number of workers fits in 64 bits.
    pub proof fn lemma_workers_fit(self)
        requires
            self.wf(),
        ensures
            0 < self.workers() <= u64::MAX,
    {
        let w = self.columns();
        let h = self.rows();
        assert(0 < w * h <= 0xffff_ffff * 0xffff_ffff) by (nonlinear_arith)
            requires
                0 < w <= 0xffff_ffff,
                0 < h <= 0xffff_ffff,
        ;
    }

    /// Makes a grid, or rejects one without workers.
    pub fn new(width: u32, height: u32) -> (r: Result<Grid, SearchError>)
        ensures
            width == 0 || height == 0 ==> r == Err::<Grid, SearchError>(SearchError::EmptyGrid),
            width > 0 && height > 0 ==> (r matches Ok(grid) && grid.wf() && grid.columns() == width
                && grid.rows() == height),
    {
        if width == 0 || height == 0 {
            Err(SearchError::EmptyGrid)
        } else {
            Ok(Grid { width, height })
        }
    }

    /// The number of columns.
    pub fn width(&self) -> (w: u32)
        ensures
            w == self.columns(),
            self.wf(),
    {
        proof {
            use_type_invariant(self);
        }
        self.width
    }

    /// The number of rows.
    pub fn height(&self) -> (h: u32)
        ensures
            h == self.rows(),
            self.wf(),
    {
        proof {
            use_type_invariant(self);
        }
        self.height
    }

    /// The number of workers.
    pub fn worker_count(&self) -> (n: u64)
        ensures
            n == self.workers(),
            n > 0,
            self.wf(),
    {
        proof {
            use_type_invariant(self);
            self.lemma_workers_fit();
        }
        (self.width as u64) * (self.height as u64)
    }

    /// The nonce of the worker at column `x`, row `y`, if the grid has one
    /// there.
    pub fn nonce(&self, x: u32, y: u32) -> (n: Option<u64>)
        ensures
            self.has_worker(x as nat, y as nat) ==> n == Some(self.nonce_of(x as nat, y as nat) as u64)
                && self.nonce_of(x as nat, y as nat) < self.workers() <= u64::MAX,
            !self.has_worker(x as nat, y as nat) ==> n.is_none(),
    {
        if x < self.width && y < self.height {
            proof {
                use_type_invariant(self);
                self.lemma_workers_fit();
                self.lemma_nonce_in_range(x as nat, y as nat);
                assert(y * self.width <= self.nonce_of(x as nat, y as nat));
            }
            Some((y as u64) * (self.width as u64) + (x as u64))
        } else {
            None
        }
    }

    /// The column and row of the worker with the given nonce, if the grid
    /// has that many workers.
    pub fn worker(&self, nonce: u64) -> (at: Option<(u32, u32)>)
        ensures
            nonce < self.workers() ==> at == Some(
                (self.column_of(nonce as nat) as u32, self.row_of(nonce as nat) as u32),
            ) && self.has_worker(self.column_of(nonce as nat), self.row_of(nonce as nat)),
            nonce >= self.workers() ==> at.is_none(),
    {
        let count: u64 = self.worker_count();
        if nonce < count {
            proof {
                self.lemma_nonce_of_worker(nonce as nat);
            }
            let wide: u64 = self.width as u64;
            Some(((nonce % wide) as u32, (nonce / wide) as u32))
        } else {
            None
        }
    }
}

} // verus!
