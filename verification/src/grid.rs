//! The grid of cells and the generation step.
//!
//! A cell is DEAD (0) or ALIVE (1). Cells are stored row-major in a vector of
//! `width * height` entries; the dimensions are fixed when a grid is made.
//! Neighbor lookups clip at the edges: a position outside the grid counts as
//! DEAD, it never wraps to the opposite side.

use vstd::prelude::*;

verus! {

/// Default grid width in cells.
pub const DEFAULT_WIDTH: usize = 320;

/// Default grid height in cells.
pub const DEFAULT_HEIGHT: usize = 240;

/// The cell vector `s` holds exactly `w * h` entries, each DEAD (0) or ALIVE (1).
pub open spec fn valid_cells(s: Seq<i32>, w: nat, h: nat) -> bool {
    &&& s.len() == w * h
    &&& forall|k: int| 0 <= k < s.len() ==> s[k] == 0 || s[k] == 1
}

/// The cell at row `r`, column `c` of a row-major cell vector of width `w`.
pub open spec fn cell_at(s: Seq<i32>, w: nat, r: int, c: int) -> i32 {
    s[r * w + c]
}

/// What a position contributes to a neighbor sum: its cell state when it lies
/// inside the `h` by `w` grid, and 0 when it lies outside (clipped boundary).
pub open spec fn clipped(s: Seq<i32>, w: nat, h: nat, r: int, c: int) -> int {
    if 0 <= r < h && 0 <= c < w {
        cell_at(s, w, r, c) as int
    } else {
        0
    }
}

/// The number of ALIVE cells among the up-to-8 grid neighbors of `(r, c)`,
/// orthogonal and diagonal, with out-of-range positions contributing 0.
pub open spec fn neighbor_sum(s: Seq<i32>, w: nat, h: nat, r: int, c: int) -> int {
    clipped(s, w, h, r - 1, c - 1) + clipped(s, w, h, r - 1, c) + clipped(s, w, h, r - 1, c + 1)
        + clipped(s, w, h, r, c - 1) + clipped(s, w, h, r, c + 1)
        + clipped(s, w, h, r + 1, c - 1) + clipped(s, w, h, r + 1, c) + clipped(s, w, h, r + 1, c + 1)
}

/// Conway's rule for one cell: an ALIVE cell survives on 2 or 3 neighbors,
/// a DEAD cell is born on exactly 3 neighbors.
pub open spec fn next_cell(cur: i32, n: int) -> i32 {
    if cur > 0 {
        if n < 2 || n > 3 {
            0
        } else {
            1
        }
    } else {
        if n == 3 {
            1
        } else {
            0
        }
    }
}

/// One generation step applied to every cell simultaneously, reading only the
/// prior cell vector.
pub open spec fn step_seq(s: Seq<i32>, w: nat, h: nat) -> Seq<i32> {
    Seq::new(w * h, |k: int| next_cell(s[k], neighbor_sum(s, w, h, k / (w as int), k % (w as int))))
}

/// `n` generation steps in a row.
pub open spec fn step_n(s: Seq<i32>, w: nat, h: nat, n: nat) -> Seq<i32>
    decreases n,
{
    if n == 0 {
        s
    } else {
        step_seq(step_n(s, w, h, (n - 1) as nat), w, h)
    }
}

/// A fixed-size rectangular grid of DEAD/ALIVE cells, stored row-major.
pub struct Grid {
    pub width: usize,
    pub height: usize,
    pub cells: Vec<i32>,
}

impl Grid {
    /// Width as a mathematical number.
    pub open spec fn w(self) -> nat {
        self.width as nat
    }

    /// Height as a mathematical number.
    pub open spec fn h(self) -> nat {
        self.height as nat
    }

    /// Grid invariant: the cell vector matches the dimensions and every cell
    /// is DEAD (0) or ALIVE (1).
    pub open spec fn wf(self) -> bool {
        valid_cells(self.cells@, self.w(), self.h())
    }

    /// Make a grid from its dimensions and a row-major cell vector.
    pub fn new(width: usize, height: usize, cells: Vec<i32>) -> (g: Grid)
        requires
            valid_cells(cells@, width as nat, height as nat),
        ensures
            g.wf(),
            g.width == width,
            g.height == height,
            g.cells@ == cells@,
    {
        Grid { width, height, cells }
    }

    /// The state of the cell at row `i`, column `j`: 0 (DEAD) or 1 (ALIVE).
    pub fn at(&self, i: usize, j: usize) -> (r: i32)
        requires
            self.wf(),
            i < self.height,
            j < self.width,
        ensures
            r == cell_at(self.cells@, self.w(), i as int, j as int),
            r == 0 || r == 1,
    {
        let n: usize = self.cells.len();
        proof {
            lemma_row_major_index(self.w(), self.h(), i as int, j as int);
        }
        self.cells[i * self.width + j]
    }
    /// The number of ALIVE cells among the up-to-8 neighbors of `(i, j)`,
    /// with positions outside the grid counting as DEAD (clipped, no wrap).
    pub fn neighbor_count(&self, i: usize, j: usize) -> (n: i32)
        requires
            self.wf(),
            i < self.height,
            j < self.width,
        ensures
            n == neighbor_sum(self.cells@, self.w(), self.h(), i as int, j as int),
            0 <= n <= 8,
    {
        let mut result: i32 = 0;
        if i > 0 {
            result += self.at(i - 1, j);
            if j > 0 {
                result += self.at(i - 1, j - 1);
            }
            if j < self.width - 1 {
                result += self.at(i - 1, j + 1);
            }
        }
        if j > 0 {
            result += self.at(i, j - 1);
        }
        if j < self.width - 1 {
            result += self.at(i, j + 1);
        }
        if i < self.height - 1 {
            result += self.at(i + 1, j);
            if j > 0 {
                result += self.at(i + 1, j - 1);
            }
            if j < self.width - 1 {
                result += self.at(i + 1, j + 1);
            }
        }
        result
    }

    /// One generation step: computes a fresh grid by applying the rule to
    /// every cell of `self` simultaneously; `self` is read only.
    pub fn step(&self) -> (g: Grid)
        requires
            self.wf(),
        ensures
            g.wf(),
            g.width == self.width,
            g.height == self.height,
            g.cells@ == step_seq(self.cells@, self.w(), self.h()),
    {
        let ghost s: Seq<i32> = self.cells@;
        let ghost t: Seq<i32> = step_seq(self.cells@, self.w(), self.h());
        let mut cells: Vec<i32> = Vec::new();
        let mut i: usize = 0;
        while i < self.height
            invariant
                self.wf(),
                i <= self.height,
                t == step_seq(s, self.w(), self.h()),
                s == self.cells@,
                cells@.len() == i * self.w(),
                forall|k: int| 0 <= k < cells@.len() ==> cells@[k] == t[k],
            decreases self.height - i,
        {
            let mut j: usize = 0;
            while j < self.width
                invariant
                    self.wf(),
                    i < self.height,
                    j <= self.width,
                    t == step_seq(s, self.w(), self.h()),
                    s == self.cells@,
                    cells@.len() == i * self.w() + j,
                    forall|k: int| 0 <= k < cells@.len() ==> cells@[k] == t[k],
                decreases self.width - j,
            {
                let n: i32 = self.neighbor_count(i, j);
                let cur: i32 = self.at(i, j);
                let v: i32 = if cur > 0 {
                    if n < 2 || n > 3 {
                        0
                    } else {
                        1
                    }
                } else {
                    if n == 3 {
                        1
                    } else {
                        0
                    }
                };
                proof {
                    let k0: int = i as int * self.w() + j as int;
                    lemma_row_major_index(self.w(), self.h(), i as int, j as int);
                    vstd::arithmetic::div_mod::lemma_fundamental_div_mod_converse(
                        k0,
                        self.w() as int,
                        i as int,
                        j as int,
                    );
                    assert(t[k0] == next_cell(s[k0], neighbor_sum(s, self.w(), self.h(), i as int, j as int)));
                    assert(v == t[k0]);
                }
                cells.push(v);
                j += 1;
            }
            proof {
                assert(i as int * self.w() + self.w() == (i + 1) as int * self.w()) by (nonlinear_arith);
            }
            i += 1;
        }
        proof {
            assert(self.h() * self.w() == self.w() * self.h()) by (nonlinear_arith);
            assert(cells@ =~= t);
        }
        Grid { width: self.width, height: self.height, cells }
    }
}

/// Relies on `rand::random::<bool>`: one uniformly distributed boolean draw.
/// Nothing is promised of the outcome; callers must be correct for either
/// result.
#[verifier::external_body]
fn coin_flip() -> bool {
    rand::random::<bool>()
}

impl Grid {
    /// A freshly seeded grid: every cell is independently set ALIVE (1) with
    /// probability one half, DEAD (0) otherwise. Only well-formedness and the
    /// dimensions are promised; the cell values depend on the random draws.
    pub fn seed(width: usize, height: usize) -> (g: Grid)
        requires
            width * height <= usize::MAX,
        ensures
            g.wf(),
            g.width == width,
            g.height == height,
    {
        let total: usize = width * height;
        let mut cells: Vec<i32> = Vec::new();
        let mut k: usize = 0;
        while k < total
            invariant
                total == width * height,
                k <= total,
                cells@.len() == k,
                forall|t: int| 0 <= t < cells@.len() ==> cells@[t] == 0 || cells@[t] == 1,
            decreases total - k,
        {
            let v: i32 = if coin_flip() {
                1
            } else {
                0
            };
            cells.push(v);
            k += 1;
        }
        Grid { width, height, cells }
    }
}

/// For a position inside the grid, the row-major index lies inside the cell
/// vector.
pub proof fn lemma_row_major_index(w: nat, h: nat, r: int, c: int)
    requires
        0 <= r < h,
        0 <= c < w,
    ensures
        0 <= r * w + c < w * h,
{
    assert(0 <= r * w + c < w * h) by (nonlinear_arith)
        requires
            0 <= r < h,
            0 <= c < w,
    ;
}

/// Every cell of `s` is DEAD.
pub open spec fn all_dead(s: Seq<i32>) -> bool {
    forall|k: int| 0 <= k < s.len() ==> s[k] == 0
}

/// In an all-DEAD grid every position contributes 0 to a neighbor sum.
proof fn lemma_clipped_dead(s: Seq<i32>, w: nat, h: nat, r: int, c: int)
    requires
        valid_cells(s, w, h),
        all_dead(s),
    ensures
        clipped(s, w, h, r, c) == 0,
{
    if 0 <= r < h && 0 <= c < w {
        lemma_row_major_index(w, h, r, c);
    }
}

/// One generation step leaves an all-DEAD grid all-DEAD: with every neighbor
/// sum 0, no cell is born.
pub proof fn lemma_dead_step(s: Seq<i32>, w: nat, h: nat)
    requires
        valid_cells(s, w, h),
        all_dead(s),
    ensures
        step_seq(s, w, h) == s,
{
    let t: Seq<i32> = step_seq(s, w, h);
    assert forall|k: int| 0 <= k < s.len() implies t[k] == s[k] by {
        let r: int = k / (w as int);
        let c: int = k % (w as int);
        lemma_clipped_dead(s, w, h, r - 1, c - 1);
        lemma_clipped_dead(s, w, h, r - 1, c);
        lemma_clipped_dead(s, w, h, r - 1, c + 1);
        lemma_clipped_dead(s, w, h, r, c - 1);
        lemma_clipped_dead(s, w, h, r, c + 1);
        lemma_clipped_dead(s, w, h, r + 1, c - 1);
        lemma_clipped_dead(s, w, h, r + 1, c);
        lemma_clipped_dead(s, w, h, r + 1, c + 1);
        assert(neighbor_sum(s, w, h, r, c) == 0);
    };
    assert(t =~= s);
}

/// A still life: a grid that one generation step leaves unchanged is
/// unchanged by any number of steps.
pub proof fn lemma_still_life(s: Seq<i32>, w: nat, h: nat, n: nat)
    requires
        step_seq(s, w, h) == s,
    ensures
        step_n(s, w, h, n) == s,
    decreases n,
{
    if n > 0 {
        lemma_still_life(s, w, h, (n - 1) as nat);
    }
}

/// An all-DEAD grid is a fixed point: advancing it any number of generations
/// yields all-DEAD again (no spontaneous birth).
pub proof fn lemma_dead_fixed_point(s: Seq<i32>, w: nat, h: nat, n: nat)
    requires
        valid_cells(s, w, h),
        all_dead(s),
    ensures
        step_n(s, w, h, n) == s,
{
    lemma_dead_step(s, w, h);
    lemma_still_life(s, w, h, n);
}

/// `(r, c)` lies in the 2-by-2 block whose top-left corner is `(r0, c0)`.
pub open spec fn in_block(r0: int, c0: int, r: int, c: int) -> bool {
    r0 <= r < r0 + 2 && c0 <= c < c0 + 2
}

/// The grid holding exactly one 2-by-2 block of ALIVE cells with top-left
/// corner `(r0, c0)`, every other cell DEAD.
pub open spec fn block_grid(w: nat, h: nat, r0: int, c0: int) -> Seq<i32> {
    Seq::new(
        w * h,
        |k: int| (if in_block(r0, c0, k / (w as int), k % (w as int)) {
            1i32
        } else {
            0i32
        }),
    )
}

/// In the block grid, a position contributes 1 to a neighbor sum exactly
/// when it lies in the block (the block sits inside the grid, so a clipped
/// position never does).
proof fn lemma_clipped_block(w: nat, h: nat, r0: int, c0: int, r: int, c: int)
    requires
        0 <= r0,
        r0 + 2 <= h,
        0 <= c0,
        c0 + 2 <= w,
    ensures
        clipped(block_grid(w, h, r0, c0), w, h, r, c) == (if in_block(r0, c0, r, c) {
            1int
        } else {
            0int
        }),
{
    if 0 <= r < h && 0 <= c < w {
        lemma_row_major_index(w, h, r, c);
        vstd::arithmetic::div_mod::lemma_fundamental_div_mod_converse(r * w + c, w as int, r, c);
    }
}

/// Stasis of the still-life block: a grid holding exactly one 2-by-2 block of
/// ALIVE cells, anywhere inside the grid, is unchanged by one generation
/// step. Each block cell sees exactly 3 neighbors and survives; any other
/// cell sees at most 2 (the 3-by-3 neighborhood meets the block in a
/// rectangle of 0, 1, 2 or 4 cells, never 3) and stays DEAD.
pub proof fn lemma_block_still_life(w: nat, h: nat, r0: int, c0: int)
    requires
        0 <= r0,
        r0 + 2 <= h,
        0 <= c0,
        c0 + 2 <= w,
    ensures
        step_seq(block_grid(w, h, r0, c0), w, h) == block_grid(w, h, r0, c0),
{
    let s: Seq<i32> = block_grid(w, h, r0, c0);
    let t: Seq<i32> = step_seq(s, w, h);
    assert forall|k: int| 0 <= k < w * h implies t[k] == s[k] by {
        let wi: int = w as int;
        let r: int = k / wi;
        let c: int = k % wi;
        lemma_clipped_block(w, h, r0, c0, r - 1, c - 1);
        lemma_clipped_block(w, h, r0, c0, r - 1, c);
        lemma_clipped_block(w, h, r0, c0, r - 1, c + 1);
        lemma_clipped_block(w, h, r0, c0, r, c - 1);
        lemma_clipped_block(w, h, r0, c0, r, c + 1);
        lemma_clipped_block(w, h, r0, c0, r + 1, c - 1);
        lemma_clipped_block(w, h, r0, c0, r + 1, c);
        lemma_clipped_block(w, h, r0, c0, r + 1, c + 1);
        if in_block(r0, c0, r, c) {
            assert(neighbor_sum(s, w, h, r, c) == 3);
        } else {
            assert(neighbor_sum(s, w, h, r, c) != 3);
        }
    };
    assert(t =~= s);
}

/// `(r, c)` lies on the horizontal 3-cell line with left end `(r0, c0)`.
pub open spec fn in_hline(r0: int, c0: int, r: int, c: int) -> bool {
    r == r0 && c0 <= c < c0 + 3
}

/// `(r, c)` lies on the vertical 3-cell line through the center of that
/// horizontal line: rows `r0 - 1` to `r0 + 1`, column `c0 + 1`.
pub open spec fn in_vline(r0: int, c0: int, r: int, c: int) -> bool {
    r0 - 1 <= r < r0 + 2 && c == c0 + 1
}

/// The grid holding exactly one horizontal 3-cell ALIVE line, rest DEAD.
pub open spec fn hline_grid(w: nat, h: nat, r0: int, c0: int) -> Seq<i32> {
    Seq::new(
        w * h,
        |k: int| (if in_hline(r0, c0, k / (w as int), k % (w as int)) {
            1i32
        } else {
            0i32
        }),
    )
}

/// The grid holding exactly one vertical 3-cell ALIVE line, rest DEAD.
pub open spec fn vline_grid(w: nat, h: nat, r0: int, c0: int) -> Seq<i32> {
    Seq::new(
        w * h,
        |k: int| (if in_vline(r0, c0, k / (w as int), k % (w as int)) {
            1i32
        } else {
            0i32
        }),
    )
}

/// In the horizontal-line grid, a position contributes 1 exactly when it
/// lies on the line.
proof fn lemma_clipped_hline(w: nat, h: nat, r0: int, c0: int, r: int, c: int)
    requires
        1 <= r0,
        r0 + 2 <= h,
        0 <= c0,
        c0 + 3 <= w,
    ensures
        clipped(hline_grid(w, h, r0, c0), w, h, r, c) == (if in_hline(r0, c0, r, c) {
            1int
        } else {
            0int
        }),
{
    if 0 <= r < h && 0 <= c < w {
        lemma_row_major_index(w, h, r, c);
        vstd::arithmetic::div_mod::lemma_fundamental_div_mod_converse(r * w + c, w as int, r, c);
    }
}

/// In the vertical-line grid, a position contributes 1 exactly when it lies
/// on the line.
proof fn lemma_clipped_vline(w: nat, h: nat, r0: int, c0: int, r: int, c: int)
    requires
        1 <= r0,
        r0 + 2 <= h,
        0 <= c0,
        c0 + 3 <= w,
    ensures
        clipped(vline_grid(w, h, r0, c0), w, h, r, c) == (if in_vline(r0, c0, r, c) {
            1int
        } else {
            0int
        }),
{
    if 0 <= r < h && 0 <= c < w {
        lemma_row_major_index(w, h, r, c);
        vstd::arithmetic::div_mod::lemma_fundamental_div_mod_converse(r * w + c, w as int, r, c);
    }
}

/// One generation step turns the horizontal 3-cell line into the vertical
/// one: the center survives on 2 neighbors, the two ends die on 1, and the
/// cells directly above and below the center are born on exactly 3.
pub proof fn lemma_blinker_step(w: nat, h: nat, r0: int, c0: int)
    requires
        1 <= r0,
        r0 + 2 <= h,
        0 <= c0,
        c0 + 3 <= w,
    ensures
        step_seq(hline_grid(w, h, r0, c0), w, h) == vline_grid(w, h, r0, c0),
{
    let s: Seq<i32> = hline_grid(w, h, r0, c0);
    let t: Seq<i32> = step_seq(s, w, h);
    let v: Seq<i32> = vline_grid(w, h, r0, c0);
    assert forall|k: int| 0 <= k < w * h implies t[k] == v[k] by {
        let wi: int = w as int;
        let r: int = k / wi;
        let c: int = k % wi;
        lemma_clipped_hline(w, h, r0, c0, r - 1, c - 1);
        lemma_clipped_hline(w, h, r0, c0, r - 1, c);
        lemma_clipped_hline(w, h, r0, c0, r - 1, c + 1);
        lemma_clipped_hline(w, h, r0, c0, r, c - 1);
        lemma_clipped_hline(w, h, r0, c0, r, c + 1);
        lemma_clipped_hline(w, h, r0, c0, r + 1, c - 1);
        lemma_clipped_hline(w, h, r0, c0, r + 1, c);
        lemma_clipped_hline(w, h, r0, c0, r + 1, c + 1);
        if in_vline(r0, c0, r, c) {
            assert(next_cell(s[k], neighbor_sum(s, w, h, r, c)) == 1);
        } else {
            assert(next_cell(s[k], neighbor_sum(s, w, h, r, c)) == 0);
        }
    };
    assert(t =~= v);
}

/// One generation step turns the vertical 3-cell line back into the
/// horizontal one.
pub proof fn lemma_blinker_back(w: nat, h: nat, r0: int, c0: int)
    requires
        1 <= r0,
        r0 + 2 <= h,
        0 <= c0,
        c0 + 3 <= w,
    ensures
        step_seq(vline_grid(w, h, r0, c0), w, h) == hline_grid(w, h, r0, c0),
{
    let s: Seq<i32> = vline_grid(w, h, r0, c0);
    let t: Seq<i32> = step_seq(s, w, h);
    let v: Seq<i32> = hline_grid(w, h, r0, c0);
    assert forall|k: int| 0 <= k < w * h implies t[k] == v[k] by {
        let wi: int = w as int;
        let r: int = k / wi;
        let c: int = k % wi;
        lemma_clipped_vline(w, h, r0, c0, r - 1, c - 1);
        lemma_clipped_vline(w, h, r0, c0, r - 1, c);
        lemma_clipped_vline(w, h, r0, c0, r - 1, c + 1);
        lemma_clipped_vline(w, h, r0, c0, r, c - 1);
        lemma_clipped_vline(w, h, r0, c0, r, c + 1);
        lemma_clipped_vline(w, h, r0, c0, r + 1, c - 1);
        lemma_clipped_vline(w, h, r0, c0, r + 1, c);
        lemma_clipped_vline(w, h, r0, c0, r + 1, c + 1);
        if in_hline(r0, c0, r, c) {
            assert(next_cell(s[k], neighbor_sum(s, w, h, r, c)) == 1);
        } else {
            assert(next_cell(s[k], neighbor_sum(s, w, h, r, c)) == 0);
        }
    };
    assert(t =~= v);
}

/// Blinker oscillation: the horizontal 3-cell line becomes the vertical one
/// after exactly one generation step, returns after a second, and so comes
/// back to itself after every even number of steps.
pub proof fn lemma_blinker_oscillation(w: nat, h: nat, r0: int, c0: int, n: nat)
    requires
        1 <= r0,
        r0 + 2 <= h,
        0 <= c0,
        c0 + 3 <= w,
    ensures
        step_seq(hline_grid(w, h, r0, c0), w, h) == vline_grid(w, h, r0, c0),
        step_seq(vline_grid(w, h, r0, c0), w, h) == hline_grid(w, h, r0, c0),
        step_n(hline_grid(w, h, r0, c0), w, h, 2 * n) == hline_grid(w, h, r0, c0),
{
    lemma_blinker_step(w, h, r0, c0);
    lemma_blinker_back(w, h, r0, c0);
    lemma_period_two(hline_grid(w, h, r0, c0), w, h, n);
}

/// An oscillator of period two: a grid that two generation steps bring back
/// returns to itself after every even number of steps.
pub proof fn lemma_period_two(s: Seq<i32>, w: nat, h: nat, n: nat)
    requires
        step_seq(step_seq(s, w, h), w, h) == s,
    ensures
        step_n(s, w, h, 2 * n) == s,
    decreases n,
{
    if n > 0 {
        lemma_period_two(s, w, h, (n - 1) as nat);
        assert(step_n(s, w, h, (2 * n - 1) as nat) == step_seq(
            step_n(s, w, h, (2 * n - 2) as nat),
            w,
            h,
        ));
        assert(step_n(s, w, h, 2 * n) == step_seq(step_n(s, w, h, (2 * n - 1) as nat), w, h));
    }
}

} // verus!
