//! The automaton engine: grid state, simulation clock, and run flag.
//!
//! The clock keeps an accumulated time debt in integer units of one
//! nanosecond times the tick rate ("nano-ticks"); `NANOS_PER_SEC` such units
//! make exactly one generation step, so elapsed time converts to whole
//! generations without rounding loss. After every `advance` call the residual
//! debt is strictly below one tick period, and the clock never goes negative.

use crate::grid::{step_n, step_seq, Grid};
use vstd::prelude::*;

verus! {

/// Nano-tick units that make up one generation step.
pub const NANOS_PER_SEC: u64 = 1_000_000_000;

/// Default tick rate: generation steps per second of elapsed time.
pub const DEFAULT_TICK_RATE: u64 = 60;

/// How many whole generation steps a debt of `debt` plus newly elapsed
/// `add` nano-ticks pays for.
pub open spec fn ticks_of(debt: int, add: int) -> int {
    (debt + add) / (NANOS_PER_SEC as int)
}

/// The debt left over once the whole generation steps are paid for.
pub open spec fn residual_of(debt: int, add: int) -> int {
    (debt + add) % (NANOS_PER_SEC as int)
}

/// The automaton engine: owns the grid, the simulation clock, and the
/// one-way run flag.
pub struct App {
    pub grid: Grid,
    pub run: bool,
    pub time_debt: u64,
    pub tick_rate: u64,
}

impl App {
    /// Engine invariant: the grid is well formed, the residual time debt is
    /// below one tick period, and the tick rate is positive.
    pub open spec fn wf(self) -> bool {
        &&& self.grid.wf()
        &&& self.time_debt < NANOS_PER_SEC
        &&& self.tick_rate >= 1
    }

    /// A stopped engine around `grid`, with zero time debt and the default
    /// tick rate.
    pub fn new(grid: Grid) -> (a: App)
        requires
            grid.wf(),
        ensures
            a.wf(),
            a.grid == grid,
            !a.run,
            a.time_debt == 0,
            a.tick_rate == DEFAULT_TICK_RATE,
    {
        App { grid, run: false, time_debt: 0, tick_rate: DEFAULT_TICK_RATE }
    }

    /// A stopped engine around `grid` with a chosen tick rate.
    pub fn with_tick_rate(grid: Grid, tick_rate: u64) -> (a: App)
        requires
            grid.wf(),
            tick_rate >= 1,
        ensures
            a.wf(),
            a.grid == grid,
            !a.run,
            a.time_debt == 0,
            a.tick_rate == tick_rate,
    {
        App { grid, run: false, time_debt: 0, tick_rate }
    }

    /// Set the run flag. Idempotent; nothing else changes. There is no
    /// transition back to the stopped state.
    pub fn trigger_run(&mut self)
        ensures
            final(self).run,
            final(self).grid == old(self).grid,
            final(self).time_debt == old(self).time_debt,
            final(self).tick_rate == old(self).tick_rate,
            old(self).wf() ==> final(self).wf(),
    {
        self.run = true;
    }

    /// Advance the simulation by `dt_nanos` nanoseconds of elapsed time.
    ///
    /// While the engine is stopped this is a no-op: the grid is untouched and
    /// no time debt accumulates. While it runs, the elapsed nano-ticks join
    /// the debt, the grid steps once per whole tick period paid for (zero
    /// steps leave the grid untouched and the debt retained), and the
    /// residual debt is the total modulo one tick period.
    pub fn advance(&mut self, dt_nanos: u64)
        requires
            old(self).wf(),
            old(self).run ==> old(self).time_debt + dt_nanos * old(self).tick_rate <= u64::MAX,
        ensures
            final(self).wf(),
            final(self).run == old(self).run,
            final(self).tick_rate == old(self).tick_rate,
            final(self).grid.width == old(self).grid.width,
            final(self).grid.height == old(self).grid.height,
            !old(self).run ==> *final(self) == *old(self),
            old(self).run ==> final(self).time_debt == residual_of(
                old(self).time_debt as int,
                dt_nanos as int * old(self).tick_rate as int,
            ),
            old(self).run ==> final(self).grid.cells@ == step_n(
                old(self).grid.cells@,
                old(self).grid.w(),
                old(self).grid.h(),
                ticks_of(
                    old(self).time_debt as int,
                    dt_nanos as int * old(self).tick_rate as int,
                ) as nat,
            ),
    {
        if !self.run {
            return;
        }
        let add: u64 = dt_nanos * self.tick_rate;
        self.time_debt = self.time_debt + add;
        let ticks: u64 = self.time_debt / NANOS_PER_SEC;
        let ghost s0: Seq<i32> = old(self).grid.cells@;
        let ghost w0: nat = old(self).grid.w();
        let ghost h0: nat = old(self).grid.h();
        let mut done: u64 = 0;
        while done < ticks
            invariant
                done <= ticks,
                s0 == old(self).grid.cells@,
                w0 == old(self).grid.w(),
                h0 == old(self).grid.h(),
                self.grid.wf(),
                self.grid.width == old(self).grid.width,
                self.grid.height == old(self).grid.height,
                self.run == old(self).run,
                self.tick_rate == old(self).tick_rate,
                self.time_debt == old(self).time_debt + add,
                self.grid.cells@ == step_n(s0, w0, h0, done as nat),
            decreases ticks - done,
        {
            let g: Grid = self.grid.step();
            self.grid = g;
            proof {
                assert(step_n(s0, w0, h0, (done + 1) as nat) == step_seq(
                    step_n(s0, w0, h0, done as nat),
                    w0,
                    h0,
                ));
            }
            done += 1;
        }
        self.time_debt = self.time_debt % NANOS_PER_SEC;
    }
}

/// Time-debt conservation. A call whose elapsed nano-ticks `add1` keep the
/// accumulated debt below one tick period pays for no generation step and
/// retains the whole debt; a following call whose nano-ticks `add2` carry the
/// total across exactly one tick boundary pays for exactly one step; and the
/// residual debt is always the total modulo one tick period, in
/// `[0, NANOS_PER_SEC)`.
pub proof fn lemma_time_debt_conservation(debt: int, add1: int, add2: int)
    requires
        0 <= debt,
        0 <= add1,
        0 <= add2,
        debt + add1 < NANOS_PER_SEC,
    ensures
        ticks_of(debt, add1) == 0,
        residual_of(debt, add1) == debt + add1,
        NANOS_PER_SEC <= debt + add1 + add2 < 2 * NANOS_PER_SEC ==> ticks_of(debt + add1, add2)
            == 1,
        NANOS_PER_SEC <= debt + add1 + add2 < 2 * NANOS_PER_SEC ==> residual_of(debt + add1, add2)
            == debt + add1 + add2 - NANOS_PER_SEC,
        0 <= residual_of(debt + add1, add2) < NANOS_PER_SEC,
{
    let p: int = NANOS_PER_SEC as int;
    vstd::arithmetic::div_mod::lemma_fundamental_div_mod_converse(debt + add1, p, 0, debt + add1);
    if p <= debt + add1 + add2 < 2 * p {
        vstd::arithmetic::div_mod::lemma_fundamental_div_mod_converse(
            debt + add1 + add2,
            p,
            1,
            debt + add1 + add2 - p,
        );
    }
    vstd::arithmetic::div_mod::lemma_mod_bound(debt + add1 + add2, p);
}

} // verus!
