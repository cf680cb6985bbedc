use vstd::prelude::*;
use crate::cell_matrix::CellMatrix;
use crate::worker::{RowRange, band_start, partition_rows};

verus! {

/// Why a simulation cannot be built with a given configuration.
#[derive(Copy, Clone, Debug, PartialEq, Eq, Structural)]
pub enum ConfigError {
    /// The worker pool would have no thread.
    ZeroThreadCount,
    /// Grid cells would have no extent.
    ZeroCellSize,
    /// The grid would have no row or no column.
    ZeroGridDimension,
    /// The grid would have more cells than memory can index.
    GridTooLarge,
}

/// The spatial grid of a new simulation and the rows of it that each worker thread owns.
pub struct Layout {
    pub matrix: CellMatrix,
    pub bands: Vec<RowRange>,
}

/// The error, if any, that a configuration is refused with; checked in this order.
pub open spec fn config_error(
    thread_cnt: u32,
    cell_size: u32,
    grid_width: u32,
    grid_height: u32,
) -> Option<ConfigError> {
    if thread_cnt == 0 {
        Some(ConfigError::ZeroThreadCount)
    } else if cell_size == 0 {
        Some(ConfigError::ZeroCellSize)
    } else if grid_width == 0 || grid_height == 0 {
        Some(ConfigError::ZeroGridDimension)
    } else if grid_width as int * grid_height as int > usize::MAX {
        Some(ConfigError::GridTooLarge)
    } else {
        None
    }
}

/// Builds an empty `grid_width x grid_height` grid of cells of side `cell_size`, and
/// splits its rows among `thread_cnt` worker threads, or says why the configuration is
/// refused.
pub fn plan_layout(thread_cnt: u32, cell_size: u32, grid_width: u32, grid_height: u32) -> (r:
    Result<Layout, ConfigError>)
    ensures
        match config_error(thread_cnt, cell_size, grid_width, grid_height) {
            Some(e) => r == Err::<Layout, ConfigError>(e),
            None => r is Ok,
        },
        r matches Ok(l) ==> {
            &&& l.matrix.wf()
            &&& l.matrix.width_spec() == grid_width
            &&& l.matrix.height_spec() == grid_height
            &&& l.matrix.cell_size_spec() == cell_size
            &&& forall|i: int| 0 <= i < l.matrix@.len() ==> l.matrix@[i].len() == 0
            &&& l.bands@.len() == thread_cnt
            &&& forall|i: int|
                0 <= i < thread_cnt ==> {
                    &&& (#[trigger] l.bands@[i]).row_cnt == grid_height / thread_cnt
                    &&& l.bands@[i].extra_pass == (i < grid_height % thread_cnt)
                    &&& l.bands@[i].start_index == band_start(
                        grid_height as int,
                        thread_cnt as int,
                        i,
                    )
                }
        },
{
    if thread_cnt == 0 {
        return Err(ConfigError::ZeroThreadCount);
    }
    if cell_size == 0 {
        return Err(ConfigError::ZeroCellSize);
    }
    if grid_width == 0 || grid_height == 0 {
        return Err(ConfigError::ZeroGridDimension);
    }
    proof {
        assert(grid_width as int * grid_height as int <= u32::MAX as int * u32::MAX as int)
            by (nonlinear_arith)
            requires
                grid_width <= u32::MAX,
                grid_height <= u32::MAX,
        ;
    }
    if grid_width as u64 * grid_height as u64 > usize::MAX as u64 {
        return Err(ConfigError::GridTooLarge);
    }
    let matrix = CellMatrix::new(grid_width, grid_height, cell_size);
    let bands = partition_rows(grid_height, thread_cnt);
    Ok(Layout { matrix, bands })
}

/// One phase of a simulation sub-step.
#[derive(Copy, Clone, Debug, PartialEq, Eq, Structural)]
pub enum TickPhase {
    /// Add gravity to the acceleration of every body.
    ApplyGravity,
    /// Pull every body back inside the world's boundary.
    ApplyConstraints,
    /// Start the worker pool on one collision pass and wait for it to finish.
    ResolveCollisions,
    /// Advance every body by one Verlet step.
    Integrate,
}

/// The `k`-th phase of every sub-step.
pub open spec fn substep_phase(k: int) -> TickPhase {
    if k == 0 {
        TickPhase::ApplyGravity
    } else if k == 1 {
        TickPhase::ApplyConstraints
    } else if k == 2 {
        TickPhase::ResolveCollisions
    } else if k == 3 {
        TickPhase::Integrate
    } else {
        TickPhase::ApplyConstraints
    }
}

/// The number of phases in a sub-step.
pub const PHASES_PER_SUBSTEP: usize = 5;

/// The phases of one tick of `sub_step_cnt` sub-steps, in order: each sub-step applies
/// gravity, the boundary, a collision pass, integration and the boundary again.
pub fn tick_plan(sub_step_cnt: u32) -> (r: Vec<TickPhase>)
    requires
        sub_step_cnt as int * PHASES_PER_SUBSTEP <= usize::MAX,
    ensures
        r@.len() == sub_step_cnt as int * PHASES_PER_SUBSTEP,
        forall|i: int|
            0 <= i < r@.len() ==> #[trigger] r@[i] == substep_phase(i % PHASES_PER_SUBSTEP as int),
{
    let mut out: Vec<TickPhase> = Vec::new();
    let mut s: u32 = 0;
    while s < sub_step_cnt
        invariant
            s <= sub_step_cnt,
            sub_step_cnt as int * PHASES_PER_SUBSTEP <= usize::MAX,
            out@.len() == s as int * PHASES_PER_SUBSTEP,
            forall|i: int|
                0 <= i < out@.len() ==> #[trigger] out@[i] == substep_phase(
                    i % PHASES_PER_SUBSTEP as int,
                ),
        decreases sub_step_cnt - s,
    {
        let ghost base = out@.len();
        let mut k: usize = 0;
        while k < PHASES_PER_SUBSTEP
            invariant
                k <= PHASES_PER_SUBSTEP,
                base == s as int * PHASES_PER_SUBSTEP,
                out@.len() == base + k,
                forall|i: int|
                    0 <= i < out@.len() ==> #[trigger] out@[i] == substep_phase(
                        i % PHASES_PER_SUBSTEP as int,
                    ),
            decreases PHASES_PER_SUBSTEP - k,
        {
            let phase = if k == 0 {
                TickPhase::ApplyGravity
            } else if k == 1 {
                TickPhase::ApplyConstraints
            } else if k == 2 {
                TickPhase::ResolveCollisions
            } else if k == 3 {
                TickPhase::Integrate
            } else {
                TickPhase::ApplyConstraints
            };
            proof {
                assert((base + k) % 5 == k as int) by (nonlinear_arith)
                    requires
                        base == s as int * 5,
                        0 <= k < 5,
                        s >= 0,
                ;
            }
            out.push(phase);
            k += 1;
        }
        s += 1;
    }
    out
}

} // verus!
