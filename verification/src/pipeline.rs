//! The compute passes of one simulation step, and how many work groups each dispatches.
use vstd::prelude::*;

verus! {

/// Number of invocations in one local work group of the compute shader.
pub const LOCAL_WORKGROUP_SIZE: i32 = 64;

/// Number of work groups needed so that every one of `count` items gets an
/// invocation: the quotient of `count + 63` by the work group size (rounded toward zero,
/// as integer division does), that is, `count / 64` rounded up for `count >= 0`.
pub fn workgroup_count(count: i32) -> (groups: i32)
    requires
        count + LOCAL_WORKGROUP_SIZE <= i32::MAX,
    ensures
        count + 63 >= 0 ==> groups == (count + 63) / 64,
        count + 63 < 0 ==> groups == -((-(count + 63)) / 64),
        count >= 0 ==> count <= 64 * groups && 0 <= groups,
        count > 0 ==> 64 * (groups - 1) < count,
        count == 0 ==> groups == 0,
{
    (count + LOCAL_WORKGROUP_SIZE - 1) / LOCAL_WORKGROUP_SIZE
}

/// For a count that is not negative, the work groups cover every item and no group is
/// left without items: `64 * (groups - 1) < count <= 64 * groups` (no group at all for no
/// items).
pub proof fn lemma_workgroups_cover(count: int, groups: int)
    requires
        count >= 0,
        groups == (count + 63) / 64,
    ensures
        count <= 64 * groups,
        count > 0 ==> 64 * (groups - 1) < count,
        count == 0 ==> groups == 0,
{
}

/// The quantity that the compute shader works out in a pass.
#[derive(PartialEq, Eq, Structural, Debug, Clone, Copy, Default)]
pub enum CalculationType {
    #[default]
    CalculateDensities,
    CalculatePressure,
    CalculateViscosity,
    CalculateSurfaceTension,
    CalculateGravity,
    CalculateGhostDensities,
    InitSimulationStep,
    FinalizeSimulationStep,
    CalculateBomb,
}

/// The number by which the shader tells the passes apart.
pub open spec fn calculation_code(t: CalculationType) -> i32 {
    match t {
        CalculationType::CalculateDensities => 0,
        CalculationType::CalculatePressure => 1,
        CalculationType::CalculateViscosity => 2,
        CalculationType::CalculateSurfaceTension => 3,
        CalculationType::CalculateGravity => 4,
        CalculationType::CalculateGhostDensities => 5,
        CalculationType::InitSimulationStep => 6,
        CalculationType::FinalizeSimulationStep => 7,
        CalculationType::CalculateBomb => 8,
    }
}

impl CalculationType {
    /// The number by which the shader tells the passes apart.
    pub fn code(&self) -> (c: i32)
        ensures
            c == calculation_code(*self),
    {
        match self {
            CalculationType::CalculateDensities => 0,
            CalculationType::CalculatePressure => 1,
            CalculationType::CalculateViscosity => 2,
            CalculationType::CalculateSurfaceTension => 3,
            CalculationType::CalculateGravity => 4,
            CalculationType::CalculateGhostDensities => 5,
            CalculationType::InitSimulationStep => 6,
            CalculationType::FinalizeSimulationStep => 7,
            CalculationType::CalculateBomb => 8,
        }
    }
}

/// The arrays of the shader storage buffer.
#[derive(PartialEq, Eq, Structural, Debug, Clone, Copy)]
pub enum SSBOType {
    Positions,
    GhostPositions,
    Velocities,
    Forces,
    Cells,
    GhostCells,
    Densitie,
    GhostDensitie,
    Indices,
    GhostIndices,
}

/// Over what a pass dispatches its work groups.
#[derive(PartialEq, Eq, Structural, Debug, Clone, Copy)]
pub enum Dispatch {
    /// One invocation per fluid particle.
    Particles,
    /// One invocation per ghost particle.
    GhostParticles,
    /// A single work group.
    Single,
}

/// One compute pass: what it works out, over what, and whether a memory barrier
/// follows it.
#[derive(PartialEq, Eq, Structural, Debug, Clone, Copy)]
pub struct ComputePass {
    pub calculation: CalculationType,
    pub dispatch: Dispatch,
    pub barrier: bool,
}

pub open spec fn pass(calculation: CalculationType, dispatch: Dispatch, barrier: bool) -> ComputePass {
    ComputePass { calculation, dispatch, barrier }
}

/// The passes of one step: start the step, densities of fluid then ghost particles,
/// then gravity, pressure, viscosity and surface tension; the bomb when it is due; and
/// the step's end.
pub open spec fn step_passes_spec(bomb_due: bool) -> Seq<ComputePass> {
    let head = seq![
        pass(CalculationType::InitSimulationStep, Dispatch::Particles, false),
        pass(CalculationType::CalculateDensities, Dispatch::Particles, false),
        pass(CalculationType::CalculateGhostDensities, Dispatch::GhostParticles, true),
        pass(CalculationType::CalculateGravity, Dispatch::Particles, true),
        pass(CalculationType::CalculatePressure, Dispatch::Particles, true),
        pass(CalculationType::CalculateViscosity, Dispatch::Particles, true),
        pass(CalculationType::CalculateSurfaceTension, Dispatch::Particles, true),
    ];
    let bomb = if bomb_due {
        seq![pass(CalculationType::CalculateBomb, Dispatch::Single, true)]
    } else {
        Seq::empty()
    };
    head + bomb + seq![pass(CalculationType::FinalizeSimulationStep, Dispatch::Particles, true)]
}

/// The compute passes of one simulation step, in order.
pub fn step_passes(bomb_due: bool) -> (passes: Vec<ComputePass>)
    ensures
        passes@ == step_passes_spec(bomb_due),
        passes@.len() == if bomb_due { 9int } else { 8int },
        passes@[0].calculation == CalculationType::InitSimulationStep,
        passes@[1].calculation == CalculationType::CalculateDensities,
        passes@[2].calculation == CalculationType::CalculateGhostDensities,
        passes@[3].calculation == CalculationType::CalculateGravity,
        passes@[4].calculation == CalculationType::CalculatePressure,
        passes@[5].calculation == CalculationType::CalculateViscosity,
        passes@[6].calculation == CalculationType::CalculateSurfaceTension,
        bomb_due ==> passes@[7].calculation == CalculationType::CalculateBomb,
        passes@.last().calculation == CalculationType::FinalizeSimulationStep,
{
    let mut passes: Vec<ComputePass> = Vec::new();
    passes.push(ComputePass { calculation: CalculationType::InitSimulationStep, dispatch: Dispatch::Particles, barrier: false });
    passes.push(ComputePass { calculation: CalculationType::CalculateDensities, dispatch: Dispatch::Particles, barrier: false });
    passes.push(ComputePass { calculation: CalculationType::CalculateGhostDensities, dispatch: Dispatch::GhostParticles, barrier: true });
    passes.push(ComputePass { calculation: CalculationType::CalculateGravity, dispatch: Dispatch::Particles, barrier: true });
    passes.push(ComputePass { calculation: CalculationType::CalculatePressure, dispatch: Dispatch::Particles, barrier: true });
    passes.push(ComputePass { calculation: CalculationType::CalculateViscosity, dispatch: Dispatch::Particles, barrier: true });
    passes.push(ComputePass { calculation: CalculationType::CalculateSurfaceTension, dispatch: Dispatch::Particles, barrier: true });
    if bomb_due {
        passes.push(ComputePass { calculation: CalculationType::CalculateBomb, dispatch: Dispatch::Single, barrier: true });
    }
    passes.push(ComputePass { calculation: CalculationType::FinalizeSimulationStep, dispatch: Dispatch::Particles, barrier: true });
    assert(passes@ =~= step_passes_spec(bomb_due));
    passes
}


/// The position of a calculation in the order of a step: each pass reads what the passes
/// before it wrote.
pub open spec fn stage(c: CalculationType) -> int {
    match c {
        CalculationType::InitSimulationStep => 0,
        CalculationType::CalculateDensities => 1,
        CalculationType::CalculateGhostDensities => 1,
        CalculationType::CalculateGravity => 2,
        CalculationType::CalculatePressure => 3,
        CalculationType::CalculateViscosity => 4,
        CalculationType::CalculateSurfaceTension => 5,
        CalculationType::CalculateBomb => 6,
        CalculationType::FinalizeSimulationStep => 7,
    }
}

/// A step starts the step first and finishes it last; it works out the densities of fluid
/// and ghost particles before the forces that read them (gravity, pressure, viscosity,
/// surface tension, in that order); every calculation comes at most once, the bomb exactly
/// when it is due and every other calculation always. Only the ghost densities run over
/// the ghost particles and only the bomb over a single group; only the step's start and
/// the fluid densities go without a memory barrier after them.
pub proof fn lemma_step_order(bomb_due: bool)
    ensures
        forall|i: int, j: int|
            0 <= i < j < step_passes_spec(bomb_due).len() ==> stage(
                #[trigger] step_passes_spec(bomb_due)[i].calculation,
            ) <= stage(#[trigger] step_passes_spec(bomb_due)[j].calculation)
                && step_passes_spec(bomb_due)[i].calculation != step_passes_spec(bomb_due)[j].calculation,
        forall|c: CalculationType|
            #![trigger stage(c)]
            (exists|i: int| 0 <= i < step_passes_spec(bomb_due).len() && step_passes_spec(bomb_due)[i].calculation == c)
                <==> (c != CalculationType::CalculateBomb || bomb_due),
        forall|i: int|
            #![trigger step_passes_spec(bomb_due)[i]]
            0 <= i < step_passes_spec(bomb_due).len() ==> {
                let q = step_passes_spec(bomb_due)[i];
                &&& (q.dispatch == Dispatch::GhostParticles) <==> (q.calculation
                    == CalculationType::CalculateGhostDensities)
                &&& (q.dispatch == Dispatch::Single) <==> (q.calculation == CalculationType::CalculateBomb)
                &&& !q.barrier <==> (q.calculation == CalculationType::InitSimulationStep || q.calculation
                    == CalculationType::CalculateDensities)
            },
{
    let s = step_passes_spec(bomb_due);
    assert(s.len() == if bomb_due { 9int } else { 8int });
    assert(s[0].calculation == CalculationType::InitSimulationStep);
    assert(s[1].calculation == CalculationType::CalculateDensities);
    assert(s[2].calculation == CalculationType::CalculateGhostDensities);
    assert(s[3].calculation == CalculationType::CalculateGravity);
    assert(s[4].calculation == CalculationType::CalculatePressure);
    assert(s[5].calculation == CalculationType::CalculateViscosity);
    assert(s[6].calculation == CalculationType::CalculateSurfaceTension);
    if bomb_due {
        assert(s[7].calculation == CalculationType::CalculateBomb);
        assert(s[8].calculation == CalculationType::FinalizeSimulationStep);
    } else {
        assert(s[7].calculation == CalculationType::FinalizeSimulationStep);
    }
    assert forall|c: CalculationType| #![trigger stage(c)]
        (exists|i: int| 0 <= i < s.len() && s[i].calculation == c) <==> (c != CalculationType::CalculateBomb
            || bomb_due) by {
        if c != CalculationType::CalculateBomb || bomb_due {
            let i: int = match c {
                CalculationType::InitSimulationStep => 0,
                CalculationType::CalculateDensities => 1,
                CalculationType::CalculateGhostDensities => 2,
                CalculationType::CalculateGravity => 3,
                CalculationType::CalculatePressure => 4,
                CalculationType::CalculateViscosity => 5,
                CalculationType::CalculateSurfaceTension => 6,
                CalculationType::CalculateBomb => 7,
                CalculationType::FinalizeSimulationStep => if bomb_due { 8 } else { 7 },
            };
            assert(s[i].calculation == c);
        }
    }
}

} // verus!
