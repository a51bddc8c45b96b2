//! The order of a run: set the accelerator up step by step, dispatch, and
//! fall back to the CPU as soon as any of that is not to be had.

use vstd::prelude::*;

verus! {

/// The stages of a run.
#[derive(Debug, Clone, Copy, PartialEq, Eq, Structural)]
pub enum Stage {
    /// Enumerate the accelerator devices.
    DiscoverDevice,
    /// Make an execution context on the device.
    CreateContext,
    /// Make an in-order command queue in the context.
    CreateQueue,
    /// Find and read the kernel's source.
    ReadSource,
    /// Compile the source for the device.
    BuildProgram,
    /// Bind the entry point of the compiled program.
    BindEntry,
    /// Run the batch dispatcher.
    Dispatch,
    /// Search the whole wordlist on the CPU.
    CpuFallback,
    /// The outcome was reported.
    Finished,
}

/// How a stage ended.
#[derive(Debug, Clone, Copy, PartialEq, Eq, Structural)]
pub enum StageResult {
    /// The stage did what it is for.
    Succeeded,
    /// The accelerator, or the part of it that the stage needs, is not to be
    /// had.
    Unavailable,
}

/// The stage uses the accelerator.
pub open spec fn uses_accelerator(stage: Stage) -> bool {
    !(stage is CpuFallback) && !(stage is Finished)
}

/// The stage that follows `stage` after `result`.
pub open spec fn next_stage_spec(stage: Stage, result: StageResult) -> Stage {
    match stage {
        Stage::Finished => Stage::Finished,
        Stage::CpuFallback => Stage::Finished,
        _ => match result {
            StageResult::Unavailable => Stage::CpuFallback,
            StageResult::Succeeded => match stage {
                Stage::DiscoverDevice => Stage::CreateContext,
                Stage::CreateContext => Stage::CreateQueue,
                Stage::CreateQueue => Stage::ReadSource,
                Stage::ReadSource => Stage::BuildProgram,
                Stage::BuildProgram => Stage::BindEntry,
                Stage::BindEntry => Stage::Dispatch,
                _ => Stage::Finished,
            },
        },
    }
}

/// Number of stages that a run at `stage` has before it at most.
pub open spec fn stages_left(stage: Stage) -> nat {
    match stage {
        Stage::DiscoverDevice => 8,
        Stage::CreateContext => 7,
        Stage::CreateQueue => 6,
        Stage::ReadSource => 5,
        Stage::BuildProgram => 4,
        Stage::BindEntry => 3,
        Stage::Dispatch => 2,
        Stage::CpuFallback => 1,
        Stage::Finished => 0,
    }
}

/// Where a run begins.
pub fn first_stage() -> (stage: Stage)
    ensures
        stage == Stage::DiscoverDevice,
{
    Stage::DiscoverDevice
}

/// Picks the device to run on out of `count` that were enumerated: the first
/// one, or none where there is none.
pub fn pick_device(count: usize) -> (choice: Option<usize>)
    ensures
        choice == (if count > 0 {
            Some(0usize)
        } else {
            None
        }),
{
    if count > 0 {
        Some(0)
    } else {
        None
    }
}

/// Moves the run on. Each accelerator stage leads to the next one when it
/// succeeds and to the CPU fallback when it does not; the dispatch and the
/// fallback lead to the end.
pub fn next_stage(stage: Stage, result: StageResult) -> (next: Stage)
    ensures
        next == next_stage_spec(stage, result),
{
    match stage {
        Stage::Finished => Stage::Finished,
        Stage::CpuFallback => Stage::Finished,
        _ => match result {
            StageResult::Unavailable => Stage::CpuFallback,
            StageResult::Succeeded => match stage {
                Stage::DiscoverDevice => Stage::CreateContext,
                Stage::CreateContext => Stage::CreateQueue,
                Stage::CreateQueue => Stage::ReadSource,
                Stage::ReadSource => Stage::BuildProgram,
                Stage::BuildProgram => Stage::BindEntry,
                Stage::BindEntry => Stage::Dispatch,
                _ => Stage::Finished,
            },
        },
    }
}

/// An accelerator that is not to be had never ends the run: from every stage
/// that uses it, the run goes on with the CPU fallback.
pub proof fn law_unavailable_falls_back(stage: Stage)
    requires
        uses_accelerator(stage),
    ensures
        next_stage_spec(stage, StageResult::Unavailable) == Stage::CpuFallback,
{
}

/// Every run ends: each step brings it closer to `Finished`, which it never
/// leaves.
pub proof fn law_run_ends(stage: Stage, result: StageResult)
    ensures
        stage is Finished ==> next_stage_spec(stage, result) is Finished,
        !(stage is Finished) ==> stages_left(next_stage_spec(stage, result)) < stages_left(stage),
{
}

} // verus!
