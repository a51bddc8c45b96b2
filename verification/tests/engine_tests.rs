use hash_cracker::engine::first_stage;
use hash_cracker::engine::next_stage;
use hash_cracker::engine::pick_device;
use hash_cracker::engine::Stage;
use hash_cracker::engine::StageResult;

const ALL: [Stage; 9] = [
    Stage::DiscoverDevice,
    Stage::CreateContext,
    Stage::CreateQueue,
    Stage::ReadSource,
    Stage::BuildProgram,
    Stage::BindEntry,
    Stage::Dispatch,
    Stage::CpuFallback,
    Stage::Finished,
];

#[test]
fn run_begins_with_device_discovery() {
    assert_eq!(first_stage(), Stage::DiscoverDevice);
}

#[test]
fn accelerator_path_runs_in_order() {
    let mut stage = first_stage();
    let mut seen = vec![stage];
    while stage != Stage::Finished {
        stage = next_stage(stage, StageResult::Succeeded);
        seen.push(stage);
    }
    assert_eq!(
        seen,
        vec![
            Stage::DiscoverDevice,
            Stage::CreateContext,
            Stage::CreateQueue,
            Stage::ReadSource,
            Stage::BuildProgram,
            Stage::BindEntry,
            Stage::Dispatch,
            Stage::Finished,
        ]
    );
}

#[test]
fn every_accelerator_stage_falls_back_when_unavailable() {
    for stage in ALL.iter().take(7) {
        assert_eq!(next_stage(*stage, StageResult::Unavailable), Stage::CpuFallback);
    }
}

#[test]
fn fallback_ends_the_run() {
    assert_eq!(next_stage(Stage::CpuFallback, StageResult::Succeeded), Stage::Finished);
    assert_eq!(next_stage(Stage::CpuFallback, StageResult::Unavailable), Stage::Finished);
}

#[test]
fn finished_stays_finished() {
    assert_eq!(next_stage(Stage::Finished, StageResult::Succeeded), Stage::Finished);
    assert_eq!(next_stage(Stage::Finished, StageResult::Unavailable), Stage::Finished);
}

#[test]
fn every_run_ends_within_eight_steps() {
    for start in ALL.iter() {
        for bad_at in 0..9 {
            let mut stage = *start;
            let mut steps = 0;
            while stage != Stage::Finished {
                let result = if steps == bad_at { StageResult::Unavailable } else { StageResult::Succeeded };
                stage = next_stage(stage, result);
                steps += 1;
                assert!(steps <= 8);
            }
        }
    }
}

#[test]
fn first_device_is_picked() {
    assert_eq!(pick_device(0), None);
    assert_eq!(pick_device(1), Some(0));
    assert_eq!(pick_device(4), Some(0));
}
