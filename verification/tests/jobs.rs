use sdcore::job::{after_finalize, Command, JobError, JobState, JobStatus, OpResult, Phase};
use sdcore::manager::{bytes_eq, draw_id, restore, JobManager};
use sdcore::report::{is_terminal, status_code, status_from_code, JobReport};

fn four_steps() -> JobState {
    let mut state = JobState::new(b"init".to_vec());
    state.data = Some(b"data".to_vec());
    state.steps = vec![b"s0".to_vec(), b"s1".to_vec(), b"s2".to_vec(), b"s3".to_vec()];
    state
}

fn assert_same(a: &JobState, b: &JobState) {
    assert_eq!(a.init, b.init);
    assert_eq!(a.data, b.data);
    assert_eq!(a.steps, b.steps);
    assert_eq!(a.step_number, b.step_number);
}

#[test]
fn new_state_starts_with_init() {
    let state = JobState::new(vec![1, 2]);
    assert_eq!(state.init, vec![1, 2]);
    assert_eq!(state.data, None);
    assert!(state.steps.is_empty());
    assert_eq!(state.step_number, 0);
    assert_eq!(state.begin(), Phase::Init);
}

#[test]
fn seed_bytes_are_exact() {
    let mut state = JobState::new(vec![0xaa, 0xbb]);
    state.step_number = 0x0102;
    let mut expected = vec![0x02, 0x01, 0, 0, 0, 0, 0, 0];
    expected.extend_from_slice(&[2, 0, 0, 0, 0, 0, 0, 0, 0xaa, 0xbb]);
    expected.push(0);
    expected.extend_from_slice(&[0; 8]);
    assert_eq!(state.serialize(), expected);

    state.data = Some(vec![7]);
    state.steps = vec![vec![], vec![9, 9, 9]];
    let mut expected = vec![0x02, 0x01, 0, 0, 0, 0, 0, 0];
    expected.extend_from_slice(&[2, 0, 0, 0, 0, 0, 0, 0, 0xaa, 0xbb]);
    expected.extend_from_slice(&[1, 1, 0, 0, 0, 0, 0, 0, 0, 7]);
    expected.extend_from_slice(&[2, 0, 0, 0, 0, 0, 0, 0]);
    expected.extend_from_slice(&[0; 8]);
    expected.extend_from_slice(&[3, 0, 0, 0, 0, 0, 0, 0, 9, 9, 9]);
    assert_eq!(state.serialize(), expected);
}

#[test]
fn job_state_round_trips() {
    let mut states = vec![JobState::new(vec![]), JobState::new(vec![1; 300]), four_steps()];
    let mut big = four_steps();
    big.step_number = u64::MAX;
    big.data = Some(vec![]);
    big.steps.push(vec![0; 1000]);
    states.push(big);
    for state in states {
        let seed = state.serialize();
        let back = JobState::deserialize(&seed).unwrap();
        assert_same(&back, &state);
        assert_eq!(back.serialize(), seed);
    }
}

#[test]
fn bad_seeds_are_refused() {
    let seed = four_steps().serialize();
    assert!(matches!(JobState::deserialize(&[]), Err(JobError::StateDecode)));
    for cut in 0..seed.len() {
        assert!(matches!(JobState::deserialize(&seed[..cut]), Err(JobError::StateDecode)));
    }
    let mut long = seed.clone();
    long.push(0);
    assert!(matches!(JobState::deserialize(&long), Err(JobError::StateDecode)));
    let mut flag = seed.clone();
    flag[8 + 8 + 4] = 2;
    assert!(matches!(JobState::deserialize(&flag), Err(JobError::StateDecode)));
    let mut count = seed.clone();
    let at = 8 + 8 + 4 + 1 + 8 + 4;
    count[at + 7] = 0x10;
    assert!(matches!(JobState::deserialize(&count), Err(JobError::StateDecode)));
}

#[test]
fn worker_runs_steps_in_order_then_finalizes() {
    let mut state = four_steps();
    assert_eq!(state.begin(), Phase::Stepping);
    for done in 1..=3u64 {
        assert_eq!(state.after_step(OpResult::Done, None), Phase::Stepping);
        assert_eq!(state.step_number, done);
    }
    assert_eq!(state.steps, vec![b"s3".to_vec()]);
    assert_eq!(state.after_step(OpResult::Done, None), Phase::Finalizing);
    assert_eq!(state.step_number, 4);
    assert!(state.steps.is_empty());
    assert_eq!(after_finalize(OpResult::Done), JobStatus::Completed);
}

#[test]
fn init_outcomes() {
    let mut state = JobState::new(vec![]);
    assert_eq!(state.after_init(OpResult::Done, None), Phase::Stopped(JobStatus::Failed));
    assert_eq!(state.after_init(OpResult::Failed, None), Phase::Stopped(JobStatus::Failed));
    assert_eq!(state.after_init(OpResult::Paused, None), Phase::Stopped(JobStatus::Paused));
    assert_eq!(state.after_init(OpResult::EarlyFinish, None), Phase::Finalizing);
    state.data = Some(vec![]);
    assert_eq!(state.after_init(OpResult::Done, None), Phase::Finalizing);
    state.steps.push(vec![1]);
    assert_eq!(state.after_init(OpResult::Done, None), Phase::Stepping);
    assert_eq!(
        state.after_init(OpResult::Done, Some(Command::Cancel)),
        Phase::Stopped(JobStatus::Canceled)
    );
    assert_eq!(
        state.after_init(OpResult::Done, Some(Command::Pause)),
        Phase::Stopped(JobStatus::Paused)
    );
}

#[test]
fn step_that_did_not_finish_is_not_counted() {
    for (result, phase) in [
        (OpResult::Failed, Phase::Stopped(JobStatus::Failed)),
        (OpResult::Paused, Phase::Stopped(JobStatus::Paused)),
        (OpResult::EarlyFinish, Phase::Finalizing),
    ] {
        let mut state = four_steps();
        assert_eq!(state.after_step(result, Some(Command::Cancel)), phase);
        assert_same(&state, &four_steps());
    }
}

#[test]
fn finalize_outcomes() {
    assert_eq!(after_finalize(OpResult::Done), JobStatus::Completed);
    assert_eq!(after_finalize(OpResult::EarlyFinish), JobStatus::Completed);
    assert_eq!(after_finalize(OpResult::Failed), JobStatus::Failed);
    assert_eq!(after_finalize(OpResult::Paused), JobStatus::Paused);
}

#[test]
fn pause_resume_job() {
    let mut state = four_steps();
    assert_eq!(state.begin(), Phase::Stepping);
    assert_eq!(state.after_step(OpResult::Done, None), Phase::Stepping);
    assert_eq!(
        state.after_step(OpResult::Done, Some(Command::Pause)),
        Phase::Stopped(JobStatus::Paused)
    );
    assert_eq!(state.step_number, 2);
    let seed = state.serialize();

    let restored = restore(7, JobStatus::Paused, true, Some(seed)).unwrap();
    let mut state = restored.unwrap();
    assert_eq!(state.step_number, 2);
    assert_eq!(state.steps, vec![b"s2".to_vec(), b"s3".to_vec()]);
    assert_eq!(state.begin(), Phase::Stepping);
    assert_eq!(state.after_step(OpResult::Done, None), Phase::Stepping);
    assert_eq!(state.after_step(OpResult::Done, None), Phase::Finalizing);
    assert_eq!(state.step_number, 4);
    assert_eq!(after_finalize(OpResult::Done), JobStatus::Completed);

    let mut straight = four_steps();
    for _ in 0..4 {
        straight.after_step(OpResult::Done, None);
    }
    assert_same(&state, &straight);
}

#[test]
fn cancel_is_cooperative() {
    let mut state = four_steps();
    assert_eq!(state.after_step(OpResult::Done, None), Phase::Stepping);
    assert_eq!(state.after_step(OpResult::Done, None), Phase::Stepping);
    assert_eq!(
        state.after_step(OpResult::Done, Some(Command::Cancel)),
        Phase::Stopped(JobStatus::Canceled)
    );
    assert_eq!(state.step_number, 3);
    assert_eq!(state.steps, vec![b"s3".to_vec()]);
}

#[test]
fn dispatch_dedup() {
    let mut manager = JobManager::new(1);
    let u1 = manager.dispatch(b"indexer".to_vec(), 0xa).unwrap();
    let again = manager.dispatch(b"indexer".to_vec(), 0xa).unwrap();
    assert_eq!(again, u1);
    assert_eq!(manager.jobs.len(), 1);
    let u2 = manager.dispatch(b"indexer".to_vec(), 0xb).unwrap();
    assert_ne!(u2, u1);
    assert_eq!(manager.jobs.len(), 2);
    let u3 = manager.dispatch(b"thumbnailer".to_vec(), 0xa).unwrap();
    assert_ne!(u3, u1);
    assert_eq!(manager.jobs.len(), 3);
    assert_eq!(manager.jobs[2].status, JobStatus::Queued);
    assert_eq!(manager.jobs[2].name, b"thumbnailer".to_vec());
    assert_eq!(manager.jobs[0].id, u1);
    assert_eq!(manager.jobs[0].status, JobStatus::Queued);
}

#[test]
fn drawn_identifiers_are_version_four() {
    let a = draw_id().unwrap();
    let b = draw_id().unwrap();
    assert_ne!(a, b);
    for id in [a, b] {
        assert_eq!((id >> 76) & 0xf, 4);
        assert_eq!((id >> 62) & 0b11, 0b10);
        assert_eq!(uuid::Uuid::from_u128(id).get_version_num(), 4);
    }
}

#[test]
fn dispatch_with_id_answers_the_first_active_match() {
    let mut manager = JobManager::new(1);
    assert_eq!(manager.dispatch_with_id(b"a".to_vec(), 1, 100), 100);
    assert_eq!(manager.dispatch_with_id(b"a".to_vec(), 1, 101), 100);
    manager.set_status(0, JobStatus::Running);
    assert_eq!(manager.dispatch_with_id(b"a".to_vec(), 1, 102), 100);
    for ended in [
        JobStatus::Completed,
        JobStatus::Failed,
        JobStatus::Canceled,
        JobStatus::Paused,
    ] {
        let mut manager = JobManager::new(1);
        manager.dispatch_with_id(b"a".to_vec(), 1, 100);
        manager.set_status(0, ended);
        assert_eq!(manager.dispatch_with_id(b"a".to_vec(), 1, 103), 103);
        assert_eq!(manager.jobs.len(), 2);
    }
}

#[test]
fn queued_jobs_start_in_dispatch_order_under_the_cap() {
    let mut manager = JobManager::new(1);
    assert_eq!(manager.next_to_start(), None);
    manager.dispatch_with_id(b"a".to_vec(), 1, 100);
    manager.dispatch_with_id(b"b".to_vec(), 2, 200);
    assert_eq!(manager.next_to_start(), Some(0));
    manager.set_status(0, JobStatus::Running);
    assert_eq!(manager.jobs[0].status, JobStatus::Running);
    assert_eq!(manager.jobs[0].id, 100);
    assert_eq!(manager.jobs[1].id, 200);
    assert_eq!(manager.next_to_start(), None);
    manager.set_status(0, JobStatus::Completed);
    assert_eq!(manager.next_to_start(), Some(1));
    manager.max_workers = 0;
    assert_eq!(manager.next_to_start(), None);
}

#[test]
fn restore_answers_by_status_registry_and_seed() {
    let seed = four_steps().serialize();
    for status in [
        JobStatus::Queued,
        JobStatus::Completed,
        JobStatus::Failed,
        JobStatus::Canceled,
    ] {
        assert!(matches!(restore(1, status, false, None), Ok(None)));
    }
    for status in [JobStatus::Running, JobStatus::Paused] {
        assert!(matches!(
            restore(1, status, false, Some(seed.clone())),
            Err(JobError::UnknownJobName(1))
        ));
        assert!(matches!(
            restore(2, status, true, None),
            Err(JobError::MissingJobDataState(2))
        ));
        assert!(matches!(
            restore(3, status, true, Some(vec![1, 2, 3])),
            Err(JobError::StateDecode)
        ));
        let state = restore(4, status, true, Some(seed.clone())).unwrap().unwrap();
        assert_same(&state, &four_steps());
    }
}

#[test]
fn bytes_eq_compares_content() {
    assert!(bytes_eq(&vec![], &vec![]));
    assert!(bytes_eq(&vec![1, 2], &vec![1, 2]));
    assert!(!bytes_eq(&vec![1, 2], &vec![1, 3]));
    assert!(!bytes_eq(&vec![1, 2], &vec![1]));
}

#[test]
fn status_codes_round_trip() {
    let all = [
        (JobStatus::Queued, 0u8, false),
        (JobStatus::Running, 1, false),
        (JobStatus::Completed, 2, true),
        (JobStatus::Canceled, 3, true),
        (JobStatus::Failed, 4, true),
        (JobStatus::Paused, 5, false),
    ];
    for (status, code, terminal) in all {
        assert_eq!(status_code(status), code);
        assert_eq!(status_from_code(code), Some(status));
        assert_eq!(is_terminal(status), terminal);
    }
    assert_eq!(status_from_code(6), None);
    assert_eq!(status_from_code(255), None);
}

#[test]
fn report_lifecycle_keeps_seed_until_the_end() {
    let mut report = JobReport::new(9, b"indexer".to_vec(), 100);
    assert_eq!(report.status, JobStatus::Queued);
    assert_eq!(report.date_created, 100);
    assert_eq!(report.date_started, None);
    assert_eq!(report.seed, None);
    report.start(101);
    assert_eq!(report.status, JobStatus::Running);
    assert_eq!(report.date_started, Some(101));
    report.progress(2, 4);
    assert_eq!((report.completed_task_count, report.task_count), (2, 4));
    report.pause(vec![1, 2, 3]);
    assert_eq!(report.status, JobStatus::Paused);
    assert_eq!(report.seed, Some(vec![1, 2, 3]));
    report.start(102);
    assert_eq!(report.seed, Some(vec![1, 2, 3]));
    assert!(!report.finish(JobStatus::Paused, None, 103));
    assert_eq!(report.status, JobStatus::Running);
    assert_eq!(report.seed, Some(vec![1, 2, 3]));
    assert!(report.finish(JobStatus::Completed, Some(b"{}".to_vec()), 104));
    assert_eq!(report.status, JobStatus::Completed);
    assert_eq!(report.date_finished, Some(104));
    assert_eq!(report.metadata, Some(b"{}".to_vec()));
    assert_eq!(report.seed, None);
    assert_eq!(report.id, 9);
    assert_eq!(report.name, b"indexer".to_vec());
}

#[test]
fn jobs_of_one_kind_run_one_at_a_time() {
    let mut manager = JobManager::new(3);
    manager.dispatch_with_id(b"a".to_vec(), 1, 100);
    manager.dispatch_with_id(b"a".to_vec(), 2, 101);
    manager.dispatch_with_id(b"b".to_vec(), 1, 102);
    assert_eq!(manager.next_to_start(), Some(0));
    manager.set_status(0, JobStatus::Running);
    assert!(manager.kind_running(&b"a".to_vec()));
    assert!(!manager.kind_running(&b"b".to_vec()));
    assert_eq!(manager.next_to_start(), Some(2));
    manager.set_status(2, JobStatus::Running);
    assert_eq!(manager.next_to_start(), None);
    manager.set_status(0, JobStatus::Completed);
    assert_eq!(manager.next_to_start(), Some(1));
}

#[test]
fn jobs_are_found_by_identifier() {
    let mut manager = JobManager::new(2);
    assert_eq!(manager.find(100), None);
    manager.dispatch_with_id(b"a".to_vec(), 1, 100);
    manager.dispatch_with_id(b"b".to_vec(), 1, 200);
    assert_eq!(manager.find(100), Some(0));
    assert_eq!(manager.find(200), Some(1));
    assert_eq!(manager.find(300), None);
    let at = manager.find(200).unwrap();
    manager.set_status(at, JobStatus::Canceled);
    assert_eq!(manager.jobs[1].status, JobStatus::Canceled);
    assert_eq!(manager.jobs[0].status, JobStatus::Queued);
}

#[test]
fn restored_job_keeps_its_identifier_and_counts_as_active() {
    let mut first = JobManager::new(1);
    let u1 = first.dispatch(b"indexer".to_vec(), 0xa).unwrap();
    let mut state = four_steps();
    state.after_step(OpResult::Done, Some(Command::Pause));
    let seed = state.serialize();

    let mut manager = JobManager::new(1);
    let restored = restore(u1, JobStatus::Paused, true, Some(seed)).unwrap().unwrap();
    assert_eq!(restored.step_number, 1);
    manager.internal_dispatch(u1, b"indexer".to_vec(), 0xa).unwrap();
    assert_eq!(manager.jobs.len(), 1);
    assert_eq!(manager.jobs[0].id, u1);
    assert_eq!(manager.jobs[0].status, JobStatus::Queued);
    assert_eq!(manager.dispatch(b"indexer".to_vec(), 0xa).unwrap(), u1);
    let u2 = manager.dispatch(b"indexer".to_vec(), 0xb).unwrap();
    assert_ne!(u2, u1);
    assert_eq!(manager.jobs.len(), 2);
    assert_eq!(manager.jobs[0].id, u1);
    assert_eq!(manager.jobs[0].init_hash, 0xa);
    assert_eq!(manager.jobs[0].status, JobStatus::Queued);
    assert_eq!(manager.jobs[1].id, u2);
    assert_eq!(manager.jobs[1].status, JobStatus::Queued);
    assert!(matches!(
        manager.internal_dispatch(u1, b"indexer".to_vec(), 0xc),
        Err(JobError::IdentifierInUse(id)) if id == u1
    ));
    assert_eq!(manager.jobs.len(), 2);
}
