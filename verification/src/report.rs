//! The durable report of a job and its transitions.
use vstd::prelude::*;
use crate::job::JobStatus;

verus! {

/// The status is one a job ends with.
pub open spec fn spec_is_terminal(status: JobStatus) -> bool {
    status == JobStatus::Completed || status == JobStatus::Failed || status == JobStatus::Canceled
}

/// The status is one a job ends with.
pub fn is_terminal(status: JobStatus) -> (r: bool)
    ensures
        r == spec_is_terminal(status),
{
    match status {
        JobStatus::Completed => true,
        JobStatus::Failed => true,
        JobStatus::Canceled => true,
        _ => false,
    }
}

/// The small integer a status is stored as.
pub open spec fn spec_status_code(status: JobStatus) -> u8 {
    match status {
        JobStatus::Queued => 0,
        JobStatus::Running => 1,
        JobStatus::Completed => 2,
        JobStatus::Canceled => 3,
        JobStatus::Failed => 4,
        JobStatus::Paused => 5,
    }
}

/// The status a stored integer stands for, if any.
pub open spec fn spec_status_from_code(code: u8) -> Option<JobStatus> {
    if code == 0 {
        Some(JobStatus::Queued)
    } else if code == 1 {
        Some(JobStatus::Running)
    } else if code == 2 {
        Some(JobStatus::Completed)
    } else if code == 3 {
        Some(JobStatus::Canceled)
    } else if code == 4 {
        Some(JobStatus::Failed)
    } else if code == 5 {
        Some(JobStatus::Paused)
    } else {
        None
    }
}

/// The small integer a status is stored as; `status_from_code` reads it
/// back.
pub fn status_code(status: JobStatus) -> (code: u8)
    ensures
        code == spec_status_code(status),
        spec_status_from_code(code) == Some(status),
{
    match status {
        JobStatus::Queued => 0,
        JobStatus::Running => 1,
        JobStatus::Completed => 2,
        JobStatus::Canceled => 3,
        JobStatus::Failed => 4,
        JobStatus::Paused => 5,
    }
}

/// The status a stored integer stands for, if any.
pub fn status_from_code(code: u8) -> (r: Option<JobStatus>)
    ensures
        r == spec_status_from_code(code),
        r matches Some(s) ==> spec_status_code(s) == code,
{
    if code == 0 {
        Some(JobStatus::Queued)
    } else if code == 1 {
        Some(JobStatus::Running)
    } else if code == 2 {
        Some(JobStatus::Completed)
    } else if code == 3 {
        Some(JobStatus::Canceled)
    } else if code == 4 {
        Some(JobStatus::Failed)
    } else if code == 5 {
        Some(JobStatus::Paused)
    } else {
        None
    }
}

/// What is persisted of a job: who it is, where it stands, how far it has
/// come, what `finalize` gave, and the seed while it is paused. Times are
/// whatever clock the caller keeps.
pub struct JobReport {
    pub id: u128,
    pub name: Vec<u8>,
    pub status: JobStatus,
    pub date_created: u64,
    pub date_started: Option<u64>,
    pub date_finished: Option<u64>,
    pub task_count: u64,
    pub completed_task_count: u64,
    pub metadata: Option<Vec<u8>>,
    pub seed: Option<Vec<u8>>,
}

impl JobReport {
    /// The report of a job that was just dispatched: queued, nothing done.
    pub fn new(id: u128, name: Vec<u8>, now: u64) -> (r: JobReport)
        ensures
            r == (JobReport {
                id,
                name,
                status: JobStatus::Queued,
                date_created: now,
                date_started: None,
                date_finished: None,
                task_count: 0,
                completed_task_count: 0,
                metadata: None,
                seed: None,
            }),
    {
        JobReport {
            id,
            name,
            status: JobStatus::Queued,
            date_created: now,
            date_started: None,
            date_finished: None,
            task_count: 0,
            completed_task_count: 0,
            metadata: None,
            seed: None,
        }
    }

    /// A worker picks the job up: it is running from `now` on. The seed
    /// stays.
    pub fn start(&mut self, now: u64)
        ensures
            *final(self) == (JobReport {
                status: JobStatus::Running,
                date_started: Some(now),
                ..*old(self)
            }),
    {
        self.status = JobStatus::Running;
        self.date_started = Some(now);
    }

    /// Records progress.
    pub fn progress(&mut self, completed: u64, total: u64)
        ensures
            *final(self) == (JobReport {
                task_count: total,
                completed_task_count: completed,
                ..*old(self)
            }),
    {
        self.task_count = total;
        self.completed_task_count = completed;
    }

    /// The job is paused, and its seed is kept for the restart.
    pub fn pause(&mut self, seed: Vec<u8>)
        ensures
            *final(self) == (JobReport {
                status: JobStatus::Paused,
                seed: Some(seed),
                ..*old(self)
            }),
    {
        self.status = JobStatus::Paused;
        self.seed = Some(seed);
    }

    /// The job has ended at `now` with a terminal status and what
    /// `finalize` gave. The seed is cleared: there is nothing to restart.
    pub fn finish(&mut self, status: JobStatus, metadata: Option<Vec<u8>>, now: u64) -> (done:
        bool)
        ensures
            done == spec_is_terminal(status),
            done ==> *final(self) == (JobReport {
                status,
                date_finished: Some(now),
                metadata,
                seed: None,
                ..*old(self)
            }),
            !done ==> *final(self) == *old(self),
    {
        if !is_terminal(status) {
            return false;
        }
        self.status = status;
        self.date_finished = Some(now);
        self.metadata = metadata;
        self.seed = None;
        true
    }
}

} // verus!
