//! The decisions of the job manager: which dispatch is a duplicate, which
//! queued job starts next, and what is restored at start-up.
use vstd::prelude::*;
use crate::job::{
    lemma_decode_encode_state, spec_decode_state, spec_encode_state, JobError, JobState,
    JobStateView, JobStatus,
};
use crate::primitives::{random_bytes, spec_uuid_v4, uuid_from_random_bytes};

verus! {

/// A job the manager knows, as plain values.
pub struct JobEntryView {
    pub id: u128,
    pub name: Seq<u8>,
    pub init_hash: u64,
    pub status: JobStatus,
}

impl JobEntryView {
    /// The job is queued or running.
    pub open spec fn active(self) -> bool {
        self.status == JobStatus::Queued || self.status == JobStatus::Running
    }

    /// The job is active and has this fingerprint: the name of its kind and
    /// the hash of its parameters.
    pub open spec fn active_with(self, name: Seq<u8>, init_hash: u64) -> bool {
        self.active() && self.name == name && self.init_hash == init_hash
    }
}

/// The identifier of the first active job, from index `from` on, with the
/// fingerprint.
pub open spec fn spec_first_active(
    jobs: Seq<JobEntryView>,
    name: Seq<u8>,
    init_hash: u64,
    from: int,
) -> Option<u128>
    decreases jobs.len() - from,
{
    if from < 0 || from >= jobs.len() {
        None
    } else if jobs[from].active_with(name, init_hash) {
        Some(jobs[from].id)
    } else {
        spec_first_active(jobs, name, init_hash, from + 1)
    }
}

/// How many jobs are running.
pub open spec fn spec_running(jobs: Seq<JobEntryView>) -> nat
    decreases jobs.len(),
{
    if jobs.len() == 0 {
        0
    } else {
        spec_running(jobs.drop_last()) + if jobs.last().status == JobStatus::Running {
            1nat
        } else {
            0nat
        }
    }
}

/// A job of the kind `name` is running.
pub open spec fn spec_kind_running(jobs: Seq<JobEntryView>, name: Seq<u8>) -> bool {
    exists|j: int|
        0 <= j < jobs.len() && (#[trigger] jobs[j]).status == JobStatus::Running && jobs[j].name
            == name
}

/// The job at `index` is queued and no job of its kind is running.
pub open spec fn spec_startable(jobs: Seq<JobEntryView>, index: int) -> bool {
    jobs[index].status == JobStatus::Queued && !spec_kind_running(jobs, jobs[index].name)
}

/// The index of the first job, from index `from` on and in dispatch order,
/// that is queued while no job of its kind is running.
pub open spec fn spec_first_startable(jobs: Seq<JobEntryView>, from: int) -> Option<int>
    decreases jobs.len() - from,
{
    if from < 0 || from >= jobs.len() {
        None
    } else if spec_startable(jobs, from) {
        Some(from)
    } else {
        spec_first_startable(jobs, from + 1)
    }
}

/// The jobs after a dispatch, and the identifier it answers: that of the
/// first active job with the same fingerprint where there is one, with the
/// jobs unchanged; else the fresh identifier, with a queued job appended.
pub open spec fn spec_dispatch(
    jobs: Seq<JobEntryView>,
    name: Seq<u8>,
    init_hash: u64,
    fresh: u128,
) -> (Seq<JobEntryView>, u128) {
    match spec_first_active(jobs, name, init_hash, 0) {
        Some(id) => (jobs, id),
        None => (
            jobs.push(JobEntryView { id: fresh, name, init_hash, status: JobStatus::Queued }),
            fresh,
        ),
    }
}

/// A job the manager knows.
pub struct JobEntry {
    pub id: u128,
    pub name: Vec<u8>,
    pub init_hash: u64,
    pub status: JobStatus,
}

impl View for JobEntry {
    type V = JobEntryView;

    open spec fn view(&self) -> JobEntryView {
        JobEntryView {
            id: self.id,
            name: self.name@,
            init_hash: self.init_hash,
            status: self.status,
        }
    }
}

/// Whether two byte strings are the same.
pub fn bytes_eq(a: &Vec<u8>, b: &Vec<u8>) -> (r: bool)
    ensures
        r == (a@ == b@),
{
    if a.len() != b.len() {
        return false;
    }
    let mut i: usize = 0;
    while i < a.len()
        invariant
            a@.len() == b@.len(),
            i <= a@.len(),
            a@.subrange(0, i as int) == b@.subrange(0, i as int),
        decreases a@.len() - i,
    {
        if a[i] != b[i] {
            return false;
        }
        i += 1;
        assert(a@.subrange(0, i as int) =~= a@.subrange(0, i - 1).push(a@[i - 1]));
        assert(b@.subrange(0, i as int) =~= b@.subrange(0, i - 1).push(b@[i - 1]));
    }
    assert(a@ =~= a@.subrange(0, i as int));
    assert(b@ =~= b@.subrange(0, i as int));
    true
}

/// Draws a random version 4 identifier, unless the operating system gives
/// no random bytes.
pub fn draw_id() -> (r: Option<u128>)
    ensures
        r matches Some(id) ==> exists|b: Seq<u8>| b.len() == 16 && id == spec_uuid_v4(b),
{
    match random_bytes(16) {
        Some(bytes) => Some(uuid_from_random_bytes(bytes.as_slice())),
        None => None,
    }
}

/// The jobs in dispatch order, and the number that may run at once.
pub struct JobManager {
    pub jobs: Vec<JobEntry>,
    pub max_workers: usize,
}

impl JobManager {
    /// The jobs as plain values.
    pub open spec fn entries(&self) -> Seq<JobEntryView> {
        self.jobs@.map_values(|e: JobEntry| e@)
    }

    /// A manager without jobs.
    pub fn new(max_workers: usize) -> (m: JobManager)
        ensures
            m.entries() == Seq::<JobEntryView>::empty(),
            m.max_workers == max_workers,
    {
        let m = JobManager { jobs: Vec::new(), max_workers };
        assert(m.entries() =~= Seq::<JobEntryView>::empty());
        m
    }

    /// The identifier of the first active job with the fingerprint, if there
    /// is one.
    pub fn first_active(&self, name: &Vec<u8>, init_hash: u64) -> (r: Option<u128>)
        ensures
            r == spec_first_active(self.entries(), name@, init_hash, 0),
    {
        let mut i: usize = 0;
        while i < self.jobs.len()
            invariant
                i <= self.jobs@.len(),
                spec_first_active(self.entries(), name@, init_hash, 0) == spec_first_active(
                    self.entries(),
                    name@,
                    init_hash,
                    i as int,
                ),
            decreases self.jobs@.len() - i,
        {
            let e = &self.jobs[i];
            assert(self.entries()[i as int] == e@);
            let live = match e.status {
                JobStatus::Queued => true,
                JobStatus::Running => true,
                _ => false,
            };
            if live && e.init_hash == init_hash && bytes_eq(&e.name, name) {
                return Some(e.id);
            }
            i += 1;
        }
        None
    }

    /// Dispatches a job under the identifier `fresh`, unless an active job
    /// has the same fingerprint: then that job's identifier is answered and
    /// nothing changes.
    pub fn dispatch_with_id(&mut self, name: Vec<u8>, init_hash: u64, fresh: u128) -> (id: u128)
        ensures
            (final(self).entries(), id) == spec_dispatch(
                old(self).entries(),
                name@,
                init_hash,
                fresh,
            ),
            final(self).max_workers == old(self).max_workers,
    {
        match self.first_active(&name, init_hash) {
            Some(known) => {
                return known;
            },
            None => {},
        }
        let ghost entry = JobEntryView { id: fresh, name: name@, init_hash, status: JobStatus::Queued };
        self.jobs.push(JobEntry { id: fresh, name, init_hash, status: JobStatus::Queued });
        assert(self.entries() =~= old(self).entries().push(entry));
        fresh
    }

    /// Dispatches a job. Where an active job has the same fingerprint, that
    /// job's identifier is answered and nothing changes. Otherwise a random
    /// version 4 identifier is drawn and a queued job is appended under it;
    /// the identifier differs from that of every job the manager knew. Where
    /// no random bytes are to be had, or the identifier drawn is in use,
    /// an error is answered and nothing changes.
    pub fn dispatch(&mut self, name: Vec<u8>, init_hash: u64) -> (r: Result<u128, JobError>)
        ensures
            final(self).max_workers == old(self).max_workers,
            match spec_first_active(old(self).entries(), name@, init_hash, 0) {
                Some(known) => r == Ok::<u128, JobError>(known) && *final(self) == *old(self),
                None => match r {
                    Ok(id) => {
                        &&& final(self).entries() == old(self).entries().push(
                            JobEntryView { id, name: name@, init_hash, status: JobStatus::Queued },
                        )
                        &&& forall|t: int|
                            0 <= t < old(self).entries().len() ==> (#[trigger] old(
                                self,
                            ).entries()[t]).id != id
                    },
                    Err(e) => {
                        &&& *final(self) == *old(self)
                        &&& e == JobError::Entropy || (e matches JobError::IdentifierInUse(id)
                            && exists|t: int|
                            0 <= t < old(self).entries().len() && (#[trigger] old(
                                self,
                            ).entries()[t]).id == id)
                    },
                },
            },
    {
        match self.first_active(&name, init_hash) {
            Some(known) => {
                return Ok(known);
            },
            None => {},
        }
        let fresh = match draw_id() {
            Some(f) => f,
            None => {
                return Err(JobError::Entropy);
            },
        };
        match self.find(fresh) {
            Some(_) => {
                return Err(JobError::IdentifierInUse(fresh));
            },
            None => {},
        }
        Ok(self.dispatch_with_id(name, init_hash, fresh))
    }

    /// Takes a restored job back in under the identifier of its report: it
    /// is queued behind the others, and counts as active again. An
    /// identifier that a job already has is refused, and nothing changes.
    pub fn internal_dispatch(&mut self, id: u128, name: Vec<u8>, init_hash: u64) -> (r: Result<
        (),
        JobError,
    >)
        ensures
            final(self).max_workers == old(self).max_workers,
            match r {
                Ok(_) => {
                    &&& final(self).entries() == old(self).entries().push(
                        JobEntryView { id, name: name@, init_hash, status: JobStatus::Queued },
                    )
                    &&& forall|t: int|
                        0 <= t < old(self).entries().len() ==> (#[trigger] old(
                            self,
                        ).entries()[t]).id != id
                },
                Err(e) => {
                    &&& *final(self) == *old(self)
                    &&& e == JobError::IdentifierInUse(id)
                    &&& exists|t: int|
                        0 <= t < old(self).entries().len() && (#[trigger] old(
                            self,
                        ).entries()[t]).id == id
                },
            },
    {
        match self.find(id) {
            Some(_) => {
                return Err(JobError::IdentifierInUse(id));
            },
            None => {},
        }
        let ghost entry = JobEntryView { id, name: name@, init_hash, status: JobStatus::Queued };
        self.jobs.push(JobEntry { id, name, init_hash, status: JobStatus::Queued });
        assert(self.entries() =~= old(self).entries().push(entry));
        Ok(())
    }

    /// Whether a job of the kind `name` is running.
    pub fn kind_running(&self, name: &Vec<u8>) -> (r: bool)
        ensures
            r == spec_kind_running(self.entries(), name@),
    {
        let mut j: usize = 0;
        while j < self.jobs.len()
            invariant
                j <= self.jobs@.len(),
                forall|t: int|
                    0 <= t < j ==> !((#[trigger] self.entries()[t]).status == JobStatus::Running
                        && self.entries()[t].name == name@),
            decreases self.jobs@.len() - j,
        {
            assert(self.entries()[j as int] == self.jobs@[j as int]@);
            let running = match self.jobs[j].status {
                JobStatus::Running => true,
                _ => false,
            };
            if running && bytes_eq(&self.jobs[j].name, name) {
                return true;
            }
            j += 1;
        }
        false
    }

    /// The queued job to start next: the first in dispatch order whose kind
    /// has no running job, as long as fewer jobs are running than may run at
    /// once. So jobs of one kind run one at a time, in the order they were
    /// dispatched.
    pub fn next_to_start(&self) -> (r: Option<usize>)
        ensures
            spec_running(self.entries()) >= self.max_workers ==> r is None,
            spec_running(self.entries()) < self.max_workers ==> (match spec_first_startable(
                self.entries(),
                0,
            ) {
                Some(i) => r == Some(i as usize),
                None => r is None,
            }),
            r matches Some(i) ==> i < self.entries().len() && spec_startable(
                self.entries(),
                i as int,
            ),
    {
        let mut running: usize = 0;
        let mut k: usize = 0;
        while k < self.jobs.len()
            invariant
                k <= self.jobs@.len(),
                running <= k,
                running == spec_running(self.entries().take(k as int)),
            decreases self.jobs@.len() - k,
        {
            assert(self.entries().take(k + 1).drop_last() =~= self.entries().take(k as int));
            assert(self.entries().take(k + 1).last() == self.jobs@[k as int]@);
            match self.jobs[k].status {
                JobStatus::Running => {
                    running += 1;
                },
                _ => {},
            }
            k += 1;
        }
        assert(self.entries().take(k as int) =~= self.entries());
        if running >= self.max_workers {
            return None;
        }
        let mut i: usize = 0;
        while i < self.jobs.len()
            invariant
                i <= self.jobs@.len(),
                spec_running(self.entries()) < self.max_workers,
                spec_first_startable(self.entries(), 0) == spec_first_startable(
                    self.entries(),
                    i as int,
                ),
            decreases self.jobs@.len() - i,
        {
            assert(self.entries()[i as int] == self.jobs@[i as int]@);
            let queued = match self.jobs[i].status {
                JobStatus::Queued => true,
                _ => false,
            };
            if queued && !self.kind_running(&self.jobs[i].name) {
                return Some(i);
            }
            i += 1;
        }
        None
    }

    /// The place of the job with the identifier `id`: the first in dispatch
    /// order, or `None` where no job has it. Pause, resume and cancel address
    /// a job this way.
    pub fn find(&self, id: u128) -> (r: Option<usize>)
        ensures
            match r {
                Some(i) => i < self.entries().len() && self.entries()[i as int].id == id
                    && forall|t: int| 0 <= t < i ==> (#[trigger] self.entries()[t]).id != id,
                None => forall|t: int|
                    0 <= t < self.entries().len() ==> (#[trigger] self.entries()[t]).id != id,
            },
    {
        let mut i: usize = 0;
        while i < self.jobs.len()
            invariant
                i <= self.jobs@.len(),
                forall|t: int| 0 <= t < i ==> (#[trigger] self.entries()[t]).id != id,
            decreases self.jobs@.len() - i,
        {
            assert(self.entries()[i as int] == self.jobs@[i as int]@);
            if self.jobs[i].id == id {
                return Some(i);
            }
            i += 1;
        }
        None
    }

    /// Records the status of the job at `index`.
    pub fn set_status(&mut self, index: usize, status: JobStatus)
        requires
            index < old(self).entries().len(),
        ensures
            final(self).entries() == old(self).entries().update(
                index as int,
                (JobEntryView { status, ..old(self).entries()[index as int] }),
            ),
            final(self).max_workers == old(self).max_workers,
    {
        let mut entry = self.jobs.remove(index);
        entry.status = status;
        self.jobs.insert(index, entry);
        assert(self.entries() =~= old(self).entries().update(
            index as int,
            (JobEntryView { status, ..old(self).entries()[index as int] }),
        ));
    }
}

/// What restoring a persisted report answers, as plain values: nothing for
/// a report that was neither running nor paused; `UnknownJobName` where no
/// kind is registered under its name; `MissingJobDataState` where it has no
/// seed; `StateDecode` where the seed encodes no state; else the state.
pub open spec fn spec_restore(id: u128, status: JobStatus, registered: bool, seed: Option<Seq<u8>>)
    -> Result<Option<JobStateView>, JobError> {
    if status != JobStatus::Running && status != JobStatus::Paused {
        Ok(None)
    } else if !registered {
        Err(JobError::UnknownJobName(id))
    } else {
        match seed {
            None => Err(JobError::MissingJobDataState(id)),
            Some(b) => match spec_decode_state(b) {
                None => Err(JobError::StateDecode),
                Some(s) => Ok(Some(s)),
            },
        }
    }
}

/// The seed, by its view.
pub open spec fn spec_seed_view(seed: Option<Vec<u8>>) -> Option<Seq<u8>> {
    match seed {
        Some(b) => Some(b@),
        None => None,
    }
}

/// Restores the state of a persisted report at start-up. A report that was
/// running when the process ended is taken as paused. `registered` says
/// whether a job kind is registered under the report's name.
pub fn restore(id: u128, status: JobStatus, registered: bool, seed: Option<Vec<u8>>) -> (r: Result<
    Option<JobState>,
    JobError,
>)
    ensures
        match spec_restore(id, status, registered, spec_seed_view(seed)) {
            Ok(Some(s)) => r matches Ok(Some(x)) && x@ == s,
            Ok(None) => r matches Ok(None),
            Err(e) => r matches Err(f) && f == e,
        },
{
    match status {
        JobStatus::Running => {},
        JobStatus::Paused => {},
        _ => {
            return Ok(None);
        },
    }
    if !registered {
        return Err(JobError::UnknownJobName(id));
    }
    match seed {
        None => Err(JobError::MissingJobDataState(id)),
        Some(bytes) => match JobState::deserialize(bytes.as_slice()) {
            Ok(s) => Ok(Some(s)),
            Err(_) => Err(JobError::StateDecode),
        },
    }
}

/// Appending a job leaves the first active job with a fingerprint where it
/// was, and makes the new job the first where there was none and it has the
/// fingerprint.
proof fn lemma_first_active_push(
    jobs: Seq<JobEntryView>,
    e: JobEntryView,
    name: Seq<u8>,
    init_hash: u64,
    from: int,
)
    requires
        0 <= from <= jobs.len(),
    ensures
        spec_first_active(jobs.push(e), name, init_hash, from) == (match spec_first_active(
            jobs,
            name,
            init_hash,
            from,
        ) {
            Some(id) => Some(id),
            None => if e.active_with(name, init_hash) {
                Some(e.id)
            } else {
                None
            },
        }),
    decreases jobs.len() - from,
{
    if from < jobs.len() {
        assert(jobs.push(e)[from] == jobs[from]);
        lemma_first_active_push(jobs, e, name, init_hash, from + 1);
    } else {
        assert(jobs.push(e)[from] == e);
        assert(spec_first_active(jobs.push(e), name, init_hash, from + 1) is None);
    }
}

/// Two dispatches with the same fingerprint, one right after the other,
/// answer the same identifier, and the second changes nothing.
pub proof fn lemma_dispatch_twice(
    jobs: Seq<JobEntryView>,
    name: Seq<u8>,
    init_hash: u64,
    fresh1: u128,
    fresh2: u128,
)
    ensures
        ({
            let (jobs1, id1) = spec_dispatch(jobs, name, init_hash, fresh1);
            spec_dispatch(jobs1, name, init_hash, fresh2) == (jobs1, id1)
        }),
{
    let e = JobEntryView { id: fresh1, name, init_hash, status: JobStatus::Queued };
    lemma_first_active_push(jobs, e, name, init_hash, 0);
}

/// A job that was paused or running, whose kind is registered and whose
/// seed was written from a well-formed state, is restored to that state.
pub proof fn lemma_restore_seed(id: u128, status: JobStatus, s: JobStateView)
    requires
        s.wf(),
        status == JobStatus::Running || status == JobStatus::Paused,
    ensures
        spec_restore(id, status, true, Some(spec_encode_state(s))) == Ok::<
            Option<JobStateView>,
            JobError,
        >(Some(s)),
{
    lemma_decode_encode_state(s);
}

/// An identifier that a lookup by fingerprint answers is that of a job.
proof fn lemma_first_active_is_known(
    jobs: Seq<JobEntryView>,
    name: Seq<u8>,
    init_hash: u64,
    from: int,
)
    requires
        0 <= from,
    ensures
        spec_first_active(jobs, name, init_hash, from) matches Some(id) ==> exists|t: int|
            0 <= t < jobs.len() && (#[trigger] jobs[t]).id == id,
    decreases jobs.len() - from,
{
    if from < jobs.len() {
        if jobs[from].active_with(name, init_hash) {
            assert(jobs[from].id == spec_first_active(jobs, name, init_hash, from).unwrap());
        } else {
            lemma_first_active_is_known(jobs, name, init_hash, from + 1);
        }
    }
}

/// A dispatch with another fingerprint, right after a first one and with an
/// identifier that no job has, answers that new identifier, which differs
/// from the first job's, and appends a queued job behind the others, which
/// stay as they were.
pub proof fn lemma_dispatch_other_parameters(
    jobs: Seq<JobEntryView>,
    name1: Seq<u8>,
    hash1: u64,
    fresh1: u128,
    name2: Seq<u8>,
    hash2: u64,
    fresh2: u128,
)
    requires
        name1 != name2 || hash1 != hash2,
        spec_first_active(jobs, name2, hash2, 0) is None,
        fresh2 != fresh1,
        forall|t: int| 0 <= t < jobs.len() ==> (#[trigger] jobs[t]).id != fresh2,
    ensures
        ({
            let (jobs1, id1) = spec_dispatch(jobs, name1, hash1, fresh1);
            let (jobs2, id2) = spec_dispatch(jobs1, name2, hash2, fresh2);
            &&& id2 == fresh2
            &&& id2 != id1
            &&& jobs2 == jobs1.push(
                JobEntryView { id: fresh2, name: name2, init_hash: hash2, status: JobStatus::Queued },
            )
        }),
{
    let e = JobEntryView { id: fresh1, name: name1, init_hash: hash1, status: JobStatus::Queued };
    lemma_first_active_push(jobs, e, name2, hash2, 0);
    lemma_first_active_is_known(jobs, name1, hash1, 0);
}

} // verus!
