//! The durable state of a job, its seed bytes, and the decisions a worker
//! takes between the operations of a job.
//!
//! A job kind encodes its own parameters, working data and steps; the state
//! here holds them as byte strings and frames them into a seed: the step
//! number, the parameters, the working data if there is any, and the steps
//! that remain, each byte string behind its length, every integer 64 bits
//! wide and little endian.
use vstd::prelude::*;
use vstd::bytes::{
    lemma_auto_spec_u64_to_from_le_bytes, spec_u64_from_le_bytes, spec_u64_to_le_bytes,
    u64_to_le_bytes,
};
use crate::wire::{
    append_bytes, decode_blob, encode_blob, lemma_decode_encoded_blob, lemma_encode_decoded_blob,
    lemma_holds_index, lemma_holds_split, spec_blob, spec_count, spec_decode_blob, spec_holds_at,
    take_count,
};

verus! {

/// Where a job stands in its life.
#[derive(Clone, Copy, Debug, PartialEq, Eq, Structural)]
pub enum JobStatus {
    Queued,
    Running,
    Paused,
    Completed,
    Failed,
    Canceled,
}

/// What the manager may ask of a running job. A request takes effect between
/// two operations, never inside one.
#[derive(Clone, Copy, Debug, PartialEq, Eq, Structural)]
pub enum Command {
    Pause,
    Cancel,
}

/// How an operation of a job ended.
#[derive(Clone, Copy, Debug, PartialEq, Eq, Structural)]
pub enum OpResult {
    /// It did its work.
    Done,
    /// It asks to skip what remains and finish.
    EarlyFinish,
    /// It asks to be paused.
    Paused,
    /// It failed.
    Failed,
}

/// What a worker does next.
#[derive(Clone, Copy, Debug, PartialEq, Eq, Structural)]
pub enum Phase {
    /// Run the job's `init`.
    Init,
    /// Run the step at the front of the queue.
    Stepping,
    /// Run the job's `finalize`.
    Finalizing,
    /// Stop, and report this status.
    Stopped(JobStatus),
}

/// Why a job could not be dispatched or restored.
#[derive(Clone, Copy, Debug, PartialEq, Eq, Structural)]
pub enum JobError {
    /// The seed is not the encoding of a state.
    StateDecode,
    /// No job kind is registered under the report's name.
    UnknownJobName(u128),
    /// The report carries no seed.
    MissingJobDataState(u128),
    /// The operating system gave no random bytes for an identifier.
    Entropy,
    /// The identifier that was drawn belongs to a job the manager knows.
    IdentifierInUse(u128),
}

/// A job's state as plain values.
pub struct JobStateView {
    pub init: Seq<u8>,
    pub data: Option<Seq<u8>>,
    pub steps: Seq<Seq<u8>>,
    pub step_number: u64,
}

impl JobStateView {
    /// Every length fits in 64 bits.
    pub open spec fn wf(self) -> bool {
        &&& self.init.len() <= u64::MAX
        &&& (self.data matches Some(d) ==> d.len() <= u64::MAX)
        &&& self.steps.len() <= u64::MAX
        &&& forall|i: int| 0 <= i < self.steps.len() ==> (#[trigger] self.steps[i]).len() <= u64::MAX
    }

    /// What a worker does at a boundary between operations: a cancel or a
    /// pause request is honoured; otherwise the next step runs, or `finalize`
    /// when none is left.
    pub open spec fn boundary(self, command: Option<Command>) -> Phase {
        match command {
            Some(Command::Cancel) => Phase::Stopped(JobStatus::Canceled),
            Some(Command::Pause) => Phase::Stopped(JobStatus::Paused),
            None => if self.steps.len() > 0 {
                Phase::Stepping
            } else {
                Phase::Finalizing
            },
        }
    }

    /// What a worker does first: `init` for a state without working data,
    /// the steps or `finalize` for one that has it.
    pub open spec fn begin(self) -> Phase {
        if self.data is None {
            Phase::Init
        } else {
            self.boundary(None)
        }
    }

    /// What a worker does after `init`.
    pub open spec fn after_init(self, result: OpResult, command: Option<Command>) -> Phase {
        match result {
            OpResult::Done => if self.data is None {
                Phase::Stopped(JobStatus::Failed)
            } else {
                self.boundary(command)
            },
            OpResult::EarlyFinish => Phase::Finalizing,
            OpResult::Paused => Phase::Stopped(JobStatus::Paused),
            OpResult::Failed => Phase::Stopped(JobStatus::Failed),
        }
    }

    /// The state once the step at the front has ended: a step that did its
    /// work leaves the queue and is counted; any other end leaves the state
    /// as it was.
    pub open spec fn step_ended(self, result: OpResult) -> JobStateView {
        match result {
            OpResult::Done => JobStateView {
                steps: self.steps.drop_first(),
                step_number: (self.step_number + 1) as u64,
                ..self
            },
            _ => self,
        }
    }

    /// What a worker does after a step, seen from the state the step left.
    pub open spec fn after_step(self, result: OpResult, command: Option<Command>) -> Phase {
        match result {
            OpResult::Done => self.boundary(command),
            OpResult::EarlyFinish => Phase::Finalizing,
            OpResult::Paused => Phase::Stopped(JobStatus::Paused),
            OpResult::Failed => Phase::Stopped(JobStatus::Failed),
        }
    }
}

/// The status a job ends with after `finalize`.
pub open spec fn spec_after_finalize(result: OpResult) -> JobStatus {
    match result {
        OpResult::Done => JobStatus::Completed,
        OpResult::EarlyFinish => JobStatus::Completed,
        OpResult::Paused => JobStatus::Paused,
        OpResult::Failed => JobStatus::Failed,
    }
}

/// The status a job ends with after `finalize`.
pub fn after_finalize(result: OpResult) -> (s: JobStatus)
    ensures
        s == spec_after_finalize(result),
{
    match result {
        OpResult::Done => JobStatus::Completed,
        OpResult::EarlyFinish => JobStatus::Completed,
        OpResult::Paused => JobStatus::Paused,
        OpResult::Failed => JobStatus::Failed,
    }
}

/// The bytes of the working data: a zero byte where there is none, a one
/// byte and the counted data where there is.
pub open spec fn spec_encode_data(data: Option<Seq<u8>>) -> Seq<u8> {
    match data {
        None => seq![0u8],
        Some(d) => seq![1u8] + spec_blob(d),
    }
}

/// The bytes of steps, one after the other.
pub open spec fn spec_encode_steps(steps: Seq<Seq<u8>>) -> Seq<u8>
    decreases steps.len(),
{
    if steps.len() == 0 {
        Seq::empty()
    } else {
        spec_encode_steps(steps.drop_last()) + spec_blob(steps.last())
    }
}

/// The seed of a state.
pub open spec fn spec_encode_state(s: JobStateView) -> Seq<u8> {
    spec_count(s.step_number as nat) + spec_blob(s.init) + spec_encode_data(s.data) + spec_count(
        s.steps.len(),
    ) + spec_encode_steps(s.steps)
}

/// The working data that stands at `p`, and the position behind it.
pub open spec fn spec_decode_data(b: Seq<u8>, p: int) -> Option<(Option<Seq<u8>>, int)> {
    if p < 0 || p >= b.len() {
        None
    } else if b[p] == 0 {
        Some((None, p + 1))
    } else if b[p] == 1 {
        match spec_decode_blob(b, p + 1) {
            Some((d, q)) => Some((Some(d), q)),
            None => None,
        }
    } else {
        None
    }
}

/// The `count` steps that stand from `p` on, and the position behind them.
pub open spec fn spec_decode_steps(b: Seq<u8>, p: int, count: nat) -> Option<(Seq<Seq<u8>>, int)>
    decreases count,
{
    if count == 0 {
        Some((Seq::empty(), p))
    } else {
        match spec_decode_steps(b, p, (count - 1) as nat) {
            None => None,
            Some((steps, q)) => match spec_decode_blob(b, q) {
                None => None,
                Some((step, q2)) => Some((steps.push(step), q2)),
            },
        }
    }
}

/// The state that a seed encodes, if it encodes one: every field whole, and
/// nothing behind the last step.
pub open spec fn spec_decode_state(b: Seq<u8>) -> Option<JobStateView> {
    if b.len() < 8 {
        None
    } else {
        let step_number = spec_u64_from_le_bytes(b.subrange(0, 8));
        match spec_decode_blob(b, 8) {
            None => None,
            Some((init, p)) => match spec_decode_data(b, p) {
                None => None,
                Some((data, q)) => if q + 8 > b.len() {
                    None
                } else {
                    let count = spec_u64_from_le_bytes(b.subrange(q, q + 8));
                    match spec_decode_steps(b, q + 8, count as nat) {
                        None => None,
                        Some((steps, end)) => if end != b.len() {
                            None
                        } else {
                            Some(JobStateView { init, data, steps, step_number })
                        },
                    }
                },
            },
        }
    }
}

/// The durable state of one job: its parameters, its working data once
/// `init` has run, the steps that remain, and the number of steps done.
pub struct JobState {
    pub init: Vec<u8>,
    pub data: Option<Vec<u8>>,
    pub steps: Vec<Vec<u8>>,
    pub step_number: u64,
}

impl View for JobState {
    type V = JobStateView;

    open spec fn view(&self) -> JobStateView {
        JobStateView {
            init: self.init@,
            data: match self.data {
                Some(d) => Some(d@),
                None => None,
            },
            steps: self.steps@.map_values(|s: Vec<u8>| s@),
            step_number: self.step_number,
        }
    }
}

impl JobState {
    /// The state of a job that has not run yet.
    pub fn new(init: Vec<u8>) -> (s: JobState)
        ensures
            s@ == (JobStateView {
                init: init@,
                data: None,
                steps: Seq::empty(),
                step_number: 0,
            }),
    {
        let s = JobState { init, data: None, steps: Vec::new(), step_number: 0 };
        assert(s@.steps =~= Seq::empty());
        s
    }

    /// What a worker does first.
    pub fn begin(&self) -> (p: Phase)
        ensures
            p == self@.begin(),
    {
        if self.data.is_none() {
            Phase::Init
        } else {
            self.boundary(None)
        }
    }

    /// What a worker does at a boundary between operations.
    pub fn boundary(&self, command: Option<Command>) -> (p: Phase)
        ensures
            p == self@.boundary(command),
    {
        match command {
            Some(Command::Cancel) => Phase::Stopped(JobStatus::Canceled),
            Some(Command::Pause) => Phase::Stopped(JobStatus::Paused),
            None => if self.steps.len() > 0 {
                Phase::Stepping
            } else {
                Phase::Finalizing
            },
        }
    }

    /// What a worker does after `init`.
    pub fn after_init(&self, result: OpResult, command: Option<Command>) -> (p: Phase)
        ensures
            p == self@.after_init(result, command),
    {
        match result {
            OpResult::Done => if self.data.is_none() {
                Phase::Stopped(JobStatus::Failed)
            } else {
                self.boundary(command)
            },
            OpResult::EarlyFinish => Phase::Finalizing,
            OpResult::Paused => Phase::Stopped(JobStatus::Paused),
            OpResult::Failed => Phase::Stopped(JobStatus::Failed),
        }
    }

    /// Records how the step at the front ended, and says what the worker
    /// does next. A step that did its work leaves the queue and is counted,
    /// whatever was asked meanwhile; any other end leaves the state as it
    /// was.
    pub fn after_step(&mut self, result: OpResult, command: Option<Command>) -> (p: Phase)
        requires
            old(self)@.steps.len() > 0,
            old(self).step_number < u64::MAX,
        ensures
            final(self)@ == old(self)@.step_ended(result),
            p == final(self)@.after_step(result, command),
            result != OpResult::Done ==> *final(self) == *old(self),
    {
        match result {
            OpResult::Done => {
                let _ = self.steps.remove(0);
                self.step_number = self.step_number + 1;
                assert(self@.steps =~= old(self)@.steps.drop_first());
                self.boundary(command)
            },
            OpResult::EarlyFinish => Phase::Finalizing,
            OpResult::Paused => Phase::Stopped(JobStatus::Paused),
            OpResult::Failed => Phase::Stopped(JobStatus::Failed),
        }
    }

    /// The view of a state is well formed: a vector's length fits in 64 bits.
    pub proof fn lemma_view_wf(&self)
        ensures
            self@.wf(),
    {
        assert(self.init.len() <= usize::MAX);
        assert(self.steps.len() <= usize::MAX);
        if let Some(d) = self.data {
            assert(d.len() <= usize::MAX);
        }
        assert forall|i: int| 0 <= i < self@.steps.len() implies (#[trigger] self@.steps[i]).len()
            <= u64::MAX by {
            assert(self.steps@[i].len() <= usize::MAX);
        }
    }

    /// The seed of the state.
    pub fn serialize(&self) -> (out: Vec<u8>)
        ensures
            out@ == spec_encode_state(self@),
    {
        let mut out: Vec<u8> = u64_to_le_bytes(self.step_number);
        encode_blob(&mut out, &self.init);
        match &self.data {
            None => {
                out.push(0);
            },
            Some(d) => {
                out.push(1);
                encode_blob(&mut out, d);
            },
        }
        let count = u64_to_le_bytes(self.steps.len() as u64);
        append_bytes(&mut out, &count);
        let ghost head = out@;
        assert(head =~= spec_count(self@.step_number as nat) + spec_blob(self@.init)
            + spec_encode_data(self@.data) + spec_count(self@.steps.len()));
        let mut i: usize = 0;
        while i < self.steps.len()
            invariant
                i <= self.steps@.len(),
                out@ == head + spec_encode_steps(self@.steps.take(i as int)),
            decreases self.steps@.len() - i,
        {
            encode_blob(&mut out, &self.steps[i]);
            proof {
                let next = self@.steps.take(i + 1);
                assert(next.drop_last() =~= self@.steps.take(i as int));
                assert(next.last() == self.steps@[i as int]@);
                assert(out@ =~= head + spec_encode_steps(next));
            }
            i += 1;
        }
        assert(self@.steps.take(i as int) =~= self@.steps);
        out
    }

    /// The state that a seed encodes; `StateDecode` where it encodes none.
    /// A seed that decodes is the seed of the state it decodes to.
    #[verifier::loop_isolation(false)]
    pub fn deserialize(bytes: &[u8]) -> (r: Result<JobState, JobError>)
        ensures
            match spec_decode_state(bytes@) {
                Some(s) => r matches Ok(x) && x@ == s,
                None => r matches Err(JobError::StateDecode),
            },
            r matches Ok(x) ==> spec_encode_state(x@) == bytes@,
    {
        proof {
            lemma_encode_decode_state(bytes@);
        }
        let step_number = match take_count(bytes, 0) {
            Some(n) => n,
            None => {
                return Err(JobError::StateDecode);
            },
        };
        let (init, p) = match decode_blob(bytes, 8) {
            Some(x) => x,
            None => {
                return Err(JobError::StateDecode);
            },
        };
        if p >= bytes.len() {
            return Err(JobError::StateDecode);
        }
        let flag = bytes[p];
        let (data, q) = if flag == 0 {
            (None, p + 1)
        } else if flag == 1 {
            match decode_blob(bytes, p + 1) {
                Some((d, q)) => (Some(d), q),
                None => {
                    return Err(JobError::StateDecode);
                },
            }
        } else {
            return Err(JobError::StateDecode);
        };
        let count = match take_count(bytes, q) {
            Some(c) => c,
            None => {
                return Err(JobError::StateDecode);
            },
        };
        let ghost b = bytes@;
        let first: usize = q + 8;
        let mut pos: usize = first;
        let mut steps: Vec<Vec<u8>> = Vec::new();
        let mut i: u64 = 0;
        while i < count
            invariant
                i <= count,
                b == bytes@,
                spec_decode_steps(b, first as int, i as nat) == Some(
                    (steps@.map_values(|s: Vec<u8>| s@), pos as int),
                ),
            decreases count - i,
        {
            match decode_blob(bytes, pos) {
                Some((step, next)) => {
                    let ghost before = steps@.map_values(|s: Vec<u8>| s@);
                    steps.push(step);
                    pos = next;
                    assert(steps@.map_values(|s: Vec<u8>| s@) =~= before.push(step@));
                },
                None => {
                    proof {
                        lemma_decode_steps_stays_none(b, first as int, (i + 1) as nat, count as nat);
                    }
                    return Err(JobError::StateDecode);
                },
            }
            i += 1;
        }
        if pos != bytes.len() {
            return Err(JobError::StateDecode);
        }
        Ok(JobState { init, data, steps, step_number })
    }
}

/// Once decoding has failed for a count, it fails for every larger one.
proof fn lemma_decode_steps_stays_none(b: Seq<u8>, p: int, failed: nat, count: nat)
    requires
        spec_decode_steps(b, p, failed) is None,
        failed <= count,
    ensures
        spec_decode_steps(b, p, count) is None,
    decreases count,
{
    if failed < count {
        lemma_decode_steps_stays_none(b, p, failed, (count - 1) as nat);
    }
}

/// Steps whose lengths fit in 64 bits are decoded from where their bytes
/// stand.
proof fn lemma_decode_encoded_steps(b: Seq<u8>, p: int, steps: Seq<Seq<u8>>)
    requires
        spec_holds_at(b, p, spec_encode_steps(steps)),
        forall|i: int| 0 <= i < steps.len() ==> (#[trigger] steps[i]).len() <= u64::MAX,
    ensures
        spec_decode_steps(b, p, steps.len()) == Some((steps, p + spec_encode_steps(steps).len())),
    decreases steps.len(),
{
    if steps.len() == 0 {
        assert(steps =~= Seq::empty());
    } else {
        let init = steps.drop_last();
        lemma_holds_split(b, p, spec_encode_steps(init), spec_blob(steps.last()));
        lemma_decode_encoded_steps(b, p, init);
        lemma_decode_encoded_blob(b, p + spec_encode_steps(init).len(), steps.last());
        assert(init.push(steps.last()) =~= steps);
    }
}

/// Decoding inverts encoding: the seed of a well-formed state decodes to
/// that state.
pub proof fn lemma_decode_encode_state(s: JobStateView)
    requires
        s.wf(),
    ensures
        spec_decode_state(spec_encode_state(s)) == Some(s),
{
    let b = spec_encode_state(s);
    let sn = spec_count(s.step_number as nat);
    let init = spec_blob(s.init);
    let data = spec_encode_data(s.data);
    let count = spec_count(s.steps.len());
    let steps = spec_encode_steps(s.steps);
    lemma_auto_spec_u64_to_from_le_bytes();
    assert(b.subrange(0, b.len() as int) =~= b);
    lemma_holds_split(b, 0, sn + init + data + count, steps);
    lemma_holds_split(b, 0, sn + init + data, count);
    lemma_holds_split(b, 0, sn + init, data);
    lemma_holds_split(b, 0, sn, init);
    assert(b.subrange(0, 8) == sn);
    assert(spec_u64_from_le_bytes(sn) == s.step_number);
    lemma_decode_encoded_blob(b, 8, s.init);
    let p: int = 16 + s.init.len() as int;
    lemma_holds_index(b, p, data, 0);
    match s.data {
        None => {},
        Some(d) => {
            lemma_holds_split(b, p, seq![1u8], spec_blob(d));
            lemma_decode_encoded_blob(b, p + 1, d);
        },
    }
    let q: int = p + data.len() as int;
    assert(spec_decode_data(b, p) == Some((s.data, q)));
    assert(b.subrange(q, q + 8) == count);
    assert(spec_u64_from_le_bytes(count) == s.steps.len());
    lemma_decode_encoded_steps(b, q + 8, s.steps);
    assert(q + 8 + steps.len() == b.len());
}

/// Steps that were decoded have lengths that fit in 64 bits, and their
/// bytes are the ones they were decoded from.
proof fn lemma_encode_decoded_steps(b: Seq<u8>, p: int, count: nat)
    requires
        0 <= p <= b.len(),
    ensures
        spec_decode_steps(b, p, count) matches Some((steps, q)) ==> {
            &&& steps.len() == count
            &&& p <= q <= b.len()
            &&& spec_encode_steps(steps) == b.subrange(p, q)
            &&& forall|i: int| 0 <= i < steps.len() ==> (#[trigger] steps[i]).len() <= u64::MAX
        },
    decreases count,
{
    if count == 0 {
        assert(spec_encode_steps(Seq::empty()) =~= b.subrange(p, p));
    } else {
        lemma_encode_decoded_steps(b, p, (count - 1) as nat);
        if let Some((init, m)) = spec_decode_steps(b, p, (count - 1) as nat) {
            lemma_encode_decoded_blob(b, m);
            if let Some((step, q)) = spec_decode_blob(b, m) {
                let steps = init.push(step);
                assert(steps.drop_last() =~= init);
                assert(steps.last() == step);
                assert(b.subrange(p, m) + b.subrange(m, q) =~= b.subrange(p, q));
            }
        }
    }
}

/// Encoding inverts decoding: a seed that decodes to a state is the seed of
/// that state, and the state is well formed. With
/// `lemma_decode_encode_state`: bytes decode to a state exactly where they
/// are the seed of a well-formed state, and then to that one.
pub proof fn lemma_encode_decode_state(b: Seq<u8>)
    ensures
        spec_decode_state(b) matches Some(s) ==> s.wf() && spec_encode_state(s) == b,
{
    lemma_auto_spec_u64_to_from_le_bytes();
    if let Some(s) = spec_decode_state(b) {
        let sn = b.subrange(0, 8);
        assert(spec_u64_to_le_bytes(spec_u64_from_le_bytes(sn)) == sn);
        lemma_encode_decoded_blob(b, 8);
        let p = spec_decode_blob(b, 8).unwrap().1;
        lemma_encode_decoded_blob(b, p + 1);
        let q = spec_decode_data(b, p).unwrap().1;
        assert(spec_encode_data(s.data) =~= b.subrange(p, q));
        let count = b.subrange(q, q + 8);
        assert(spec_u64_to_le_bytes(spec_u64_from_le_bytes(count)) == count);
        lemma_encode_decoded_steps(b, q + 8, spec_u64_from_le_bytes(count) as nat);
        assert(spec_count(s.steps.len()) == count);
        assert(spec_count(s.step_number as nat) == sn);
        assert(spec_encode_state(s) =~= sn + b.subrange(8, p) + b.subrange(p, q) + count
            + b.subrange(q + 8, b.len() as int));
        assert(spec_encode_state(s) =~= b);
    }
}

/// The state after a run of steps, each with its own end. A step that asks
/// for a pause sends the state through its seed and back, as a restart does.
pub open spec fn spec_replay(s: JobStateView, results: Seq<OpResult>) -> JobStateView
    decreases results.len(),
{
    if results.len() == 0 {
        s
    } else {
        let before = spec_replay(s, results.drop_last());
        match results.last() {
            OpResult::Paused => match spec_decode_state(spec_encode_state(before)) {
                Some(restored) => restored,
                None => before,
            },
            r => before.step_ended(r),
        }
    }
}

/// How many of the steps did their work.
pub open spec fn spec_completed(results: Seq<OpResult>) -> nat
    decreases results.len(),
{
    if results.len() == 0 {
        0
    } else {
        spec_completed(results.drop_last()) + if results.last() == OpResult::Done {
            1nat
        } else {
            0nat
        }
    }
}

/// However pauses and restarts fall between the steps, the step number
/// grows by exactly the number of steps that did their work, as long as the
/// queue holds a step for each and the counter has room.
pub proof fn lemma_step_number_counts_completed(s: JobStateView, results: Seq<OpResult>)
    requires
        s.wf(),
        spec_completed(results) <= s.steps.len(),
        s.step_number + spec_completed(results) <= u64::MAX,
    ensures
        spec_replay(s, results).wf(),
        spec_replay(s, results).step_number == s.step_number + spec_completed(results),
        spec_replay(s, results).steps == s.steps.skip(spec_completed(results) as int),
        spec_replay(s, results).init == s.init,
        spec_replay(s, results).data == s.data,
    decreases results.len(),
{
    if results.len() == 0 {
        assert(s.steps.skip(0) =~= s.steps);
    } else {
        let init = results.drop_last();
        lemma_step_number_counts_completed(s, init);
        let before = spec_replay(s, init);
        lemma_decode_encode_state(before);
        let done = spec_completed(init) as int;
        if results.last() == OpResult::Done {
            assert(s.steps.skip(done).drop_first() =~= s.steps.skip(done + 1));
        }
    }
}

/// Where the pauses and restarts fall does not matter: two runs from one
/// state in which the same number of steps did their work end in the same
/// state.
pub proof fn lemma_pauses_do_not_matter(
    s: JobStateView,
    first: Seq<OpResult>,
    second: Seq<OpResult>,
)
    requires
        s.wf(),
        spec_completed(first) == spec_completed(second),
        spec_completed(first) <= s.steps.len(),
        s.step_number + spec_completed(first) <= u64::MAX,
    ensures
        spec_replay(s, first) == spec_replay(s, second),
{
    lemma_step_number_counts_completed(s, first);
    lemma_step_number_counts_completed(s, second);
}

} // verus!
